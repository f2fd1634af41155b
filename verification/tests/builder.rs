//! The octree DAG builder: configuration validation, determinism, DAG
//! well-formedness, the node count bound, dedup sharing and the wire
//! layout.

use voxel_dag::oct_dag::{OctDag, NULL_INDEX};
use voxel_dag::scene::{ConfigError, TestDagType};

fn naive_count(max_depth: u32) -> usize {
    // 1 + 8^1 + ... + 8^(max_depth - 1): the root plus one node per
    // possible interior cell.
    let mut total: usize = 1;
    let mut level: usize = 1;
    for _ in 1..max_depth {
        level *= 8;
        total += level;
    }
    total
}

fn assert_dag_well_formed(dag: &OctDag) {
    // Every non-sentinel child index points inside the graph; below the
    // root it points to a strictly earlier node, and never to the root.
    assert!(dag.nodes.len() >= 1);
    for (i, node) in dag.nodes.iter().enumerate() {
        for octant in node.octants.iter() {
            if octant.index != NULL_INDEX {
                assert!((octant.index as usize) < dag.nodes.len());
                assert!(octant.index >= 1);
                if i >= 1 {
                    assert!((octant.index as usize) < i);
                }
            }
        }
    }
}

#[test]
fn depth_outside_range_is_refused() {
    assert!(matches!(
        OctDag::new_test(TestDagType::Box, 0),
        Err(ConfigError::DepthOutOfRange)
    ));
    assert!(matches!(
        OctDag::new_test(TestDagType::Box, 1),
        Err(ConfigError::DepthOutOfRange)
    ));
    assert!(matches!(
        OctDag::new_test(TestDagType::Pillar, 17),
        Err(ConfigError::DepthOutOfRange)
    ));
}

#[test]
fn depth_below_preset_minimum_is_refused() {
    assert!(matches!(
        OctDag::new_test(TestDagType::Pillar, 2),
        Err(ConfigError::DepthBelowPresetMin)
    ));
    assert!(matches!(
        OctDag::new_test(TestDagType::Pillar, 3),
        Err(ConfigError::DepthBelowPresetMin)
    ));
    assert!(OctDag::new_test(TestDagType::Pillar, 4).is_ok());
    assert!(OctDag::new_test(TestDagType::Box, 2).is_ok());
}

#[test]
fn building_twice_is_byte_identical() {
    let a = OctDag::new_test(TestDagType::Box, 4).unwrap();
    let b = OctDag::new_test(TestDagType::Box, 4).unwrap();
    assert_eq!(a.words(), b.words());
    let a = OctDag::new_test(TestDagType::Pillar, 5).unwrap();
    let b = OctDag::new_test(TestDagType::Pillar, 5).unwrap();
    assert_eq!(a.words(), b.words());
}

#[test]
fn node_count_stays_under_naive_octree() {
    for depth in 2..6u32 {
        let dag = OctDag::new_test(TestDagType::Box, depth).unwrap();
        assert!(dag.nodes.len() <= naive_count(depth));
    }
    let dag = OctDag::new_test(TestDagType::Pillar, 5).unwrap();
    assert!(dag.nodes.len() <= naive_count(5));
}

#[test]
fn graphs_are_well_formed_dags() {
    assert_dag_well_formed(&OctDag::new_test(TestDagType::Box, 2).unwrap());
    assert_dag_well_formed(&OctDag::new_test(TestDagType::Box, 5).unwrap());
    assert_dag_well_formed(&OctDag::new_test(TestDagType::Pillar, 4).unwrap());
    assert_dag_well_formed(&OctDag::new_test(TestDagType::Pillar, 6).unwrap());
}

#[test]
fn identical_subtrees_share_one_node() {
    // The box walls repeat the same local patterns all over each face, so
    // the graph must collapse far below the naive octree and some node
    // must be referenced from more than one octant.
    let dag = OctDag::new_test(TestDagType::Box, 5).unwrap();
    assert!(dag.nodes.len() < naive_count(5) / 2);
    let mut reference_counts = vec![0usize; dag.nodes.len()];
    for node in dag.nodes.iter() {
        for octant in node.octants.iter() {
            if octant.index != NULL_INDEX {
                reference_counts[octant.index as usize] += 1;
            }
        }
    }
    assert!(reference_counts.iter().any(|&c| c >= 2));
}

#[test]
fn wire_layout_flattens_nodes_in_order() {
    let dag = OctDag::new_test(TestDagType::Box, 3).unwrap();
    let words = dag.words();
    assert_eq!(words.len(), 32 * dag.nodes.len());
    for (i, node) in dag.nodes.iter().enumerate() {
        for (k, octant) in node.octants.iter().enumerate() {
            assert_eq!(words[32 * i + 4 * k], octant.index);
            assert_eq!(words[32 * i + 4 * k + 1], octant.colour);
            assert_eq!(words[32 * i + 4 * k + 2], octant.normal);
            assert_eq!(words[32 * i + 4 * k + 3], octant.extra);
        }
    }
}

#[test]
fn scene_lists_follow_the_preset() {
    let box_scene = TestDagType::Box.new(2).unwrap();
    assert_eq!(box_scene.len(), 1);
    let pillar_scene = TestDagType::Pillar.new(4).unwrap();
    assert_eq!(pillar_scene.len(), 3);
    assert!(TestDagType::Pillar.new(3).is_err());
}
