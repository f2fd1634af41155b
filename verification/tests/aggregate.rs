//! The attribute aggregator: density-weighted averages and the
//! compare-exchange occlusion estimate.

use voxel_dag::codec::pack_u8_u32;
use voxel_dag::oct_dag::{aggregate_attributes, Node, Octant, NULL_INDEX};

fn leaf(colour: u32, normal: u32) -> Octant {
    Octant { index: NULL_INDEX, colour, normal, extra: 0 }
}

#[test]
fn zero_density_aggregates_to_null_attributes() {
    // Eight empty children carry no density: the division falls back to
    // the zero colour and zero direction rather than failing.
    let node = Node::new();
    let (colour, normal) = aggregate_attributes(&node);
    assert_eq!(colour, 0);
    assert_eq!(normal, 0);
}

#[test]
fn single_opaque_child_dominates() {
    let mut node = Node::new();
    node.octants[0] = leaf(
        pack_u8_u32((255, 0, 0, 255)),
        pack_u8_u32((255, 0, 0, 255)),
    );
    let (colour, normal) = aggregate_attributes(&node);
    // The weighted average over one child of weight 255 is that child; the
    // occlusion estimate over densities (255, 0, .., 0) is 255.
    assert_eq!(colour, pack_u8_u32((255, 0, 0, 255)));
    assert_eq!(normal, pack_u8_u32((255, 0, 0, 255)));
}

#[test]
fn two_children_average_by_density() {
    let mut node = Node::new();
    // One red child of density 255 and one blue child of density 85: the
    // averages floor to (red * 255 + 0) / 340 and (0 + blue * 85) / 340.
    node.octants[0] = leaf(
        pack_u8_u32((200, 0, 0, 255)),
        pack_u8_u32((0, 0, 0, 255)),
    );
    node.octants[1] = leaf(
        pack_u8_u32((0, 0, 100, 255)),
        pack_u8_u32((0, 0, 0, 85)),
    );
    let (colour, normal) = aggregate_attributes(&node);
    let w: u32 = 255 + 85;
    let r = (200 * 255) / w;
    let b = (100 * 85) / w;
    let a = (255 * 255 + 255 * 85) / w;
    assert_eq!(colour, pack_u8_u32((r as u8, 0, b as u8, a as u8)));
    // Densities (255, 85, 0, ..): the network sums the two largest of the
    // front half, saturating at 255.
    assert_eq!(normal, pack_u8_u32((0, 0, 0, 255)));
}

#[test]
fn occlusion_estimate_sums_position_survivors() {
    let mut node = Node::new();
    // Densities 10, 20, 30, 40 in the front half: after the partial sort
    // the summed positions hold max(min(10,20), min(30,40)) = 30 and
    // max(max(10,20), max(30,40)) = 40; the back half is empty.
    node.octants[0] = leaf(0, pack_u8_u32((0, 0, 0, 10)));
    node.octants[1] = leaf(0, pack_u8_u32((0, 0, 0, 20)));
    node.octants[2] = leaf(0, pack_u8_u32((0, 0, 0, 30)));
    node.octants[3] = leaf(0, pack_u8_u32((0, 0, 0, 40)));
    let (_, normal) = aggregate_attributes(&node);
    assert_eq!(normal & 0xFF, 30 + 40);
}
