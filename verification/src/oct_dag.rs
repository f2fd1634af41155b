//! The octree DAG itself: leaf-or-pointer records (`Octant`), nodes of eight
//! octants (`Node`), and the growable node list (`OctDag`) whose index 0 is
//! the root.

use vstd::prelude::*;

verus! {

use crate::codec::{
    pack_u8_u32, spec_byte0, spec_byte1, spec_byte2, spec_byte3, spec_pack, unpack_u8_u32,
};
use crate::geom::IVec3;
use crate::material::{lemma_colour_word_range, spec_colour_word, ColourType};
use crate::num::{isqrt_u64, lemma_isqrt_le, pow2_i32, spec_isqrt};
use crate::scene::{ConfigError, TestDagType};
use crate::volume::{
    lemma_sample_bounds, select_volume, spec_abs, spec_dir, spec_dist10, spec_selected, VolumeType,
};
use vstd::arithmetic::power2::{
    lemma2_to64, lemma_pow2_pos, lemma_pow2_strictly_increases, lemma_pow2_unfold, pow2,
};

/// The `childIndex` sentinel meaning "this octant is a leaf: no child node".
pub const NULL_INDEX: u32 = 0xFFFF_FFFF;

/// A leaf-or-pointer record: one of the eight octants of a node.
///
/// `index` is the child node's position in the graph, or `NULL_INDEX` for a
/// leaf. `colour` and `normal` are packed four-channel words (the `normal`
/// word carries a surface direction in its first three channels and a
/// density/alpha byte in its last). `extra` is reserved and always zero here.
#[derive(Clone, Copy, PartialEq, Eq, Structural)]
pub struct Octant {
    pub index: u32,
    pub colour: u32,
    pub normal: u32,
    pub extra: u32,
}

/// A node: exactly eight octants, indexed by a 3-bit code whose bits select
/// the sign of each axis (bit 0 = +x, bit 1 = +y, bit 2 = +z).
#[derive(Clone, Copy)]
pub struct Node {
    pub octants: [Octant; 8],
}

/// The graph: an append-only list of nodes. Index 0 is the root; every other
/// node is appended by the recursive builder, children before parents.
pub struct OctDag {
    pub nodes: Vec<Node>,
}

impl Octant {
    /// The empty octant: a leaf with null attributes.
    pub fn new() -> (r: Octant)
        ensures
            r == spec_empty_octant(),
    {
        Octant { index: NULL_INDEX, colour: 0, normal: 0, extra: 0 }
    }
}

/// The empty octant: a leaf with null attributes, also what empty space
/// carries.
pub open spec fn spec_empty_octant() -> Octant {
    Octant { index: NULL_INDEX, colour: 0, normal: 0, extra: 0 }
}

impl Node {
    /// A node of eight empty octants.
    pub fn new() -> (r: Node)
        ensures
            r == spec_empty_node(),
    {
        Node { octants: [Octant::new(), Octant::new(), Octant::new(), Octant::new(),
                Octant::new(), Octant::new(), Octant::new(), Octant::new()] }
    }
}

/// A node of eight empty octants.
pub open spec fn spec_empty_node() -> Node {
    Node { octants: [spec_empty_octant(), spec_empty_octant(), spec_empty_octant(),
            spec_empty_octant(), spec_empty_octant(), spec_empty_octant(),
            spec_empty_octant(), spec_empty_octant()] }
}

/// An octant reference is a leaf, or points to a node strictly below
/// `bound` (and never to the root).
pub open spec fn octant_wf(o: Octant, bound: int) -> bool {
    o.index == NULL_INDEX || (1 <= o.index < bound)
}

/// Every octant of the node satisfies `octant_wf` for `bound`.
pub open spec fn node_wf(n: Node, bound: int) -> bool {
    forall|k: int| 0 <= k < 8 ==> octant_wf(#[trigger] n.octants[k], bound)
}

/// DAG well-formedness: the graph is non-empty; the root's octants point
/// inside the graph; every other node's octants point to nodes appended
/// strictly earlier than itself. References thus strictly decrease along
/// any path below the root, so the graph is acyclic.
pub open spec fn dag_wf(nodes: Seq<Node>) -> bool {
    &&& nodes.len() >= 1
    &&& node_wf(nodes[0], nodes.len() as int)
    &&& forall|i: int| 1 <= i < nodes.len() ==> node_wf(#[trigger] nodes[i], i)
}

/// Node `i` holds a non-sentinel octant referencing node `j`.
pub open spec fn spec_child_ref(nodes: Seq<Node>, i: int, j: int) -> bool {
    exists|k: int|
        0 <= k < 8 && (#[trigger] nodes[i].octants[k]).index != NULL_INDEX
            && nodes[i].octants[k].index == j
}

/// Below the root every child reference strictly decreases, so a chain of
/// references starting at a non-root node ends strictly below its start.
proof fn lemma_trail_descends(nodes: Seq<Node>, trail: Seq<int>)
    requires
        dag_wf(nodes),
        trail.len() >= 2,
        1 <= trail[0],
        forall|t: int| 0 <= t < trail.len() ==> 0 <= #[trigger] trail[t] < nodes.len(),
        forall|t: int|
            0 <= t < trail.len() - 1 ==> spec_child_ref(nodes, #[trigger] trail[t], trail[t + 1]),
    ensures
        1 <= trail[trail.len() - 1] < trail[0],
    decreases trail.len(),
{
    assert(spec_child_ref(nodes, trail[0], trail[1]));
    let k = choose|k: int|
        0 <= k < 8 && (#[trigger] nodes[trail[0]].octants[k]).index != NULL_INDEX
            && nodes[trail[0]].octants[k].index == trail[1];
    assert(node_wf(nodes[trail[0]], trail[0]));
    assert(octant_wf(nodes[trail[0]].octants[k], trail[0]));
    assert(1 <= trail[1] < trail[0]);
    if trail.len() > 2 {
        let rest = trail.subrange(1, trail.len() as int);
        assert forall|t: int| 0 <= t < rest.len() implies 0 <= #[trigger] rest[t] < nodes.len() by {
            assert(rest[t] == trail[t + 1]);
        }
        assert forall|t: int| 0 <= t < rest.len() - 1 implies spec_child_ref(
            nodes,
            #[trigger] rest[t],
            rest[t + 1],
        ) by {
            assert(rest[t] == trail[t + 1] && rest[t + 1] == trail[t + 2]);
        }
        lemma_trail_descends(nodes, rest);
        assert(rest[rest.len() - 1] == trail[trail.len() - 1]);
    }
}

/// Acyclicity: in a well-formed graph no chain of child references returns
/// to its starting node. Nothing references the root, and below it every
/// reference points to a node appended strictly earlier.
pub proof fn lemma_dag_acyclic(nodes: Seq<Node>, trail: Seq<int>)
    requires
        dag_wf(nodes),
        trail.len() >= 2,
        forall|t: int| 0 <= t < trail.len() ==> 0 <= #[trigger] trail[t] < nodes.len(),
        forall|t: int|
            0 <= t < trail.len() - 1 ==> spec_child_ref(nodes, #[trigger] trail[t], trail[t + 1]),
    ensures
        trail[0] != trail[trail.len() - 1],
{
    if trail[0] == 0 {
        let t = trail.len() - 2;
        assert(spec_child_ref(nodes, trail[t], trail[t + 1]));
        let k = choose|k: int|
            0 <= k < 8 && (#[trigger] nodes[trail[t]].octants[k]).index != NULL_INDEX
                && nodes[trail[t]].octants[k].index == trail[t + 1];
        if trail[t] == 0 {
            assert(node_wf(nodes[0], nodes.len() as int));
            assert(octant_wf(nodes[trail[t]].octants[k], nodes.len() as int));
        } else {
            assert(node_wf(nodes[trail[t]], trail[t]));
            assert(octant_wf(nodes[trail[t]].octants[k], trail[t]));
        }
        assert(trail[trail.len() - 1] >= 1);
    } else {
        lemma_trail_descends(nodes, trail);
    }
}

/// One quantized channel of a unit direction: 255 * c / sqrt(s2), floored,
/// with negative components clamped to zero. `s2` is the squared length of
/// the direction.
pub open spec fn spec_normal_byte(c: int, s2: int) -> int {
    if c <= 0 {
        0
    } else {
        spec_isqrt((((255 * c) * (255 * c)) / s2) as nat) as int
    }
}

/// The packed direction word a leaf bakes: the direction scaled to unit
/// length and quantized per channel, with the density channel at 255. A
/// zero-length direction packs as the zero vector.
pub open spec fn spec_leaf_normal_word(dx: int, dy: int, dz: int) -> int {
    let s2 = dx * dx + dy * dy + dz * dz;
    if s2 == 0 {
        spec_pack(0, 0, 0, 255)
    } else {
        spec_pack(
            spec_normal_byte(dx, s2),
            spec_normal_byte(dy, s2),
            spec_normal_byte(dz, s2),
            255,
        )
    }
}

/// A quantized direction channel is a byte value whenever c^2 <= s2.
pub proof fn lemma_normal_byte_range(c: int, s2: int)
    requires
        1 <= s2,
        c * c <= s2,
    ensures
        0 <= spec_normal_byte(c, s2) <= 255,
{
    if c > 0 {
        let a = 255 * c;
        assert(a * a <= 65025 * s2) by (nonlinear_arith)
            requires c * c <= s2, 0 < c, a == 255 * c,
        ;
        vstd::arithmetic::div_mod::lemma_div_is_ordered(a * a, 65025 * s2, s2);
        vstd::arithmetic::div_mod::lemma_div_multiples_vanish(65025, s2);
        vstd::arithmetic::div_mod::lemma_div_pos_is_pos(a * a, s2);
        assert((a * a) / s2 <= 65025);
        lemma_isqrt_le(((a * a) / s2) as nat, 255);
    }
}

/// One quantized direction channel, as executable arithmetic.
fn normal_byte(c: i64, s2: i64) -> (r: u8)
    requires
        1 <= s2 <= 0x20_0000_0000i64,
        c * c <= s2,
    ensures
        r == spec_normal_byte(c as int, s2 as int),
{
    proof {
        lemma_normal_byte_range(c as int, s2 as int);
    }
    if c <= 0 {
        0
    } else {
        proof {
            assert(c <= 0x6_0000) by (nonlinear_arith)
                requires 0 < c, c * c <= 0x20_0000_0000i64,
            ;
        }
        let a = 255 * c;
        proof {
            assert(a * a <= 65025 * s2) by (nonlinear_arith)
                requires c * c <= s2, 0 < c, a == 255 * c,
            ;
            assert(65025 * s2 <= 0x2000_0000_0000_0000) by (nonlinear_arith)
                requires s2 <= 0x20_0000_0000i64,
            ;
            vstd::arithmetic::div_mod::lemma_div_pos_is_pos(a as int * a as int, s2 as int);
            vstd::arithmetic::div_mod::lemma_div_is_ordered(a as int * a as int, 65025 * s2, s2 as int);
            vstd::arithmetic::div_mod::lemma_div_multiples_vanish(65025, s2 as int);
        }
        let q = (a * a) / s2;
        isqrt_u64(q as u64) as u8
    }
}

/// Bakes the packed direction word of a leaf from an unnormalized
/// direction: each channel scaled to unit length and quantized, density 255.
fn leaf_normal_word(dx: i64, dy: i64, dz: i64) -> (r: u32)
    requires
        -200000 <= dx <= 200000,
        -200000 <= dy <= 200000,
        -200000 <= dz <= 200000,
    ensures
        r == spec_leaf_normal_word(dx as int, dy as int, dz as int) as u32,
        0 <= spec_leaf_normal_word(dx as int, dy as int, dz as int) <= u32::MAX,
{
    proof {
        assert(0 <= dx * dx <= 0x9_6000_0000i64 && 0 <= dy * dy <= 0x9_6000_0000i64 && 0 <= dz
            * dz <= 0x9_6000_0000i64) by (nonlinear_arith)
            requires
                -200000 <= dx <= 200000,
                -200000 <= dy <= 200000,
                -200000 <= dz <= 200000,
        ;
    }
    let s2 = dx * dx + dy * dy + dz * dz;
    if s2 == 0 {
        pack_u8_u32((0, 0, 0, 255))
    } else {
        proof {
            assert(dx * dx <= s2 && dy * dy <= s2 && dz * dz <= s2);
            lemma_normal_byte_range(dx as int, s2 as int);
            lemma_normal_byte_range(dy as int, s2 as int);
            lemma_normal_byte_range(dz as int, s2 as int);
        }
        let bx = normal_byte(dx, s2);
        let by = normal_byte(dy, s2);
        let bz = normal_byte(dz, s2);
        pack_u8_u32((bx, by, bz, 255))
    }
}

/// The smaller of two values.
pub open spec fn spec_min2(a: int, b: int) -> int {
    if a <= b {
        a
    } else {
        b
    }
}

/// The larger of two values.
pub open spec fn spec_max2(a: int, b: int) -> int {
    if a <= b {
        b
    } else {
        a
    }
}

/// The density/alpha byte of an octant: the low byte of its normal word.
pub open spec fn spec_density(o: Octant) -> int {
    spec_byte3(o.normal)
}

/// Channel `ch` of a packed word, channel 0 most significant.
pub open spec fn spec_chan(w: u32, ch: int) -> int {
    if ch == 0 {
        spec_byte0(w)
    } else if ch == 1 {
        spec_byte1(w)
    } else if ch == 2 {
        spec_byte2(w)
    } else {
        spec_byte3(w)
    }
}

/// The summed density of a node's eight octants: the aggregation weight.
pub open spec fn spec_weight_sum(n: Node) -> int {
    spec_density(n.octants[0]) + spec_density(n.octants[1]) + spec_density(n.octants[2])
        + spec_density(n.octants[3]) + spec_density(n.octants[4]) + spec_density(n.octants[5])
        + spec_density(n.octants[6]) + spec_density(n.octants[7])
}

/// The occlusion estimate of the fixed compare-exchange network over the
/// eight density bytes: after the three partial sorting stages, the values
/// standing at positions 2, 3, 6 and 7 are summed (saturating at 255). In
/// closed form these are the two largest order statistics of each half
/// after the first two stages.
pub open spec fn spec_agg_density(n: Node) -> int {
    let d0 = spec_density(n.octants[0]);
    let d1 = spec_density(n.octants[1]);
    let d2 = spec_density(n.octants[2]);
    let d3 = spec_density(n.octants[3]);
    let d4 = spec_density(n.octants[4]);
    let d5 = spec_density(n.octants[5]);
    let d6 = spec_density(n.octants[6]);
    let d7 = spec_density(n.octants[7]);
    let front = spec_max2(spec_min2(d0, d1), spec_min2(d2, d3)) + spec_max2(
        spec_max2(d0, d1),
        spec_max2(d2, d3),
    );
    let back = spec_max2(spec_min2(d4, d5), spec_min2(d6, d7)) + spec_max2(
        spec_max2(d4, d5),
        spec_max2(d6, d7),
    );
    if front + back > 255 {
        255
    } else {
        front + back
    }
}

/// The density-weighted sum of colour channel `ch` over a node's octants.
pub open spec fn spec_colour_dot(n: Node, ch: int) -> int {
    spec_chan(n.octants[0].colour, ch) * spec_density(n.octants[0]) + spec_chan(
        n.octants[1].colour,
        ch,
    ) * spec_density(n.octants[1]) + spec_chan(n.octants[2].colour, ch) * spec_density(
        n.octants[2],
    ) + spec_chan(n.octants[3].colour, ch) * spec_density(n.octants[3]) + spec_chan(
        n.octants[4].colour,
        ch,
    ) * spec_density(n.octants[4]) + spec_chan(n.octants[5].colour, ch) * spec_density(
        n.octants[5],
    ) + spec_chan(n.octants[6].colour, ch) * spec_density(n.octants[6]) + spec_chan(
        n.octants[7].colour,
        ch,
    ) * spec_density(n.octants[7])
}

/// The density-weighted sum of normal channel `ch` over a node's octants.
pub open spec fn spec_normal_dot(n: Node, ch: int) -> int {
    spec_chan(n.octants[0].normal, ch) * spec_density(n.octants[0]) + spec_chan(
        n.octants[1].normal,
        ch,
    ) * spec_density(n.octants[1]) + spec_chan(n.octants[2].normal, ch) * spec_density(
        n.octants[2],
    ) + spec_chan(n.octants[3].normal, ch) * spec_density(n.octants[3]) + spec_chan(
        n.octants[4].normal,
        ch,
    ) * spec_density(n.octants[4]) + spec_chan(n.octants[5].normal, ch) * spec_density(
        n.octants[5],
    ) + spec_chan(n.octants[6].normal, ch) * spec_density(n.octants[6]) + spec_chan(
        n.octants[7].normal,
        ch,
    ) * spec_density(n.octants[7])
}

/// The aggregated colour word of an interior node: every channel is the
/// density-weighted average of the children's channels. With zero summed
/// density the colour is the zero word.
pub open spec fn spec_agg_colour(n: Node) -> int {
    let w = spec_weight_sum(n);
    if w == 0 {
        0
    } else {
        spec_pack(
            spec_colour_dot(n, 0) / w,
            spec_colour_dot(n, 1) / w,
            spec_colour_dot(n, 2) / w,
            spec_colour_dot(n, 3) / w,
        )
    }
}

/// The aggregated normal word of an interior node: the direction channels
/// are density-weighted averages of the children's, and the density channel
/// is the compare-exchange network's occlusion estimate. With zero summed
/// density the direction channels are zero.
pub open spec fn spec_agg_normal(n: Node) -> int {
    let w = spec_weight_sum(n);
    let nx = if w == 0 {
        0
    } else {
        spec_normal_dot(n, 0) / w
    };
    let ny = if w == 0 {
        0
    } else {
        spec_normal_dot(n, 1) / w
    };
    let nz = if w == 0 {
        0
    } else {
        spec_normal_dot(n, 2) / w
    };
    spec_pack(nx, ny, nz, spec_agg_density(n))
}

/// A weighted byte sum is at most 255 times the summed weights.
proof fn lemma_dot8_le(
    b0: int, b1: int, b2: int, b3: int, b4: int, b5: int, b6: int, b7: int,
    w0: int, w1: int, w2: int, w3: int, w4: int, w5: int, w6: int, w7: int,
)
    requires
        0 <= b0 <= 255, 0 <= b1 <= 255, 0 <= b2 <= 255, 0 <= b3 <= 255,
        0 <= b4 <= 255, 0 <= b5 <= 255, 0 <= b6 <= 255, 0 <= b7 <= 255,
        0 <= w0, 0 <= w1, 0 <= w2, 0 <= w3, 0 <= w4, 0 <= w5, 0 <= w6, 0 <= w7,
    ensures
        0 <= b0 * w0 + b1 * w1 + b2 * w2 + b3 * w3 + b4 * w4 + b5 * w5 + b6 * w6 + b7 * w7
            <= 255 * (w0 + w1 + w2 + w3 + w4 + w5 + w6 + w7),
{
    assert(0 <= b0 * w0 <= 255 * w0) by (nonlinear_arith)
        requires 0 <= b0 <= 255, 0 <= w0,
    ;
    assert(0 <= b1 * w1 <= 255 * w1) by (nonlinear_arith)
        requires 0 <= b1 <= 255, 0 <= w1,
    ;
    assert(0 <= b2 * w2 <= 255 * w2) by (nonlinear_arith)
        requires 0 <= b2 <= 255, 0 <= w2,
    ;
    assert(0 <= b3 * w3 <= 255 * w3) by (nonlinear_arith)
        requires 0 <= b3 <= 255, 0 <= w3,
    ;
    assert(0 <= b4 * w4 <= 255 * w4) by (nonlinear_arith)
        requires 0 <= b4 <= 255, 0 <= w4,
    ;
    assert(0 <= b5 * w5 <= 255 * w5) by (nonlinear_arith)
        requires 0 <= b5 <= 255, 0 <= w5,
    ;
    assert(0 <= b6 * w6 <= 255 * w6) by (nonlinear_arith)
        requires 0 <= b6 <= 255, 0 <= w6,
    ;
    assert(0 <= b7 * w7 <= 255 * w7) by (nonlinear_arith)
        requires 0 <= b7 <= 255, 0 <= w7,
    ;
}

/// A weighted average of bytes is a byte.
proof fn lemma_wavg_range(dot: int, w: int)
    requires
        1 <= w,
        0 <= dot <= 255 * w,
    ensures
        0 <= dot / w <= 255,
{
    vstd::arithmetic::div_mod::lemma_div_pos_is_pos(dot, w);
    vstd::arithmetic::div_mod::lemma_div_is_ordered(dot, 255 * w, w);
    vstd::arithmetic::div_mod::lemma_div_multiples_vanish(255, w);
    assert(w * 255 == 255 * w);
}

/// The smaller value first: one compare-exchange of the sorting network.
fn sort2(a: u8, b: u8) -> (r: (u8, u8))
    ensures
        r.0 == spec_min2(a as int, b as int),
        r.1 == spec_max2(a as int, b as int),
{
    if a > b {
        (b, a)
    } else {
        (a, b)
    }
}

/// The density-weighted average of eight byte channels, rounded down.
fn wavg8(
    b0: u8, b1: u8, b2: u8, b3: u8, b4: u8, b5: u8, b6: u8, b7: u8,
    w0: u8, w1: u8, w2: u8, w3: u8, w4: u8, w5: u8, w6: u8, w7: u8,
    w: u32,
) -> (r: u8)
    requires
        w == w0 + w1 + w2 + w3 + w4 + w5 + w6 + w7,
        1 <= w,
    ensures
        r == (b0 * w0 + b1 * w1 + b2 * w2 + b3 * w3 + b4 * w4 + b5 * w5 + b6 * w6 + b7 * w7)
            as int / w as int,
{
    proof {
        lemma_dot8_le(
            b0 as int, b1 as int, b2 as int, b3 as int,
            b4 as int, b5 as int, b6 as int, b7 as int,
            w0 as int, w1 as int, w2 as int, w3 as int,
            w4 as int, w5 as int, w6 as int, w7 as int,
        );
    }
    let dot: u32 = (b0 as u32) * (w0 as u32) + (b1 as u32) * (w1 as u32) + (b2 as u32) * (w2
        as u32) + (b3 as u32) * (w3 as u32) + (b4 as u32) * (w4 as u32) + (b5 as u32) * (w5
        as u32) + (b6 as u32) * (w6 as u32) + (b7 as u32) * (w7 as u32);
    proof {
        lemma_wavg_range(dot as int, w as int);
    }
    (dot / w) as u8
}

/// Aggregates the eight octants of a node into the parent octant's own
/// colour and normal words: every colour and direction channel is the
/// density-weighted average of the children's, and the aggregated density
/// is the compare-exchange network's occlusion estimate.
pub fn aggregate_attributes(n: &Node) -> (r: (u32, u32))
    ensures
        r.0 == spec_agg_colour(*n) as u32,
        r.1 == spec_agg_normal(*n) as u32,
        0 <= spec_agg_colour(*n) <= u32::MAX,
        0 <= spec_agg_normal(*n) <= u32::MAX,
{
    let (c0r, c0g, c0b, c0a) = unpack_u8_u32(n.octants[0].colour);
    let (c1r, c1g, c1b, c1a) = unpack_u8_u32(n.octants[1].colour);
    let (c2r, c2g, c2b, c2a) = unpack_u8_u32(n.octants[2].colour);
    let (c3r, c3g, c3b, c3a) = unpack_u8_u32(n.octants[3].colour);
    let (c4r, c4g, c4b, c4a) = unpack_u8_u32(n.octants[4].colour);
    let (c5r, c5g, c5b, c5a) = unpack_u8_u32(n.octants[5].colour);
    let (c6r, c6g, c6b, c6a) = unpack_u8_u32(n.octants[6].colour);
    let (c7r, c7g, c7b, c7a) = unpack_u8_u32(n.octants[7].colour);
    let (n0x, n0y, n0z, d0) = unpack_u8_u32(n.octants[0].normal);
    let (n1x, n1y, n1z, d1) = unpack_u8_u32(n.octants[1].normal);
    let (n2x, n2y, n2z, d2) = unpack_u8_u32(n.octants[2].normal);
    let (n3x, n3y, n3z, d3) = unpack_u8_u32(n.octants[3].normal);
    let (n4x, n4y, n4z, d4) = unpack_u8_u32(n.octants[4].normal);
    let (n5x, n5y, n5z, d5) = unpack_u8_u32(n.octants[5].normal);
    let (n6x, n6y, n6z, d6) = unpack_u8_u32(n.octants[6].normal);
    let (n7x, n7y, n7z, d7) = unpack_u8_u32(n.octants[7].normal);

    // The three partial sorting stages of the compare-exchange network,
    // then the occlusion sum of positions 2, 3, 6 and 7.
    let (p0, p1) = sort2(d0, d1);
    let (p2, p3) = sort2(d2, d3);
    let (p4, p5) = sort2(d4, d5);
    let (p6, p7) = sort2(d6, d7);
    let (q0, q2) = sort2(p0, p2);
    let (q4, q6) = sort2(p4, p6);
    let (r1, r3) = sort2(p1, p3);
    let (r5, r7) = sort2(p5, p7);
    let (t2, t3) = sort2(q2, r3);
    let (t6, t7) = sort2(q6, r7);
    let dsum: u32 = t2 as u32 + t3 as u32 + t6 as u32 + t7 as u32;
    let density: u8 = if dsum > 255 {
        255
    } else {
        dsum as u8
    };
    proof {
        assert(density == spec_agg_density(*n));
    }

    let w: u32 = d0 as u32 + d1 as u32 + d2 as u32 + d3 as u32 + d4 as u32 + d5 as u32 + d6
        as u32 + d7 as u32;
    if w == 0 {
        let normal_word = pack_u8_u32((0, 0, 0, density));
        proof {
            assert(spec_agg_colour(*n) == 0);
        }
        (0, normal_word)
    } else {
        let cr = wavg8(c0r, c1r, c2r, c3r, c4r, c5r, c6r, c7r, d0, d1, d2, d3, d4, d5, d6, d7, w);
        let cg = wavg8(c0g, c1g, c2g, c3g, c4g, c5g, c6g, c7g, d0, d1, d2, d3, d4, d5, d6, d7, w);
        let cb = wavg8(c0b, c1b, c2b, c3b, c4b, c5b, c6b, c7b, d0, d1, d2, d3, d4, d5, d6, d7, w);
        let ca = wavg8(c0a, c1a, c2a, c3a, c4a, c5a, c6a, c7a, d0, d1, d2, d3, d4, d5, d6, d7, w);
        let nx = wavg8(n0x, n1x, n2x, n3x, n4x, n5x, n6x, n7x, d0, d1, d2, d3, d4, d5, d6, d7, w);
        let ny = wavg8(n0y, n1y, n2y, n3y, n4y, n5y, n6y, n7y, d0, d1, d2, d3, d4, d5, d6, d7, w);
        let nz = wavg8(n0z, n1z, n2z, n3z, n4z, n5z, n6z, n7z, d0, d1, d2, d3, d4, d5, d6, d7, w);
        let colour_word = pack_u8_u32((cr, cg, cb, ca));
        let normal_word = pack_u8_u32((nx, ny, nz, density));
        (colour_word, normal_word)
    }
}

/// Structural equality of one octant slot under deduplication: two leaf
/// slots match when their colours agree; a pointer slot matches only the
/// same child index. Leaf directions are not compared.
pub open spec fn spec_octant_match(cand: Octant, ex: Octant) -> bool {
    if cand.index == NULL_INDEX {
        ex.index == NULL_INDEX && ex.colour == cand.colour
    } else {
        ex.index == cand.index
    }
}

/// Structural equality of two nodes under deduplication: every slot matches.
pub open spec fn spec_node_match(cand: Node, ex: Node) -> bool {
    forall|k: int| 0 <= k < 8 ==> spec_octant_match(#[trigger] cand.octants[k], ex.octants[k])
}

/// Structural node equality is symmetric.
pub proof fn lemma_node_match_sym(a: Node, b: Node)
    ensures
        spec_node_match(a, b) == spec_node_match(b, a),
{
    if spec_node_match(a, b) {
        assert forall|k: int| 0 <= k < 8 implies spec_octant_match(
            #[trigger] b.octants[k],
            a.octants[k],
        ) by {
            assert(spec_octant_match(a.octants[k], b.octants[k]));
        }
    }
    if spec_node_match(b, a) {
        assert forall|k: int| 0 <= k < 8 implies spec_octant_match(
            #[trigger] a.octants[k],
            b.octants[k],
        ) by {
            assert(spec_octant_match(b.octants[k], a.octants[k]));
        }
    }
}

/// Tests one octant slot for a structural match.
fn octant_match(cand: &Octant, ex: &Octant) -> (r: bool)
    ensures
        r == spec_octant_match(*cand, *ex),
{
    if cand.index == NULL_INDEX {
        ex.index == NULL_INDEX && ex.colour == cand.colour
    } else {
        ex.index == cand.index
    }
}

/// Tests two nodes for a structural match, slot by slot.
fn node_match(cand: &Node, ex: &Node) -> (r: bool)
    ensures
        r == spec_node_match(*cand, *ex),
{
    let r = octant_match(&cand.octants[0], &ex.octants[0]) && octant_match(
        &cand.octants[1],
        &ex.octants[1],
    ) && octant_match(&cand.octants[2], &ex.octants[2]) && octant_match(
        &cand.octants[3],
        &ex.octants[3],
    ) && octant_match(&cand.octants[4], &ex.octants[4]) && octant_match(
        &cand.octants[5],
        &ex.octants[5],
    ) && octant_match(&cand.octants[6], &ex.octants[6]) && octant_match(
        &cand.octants[7],
        &ex.octants[7],
    );
    proof {
        if r {
            assert forall|k: int| 0 <= k < 8 implies spec_octant_match(
                #[trigger] cand.octants[k],
                ex.octants[k],
            ) by {
                if k == 0 {
                } else if k == 1 {
                } else if k == 2 {
                } else if k == 3 {
                } else if k == 4 {
                } else if k == 5 {
                } else if k == 6 {
                } else {
                    assert(k == 7);
                }
            }
        }
    }
    r
}

/// The first index in the table (scanned in insertion order, from position
/// `j` on) whose node structurally matches the candidate.
pub open spec fn spec_find_at(nodes: Seq<Node>, table: Seq<u32>, cand: Node, j: int) -> Option<
    u32,
>
    decreases table.len() - j,
{
    if j < 0 || j >= table.len() {
        None
    } else if spec_node_match(cand, nodes[table[j] as int]) {
        Some(table[j])
    } else {
        spec_find_at(nodes, table, cand, j + 1)
    }
}

/// When the scan finds nothing, no table entry matches the candidate.
pub proof fn lemma_find_none(nodes: Seq<Node>, table: Seq<u32>, cand: Node, j: int)
    requires
        0 <= j,
        spec_find_at(nodes, table, cand, j) is None,
    ensures
        forall|k: int| j <= k < table.len() ==> !spec_node_match(cand, nodes[#[trigger] table[k] as int]),
    decreases table.len() - j,
{
    if j < table.len() {
        lemma_find_none(nodes, table, cand, j + 1);
    }
}

/// When the scan finds an index, it is a table entry whose node matches.
pub proof fn lemma_find_some(nodes: Seq<Node>, table: Seq<u32>, cand: Node, j: int)
    requires
        0 <= j,
    ensures
        spec_find_at(nodes, table, cand, j) matches Some(i) ==> exists|k: int|
            j <= k < table.len() && #[trigger] table[k] == i && spec_node_match(
                cand,
                nodes[i as int],
            ),
    decreases table.len() - j,
{
    if j < table.len() {
        lemma_find_some(nodes, table, cand, j + 1);
    }
}

/// Scans a depth's table for a node structurally matching the candidate,
/// in insertion order, and returns the first match's node index.
fn find_in_level(nodes: &Vec<Node>, table: &Vec<u32>, cand: &Node) -> (r: Option<u32>)
    requires
        forall|j: int| 0 <= j < table@.len() ==> 0 <= #[trigger] table@[j] < nodes@.len(),
    ensures
        r == spec_find_at(nodes@, table@, *cand, 0),
{
    let mut j: usize = 0;
    while j < table.len()
        invariant
            0 <= j <= table@.len(),
            forall|k: int| 0 <= k < table@.len() ==> 0 <= #[trigger] table@[k] < nodes@.len(),
            spec_find_at(nodes@, table@, *cand, 0) == spec_find_at(nodes@, table@, *cand, j as int),
        decreases table@.len() - j,
    {
        let idx = table[j];
        if node_match(cand, &nodes[idx as usize]) {
            return Some(idx);
        }
        j = j + 1;
    }
    None
}

/// The view of the per-depth dedup tables: one sequence of node indices per
/// tree depth.
pub open spec fn tables_view(ls: Seq<Vec<u32>>) -> Seq<Seq<u32>> {
    Seq::new(ls.len(), |d: int| ls[d]@)
}

/// The builder's running invariant over the graph and the dedup tables:
/// the graph holds the root and at most as many nodes as an index word can
/// name; the tables hold one list per depth, every entry referencing a
/// non-root node already in the graph; and every non-root node's octants
/// reference strictly earlier nodes.
pub open spec fn builder_inv(ns: Seq<Node>, ls: Seq<Seq<u32>>, md: int) -> bool {
    &&& 1 <= ns.len() <= 0xFFFF_FFFF
    &&& ls.len() == md
    &&& forall|d: int, j: int|
        0 <= d < ls.len() && 0 <= j < ls[d].len() ==> 1 <= #[trigger] ls[d][j] < ns.len()
    &&& forall|i: int| 1 <= i < ns.len() ==> node_wf(#[trigger] ns[i], i)
}

/// No two entries of one depth's table reference structurally equal nodes:
/// the guarantee deduplication maintains, and the reason a subtree is
/// stored once however many octants reference it.
pub open spec fn tables_dedup(ns: Seq<Node>, ls: Seq<Seq<u32>>) -> bool {
    forall|d: int, j: int, k: int|
        #![trigger ls[d][j], ls[d][k]]
        0 <= d < ls.len() && 0 <= j < ls[d].len() && 0 <= k < ls[d].len() && j != k
            ==> !spec_node_match(ns[ls[d][j] as int], ns[ls[d][k] as int])
}

/// Some depth's table holds an entry naming node index `i`.
pub open spec fn table_entry_for(ls: Seq<Seq<u32>>, i: int) -> bool {
    exists|d: int, j: int| 0 <= d < ls.len() && 0 <= j < ls[d].len() && #[trigger] ls[d][j] == i
}

/// Every non-root node is recorded in some depth's table: together with
/// `tables_dedup` this says the graph stores no two structurally equal
/// nodes of one depth.
#[verifier::opaque]
pub open spec fn tables_cover(ns: Seq<Node>, ls: Seq<Seq<u32>>) -> bool {
    forall|i: int| 1 <= i < ns.len() ==> #[trigger] table_entry_for(ls, i)
}

/// What deduplication does with a candidate interior node at a depth: when
/// a structural match stands in that depth's table the graph is unchanged
/// and the match's index comes back; otherwise the candidate is appended
/// and recorded, unless every index word is already in use, in which case
/// nothing is stored and the null index comes back.
pub open spec fn spec_dedup(ns: Seq<Node>, ls: Seq<Seq<u32>>, cand: Node, depth: int) -> (
    Seq<Node>,
    Seq<Seq<u32>>,
    u32,
) {
    match spec_find_at(ns, ls[depth], cand, 0) {
        Some(i) => (ns, ls, i),
        None => {
            if ns.len() < NULL_INDEX {
                (
                    ns.push(cand),
                    ls.update(depth, ls[depth].push(ns.len() as u32)),
                    ns.len() as u32,
                )
            } else {
                (ns, ls, NULL_INDEX)
            }
        },
    }
}

/// What one builder step does to the graph, the tables and the parent's
/// octant record, for the cell at (x, y, z) and the given depth.
///
/// The cell's distance is the smallest over the scene's volumes, rescaled
/// against the cell's extent (both in tenths). A cell deep inside a volume,
/// or still near its surface at the maximum depth, bakes a leaf octant. A
/// cell near the surface above the maximum depth recurses into its eight
/// child cells, deduplicates the assembled node against the table of its
/// depth, appends it only when no structural match exists, and summarizes
/// its children's attributes. Any other cell is empty space. The graph can
/// only grow; a full graph (every index word in use) stores nothing more.
#[verifier::opaque]
pub open spec fn spec_fill(
    ns: Seq<Node>,
    ls: Seq<Seq<u32>>,
    vols: Seq<(VolumeType, ColourType)>,
    x: int,
    y: int,
    z: int,
    depth: int,
    md: int,
) -> (Seq<Node>, Seq<Seq<u32>>, Octant)
    decreases md - depth,
{
    let mls = pow2(md as nat) as int;
    let lvl = pow2((md - depth) as nat) as int;
    let sel = spec_selected(vols, x, y, z, mls);
    let vk = vols[sel].0;
    let ck = vols[sel].1;
    let d10 = spec_dist10(vk, x, y, z, mls);
    if d10 < -10 * lvl || (depth == md && d10 <= 10 * lvl) {
        let dir = spec_dir(vk, x, y, z, mls);
        let oct = Octant {
            index: NULL_INDEX,
            colour: spec_colour_word(ck, x, y, z, mls) as u32,
            normal: spec_leaf_normal_word(dir.0, dir.1, dir.2) as u32,
            extra: 0,
        };
        (ns, ls, oct)
    } else if depth < md && d10 <= 10 * lvl {
        let s = pow2((md - depth - 1) as nat) as int;
        let r0 = spec_fill(ns, ls, vols, x - s, y - s, z - s, depth + 1, md);
        let r1 = spec_fill(r0.0, r0.1, vols, x + s, y - s, z - s, depth + 1, md);
        let r2 = spec_fill(r1.0, r1.1, vols, x - s, y + s, z - s, depth + 1, md);
        let r3 = spec_fill(r2.0, r2.1, vols, x + s, y + s, z - s, depth + 1, md);
        let r4 = spec_fill(r3.0, r3.1, vols, x - s, y - s, z + s, depth + 1, md);
        let r5 = spec_fill(r4.0, r4.1, vols, x + s, y - s, z + s, depth + 1, md);
        let r6 = spec_fill(r5.0, r5.1, vols, x - s, y + s, z + s, depth + 1, md);
        let r7 = spec_fill(r6.0, r6.1, vols, x + s, y + s, z + s, depth + 1, md);
        let cand = Node { octants: [r0.2, r1.2, r2.2, r3.2, r4.2, r5.2, r6.2, r7.2] };
        let colour = spec_agg_colour(cand) as u32;
        let normal = spec_agg_normal(cand) as u32;
        let dd = spec_dedup(r7.0, r7.1, cand, depth);
        let oct = if dd.2 == NULL_INDEX {
            spec_empty_octant()
        } else {
            Octant { index: dd.2, colour, normal, extra: 0 }
        };
        (dd.0, dd.1, oct)
    } else {
        (ns, ls, spec_empty_octant())
    }
}

/// The most nodes one builder step can append when `levels` subdivision
/// levels remain below it: one for itself and eight full subtrees.
pub open spec fn spec_pushes_bound(levels: nat) -> nat
    decreases levels,
{
    if levels == 0 {
        0
    } else {
        1 + 8 * spec_pushes_bound((levels - 1) as nat)
    }
}

impl OctDag {
    /// Resolves a candidate interior node against its depth's dedup table:
    /// the index of a structurally matching node already recorded at that
    /// depth, or else the candidate's own fresh index after it is appended
    /// and recorded. The null index comes back only when every index word
    /// is already in use, in which case nothing is stored.
    #[verifier::rlimit(100)]
    #[verifier::spinoff_prover]
    fn dedup_insert(
        &mut self,
        level_list: &mut Vec<Vec<u32>>,
        cand: Node,
        depth: u32,
        max_depth: u32,
    ) -> (idx: u32)
        requires
            2 <= max_depth <= 16,
            1 <= depth < max_depth,
            builder_inv(old(self).nodes@, tables_view(old(level_list)@), max_depth as int),
            tables_dedup(old(self).nodes@, tables_view(old(level_list)@)),
            tables_cover(old(self).nodes@, tables_view(old(level_list)@)),
            node_wf(cand, old(self).nodes@.len() as int),
        ensures
            builder_inv(final(self).nodes@, tables_view(final(level_list)@), max_depth as int),
            tables_dedup(final(self).nodes@, tables_view(final(level_list)@)),
            tables_cover(final(self).nodes@, tables_view(final(level_list)@)),
            ({
                let dd = spec_dedup(
                    old(self).nodes@,
                    tables_view(old(level_list)@),
                    cand,
                    depth as int,
                );
                final(self).nodes@ == dd.0 && tables_view(final(level_list)@) == dd.1 && idx
                    == dd.2
            }),
            final(self).nodes@.len() >= old(self).nodes@.len(),
            forall|i: int|
                0 <= i < old(self).nodes@.len() ==> final(self).nodes@[i] == old(
                    self,
                ).nodes@[i],
            final(self).nodes@.len() <= old(self).nodes@.len() + 1,
            idx == NULL_INDEX || 1 <= idx < final(self).nodes@.len(),
    {
        let d_us = depth as usize;
        let ghost ns7 = self.nodes@;
        let ghost tv7 = tables_view(level_list@);
        let ghost dd = spec_dedup(ns7, tv7, cand, depth as int);
        proof {
            assert(tv7[depth as int] == level_list@[depth as int]@);
        }
        let found = find_in_level(&self.nodes, &level_list[d_us], &cand);
        match found {
            Some(i) => {
                proof {
                    lemma_find_some(ns7, tv7[depth as int], cand, 0);
                    assert(1 <= i < ns7.len());
                    assert(self.nodes@ == ns7 && tables_view(level_list@) == tv7);
                    assert(tables_cover(ns7, tv7));
                }
                i
            },
            None => {
                if self.nodes.len() < (NULL_INDEX as usize) {
                    let idx = self.nodes.len() as u32;
                    self.nodes.push(cand);
                    let mut tbl: Vec<u32> = Vec::new();
                    level_list.set_and_swap(d_us, &mut tbl);
                    tbl.push(idx);
                    level_list.set_and_swap(d_us, &mut tbl);
                    proof {
                        let d = depth as int;
                        let nt = tv7[d].push(idx);
                        let ns2 = ns7.push(cand);
                        let tv2 = tv7.update(d, nt);
                        assert(level_list@[d]@ == nt);
                        assert(tables_view(level_list@) =~= tv2);
                        assert(node_wf(cand, idx as int));
                        assert forall|i: int| 1 <= i < ns2.len() implies node_wf(
                            #[trigger] ns2[i],
                            i,
                        ) by {
                            if i < ns7.len() {
                                assert(ns2[i] == ns7[i]);
                            } else {
                                assert(ns2[i] == cand);
                            }
                        }
                        // Table entries stay in range; the new entry names
                        // the node just appended.
                        assert forall|d2: int, j2: int|
                            0 <= d2 < tv2.len() && 0 <= j2 < tv2[d2].len() implies 1
                            <= #[trigger] tv2[d2][j2] < ns2.len() by {
                            if d2 == d && j2 == nt.len() - 1 {
                                assert(tv2[d2][j2] == idx);
                            } else {
                                assert(tv2[d2][j2] == tv7[d2][j2]);
                            }
                        }
                        // Deduplication is preserved: the scan found no
                        // structural match for the candidate, so the new
                        // entry collides with no older one.
                        lemma_find_none(ns7, tv7[d], cand, 0);
                        assert forall|d2: int, j2: int, k2: int|
                            #![trigger tv2[d2][j2], tv2[d2][k2]]
                            0 <= d2 < tv2.len() && 0 <= j2 < tv2[d2].len() && 0 <= k2
                                < tv2[d2].len() && j2 != k2 implies !spec_node_match(
                            ns2[tv2[d2][j2] as int],
                            ns2[tv2[d2][k2] as int],
                        ) by {
                            let ej = tv2[d2][j2];
                            let ek = tv2[d2][k2];
                            if d2 == d && j2 == nt.len() - 1 {
                                assert(ej == idx && ns2[ej as int] == cand);
                                assert(ek == tv7[d][k2] && ek < ns7.len());
                                assert(ns2[ek as int] == ns7[ek as int]);
                                assert(!spec_node_match(cand, ns7[ek as int]));
                            } else if d2 == d && k2 == nt.len() - 1 {
                                assert(ek == idx && ns2[ek as int] == cand);
                                assert(ej == tv7[d][j2] && ej < ns7.len());
                                assert(ns2[ej as int] == ns7[ej as int]);
                                assert(!spec_node_match(cand, ns7[ej as int]));
                                lemma_node_match_sym(cand, ns7[ej as int]);
                            } else {
                                assert(ej == tv7[d2][j2] && ek == tv7[d2][k2]);
                                assert(ej < ns7.len() && ek < ns7.len());
                                assert(ns2[ej as int] == ns7[ej as int]);
                                assert(ns2[ek as int] == ns7[ek as int]);
                            }
                        }
                        // Every node stays covered by a table entry; the
                        // fresh node is covered by the entry just recorded.
                        reveal(tables_cover);
                        assert forall|i: int| 1 <= i < ns2.len() implies #[trigger] table_entry_for(
                            tv2,
                            i,
                        ) by {
                            if i < ns7.len() {
                                assert(table_entry_for(tv7, i));
                                let (da, ja) = choose|da: int, ja: int|
                                    0 <= da < tv7.len() && 0 <= ja < tv7[da].len()
                                        && #[trigger] tv7[da][ja] == i;
                                if da == d {
                                    assert(tv2[d][ja] == nt[ja] == tv7[d][ja] == i);
                                } else {
                                    assert(tv2[da][ja] == tv7[da][ja] == i);
                                }
                            } else {
                                assert(i == idx);
                                assert(tv2[d][nt.len() - 1] == i);
                            }
                        }
                        assert(tables_cover(ns2, tv2));
                        assert(self.nodes@ == dd.0 && tables_view(level_list@) == dd.1 && idx
                            == dd.2);
                    }
                    idx
                } else {
                    proof {
                        assert(self.nodes@ == ns7 && tables_view(level_list@) == tv7);
                        assert(tables_cover(ns7, tv7));
                    }
                    NULL_INDEX
                }
            },
        }
    }

    /// One builder step: classifies the cell at `pos` against the scene's
    /// volumes, bakes a leaf octant, recurses into an interior cell's eight
    /// children and deduplicates the assembled node, or leaves empty space
    /// untouched — exactly as `spec_fill` describes.
    #[verifier::rlimit(100)]
    #[verifier::spinoff_prover]
    fn fill_oct(
        &mut self,
        volumes: &Vec<(VolumeType, ColourType)>,
        level_list: &mut Vec<Vec<u32>>,
        pos: IVec3,
        depth: u32,
        max_depth: u32,
    ) -> (r: Octant)
        requires
            2 <= max_depth <= 16,
            1 <= depth <= max_depth,
            volumes@.len() >= 1,
            builder_inv(old(self).nodes@, tables_view(old(level_list)@), max_depth as int),
            tables_dedup(old(self).nodes@, tables_view(old(level_list)@)),
            tables_cover(old(self).nodes@, tables_view(old(level_list)@)),
            spec_abs(pos.x as int) <= pow2(max_depth as nat) - pow2((max_depth - depth) as nat),
            spec_abs(pos.y as int) <= pow2(max_depth as nat) - pow2((max_depth - depth) as nat),
            spec_abs(pos.z as int) <= pow2(max_depth as nat) - pow2((max_depth - depth) as nat),
        ensures
            builder_inv(final(self).nodes@, tables_view(final(level_list)@), max_depth as int),
            tables_dedup(final(self).nodes@, tables_view(final(level_list)@)),
            tables_cover(final(self).nodes@, tables_view(final(level_list)@)),
            ({
                let res = spec_fill(
                    old(self).nodes@,
                    tables_view(old(level_list)@),
                    volumes@,
                    pos.x as int,
                    pos.y as int,
                    pos.z as int,
                    depth as int,
                    max_depth as int,
                );
                final(self).nodes@ == res.0 && tables_view(final(level_list)@) == res.1 && r
                    == res.2
            }),
            final(self).nodes@.len() >= old(self).nodes@.len(),
            forall|i: int|
                0 <= i < old(self).nodes@.len() ==> final(self).nodes@[i] == old(
                    self,
                ).nodes@[i],
            octant_wf(r, final(self).nodes@.len() as int),
            final(self).nodes@.len() <= old(self).nodes@.len() + spec_pushes_bound(
                (max_depth - depth) as nat,
            ),
        decreases max_depth - depth,
    {
        proof {
            lemma2_to64();
            lemma_pow2_pos((max_depth - depth) as nat);
            if (max_depth as nat) < 16 {
                lemma_pow2_strictly_increases(max_depth as nat, 16);
            }
            if depth > 0 {
                lemma_pow2_strictly_increases(
                    (max_depth - depth) as nat,
                    max_depth as nat,
                );
            }
        }
        let mls = pow2_i32(max_depth);
        let lvl = pow2_i32(max_depth - depth);
        let ghost gx = pos.x as int;
        let ghost gy = pos.y as int;
        let ghost gz = pos.z as int;
        let ghost orig_ns = self.nodes@;
        let ghost orig_tv = tables_view(level_list@);
        let ghost res = spec_fill(
            orig_ns,
            orig_tv,
            volumes@,
            gx,
            gy,
            gz,
            depth as int,
            max_depth as int,
        );
        let sel = select_volume(volumes, pos, mls);
        let pair = volumes[sel];
        let sample = pair.0.new(pos, mls);
        let lvl10: i64 = 10 * (lvl as i64);
        if sample.dist10 < -lvl10 || (depth == max_depth && sample.dist10 <= lvl10) {
            proof {
                lemma_sample_bounds(pair.0, gx, gy, gz, mls as int);
                lemma_colour_word_range(pair.1, gx, gy, gz, mls as int);
            }
            let mut octant = pair.1.new(pos, mls);
            octant.normal = leaf_normal_word(sample.dir_x, sample.dir_y, sample.dir_z);
            proof {
                reveal_with_fuel(spec_fill, 1);
                assert(res.0 == orig_ns && res.1 == orig_tv && res.2 == octant);
            }
            octant
        } else if sample.dist10 <= lvl10 {
            proof {
                assert(depth < max_depth);
                lemma_pow2_unfold((max_depth - depth) as nat);
            }
            let next = pow2_i32(max_depth - depth - 1);
            let ghost s = next as int;
            proof {
                assert(lvl as int == 2 * s);
            }
            let c0 = self.fill_oct(
                volumes,
                level_list,
                IVec3::new(pos.x - next, pos.y - next, pos.z - next),
                depth + 1,
                max_depth,
            );
            let ghost r0 = spec_fill(orig_ns, orig_tv, volumes@, gx - s, gy - s, gz - s, depth as int + 1, max_depth as int);
            let c1 = self.fill_oct(
                volumes,
                level_list,
                IVec3::new(pos.x + next, pos.y - next, pos.z - next),
                depth + 1,
                max_depth,
            );
            let ghost r1 = spec_fill(r0.0, r0.1, volumes@, gx + s, gy - s, gz - s, depth as int + 1, max_depth as int);
            let c2 = self.fill_oct(
                volumes,
                level_list,
                IVec3::new(pos.x - next, pos.y + next, pos.z - next),
                depth + 1,
                max_depth,
            );
            let ghost r2 = spec_fill(r1.0, r1.1, volumes@, gx - s, gy + s, gz - s, depth as int + 1, max_depth as int);
            let c3 = self.fill_oct(
                volumes,
                level_list,
                IVec3::new(pos.x + next, pos.y + next, pos.z - next),
                depth + 1,
                max_depth,
            );
            let ghost r3 = spec_fill(r2.0, r2.1, volumes@, gx + s, gy + s, gz - s, depth as int + 1, max_depth as int);
            let c4 = self.fill_oct(
                volumes,
                level_list,
                IVec3::new(pos.x - next, pos.y - next, pos.z + next),
                depth + 1,
                max_depth,
            );
            let ghost r4 = spec_fill(r3.0, r3.1, volumes@, gx - s, gy - s, gz + s, depth as int + 1, max_depth as int);
            let c5 = self.fill_oct(
                volumes,
                level_list,
                IVec3::new(pos.x + next, pos.y - next, pos.z + next),
                depth + 1,
                max_depth,
            );
            let ghost r5 = spec_fill(r4.0, r4.1, volumes@, gx + s, gy - s, gz + s, depth as int + 1, max_depth as int);
            let c6 = self.fill_oct(
                volumes,
                level_list,
                IVec3::new(pos.x - next, pos.y + next, pos.z + next),
                depth + 1,
                max_depth,
            );
            let ghost r6 = spec_fill(r5.0, r5.1, volumes@, gx - s, gy + s, gz + s, depth as int + 1, max_depth as int);
            let c7 = self.fill_oct(
                volumes,
                level_list,
                IVec3::new(pos.x + next, pos.y + next, pos.z + next),
                depth + 1,
                max_depth,
            );
            let ghost r7 = spec_fill(r6.0, r6.1, volumes@, gx + s, gy + s, gz + s, depth as int + 1, max_depth as int);
            proof {
                assert(self.nodes@ == r7.0 && tables_view(level_list@) == r7.1);
            }
            let cand = Node { octants: [c0, c1, c2, c3, c4, c5, c6, c7] };
            proof {
                assert forall|k: int| 0 <= k < 8 implies octant_wf(
                    #[trigger] cand.octants[k],
                    self.nodes@.len() as int,
                ) by {
                    if k == 0 {
                        assert(octant_wf(c0, r0.0.len() as int));
                    } else if k == 1 {
                        assert(octant_wf(c1, r1.0.len() as int));
                    } else if k == 2 {
                        assert(octant_wf(c2, r2.0.len() as int));
                    } else if k == 3 {
                        assert(octant_wf(c3, r3.0.len() as int));
                    } else if k == 4 {
                        assert(octant_wf(c4, r4.0.len() as int));
                    } else if k == 5 {
                        assert(octant_wf(c5, r5.0.len() as int));
                    } else if k == 6 {
                        assert(octant_wf(c6, r6.0.len() as int));
                    } else {
                        assert(octant_wf(c7, r7.0.len() as int));
                    }
                }
                assert(node_wf(cand, self.nodes@.len() as int));
            }
            let agg = aggregate_attributes(&cand);
            let idx = self.dedup_insert(level_list, cand, depth, max_depth);
            let octant = if idx == NULL_INDEX {
                Octant::new()
            } else {
                Octant { index: idx, colour: agg.0, normal: agg.1, extra: 0 }
            };
            proof {
                let lv = (max_depth - depth) as nat;
                assert(spec_pushes_bound(lv) == 1 + 8 * spec_pushes_bound((lv - 1) as nat));
                reveal_with_fuel(spec_fill, 1);
                assert(res.0 == self.nodes@ && res.1 == tables_view(level_list@) && res.2
                    == octant);
            }
            octant
        } else {
            let octant = Octant::new();
            proof {
                reveal_with_fuel(spec_fill, 1);
                assert(res.0 == orig_ns && res.1 == orig_tv && res.2 == octant);
            }
            octant
        }
    }

    /// Builds the test scene graph for a preset at the requested maximum
    /// depth.
    ///
    /// The graph is a pure function of `(dag_type, max_depth)`: its exact
    /// node list is `spec_build_nodes`, so two builds of one configuration
    /// are identical. It is well-formed as a DAG (`dag_wf`): every
    /// non-sentinel child index points to a node appended strictly earlier.
    /// Its node count never exceeds the naive octree's, one node per
    /// interior cell plus the root; structural deduplication only lowers
    /// it. Its non-root nodes admit per-depth tables covering all of them
    /// with no two entries structurally equal: every repeated subtree is
    /// stored once. A depth outside [2, 16], or below the preset's own
    /// minimum, is refused before anything is built.
    pub fn new_test(dag_type: TestDagType, max_depth: u32) -> (r: Result<OctDag, ConfigError>)
        ensures
            match r {
                Ok(dag) => {
                    &&& 2 <= max_depth <= 16
                    &&& max_depth >= dag_type.spec_min_depth()
                    &&& dag.nodes@ == spec_build_nodes(dag_type, max_depth)
                    &&& dag_wf(dag.nodes@)
                    &&& dag.nodes@.len() <= 1 + spec_sum_pow8((max_depth - 1) as nat)
                    &&& exists|ls: Seq<Seq<u32>>|
                        #[trigger] tables_dedup(dag.nodes@, ls) && tables_cover(dag.nodes@, ls)
                },
                Err(e) => {
                    &&& !(2 <= max_depth <= 16 && max_depth >= dag_type.spec_min_depth())
                    &&& (e == ConfigError::DepthOutOfRange <==> !(2 <= max_depth <= 16))
                    &&& (e == ConfigError::DepthBelowPresetMin <==> (2 <= max_depth <= 16
                        && max_depth < dag_type.spec_min_depth()))
                },
            },
    {
        if max_depth < 2 || max_depth > 16 {
            return Err(ConfigError::DepthOutOfRange);
        }
        let vol_list = match dag_type.new(max_depth) {
            Ok(v) => v,
            Err(e) => {
                return Err(e);
            },
        };
        let mut dag = OctDag { nodes: Vec::new() };
        dag.nodes.push(Node::new());
        let mut level_list: Vec<Vec<u32>> = Vec::new();
        let mut i: u32 = 0;
        while i < max_depth
            invariant
                i <= max_depth,
                level_list@.len() == i,
                forall|d: int| 0 <= d < i ==> (#[trigger] level_list@[d])@ == Seq::<u32>::empty(),
            decreases max_depth - i,
        {
            level_list.push(Vec::new());
            i = i + 1;
        }
        proof {
            lemma2_to64();
            lemma_pow2_unfold(max_depth as nat);
            if (max_depth as nat) < 16 {
                lemma_pow2_strictly_increases(max_depth as nat, 16);
            }
            assert(dag.nodes@ =~= seq![spec_empty_node()]);
            assert(tables_view(level_list@) =~= Seq::new(
                max_depth as nat,
                |d: int| Seq::<u32>::empty(),
            ));
            reveal(tables_cover);
        }
        let h = pow2_i32(max_depth - 1);
        let ghost ns0 = dag.nodes@;
        let ghost tv0 = tables_view(level_list@);
        let ghost vols = vol_list@;
        let ghost gmd = max_depth as int;
        let ghost hh = h as int;
        let o0 = dag.fill_oct(&vol_list, &mut level_list, IVec3::new(-h, -h, -h), 1, max_depth);
        let ghost r0 = spec_fill(ns0, tv0, vols, -hh, -hh, -hh, 1, gmd);
        let o1 = dag.fill_oct(&vol_list, &mut level_list, IVec3::new(h, -h, -h), 1, max_depth);
        let ghost r1 = spec_fill(r0.0, r0.1, vols, hh, -hh, -hh, 1, gmd);
        let o2 = dag.fill_oct(&vol_list, &mut level_list, IVec3::new(-h, h, -h), 1, max_depth);
        let ghost r2 = spec_fill(r1.0, r1.1, vols, -hh, hh, -hh, 1, gmd);
        let o3 = dag.fill_oct(&vol_list, &mut level_list, IVec3::new(h, h, -h), 1, max_depth);
        let ghost r3 = spec_fill(r2.0, r2.1, vols, hh, hh, -hh, 1, gmd);
        let o4 = dag.fill_oct(&vol_list, &mut level_list, IVec3::new(-h, -h, h), 1, max_depth);
        let ghost r4 = spec_fill(r3.0, r3.1, vols, -hh, -hh, hh, 1, gmd);
        let o5 = dag.fill_oct(&vol_list, &mut level_list, IVec3::new(h, -h, h), 1, max_depth);
        let ghost r5 = spec_fill(r4.0, r4.1, vols, hh, -hh, hh, 1, gmd);
        let o6 = dag.fill_oct(&vol_list, &mut level_list, IVec3::new(-h, h, h), 1, max_depth);
        let ghost r6 = spec_fill(r5.0, r5.1, vols, -hh, hh, hh, 1, gmd);
        let o7 = dag.fill_oct(&vol_list, &mut level_list, IVec3::new(h, h, h), 1, max_depth);
        let ghost r7 = spec_fill(r6.0, r6.1, vols, hh, hh, hh, 1, gmd);
        let root = Node { octants: [o0, o1, o2, o3, o4, o5, o6, o7] };
        dag.nodes.set(0, root);
        proof {
            let ns_f = dag.nodes@;
            let tvf = tables_view(level_list@);
            assert(ns_f == r7.0.update(0, root));
            assert(ns_f == spec_build_nodes(dag_type, max_depth));
            assert forall|k: int| 0 <= k < 8 implies octant_wf(
                #[trigger] root.octants[k],
                ns_f.len() as int,
            ) by {
                if k == 0 {
                    assert(octant_wf(o0, r0.0.len() as int));
                } else if k == 1 {
                    assert(octant_wf(o1, r1.0.len() as int));
                } else if k == 2 {
                    assert(octant_wf(o2, r2.0.len() as int));
                } else if k == 3 {
                    assert(octant_wf(o3, r3.0.len() as int));
                } else if k == 4 {
                    assert(octant_wf(o4, r4.0.len() as int));
                } else if k == 5 {
                    assert(octant_wf(o5, r5.0.len() as int));
                } else if k == 6 {
                    assert(octant_wf(o6, r6.0.len() as int));
                } else {
                    assert(octant_wf(o7, r7.0.len() as int));
                }
            }
            assert(node_wf(root, ns_f.len() as int));
            assert forall|i2: int| 1 <= i2 < ns_f.len() implies node_wf(#[trigger] ns_f[i2], i2) by {
                assert(ns_f[i2] == r7.0[i2]);
            }
            assert(dag_wf(ns_f));
            lemma_pushes_sum((max_depth - 1) as nat);
            // The final per-depth tables witness dedup sharing: the root
            // rewrite touches no non-root node they reference.
            assert forall|d2: int, j2: int, k2: int|
                #![trigger tvf[d2][j2], tvf[d2][k2]]
                0 <= d2 < tvf.len() && 0 <= j2 < tvf[d2].len() && 0 <= k2 < tvf[d2].len() && j2
                    != k2 implies !spec_node_match(
                ns_f[tvf[d2][j2] as int],
                ns_f[tvf[d2][k2] as int],
            ) by {
                assert(ns_f[tvf[d2][j2] as int] == r7.0[tvf[d2][j2] as int]);
                assert(ns_f[tvf[d2][k2] as int] == r7.0[tvf[d2][k2] as int]);
            }
            assert(tables_dedup(ns_f, tvf));
            reveal(tables_cover);
            assert forall|i2: int| 1 <= i2 < ns_f.len() implies #[trigger] table_entry_for(
                tvf,
                i2,
            ) by {
                assert(table_entry_for(tvf, i2));
            }
            assert(tables_cover(ns_f, tvf));
        }
        Ok(dag)
    }
}

impl OctDag {
    /// Flattens the graph into the renderer's wire layout: a stream of
    /// 32-bit words, eight octants per node in slot order, four words per
    /// octant in the order childIndex, colour, normal, extra.
    pub fn words(&self) -> (r: Vec<u32>)
        ensures
            r@.len() == 32 * self.nodes@.len(),
            forall|i: int, k: int|
                0 <= i < self.nodes@.len() && 0 <= k < 8 ==> {
                    let o = #[trigger] self.nodes@[i].octants[k];
                    &&& r@[32 * i + 4 * k] == o.index
                    &&& r@[32 * i + 4 * k + 1] == o.colour
                    &&& r@[32 * i + 4 * k + 2] == o.normal
                    &&& r@[32 * i + 4 * k + 3] == o.extra
                },
    {
        let mut out: Vec<u32> = Vec::new();
        let mut i: usize = 0;
        while i < self.nodes.len()
            invariant
                i <= self.nodes@.len(),
                out@.len() == 32 * i,
                forall|i2: int, k: int|
                    0 <= i2 < i && 0 <= k < 8 ==> {
                        let o = #[trigger] self.nodes@[i2].octants[k];
                        &&& out@[32 * i2 + 4 * k] == o.index
                        &&& out@[32 * i2 + 4 * k + 1] == o.colour
                        &&& out@[32 * i2 + 4 * k + 2] == o.normal
                        &&& out@[32 * i2 + 4 * k + 3] == o.extra
                    },
            decreases self.nodes@.len() - i,
        {
            let node = self.nodes[i];
            let mut k: usize = 0;
            while k < 8
                invariant
                    i < self.nodes@.len(),
                    k <= 8,
                    node == self.nodes@[i as int],
                    out@.len() == 32 * i + 4 * k,
                    forall|i2: int, k2: int|
                        0 <= i2 < i && 0 <= k2 < 8 ==> {
                            let o = #[trigger] self.nodes@[i2].octants[k2];
                            &&& out@[32 * i2 + 4 * k2] == o.index
                            &&& out@[32 * i2 + 4 * k2 + 1] == o.colour
                            &&& out@[32 * i2 + 4 * k2 + 2] == o.normal
                            &&& out@[32 * i2 + 4 * k2 + 3] == o.extra
                        },
                    forall|k2: int|
                        0 <= k2 < k ==> {
                            let o = #[trigger] node.octants[k2];
                            &&& out@[32 * i + 4 * k2] == o.index
                            &&& out@[32 * i + 4 * k2 + 1] == o.colour
                            &&& out@[32 * i + 4 * k2 + 2] == o.normal
                            &&& out@[32 * i + 4 * k2 + 3] == o.extra
                        },
                decreases 8 - k,
            {
                let o = node.octants[k];
                out.push(o.index);
                out.push(o.colour);
                out.push(o.normal);
                out.push(o.extra);
                k = k + 1;
            }
            i = i + 1;
        }
        out
    }
}

/// The node list the builder constructs for a preset at a depth: the eight
/// top-level subdivision calls run at depth 1 in octant order against a
/// fresh graph holding only an empty root, and the root record of their
/// eight octants is then written at index 0.
pub open spec fn spec_build_nodes(t: TestDagType, md: u32) -> Seq<Node> {
    let vols = t.spec_volumes();
    let ns0 = seq![spec_empty_node()];
    let ls0 = Seq::new(md as nat, |d: int| Seq::<u32>::empty());
    let h = pow2((md - 1) as nat) as int;
    let r0 = spec_fill(ns0, ls0, vols, -h, -h, -h, 1, md as int);
    let r1 = spec_fill(r0.0, r0.1, vols, h, -h, -h, 1, md as int);
    let r2 = spec_fill(r1.0, r1.1, vols, -h, h, -h, 1, md as int);
    let r3 = spec_fill(r2.0, r2.1, vols, h, h, -h, 1, md as int);
    let r4 = spec_fill(r3.0, r3.1, vols, -h, -h, h, 1, md as int);
    let r5 = spec_fill(r4.0, r4.1, vols, h, -h, h, 1, md as int);
    let r6 = spec_fill(r5.0, r5.1, vols, -h, h, h, 1, md as int);
    let r7 = spec_fill(r6.0, r6.1, vols, h, h, h, 1, md as int);
    let root = Node { octants: [r0.2, r1.2, r2.2, r3.2, r4.2, r5.2, r6.2, r7.2] };
    r7.0.update(0, root)
}

/// The naive (non-deduplicated) octree's non-root node count over `m`
/// subdivision levels: 8^1 + ... + 8^m.
pub open spec fn spec_sum_pow8(m: nat) -> nat
    decreases m,
{
    if m == 0 {
        0
    } else {
        8 + 8 * spec_sum_pow8((m - 1) as nat)
    }
}

/// Eight full subtrees of `m` levels hold exactly the naive octree's
/// non-root node count.
proof fn lemma_pushes_sum(m: nat)
    ensures
        8 * spec_pushes_bound(m) == spec_sum_pow8(m),
    decreases m,
{
    if m > 0 {
        lemma_pushes_sum((m - 1) as nat);
    }
}

/// When some entry from position `j` on matches the candidate, the scan
/// finds one.
proof fn lemma_find_some_when_match(nodes: Seq<Node>, table: Seq<u32>, cand: Node, j: int)
    requires
        0 <= j,
        exists|k: int|
            j <= k < table.len() && spec_node_match(cand, nodes[#[trigger] table[k] as int]),
    ensures
        spec_find_at(nodes, table, cand, j) is Some,
    decreases table.len() - j,
{
    if !spec_node_match(cand, nodes[table[j] as int]) {
        let k = choose|k: int|
            j <= k < table.len() && spec_node_match(cand, nodes[#[trigger] table[k] as int]);
        assert(k >= j + 1);
        lemma_find_some_when_match(nodes, table, cand, j + 1);
    }
}

/// Dedup sharing: a candidate interior node structurally equal to a node
/// already recorded at its depth reuses that node's index — the graph and
/// the tables are unchanged, and the index handed back names a matching
/// node, not a second copy.
pub proof fn lemma_dedup_shares(ns: Seq<Node>, ls: Seq<Seq<u32>>, cand: Node, depth: int)
    requires
        0 <= depth < ls.len(),
        exists|k: int|
            0 <= k < ls[depth].len() && spec_node_match(cand, ns[#[trigger] ls[depth][k] as int]),
    ensures
        ({
            let dd = spec_dedup(ns, ls, cand, depth);
            &&& dd.0 == ns
            &&& dd.1 == ls
            &&& spec_node_match(cand, ns[dd.2 as int])
        }),
{
    lemma_find_some_when_match(ns, ls[depth], cand, 0);
    lemma_find_some(ns, ls[depth], cand, 0);
}

/// Determinism: the graph is a pure function of the preset and the depth,
/// so two builds of one configuration yield identical node lists, byte for
/// byte.
pub proof fn lemma_build_deterministic(t: TestDagType, md: u32, a: OctDag, b: OctDag)
    requires
        a.nodes@ == spec_build_nodes(t, md),
        b.nodes@ == spec_build_nodes(t, md),
    ensures
        a.nodes@ == b.nodes@,
{
}

} // verus!
