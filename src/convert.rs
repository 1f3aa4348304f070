//! Mapping of a parsed drawing's entities into the entity model.
//!
//! Coordinates arrive as IEEE-754 bit patterns: each coordinate carries the
//! double-precision value read from the drawing, used to compare points, and
//! its rounding to single precision, which is what gets encoded.
use vstd::prelude::*;
use crate::entity::{
    BaseEntity, GroupEntity, PointEntity, PolylineEntity, PolylineEntityVertex, encodable,
    entity_size, entities_size, entities_bytes, entity_bytes, polyline_bytes, polyline_payload_len,
    group_payload_len, GROUP_ENTITY_EXT,
};
use crate::wire::{array_len_bytes, ext_header_len, ext_meta_bytes, seq_header_len};

verus! {

/// Colour channel value given to every converted point.
pub const DRAWING_COLOUR: u8 = 0xcc;

/// Bit pattern of the single-precision 1.0, the thickness of converted vertices.
pub const UNIT_THICKNESS: u32 = 0x3f80_0000;

/// One coordinate: `wide` is the double-precision bit pattern as read,
/// `narrow` the bit pattern of its single-precision rounding.
#[derive(Clone, Copy, Debug, PartialEq, Eq)]
pub struct Coord {
    pub wide: u64,
    pub narrow: u32,
}

/// A location in a drawing.
#[derive(Clone, Copy, Debug, PartialEq, Eq)]
pub struct SourcePoint {
    pub x: Coord,
    pub y: Coord,
    pub z: Coord,
}

/// A drawing entity, as far as the conversion reads it.
#[derive(Debug)]
pub enum SourceEntity {
    /// A polyline and its vertex locations in order.
    Polyline(Vec<SourcePoint>),
    /// A reference to a block by name.
    Insert(Vec<u8>),
    /// Any other kind, which the conversion skips.
    Other,
}

/// A named, reusable list of entities.
#[derive(Debug)]
pub struct SourceBlock {
    pub name: Vec<u8>,
    pub entities: Vec<SourceEntity>,
}

/// A parsed drawing: its top-level entities and its blocks.
#[derive(Debug)]
pub struct SourceDrawing {
    pub entities: Vec<SourceEntity>,
    pub blocks: Vec<SourceBlock>,
}

// ----- double-precision equality -----

pub open spec fn f64_is_nan(b: u64) -> bool {
    (b & 0x7ff0_0000_0000_0000u64) == 0x7ff0_0000_0000_0000u64 && (b & 0x000f_ffff_ffff_ffffu64)
        != 0
}

pub open spec fn f64_is_zero(b: u64) -> bool {
    (b & 0x7fff_ffff_ffff_ffffu64) == 0
}

/// IEEE-754 equality of two doubles given by their bit patterns: a NaN equals
/// nothing, the two zeros are equal, any other value equals only itself.
pub open spec fn f64_equal(a: u64, b: u64) -> bool {
    !f64_is_nan(a) && !f64_is_nan(b) && (a == b || (f64_is_zero(a) && f64_is_zero(b)))
}

/// Two locations are equal when all three coordinates are.
pub open spec fn same_location(a: SourcePoint, b: SourcePoint) -> bool {
    f64_equal(a.x.wide, b.x.wide) && f64_equal(a.y.wide, b.y.wide) && f64_equal(a.z.wide, b.z.wide)
}

pub fn f64_bits_equal(a: u64, b: u64) -> (r: bool)
    ensures
        r == f64_equal(a, b),
{
    let a_nan = (a & 0x7ff0_0000_0000_0000u64) == 0x7ff0_0000_0000_0000u64 && (a
        & 0x000f_ffff_ffff_ffffu64) != 0;
    let b_nan = (b & 0x7ff0_0000_0000_0000u64) == 0x7ff0_0000_0000_0000u64 && (b
        & 0x000f_ffff_ffff_ffffu64) != 0;
    let both_zero = (a & 0x7fff_ffff_ffff_ffffu64) == 0 && (b & 0x7fff_ffff_ffff_ffffu64) == 0;
    !a_nan && !b_nan && (a == b || both_zero)
}

pub fn locations_equal(a: &SourcePoint, b: &SourcePoint) -> (r: bool)
    ensures
        r == same_location(*a, *b),
{
    f64_bits_equal(a.x.wide, b.x.wide) && f64_bits_equal(a.y.wide, b.y.wide) && f64_bits_equal(
        a.z.wide,
        b.z.wide,
    )
}

// ----- conversion -----

/// The point a drawing location becomes.
pub open spec fn point_of(p: SourcePoint) -> PointEntity {
    PointEntity {
        x: p.x.narrow,
        y: p.y.narrow,
        z: p.z.narrow,
        r: DRAWING_COLOUR,
        g: DRAWING_COLOUR,
        b: DRAWING_COLOUR,
    }
}

/// The vertex a drawing location becomes.
pub open spec fn vertex_of(p: SourcePoint) -> PolylineEntityVertex {
    PolylineEntityVertex { p: point_of(p), thickness: UNIT_THICKNESS }
}

/// Closing-vertex policy: the last location is dropped when it equals the
/// one before it (a repeated final vertex adds nothing to the path); it is
/// kept otherwise, and a polyline of fewer than two locations keeps them all.
pub open spec fn kept_points(pts: Seq<SourcePoint>) -> Seq<SourcePoint> {
    if pts.len() >= 2 && same_location(pts[pts.len() - 2], pts[pts.len() - 1]) {
        pts.drop_last()
    } else {
        pts
    }
}

/// The vertices a drawing polyline becomes.
pub open spec fn polyline_vertices(pts: Seq<SourcePoint>) -> Seq<PolylineEntityVertex> {
    kept_points(pts).map_values(|p: SourcePoint| vertex_of(p))
}

pub fn pointentity_from_dxf_point(point: &SourcePoint) -> (r: PointEntity)
    ensures
        r == point_of(*point),
{
    PointEntity {
        x: point.x.narrow,
        y: point.y.narrow,
        z: point.z.narrow,
        r: DRAWING_COLOUR,
        g: DRAWING_COLOUR,
        b: DRAWING_COLOUR,
    }
}

pub fn polylineentity_from_dxf_polyline(points: &Vec<SourcePoint>) -> (r: PolylineEntity)
    ensures
        r.vertices@ == polyline_vertices(points@),
{
    let len = points.len();
    let keep = if len >= 2 {
        !locations_equal(&points[len - 2], &points[len - 1])
    } else {
        true
    };
    let n = if keep {
        len
    } else {
        len - 1
    };
    let ghost kept = kept_points(points@);
    assert(kept =~= points@.take(n as int));
    let mut pl = PolylineEntity::new();
    let mut i: usize = 0;
    while i < n
        invariant
            n <= len == points@.len(),
            kept == points@.take(n as int),
            i <= n,
            pl.vertices@ =~= kept.take(i as int).map_values(|p: SourcePoint| vertex_of(p)),
        decreases n - i,
    {
        pl.vertices.push(
            PolylineEntityVertex {
                p: pointentity_from_dxf_point(&points[i]),
                thickness: UNIT_THICKNESS,
            },
        );
        i = i + 1;
    }
    assert(kept.take(n as int) =~= kept);
    pl
}

// ----- blocks -----

/// The vertex lists of the polylines among a block's entities, in order;
/// other kinds are left out.
pub open spec fn block_polylines(es: Seq<SourceEntity>) -> Seq<Seq<PolylineEntityVertex>>
    decreases es.len(),
{
    if es.len() == 0 {
        Seq::empty()
    } else {
        block_polylines(es.drop_last()) + match es.last() {
            SourceEntity::Polyline(pts) => seq![polyline_vertices(pts@)],
            _ => Seq::empty(),
        }
    }
}

/// Encoded size of a polyline with vertices `vs`.
pub open spec fn polyline_size(vs: Seq<PolylineEntityVertex>) -> nat {
    ext_header_len(polyline_payload_len(vs)) + polyline_payload_len(vs)
}

/// The encoded polylines one after another.
pub open spec fn polylines_bytes(pls: Seq<Seq<PolylineEntityVertex>>) -> Seq<u8>
    decreases pls.len(),
{
    if pls.len() == 0 {
        Seq::empty()
    } else {
        polylines_bytes(pls.drop_last()) + polyline_bytes(pls.last())
    }
}

/// The sum of the encoded sizes of polylines.
pub open spec fn polylines_size(pls: Seq<Seq<PolylineEntityVertex>>) -> nat
    decreases pls.len(),
{
    if pls.len() == 0 {
        0
    } else {
        polylines_size(pls.drop_last()) + polyline_size(pls.last())
    }
}

/// Payload size of a group of polylines.
pub open spec fn polyline_group_payload_len(pls: Seq<Seq<PolylineEntityVertex>>) -> nat {
    seq_header_len(pls.len()) + polylines_size(pls)
}

/// Whether a group of polylines is small enough to be encoded.
pub open spec fn polyline_group_fits(pls: Seq<Seq<PolylineEntityVertex>>) -> bool {
    ext_header_len(polyline_group_payload_len(pls)) + polyline_group_payload_len(pls) <= u32::MAX
}

/// The encoding of a group whose children are polylines with vertices `pls`.
pub open spec fn polyline_group_bytes(pls: Seq<Seq<PolylineEntityVertex>>) -> Seq<u8> {
    entity_group_bytes(polylines_bytes(pls), pls.len())
}

/// A group header announcing `n` children whose encodings are `children`,
/// followed by them.
pub open spec fn entity_group_bytes(children: Seq<u8>, n: nat) -> Seq<u8> {
    let payload = array_len_bytes(n as u32) + children;
    ext_meta_bytes(payload.len() as u32, GROUP_ENTITY_EXT) + payload
}

/// `es` are polylines whose vertex lists are `pls`, in order.
pub open spec fn holds_polylines(es: Seq<BaseEntity>, pls: Seq<Seq<PolylineEntityVertex>>) -> bool {
    &&& es.len() == pls.len()
    &&& forall|i: int|
        0 <= i < es.len() ==> (#[trigger] es[i] matches BaseEntity::PolylineEntity(pl)
            && pl.vertices@ == pls[i])
}

proof fn lemma_holds_polylines(es: Seq<BaseEntity>, pls: Seq<Seq<PolylineEntityVertex>>)
    requires
        holds_polylines(es, pls),
    ensures
        entities_bytes(es) == polylines_bytes(pls),
        entities_size(es) == polylines_size(pls),
    decreases es.len(),
{
    if es.len() > 0 {
        let init = es.subrange(0, es.len() - 1);
        assert(init =~= es.drop_last());
        assert(holds_polylines(init, pls.drop_last()));
        lemma_holds_polylines(init, pls.drop_last());
        let last = es[es.len() - 1];
        assert(last matches BaseEntity::PolylineEntity(pl) && pl.vertices@ == pls.last());
        match last {
            BaseEntity::PolylineEntity(pl) => {
                assert(entity_bytes(last) == polyline_bytes(pls.last()));
                assert(entity_size(last) == polyline_size(pls.last()));
            },
            _ => {},
        }
    }
}

/// A group of polylines encodes as the polylines' group encoding, and fits
/// exactly when that group does.
pub proof fn lemma_polyline_group(g: GroupEntity, pls: Seq<Seq<PolylineEntityVertex>>)
    requires
        holds_polylines(g.entities@, pls),
    ensures
        entity_bytes(BaseEntity::GroupEntity(g)) == polyline_group_bytes(pls),
        encodable(BaseEntity::GroupEntity(g)) == polyline_group_fits(pls),
{
    lemma_holds_polylines(g.entities@, pls);
    assert(group_payload_len(g.entities@) == polyline_group_payload_len(pls));
}

/// The group a block becomes: its polylines, converted, in order; entities
/// of other kinds are left out.
pub fn group_from_block(block: &SourceBlock) -> (r: GroupEntity)
    ensures
        holds_polylines(r.entities@, block_polylines(block.entities@)),
{
    let mut group = GroupEntity::new();
    let n = block.entities.len();
    let mut i: usize = 0;
    while i < n
        invariant
            n == block.entities@.len(),
            i <= n,
            holds_polylines(group.entities@, block_polylines(block.entities@.take(i as int))),
        decreases n - i,
    {
        proof {
            assert(block.entities@.take(i + 1).drop_last() =~= block.entities@.take(i as int));
        }
        match &block.entities[i] {
            SourceEntity::Polyline(pts) => {
                let pl = polylineentity_from_dxf_polyline(pts);
                group.entities.push(BaseEntity::PolylineEntity(pl));
            },
            _ => {},
        }
        i = i + 1;
    }
    assert(block.entities@.take(n as int) =~= block.entities@);
    group
}

} // verus!
