//! The entity model and its codec: for each entity an estimate of its
//! encoded size and an encoder, with the estimate proved exact.
use vstd::prelude::*;
use crate::wire::{
    array_len_bytes, ext_header_len, ext_meta_bytes, f32_bytes, lemma_array_len_len,
    lemma_ext_meta_len, mp_array_size_hint, mp_ext_size_hint, push_array_len, push_ext_meta,
    push_f32_bits, push_u8, seq_header_len, u8_bytes, u8_len, u8_size,
};

verus! {

/// Extension type of a point.
pub const POINT_ENTITY_EXT: i8 = 1;

/// Extension type of a polyline.
pub const POLYLINE_ENTITY_EXT: i8 = 2;

/// Extension type of a marker.
pub const MARKER_ENTITY_EXT: i8 = 3;

/// Extension type of a group.
pub const GROUP_ENTITY_EXT: i8 = 4;

/// A coloured coordinate. `x`, `y` and `z` are the IEEE-754 bit patterns of
/// single-precision floats.
#[derive(Clone, Copy, Debug, PartialEq, Eq)]
pub struct PointEntity {
    pub x: u32,
    pub y: u32,
    pub z: u32,
    pub r: u8,
    pub g: u8,
    pub b: u8,
}

/// A polyline vertex: a point and a thickness (a single-precision bit pattern).
#[derive(Clone, Copy, Debug, PartialEq, Eq)]
pub struct PolylineEntityVertex {
    pub p: PointEntity,
    pub thickness: u32,
}

/// An ordered path of vertices.
#[derive(Debug)]
pub struct PolylineEntity {
    pub vertices: Vec<PolylineEntityVertex>,
}

/// A sentinel without geometry. Its header announces a one-byte payload, and
/// that byte is the reserved value 0 written as a positive fixnum.
#[derive(Debug)]
pub struct MarkerEntity {}

/// Every kind of entity the codec handles.
#[derive(Debug)]
pub enum BaseEntity {
    MarkerEntity(MarkerEntity),
    PointEntity(PointEntity),
    PolylineEntity(PolylineEntity),
    GroupEntity(GroupEntity),
}

/// An ordered group of entities that it owns.
#[derive(Debug)]
pub struct GroupEntity {
    pub entities: Vec<BaseEntity>,
}

// ----- encodings -----

/// The fields of a point: three floats then three colour channels.
pub open spec fn point_fields(p: PointEntity) -> Seq<u8> {
    f32_bytes(p.x) + f32_bytes(p.y) + f32_bytes(p.z) + u8_bytes(p.r) + u8_bytes(p.g) + u8_bytes(
        p.b,
    )
}

/// A point: an extension header of type 1 and the point's fields.
pub open spec fn point_bytes(p: PointEntity) -> Seq<u8> {
    ext_meta_bytes(point_fields(p).len() as u32, POINT_ENTITY_EXT) + point_fields(p)
}

/// A vertex inside a polyline: the point's fields, then the thickness.
pub open spec fn vertex_bytes(v: PolylineEntityVertex) -> Seq<u8> {
    point_fields(v.p) + f32_bytes(v.thickness)
}

/// The vertices one after another.
pub open spec fn vertices_bytes(vs: Seq<PolylineEntityVertex>) -> Seq<u8>
    decreases vs.len(),
{
    if vs.len() == 0 {
        Seq::empty()
    } else {
        vertices_bytes(vs.drop_last()) + vertex_bytes(vs.last())
    }
}

/// A polyline's payload: an array header for the vertex count, then the vertices.
pub open spec fn polyline_payload(vs: Seq<PolylineEntityVertex>) -> Seq<u8> {
    array_len_bytes(vs.len() as u32) + vertices_bytes(vs)
}

/// A polyline: an extension header of type 2 and its payload.
pub open spec fn polyline_bytes(vs: Seq<PolylineEntityVertex>) -> Seq<u8> {
    ext_meta_bytes(polyline_payload(vs).len() as u32, POLYLINE_ENTITY_EXT) + polyline_payload(vs)
}

/// A marker: an extension header of type 3 announcing one byte, then the byte 0.
pub open spec fn marker_bytes() -> Seq<u8> {
    ext_meta_bytes(1, MARKER_ENTITY_EXT) + seq![0u8]
}

/// The encoding of an entity.
pub open spec fn entity_bytes(e: BaseEntity) -> Seq<u8>
    decreases e,
{
    match e {
        BaseEntity::MarkerEntity(_) => marker_bytes(),
        BaseEntity::PointEntity(p) => point_bytes(p),
        BaseEntity::PolylineEntity(pl) => polyline_bytes(pl.vertices@),
        BaseEntity::GroupEntity(g) => {
            let payload = array_len_bytes(g.entities@.len() as u32) + entities_bytes(g.entities@);
            ext_meta_bytes(payload.len() as u32, GROUP_ENTITY_EXT) + payload
        },
    }
}

/// The encodings of entities one after another.
pub open spec fn entities_bytes(es: Seq<BaseEntity>) -> Seq<u8>
    decreases es,
{
    if es.len() == 0 {
        Seq::empty()
    } else {
        entities_bytes(es.subrange(0, es.len() - 1)) + entity_bytes(es[es.len() - 1])
    }
}

// ----- estimates -----

/// Payload size of a point: three 5-byte floats and three integers.
pub open spec fn point_payload_len(p: PointEntity) -> nat {
    15 + u8_len(p.r) + u8_len(p.g) + u8_len(p.b)
}

/// Total size of the vertices of a polyline.
pub open spec fn vertices_len(vs: Seq<PolylineEntityVertex>) -> nat
    decreases vs.len(),
{
    if vs.len() == 0 {
        0
    } else {
        vertices_len(vs.drop_last()) + point_payload_len(vs.last().p) + 5
    }
}

/// Payload size of a polyline: the array header, then the vertices.
pub open spec fn polyline_payload_len(vs: Seq<PolylineEntityVertex>) -> nat {
    seq_header_len(vs.len()) + vertices_len(vs)
}

/// Payload size of a group: the array header, then the children's full
/// sizes, their own headers included.
pub open spec fn group_payload_len(es: Seq<BaseEntity>) -> nat {
    seq_header_len(es.len()) + entities_size(es)
}

/// The size an entity takes once encoded, reckoned from header-size tables
/// without encoding anything.
pub open spec fn entity_size(e: BaseEntity) -> nat
    decreases e,
{
    match e {
        BaseEntity::MarkerEntity(_) => ext_header_len(1) + 1,
        BaseEntity::PointEntity(p) => ext_header_len(point_payload_len(p)) + point_payload_len(p),
        BaseEntity::PolylineEntity(pl) => ext_header_len(polyline_payload_len(pl.vertices@))
            + polyline_payload_len(pl.vertices@),
        BaseEntity::GroupEntity(g) => {
            let c = seq_header_len(g.entities@.len()) + entities_size(g.entities@);
            ext_header_len(c) + c
        },
    }
}

/// The sum of the sizes of entities.
pub open spec fn entities_size(es: Seq<BaseEntity>) -> nat
    decreases es,
{
    if es.len() == 0 {
        0
    } else {
        entities_size(es.subrange(0, es.len() - 1)) + entity_size(es[es.len() - 1])
    }
}

/// An entity whose encoding can announce every payload length in 32 bits.
pub open spec fn encodable(e: BaseEntity) -> bool {
    entity_size(e) <= u32::MAX
}

// ----- lemmas -----

proof fn lemma_point_fields_len(p: PointEntity)
    ensures
        point_fields(p).len() == point_payload_len(p),
{
}

proof fn lemma_vertices_len(vs: Seq<PolylineEntityVertex>)
    ensures
        vertices_bytes(vs).len() == vertices_len(vs),
        vertices_len(vs) >= vs.len(),
    decreases vs.len(),
{
    if vs.len() > 0 {
        lemma_vertices_len(vs.drop_last());
        lemma_point_fields_len(vs.last().p);
    }
}

proof fn lemma_vertices_prefix(vs: Seq<PolylineEntityVertex>, k: int)
    requires
        0 <= k <= vs.len(),
    ensures
        vertices_len(vs.take(k)) <= vertices_len(vs),
    decreases vs.len(),
{
    if k < vs.len() {
        lemma_vertices_prefix(vs.drop_last(), k);
        assert(vs.drop_last().take(k) =~= vs.take(k));
    } else {
        assert(vs.take(k) =~= vs);
    }
}

proof fn lemma_entity_within(es: Seq<BaseEntity>, i: int)
    requires
        0 <= i < es.len(),
    ensures
        entities_size(es.subrange(0, i + 1)) == entities_size(es.subrange(0, i)) + entity_size(
            es[i],
        ),
        entities_size(es.subrange(0, i + 1)) <= entities_size(es),
{
    lemma_entities_prefix(es, i + 1);
    assert(es.subrange(0, i + 1).subrange(0, i) =~= es.subrange(0, i));
}

proof fn lemma_entities_prefix(es: Seq<BaseEntity>, k: int)
    requires
        0 <= k <= es.len(),
    ensures
        entities_size(es.subrange(0, k)) <= entities_size(es),
    decreases es.len(),
{
    if k < es.len() {
        let init = es.subrange(0, es.len() - 1);
        lemma_entities_prefix(init, k);
        assert(init.subrange(0, k) =~= es.subrange(0, k));
    } else {
        assert(es.subrange(0, k) =~= es);
    }
}

/// Every entity is at least two bytes long.
proof fn lemma_entity_size_pos(e: BaseEntity)
    ensures
        entity_size(e) >= 2,
{
}

proof fn lemma_entities_exact(es: Seq<BaseEntity>)
    requires
        entities_size(es) <= u32::MAX,
    ensures
        entities_bytes(es).len() == entities_size(es),
        entities_size(es) >= es.len(),
    decreases es,
{
    if es.len() > 0 {
        let init = es.subrange(0, es.len() - 1);
        lemma_entities_exact(init);
        lemma_estimate_exact(es[es.len() - 1]);
        lemma_entity_size_pos(es[es.len() - 1]);
    }
}

/// The estimate is exact: an encodable entity encodes to exactly as many
/// bytes as its estimated size, and a group's estimate is its own header
/// plus the children's estimates.
pub proof fn lemma_estimate_exact(e: BaseEntity)
    requires
        encodable(e),
    ensures
        entity_bytes(e).len() == entity_size(e),
    decreases e,
{
    match e {
        BaseEntity::MarkerEntity(_) => {},
        BaseEntity::PointEntity(p) => {
            lemma_point_fields_len(p);
            lemma_ext_meta_len(point_payload_len(p) as u32, POINT_ENTITY_EXT);
        },
        BaseEntity::PolylineEntity(pl) => {
            let vs = pl.vertices@;
            lemma_vertices_len(vs);
            lemma_array_len_len(vs.len() as u32);
            lemma_ext_meta_len(polyline_payload_len(vs) as u32, POLYLINE_ENTITY_EXT);
        },
        BaseEntity::GroupEntity(g) => {
            let es = g.entities@;
            lemma_entities_exact(es);
            lemma_array_len_len(es.len() as u32);
            lemma_ext_meta_len(group_payload_len(es) as u32, GROUP_ENTITY_EXT);
        },
    }
}

/// A group's encoding is its header, announcing the array header plus the
/// children's estimated sizes, then the array header and each child's
/// encoding in order; so its declared length is exactly the children's
/// lengths plus its own array header.
pub proof fn lemma_group_composition(g: GroupEntity)
    requires
        encodable(BaseEntity::GroupEntity(g)),
    ensures
        entity_bytes(BaseEntity::GroupEntity(g)) == ext_meta_bytes(
            group_payload_len(g.entities@) as u32,
            GROUP_ENTITY_EXT,
        ) + array_len_bytes(g.entities@.len() as u32) + entities_bytes(g.entities@),
        entities_bytes(g.entities@).len() == entities_size(g.entities@),
        entity_size(BaseEntity::GroupEntity(g)) == ext_header_len(group_payload_len(g.entities@))
            + group_payload_len(g.entities@),
{
    let es = g.entities@;
    lemma_entities_exact(es);
    lemma_array_len_len(es.len() as u32);
    assert(entity_bytes(BaseEntity::GroupEntity(g)) =~= ext_meta_bytes(
        group_payload_len(es) as u32,
        GROUP_ENTITY_EXT,
    ) + array_len_bytes(es.len() as u32) + entities_bytes(es));
}

// ----- estimate and encode -----

impl PointEntity {
    /// The point at the origin, black.
    pub fn new() -> (r: Self)
        ensures
            r == (PointEntity { x: 0, y: 0, z: 0, r: 0, g: 0, b: 0 }),
    {
        PointEntity { x: 0, y: 0, z: 0, r: 0, g: 0, b: 0 }
    }

    /// Size of the point's fields.
    pub fn payload_len(&self) -> (r: u32)
        ensures
            r == point_payload_len(*self),
    {
        15 + u8_size(self.r) + u8_size(self.g) + u8_size(self.b)
    }

    /// Estimated size of the encoded point.
    pub fn size_hint(&self) -> (r: usize)
        ensures
            r == entity_size(BaseEntity::PointEntity(*self)),
    {
        let c = self.payload_len();
        (mp_ext_size_hint(c) + c) as usize
    }

    /// Appends the point's fields without a header.
    pub fn write_fields(&self, wr: &mut Vec<u8>)
        ensures
            final(wr)@ == old(wr)@ + point_fields(*self),
    {
        push_f32_bits(wr, self.x);
        push_f32_bits(wr, self.y);
        push_f32_bits(wr, self.z);
        push_u8(wr, self.r);
        push_u8(wr, self.g);
        push_u8(wr, self.b);
        assert(wr@ =~= old(wr)@ + point_fields(*self));
    }

    /// Appends the encoded point.
    pub fn serialize(&self, wr: &mut Vec<u8>)
        ensures
            final(wr)@ == old(wr)@ + entity_bytes(BaseEntity::PointEntity(*self)),
    {
        proof {
            lemma_point_fields_len(*self);
        }
        let c = self.payload_len();
        push_ext_meta(wr, c, POINT_ENTITY_EXT);
        self.write_fields(wr);
        assert(wr@ =~= old(wr)@ + entity_bytes(BaseEntity::PointEntity(*self)));
    }
}

impl MarkerEntity {
    /// The sentinel.
    pub fn new() -> (r: Self) {
        MarkerEntity {  }
    }

    /// Estimated size of the encoded marker.
    pub fn size_hint(&self) -> (r: usize)
        ensures
            r == entity_size(BaseEntity::MarkerEntity(*self)),
    {
        (mp_ext_size_hint(1) + 1) as usize
    }

    /// Appends the encoded marker.
    pub fn serialize(&self, wr: &mut Vec<u8>)
        ensures
            final(wr)@ == old(wr)@ + entity_bytes(BaseEntity::MarkerEntity(*self)),
    {
        push_ext_meta(wr, 1, MARKER_ENTITY_EXT);
        push_u8(wr, 0);
        assert(wr@ =~= old(wr)@ + marker_bytes());
    }
}

impl PolylineEntity {
    /// A polyline without vertices.
    pub fn new() -> (r: Self)
        ensures
            r.vertices@ == Seq::<PolylineEntityVertex>::empty(),
    {
        PolylineEntity { vertices: Vec::new() }
    }

    /// Size of the polyline's payload.
    pub fn payload_len(&self) -> (r: u32)
        requires
            encodable(BaseEntity::PolylineEntity(*self)),
        ensures
            r == polyline_payload_len(self.vertices@),
    {
        let ghost vs = self.vertices@;
        proof {
            lemma_vertices_len(vs);
        }
        let n = self.vertices.len();
        let mut total: u32 = 0;
        let mut i: usize = 0;
        while i < n
            invariant
                vs == self.vertices@,
                n == vs.len(),
                i <= n,
                total == vertices_len(vs.take(i as int)),
                polyline_payload_len(vs) <= u32::MAX,
            decreases n - i,
        {
            proof {
                lemma_vertices_prefix(vs, i + 1);
                assert(vs.take(i + 1).drop_last() =~= vs.take(i as int));
            }
            total = total + self.vertices[i].p.payload_len() + 5;
            i = i + 1;
        }
        assert(vs.take(n as int) =~= vs);
        mp_array_size_hint(n as u32) + total
    }

    /// Whether the polyline is small enough to be encoded.
    pub fn fits(&self) -> (r: bool)
        ensures
            r == encodable(BaseEntity::PolylineEntity(*self)),
    {
        let ghost vs = self.vertices@;
        proof {
            lemma_vertices_len(vs);
        }
        let n = self.vertices.len();
        let mut total: u64 = 0;
        let mut i: usize = 0;
        while i < n
            invariant
                vs == self.vertices@,
                n == vs.len(),
                i <= n,
                total == vertices_len(vs.take(i as int)),
                total <= u32::MAX,
            decreases n - i,
        {
            proof {
                lemma_vertices_prefix(vs, i + 1);
                assert(vs.take(i + 1).drop_last() =~= vs.take(i as int));
            }
            total = total + self.vertices[i].p.payload_len() as u64 + 5;
            if total > u32::MAX as u64 {
                return false;
            }
            i = i + 1;
        }
        assert(vs.take(n as int) =~= vs);
        let c = mp_array_size_hint(n as u32) as u64 + total;
        if c > u32::MAX as u64 {
            return false;
        }
        mp_ext_size_hint(c as u32) as u64 + c <= u32::MAX as u64
    }

    /// Estimated size of the encoded polyline.
    pub fn size_hint(&self) -> (r: usize)
        requires
            encodable(BaseEntity::PolylineEntity(*self)),
        ensures
            r == entity_size(BaseEntity::PolylineEntity(*self)),
    {
        let c = self.payload_len();
        (mp_ext_size_hint(c) + c) as usize
    }

    /// Appends the encoded polyline.
    pub fn serialize(&self, wr: &mut Vec<u8>)
        requires
            encodable(BaseEntity::PolylineEntity(*self)),
        ensures
            final(wr)@ == old(wr)@ + entity_bytes(BaseEntity::PolylineEntity(*self)),
    {
        let ghost vs = self.vertices@;
        proof {
            lemma_estimate_exact(BaseEntity::PolylineEntity(*self));
            lemma_vertices_len(vs);
            lemma_array_len_len(vs.len() as u32);
        }
        let c = self.payload_len();
        let n = self.vertices.len();
        push_ext_meta(wr, c, POLYLINE_ENTITY_EXT);
        push_array_len(wr, n as u32);
        let ghost head = wr@;
        let mut i: usize = 0;
        while i < n
            invariant
                vs == self.vertices@,
                n == vs.len(),
                i <= n,
                wr@ == head + vertices_bytes(vs.take(i as int)),
            decreases n - i,
        {
            let v = &self.vertices[i];
            v.p.write_fields(wr);
            push_f32_bits(wr, v.thickness);
            proof {
                assert(vs.take(i + 1).drop_last() =~= vs.take(i as int));
                assert(wr@ =~= head + vertices_bytes(vs.take(i + 1)));
            }
            i = i + 1;
        }
        assert(vs.take(n as int) =~= vs);
        assert(wr@ =~= old(wr)@ + entity_bytes(BaseEntity::PolylineEntity(*self)));
    }
}

impl GroupEntity {
    /// A group without children.
    pub fn new() -> (r: Self)
        ensures
            r.entities@ == Seq::<BaseEntity>::empty(),
    {
        GroupEntity { entities: Vec::new() }
    }

    /// Size of the group's payload.
    pub fn payload_len(&self) -> (r: u32)
        requires
            encodable(BaseEntity::GroupEntity(*self)),
        ensures
            r == group_payload_len(self.entities@),
        decreases self, 0nat,
    {
        let ghost es = self.entities@;
        let n = self.entities.len();
        let mut total: u32 = 0;
        let mut i: usize = 0;
        proof {
            lemma_entities_exact(es);
        }
        while i < n
            invariant
                es == self.entities@,
                n == es.len(),
                i <= n,
                total == entities_size(es.subrange(0, i as int)),
                group_payload_len(es) <= u32::MAX,
            decreases n - i,
        {
            proof {
                lemma_entities_prefix(es, i + 1);
                assert(es.subrange(0, i + 1).subrange(0, i as int) =~= es.subrange(0, i as int));
            }
            let k = self.entities[i].size_hint();
            total = total + k as u32;
            i = i + 1;
        }
        assert(es.subrange(0, n as int) =~= es);
        mp_array_size_hint(n as u32) + total
    }

    /// Whether the group, with everything in it, is small enough to be encoded.
    pub fn fits(&self) -> (r: bool)
        ensures
            r == encodable(BaseEntity::GroupEntity(*self)),
        decreases self, 1nat,
    {
        let ghost es = self.entities@;
        let n = self.entities.len();
        let mut total: u64 = 0;
        let mut i: usize = 0;
        while i < n
            invariant
                es == self.entities@,
                n == es.len(),
                i <= n,
                total == entities_size(es.subrange(0, i as int)),
                total <= u32::MAX,
            decreases n - i,
        {
            proof {
                lemma_entity_within(es, i as int);
            }
            if !self.entities[i].fits() {
                return false;
            }
            let k = self.entities[i].size_hint();
            total = total + k as u64;
            if total > u32::MAX as u64 {
                return false;
            }
            i = i + 1;
        }
        assert(es.subrange(0, n as int) =~= es);
        proof {
            lemma_entities_exact(es);
        }
        let c = mp_array_size_hint(n as u32) as u64 + total;
        if c > u32::MAX as u64 {
            return false;
        }
        mp_ext_size_hint(c as u32) as u64 + c <= u32::MAX as u64
    }

    /// Estimated size of the encoded group.
    pub fn size_hint(&self) -> (r: usize)
        requires
            encodable(BaseEntity::GroupEntity(*self)),
        ensures
            r == entity_size(BaseEntity::GroupEntity(*self)),
        decreases self, 1nat,
    {
        let c = self.payload_len();
        (mp_ext_size_hint(c) + c) as usize
    }

    /// Appends the encoded group: its header, the child count and each child
    /// in order.
    pub fn serialize(&self, wr: &mut Vec<u8>)
        requires
            encodable(BaseEntity::GroupEntity(*self)),
        ensures
            final(wr)@ == old(wr)@ + entity_bytes(BaseEntity::GroupEntity(*self)),
        decreases self, 1nat,
    {
        let ghost es = self.entities@;
        proof {
            lemma_estimate_exact(BaseEntity::GroupEntity(*self));
            lemma_entities_exact(es);
            lemma_array_len_len(es.len() as u32);
        }
        let c = self.payload_len();
        let n = self.entities.len();
        push_ext_meta(wr, c, GROUP_ENTITY_EXT);
        push_array_len(wr, n as u32);
        let ghost head = wr@;
        let mut i: usize = 0;
        while i < n
            invariant
                es == self.entities@,
                n == es.len(),
                i <= n,
                wr@ == head + entities_bytes(es.subrange(0, i as int)),
                entities_size(es) <= u32::MAX,
            decreases n - i,
        {
            proof {
                lemma_entities_prefix(es, i + 1);
                assert(es.subrange(0, i + 1).subrange(0, i as int) =~= es.subrange(0, i as int));
            }
            self.entities[i].serialize(wr);
            proof {
                assert(wr@ =~= head + entities_bytes(es.subrange(0, i + 1)));
            }
            i = i + 1;
        }
        assert(es.subrange(0, n as int) =~= es);
        assert(wr@ =~= old(wr)@ + entity_bytes(BaseEntity::GroupEntity(*self)));
    }
}

impl BaseEntity {
    /// Whether the entity is small enough to be encoded.
    pub fn fits(&self) -> (r: bool)
        ensures
            r == encodable(*self),
        decreases self, 2nat,
    {
        match self {
            BaseEntity::MarkerEntity(_) => true,
            BaseEntity::GroupEntity(g) => g.fits(),
            BaseEntity::PolylineEntity(pl) => pl.fits(),
            BaseEntity::PointEntity(_) => true,
        }
    }

    /// Estimated size of the encoded entity.
    pub fn size_hint(&self) -> (r: usize)
        requires
            encodable(*self),
        ensures
            r == entity_size(*self),
        decreases self, 2nat,
    {
        match self {
            BaseEntity::MarkerEntity(m) => m.size_hint(),
            BaseEntity::GroupEntity(g) => g.size_hint(),
            BaseEntity::PolylineEntity(pl) => pl.size_hint(),
            BaseEntity::PointEntity(p) => p.size_hint(),
        }
    }

    /// Appends the encoded entity.
    pub fn serialize(&self, wr: &mut Vec<u8>)
        requires
            encodable(*self),
        ensures
            final(wr)@ == old(wr)@ + entity_bytes(*self),
        decreases self, 2nat,
    {
        match self {
            BaseEntity::MarkerEntity(m) => m.serialize(wr),
            BaseEntity::GroupEntity(g) => g.serialize(wr),
            BaseEntity::PolylineEntity(pl) => pl.serialize(wr),
            BaseEntity::PointEntity(p) => p.serialize(wr),
        }
    }
}

} // verus!
