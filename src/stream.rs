//! The batch of messages one drawing produces on the broadcast channel: a
//! begin label, the marker sentinel, one frame per supported top-level
//! entity in drawing order, and an end label.
use vstd::prelude::*;
use vstd::string::{StrSliceExecFns, StringSliceAdditionalSpecFns};
use crate::convert::{
    SourceDrawing, SourceEntity, SourceBlock, block_polylines, polyline_vertices, polyline_size,
    polyline_group_bytes, polyline_group_fits, holds_polylines, group_from_block,
    polylineentity_from_dxf_polyline, lemma_polyline_group,
};
use crate::entity::{
    BaseEntity, GroupEntity, MarkerEntity, entity_size, marker_bytes,
    polyline_bytes,
};

verus! {

/// Label of the message that opens a batch.
pub open spec fn start_label() -> Seq<u8> {
    "entities/start".spec_bytes()
}

/// Label carried by every entity frame.
pub open spec fn entities_label() -> Seq<u8> {
    "entities".spec_bytes()
}

/// Label of the message that closes a batch.
pub open spec fn end_label() -> Seq<u8> {
    "entities/end".spec_bytes()
}

pub fn start_label_bytes() -> (r: Vec<u8>)
    ensures
        r@ == start_label(),
{
    "entities/start".as_bytes_vec()
}

pub fn entities_label_bytes() -> (r: Vec<u8>)
    ensures
        r@ == entities_label(),
{
    "entities".as_bytes_vec()
}

pub fn end_label_bytes() -> (r: Vec<u8>)
    ensures
        r@ == end_label(),
{
    "entities/end".as_bytes_vec()
}

/// A message as the sequence of its parts' bytes.
pub open spec fn message_view(m: Vec<Vec<u8>>) -> Seq<Seq<u8>> {
    m@.map_values(|p: Vec<u8>| p@)
}

/// Messages as sequences of parts.
pub open spec fn messages_view(ms: Seq<Vec<Vec<u8>>>) -> Seq<Seq<Seq<u8>>> {
    ms.map_values(|m: Vec<Vec<u8>>| message_view(m))
}

fn one_part(p: Vec<u8>) -> (r: Vec<Vec<u8>>)
    ensures
        message_view(r) == seq![p@],
{
    let ghost v = p@;
    let mut m: Vec<Vec<u8>> = Vec::new();
    m.push(p);
    assert(message_view(m) =~= seq![v]);
    m
}

fn two_parts(a: Vec<u8>, b: Vec<u8>) -> (r: Vec<Vec<u8>>)
    ensures
        message_view(r) == seq![a@, b@],
{
    let ghost va = a@;
    let ghost vb = b@;
    let mut m: Vec<Vec<u8>> = Vec::new();
    m.push(a);
    m.push(b);
    assert(message_view(m) =~= seq![va, vb]);
    m
}

// ----- blocks by name -----

/// Index of the last block called `name`, or -1 where none is.
pub open spec fn block_index(blocks: Seq<SourceBlock>, name: Seq<u8>) -> int
    decreases blocks.len(),
{
    if blocks.len() == 0 {
        -1
    } else if blocks.last().name@ == name {
        blocks.len() - 1
    } else {
        block_index(blocks.drop_last(), name)
    }
}

pub fn bytes_equal(a: &Vec<u8>, b: &Vec<u8>) -> (r: bool)
    ensures
        r == (a@ == b@),
{
    if a.len() != b.len() {
        return false;
    }
    let mut i: usize = 0;
    while i < a.len()
        invariant
            a@.len() == b@.len(),
            i <= a@.len(),
            forall|j: int| 0 <= j < i ==> a@[j] == b@[j],
        decreases a@.len() - i,
    {
        if a[i] != b[i] {
            return false;
        }
        i = i + 1;
    }
    assert(a@ =~= b@);
    true
}

/// Finds the last block called `name`.
pub fn find_block(blocks: &Vec<SourceBlock>, name: &Vec<u8>) -> (r: Option<usize>)
    ensures
        match r {
            Some(i) => i == block_index(blocks@, name@) && i < blocks@.len(),
            None => block_index(blocks@, name@) == -1,
        },
{
    let mut i: usize = blocks.len();
    assert(blocks@.take(i as int) =~= blocks@);
    while i > 0
        invariant
            i <= blocks@.len(),
            block_index(blocks@, name@) == block_index(blocks@.take(i as int), name@),
        decreases i,
    {
        proof {
            assert(blocks@.take(i as int).drop_last() =~= blocks@.take(i - 1));
        }
        if bytes_equal(&blocks[i - 1].name, name) {
            return Some(i - 1);
        }
        i = i - 1;
    }
    None
}

// ----- batches -----

/// Why a drawing cannot be converted; each carries the index of the
/// top-level entity at fault.
#[derive(Debug, Clone, Copy, PartialEq, Eq)]
pub enum ConvertError {
    /// An insert names a block that the drawing does not have.
    UnknownBlockReference(usize),
    /// The entity's encoding would exceed what a 32-bit length can announce.
    TooLarge(usize),
}

/// What is wrong with the top-level entity at index `i`, if anything.
pub open spec fn entity_error(d: SourceDrawing, i: int) -> Option<ConvertError> {
    match d.entities@[i] {
        SourceEntity::Polyline(pts) => {
            if polyline_size(polyline_vertices(pts@)) <= u32::MAX {
                None
            } else {
                Some(ConvertError::TooLarge(i as usize))
            }
        },
        SourceEntity::Insert(name) => {
            let bi = block_index(d.blocks@, name@);
            if bi < 0 {
                Some(ConvertError::UnknownBlockReference(i as usize))
            } else if polyline_group_fits(block_polylines(d.blocks@[bi].entities@)) {
                None
            } else {
                Some(ConvertError::TooLarge(i as usize))
            }
        },
        SourceEntity::Other => None,
    }
}

/// The frames of one top-level entity: a polyline gives its encoding, an
/// insert the encoding of its block's group, any other kind nothing.
pub open spec fn entity_frames(d: SourceDrawing, e: SourceEntity) -> Seq<Seq<Seq<u8>>> {
    match e {
        SourceEntity::Polyline(pts) => seq![
            seq![entities_label(), polyline_bytes(polyline_vertices(pts@))],
        ],
        SourceEntity::Insert(name) => seq![
            seq![
                entities_label(),
                polyline_group_bytes(
                    block_polylines(d.blocks@[block_index(d.blocks@, name@)].entities@),
                ),
            ],
        ],
        SourceEntity::Other => Seq::empty(),
    }
}

/// The frames of top-level entities, in order.
pub open spec fn entities_frames(d: SourceDrawing, es: Seq<SourceEntity>) -> Seq<Seq<Seq<u8>>>
    decreases es.len(),
{
    if es.len() == 0 {
        Seq::empty()
    } else {
        entities_frames(d, es.drop_last()) + entity_frames(d, es.last())
    }
}

/// The messages of a batch: the begin label, the marker sentinel, the
/// entities' frames, the end label.
pub open spec fn batch_messages(d: SourceDrawing) -> Seq<Seq<Seq<u8>>> {
    seq![seq![start_label()], seq![entities_label(), marker_bytes()]] + entities_frames(
        d,
        d.entities@,
    ) + seq![seq![end_label()]]
}

/// Indices of the top-level entities of a kind that the conversion skips.
pub open spec fn skipped_entities(es: Seq<SourceEntity>) -> Seq<usize>
    decreases es.len(),
{
    if es.len() == 0 {
        Seq::empty()
    } else {
        skipped_entities(es.drop_last()) + if es.last() is Other {
            seq![(es.len() - 1) as usize]
        } else {
            Seq::empty()
        }
    }
}

/// An entity of an unsupported kind is skipped: taking it out leaves the
/// frames of all the other entities as they were, and its index is among the
/// skipped ones.
pub proof fn lemma_unsupported_skipped(d: SourceDrawing, es: Seq<SourceEntity>, i: int)
    requires
        0 <= i < es.len(),
        es[i] is Other,
    ensures
        entities_frames(d, es) == entities_frames(d, es.remove(i)),
        skipped_entities(es).contains(i as usize),
    decreases es.len(),
{
    if i == es.len() - 1 {
        assert(es.remove(i) =~= es.drop_last());
        assert(entities_frames(d, es) =~= entities_frames(d, es.drop_last()));
        assert(skipped_entities(es).last() == i as usize);
    } else {
        lemma_unsupported_skipped(d, es.drop_last(), i);
        assert(es.remove(i).drop_last() =~= es.drop_last().remove(i));
        assert(es.remove(i).last() == es.last());
        let k = choose|k: int|
            0 <= k < skipped_entities(es.drop_last()).len() && skipped_entities(es.drop_last())[k]
                == i as usize;
        assert(skipped_entities(es)[k] == i as usize);
    }
}

/// A converted drawing: the messages to publish, each a list of parts, and
/// the indices of the top-level entities that were skipped.
pub struct Batch {
    pub messages: Vec<Vec<Vec<u8>>>,
    pub skipped: Vec<usize>,
}

/// Converts a drawing into the batch of messages it publishes. Every
/// reference and size is checked before anything is returned, so a drawing
/// with a fault yields an error and no message at all.
pub fn convert_drawing(d: &SourceDrawing) -> (r: Result<Batch, ConvertError>)
    ensures
        match r {
            Ok(b) => {
                &&& forall|i: int| 0 <= i < d.entities@.len() ==> entity_error(*d, i) is None
                &&& messages_view(b.messages@) == batch_messages(*d)
                &&& b.skipped@ == skipped_entities(d.entities@)
            },
            Err(e) => exists|i: int|
                0 <= i < d.entities@.len() && entity_error(*d, i) == Some(e) && forall|j: int|
                    0 <= j < i ==> entity_error(*d, j) is None,
        },
{
    let ghost es = d.entities@;
    let ghost blocks = d.blocks@;
    let mut groups: Vec<GroupEntity> = Vec::new();
    let nb = d.blocks.len();
    let mut k: usize = 0;
    while k < nb
        invariant
            blocks == d.blocks@,
            nb == blocks.len(),
            k <= nb,
            groups@.len() == k,
            forall|j: int|
                0 <= j < k ==> holds_polylines(
                    #[trigger] groups@[j].entities@,
                    block_polylines(blocks[j].entities@),
                ),
        decreases nb - k,
    {
        groups.push(group_from_block(&d.blocks[k]));
        k = k + 1;
    }

    let mut messages: Vec<Vec<Vec<u8>>> = Vec::new();
    let mut skipped: Vec<usize> = Vec::new();
    messages.push(one_part(start_label_bytes()));
    let mut sentinel: Vec<u8> = Vec::new();
    let marker = MarkerEntity {  };
    marker.serialize(&mut sentinel);
    messages.push(two_parts(entities_label_bytes(), sentinel));
    let ghost head = seq![seq![start_label()], seq![entities_label(), marker_bytes()]];
    assert(messages_view(messages@) =~= head + entities_frames(*d, es.take(0)));

    let n = d.entities.len();
    let mut i: usize = 0;
    while i < n
        invariant
            es == d.entities@,
            blocks == d.blocks@,
            n == es.len(),
            i <= n,
            groups@.len() == blocks.len(),
            forall|j: int|
                0 <= j < blocks.len() ==> holds_polylines(
                    #[trigger] groups@[j].entities@,
                    block_polylines(blocks[j].entities@),
                ),
            forall|j: int| 0 <= j < i ==> entity_error(*d, j) is None,
            messages_view(messages@) == head + entities_frames(*d, es.take(i as int)),
            skipped@ == skipped_entities(es.take(i as int)),
        decreases n - i,
    {
        proof {
            assert(es.take(i + 1).drop_last() =~= es.take(i as int));
            assert(es.take(i + 1).last() == es[i as int]);
        }
        let ghost before = messages@;
        match &d.entities[i] {
            SourceEntity::Polyline(pts) => {
                let pl = polylineentity_from_dxf_polyline(pts);
                assert(entity_size(BaseEntity::PolylineEntity(pl)) == polyline_size(pl.vertices@));
                if !pl.fits() {
                    assert(entity_error(*d, i as int) == Some(ConvertError::TooLarge(i)));
                    return Err(ConvertError::TooLarge(i));
                }
                let mut buf: Vec<u8> = Vec::new();
                pl.serialize(&mut buf);
                messages.push(two_parts(entities_label_bytes(), buf));
                assert(messages_view(messages@) =~= messages_view(before) + entity_frames(
                    *d,
                    es[i as int],
                ));
            },
            SourceEntity::Insert(name) => {
                match find_block(&d.blocks, name) {
                    None => {
                        assert(entity_error(*d, i as int) == Some(
                            ConvertError::UnknownBlockReference(i),
                        ));
                        return Err(ConvertError::UnknownBlockReference(i));
                    },
                    Some(bi) => {
                        let g = &groups[bi];
                        proof {
                            lemma_polyline_group(*g, block_polylines(blocks[bi as int].entities@));
                        }
                        if !g.fits() {
                            assert(entity_error(*d, i as int) == Some(ConvertError::TooLarge(i)));
                            return Err(ConvertError::TooLarge(i));
                        }
                        let mut buf: Vec<u8> = Vec::new();
                        g.serialize(&mut buf);
                        messages.push(two_parts(entities_label_bytes(), buf));
                        assert(messages_view(messages@) =~= messages_view(before) + entity_frames(
                            *d,
                            es[i as int],
                        ));
                    },
                }
            },
            SourceEntity::Other => {
                skipped.push(i);
                assert(messages_view(messages@) =~= messages_view(before) + entity_frames(
                    *d,
                    es[i as int],
                ));
            },
        }
        i = i + 1;
    }
    assert(es.take(n as int) =~= es);
    messages.push(one_part(end_label_bytes()));
    Ok(Batch { messages, skipped })
}

} // verus!
