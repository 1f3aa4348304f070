//! MessagePack primitives used by the entity codec: byte layouts as spec
//! functions, header sizes, and the writers that append them to a buffer.
use vstd::prelude::*;

verus! {

/// Big-endian bytes of a 16-bit value.
pub open spec fn be16(v: u16) -> Seq<u8> {
    seq![(v >> 8u16) as u8, v as u8]
}

/// Big-endian bytes of a 32-bit value.
pub open spec fn be32(v: u32) -> Seq<u8> {
    seq![(v >> 24u32) as u8, (v >> 16u32) as u8, (v >> 8u32) as u8, v as u8]
}

/// Bytes of an extension header announcing a `len`-byte payload of type `ty`.
pub open spec fn ext_meta_bytes(len: u32, ty: i8) -> Seq<u8> {
    if len == 1 {
        seq![0xd4u8, ty as u8]
    } else if len == 2 {
        seq![0xd5u8, ty as u8]
    } else if len == 4 {
        seq![0xd6u8, ty as u8]
    } else if len == 8 {
        seq![0xd7u8, ty as u8]
    } else if len == 16 {
        seq![0xd8u8, ty as u8]
    } else if len <= 255 {
        seq![0xc7u8, len as u8, ty as u8]
    } else if len <= 65535 {
        seq![0xc8u8] + be16(len as u16) + seq![ty as u8]
    } else {
        seq![0xc9u8] + be32(len) + seq![ty as u8]
    }
}

/// Bytes of an array header announcing `n` items.
pub open spec fn array_len_bytes(n: u32) -> Seq<u8> {
    if n < 16 {
        seq![(0x90 + n) as u8]
    } else if n <= 65535 {
        seq![0xdcu8] + be16(n as u16)
    } else {
        seq![0xddu8] + be32(n)
    }
}

/// Bytes of an 8-bit unsigned integer: one byte when it fits a positive
/// fixnum, else a marker and the value.
pub open spec fn u8_bytes(v: u8) -> Seq<u8> {
    if v <= 127 {
        seq![v]
    } else {
        seq![0xccu8, v]
    }
}

/// Bytes of a single-precision float given by its IEEE-754 bit pattern.
pub open spec fn f32_bytes(bits: u32) -> Seq<u8> {
    seq![0xcau8] + be32(bits)
}

/// Size of an extension header for a `c`-byte payload.
pub open spec fn ext_header_len(c: nat) -> nat {
    if c == 1 || c == 2 || c == 4 || c == 8 || c == 16 {
        2
    } else if c <= 255 {
        3
    } else if c <= 65535 {
        4
    } else {
        6
    }
}

/// Size of an array header for `n` items.
pub open spec fn seq_header_len(n: nat) -> nat {
    if n <= 15 {
        1
    } else if n <= 65535 {
        3
    } else {
        5
    }
}

/// Size of an encoded 8-bit unsigned integer.
pub open spec fn u8_len(v: u8) -> nat {
    if v <= 127 {
        1
    } else {
        2
    }
}

pub proof fn lemma_ext_meta_len(len: u32, ty: i8)
    ensures
        ext_meta_bytes(len, ty).len() == ext_header_len(len as nat),
{
}

pub proof fn lemma_array_len_len(n: u32)
    ensures
        array_len_bytes(n).len() == seq_header_len(n as nat),
{
}

/// Size of the extension header that announces a `len`-byte payload.
pub fn mp_ext_size_hint(len: u32) -> (r: u32)
    ensures
        r == ext_header_len(len as nat),
{
    match len {
        1 => 2,
        2 => 2,
        4 => 2,
        8 => 2,
        16 => 2,
        _ => {
            if len <= 255 {
                3
            } else if len <= 65535 {
                4
            } else {
                6
            }
        },
    }
}

/// Size of the array header that announces `len` items.
pub fn mp_array_size_hint(len: u32) -> (r: u32)
    ensures
        r == seq_header_len(len as nat),
{
    if len <= 15 {
        1
    } else if len <= 65535 {
        3
    } else {
        5
    }
}

/// Size of an encoded 8-bit unsigned integer.
pub fn u8_size(v: u8) -> (r: u32)
    ensures
        r == u8_len(v),
{
    if v <= 127 {
        1
    } else {
        2
    }
}

/// Relies on rmp::encode::write_ext_meta, which picks the smallest extension
/// header for `len` and writes marker, length and type; a `ByteBuf` cannot
/// fail to take the bytes.
#[verifier::external_body]
pub(crate) fn push_ext_meta(buf: &mut Vec<u8>, len: u32, ty: i8)
    requires
        ty >= 0,
    ensures
        final(buf)@ == old(buf)@ + ext_meta_bytes(len, ty),
{
    let mut bb = rmp::encode::ByteBuf::from_vec(std::mem::take(buf));
    let _marker = rmp::encode::write_ext_meta(&mut bb, len, ty);
    *buf = bb.into_vec();
}

/// Relies on rmp::encode::write_array_len, which picks the smallest array
/// header for `n` and writes marker and length; a `ByteBuf` cannot fail to
/// take the bytes.
#[verifier::external_body]
pub(crate) fn push_array_len(buf: &mut Vec<u8>, n: u32)
    ensures
        final(buf)@ == old(buf)@ + array_len_bytes(n),
{
    let mut bb = rmp::encode::ByteBuf::from_vec(std::mem::take(buf));
    let _marker = rmp::encode::write_array_len(&mut bb, n);
    *buf = bb.into_vec();
}

/// Relies on rmp::encode::write_pfix, which writes a value below 128 as the
/// single byte of a positive fixnum (and panics on a larger one).
#[verifier::external_body]
fn push_pfix(buf: &mut Vec<u8>, v: u8)
    requires
        v < 128,
    ensures
        final(buf)@ == old(buf)@ + seq![v],
{
    let mut bb = rmp::encode::ByteBuf::from_vec(std::mem::take(buf));
    let _done = rmp::encode::write_pfix(&mut bb, v);
    *buf = bb.into_vec();
}

/// Relies on rmp::encode::write_u8, which always writes the `u8` marker 0xcc
/// followed by the value.
#[verifier::external_body]
fn push_u8_full(buf: &mut Vec<u8>, v: u8)
    ensures
        final(buf)@ == old(buf)@ + seq![0xccu8, v],
{
    let mut bb = rmp::encode::ByteBuf::from_vec(std::mem::take(buf));
    let _done = rmp::encode::write_u8(&mut bb, v);
    *buf = bb.into_vec();
}

/// Appends an 8-bit unsigned integer in its smallest form.
pub fn push_u8(buf: &mut Vec<u8>, v: u8)
    ensures
        final(buf)@ == old(buf)@ + u8_bytes(v),
{
    if v <= 127 {
        push_pfix(buf, v);
    } else {
        push_u8_full(buf, v);
    }
}

/// Appends a single-precision float, given by its bit pattern, as the
/// marker 0xca followed by the four bytes of the pattern in big-endian order.
pub fn push_f32_bits(buf: &mut Vec<u8>, bits: u32)
    ensures
        final(buf)@ == old(buf)@ + f32_bytes(bits),
{
    buf.push(0xcau8);
    buf.push((bits >> 24u32) as u8);
    buf.push((bits >> 16u32) as u8);
    buf.push((bits >> 8u32) as u8);
    buf.push(bits as u8);
    assert(buf@ =~= old(buf)@ + f32_bytes(bits));
}

} // verus!
