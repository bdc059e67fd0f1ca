use vstd::prelude::*;

verus! {

/// Big-endian encoding of a 16-bit integer.
pub open spec fn be16(v: u16) -> Seq<u8> {
    seq![(v / 256) as u8, (v % 256) as u8]
}

/// Big-endian encoding of a 32-bit integer.
pub open spec fn be32(v: u32) -> Seq<u8> {
    seq![
        (v / 0x100_0000) as u8,
        ((v / 0x1_0000) % 256) as u8,
        ((v / 256) % 256) as u8,
        (v % 256) as u8,
    ]
}

/// The 16-bit integer whose big-endian encoding is `b[0], b[1]`.
pub open spec fn from_be16(b: Seq<u8>) -> u16 {
    (b[0] as int * 256 + b[1] as int) as u16
}

/// The 32-bit integer whose big-endian encoding is `b[0..4]`.
pub open spec fn from_be32(b: Seq<u8>) -> u32 {
    (b[0] as int * 0x100_0000 + b[1] as int * 0x1_0000 + b[2] as int * 256 + b[3] as int) as u32
}

/// Decoding a big-endian 16-bit encoding gives back the integer.
pub proof fn lemma_be16_roundtrip(v: u16)
    ensures
        be16(v).len() == 2,
        from_be16(be16(v)) == v,
{
}

/// Decoding a big-endian 32-bit encoding gives back the integer.
#[verifier::spinoff_prover]
#[verifier::rlimit(40)]
pub proof fn lemma_be32_roundtrip(v: u32)
    ensures
        be32(v).len() == 4,
        from_be32(be32(v)) == v,
{
}

/// The big-endian encoding of a 16-bit integer is two bytes, high byte
/// first: their value read as base-256 digits is the integer.
pub proof fn lemma_be16_value(v: u16)
    ensures
        be16(v).len() == 2,
        be16(v)[0] as int * 256 + be16(v)[1] as int == v as int,
        be16(v)[1] as int == v as int % 256,
{
}

/// The big-endian encoding of a 32-bit integer is four bytes, most
/// significant first: their value read as base-256 digits is the integer.
pub proof fn lemma_be32_value(v: u32)
    ensures
        be32(v).len() == 4,
        be32(v)[0] as int * 0x100_0000 + be32(v)[1] as int * 0x1_0000 + be32(v)[2] as int * 256
            + be32(v)[3] as int == v as int,
        be32(v)[3] as int == v as int % 256,
{
    lemma_be32_roundtrip(v);
}

/// Reading two bytes big-endian takes the first as the high byte.
pub proof fn lemma_from_be16_value(hi: u8, lo: u8)
    ensures
        from_be16(seq![hi, lo]) as int == hi as int * 256 + lo as int,
{
}

/// Reading four bytes big-endian takes them as base-256 digits, most
/// significant first.
pub proof fn lemma_from_be32_value(b0: u8, b1: u8, b2: u8, b3: u8)
    ensures
        from_be32(seq![b0, b1, b2, b3]) as int == b0 as int * 0x100_0000 + b1 as int * 0x1_0000
            + b2 as int * 256 + b3 as int,
{
}

/// Appends one byte.
pub fn put_u8(buf: &mut Vec<u8>, v: u8)
    ensures
        final(buf)@ == old(buf)@.push(v),
{
    buf.push(v);
}

/// Appends the big-endian encoding of a 16-bit integer.
pub fn put_u16(buf: &mut Vec<u8>, v: u16)
    ensures
        final(buf)@ == old(buf)@ + be16(v),
{
    buf.push((v / 256) as u8);
    buf.push((v % 256) as u8);
    assert(buf@ =~= old(buf)@ + be16(v));
}

/// Appends the big-endian encoding of a 32-bit integer.
pub fn put_u32(buf: &mut Vec<u8>, v: u32)
    ensures
        final(buf)@ == old(buf)@ + be32(v),
{
    buf.push((v / 0x100_0000) as u8);
    buf.push(((v / 0x1_0000) % 256) as u8);
    buf.push(((v / 256) % 256) as u8);
    buf.push((v % 256) as u8);
    assert(buf@ =~= old(buf)@ + be32(v));
}

/// Appends a slice of bytes.
pub fn put_slice(buf: &mut Vec<u8>, data: &[u8])
    ensures
        final(buf)@ == old(buf)@ + data@,
{
    let ghost start = buf@;
    let mut i: usize = 0;
    while i < data.len()
        invariant
            i <= data@.len(),
            buf@ == start + data@.subrange(0, i as int),
        decreases data@.len() - i,
    {
        buf.push(data[i]);
        i = i + 1;
        assert(buf@ =~= start + data@.subrange(0, i as int));
    }
    assert(data@.subrange(0, data@.len() as int) =~= data@);
}

/// Reads a big-endian 16-bit integer from two bytes.
pub fn u16_from_be(hi: u8, lo: u8) -> (r: u16)
    ensures
        r == from_be16(seq![hi, lo]),
{
    (hi as u16) * 256 + (lo as u16)
}

/// Reads a big-endian 32-bit integer from four bytes.
pub fn u32_from_be(b0: u8, b1: u8, b2: u8, b3: u8) -> (r: u32)
    ensures
        r == from_be32(seq![b0, b1, b2, b3]),
{
    (b0 as u32) * 0x100_0000 + (b1 as u32) * 0x1_0000 + (b2 as u32) * 256 + (b3 as u32)
}

/// A copy of `data[start..end]` as a vector.
pub fn copy_range(data: &[u8], start: usize, end: usize) -> (r: Vec<u8>)
    requires
        start <= end <= data@.len(),
    ensures
        r@ == data@.subrange(start as int, end as int),
{
    let mut r: Vec<u8> = Vec::with_capacity(end - start);
    let mut i: usize = start;
    while i < end
        invariant
            start <= i <= end <= data@.len(),
            r@ == data@.subrange(start as int, i as int),
        decreases end - i,
    {
        r.push(data[i]);
        i = i + 1;
        assert(r@ =~= data@.subrange(start as int, i as int));
    }
    r
}

} // verus!
