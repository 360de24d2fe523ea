use vstd::prelude::*;

verus! {

/// The integer that four bytes encode, most significant first.
pub open spec fn be_u32(s: Seq<u8>) -> u32 {
    ((s[0] as u32) << 24u32) | ((s[1] as u32) << 16u32) | ((s[2] as u32) << 8u32) | (s[3] as u32)
}

/// The four bytes of `n`, most significant first.
pub open spec fn be_bytes(n: u32) -> Seq<u8> {
    seq![
        ((n >> 24u32) & 0xff) as u8,
        ((n >> 16u32) & 0xff) as u8,
        ((n >> 8u32) & 0xff) as u8,
        (n & 0xff) as u8,
    ]
}

proof fn lemma_join_split(a: u8, b: u8, c: u8, d: u8)
    ensures
        ((((a as u32) << 24u32) | ((b as u32) << 16u32) | ((c as u32) << 8u32) | (d as u32))
            >> 24u32) & 0xff == a,
        ((((a as u32) << 24u32) | ((b as u32) << 16u32) | ((c as u32) << 8u32) | (d as u32))
            >> 16u32) & 0xff == b,
        ((((a as u32) << 24u32) | ((b as u32) << 16u32) | ((c as u32) << 8u32) | (d as u32))
            >> 8u32) & 0xff == c,
        (((a as u32) << 24u32) | ((b as u32) << 16u32) | ((c as u32) << 8u32) | (d as u32)) & 0xff
            == d,
{
    assert(((((a as u32) << 24u32) | ((b as u32) << 16u32) | ((c as u32) << 8u32) | (d as u32))
        >> 24u32) & 0xff == a) by (bit_vector);
    assert(((((a as u32) << 24u32) | ((b as u32) << 16u32) | ((c as u32) << 8u32) | (d as u32))
        >> 16u32) & 0xff == b) by (bit_vector);
    assert(((((a as u32) << 24u32) | ((b as u32) << 16u32) | ((c as u32) << 8u32) | (d as u32))
        >> 8u32) & 0xff == c) by (bit_vector);
    assert((((a as u32) << 24u32) | ((b as u32) << 16u32) | ((c as u32) << 8u32) | (d as u32))
        & 0xff == d) by (bit_vector);
}

/// Decoding the four bytes of `n` gives `n` back.
pub proof fn lemma_be_u32_of_bytes(n: u32)
    ensures
        be_u32(be_bytes(n)) == n,
{
    let s = be_bytes(n);
    assert(s[0] == ((n >> 24u32) & 0xff) as u8);
    assert(((((((n >> 24u32) & 0xff) as u8) as u32) << 24u32) | (((((n >> 16u32) & 0xff) as u8)
        as u32) << 16u32) | (((((n >> 8u32) & 0xff) as u8) as u32) << 8u32) | (((n & 0xff) as u8)
        as u32)) == n) by (bit_vector);
}

/// Encoding the integer that four bytes decode to gives the bytes back.
pub proof fn lemma_bytes_of_be_u32(s: Seq<u8>)
    requires
        s.len() == 4,
    ensures
        be_bytes(be_u32(s)) == s,
{
    lemma_join_split(s[0], s[1], s[2], s[3]);
    let n = be_u32(s);
    assert(((n >> 24u32) & 0xff) as u8 == s[0]);
    assert(be_bytes(n) =~= s);
}

/// Reads the big-endian integer stored at `at..at + 4` of `b`.
pub fn read_be_u32(b: &[u8], at: usize) -> (r: u32)
    requires
        at + 4 <= b@.len(),
    ensures
        r == be_u32(b@.subrange(at as int, at + 4)),
{
    let s = Ghost(b@.subrange(at as int, at + 4));
    assert(s@[0] == b@[at as int] && s@[3] == b@[at + 3]);
    ((b[at] as u32) << 24u32) | ((b[at + 1] as u32) << 16u32) | ((b[at + 2] as u32) << 8u32) | (
    b[at + 3] as u32)
}

/// Appends the four big-endian bytes of `n` to `out`.
pub fn push_be_u32(out: &mut Vec<u8>, n: u32)
    ensures
        final(out)@ == old(out)@ + be_bytes(n),
{
    out.push(((n >> 24u32) & 0xff) as u8);
    out.push(((n >> 16u32) & 0xff) as u8);
    out.push(((n >> 8u32) & 0xff) as u8);
    out.push((n & 0xff) as u8);
    assert(out@ =~= old(out)@ + be_bytes(n));
}

} // verus!
