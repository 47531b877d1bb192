//! Little-endian `u32` fields stored inside fixed-size byte blocks.

use vstd::prelude::*;

verus! {

/// The `u32` stored little-endian at byte offset `pos` of `s`.
pub open spec fn u32_at(s: Seq<u8>, pos: int) -> int {
    s[pos] as int + s[pos + 1] as int * 256 + s[pos + 2] as int * 65536 + s[pos + 3] as int
        * 16777216
}

/// Read the little-endian `u32` at `pos`.
pub fn read_u32_le(data: &[u8], pos: usize) -> (v: u32)
    requires
        pos + 4 <= data@.len(),
    ensures
        v == u32_at(data@, pos as int),
{
    let b0: u32 = data[pos] as u32;
    let b1: u32 = data[pos + 1] as u32;
    let b2: u32 = data[pos + 2] as u32;
    let b3: u32 = data[pos + 3] as u32;
    b0 + b1 * 256 + b2 * 65536 + b3 * 16777216
}

/// `s` with the little-endian bytes of `v` stored at `pos`.
pub open spec fn put_u32(s: Seq<u8>, pos: int, v: u32) -> Seq<u8> {
    Seq::new(s.len(), |i: int| if pos <= i < pos + 4 { le_bytes(v)[i - pos] } else { s[i] })
}

/// `s` with the bytes `b` stored from `pos` on.
pub open spec fn put_bytes(s: Seq<u8>, pos: int, b: Seq<u8>) -> Seq<u8> {
    Seq::new(s.len(), |i: int| if pos <= i < pos + b.len() { b[i - pos] } else { s[i] })
}

/// Two byte sequences that agree on bytes `pos..pos + 4` store the same
/// `u32` there.
pub proof fn lemma_u32_at_frame(a: Seq<u8>, b: Seq<u8>, pos: int)
    requires
        forall|k: int| pos <= k < pos + 4 ==> #[trigger] a[k] == b[k],
    ensures
        u32_at(a, pos) == u32_at(b, pos),
{
    assert(a[pos] == b[pos]);
    assert(a[pos + 1] == b[pos + 1]);
    assert(a[pos + 2] == b[pos + 2]);
    assert(a[pos + 3] == b[pos + 3]);
}

/// Write `v` little-endian at `pos`, leaving every other byte unchanged.
pub fn write_u32_le(data: &mut [u8; 4096], pos: usize, v: u32)
    requires
        pos + 4 <= 4096,
    ensures
        final(data)@ == put_u32(old(data)@, pos as int, v),
        u32_at(final(data)@, pos as int) == v,
        forall|i: int|
            0 <= i < 4096 && !(pos <= i < pos + 4) ==> #[trigger] final(data)@[i] == old(data)@[i],
{
    let b0: u8 = (v % 256) as u8;
    let b1: u8 = ((v / 256) % 256) as u8;
    let b2: u8 = ((v / 65536) % 256) as u8;
    let b3: u8 = (v / 16777216) as u8;
    data[pos] = b0;
    data[pos + 1] = b1;
    data[pos + 2] = b2;
    data[pos + 3] = b3;
    assert(data@ =~= put_u32(old(data)@, pos as int, v));
    assert(v == b0 + b1 * 256 + b2 * 65536 + b3 * 16777216) by (nonlinear_arith)
        requires
            b0 == v % 256,
            b1 == (v / 256) % 256,
            b2 == (v / 65536) % 256,
            b3 == v / 16777216,
    ;
}

/// The four little-endian bytes of `v`.
pub open spec fn le_bytes(v: u32) -> Seq<u8> {
    seq![
        (v % 256) as u8,
        ((v / 256) % 256) as u8,
        ((v / 65536) % 256) as u8,
        (v / 16777216) as u8,
    ]
}

/// Decoding the encoding of `v` gives back `v`.
pub proof fn lemma_le_bytes_round_trip(v: u32)
    ensures
        le_bytes(v).len() == 4,
        u32_at(le_bytes(v), 0) == v,
{
    let s = le_bytes(v);
    let b0 = s[0];
    let b1 = s[1];
    let b2 = s[2];
    let b3 = s[3];
    assert(v == b0 + b1 * 256 + b2 * 65536 + b3 * 16777216) by (nonlinear_arith)
        requires
            b0 == v % 256,
            b1 == (v / 256) % 256,
            b2 == (v / 65536) % 256,
            b3 == v / 16777216,
    ;
}

/// Reading back a stored `u32` gives the value stored.
pub proof fn lemma_u32_at_put(s: Seq<u8>, pos: int, v: u32)
    requires
        0 <= pos,
        pos + 4 <= s.len(),
    ensures
        u32_at(put_u32(s, pos, v), pos) == v,
{
    lemma_le_bytes_round_trip(v);
    let t = put_u32(s, pos, v);
    assert(t[pos] == le_bytes(v)[0]);
    assert(t[pos + 1] == le_bytes(v)[1]);
    assert(t[pos + 2] == le_bytes(v)[2]);
    assert(t[pos + 3] == le_bytes(v)[3]);
}

/// Append the little-endian bytes of `v` to `out`.
pub fn push_u32_le(out: &mut Vec<u8>, v: u32)
    ensures
        final(out)@ == old(out)@ + le_bytes(v),
{
    out.push((v % 256) as u8);
    out.push(((v / 256) % 256) as u8);
    out.push(((v / 65536) % 256) as u8);
    out.push((v / 16777216) as u8);
    assert(out@ =~= old(out)@ + le_bytes(v));
}

} // verus!
