//! Big-endian integers on the wire.

use vstd::prelude::*;

verus! {

/// The two bytes of `v`, most significant first.
pub open spec fn u16_bytes(v: u16) -> Seq<u8> {
    seq![(v / 256) as u8, (v % 256) as u8]
}

/// The 16-bit integer whose two bytes stand at `pos` in `buf`.
pub open spec fn u16_at(buf: Seq<u8>, pos: int) -> u16 {
    (buf[pos] as int * 256 + buf[pos + 1] as int) as u16
}

/// The four bytes of `v`, most significant first.
pub open spec fn u32_bytes(v: u32) -> Seq<u8> {
    seq![
        (v / 16777216) as u8,
        ((v / 65536) % 256) as u8,
        ((v / 256) % 256) as u8,
        (v % 256) as u8,
    ]
}

/// The 32-bit integer whose four bytes stand at `pos` in `buf`.
pub open spec fn u32_at(buf: Seq<u8>, pos: int) -> u32 {
    (buf[pos] as int * 16777216 + buf[pos + 1] as int * 65536 + buf[pos + 2] as int * 256
        + buf[pos + 3] as int) as u32
}

/// `buf` holds `bytes` from `pos` on.
pub open spec fn holds_at(buf: Seq<u8>, pos: int, bytes: Seq<u8>) -> bool {
    &&& 0 <= pos
    &&& pos + bytes.len() <= buf.len()
    &&& buf.subrange(pos, pos + bytes.len()) == bytes
}

/// Reads the 16-bit integer at `pos`.
pub fn read_u16(buf: &[u8], pos: usize) -> (v: u16)
    requires
        pos + 2 <= buf@.len(),
    ensures
        v == u16_at(buf@, pos as int),
{
    let hi: u16 = buf[pos] as u16;
    let lo: u16 = buf[pos + 1] as u16;
    hi * 256 + lo
}

/// Reads the 32-bit integer at `pos`.
pub fn read_u32(buf: &[u8], pos: usize) -> (v: u32)
    requires
        pos + 4 <= buf@.len(),
    ensures
        v == u32_at(buf@, pos as int),
{
    let b0: u32 = buf[pos] as u32;
    let b1: u32 = buf[pos + 1] as u32;
    let b2: u32 = buf[pos + 2] as u32;
    let b3: u32 = buf[pos + 3] as u32;
    b0 * 16777216 + b1 * 65536 + b2 * 256 + b3
}

/// Appends the two bytes of `v` to `out`.
pub fn push_u16(out: &mut Vec<u8>, v: u16)
    ensures
        final(out)@ == old(out)@ + u16_bytes(v),
{
    out.push((v / 256) as u8);
    out.push((v % 256) as u8);
    proof {
        assert(out@ =~= old(out)@ + u16_bytes(v));
    }
}

/// Appends the four bytes of `v` to `out`.
pub fn push_u32(out: &mut Vec<u8>, v: u32)
    ensures
        final(out)@ == old(out)@ + u32_bytes(v),
{
    out.push((v / 16777216) as u8);
    out.push(((v / 65536) % 256) as u8);
    out.push(((v / 256) % 256) as u8);
    out.push((v % 256) as u8);
    proof {
        assert(out@ =~= old(out)@ + u32_bytes(v));
    }
}

/// Copies the bytes of `buf` from `from` up to `to`.
pub fn copy_range(buf: &[u8], from: usize, to: usize) -> (v: Vec<u8>)
    requires
        from <= to <= buf@.len(),
    ensures
        v@ == buf@.subrange(from as int, to as int),
{
    let mut v: Vec<u8> = Vec::new();
    let mut i: usize = from;
    while i < to
        invariant
            from <= i <= to <= buf@.len(),
            v@ == buf@.subrange(from as int, i as int),
        decreases to - i,
    {
        v.push(buf[i]);
        i = i + 1;
        proof {
            assert(v@ =~= buf@.subrange(from as int, i as int));
        }
    }
    v
}

/// Appends the bytes of `bytes` to `out`.
pub fn push_bytes(out: &mut Vec<u8>, bytes: &[u8])
    ensures
        final(out)@ == old(out)@ + bytes@,
{
    let mut i: usize = 0;
    while i < bytes.len()
        invariant
            i <= bytes@.len(),
            out@ == old(out)@ + bytes@.subrange(0, i as int),
        decreases bytes@.len() - i,
    {
        out.push(bytes[i]);
        i = i + 1;
        proof {
            assert(out@ =~= old(out)@ + bytes@.subrange(0, i as int));
        }
    }
    proof {
        assert(bytes@.subrange(0, bytes@.len() as int) =~= bytes@);
    }
}

/// A part of what `buf` holds at `pos` stands in `buf` where it stands in the whole.
pub proof fn lemma_holds_at_split(buf: Seq<u8>, pos: int, first: Seq<u8>, rest: Seq<u8>)
    requires
        holds_at(buf, pos, first + rest),
    ensures
        holds_at(buf, pos, first),
        holds_at(buf, pos + first.len(), rest),
{
    let whole = first + rest;
    assert(buf.subrange(pos, pos + first.len()) =~= whole.subrange(0, first.len() as int));
    assert(whole.subrange(0, first.len() as int) =~= first);
    assert(buf.subrange(pos + first.len(), pos + first.len() + rest.len()) =~= whole.subrange(
        first.len() as int,
        whole.len() as int,
    ));
    assert(whole.subrange(first.len() as int, whole.len() as int) =~= rest);
}

/// Reading back the two bytes of `v` gives `v`.
pub proof fn lemma_u16_round_trip(buf: Seq<u8>, pos: int, v: u16)
    requires
        holds_at(buf, pos, u16_bytes(v)),
    ensures
        u16_at(buf, pos) == v,
{
    let w = buf.subrange(pos, pos + 2);
    assert(buf[pos] == w[0]);
    assert(buf[pos + 1] == w[1]);
}

/// Reading back the four bytes of `v` gives `v`.
pub proof fn lemma_u32_round_trip(buf: Seq<u8>, pos: int, v: u32)
    requires
        holds_at(buf, pos, u32_bytes(v)),
    ensures
        u32_at(buf, pos) == v,
{
    let w = buf.subrange(pos, pos + 4);
    assert(buf[pos] == w[0]);
    assert(buf[pos + 1] == w[1]);
    assert(buf[pos + 2] == w[2]);
    assert(buf[pos + 3] == w[3]);
}

} // verus!
