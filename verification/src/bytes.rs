//! Big-endian byte serialisation of the fixed-width integers of the record
//! format.  Signed values are carried with an offset bias so that encoding
//! and decoding are plain integer arithmetic.
use vstd::prelude::*;

verus! {

/// The two big-endian bytes of a 16-bit value.
pub open spec fn be16(v: u16) -> Seq<u8> {
    seq![(v / 0x100) as u8, (v % 0x100) as u8]
}

/// The four big-endian bytes of a 32-bit value.
pub open spec fn be32(v: u32) -> Seq<u8> {
    be16((v / 0x10000) as u16) + be16((v % 0x10000) as u16)
}

/// The eight big-endian bytes of a 64-bit value.
pub open spec fn be64(v: u64) -> Seq<u8> {
    be32((v / 0x1_0000_0000) as u32) + be32((v % 0x1_0000_0000) as u32)
}

/// A signed 16-bit value, biased into the unsigned range.
pub open spec fn bei16(v: i16) -> Seq<u8> {
    be16((v + 0x8000) as u16)
}

/// A signed 64-bit value, biased into the unsigned range.
pub open spec fn bei64(v: i64) -> Seq<u8> {
    be64((v + 0x8000_0000_0000_0000) as u64)
}

/// The 16-bit value of two big-endian bytes.
pub open spec fn from_be16(b0: u8, b1: u8) -> u16 {
    (b0 * 0x100 + b1) as u16
}

/// The 32-bit value of four big-endian bytes.
pub open spec fn from_be32(b0: u8, b1: u8, b2: u8, b3: u8) -> u32 {
    (from_be16(b0, b1) * 0x10000 + from_be16(b2, b3)) as u32
}

/// The 64-bit value of eight big-endian bytes.
pub open spec fn from_be64(
    b0: u8,
    b1: u8,
    b2: u8,
    b3: u8,
    b4: u8,
    b5: u8,
    b6: u8,
    b7: u8,
) -> u64 {
    (from_be32(b0, b1, b2, b3) * 0x1_0000_0000 + from_be32(b4, b5, b6, b7)) as u64
}

/// The signed 16-bit value of two biased big-endian bytes.
pub open spec fn from_bei16(b0: u8, b1: u8) -> i16 {
    (from_be16(b0, b1) - 0x8000) as i16
}

/// The signed 64-bit value of eight biased big-endian bytes.
pub open spec fn from_bei64(
    b0: u8,
    b1: u8,
    b2: u8,
    b3: u8,
    b4: u8,
    b5: u8,
    b6: u8,
    b7: u8,
) -> i64 {
    (from_be64(b0, b1, b2, b3, b4, b5, b6, b7) - 0x8000_0000_0000_0000) as i64
}

/// Reading back the two bytes of a 16-bit value gives the value.
pub proof fn lemma_be16_roundtrip(v: u16)
    ensures
        from_be16(be16(v)[0], be16(v)[1]) == v,
{
    vstd::arithmetic::div_mod::lemma_fundamental_div_mod(v as int, 0x100);
}

/// Reading back the four bytes of a 32-bit value gives the value.
pub proof fn lemma_be32_roundtrip(v: u32)
    ensures
        from_be32(be32(v)[0], be32(v)[1], be32(v)[2], be32(v)[3]) == v,
{
    let hi = (v / 0x10000) as u16;
    let lo = (v % 0x10000) as u16;
    lemma_be16_roundtrip(hi);
    lemma_be16_roundtrip(lo);
    vstd::arithmetic::div_mod::lemma_fundamental_div_mod(v as int, 0x10000);
}

/// Reading back the eight bytes of a 64-bit value gives the value.
pub proof fn lemma_be64_roundtrip(v: u64)
    ensures
        from_be64(
            be64(v)[0],
            be64(v)[1],
            be64(v)[2],
            be64(v)[3],
            be64(v)[4],
            be64(v)[5],
            be64(v)[6],
            be64(v)[7],
        ) == v,
{
    let hi = (v / 0x1_0000_0000) as u32;
    let lo = (v % 0x1_0000_0000) as u32;
    lemma_be32_roundtrip(hi);
    lemma_be32_roundtrip(lo);
    vstd::arithmetic::div_mod::lemma_fundamental_div_mod(v as int, 0x1_0000_0000);
}

/// Reading back the two biased bytes of a signed 16-bit value gives the value.
pub proof fn lemma_bei16_roundtrip(v: i16)
    ensures
        from_bei16(bei16(v)[0], bei16(v)[1]) == v,
{
    lemma_be16_roundtrip((v + 0x8000) as u16);
}

/// Reading back the eight biased bytes of a signed 64-bit value gives the value.
pub proof fn lemma_bei64_roundtrip(v: i64)
    ensures
        from_bei64(
            bei64(v)[0],
            bei64(v)[1],
            bei64(v)[2],
            bei64(v)[3],
            bei64(v)[4],
            bei64(v)[5],
            bei64(v)[6],
            bei64(v)[7],
        ) == v,
{
    lemma_be64_roundtrip((v + 0x8000_0000_0000_0000) as u64);
}

/// Appends the two big-endian bytes of a 16-bit value.
pub fn push_u16_be(out: &mut Vec<u8>, v: u16)
    ensures
        final(out)@ == old(out)@ + be16(v),
{
    out.push((v / 0x100) as u8);
    out.push((v % 0x100) as u8);
    proof {
        assert(out@ =~= old(out)@ + be16(v));
    }
}

/// Appends the four big-endian bytes of a 32-bit value.
pub fn push_u32_be(out: &mut Vec<u8>, v: u32)
    ensures
        final(out)@ == old(out)@ + be32(v),
{
    push_u16_be(out, (v / 0x10000) as u16);
    push_u16_be(out, (v % 0x10000) as u16);
    proof {
        assert(out@ =~= old(out)@ + be32(v));
    }
}

/// Appends the eight big-endian bytes of a 64-bit value.
pub fn push_u64_be(out: &mut Vec<u8>, v: u64)
    ensures
        final(out)@ == old(out)@ + be64(v),
{
    push_u32_be(out, (v / 0x1_0000_0000) as u32);
    push_u32_be(out, (v % 0x1_0000_0000) as u32);
    proof {
        assert(out@ =~= old(out)@ + be64(v));
    }
}

/// Appends the two biased big-endian bytes of a signed 16-bit value.
pub fn push_i16_be(out: &mut Vec<u8>, v: i16)
    ensures
        final(out)@ == old(out)@ + bei16(v),
{
    push_u16_be(out, ((v as i32) + 0x8000) as u16);
}

/// Appends the eight biased big-endian bytes of a signed 64-bit value.
pub fn push_i64_be(out: &mut Vec<u8>, v: i64)
    ensures
        final(out)@ == old(out)@ + bei64(v),
{
    push_u64_be(out, ((v as i128) + 0x8000_0000_0000_0000) as u64);
}

/// Reads a 16-bit value from two big-endian bytes in place.
pub fn read_u16_be(buf: &[u8], i: usize) -> (v: u16)
    requires
        i + 2 <= buf@.len(),
    ensures
        v == from_be16(buf@[i as int], buf@[i + 1]),
{
    (buf[i] as u16) * 0x100 + (buf[i + 1] as u16)
}

/// Reads a 32-bit value from four big-endian bytes in place.
pub fn read_u32_be(buf: &[u8], i: usize) -> (v: u32)
    requires
        i + 4 <= buf@.len(),
    ensures
        v == from_be32(buf@[i as int], buf@[i + 1], buf@[i + 2], buf@[i + 3]),
{
    let bound: usize = buf.len();
    proof {
        assert(i + 2 <= bound);
    }
    (read_u16_be(buf, i) as u32) * 0x10000 + (read_u16_be(buf, i + 2) as u32)
}

/// Reads a 64-bit value from eight big-endian bytes in place.
pub fn read_u64_be(buf: &[u8], i: usize) -> (v: u64)
    requires
        i + 8 <= buf@.len(),
    ensures
        v == from_be64(
            buf@[i as int],
            buf@[i + 1],
            buf@[i + 2],
            buf@[i + 3],
            buf@[i + 4],
            buf@[i + 5],
            buf@[i + 6],
            buf@[i + 7],
        ),
{
    let bound: usize = buf.len();
    proof {
        assert(i + 4 <= bound);
    }
    (read_u32_be(buf, i) as u64) * 0x1_0000_0000 + (read_u32_be(buf, i + 4) as u64)
}

/// Reads a signed 16-bit value from two biased big-endian bytes in place.
pub fn read_i16_be(buf: &[u8], i: usize) -> (v: i16)
    requires
        i + 2 <= buf@.len(),
    ensures
        v == from_bei16(buf@[i as int], buf@[i + 1]),
{
    ((read_u16_be(buf, i) as i32) - 0x8000) as i16
}

/// Reads a signed 64-bit value from eight biased big-endian bytes in place.
pub fn read_i64_be(buf: &[u8], i: usize) -> (v: i64)
    requires
        i + 8 <= buf@.len(),
    ensures
        v == from_bei64(
            buf@[i as int],
            buf@[i + 1],
            buf@[i + 2],
            buf@[i + 3],
            buf@[i + 4],
            buf@[i + 5],
            buf@[i + 6],
            buf@[i + 7],
        ),
{
    ((read_u64_be(buf, i) as i128) - 0x8000_0000_0000_0000) as i64
}

/// Lengths of every field encoding, as ambient facts for concatenation
/// reasoning.
pub proof fn lemma_be_lens()
    ensures
        forall|v: u16| (#[trigger] be16(v)).len() == 2,
        forall|v: u32| (#[trigger] be32(v)).len() == 4,
        forall|v: u64| (#[trigger] be64(v)).len() == 8,
        forall|v: i16| (#[trigger] bei16(v)).len() == 2,
        forall|v: i64| (#[trigger] bei64(v)).len() == 8,
{
    assert forall|v: u16| (#[trigger] be16(v)).len() == 2 by {
        assert(be16(v).len() == 2);
    }
    assert forall|v: u32| (#[trigger] be32(v)).len() == 4 by {
        assert(be32(v).len() == 4);
    }
    assert forall|v: u64| (#[trigger] be64(v)).len() == 8 by {
        assert(be64(v).len() == 8);
    }
    assert forall|v: i16| (#[trigger] bei16(v)).len() == 2 by {
        assert(bei16(v).len() == 2);
    }
    assert forall|v: i64| (#[trigger] bei64(v)).len() == 8 by {
        assert(bei64(v).len() == 8);
    }
}

} // verus!
