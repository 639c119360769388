//! Fixed-width integer byte layouts: big-endian `u16`, `u32` and `u128`
//! for the wire codec, little-endian `u64` for the partial-file footer.

use vstd::prelude::*;

verus! {

/// A `u16` as two big-endian bytes.
pub open spec fn be16_bytes(x: u16) -> Seq<u8> {
    seq![((x >> 8) & 0xff) as u8, (x & 0xff) as u8]
}

/// The `u16` read from two big-endian bytes.
pub open spec fn be16_val(s: Seq<u8>) -> u16 {
    ((s[0] as u16) << 8) | (s[1] as u16)
}

/// A `u32` as four big-endian bytes.
pub open spec fn be32_bytes(x: u32) -> Seq<u8> {
    seq![
        ((x >> 24) & 0xff) as u8,
        ((x >> 16) & 0xff) as u8,
        ((x >> 8) & 0xff) as u8,
        (x & 0xff) as u8,
    ]
}

/// The `u32` read from four big-endian bytes.
pub open spec fn be32_val(s: Seq<u8>) -> u32 {
    ((s[0] as u32) << 24) | ((s[1] as u32) << 16) | ((s[2] as u32) << 8) | (s[3] as u32)
}

/// A `u128` as sixteen big-endian bytes.
pub open spec fn be128_bytes(x: u128) -> Seq<u8> {
    seq![
        ((x >> 120) & 0xff) as u8,
        ((x >> 112) & 0xff) as u8,
        ((x >> 104) & 0xff) as u8,
        ((x >> 96) & 0xff) as u8,
        ((x >> 88) & 0xff) as u8,
        ((x >> 80) & 0xff) as u8,
        ((x >> 72) & 0xff) as u8,
        ((x >> 64) & 0xff) as u8,
        ((x >> 56) & 0xff) as u8,
        ((x >> 48) & 0xff) as u8,
        ((x >> 40) & 0xff) as u8,
        ((x >> 32) & 0xff) as u8,
        ((x >> 24) & 0xff) as u8,
        ((x >> 16) & 0xff) as u8,
        ((x >> 8) & 0xff) as u8,
        (x & 0xff) as u8,
    ]
}

/// The `u128` read from sixteen big-endian bytes.
pub open spec fn be128_val(s: Seq<u8>) -> u128 {
    ((s[0] as u128) << 120) | ((s[1] as u128) << 112) | ((s[2] as u128) << 104)
        | ((s[3] as u128) << 96) | ((s[4] as u128) << 88) | ((s[5] as u128) << 80)
        | ((s[6] as u128) << 72) | ((s[7] as u128) << 64) | ((s[8] as u128) << 56)
        | ((s[9] as u128) << 48) | ((s[10] as u128) << 40) | ((s[11] as u128) << 32)
        | ((s[12] as u128) << 24) | ((s[13] as u128) << 16) | ((s[14] as u128) << 8)
        | (s[15] as u128)
}

/// A `u64` as eight little-endian bytes.
pub open spec fn le64_bytes(x: u64) -> Seq<u8> {
    seq![
        (x & 0xff) as u8,
        ((x >> 8) & 0xff) as u8,
        ((x >> 16) & 0xff) as u8,
        ((x >> 24) & 0xff) as u8,
        ((x >> 32) & 0xff) as u8,
        ((x >> 40) & 0xff) as u8,
        ((x >> 48) & 0xff) as u8,
        ((x >> 56) & 0xff) as u8,
    ]
}

/// The `u64` read from eight little-endian bytes.
pub open spec fn le64_val(s: Seq<u8>) -> u64 {
    (s[0] as u64) | ((s[1] as u64) << 8) | ((s[2] as u64) << 16) | ((s[3] as u64) << 24)
        | ((s[4] as u64) << 32) | ((s[5] as u64) << 40) | ((s[6] as u64) << 48)
        | ((s[7] as u64) << 56)
}

/// Reading back the two big-endian bytes of a `u16` gives the value.
pub proof fn lemma_be16_round_trip(x: u16)
    ensures
        be16_val(be16_bytes(x)) == x,
{
    assert((((((x >> 8) & 0xff) as u8) as u16) << 8) | (((x & 0xff) as u8) as u16) == x)
        by (bit_vector);
}

/// Reading back the four big-endian bytes of a `u32` gives the value.
pub proof fn lemma_be32_round_trip(x: u32)
    ensures
        be32_val(be32_bytes(x)) == x,
{
    assert(((((((x >> 24) & 0xff) as u8) as u32) << 24)
        | (((((x >> 16) & 0xff) as u8) as u32) << 16)
        | (((((x >> 8) & 0xff) as u8) as u32) << 8)
        | (((x & 0xff) as u8) as u32)) == x) by (bit_vector);
}

/// Reading back the sixteen big-endian bytes of a `u128` gives the value.
pub proof fn lemma_be128_round_trip(x: u128)
    ensures
        be128_val(be128_bytes(x)) == x,
{
    assert(((((((x >> 120) & 0xff) as u8) as u128) << 120)
        | (((((x >> 112) & 0xff) as u8) as u128) << 112)
        | (((((x >> 104) & 0xff) as u8) as u128) << 104)
        | (((((x >> 96) & 0xff) as u8) as u128) << 96)
        | (((((x >> 88) & 0xff) as u8) as u128) << 88)
        | (((((x >> 80) & 0xff) as u8) as u128) << 80)
        | (((((x >> 72) & 0xff) as u8) as u128) << 72)
        | (((((x >> 64) & 0xff) as u8) as u128) << 64)
        | (((((x >> 56) & 0xff) as u8) as u128) << 56)
        | (((((x >> 48) & 0xff) as u8) as u128) << 48)
        | (((((x >> 40) & 0xff) as u8) as u128) << 40)
        | (((((x >> 32) & 0xff) as u8) as u128) << 32)
        | (((((x >> 24) & 0xff) as u8) as u128) << 24)
        | (((((x >> 16) & 0xff) as u8) as u128) << 16)
        | (((((x >> 8) & 0xff) as u8) as u128) << 8)
        | (((x & 0xff) as u8) as u128)) == x) by (bit_vector);
}

/// Reading back the eight little-endian bytes of a `u64` gives the value.
pub proof fn lemma_le64_round_trip(x: u64)
    ensures
        le64_val(le64_bytes(x)) == x,
{
    assert(((((x & 0xff) as u8) as u64)
        | (((((x >> 8) & 0xff) as u8) as u64) << 8)
        | (((((x >> 16) & 0xff) as u8) as u64) << 16)
        | (((((x >> 24) & 0xff) as u8) as u64) << 24)
        | (((((x >> 32) & 0xff) as u8) as u64) << 32)
        | (((((x >> 40) & 0xff) as u8) as u64) << 40)
        | (((((x >> 48) & 0xff) as u8) as u64) << 48)
        | (((((x >> 56) & 0xff) as u8) as u64) << 56)) == x) by (bit_vector);
}

/// Two big-endian bytes re-encode to themselves.
pub proof fn lemma_be16_bytes_of_val(s: Seq<u8>)
    requires
        s.len() == 2,
    ensures
        be16_bytes(be16_val(s)) == s,
{
    let b0 = s[0];
    let b1 = s[1];
    assert(((((b0 as u16) << 8) | (b1 as u16)) >> 8) & 0xff == b0 && (((b0 as u16) << 8) | (
    b1 as u16)) & 0xff == b1) by (bit_vector);
    assert(be16_bytes(be16_val(s)) =~= s);
}

/// Four big-endian bytes re-encode to themselves.
pub proof fn lemma_be32_bytes_of_val(s: Seq<u8>)
    requires
        s.len() == 4,
    ensures
        be32_bytes(be32_val(s)) == s,
{
    let b0 = s[0];
    let b1 = s[1];
    let b2 = s[2];
    let b3 = s[3];
    let x = ((b0 as u32) << 24) | ((b1 as u32) << 16) | ((b2 as u32) << 8) | (b3 as u32);
    assert((x >> 24) & 0xff == b0 && (x >> 16) & 0xff == b1 && (x >> 8) & 0xff == b2 && x & 0xff
        == b3) by (bit_vector)
        requires
            x == ((b0 as u32) << 24) | ((b1 as u32) << 16) | ((b2 as u32) << 8) | (b3 as u32),
    ;
    assert(be32_bytes(be32_val(s)) =~= s);
}

/// Sixteen big-endian bytes re-encode to themselves.
pub proof fn lemma_be128_bytes_of_val(s: Seq<u8>)
    requires
        s.len() == 16,
    ensures
        be128_bytes(be128_val(s)) == s,
{
    let b0 = s[0];
    let b1 = s[1];
    let b2 = s[2];
    let b3 = s[3];
    let b4 = s[4];
    let b5 = s[5];
    let b6 = s[6];
    let b7 = s[7];
    let b8 = s[8];
    let b9 = s[9];
    let b10 = s[10];
    let b11 = s[11];
    let b12 = s[12];
    let b13 = s[13];
    let b14 = s[14];
    let b15 = s[15];
    let x = ((b0 as u128) << 120) | ((b1 as u128) << 112) | ((b2 as u128) << 104) | ((
    b3 as u128) << 96) | ((b4 as u128) << 88) | ((b5 as u128) << 80) | ((b6 as u128) << 72) | ((
    b7 as u128) << 64) | ((b8 as u128) << 56) | ((b9 as u128) << 48) | ((b10 as u128) << 40) | ((
    b11 as u128) << 32) | ((b12 as u128) << 24) | ((b13 as u128) << 16) | ((b14 as u128) << 8) | (
    b15 as u128);
    assert((x >> 120) & 0xff == b0 && (x >> 112) & 0xff == b1 && (x >> 104) & 0xff == b2 && (x
        >> 96) & 0xff == b3 && (x >> 88) & 0xff == b4 && (x >> 80) & 0xff == b5 && (x >> 72) & 0xff
        == b6 && (x >> 64) & 0xff == b7 && (x >> 56) & 0xff == b8 && (x >> 48) & 0xff == b9 && (x
        >> 40) & 0xff == b10 && (x >> 32) & 0xff == b11 && (x >> 24) & 0xff == b12 && (x >> 16)
        & 0xff == b13 && (x >> 8) & 0xff == b14 && x & 0xff == b15) by (bit_vector)
        requires
            x == ((b0 as u128) << 120) | ((b1 as u128) << 112) | ((b2 as u128) << 104) | ((
            b3 as u128) << 96) | ((b4 as u128) << 88) | ((b5 as u128) << 80) | ((b6 as u128)
                << 72) | ((b7 as u128) << 64) | ((b8 as u128) << 56) | ((b9 as u128) << 48) | ((
            b10 as u128) << 40) | ((b11 as u128) << 32) | ((b12 as u128) << 24) | ((b13 as u128)
                << 16) | ((b14 as u128) << 8) | (b15 as u128),
    ;
    assert(be128_bytes(be128_val(s)) =~= s);
}

/// Appends the two big-endian bytes of `x`.
pub fn push_be16(out: &mut Vec<u8>, x: u16)
    ensures
        final(out)@ == old(out)@ + be16_bytes(x),
{
    proof {
        assert((x >> 8) & 0xff < 256 && x & 0xff < 256) by (bit_vector);
    }
    out.push(((x >> 8) & 0xff) as u8);
    out.push((x & 0xff) as u8);
    proof {
        assert(out@ =~= old(out)@ + be16_bytes(x));
    }
}

/// Reads a big-endian `u16` at offset `off`.
pub fn read_be16(bytes: &[u8], off: usize) -> (r: u16)
    requires
        off + 2 <= bytes@.len(),
    ensures
        r == be16_val(bytes@.subrange(off as int, off as int + 2)),
{
    let r = ((bytes[off] as u16) << 8) | (bytes[off + 1] as u16);
    proof {
        let s = bytes@.subrange(off as int, off as int + 2);
        assert(s[0] == bytes@[off as int] && s[1] == bytes@[off as int + 1]);
    }
    r
}

/// Appends the eight little-endian bytes of `x`.
pub fn push_le64(out: &mut Vec<u8>, x: u64)
    ensures
        final(out)@ == old(out)@ + le64_bytes(x),
{
    proof {
        assert(x & 0xff < 256 && (x >> 8) & 0xff < 256 && (x >> 16) & 0xff < 256
            && (x >> 24) & 0xff < 256 && (x >> 32) & 0xff < 256 && (x >> 40) & 0xff < 256
            && (x >> 48) & 0xff < 256 && (x >> 56) & 0xff < 256) by (bit_vector);
    }
    out.push((x & 0xff) as u8);
    out.push(((x >> 8) & 0xff) as u8);
    out.push(((x >> 16) & 0xff) as u8);
    out.push(((x >> 24) & 0xff) as u8);
    out.push(((x >> 32) & 0xff) as u8);
    out.push(((x >> 40) & 0xff) as u8);
    out.push(((x >> 48) & 0xff) as u8);
    out.push(((x >> 56) & 0xff) as u8);
    proof {
        assert(out@ =~= old(out)@ + le64_bytes(x));
    }
}

/// Reads a little-endian `u64` at offset `off`.
pub fn read_le64(bytes: &[u8], off: usize) -> (r: u64)
    requires
        off + 8 <= bytes@.len(),
    ensures
        r == le64_val(bytes@.subrange(off as int, off as int + 8)),
{
    let r = (bytes[off] as u64) | ((bytes[off + 1] as u64) << 8)
        | ((bytes[off + 2] as u64) << 16) | ((bytes[off + 3] as u64) << 24)
        | ((bytes[off + 4] as u64) << 32) | ((bytes[off + 5] as u64) << 40)
        | ((bytes[off + 6] as u64) << 48) | ((bytes[off + 7] as u64) << 56);
    proof {
        let s = bytes@.subrange(off as int, off as int + 8);
        assert(forall|k: int| 0 <= k < 8 ==> s[k] == bytes@[off + k]);
    }
    r
}

/// Appends the four big-endian bytes of `x`.
pub fn push_be32(out: &mut Vec<u8>, x: u32)
    ensures
        final(out)@ == old(out)@ + be32_bytes(x),
{
    proof {
        assert((x >> 24) & 0xff < 256 && (x >> 16) & 0xff < 256 && (x >> 8) & 0xff < 256
            && x & 0xff < 256) by (bit_vector);
    }
    out.push(((x >> 24) & 0xff) as u8);
    out.push(((x >> 16) & 0xff) as u8);
    out.push(((x >> 8) & 0xff) as u8);
    out.push((x & 0xff) as u8);
    proof {
        assert(out@ =~= old(out)@ + be32_bytes(x));
    }
}

/// Reads a big-endian `u32` at offset `off`.
pub fn read_be32(bytes: &[u8], off: usize) -> (r: u32)
    requires
        off + 4 <= bytes@.len(),
    ensures
        r == be32_val(bytes@.subrange(off as int, off as int + 4)),
{
    let r = ((bytes[off] as u32) << 24) | ((bytes[off + 1] as u32) << 16)
        | ((bytes[off + 2] as u32) << 8) | (bytes[off + 3] as u32);
    proof {
        let s = bytes@.subrange(off as int, off as int + 4);
        assert(forall|k: int| 0 <= k < 4 ==> s[k] == bytes@[off + k]);
    }
    r
}

/// Appends the sixteen big-endian bytes of `x`.
pub fn push_be128(out: &mut Vec<u8>, x: u128)
    ensures
        final(out)@ == old(out)@ + be128_bytes(x),
{
    proof {
        assert((x >> 120) & 0xff < 256 && (x >> 112) & 0xff < 256 && (x >> 104) & 0xff < 256
            && (x >> 96) & 0xff < 256 && (x >> 88) & 0xff < 256 && (x >> 80) & 0xff < 256
            && (x >> 72) & 0xff < 256 && (x >> 64) & 0xff < 256 && (x >> 56) & 0xff < 256
            && (x >> 48) & 0xff < 256 && (x >> 40) & 0xff < 256 && (x >> 32) & 0xff < 256
            && (x >> 24) & 0xff < 256 && (x >> 16) & 0xff < 256 && (x >> 8) & 0xff < 256
            && x & 0xff < 256) by (bit_vector);
    }
    out.push(((x >> 120) & 0xff) as u8);
    out.push(((x >> 112) & 0xff) as u8);
    out.push(((x >> 104) & 0xff) as u8);
    out.push(((x >> 96) & 0xff) as u8);
    out.push(((x >> 88) & 0xff) as u8);
    out.push(((x >> 80) & 0xff) as u8);
    out.push(((x >> 72) & 0xff) as u8);
    out.push(((x >> 64) & 0xff) as u8);
    out.push(((x >> 56) & 0xff) as u8);
    out.push(((x >> 48) & 0xff) as u8);
    out.push(((x >> 40) & 0xff) as u8);
    out.push(((x >> 32) & 0xff) as u8);
    out.push(((x >> 24) & 0xff) as u8);
    out.push(((x >> 16) & 0xff) as u8);
    out.push(((x >> 8) & 0xff) as u8);
    out.push((x & 0xff) as u8);
    proof {
        assert(out@ =~= old(out)@ + be128_bytes(x));
    }
}

/// Reads a big-endian `u128` at offset `off`.
pub fn read_be128(bytes: &[u8], off: usize) -> (r: u128)
    requires
        off + 16 <= bytes@.len(),
    ensures
        r == be128_val(bytes@.subrange(off as int, off as int + 16)),
{
    let r = ((bytes[off] as u128) << 120) | ((bytes[off + 1] as u128) << 112)
        | ((bytes[off + 2] as u128) << 104) | ((bytes[off + 3] as u128) << 96)
        | ((bytes[off + 4] as u128) << 88) | ((bytes[off + 5] as u128) << 80)
        | ((bytes[off + 6] as u128) << 72) | ((bytes[off + 7] as u128) << 64)
        | ((bytes[off + 8] as u128) << 56) | ((bytes[off + 9] as u128) << 48)
        | ((bytes[off + 10] as u128) << 40) | ((bytes[off + 11] as u128) << 32)
        | ((bytes[off + 12] as u128) << 24) | ((bytes[off + 13] as u128) << 16)
        | ((bytes[off + 14] as u128) << 8) | (bytes[off + 15] as u128);
    proof {
        let s = bytes@.subrange(off as int, off as int + 16);
        assert(forall|k: int| 0 <= k < 16 ==> s[k] == bytes@[off + k]);
    }
    r
}

} // verus!
