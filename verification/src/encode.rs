//! Byte encodings used by the demo's serialisers: the UTF-8 bytes of a
//! string and the little-endian bytes of a 32-bit integer.

use vstd::prelude::*;
use vstd::utf8::encode_utf8;

verus! {

/// The four little-endian bytes of `x` in two's complement.
pub open spec fn i32_le_bytes_spec(x: i32) -> Seq<u8> {
    let u = x as u32;
    seq![(u % 256) as u8, ((u / 256) % 256) as u8, ((u / 65536) % 256) as u8, (u / 16777216) as u8]
}

/// The 32-bit integer whose two's-complement little-endian bytes are `b`.
pub open spec fn i32_from_le_bytes_spec(b: Seq<u8>) -> i32
    recommends
        b.len() == 4,
{
    (b[0] + 256 * b[1] + 65536 * b[2] + 16777216 * b[3]) as u32 as i32
}

/// `x.to_le_bytes().to_vec()`.
pub fn i32_to_le_bytes(x: i32) -> (b: Vec<u8>)
    ensures
        b@ == i32_le_bytes_spec(x),
{
    let u = x as u32;
    let b0 = (u & 0xff) as u8;
    let b1 = ((u >> 8) & 0xff) as u8;
    let b2 = ((u >> 16) & 0xff) as u8;
    let b3 = (u >> 24) as u8;
    assert(u & 0xff == u % 256 && (u >> 8) & 0xff == (u / 256) % 256 && (u >> 16) & 0xff == (u
        / 65536) % 256 && u >> 24 == u / 16777216) by (bit_vector);
    let mut b: Vec<u8> = Vec::new();
    b.push(b0);
    b.push(b1);
    b.push(b2);
    b.push(b3);
    assert(b@ =~= i32_le_bytes_spec(x));
    b
}

/// `i32::from_le_bytes` on four bytes.
pub fn i32_from_le_bytes(b: &Vec<u8>) -> (x: i32)
    requires
        b@.len() == 4,
    ensures
        x == i32_from_le_bytes_spec(b@),
{
    let b0 = b[0] as u32;
    let b1 = b[1] as u32;
    let b2 = b[2] as u32;
    let b3 = b[3] as u32;
    let u: u32 = b0 | (b1 << 8) | (b2 << 16) | (b3 << 24);
    assert(b0 < 256 && b1 < 256 && b2 < 256 && b3 < 256 ==> b0 | (b1 << 8) | (b2 << 16) | (b3 << 24)
        == b0 + 256 * b1 + 65536 * b2 + 16777216 * b3) by (bit_vector);
    u as i32
}

/// Decoding the encoding of an integer gives the integer back, and encoding
/// the decoding of four bytes gives the bytes back.
pub proof fn lemma_i32_le_bytes_roundtrip(x: i32, b: Seq<u8>)
    ensures
        i32_le_bytes_spec(x).len() == 4,
        i32_from_le_bytes_spec(i32_le_bytes_spec(x)) == x,
        b.len() == 4 ==> i32_le_bytes_spec(i32_from_le_bytes_spec(b)) == b,
{
    let u = x as u32;
    assert((u % 256) + 256 * ((u / 256) % 256) + 65536 * ((u / 65536) % 256) + 16777216 * (u
        / 16777216) == u) by (nonlinear_arith);
    assert(u as i32 == x) by (bit_vector)
        requires
            u == x as u32,
    ;
    if b.len() == 4 {
        let b0 = b[0];
        let b1 = b[1];
        let b2 = b[2];
        let b3 = b[3];
        let v: u32 = (b0 + 256 * b1 + 65536 * b2 + 16777216 * b3) as u32;
        assert(b0 + 256 * b1 + 65536 * b2 + 16777216 * b3 < 0x1_0000_0000);
        assert(((v as i32) as u32) == v) by (bit_vector);
        assert(v % 256 == b0 && (v / 256) % 256 == b1 && (v / 65536) % 256 == b2 && v / 16777216
            == b3) by (nonlinear_arith)
            requires
                v == b0 + 256 * b1 + 65536 * b2 + 16777216 * b3,
                b0 < 256,
                b1 < 256,
                b2 < 256,
                b3 < 256,
        ;
        assert(i32_le_bytes_spec(i32_from_le_bytes_spec(b)) =~= b);
    }
}

/// `s.as_bytes().to_vec()`: the UTF-8 encoding of `s`.
pub fn string_bytes(s: &String) -> (b: Vec<u8>)
    ensures
        b@ == encode_utf8(s@),
{
    let bytes = s.as_str().as_bytes();
    let mut out: Vec<u8> = Vec::new();
    let mut i: usize = 0;
    while i < bytes.len()
        invariant
            0 <= i <= bytes@.len(),
            bytes@ == encode_utf8(s@),
            out@ == bytes@.subrange(0, i as int),
        decreases bytes@.len() - i,
    {
        out.push(bytes[i]);
        i = i + 1;
        assert(out@ =~= bytes@.subrange(0, i as int));
    }
    assert(out@ =~= bytes@);
    out
}

} // verus!
