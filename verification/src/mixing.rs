//! The byte-mixing computation that each demo task runs: every byte is
//! widened to 32 bits, put through a hundred rounds of
//! multiply-by-31, add-17 (both wrapping) and rotate-left-by-5, and cut
//! back to its low byte.

use vstd::prelude::*;

verus! {

/// The number of rounds applied to each byte.
pub const MIX_ROUNDS: u32 = 100;

/// `x.rotate_left(5)` on a 32-bit word: the top five bits come round to
/// the bottom.
pub open spec fn rotl5(x: u32) -> u32 {
    ((x * 32) % 0x1_0000_0000 + x / 0x800_0000) as u32
}

/// One round: `x * 31 + 17` modulo 2^32, rotated left by 5.
pub open spec fn mix_round(x: u32) -> u32 {
    rotl5(((x * 31 + 17) % 0x1_0000_0000) as u32)
}

/// `n` rounds applied to `x`.
pub open spec fn mix_rounds(x: u32, n: nat) -> u32
    decreases n,
{
    if n == 0 {
        x
    } else {
        mix_round(mix_rounds(x, (n - 1) as nat))
    }
}

/// The mixed value of byte `b`: the low byte after all rounds.
pub open spec fn mixed(b: u8) -> u8 {
    (mix_rounds(b as u32, MIX_ROUNDS as nat) % 256) as u8
}

fn rotate_left_5(x: u32) -> (r: u32)
    ensures
        r == rotl5(x),
{
    assert((x << 5u32) | (x >> 27u32) == ((x * 32) % 0x1_0000_0000 + x / 0x800_0000) as u32)
        by (bit_vector);
    (x << 5u32) | (x >> 27u32)
}

/// The mixed value of one byte.
pub fn mix_byte(b: u8) -> (r: u8)
    ensures
        r == mixed(b),
{
    let mut val: u32 = b as u32;
    let mut round: u32 = 0;
    while round < MIX_ROUNDS
        invariant
            0 <= round <= MIX_ROUNDS,
            val == mix_rounds(b as u32, round as nat),
        decreases MIX_ROUNDS - round,
    {
        val = val.wrapping_mul(31).wrapping_add(17);
        val = rotate_left_5(val);
        round = round + 1;
    }
    let low = val & 0xff;
    assert(val & 0xff == val % 256) by (bit_vector);
    low as u8
}

/// Every byte of `data` mixed, in order.
pub fn mix_bytes(data: &Vec<u8>) -> (r: Vec<u8>)
    ensures
        r@.len() == data@.len(),
        forall|i: int| 0 <= i < data@.len() ==> #[trigger] r@[i] == mixed(data@[i]),
{
    let mut out: Vec<u8> = Vec::new();
    let mut i: usize = 0;
    while i < data.len()
        invariant
            0 <= i <= data@.len(),
            out@.len() == i,
            forall|k: int| 0 <= k < i ==> #[trigger] out@[k] == mixed(data@[k]),
        decreases data@.len() - i,
    {
        out.push(mix_byte(data[i]));
        i = i + 1;
    }
    out
}

/// The sum of the bytes, as a whole number.
pub open spec fn byte_total(data: Seq<u8>) -> nat
    decreases data.len(),
{
    if data.len() == 0 {
        0
    } else {
        byte_total(data.drop_last()) + data.last() as nat
    }
}

/// `data.iter().sum::<u8>()` where it does not overflow: the sum when it
/// fits in a byte, else `None`.
pub fn checked_byte_sum(data: &Vec<u8>) -> (r: Option<u8>)
    ensures
        match r {
            Some(s) => s == byte_total(data@),
            None => byte_total(data@) > 255,
        },
{
    let mut sum: u8 = 0;
    let mut i: usize = 0;
    while i < data.len()
        invariant
            0 <= i <= data@.len(),
            sum == byte_total(data@.subrange(0, i as int)),
        decreases data@.len() - i,
    {
        assert(data@.subrange(0, i as int) =~= data@.subrange(0, i + 1).drop_last());
        match sum.checked_add(data[i]) {
            Some(s) => {
                sum = s;
            },
            None => {
                proof {
                    lemma_byte_total_prefix_monotone(data@, i + 1, data@.len() as int);
                    assert(data@.subrange(0, data@.len() as int) =~= data@);
                }
                return None;
            },
        }
        i = i + 1;
    }
    assert(data@.subrange(0, data@.len() as int) =~= data@);
    Some(sum)
}

/// A longer prefix never sums to less.
proof fn lemma_byte_total_prefix_monotone(data: Seq<u8>, m: int, n: int)
    requires
        0 <= m <= n <= data.len(),
    ensures
        byte_total(data.subrange(0, m)) <= byte_total(data.subrange(0, n)),
    decreases n - m,
{
    if m < n {
        lemma_byte_total_prefix_monotone(data, m, n - 1);
        assert(data.subrange(0, n - 1) =~= data.subrange(0, n).drop_last());
    }
}

} // verus!
