//! The two-accumulator running-sum checksum that gates trust in block reads.

use vstd::prelude::*;

verus! {

use vstd::bytes::{spec_u32_from_le_bytes, u32_from_le_bytes};
use vstd::slice::slice_subrange;

/// The largest input length the checksum accepts, chosen so the running
/// accumulators cannot overflow a `u64`.
pub const CHECKSUM_INPUT_MAX: usize = 65536;

/// Sum of the first `k` little-endian 32-bit words of `s`.
pub open spec fn spec_word_sum1(s: Seq<u8>, k: int) -> int
    decreases k,
{
    if k <= 0 {
        0
    } else {
        spec_word_sum1(s, k - 1) + spec_u32_from_le_bytes(s.subrange(4 * (k - 1), 4 * k))
    }
}

/// Sum of the running first-accumulator values over the first `k` words of `s`.
pub open spec fn spec_word_sum2(s: Seq<u8>, k: int) -> int
    decreases k,
{
    if k <= 0 {
        0
    } else {
        spec_word_sum2(s, k - 1) + spec_word_sum1(s, k)
    }
}

/// The checksum of `s`: both word sums folded through a modulo-(2^32 - 1)
/// complement step and packed into the upper and lower halves of one
/// 64-bit value.
pub open spec fn spec_fletcher64(s: Seq<u8>) -> u64
    recommends
        s.len() % 4 == 0,
{
    let k = s.len() as int / 4;
    let sum1 = spec_word_sum1(s, k);
    let sum2 = spec_word_sum2(s, k);
    let c1 = (0xffffffff - ((sum1 + sum2) % 0xffffffff)) as u64;
    let c2 = (0xffffffff - ((sum1 + c1) % 0xffffffff)) as u64;
    (c2 << 32) | c1
}

/// Bounds on the word sums, ruling out `u64` overflow of the accumulators.
proof fn lemma_word_sum_bounds(s: Seq<u8>, k: int)
    requires
        0 <= k,
        4 * k <= s.len(),
        s.len() <= CHECKSUM_INPUT_MAX,
    ensures
        0 <= spec_word_sum1(s, k) <= k * 0xffffffff,
        0 <= spec_word_sum2(s, k) <= k * k * 0xffffffff,
        spec_word_sum1(s, k) <= 0x3fffffffc000,
        spec_word_sum2(s, k) <= 0xffffffff0000000,
    decreases k,
{
    if k > 0 {
        lemma_word_sum_bounds(s, k - 1);
        assert(spec_u32_from_le_bytes(s.subrange(4 * (k - 1), 4 * k)) <= 0xffffffff);
        assert((k - 1) * 0xffffffff + 0xffffffff == k * 0xffffffff) by (nonlinear_arith);
        assert((k - 1) * (k - 1) * 0xffffffff + k * 0xffffffff <= k * k * 0xffffffff)
            by (nonlinear_arith)
            requires
                k >= 1,
        ;
    }
    assert(k * 0xffffffff <= 0x3fffffffc000) by (nonlinear_arith)
        requires
            0 <= k <= 16384,
    ;
    assert(k * k * 0xffffffff <= 0xffffffff0000000) by (nonlinear_arith)
        requires
            0 <= k <= 16384,
    ;
}

/// Compute the running-sum checksum over `input`, interpreted as a sequence
/// of little-endian 32-bit words.
///
/// The result is deterministic: it depends on the bytes of `input` alone.
pub fn fletcher64(input: &[u8]) -> (r: u64)
    requires
        input@.len() % 4 == 0,
        input@.len() <= CHECKSUM_INPUT_MAX,
    ensures
        r == spec_fletcher64(input@),
{
    let words: usize = input.len() / 4;
    proof {
        assert(4 * (input@.len() as int / 4) == input@.len());
    }
    let mut sum1: u64 = 0;
    let mut sum2: u64 = 0;
    let mut i: usize = 0;
    while i < words
        invariant
            0 <= i <= words,
            words == input@.len() / 4,
            4 * words == input@.len(),
            input@.len() % 4 == 0,
            input@.len() <= CHECKSUM_INPUT_MAX,
            sum1 == spec_word_sum1(input@, i as int),
            sum2 == spec_word_sum2(input@, i as int),
        decreases words - i,
    {
        proof {
            lemma_word_sum_bounds(input@, i as int);
            lemma_word_sum_bounds(input@, i + 1);
        }
        let word = u32_from_le_bytes(slice_subrange(input, 4 * i, 4 * i + 4));
        sum1 = sum1 + word as u64;
        sum2 = sum2 + sum1;
        i = i + 1;
    }
    proof {
        lemma_word_sum_bounds(input@, words as int);
    }
    let c1: u64 = 0xffffffff - ((sum1 + sum2) % 0xffffffff);
    let c2: u64 = 0xffffffff - ((sum1 + c1) % 0xffffffff);
    (c2 << 32) | c1
}

} // verus!
