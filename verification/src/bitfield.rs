use vstd::prelude::*;
use vstd::arithmetic::div_mod::{
    lemma_div_denominator, lemma_div_multiples_vanish_fancy, lemma_hoist_over_denominator,
    lemma_mod_multiples_vanish,
};
use vstd::arithmetic::mul::{lemma_mul_is_associative, lemma_mul_is_commutative};
use vstd::arithmetic::power2::{lemma2_to64, lemma_pow2_adds, lemma_pow2_pos, pow2};
use vstd::bits::{
    lemma_u16_low_bits_mask_is_mod, lemma_u16_shl_is_mul, lemma_u16_shr_is_div,
    lemma_u64_low_bits_mask_is_mod, lemma_u64_shl_is_mul, lemma_u64_shr_is_div, low_bits_mask,
};

verus! {

/// The value of a byte sequence read as one little-endian integer:
/// the first byte holds the lowest-order eight bits.
pub open spec fn le_val(bytes: Seq<u8>) -> nat
    decreases bytes.len(),
{
    if bytes.len() == 0 {
        0
    } else {
        bytes[0] as nat + 256 * le_val(bytes.skip(1))
    }
}

/// The unsigned value of the `width` bits that start `pos` bits into the
/// stream, in LSB-first bit order: bit `i` of the stream is bit `i % 8` of
/// byte `i / 8`.
pub open spec fn field_at(bytes: Seq<u8>, pos: nat, width: nat) -> nat {
    (le_val(bytes) / pow2(pos)) % pow2(width)
}

/// One unfolding of `le_val` in the middle of a sequence.
pub proof fn lemma_le_val_unfold_at(s: Seq<u8>, k: int)
    requires
        0 <= k < s.len(),
    ensures
        le_val(s.skip(k)) == s[k] + 256 * le_val(s.skip(k + 1)),
{
    assert(s.skip(k)[0] == s[k]);
    assert(s.skip(k).skip(1) =~= s.skip(k + 1));
}

/// Skipping one whole byte moves the read position down by eight bits.
pub proof fn lemma_field_at_skip8(s: Seq<u8>, pos: nat, width: nat)
    requires
        8 <= pos,
        1 <= s.len(),
    ensures
        field_at(s, pos, width) == field_at(s.skip(1), (pos - 8) as nat, width),
{
    let b = s[0] as nat;
    let rest = le_val(s.skip(1));
    let p = (pos - 8) as nat;
    lemma_pow2_pos(p);
    lemma_pow2_pos(pos);
    assert(pow2(8) == 256) by {
        lemma2_to64();
    }
    lemma_pow2_adds(8, p);
    assert(le_val(s) == b + 256 * rest);
    assert((256 * rest + b) / 256 == rest) by {
        lemma_div_multiples_vanish_fancy(rest as int, b as int, 256);
    }
    assert(le_val(s) as int / pow2(pos) as int == (le_val(s) as int / 256) / pow2(p) as int) by {
        lemma_div_denominator(le_val(s) as int, 256, pow2(p) as int);
    }
}

/// Reading a field at byte offset `k` equals reading it at the front of the
/// sequence with the first `k` bytes dropped.
pub proof fn lemma_field_at_skip(s: Seq<u8>, k: nat, pos: nat, width: nat)
    requires
        k <= s.len(),
    ensures
        field_at(s, 8 * k + pos, width) == field_at(s.skip(k as int), pos, width),
    decreases k,
{
    if k == 0 {
        assert(s.skip(0) =~= s);
    } else {
        lemma_field_at_skip8(s, 8 * k + pos, width);
        lemma_field_at_skip(s.skip(1), (k - 1) as nat, pos, width);
        assert(s.skip(1).skip(k - 1) =~= s.skip(k as int));
    }
}

/// A field that lies within the first sixteen bits of a sequence is a
/// function of its first two bytes alone.
pub proof fn lemma_field_at_two_bytes(s: Seq<u8>, off: nat, width: nat)
    requires
        2 <= s.len(),
        off + width <= 16,
    ensures
        field_at(s, off, width) == ((s[0] as nat + 256 * s[1] as nat) / pow2(off)) % pow2(width),
{
    let w = s[0] as nat + 256 * s[1] as nat;
    let c = le_val(s.skip(2));
    lemma_le_val_unfold_at(s, 1);
    assert(s.skip(0) =~= s);
    lemma_le_val_unfold_at(s, 0);
    assert(le_val(s) == w + 65536 * c);
    lemma_pow2_pos(off);
    lemma_pow2_pos(width);
    let hi = (16 - off) as nat;
    let hw = (16 - off - width) as nat;
    assert(pow2(off) * pow2(hi) == 65536) by {
        lemma_pow2_adds(off, hi);
        assert(pow2(16) == 65536) by {
            lemma2_to64();
        }
    }
    // Pull the part above the window out of the division.
    assert(65536 * c == (pow2(hi) * c) * pow2(off)) by {
        lemma_mul_is_associative(pow2(off) as int, pow2(hi) as int, c as int);
        lemma_mul_is_commutative(pow2(off) as int, pow2(hi) as int * c as int);
        lemma_mul_is_commutative(pow2(off) as int, pow2(hi) as int);
    }
    assert(le_val(s) as int / pow2(off) as int == w as int / pow2(off) as int + pow2(hi) * c) by {
        lemma_hoist_over_denominator(w as int, (pow2(hi) * c) as int, pow2(off));
    }
    // The pulled-out part is a multiple of 2^width, so it vanishes modulo it.
    assert(pow2(hi) * c == pow2(width) * (pow2(hw) * c)) by {
        lemma_pow2_adds(width, hw);
        lemma_mul_is_associative(pow2(width) as int, pow2(hw) as int, c as int);
    }
    assert((pow2(width) * (pow2(hw) * c) + w as int / pow2(off) as int) % pow2(width) as int == (
    w as int / pow2(off) as int) % pow2(width) as int) by {
        lemma_mod_multiples_vanish((pow2(hw) * c) as int, w as int / pow2(off) as int, pow2(
            width,
        ) as int);
    }
}

/// A field that lies within bytes `k` and `k + 1` is a function of those two
/// bytes alone.
pub proof fn lemma_window_read(s: Seq<u8>, k: nat, off: nat, width: nat)
    requires
        k + 2 <= s.len(),
        off + width <= 16,
    ensures
        field_at(s, 8 * k + off, width) == ((s[k as int] as nat + 256 * s[k as int + 1] as nat) / pow2(
            off,
        )) % pow2(width),
{
    lemma_field_at_skip(s, k, off, width);
    assert(s.skip(k as int)[0] == s[k as int]);
    assert(s.skip(k as int)[1] == s[k as int + 1]);
    lemma_field_at_two_bytes(s.skip(k as int), off, width);
}

/// Shift-and-mask on a sixteen-bit window equals division and remainder by
/// the matching powers of two.
pub proof fn lemma_u16_extract(x: u16, off: u16, width: u16)
    requires
        off + width <= 16,
        width <= 9,
    ensures
        (((x >> off) & (((1u16 << width) - 1) as u16)) as nat) == ((x as nat) / pow2(off as nat)) % pow2(
            width as nat,
        ),
{
    if width == 0 {
        assert((x >> off) & (((1u16 << 0) - 1) as u16) == 0) by (bit_vector);
        assert(pow2(0) == 1) by {
            lemma2_to64();
        }
    } else {
        lemma_u16_shr_is_div(x, off);
        assert(pow2(width as nat) <= 512) by {
            lemma2_to64();
        }
        lemma_u16_shl_is_mul(1u16, width);
        lemma_pow2_pos(width as nat);
        assert((1u16 << width) - 1 == low_bits_mask(width as nat));
        lemma_u16_low_bits_mask_is_mod(x >> off, width as nat);
    }
}

/// Shift-and-mask on a 64-bit value equals division and remainder by the
/// matching powers of two.
pub proof fn lemma_u64_extract(x: u64, off: u64, width: u64)
    requires
        off < 64,
        1 <= width <= 7,
    ensures
        (((x >> off) & (((1u64 << width) - 1) as u64)) as nat) == ((x as nat) / pow2(off as nat)) % pow2(
            width as nat,
        ),
{
    lemma_u64_shr_is_div(x, off);
    assert(pow2(width as nat) <= 128) by {
        lemma2_to64();
    }
    lemma_u64_shl_is_mul(1u64, width);
    lemma_pow2_pos(width as nat);
    assert((1u64 << width) - 1 == low_bits_mask(width as nat));
    lemma_u64_low_bits_mask_is_mod(x >> off, width as nat);
}

} // verus!
