use vstd::arithmetic::power2::*;
use vstd::bits::*;
use vstd::prelude::*;

verus! {

/// What `smax(bits)` evaluates to: `(1 << bits) / 2 - 1` computed in `i32`,
/// so that for `bits == 31` the shift reaches the sign bit.
pub open spec fn smax_spec(bits: int) -> int {
    if bits == 31 {
        -pow2(30) - 1
    } else {
        pow2(bits as nat) / 2 - 1
    }
}

/// The largest value of a signed two's-complement integer of `bits` bits,
/// computed as `(1 << bits) / 2 - 1`.
pub fn smax(bits: i32) -> (r: i32)
    requires
        0 <= bits < 32,
    ensures
        r == smax_spec(bits as int),
{
    let shifted: i32 = 1i32 << bits;
    proof {
        lemma_i32_one_shl(bits);
        lemma2_to64();
        lemma_pow2_pos(bits as nat);
    }
    shifted / 2 - 1
}

/// `1i32 << bits` is `2^bits` below the sign bit, and `i32::MIN` at it.
proof fn lemma_i32_one_shl(bits: i32)
    requires
        0 <= bits < 32,
    ensures
        bits < 31 ==> (1i32 << bits) == pow2(bits as nat),
        bits == 31 ==> (1i32 << bits) == i32::MIN,
{
    if bits < 31 {
        let b: u32 = bits as u32;
        assert((1i32 << bits) == (1i32 << b));
        assert((1i32 << b) as int == (1u32 << b) as int) by (bit_vector)
            requires
                b < 31,
        ;
        lemma_u32_pow2_no_overflow(b as nat);
        lemma_u32_shl_is_mul(1u32, b);
    } else {
        let b: u32 = bits as u32;
        assert((1i32 << bits) == (1i32 << b));
        assert((1i32 << b) == i32::MIN) by (bit_vector)
            requires
                b == 31,
        ;
    }
}

/// For `1 <= bits <= 30`, `smax(bits)` is `2^(bits - 1) - 1`, the largest
/// value of a signed integer of `bits` bits, whose least is `-smax(bits) - 1`.
pub proof fn lemma_smax_is_signed_max(bits: int)
    requires
        1 <= bits <= 30,
    ensures
        smax_spec(bits) == pow2((bits - 1) as nat) - 1,
        smax_spec(bits) >= 0,
{
    lemma_pow2_adds((bits - 1) as nat, 1);
    lemma2_to64();
    lemma_pow2_pos((bits - 1) as nat);
}

/// Widening the field by one bit doubles the signed range:
/// `smax(bits + 1) == 2 * smax(bits) + 1` for `1 <= bits < 30`.
pub proof fn lemma_smax_step(bits: int)
    requires
        1 <= bits < 30,
    ensures
        smax_spec(bits + 1) == 2 * smax_spec(bits) + 1,
{
    lemma_smax_is_signed_max(bits);
    lemma_smax_is_signed_max(bits + 1);
    lemma_pow2_adds((bits - 1) as nat, 1);
    lemma2_to64();
}

} // verus!
