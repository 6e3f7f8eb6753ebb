//! IEEE-754 binary64 numbers, carried as their bit patterns.
//!
//! A double is held as the `u64` of its encoding. Every finite double is an
//! integer multiple of 2^-1074, so its exact value is described here by the
//! integer `scaled_value`, the value times 2^1074.
use vstd::arithmetic::mul::*;
use vstd::arithmetic::power2::*;
use vstd::prelude::*;

verus! {

/// The sign bit.
pub const SIGN: u64 = 0x8000_0000_0000_0000;

/// One unit of the exponent field, 2^52.
pub const UNIT: u64 = 0x0010_0000_0000_0000;

/// The encoding of 2^-52, the distance from 1.0 to the next double.
pub const EPSILON_BITS: u64 = 0x3CB0_0000_0000_0000;

pub open spec fn is_negative(b: u64) -> bool {
    b >= SIGN
}

/// All bits but the sign.
pub open spec fn magnitude_bits(b: u64) -> int {
    (b % SIGN) as int
}

pub open spec fn exponent_field(b: u64) -> int {
    magnitude_bits(b) / (UNIT as int)
}

pub open spec fn fraction_field(b: u64) -> int {
    magnitude_bits(b) % (UNIT as int)
}

/// Neither an infinity nor a NaN.
pub open spec fn is_finite(b: u64) -> bool {
    exponent_field(b) < 2047
}

pub open spec fn significand(b: u64) -> int {
    if exponent_field(b) == 0 {
        fraction_field(b)
    } else {
        fraction_field(b) + UNIT
    }
}

pub open spec fn scale(b: u64) -> nat {
    if exponent_field(b) == 0 {
        0
    } else {
        (exponent_field(b) - 1) as nat
    }
}

/// |x| * 2^1074 for a finite double x.
pub open spec fn scaled_magnitude(b: u64) -> int {
    significand(b) * pow2(scale(b))
}

/// x * 2^1074 for a finite double x.
pub open spec fn scaled_value(b: u64) -> int {
    if is_negative(b) {
        -scaled_magnitude(b)
    } else {
        scaled_magnitude(b)
    }
}

/// The sign-magnitude reading of the encoding, which orders finite doubles
/// by value (see `lemma_order_key_is_numeric`).
pub open spec fn order_key(b: u64) -> int {
    if is_negative(b) {
        -magnitude_bits(b)
    } else {
        magnitude_bits(b)
    }
}

/// 2^-52, scaled as `scaled_value` is.
pub open spec fn scaled_epsilon() -> int {
    pow2(1022) as int
}

/// 2^-105, half the gap from 2^-52 to the next double, scaled as
/// `scaled_value` is.
pub open spec fn scaled_half_gap() -> int {
    pow2(969) as int
}

/// Both finite, and the f64 subtraction of their absolute values, rounded to
/// the nearest double with ties to even, is at most 2^-52 in absolute value.
///
/// The doubles next to 2^-52 lie 2^-104 apart and 2^-52 has an even
/// significand (`lemma_epsilon_neighbours`), so the rounded difference is at
/// most 2^-52 exactly when the exact difference is at most 2^-52 + 2^-105:
/// below the midpoint it rounds down, at the midpoint the tie goes to the
/// even 2^-52, above it rounds up to 2^-52 + 2^-104.
pub open spec fn magnitudes_close(a: u64, b: u64) -> bool {
    &&& is_finite(a)
    &&& is_finite(b)
    &&& -(scaled_epsilon() + scaled_half_gap()) <= scaled_magnitude(a) - scaled_magnitude(b)
        <= scaled_epsilon() + scaled_half_gap()
}

/// 2^-52 is the double `EPSILON_BITS`, whose significand is even; the next
/// double is 2^-104 above it, and no double lies between the two.
pub proof fn lemma_epsilon_neighbours(b: u64)
    ensures
        scaled_magnitude(EPSILON_BITS) == scaled_epsilon(),
        fraction_field(EPSILON_BITS) % 2 == 0,
        scaled_magnitude((EPSILON_BITS + 1) as u64) == scaled_epsilon() + 2 * scaled_half_gap(),
        scaled_magnitude(b) <= scaled_epsilon() || scaled_magnitude(b) >= scaled_epsilon() + 2
            * scaled_half_gap(),
{
    lemma_pow2_adds(52, 970);
    lemma_pow2_unfold(970);
    lemma2_to64();
    lemma2_to64_rest();
    assert(pow2(52) == UNIT);
    assert(exponent_field(EPSILON_BITS) == 971);
    assert(exponent_field((EPSILON_BITS + 1) as u64) == 971);
    assert(fraction_field((EPSILON_BITS + 1) as u64) == 1);
    lemma_mul_is_distributive_add_other_way(pow2(970) as int, UNIT as int, 1);
    if magnitude_bits(b) < EPSILON_BITS {
        lemma_magnitude_monotone(b, EPSILON_BITS);
    } else if magnitude_bits(b) > EPSILON_BITS {
        if magnitude_bits(b) > EPSILON_BITS + 1 {
            lemma_magnitude_monotone((EPSILON_BITS + 1) as u64, b);
        } else {
            assert(magnitude_bits(b) == magnitude_bits((EPSILON_BITS + 1) as u64));
        }
    } else {
        assert(magnitude_bits(b) == magnitude_bits(EPSILON_BITS));
    }
}

proof fn lemma_fields(b: u64)
    ensures
        0 <= fraction_field(b) < UNIT,
        0 <= exponent_field(b) < 2048,
        magnitude_bits(b) == exponent_field(b) * UNIT + fraction_field(b),
        0 <= significand(b) < 2 * UNIT,
        exponent_field(b) > 0 ==> significand(b) >= UNIT,
        scale(b) <= 2046 || !is_finite(b),
        scaled_magnitude(b) >= 0,
{
    lemma_pow2_pos(scale(b));
    lemma_mul_nonnegative(significand(b), pow2(scale(b)) as int);
}

/// Larger magnitude bits mean a larger magnitude.
proof fn lemma_magnitude_monotone(a: u64, b: u64)
    requires
        magnitude_bits(a) < magnitude_bits(b),
    ensures
        scaled_magnitude(a) < scaled_magnitude(b),
{
    lemma_fields(a);
    lemma_fields(b);
    let sa = significand(a);
    let sb = significand(b);
    let pa = pow2(scale(a)) as int;
    let pb = pow2(scale(b)) as int;
    lemma_pow2_pos(scale(a));
    lemma_pow2_pos(scale(b));
    if exponent_field(a) == exponent_field(b) {
        assert(sa < sb);
        assert(pa == pb);
        lemma_mul_strict_inequality(sa, sb, pa);
    } else {
        assert(exponent_field(a) < exponent_field(b));
        assert(sb >= UNIT);
        if exponent_field(a) == 0 {
            assert(sa < UNIT);
            lemma2_to64();
            assert(pa == 1);
            lemma_mul_inequality(UNIT as int, sb, pb);
            lemma_mul_inequality(1, pb, UNIT as int);
            lemma_mul_basics(sa);
            lemma_mul_basics(pb);
            assert(sa * pa == sa);
            assert(UNIT * pb >= UNIT);
            assert(sb * pb >= UNIT * pb);
        } else {
            // sa * 2^sa_scale < 2^53 * 2^sa_scale = 2^52 * 2^(scale(a) + 1) <= 2^52 * 2^scale(b)
            lemma_mul_strict_inequality(sa, 2 * UNIT, pa);
            lemma_pow2_unfold(scale(a) + 1);
            assert(pow2(scale(a) + 1) == 2 * pa);
            if scale(a) + 1 < scale(b) {
                lemma_pow2_strictly_increases(scale(a) + 1, scale(b));
            }
            assert(pow2(scale(a) + 1) <= pb);
            lemma_mul_is_associative(2, UNIT as int, pa);
            lemma_mul_is_associative(UNIT as int, 2, pa);
            lemma_mul_inequality(2 * pa, pb, UNIT as int);
            lemma_mul_inequality(UNIT as int, sb, pb);
            lemma_mul_is_commutative(UNIT as int, pb);
            lemma_mul_is_commutative(UNIT as int, 2 * pa);
        }
    }
}

/// For finite doubles, the order of `order_key` is the order of the values,
/// and equal keys mean equal values.
pub proof fn lemma_order_key_is_numeric(a: u64, b: u64)
    ensures
        order_key(a) < order_key(b) <==> scaled_value(a) < scaled_value(b),
        order_key(a) == order_key(b) <==> scaled_value(a) == scaled_value(b),
{
    lemma_fields(a);
    lemma_fields(b);
    if magnitude_bits(a) < magnitude_bits(b) {
        lemma_magnitude_monotone(a, b);
    } else if magnitude_bits(b) < magnitude_bits(a) {
        lemma_magnitude_monotone(b, a);
    }
    if magnitude_bits(a) == 0 {
        lemma_mul_by_zero_is_zero(pow2(scale(a)) as int);
        assert(scaled_magnitude(a) == 0);
    }
    if magnitude_bits(b) == 0 {
        lemma_mul_by_zero_is_zero(pow2(scale(b)) as int);
        assert(scaled_magnitude(b) == 0);
    }
    if magnitude_bits(a) > 0 {
        assert(scaled_magnitude(a) > 0) by {
            lemma_pow2_pos(scale(a));
            lemma_mul_strictly_positive(significand(a), pow2(scale(a)) as int);
        }
    }
    if magnitude_bits(b) > 0 {
        assert(scaled_magnitude(b) > 0) by {
            lemma_pow2_pos(scale(b));
            lemma_mul_strictly_positive(significand(b), pow2(scale(b)) as int);
        }
    }
}

/// Whether `a` orders before `b` by value (finite doubles; see
/// `lemma_order_key_is_numeric`).
pub fn less(a: u64, b: u64) -> (r: bool)
    ensures
        r == (order_key(a) < order_key(b)),
{
    let ma = a % SIGN;
    let mb = b % SIGN;
    if a >= SIGN {
        if b >= SIGN {
            mb < ma
        } else {
            !(ma == 0 && mb == 0)
        }
    } else {
        if b >= SIGN {
            false
        } else {
            ma < mb
        }
    }
}

/// Whether `a` and `b` are equal by value (finite doubles; `0.0` and `-0.0`
/// are equal).
pub fn same(a: u64, b: u64) -> (r: bool)
    ensures
        r == (order_key(a) == order_key(b)),
{
    !less(a, b) && !less(b, a)
}

fn pow2_wide(n: u32) -> (r: u128)
    requires
        n < 127,
    ensures
        r == pow2(n as nat),
{
    let mut r: u128 = 1;
    let mut i: u32 = 0;
    proof {
        lemma2_to64();
    }
    while i < n
        invariant
            i <= n < 127,
            r == pow2(i as nat),
        decreases n - i,
    {
        proof {
            lemma_pow2_unfold((i + 1) as nat);
            lemma_pow2_strictly_increases((i + 1) as nat, 127);
            lemma_pow2_adds(63, 64);
            lemma2_to64();
            lemma2_to64_rest();
            assert(pow2(127) == 0x8000_0000_0000_0000_0000_0000_0000_0000u128);
        }
        r = r * 2;
        i = i + 1;
    }
    r
}

/// The value of the double as an integer in the range of `i32`, if it is
/// one: zero, or a normal double whose significand has no fraction bits left
/// at its exponent (see `lemma_i32_value_exact`).
pub open spec fn i32_value(b: u64) -> Option<int> {
    let e = exponent_field(b);
    if magnitude_bits(b) == 0 {
        Some(0)
    } else if 1023 <= e <= 1054 {
        let p = pow2((1075 - e) as nat) as int;
        let k = significand(b) / p;
        if significand(b) % p == 0 && (if is_negative(b) {
            k <= 0x8000_0000
        } else {
            k <= 0x7fff_ffff
        }) {
            Some(
                if is_negative(b) {
                    -k
                } else {
                    k
                },
            )
        } else {
            None
        }
    } else {
        None
    }
}

/// What `i32_value` gives is the exact value of the double.
pub proof fn lemma_i32_value_exact(b: u64)
    ensures
        i32_value(b) matches Some(k) ==> i32::MIN <= k <= i32::MAX && scaled_value(b) == k * pow2(
            1074,
        ),
{
    lemma_fields(b);
    if magnitude_bits(b) == 0 {
        lemma_mul_by_zero_is_zero(pow2(scale(b)) as int);
    } else if i32_value(b) is Some {
        let e = exponent_field(b);
        let s = (1075 - e) as nat;
        let p = pow2(s) as int;
        lemma_pow2_pos(s);
        let k = significand(b) / p;
        assert(significand(b) == k * p) by {
            vstd::arithmetic::div_mod::lemma_fundamental_div_mod(significand(b), p);
        }
        lemma_pow2_adds(s, scale(b));
        assert(s + scale(b) == 1074);
        lemma_mul_is_associative(k, p, pow2(scale(b)) as int);
        if is_negative(b) {
            lemma_mul_unary_negation(k, pow2(1074) as int);
        }
    }
}

/// The value of the double as an `i32`, when it is an integer in that range
/// (`i32_value`).
pub fn to_i32(b: u64) -> (r: Option<i32>)
    ensures
        i32_value(b) matches Some(k) ==> r == Some(k as i32),
        i32_value(b) is None ==> r is None,
{
    let mb = b % SIGN;
    if mb == 0 {
        return Some(0);
    }
    let e = mb / UNIT;
    if e < 1023 || e > 1054 {
        return None;
    }
    let m = mb % UNIT + UNIT;
    let p = pow2_wide((1075 - e) as u32);
    proof {
        lemma_pow2_pos((1075 - e) as nat);
        lemma_pow2_strictly_increases((1075 - e) as nat, 64);
        lemma2_to64();
        assert(m == significand(b));
    }
    let p = p as u64;
    if m % p != 0 {
        return None;
    }
    let k = m / p;
    if b >= SIGN {
        if k <= 0x8000_0000 {
            Some((0 - k as i64) as i32)
        } else {
            None
        }
    } else {
        if k <= 0x7fff_ffff {
            Some(k as i32)
        } else {
            None
        }
    }
}

/// Exact facts behind `close_magnitudes`, with `hi` the larger magnitude.
proof fn lemma_close_split(hi: u64, lo: u64)
    requires
        magnitude_bits(lo) <= magnitude_bits(hi),
        is_finite(hi),
    ensures
        scale(lo) <= scale(hi),
        scaled_magnitude(lo) <= scaled_magnitude(hi),
        scale(hi) >= scale(lo) + 54 ==> (scaled_magnitude(hi) - scaled_magnitude(lo)
            <= scaled_epsilon() + scaled_half_gap() <==> magnitude_bits(hi) <= EPSILON_BITS),
        scale(hi) < scale(lo) + 54 ==> scaled_magnitude(hi) - scaled_magnitude(lo) == (
        significand(hi) * pow2((scale(hi) - scale(lo)) as nat) - significand(lo)) * pow2(
            scale(lo),
        ),
{
    lemma_fields(hi);
    lemma_fields(lo);
    if magnitude_bits(lo) < magnitude_bits(hi) {
        lemma_magnitude_monotone(lo, hi);
    }
    let d = (scale(hi) - scale(lo)) as nat;
    let pl = pow2(scale(lo)) as int;
    let ph = pow2(scale(hi)) as int;
    lemma_pow2_adds(d, scale(lo));
    assert(ph == pow2(d) * pl);
    lemma_pow2_pos(scale(lo));
    lemma_pow2_pos(d);
    if scale(hi) < scale(lo) + 54 {
        lemma_mul_is_associative(significand(hi), pow2(d) as int, pl);
        lemma_mul_is_distributive_sub_other_way(
            pl,
            significand(hi) * pow2(d),
            significand(lo),
        );
    } else {
        // the smaller magnitude is below one unit of the larger one's scale
        let k = scale(hi);
        assert(exponent_field(hi) > 0);
        lemma_mul_strict_inequality(significand(lo), 2 * UNIT, pl);
        lemma_pow2_adds(53, scale(lo));
        lemma2_to64();
        lemma2_to64_rest();
        assert(pow2(53) == 2 * UNIT);
        let h = (k - 1) as nat;
        if 53 + scale(lo) < h {
            lemma_pow2_strictly_increases(53 + scale(lo), h);
        }
        assert(scaled_magnitude(lo) < pow2(h));
        lemma_pow2_unfold(k);
        assert(ph == 2 * pow2(h));
        // the epsilon is the magnitude of EPSILON_BITS
        assert(exponent_field(EPSILON_BITS) == 971);
        assert(fraction_field(EPSILON_BITS) == 0);
        lemma_pow2_adds(52, 970);
        assert(pow2(52) == UNIT);
        assert(scaled_magnitude(EPSILON_BITS) == scaled_epsilon());
        if magnitude_bits(hi) <= EPSILON_BITS {
            if magnitude_bits(hi) < EPSILON_BITS {
                lemma_magnitude_monotone(hi, EPSILON_BITS);
            }
        } else {
            lemma_magnitude_monotone(EPSILON_BITS, hi);
            assert(exponent_field(hi) >= 971);
            if h > 969 {
                lemma_pow2_strictly_increases(969, h);
            }
            lemma_pow2_strictly_increases(969, 1022);
            // both are multiples of 2^k, so they differ by at least 2^k
            if k <= 1022 {
                let q = pow2((1022 - k) as nat) as int;
                lemma_pow2_adds((1022 - k) as nat, k);
                assert(scaled_epsilon() == q * ph);
                lemma_mul_strict_inequality_converse(q, significand(hi), ph);
                lemma_mul_inequality(q + 1, significand(hi), ph);
                lemma_mul_is_distributive_add_other_way(ph, q, 1);
            } else {
                if 1022 < h {
                    lemma_pow2_strictly_increases(1022, h);
                }
                lemma_mul_inequality(UNIT as int, significand(hi), ph);
                lemma_mul_inequality(2, UNIT as int, ph);
            }
        }
    }
}

/// Whether the absolute values of `a` and `b` are both finite and their f64
/// difference is at most 2^-52 (`magnitudes_close`), computed on the
/// encodings without rounding error.
pub fn close_magnitudes(a: u64, b: u64) -> (r: bool)
    ensures
        r == magnitudes_close(a, b),
{
    let ma = a % SIGN;
    let mb = b % SIGN;
    if ma / UNIT >= 2047 || mb / UNIT >= 2047 {
        return false;
    }
    let (hi, lo) = if ma >= mb {
        (ma, mb)
    } else {
        (mb, ma)
    };
    proof {
        assert(magnitude_bits(ma) == magnitude_bits(a));
        assert(magnitude_bits(mb) == magnitude_bits(b));
        assert(scaled_magnitude(ma) == scaled_magnitude(a));
        assert(scaled_magnitude(mb) == scaled_magnitude(b));
        assert(magnitude_bits(hi) == hi && magnitude_bits(lo) == lo);
        lemma_close_split(hi, lo);
    }
    let eh = hi / UNIT;
    let el = lo / UNIT;
    let sh: u64 = if eh == 0 {
        hi % UNIT
    } else {
        hi % UNIT + UNIT
    };
    let sl: u64 = if el == 0 {
        lo % UNIT
    } else {
        lo % UNIT + UNIT
    };
    let kh: u64 = if eh == 0 {
        0
    } else {
        eh - 1
    };
    let kl: u64 = if el == 0 {
        0
    } else {
        el - 1
    };
    let ghost full0 = scaled_magnitude(hi) - scaled_magnitude(lo);
    proof {
        assert(sh == significand(hi) && sl == significand(lo));
        assert(kh == scale(hi) && kl == scale(lo));
    }
    if kh - kl >= 54 {
        proof {
            assert((full0 <= scaled_epsilon() + scaled_half_gap()) == (hi <= EPSILON_BITS));
        }
        return hi <= EPSILON_BITS;
    }
    let shift = pow2_wide((kh - kl) as u32);
    proof {
        let d = (kh - kl) as nat;
        lemma2_to64();
        lemma2_to64_rest();
        if d < 53 {
            lemma_pow2_strictly_increases(d, 53);
        }
        assert(shift <= 0x20_0000_0000_0000);
        lemma_pow2_pos(d);
        lemma_mul_strict_inequality(sh as int, 0x20_0000_0000_0000, shift as int);
        lemma_mul_inequality(shift as int, 0x20_0000_0000_0000, 0x20_0000_0000_0000);
        lemma_mul_is_commutative(sh as int, shift as int);
        assert(sh * shift < 0x400_0000_0000_0000_0000_0000_0000u128);
        lemma_pow2_pos(kl as nat);
        if sh * shift - sl < 0 {
            lemma_mul_strictly_positive(sl - sh * shift, pow2(kl as nat) as int);
            lemma_mul_unary_negation(sl - sh * shift, pow2(kl as nat) as int);
        }
    }
    let diff: u128 = (sh as u128) * shift - (sl as u128);
    let ghost full = scaled_magnitude(hi) - scaled_magnitude(lo);
    let ghost pl = pow2(kl as nat) as int;
    proof {
        assert(full == diff * pl);
    }
    proof {
        lemma_pow2_strictly_increases(969, 1022);
    }
    if kl > 1022 {
        proof {
            lemma_pow2_unfold(1023);
            if kl > 1023 {
                lemma_pow2_strictly_increases(1023, kl as nat);
            }
            if diff > 0 {
                lemma_mul_inequality(1, diff as int, pl);
            } else {
                lemma_mul_by_zero_is_zero(pl);
            }
            assert((full <= scaled_epsilon() + scaled_half_gap()) == (diff == 0));
        }
        diff == 0
    } else if kl <= 915 {
        proof {
            lemma_pow2_adds((1022 - kl) as nat, kl as nat);
            lemma_pow2_strictly_increases(106, (1022 - kl) as nat);
            lemma_pow2_adds(53, 53);
            lemma2_to64();
            lemma2_to64_rest();
            assert(pow2(106) == 0x400_0000_0000_0000_0000_0000_0000u128);
            lemma_mul_inequality(diff as int, pow2((1022 - kl) as nat) as int, pl);
            lemma_pow2_pos(969);
            assert(full <= scaled_epsilon() + scaled_half_gap());
        }
        true
    } else if kl <= 969 {
        let upper = pow2_wide((1022 - kl) as u32);
        let lower = pow2_wide((969 - kl) as u32);
        proof {
            lemma_pow2_strictly_increases((1022 - kl) as nat, 107);
            lemma_pow2_strictly_increases((969 - kl) as nat, 107);
            lemma_pow2_adds(53, 54);
            lemma_pow2_adds(43, 64);
            lemma2_to64();
            lemma2_to64_rest();
            assert(pow2(107) == 0x800_0000_0000_0000_0000_0000_0000u128);
        }
        let limit = upper + lower;
        proof {
            lemma_pow2_adds((1022 - kl) as nat, kl as nat);
            lemma_pow2_adds((969 - kl) as nat, kl as nat);
            lemma_mul_is_distributive_add_other_way(
                pl,
                pow2((1022 - kl) as nat) as int,
                pow2((969 - kl) as nat) as int,
            );
            if diff <= limit {
                lemma_mul_inequality(diff as int, limit as int, pl);
            } else {
                lemma_mul_strict_inequality(limit as int, diff as int, pl);
            }
        }
        diff <= limit
    } else {
        let limit = pow2_wide((1022 - kl) as u32);
        proof {
            lemma_pow2_adds((1022 - kl) as nat, kl as nat);
            lemma_pow2_strictly_increases(969, kl as nat);
            if diff <= limit {
                lemma_mul_inequality(diff as int, limit as int, pl);
            } else {
                lemma_mul_inequality(limit + 1, diff as int, pl);
                lemma_mul_is_distributive_add_other_way(pl, limit as int, 1);
            }
        }
        diff <= limit
    }
}

} // verus!
