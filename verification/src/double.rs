//! A model of IEEE-754 double-precision values by their 64-bit patterns.
//!
//! The runtime stores a double as its raw bit pattern (`u64`).  This module
//! gives that pattern a mathematical reading: every non-NaN pattern denotes
//! the integer `val_scaled(b)`, which is the real value of the double
//! multiplied by 2^1074 (the scale that makes the smallest subnormal equal
//! to 1).  Classification, the language's total ordering of doubles, the
//! canonical hash of a double, and exact conversion between doubles and
//! 32-bit integers are all defined and verified against that reading.

use vstd::prelude::*;
use vstd::arithmetic::power2::{pow2, lemma_pow2_adds, lemma_pow2_pos, lemma_pow2_strictly_increases, lemma2_to64, lemma2_to64_rest};
use vstd::arithmetic::div_mod::{lemma_fundamental_div_mod, lemma_fundamental_div_mod_converse, lemma_div_denominator};
use vstd::arithmetic::mul::{lemma_mul_inequality, lemma_mul_strict_inequality, lemma_mul_strictly_positive, lemma_mul_is_distributive_add_other_way};
use core::cmp::Ordering;

verus! {

/// 2^52: the first bit above the 52-bit fraction field.
pub const FRAC_LIM: u64 = 0x10_0000_0000_0000;

/// 2^63: the divisor that isolates the sign bit.
pub const SIGN_DIV: u64 = 0x8000_0000_0000_0000;

/// The all-ones biased exponent, reserved for infinities and NaNs.
pub const EXP_SPECIAL: u64 = 0x7ff;

/// The sign bit of the pattern.
pub open spec fn sign_bit(b: u64) -> bool {
    b / SIGN_DIV == 1
}

/// The 11-bit biased exponent field.
pub open spec fn biased_exp(b: u64) -> u64 {
    (b / FRAC_LIM) % 0x800
}

/// The 52-bit fraction field.
pub open spec fn fraction(b: u64) -> u64 {
    b % FRAC_LIM
}

pub open spec fn is_nan(b: u64) -> bool {
    biased_exp(b) == EXP_SPECIAL && fraction(b) != 0
}

pub open spec fn is_inf(b: u64) -> bool {
    biased_exp(b) == EXP_SPECIAL && fraction(b) == 0
}

pub open spec fn is_finite(b: u64) -> bool {
    biased_exp(b) != EXP_SPECIAL
}

/// Positive or negative zero.
pub open spec fn is_zero(b: u64) -> bool {
    biased_exp(b) == 0 && fraction(b) == 0
}

/// The magnitude of the denoted value, times 2^1074.  Subnormals have the
/// fraction itself as magnitude; normal patterns carry an implicit leading
/// bit.  Applying the normal formula to the all-ones exponent places the
/// infinities above every finite value, which is exactly their order.
pub open spec fn mag_scaled(b: u64) -> int {
    if biased_exp(b) == 0 {
        fraction(b) as int
    } else {
        ((FRAC_LIM + fraction(b)) as int) * (pow2((biased_exp(b) - 1) as nat) as int)
    }
}

/// The denoted value times 2^1074, for every non-NaN pattern.
pub open spec fn val_scaled(b: u64) -> int {
    if sign_bit(b) {
        -mag_scaled(b)
    } else {
        mag_scaled(b)
    }
}

/// The language's total order on doubles: every NaN is one single value,
/// placed above everything else; both zeros are one value; otherwise the
/// denoted values decide.
pub open spec fn float_cmp_spec(a: u64, b: u64) -> Ordering {
    if is_nan(a) && is_nan(b) {
        Ordering::Equal
    } else if is_nan(a) {
        Ordering::Greater
    } else if is_nan(b) {
        Ordering::Less
    } else if val_scaled(a) < val_scaled(b) {
        Ordering::Less
    } else if val_scaled(a) > val_scaled(b) {
        Ordering::Greater
    } else {
        Ordering::Equal
    }
}

/// The canonical 64-bit hash of a double: all NaNs collapse to 0, the two
/// infinities to all-ones, the two zeros to the pattern of positive zero;
/// every other double hashes to its own bit pattern.
pub open spec fn float_hash_spec(b: u64) -> u64 {
    if is_nan(b) {
        0
    } else if is_inf(b) {
        0xffff_ffff_ffff_ffff
    } else if is_zero(b) {
        0
    } else {
        b
    }
}

/// Every pattern is exactly its sign, exponent and fraction fields.
pub proof fn lemma_fields(b: u64)
    ensures
        b == (if sign_bit(b) { SIGN_DIV as int } else { 0 }) + (biased_exp(b) as int) * (FRAC_LIM as int) + fraction(b),
        fraction(b) < FRAC_LIM,
        biased_exp(b) < 0x800,
        b / SIGN_DIV == 0 || b / SIGN_DIV == 1,
{
    let f = FRAC_LIM as int;
    lemma_fundamental_div_mod(b as int, f);
    let q = b as int / f;
    lemma_div_denominator(b as int, f, 0x800);
    lemma_fundamental_div_mod(q, 0x800);
    assert(b as int / (SIGN_DIV as int) == q / 0x800);
    assert(q < 0x1000) by {
        vstd::arithmetic::div_mod::lemma_multiply_divide_lt(b as int, 0x1000, f);
    };
    assert(q / 0x800 == 0 || q / 0x800 == 1) by {
        vstd::arithmetic::div_mod::lemma_multiply_divide_lt(q, 2, 0x800);
        vstd::arithmetic::div_mod::lemma_div_pos_is_pos(q, 0x800);
        if q < 0x800 {
            vstd::arithmetic::div_mod::lemma_basic_div(q, 0x800);
        } else {
            assert(q / 0x800 >= 1) by {
                vstd::arithmetic::div_mod::lemma_div_is_ordered(0x800, q, 0x800);
                vstd::arithmetic::div_mod::lemma_div_by_self(0x800);
            };
        }
    };
}

/// Patterns with the same fields are the same pattern.
pub proof fn lemma_fields_inject(a: u64, b: u64)
    requires
        sign_bit(a) == sign_bit(b),
        biased_exp(a) == biased_exp(b),
        fraction(a) == fraction(b),
    ensures
        a == b,
{
    lemma_fields(a);
    lemma_fields(b);
}

/// Assembling fields yields a pattern that reads back field by field.
pub proof fn lemma_build(s: bool, e: u64, f: u64)
    requires
        e < 0x800,
        f < FRAC_LIM,
    ensures
        ({
            let b = (if s { SIGN_DIV as int } else { 0 }) + (e as int) * (FRAC_LIM as int) + f;
            &&& 0 <= b < 0x1_0000_0000_0000_0000
            &&& sign_bit(b as u64) == s
            &&& biased_exp(b as u64) == e
            &&& fraction(b as u64) == f
        }),
{
    let fl = FRAC_LIM as int;
    let sv = if s { 1int } else { 0int };
    let b = sv * (SIGN_DIV as int) + (e as int) * fl + f;
    assert(sv * (SIGN_DIV as int) == (sv * 0x800) * fl) by {
        vstd::arithmetic::mul::lemma_mul_is_associative(sv, 0x800, fl);
    };
    assert(b == (sv * 0x800 + e) * fl + f) by {
        lemma_mul_is_distributive_add_other_way(fl, sv * 0x800, e as int);
    };
    assert(0 <= b < 0x1_0000_0000_0000_0000);
    let bu = b as u64;
    lemma_fundamental_div_mod_converse(b, fl, sv * 0x800 + e, f as int);
    assert(fraction(bu) == f);
    assert(bu as int / fl == sv * 0x800 + e);
    lemma_fundamental_div_mod_converse(sv * 0x800 + e, 0x800, sv, e as int);
    assert(biased_exp(bu) == e);
    lemma_div_denominator(b, fl, 0x800);
    assert(bu as int / (SIGN_DIV as int) == sv);
}

/// A strictly larger (exponent, fraction) pair denotes a strictly larger
/// magnitude.
pub proof fn lemma_mag_lt(a: u64, b: u64)
    requires
        biased_exp(a) < biased_exp(b) || (biased_exp(a) == biased_exp(b) && fraction(a) < fraction(b)),
    ensures
        mag_scaled(a) < mag_scaled(b),
{
    lemma_fields(a);
    lemma_fields(b);
    let fl = FRAC_LIM as int;
    let ea = biased_exp(a) as int;
    let eb = biased_exp(b) as int;
    let fa = fraction(a) as int;
    let fb = fraction(b) as int;
    if ea == eb {
        if ea == 0 {
        } else {
            lemma_pow2_pos((ea - 1) as nat);
            lemma_mul_strict_inequality(fl + fa, fl + fb, pow2((ea - 1) as nat) as int);
        }
    } else {
        // ea < eb, so b is normal.
        let pb = pow2((eb - 1) as nat) as int;
        lemma_pow2_pos((eb - 1) as nat);
        if ea == 0 {
            // mag(a) = fa < 2^52 <= (2^52 + fb) * 2^(eb-1)
            assert(fl <= fl * pb) by {
                vstd::arithmetic::mul::lemma_mul_increases(pb, fl);
                vstd::arithmetic::mul::lemma_mul_is_commutative(pb, fl);
            };
            lemma_mul_inequality(fl, fl + fb, pb);
        } else {
            // mag(a) = (2^52 + fa) * 2^(ea-1) < 2^53 * 2^(ea-1) = 2^(ea+52)
            //        <= 2^(eb+51) = 2^52 * 2^(eb-1) <= (2^52 + fb) * 2^(eb-1)
            let pa = pow2((ea - 1) as nat) as int;
            lemma_pow2_pos((ea - 1) as nat);
            lemma2_to64();
            lemma2_to64_rest();
            assert((fl + fa) * pa < (2 * fl) * pa) by {
                lemma_mul_strict_inequality(fl + fa, 2 * fl, pa);
            };
            assert((2 * fl) * pa == pow2((ea + 52) as nat)) by {
                lemma_pow2_adds(53, (ea - 1) as nat);
                assert(2 * fl == pow2(53));
            };
            assert(pow2((ea + 52) as nat) <= pow2((eb + 51) as nat)) by {
                if ea + 52 < eb + 51 {
                    lemma_pow2_strictly_increases((ea + 52) as nat, (eb + 51) as nat);
                }
            };
            assert(pow2((eb + 51) as nat) == fl * pb) by {
                lemma_pow2_adds(52, (eb - 1) as nat);
                assert(fl == pow2(52));
            };
            assert(fl * pb <= (fl + fb) * pb) by {
                lemma_mul_inequality(fl, fl + fb, pb);
            };
        }
    }
}

/// The magnitude is zero exactly for the two zero patterns.
pub proof fn lemma_mag_zero(b: u64)
    ensures
        mag_scaled(b) == 0 <==> is_zero(b),
        mag_scaled(b) >= 0,
{
    lemma_fields(b);
    if biased_exp(b) != 0 {
        lemma_pow2_pos((biased_exp(b) - 1) as nat);
        lemma_mul_strictly_positive((FRAC_LIM + fraction(b)) as int, pow2((biased_exp(b) - 1) as nat) as int);
    }
}

/// Equal non-NaN scaled values come from the same pattern, except that the
/// two zeros share the value 0.
pub proof fn lemma_val_unique(a: u64, b: u64)
    requires
        val_scaled(a) == val_scaled(b),
    ensures
        a == b || (is_zero(a) && is_zero(b)),
{
    lemma_mag_zero(a);
    lemma_mag_zero(b);
    if val_scaled(a) == 0 {
        assert(is_zero(a) && is_zero(b));
    } else {
        assert(sign_bit(a) == sign_bit(b));
        assert(mag_scaled(a) == mag_scaled(b));
        if biased_exp(a) < biased_exp(b) || (biased_exp(a) == biased_exp(b) && fraction(a) < fraction(b)) {
            lemma_mag_lt(a, b);
        } else if biased_exp(b) < biased_exp(a) || (biased_exp(a) == biased_exp(b) && fraction(b) < fraction(a)) {
            lemma_mag_lt(b, a);
        }
        lemma_fields_inject(a, b);
    }
}

/// Extracts (sign, biased exponent, fraction) from a pattern.
pub fn fields(b: u64) -> (r: (bool, u64, u64))
    ensures
        r.0 == sign_bit(b),
        r.1 == biased_exp(b),
        r.2 == fraction(b),
{
    (b / SIGN_DIV == 1, (b / FRAC_LIM) % 0x800, b % FRAC_LIM)
}

/// The canonical 64-bit hash of a double, from its pattern.
pub fn float_hash(b: u64) -> (r: u64)
    ensures
        r == float_hash_spec(b),
{
    let (_, e, f) = fields(b);
    if e == EXP_SPECIAL {
        if f != 0 {
            0
        } else {
            0xffff_ffff_ffff_ffff
        }
    } else if e == 0 && f == 0 {
        0
    } else {
        b
    }
}

/// Compares two doubles in the language's total order.
pub fn f64_total_cmp(a: u64, b: u64) -> (r: Ordering)
    ensures
        r == float_cmp_spec(a, b),
{
    let (sa, ea, fa) = fields(a);
    let (sb, eb, fb) = fields(b);
    let nan_a = ea == EXP_SPECIAL && fa != 0;
    let nan_b = eb == EXP_SPECIAL && fb != 0;
    if nan_a && nan_b {
        Ordering::Equal
    } else if nan_a {
        Ordering::Greater
    } else if nan_b {
        Ordering::Less
    } else {
        proof {
            lemma_mag_zero(a);
            lemma_mag_zero(b);
        }
        let zero_a = ea == 0 && fa == 0;
        let zero_b = eb == 0 && fb == 0;
        if zero_a && zero_b {
            Ordering::Equal
        } else if zero_a {
            if sb {
                Ordering::Greater
            } else {
                Ordering::Less
            }
        } else if zero_b {
            if sa {
                Ordering::Less
            } else {
                Ordering::Greater
            }
        } else if sa != sb {
            if sa {
                Ordering::Less
            } else {
                Ordering::Greater
            }
        } else {
            let mag_r = if ea < eb || (ea == eb && fa < fb) {
                proof {
                    lemma_mag_lt(a, b);
                }
                Ordering::Less
            } else if ea == eb && fa == fb {
                Ordering::Equal
            } else {
                proof {
                    lemma_mag_lt(b, a);
                }
                Ordering::Greater
            };
            if sa {
                match mag_r {
                    Ordering::Less => Ordering::Greater,
                    Ordering::Equal => Ordering::Equal,
                    Ordering::Greater => Ordering::Less,
                }
            } else {
                mag_r
            }
        }
    }
}

/// The number of binary digits of `m` (0 for 0).
pub open spec fn bit_len(m: nat) -> nat
    decreases m,
{
    if m == 0 {
        0
    } else {
        1 + bit_len(m / 2)
    }
}

/// The double whose value is exactly the 32-bit integer `i`, as a pattern.
pub open spec fn enc_i32(i: int) -> u64 {
    if i == 0 {
        0u64
    } else {
        let m = if i < 0 {
            -i
        } else {
            i
        };
        let eu = (bit_len(m as nat) - 1) as nat;
        let f = m * (pow2((52 - eu) as nat) as int) - FRAC_LIM;
        let e = eu + 1023;
        ((if i < 0 {
            SIGN_DIV as int
        } else {
            0int
        }) + (e as int) * (FRAC_LIM as int) + f) as u64
    }
}

/// The unique 32-bit integer whose value the pattern denotes exactly,
/// if there is one.  Both zeros convert to 0.
pub open spec fn exact_i32_spec(b: u64) -> Option<i32> {
    let e = biased_exp(b);
    let f = fraction(b);
    if e == EXP_SPECIAL {
        Option::None
    } else if e == 0 {
        if f == 0 {
            Option::Some(0i32)
        } else {
            Option::None
        }
    } else if e < 1023 || e > 1054 {
        Option::None
    } else if e == 1054 {
        if sign_bit(b) && f == 0 {
            Option::Some(i32::MIN)
        } else {
            Option::None
        }
    } else {
        let sh = (1075 - e) as nat;
        if f as int % (pow2(sh) as int) == 0 {
            let m = ((FRAC_LIM + f) as int) / (pow2(sh) as int);
            if sign_bit(b) {
                Option::Some((-m) as i32)
            } else {
                Option::Some(m as i32)
            }
        } else {
            Option::None
        }
    }
}

pub proof fn lemma_bit_len(m: nat)
    requires
        m > 0,
    ensures
        bit_len(m) >= 1,
        pow2((bit_len(m) - 1) as nat) <= m < pow2(bit_len(m)),
    decreases m,
{
    lemma2_to64();
    if m == 1 {
        assert(bit_len(1nat) == 1 + bit_len(0nat));
    } else {
        lemma_bit_len(m / 2);
        let l = bit_len(m / 2);
        lemma_fundamental_div_mod(m as int, 2);
        assert(pow2((l + 1 - 1) as nat) == 2 * pow2((l - 1) as nat)) by {
            lemma_pow2_adds(1, (l - 1) as nat);
        };
        assert(pow2(l + 1) == 2 * pow2(l)) by {
            lemma_pow2_adds(1, l);
        };
    }
}

/// In the middle exponent band the recovered integer is positive and fits
/// strictly below 2^31.
proof fn lemma_mid_m_bound(b: u64)
    requires
        1023 <= biased_exp(b) < 1054,
    ensures
        ({
            let sh = (1075 - biased_exp(b)) as nat;
            let m = ((FRAC_LIM + fraction(b)) as int) / (pow2(sh) as int);
            0 < m < 0x8000_0000
        }),
{
    lemma_fields(b);
    let e = biased_exp(b) as int;
    let f = fraction(b) as int;
    let sh = (1075 - e) as nat;
    let p = pow2(sh) as int;
    lemma_pow2_pos(sh);
    let m = (FRAC_LIM as int + f) / p;
    lemma2_to64();
    lemma2_to64_rest();
    // FRAC_LIM + f < 2^53 = 2^(53-sh) * 2^sh, so m < 2^(53-sh) <= 2^31.
    assert(pow2(53) == pow2((53 - sh) as nat) * p) by {
        lemma_pow2_adds((53 - sh) as nat, sh);
    };
    assert(m < pow2((53 - sh) as nat)) by {
        vstd::arithmetic::mul::lemma_mul_is_commutative(pow2((53 - sh) as nat) as int, p);
        vstd::arithmetic::div_mod::lemma_multiply_divide_lt(FRAC_LIM as int + f, p, pow2((53 - sh) as nat) as int);
    };
    assert(pow2((53 - sh) as nat) <= pow2(31)) by {
        if 53 - sh < 31 {
            lemma_pow2_strictly_increases((53 - sh) as nat, 31);
        }
    };
    // FRAC_LIM = 2^(52-sh) * 2^sh, so m >= 2^(52-sh) >= 1.
    assert(FRAC_LIM as int == pow2((52 - sh) as nat) * p) by {
        lemma_pow2_adds((52 - sh) as nat, sh);
    };
    assert(m >= pow2((52 - sh) as nat)) by {
        vstd::arithmetic::mul::lemma_mul_is_commutative(pow2((52 - sh) as nat) as int, p);
        vstd::arithmetic::div_mod::lemma_div_multiples_vanish(pow2((52 - sh) as nat) as int, p);
        vstd::arithmetic::div_mod::lemma_div_is_ordered((pow2((52 - sh) as nat) * p) as int, FRAC_LIM as int + f, p);
    };
    lemma_pow2_pos((52 - sh) as nat);
}

/// What a successful exact conversion says about the pattern: it is finite
/// and denotes exactly the returned integer.
pub proof fn lemma_dec_val(b: u64, j: i32)
    requires
        exact_i32_spec(b) == Option::Some(j),
    ensures
        is_finite(b),
        val_scaled(b) == j * pow2(1074),
{
    lemma_fields(b);
    lemma2_to64();
    lemma2_to64_rest();
    let e = biased_exp(b) as int;
    let f = fraction(b) as int;
    if e == 0 {
        assert(j == 0);
    } else if e == 1054 {
        // mag = 2^52 * 2^1053 = 2^31 * 2^1074; the value is -2^31.
        assert(mag_scaled(b) == (FRAC_LIM as int) * (pow2(1053) as int));
        assert((FRAC_LIM as int) * (pow2(1053) as int) == pow2(1105)) by {
            lemma_pow2_adds(52, 1053);
        };
        assert(pow2(1105) == pow2(31) * pow2(1074)) by {
            lemma_pow2_adds(31, 1074);
        };
        assert(val_scaled(b) == -(pow2(31) as int * pow2(1074) as int));
        assert(-(pow2(31) as int * pow2(1074) as int) == (j as int) * (pow2(1074) as int)) by {
            assert(j as int == -(pow2(31) as int));
            vstd::arithmetic::mul::lemma_mul_unary_negation(pow2(31) as int, pow2(1074) as int);
        };
    } else {
        let sh = (1075 - e) as nat;
        let p = pow2(sh) as int;
        lemma_pow2_pos(sh);
        let m = (FRAC_LIM as int + f) / p;
        lemma_mid_m_bound(b);
        // FRAC_LIM + f is divisible by 2^sh.
        assert((FRAC_LIM as int) % p == 0) by {
            lemma_pow2_adds((52 - sh) as nat, sh);
            vstd::arithmetic::div_mod::lemma_mod_multiples_basic(pow2((52 - sh) as nat) as int, p);
        };
        assert((FRAC_LIM as int + f) % p == 0) by {
            vstd::arithmetic::div_mod::lemma_add_mod_noop(FRAC_LIM as int, f, p);
            vstd::arithmetic::div_mod::lemma_small_mod(0, p as nat);
        };
        assert(FRAC_LIM as int + f == m * p) by {
            lemma_fundamental_div_mod(FRAC_LIM as int + f, p);
        };
        // mag = m * 2^sh * 2^(e-1) = m * 2^1074.
        assert(mag_scaled(b) == (m * p) * (pow2((e - 1) as nat) as int));
        assert((m * p) * (pow2((e - 1) as nat) as int) == m * (p * pow2((e - 1) as nat) as int)) by {
            vstd::arithmetic::mul::lemma_mul_is_associative(m, p, pow2((e - 1) as nat) as int);
        };
        assert(p * pow2((e - 1) as nat) as int == pow2(1074) as int) by {
            lemma_pow2_adds(sh, (e - 1) as nat);
        };
        if sign_bit(b) {
            assert(j as int == -m);
            assert(val_scaled(b) == -(m * (pow2(1074) as int)));
            vstd::arithmetic::mul::lemma_mul_unary_negation(m, pow2(1074) as int);
        } else {
            assert(j as int == m);
        }
    }
}

/// Encoding a 32-bit integer gives a finite pattern that denotes exactly
/// that integer and converts back to it.
pub proof fn lemma_enc_i32(i: int)
    requires
        crate::in_i32_range(i),
    ensures
        ({
            let b = enc_i32(i);
            &&& is_finite(b)
            &&& !is_nan(b)
            &&& val_scaled(b) == i * pow2(1074)
            &&& sign_bit(b) == (i < 0)
            &&& (is_zero(b) <==> i == 0)
            &&& exact_i32_spec(b) == Option::Some(i as i32)
        }),
{
    lemma2_to64();
    lemma2_to64_rest();
    if i == 0 {
        assert(0u64 / SIGN_DIV == 0 && 0u64 / FRAC_LIM == 0 && 0u64 % FRAC_LIM == 0) by {
            vstd::arithmetic::div_mod::lemma_div_of0(SIGN_DIV as int);
            vstd::arithmetic::div_mod::lemma_div_of0(FRAC_LIM as int);
            vstd::arithmetic::div_mod::lemma_small_mod(0, FRAC_LIM as nat);
            vstd::arithmetic::div_mod::lemma_small_mod(0, 0x800nat);
        };
        assert(val_scaled(0u64) == 0);
    } else {
        let m = if i < 0 { -i } else { i };
        assert(1 <= m <= 0x8000_0000);
        lemma_bit_len(m as nat);
        let l = bit_len(m as nat);
        // 2^(l-1) <= m <= 2^31 bounds l - 1 by 31.
        assert(l - 1 <= 31) by {
            if l - 1 > 31 {
                lemma_pow2_strictly_increases(32, (l - 1) as nat);
            }
        };
        let eu = (l - 1) as nat;
        let psh = pow2((52 - eu) as nat) as int;
        lemma_pow2_pos((52 - eu) as nat);
        let f = m * psh - FRAC_LIM;
        // 2^eu <= m < 2^(eu+1) gives 0 <= f < 2^52.
        assert(f >= 0) by {
            lemma_mul_inequality(pow2(eu) as int, m, psh);
            lemma_pow2_adds(eu, (52 - eu) as nat);
        };
        assert(m * psh < (pow2((eu + 1) as nat) as int) * psh) by {
            lemma_mul_strict_inequality(m, pow2((eu + 1) as nat) as int, psh);
        };
        assert((pow2((eu + 1) as nat) as int) * psh == pow2(53) as int) by {
            lemma_pow2_adds((eu + 1) as nat, (52 - eu) as nat);
        };
        assert(f < FRAC_LIM);
        let e = (eu + 1023) as u64;
        lemma_build(i < 0, e, f as u64);
        let b = enc_i32(i);
        assert(sign_bit(b) == (i < 0) && biased_exp(b) == e && fraction(b) == f);
        // mag = (2^52 + f) * 2^(e-1) = (m * 2^(52-eu)) * 2^(eu+1022) = m * 2^1074.
        assert(mag_scaled(b) == (m * psh) * (pow2((eu + 1022) as nat) as int));
        assert((m * psh) * (pow2((eu + 1022) as nat) as int) == m * (psh * (pow2((eu + 1022) as nat) as int))) by {
            vstd::arithmetic::mul::lemma_mul_is_associative(m, psh, pow2((eu + 1022) as nat) as int);
        };
        assert(psh * (pow2((eu + 1022) as nat) as int) == pow2(1074) as int) by {
            lemma_pow2_adds((52 - eu) as nat, (eu + 1022) as nat);
        };
        if i < 0 {
            vstd::arithmetic::mul::lemma_mul_unary_negation(m, pow2(1074) as int);
        }
        assert(val_scaled(b) == i * pow2(1074));
        assert(mag_scaled(b) > 0) by {
            lemma_pow2_pos((eu + 1022) as nat);
            lemma_mul_strictly_positive(m * psh, pow2((eu + 1022) as nat) as int);
            lemma_mul_strictly_positive(m, psh);
        };
        // Decoding.
        if e == 1054 {
            // eu == 31 forces m == 2^31, so i == i32::MIN.
            assert(m == 0x8000_0000);
            assert(i < 0) by {
                if i > 0 {
                    assert(m <= 0x7fff_ffff);
                }
            };
            assert(f == 0) by {
                lemma_pow2_adds(31, 21);
            };
            assert(exact_i32_spec(b) == Option::Some(i32::MIN));
        } else {
            let sh = (1075 - e) as nat;
            assert(sh == 52 - eu);
            // f = (m - 2^eu) * 2^sh, so f is divisible by 2^sh.
            assert(f == (m - pow2(eu)) * psh) by {
                vstd::arithmetic::mul::lemma_mul_is_distributive_sub_other_way(psh, m, pow2(eu) as int);
                lemma_pow2_adds(eu, (52 - eu) as nat);
            };
            assert(f as int % psh == 0) by {
                vstd::arithmetic::div_mod::lemma_mod_multiples_basic(m - pow2(eu), psh);
            };
            assert(FRAC_LIM as int + f == m * psh);
            assert((m * psh) / psh == m) by {
                vstd::arithmetic::mul::lemma_mul_is_commutative(m, psh);
                vstd::arithmetic::div_mod::lemma_div_multiples_vanish(m, psh);
            };
            assert(exact_i32_spec(b) == Option::Some(i as i32));
        }
    }
}

/// Computes 2^k.
pub fn pow2_u64(k: u64) -> (r: u64)
    requires
        k < 64,
    ensures
        r as nat == pow2(k as nat),
{
    let mut r: u64 = 1;
    let mut j: u64 = 0;
    proof {
        lemma2_to64();
    }
    while j < k
        invariant
            j <= k < 64,
            r as nat == pow2(j as nat),
        decreases k - j,
    {
        proof {
            lemma_pow2_adds(j as nat, 1);
            lemma2_to64();
            if (j + 1) < 64 {
                lemma_pow2_strictly_increases((j + 1) as nat, 64);
            }
            lemma2_to64_rest();
        }
        r = r * 2;
        j = j + 1;
    }
    r
}

/// Converts the pattern to the 32-bit integer it denotes exactly, if any.
/// NaNs, infinities, fractional values and out-of-range magnitudes have
/// none; both zeros convert to 0.
pub fn f64_to_i32_exact_bits(b: u64) -> (r: Option<i32>)
    ensures
        r == exact_i32_spec(b),
{
    let (s, e, f) = fields(b);
    if e == EXP_SPECIAL {
        Option::None
    } else if e == 0 {
        if f == 0 {
            Option::Some(0)
        } else {
            Option::None
        }
    } else if e < 1023 || e > 1054 {
        Option::None
    } else if e == 1054 {
        if s && f == 0 {
            Option::Some(i32::MIN)
        } else {
            Option::None
        }
    } else {
        let sh = 1075 - e;
        let p = pow2_u64(sh);
        proof {
            lemma_pow2_pos(sh as nat);
        }
        if f % p == 0 {
            proof {
                lemma_fields(b);
                lemma_mid_m_bound(b);
            }
            let m = (FRAC_LIM + f) / p;
            if s {
                Option::Some((-(m as i64)) as i32)
            } else {
                Option::Some(m as i32)
            }
        } else {
            Option::None
        }
    }
}

/// Encodes a 32-bit integer as the pattern of the double with that exact
/// value.
pub fn i32_to_f64_bits(i: i32) -> (r: u64)
    ensures
        r == enc_i32(i as int),
{
    if i == 0 {
        return 0;
    }
    let neg = i < 0;
    let m: u64 = if neg {
        (-(i as i64)) as u64
    } else {
        i as u64
    };
    proof {
        lemma_bit_len(m as nat);
        lemma2_to64();
        if bit_len(m as nat) - 1 > 31 {
            lemma_pow2_strictly_increases(32, (bit_len(m as nat) - 1) as nat);
        }
    }
    let mut t: u64 = m;
    let mut eu: u64 = 0;
    while t >= 2
        invariant
            1 <= t <= m,
            bit_len(t as nat) + eu == bit_len(m as nat),
            bit_len(m as nat) <= 32,
        decreases t,
    {
        proof {
            assert(bit_len(t as nat) == 1 + bit_len((t / 2) as nat));
        }
        t = t / 2;
        eu = eu + 1;
    }
    proof {
        assert(bit_len(1nat) == 1 + bit_len(0nat));
        assert(eu == bit_len(m as nat) - 1);
        lemma_bit_len(m as nat);
    }
    let p = pow2_u64(52 - eu);
    proof {
        let psh = pow2((52 - eu) as nat) as int;
        lemma_pow2_pos((52 - eu) as nat);
        assert((m as int) * psh >= FRAC_LIM) by {
            lemma_mul_inequality(pow2(eu as nat) as int, m as int, psh);
            lemma_pow2_adds(eu as nat, (52 - eu) as nat);
            lemma2_to64();
            lemma2_to64_rest();
        };
        assert((m as int) * psh < 2 * FRAC_LIM) by {
            lemma_mul_strict_inequality(m as int, pow2((eu + 1) as nat) as int, psh);
            lemma_pow2_adds((eu + 1) as nat, (52 - eu) as nat);
            lemma2_to64_rest();
        };
    }
    let f = m * p - FRAC_LIM;
    let e = eu + 1023;
    let r = (if neg {
        SIGN_DIV
    } else {
        0
    }) + e * FRAC_LIM + f;
    proof {
        assert(e * FRAC_LIM == (e as int) * (FRAC_LIM as int));
        assert(r == enc_i32(i as int));
    }
    r
}

} // verus!
