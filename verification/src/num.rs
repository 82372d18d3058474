//! The unified numeric value.
//!
//! A `Num` presents 32-bit integers, arbitrary-precision integers and
//! doubles as one domain with a single total equality, a single total
//! order, and a hash that agrees with the equality — the language's laws,
//! not the machine's partial float comparison.

use vstd::prelude::*;
use core::cmp::Ordering;
use crate::bignum::{big_value, f64_bits_of_int, big_cmp, big_is_negative, big_to_i32, big_to_f64_bits};
use crate::double::{enc_i32, exact_i32_spec, float_cmp_spec, float_hash_spec, f64_total_cmp, float_hash, i32_to_f64_bits, f64_to_i32_exact_bits};
use crate::value::RuntimeValue;

verus! {

/// A read-only view of an integer value: inline 32-bit, or a borrowed
/// arbitrary-precision integer (whose storage is never copied).
#[derive(Clone, Copy, Debug)]
pub enum IntRef<'v> {
    Small(i32),
    Big(&'v num_bigint::BigInt),
}

impl<'v> IntRef<'v> {
    /// The integer this view denotes.
    pub open spec fn value(self) -> int {
        match self {
            IntRef::Small(i) => i as int,
            IntRef::Big(b) => big_value(*b),
        }
    }

    /// The upstream representation invariant: a big integer never holds a
    /// value that fits in 32 bits.
    pub open spec fn wf(self) -> bool {
        match self {
            IntRef::Small(_) => true,
            IntRef::Big(b) => !crate::in_i32_range(big_value(*b)),
        }
    }
}

/// A numeric value unpacked from a runtime value: an integer view or a
/// double (by its bit pattern).  Transient and cheap to copy.
#[derive(Clone, Copy, Debug)]
pub enum Num<'v> {
    Int(IntRef<'v>),
    Float(u64),
}

/// The ordering of two integers.
pub open spec fn int_cmp_sp(x: int, y: int) -> Ordering {
    if x < y {
        Ordering::Less
    } else if x == y {
        Ordering::Equal
    } else {
        Ordering::Greater
    }
}

/// A 32-bit integer widened to 64 bits with its sign kept: the two's
/// complement pattern read as unsigned.
pub open spec fn u64_sext(i: i32) -> u64 {
    if i >= 0 {
        i as u64
    } else {
        (i + 0x1_0000_0000_0000_0000) as u64
    }
}

/// Folds the 64-bit hash into the runtime's 32-bit hash representation.
pub open spec fn fold_hash_sp(h: u64) -> u32 {
    (((h >> 32u64) ^ h) & 0xffff_ffffu64) as u32
}

fn sext_u64(i: i32) -> (r: u64)
    ensures
        r == u64_sext(i),
{
    if i >= 0 {
        i as u64
    } else {
        let lo = (i as i64) + 0x1_0000_0000;
        0xffff_ffff_0000_0000u64 + (lo as u64)
    }
}

/// Compares two integer views exactly, at arbitrary precision.
fn int_ref_cmp(a: IntRef, b: IntRef) -> (r: Ordering)
    ensures
        r == int_cmp_sp(a.value(), b.value()),
{
    match (a, b) {
        (IntRef::Small(x), IntRef::Small(y)) => {
            if x < y {
                Ordering::Less
            } else if x == y {
                Ordering::Equal
            } else {
                Ordering::Greater
            }
        },
        (IntRef::Small(x), IntRef::Big(bb)) => {
            match big_to_i32(bb) {
                Option::Some(j) => {
                    if x < j {
                        Ordering::Less
                    } else if x == j {
                        Ordering::Equal
                    } else {
                        Ordering::Greater
                    }
                },
                Option::None => {
                    if big_is_negative(bb) {
                        Ordering::Greater
                    } else {
                        Ordering::Less
                    }
                },
            }
        },
        (IntRef::Big(bb), IntRef::Small(y)) => {
            match big_to_i32(bb) {
                Option::Some(j) => {
                    if j < y {
                        Ordering::Less
                    } else if j == y {
                        Ordering::Equal
                    } else {
                        Ordering::Greater
                    }
                },
                Option::None => {
                    if big_is_negative(bb) {
                        Ordering::Less
                    } else {
                        Ordering::Greater
                    }
                },
            }
        },
        (IntRef::Big(x), IntRef::Big(y)) => big_cmp(x, y),
    }
}

impl<'v> Num<'v> {
    /// The invariant inherited from the integer representation.
    pub open spec fn wf(self) -> bool {
        match self {
            Num::Int(ir) => ir.wf(),
            Num::Float(_) => true,
        }
    }

    /// The pattern of this value widened to a double: exact for 32-bit
    /// integers and for floats, possibly lossy for big integers.
    pub open spec fn as_float_sp(self) -> u64 {
        match self {
            Num::Int(IntRef::Small(i)) => enc_i32(i as int),
            Num::Int(IntRef::Big(b)) => f64_bits_of_int(big_value(*b)),
            Num::Float(b) => b,
        }
    }

    /// The exact 32-bit integer this value denotes, if any.
    pub open spec fn as_int_sp(self) -> Option<i32> {
        match self {
            Num::Int(IntRef::Small(i)) => Option::Some(i),
            Num::Int(IntRef::Big(_)) => Option::None,
            Num::Float(b) => exact_i32_spec(b),
        }
    }

    /// The language's equality: exact between integers; otherwise both
    /// sides widen to doubles and compare in the total float order (so NaN
    /// equals itself).
    pub open spec fn eq_sp(self, other: Num<'v>) -> bool {
        match (self, other) {
            (Num::Int(a), Num::Int(b)) => a.value() == b.value(),
            _ => float_cmp_spec(self.as_float_sp(), other.as_float_sp()) == Ordering::Equal,
        }
    }

    /// The language's total order: exact between integers; otherwise the
    /// total float order on the widened sides.
    pub open spec fn cmp_sp(self, other: Num<'v>) -> Ordering {
        match (self, other) {
            (Num::Int(a), Num::Int(b)) => int_cmp_sp(a.value(), b.value()),
            _ => float_cmp_spec(self.as_float_sp(), other.as_float_sp()),
        }
    }

    /// The 64-bit hash: the sign-extended integer when the value is
    /// exactly a 32-bit integer, else the canonical float hash of the
    /// widened value.
    pub open spec fn hash64_sp(self) -> u64 {
        match self.as_int_sp() {
            Option::Some(i) => u64_sext(i),
            Option::None => match self {
                Num::Float(b) => float_hash_spec(b),
                Num::Int(ir) => float_hash_spec(f64_bits_of_int(ir.value())),
            },
        }
    }

    /// Unpacks a numeric view from a runtime value: an integer of any
    /// width or a float; anything else is absent.
    pub fn unpack_value(value: &'v RuntimeValue) -> (r: Option<Num<'v>>)
        ensures
            match *value {
                RuntimeValue::Int(i) => r == Option::Some(Num::Int(IntRef::Small(i))),
                RuntimeValue::Big(b) => r matches Option::Some(n) && n matches Num::Int(ir)
                    && ir matches IntRef::Big(p) && big_value(*p) == big_value(b),
                RuntimeValue::Float(f) => r == Option::Some(Num::Float(f)),
                _ => r is None,
            },
            value.wf() ==> (r matches Option::Some(n) ==> n.wf()),
    {
        match value {
            RuntimeValue::Int(i) => Option::Some(Num::Int(IntRef::Small(*i))),
            RuntimeValue::Big(b) => Option::Some(Num::Int(IntRef::Big(b))),
            RuntimeValue::Float(f) => Option::Some(Num::Float(*f)),
            _ => Option::None,
        }
    }

    /// What `unpack_value` expects, for diagnostics.
    pub fn expected() -> (r: String)
        ensures
            r@ == "int or float"@,
    {
        "int or float".to_owned()
    }

    /// The type this value unpacks from, as the language writes it.
    pub fn starlark_type_repr() -> (r: String)
        ensures
            r@ == "int | float"@,
    {
        "int | float".to_owned()
    }

    /// Widens to a double.  Exact for 32-bit integers; big integers beyond
    /// 53 significant bits lose precision by design (this path only feeds
    /// comparison and hashing).
    pub fn as_float(&self) -> (r: u64)
        ensures
            r == self.as_float_sp(),
    {
        match *self {
            Num::Int(IntRef::Small(i)) => i32_to_f64_bits(i),
            Num::Int(IntRef::Big(b)) => big_to_f64_bits(b),
            Num::Float(f) => f,
        }
    }

    /// The exact 32-bit integer a double denotes, if any.
    pub fn f64_to_i32_exact(f: u64) -> (r: Option<i32>)
        ensures
            r == exact_i32_spec(f),
    {
        f64_to_i32_exact_bits(f)
    }

    /// The exact 32-bit integer this value denotes, if any: big integers
    /// are out of range by invariant, and a float converts only when
    /// truncation reproduces it exactly.
    pub fn as_int(&self) -> (r: Option<i32>)
        ensures
            r == self.as_int_sp(),
    {
        match *self {
            Num::Int(IntRef::Small(i)) => Option::Some(i),
            Num::Int(IntRef::Big(_)) => Option::None,
            Num::Float(f) => Self::f64_to_i32_exact(f),
        }
    }

    /// The 64-bit hash of the value.  Values equal under the language's
    /// equality hash identically (see `lemma_eq_implies_hash_eq`).
    pub fn get_hash_64(self) -> (r: u64)
        ensures
            r == self.hash64_sp(),
    {
        match self.as_int() {
            Option::Some(i) => sext_u64(i),
            Option::None => match self {
                Num::Float(f) => float_hash(f),
                Num::Int(IntRef::Small(i)) => sext_u64(i),
                Num::Int(IntRef::Big(b)) => float_hash(big_to_f64_bits(b)),
            },
        }
    }

    /// The hash folded into the runtime's 32-bit hash representation.
    pub fn get_hash(self) -> (r: u32)
        ensures
            r == fold_hash_sp(self.hash64_sp()),
    {
        let h = self.get_hash_64();
        let z = (h >> 32u64) ^ h;
        proof {
            assert((z & 0xffff_ffffu64) <= 0xffff_ffffu64) by (bit_vector);
        }
        (z & 0xffff_ffffu64) as u32
    }

    /// Builds the float variant from a double's bit pattern.
    pub fn from_float_bits(b: u64) -> (r: Num<'v>)
        ensures
            r == Num::<'v>::Float(b),
    {
        Num::Float(b)
    }

    /// The language's total order.
    pub fn cmp(&self, other: &Num<'v>) -> (r: Ordering)
        ensures
            r == self.cmp_sp(*other),
    {
        match (*self, *other) {
            (Num::Int(a), Num::Int(b)) => int_ref_cmp(a, b),
            _ => f64_total_cmp(self.as_float(), other.as_float()),
        }
    }
}

impl<'v> From<i32> for Num<'v> {
    /// A 32-bit integer lifts to the integer variant.
    fn from(i: i32) -> (r: Self) {
        Num::Int(IntRef::Small(i))
    }
}

impl<'v> vstd::std_specs::convert::FromSpecImpl<i32> for Num<'v> {
    open spec fn obeys_from_spec() -> bool {
        true
    }

    open spec fn from_spec(i: i32) -> Self {
        Num::Int(IntRef::Small(i))
    }
}

/// The language's total equality, not the machine's partial one.
impl<'v> PartialEq for Num<'v> {
    fn eq(&self, other: &Self) -> (r: bool) {
        match (*self, *other) {
            (Num::Int(a), Num::Int(b)) => matches!(int_ref_cmp(a, b), Ordering::Equal),
            _ => matches!(
                f64_total_cmp(self.as_float(), other.as_float()),
                Ordering::Equal
            ),
        }
    }
}

impl<'v> vstd::std_specs::cmp::PartialEqSpecImpl for Num<'v> {
    open spec fn obeys_eq_spec() -> bool {
        true
    }

    open spec fn eq_spec(&self, other: &Self) -> bool {
        (*self).eq_sp(*other)
    }
}

/// The language's total order, exposed through the standard comparison
/// operators.
impl<'v> PartialOrd for Num<'v> {
    fn partial_cmp(&self, other: &Self) -> (r: Option<Ordering>) {
        Option::Some(self.cmp(other))
    }
}

impl<'v> vstd::std_specs::cmp::PartialOrdSpecImpl for Num<'v> {
    open spec fn obeys_partial_cmp_spec() -> bool {
        true
    }

    open spec fn partial_cmp_spec(&self, other: &Self) -> Option<Ordering> {
        Option::Some((*self).cmp_sp(*other))
    }
}

/// What the trusted widening guarantees of every double it actually
/// produces for a big integer: never NaN, and out of the 32-bit range
/// whenever the integer is.  Every value that reaches execution satisfies
/// this (it is the widening wrapper's contract); the hash law below takes
/// it as a hypothesis because the law quantifies over all values.
pub open spec fn widened_big_ok<'v>(n: Num<'v>) -> bool {
    match n {
        Num::Int(IntRef::Big(b)) => {
            let v = big_value(*b);
            let d = f64_bits_of_int(v);
            &&& !crate::double::is_nan(d)
            &&& (v > 0x7fff_ffff ==> crate::double::val_scaled(d) > 0x7fff_ffff * vstd::arithmetic::power2::pow2(1074))
            &&& (v < -0x8000_0000 ==> crate::double::val_scaled(d) < (-0x8000_0000) * vstd::arithmetic::power2::pow2(1074))
        },
        _ => true,
    }
}

/// Every numeric value equals itself — in particular a float built from
/// any NaN pattern, so hashing and equality stay consistent for NaN.
pub proof fn lemma_eq_reflexive<'v>(x: Num<'v>)
    ensures
        x.eq_sp(x),
{
}

/// A 32-bit integer and the double with exactly that value are equal and
/// hash identically.
pub proof fn lemma_int_float_agree<'v>(i: i32)
    ensures
        Num::<'v>::Int(IntRef::Small(i)).eq_sp(Num::<'v>::Float(enc_i32(i as int))),
        Num::<'v>::Int(IntRef::Small(i)).hash64_sp() == Num::<'v>::Float(enc_i32(i as int)).hash64_sp(),
{
    crate::double::lemma_enc_i32(i as int);
}

/// The order is total and agrees with equality: for any two values exactly
/// one of less, equal, greater holds, where "equal" is the language's
/// equality; and less in one direction is greater in the other.  This
/// includes NaN floats, which are equal to themselves and comparable to
/// everything.
pub proof fn lemma_cmp_total<'v>(x: Num<'v>, y: Num<'v>)
    ensures
        x.eq_sp(y) <==> x.cmp_sp(y) == Ordering::Equal,
        x.cmp_sp(y) == Ordering::Less <==> y.cmp_sp(x) == Ordering::Greater,
        x.cmp_sp(y) == Ordering::Less || x.cmp_sp(y) == Ordering::Equal || x.cmp_sp(y) == Ordering::Greater,
{
    match x.cmp_sp(y) {
        Ordering::Less => {},
        Ordering::Equal => {},
        Ordering::Greater => {},
    }
    match y.cmp_sp(x) {
        Ordering::Less => {},
        Ordering::Equal => {},
        Ordering::Greater => {},
    }
}

/// The hash law for one integer view against one float.
proof fn lemma_mixed_hash<'v>(ir: IntRef<'v>, b: u64)
    requires
        ir.wf(),
        widened_big_ok(Num::<'v>::Int(ir)),
        float_cmp_spec(Num::<'v>::Int(ir).as_float_sp(), b) == Ordering::Equal,
    ensures
        Num::<'v>::Int(ir).hash64_sp() == Num::<'v>::Float(b).hash64_sp(),
{
    let p = vstd::arithmetic::power2::pow2(1074) as int;
    vstd::arithmetic::power2::lemma_pow2_pos(1074);
    match ir {
        IntRef::Small(i) => {
            crate::double::lemma_enc_i32(i as int);
            let e = enc_i32(i as int);
            // Not NaN on either side, so the scaled values are equal.
            assert(crate::double::val_scaled(b) == crate::double::val_scaled(e));
            crate::double::lemma_val_unique(e, b);
            if b == e {
            } else {
                // Both zero: i must be 0, and a zero converts to Some(0).
                assert(crate::double::is_zero(e) && crate::double::is_zero(b));
                assert(i == 0) by {
                    if i != 0 {
                        vstd::arithmetic::mul::lemma_mul_nonzero(i as int, p);
                    }
                };
                assert(exact_i32_spec(b) == Option::Some(0i32));
            }
        },
        IntRef::Big(bg) => {
            let v = big_value(*bg);
            let d = f64_bits_of_int(v);
            // The widened big integer denotes a value outside what any
            // 32-bit integer denotes, so the float side converts to None.
            assert(crate::double::val_scaled(b) == crate::double::val_scaled(d));
            match exact_i32_spec(b) {
                Option::Some(j) => {
                    crate::double::lemma_dec_val(b, j);
                    if v > 0x7fff_ffff {
                        vstd::arithmetic::mul::lemma_mul_inequality(j as int, 0x7fff_ffff, p);
                    } else {
                        vstd::arithmetic::mul::lemma_mul_inequality(-0x8000_0000, j as int, p);
                    }
                    assert(false);
                },
                Option::None => {},
            }
            // val(d) is nonzero, so d and b are the same pattern.
            assert(crate::double::val_scaled(d) != 0) by {
                vstd::arithmetic::mul::lemma_mul_strictly_positive(0x7fff_ffff, p);
                vstd::arithmetic::mul::lemma_mul_unary_negation(0x8000_0000, p);
                vstd::arithmetic::mul::lemma_mul_strictly_positive(0x8000_0000, p);
            };
            crate::double::lemma_val_unique(d, b);
            assert(d == b);
        },
    }
}

/// The hash law: any two values equal under the language's equality hash
/// identically — across representations, including NaN, the zeros, and
/// big integers (whose lossy widening is pinned by its contract).
pub proof fn lemma_eq_implies_hash_eq<'v>(x: Num<'v>, y: Num<'v>)
    requires
        x.wf(),
        y.wf(),
        widened_big_ok(x),
        widened_big_ok(y),
        x.eq_sp(y),
    ensures
        x.hash64_sp() == y.hash64_sp(),
{
    match (x, y) {
        (Num::Int(a), Num::Int(b)) => {
            match (a, b) {
                (IntRef::Small(_), IntRef::Small(_)) => {},
                (IntRef::Small(i), IntRef::Big(_)) => {},
                (IntRef::Big(_), IntRef::Small(_)) => {},
                (IntRef::Big(_), IntRef::Big(_)) => {},
            }
        },
        (Num::Float(a), Num::Float(b)) => {
            if crate::double::is_nan(a) {
                assert(crate::double::is_nan(b));
            } else {
                assert(!crate::double::is_nan(b));
                crate::double::lemma_val_unique(a, b);
            }
        },
        (Num::Int(ir), Num::Float(b)) => {
            lemma_mixed_hash(ir, b);
        },
        (Num::Float(b), Num::Int(ir)) => {
            // Equality of the widened sides is symmetric: neither side is
            // NaN (the integer side by its contracts), so the scaled
            // values coincide in both directions.
            match ir {
                IntRef::Small(i) => {
                    crate::double::lemma_enc_i32(i as int);
                },
                IntRef::Big(_) => {},
            }
            assert(float_cmp_spec(y.as_float_sp(), b) == Ordering::Equal);
            lemma_mixed_hash(ir, b);
        },
    }
}

} // verus!
