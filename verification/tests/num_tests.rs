use starlark_values::num::{IntRef, Num};
use starlark_values::value::RuntimeValue;
use std::cmp::Ordering;

#[test]
fn test_from_value() {
    let t = RuntimeValue::Bool(true);
    let f = RuntimeValue::Bool(false);
    let s = RuntimeValue::Str(String::new());
    let n = RuntimeValue::NoneValue;
    assert!(Num::unpack_value(&t).is_none());
    assert!(Num::unpack_value(&f).is_none());
    assert!(Num::unpack_value(&s).is_none());
    assert!(Num::unpack_value(&n).is_none());

    let zero = RuntimeValue::Int(0);
    let pos = RuntimeValue::Int(42);
    let neg = RuntimeValue::Int(-42);
    assert_eq!(Num::unpack_value(&zero).unwrap().as_int(), Some(0));
    assert_eq!(Num::unpack_value(&pos).unwrap().as_int(), Some(42));
    assert_eq!(Num::unpack_value(&neg).unwrap().as_int(), Some(-42));
}

#[test]
fn test_conversion_to_float() {
    assert_eq!(Num::Int(IntRef::Small(0)).as_float(), (0.0f64).to_bits());
    assert_eq!(
        Num::Int(IntRef::Small(i32::MAX)).as_float(),
        (i32::MAX as f64).to_bits()
    );
    assert_eq!(
        Num::Int(IntRef::Small(i32::MIN)).as_float(),
        (i32::MIN as f64).to_bits()
    );

    assert_eq!(Num::Float((0.0f64).to_bits()).as_float(), (0.0f64).to_bits());
    assert!(f64::from_bits(Num::Float(f64::NAN.to_bits()).as_float()).is_nan());
}

#[test]
fn test_conversion_to_int() {
    assert_eq!(Num::Int(IntRef::Small(0)).as_int(), Some(0));
    assert_eq!(Num::Int(IntRef::Small(42)).as_int(), Some(42));
    assert_eq!(Num::Int(IntRef::Small(-42)).as_int(), Some(-42));

    assert_eq!(Num::Float((0f64).to_bits()).as_int(), Some(0));
    assert_eq!(Num::Float((42f64).to_bits()).as_int(), Some(42));
    assert_eq!(Num::Float((-42f64).to_bits()).as_int(), Some(-42));

    assert_eq!(
        Num::Float((i32::MIN as f64).to_bits()).as_int(),
        Some(i32::MIN)
    );
    assert_eq!(
        Num::Float((i32::MAX as f64).to_bits()).as_int(),
        Some(i32::MAX)
    );

    assert_eq!(Num::Float((42.75f64).to_bits()).as_int(), None);
    assert_eq!(Num::Float((-42.75f64).to_bits()).as_int(), None);
    assert_eq!(Num::Float(f64::NAN.to_bits()).as_int(), None);
    assert_eq!(Num::Float(f64::INFINITY.to_bits()).as_int(), None);
    assert_eq!(Num::Float(f64::NEG_INFINITY.to_bits()).as_int(), None);
}

#[test]
fn test_hashing() {
    assert_eq!(
        Num::Int(IntRef::Small(0)).get_hash_64(),
        Num::Float((0.0f64).to_bits()).get_hash_64()
    );
    assert_eq!(
        Num::Int(IntRef::Small(42)).get_hash_64(),
        Num::Float((42.0f64).to_bits()).get_hash_64()
    );

    assert_eq!(
        Num::Float((f64::INFINITY + f64::NEG_INFINITY).to_bits()).get_hash_64(),
        Num::Float(f64::NAN.to_bits()).get_hash_64()
    );
    assert_eq!(
        Num::Float("0.25".parse::<f64>().unwrap().to_bits()).get_hash_64(),
        Num::Float("25e-2".parse::<f64>().unwrap().to_bits()).get_hash_64()
    );
}

#[test]
fn test_eq() {
    assert_eq!(
        Num::Float(f64::NAN.to_bits()),
        Num::Float(f64::NAN.to_bits())
    );
    assert_eq!(
        Num::Float(f64::INFINITY.to_bits()),
        Num::Float(f64::INFINITY.to_bits())
    );
    assert_eq!(Num::Int(IntRef::Small(10)), Num::Float((10.0f64).to_bits()));
}

#[test]
fn test_zero_forms_agree() {
    let a: Num = Num::from(0);
    let b: Num = Num::from_float_bits((0.0f64).to_bits());
    let c: Num = Num::from_float_bits((-0.0f64).to_bits());
    assert_eq!(a, b);
    assert_eq!(b, c);
    assert_eq!(a, c);
    assert_eq!(a.get_hash_64(), b.get_hash_64());
    assert_eq!(b.get_hash_64(), c.get_hash_64());
    assert_eq!(a.get_hash(), c.get_hash());
}

#[test]
fn test_nan_self_equal() {
    // A NaN produced by arithmetic has a different payload story than the
    // canonical one; both must be self-equal with self-consistent hashes.
    let made = Num::Float((f64::INFINITY + f64::NEG_INFINITY).to_bits());
    let canonical = Num::Float(f64::NAN.to_bits());
    assert_eq!(made, made);
    assert_eq!(canonical, canonical);
    assert_eq!(made, canonical);
    assert_eq!(made.get_hash_64(), made.get_hash_64());
    assert_eq!(made.get_hash_64(), canonical.get_hash_64());
}

#[test]
fn test_int_float_agree_across_range() {
    for &i in &[0, 1, -1, 42, -42, 12345678, i32::MIN, i32::MAX] {
        let n: Num = Num::from(i);
        let f: Num = Num::from_float_bits((i as f64).to_bits());
        assert_eq!(n, f);
        assert_eq!(n.get_hash_64(), f.get_hash_64());
        assert_eq!(n.as_float(), (i as f64).to_bits());
    }
}

#[test]
fn test_parsed_literals_equal() {
    let a = Num::Float("0.25".parse::<f64>().unwrap().to_bits());
    let b = Num::Float("25e-2".parse::<f64>().unwrap().to_bits());
    assert_eq!(a, b);
    assert_eq!(a.get_hash_64(), b.get_hash_64());
}

#[test]
fn test_total_order() {
    let nan = Num::Float(f64::NAN.to_bits());
    let inf = Num::Float(f64::INFINITY.to_bits());
    let ninf = Num::Float(f64::NEG_INFINITY.to_bits());
    let one = Num::Int(IntRef::Small(1));
    let half = Num::Float((0.5f64).to_bits());
    let nzero = Num::Float((-0.0f64).to_bits());
    let zero = Num::Int(IntRef::Small(0));

    // Exactly one of <, ==, > holds for every pair, NaN included.
    let vals = [nan, inf, ninf, one, half, nzero, zero];
    for &x in &vals {
        for &y in &vals {
            let lt = x.cmp(&y) == Ordering::Less;
            let eq = x == y;
            let gt = x.cmp(&y) == Ordering::Greater;
            assert_eq!(
                1,
                (lt as u32) + (eq as u32) + (gt as u32),
                "trichotomy failed"
            );
            assert_eq!(lt, y.cmp(&x) == Ordering::Greater);
        }
    }

    assert_eq!(nan.cmp(&nan), Ordering::Equal);
    assert_eq!(nan.cmp(&inf), Ordering::Greater);
    assert_eq!(ninf.cmp(&one), Ordering::Less);
    assert_eq!(zero.cmp(&nzero), Ordering::Equal);
    assert_eq!(half.cmp(&one), Ordering::Less);
    assert!(half < one);
    assert!(one > half);
}

#[test]
fn test_big_integers() {
    // 2^40 does not fit in 32 bits: it is stored as a big integer and
    // widens to exactly 2^40 as a double.
    let big = RuntimeValue::int_from_i64(1 << 40);
    let n = Num::unpack_value(&big).unwrap();
    assert_eq!(n.as_int(), None);
    assert_eq!(n.as_float(), ((1u64 << 40) as f64).to_bits());
    assert_eq!(n.get_hash_64(), ((1u64 << 40) as f64).to_bits());

    // A small value normalizes to the inline representation.
    let small = RuntimeValue::int_from_i64(7);
    let m = Num::unpack_value(&small).unwrap();
    assert_eq!(m.as_int(), Some(7));

    // Exact comparison between representations.
    let neg_big = RuntimeValue::int_from_i64(-(1 << 40));
    let nb = Num::unpack_value(&neg_big).unwrap();
    assert_eq!(n.cmp(&m), Ordering::Greater);
    assert_eq!(nb.cmp(&m), Ordering::Less);
    assert_eq!(nb.cmp(&n), Ordering::Less);
    let big2 = RuntimeValue::int_from_i64(1 << 40);
    let n2 = Num::unpack_value(&big2).unwrap();
    assert_eq!(n.cmp(&n2), Ordering::Equal);
    assert_eq!(n, n2);
    assert_eq!(n.get_hash_64(), n2.get_hash_64());
}

#[test]
fn test_folded_hash() {
    let n = Num::Int(IntRef::Small(-1));
    let h = n.get_hash_64();
    assert_eq!(h, u64::MAX);
    assert_eq!(n.get_hash(), (((h >> 32) ^ h) & 0xffff_ffff) as u32);
}

#[test]
fn test_type_repr_strings() {
    assert_eq!(Num::expected(), "int or float");
    assert_eq!(Num::starlark_type_repr(), "int | float");
}
