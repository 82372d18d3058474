//! The runtime values this core reads: the numeric ones it unpacks, and the
//! others it only classifies (for type checks and diagnostics).

use vstd::prelude::*;
use crate::bignum::big_value;
use crate::typing::TypeKind;

verus! {

/// A runtime value.  Integers keep the invariant that the smallest
/// sufficient representation is chosen: a value that fits in 32 bits is
/// never stored as `Big`.
pub enum RuntimeValue {
    NoneValue,
    Bool(bool),
    Int(i32),
    Big(num_bigint::BigInt),
    /// A double, stored as its IEEE-754 bit pattern.
    Float(u64),
    Str(String),
    List(Vec<RuntimeValue>),
    TypeObject(TypeKind),
}

impl RuntimeValue {
    /// Well-formedness: big integers lie outside the 32-bit range,
    /// hereditarily through lists.
    pub open spec fn wf(self) -> bool
        decreases self,
    {
        match self {
            RuntimeValue::Big(b) => !crate::in_i32_range(big_value(b)),
            RuntimeValue::List(xs) => forall|i: int|
                0 <= i < xs@.len() ==> #[trigger] xs@[i].wf(),
            _ => true,
        }
    }

    /// The name of the value's type, as shown in diagnostics.
    pub open spec fn get_type_sp(self) -> Seq<char> {
        match self {
            RuntimeValue::NoneValue => "NoneType"@,
            RuntimeValue::Bool(_) => "bool"@,
            RuntimeValue::Int(_) => "int"@,
            RuntimeValue::Big(_) => "int"@,
            RuntimeValue::Float(_) => "float"@,
            RuntimeValue::Str(_) => "str"@,
            RuntimeValue::List(_) => "list"@,
            RuntimeValue::TypeObject(_) => "type"@,
        }
    }

    /// The name of the value's type, as shown in diagnostics.
    pub fn get_type(&self) -> (r: &'static str)
        ensures
            r@ == self.get_type_sp(),
    {
        match self {
            RuntimeValue::NoneValue => "NoneType",
            RuntimeValue::Bool(_) => "bool",
            RuntimeValue::Int(_) => "int",
            RuntimeValue::Big(_) => "int",
            RuntimeValue::Float(_) => "float",
            RuntimeValue::Str(_) => "str",
            RuntimeValue::List(_) => "list",
            RuntimeValue::TypeObject(_) => "type",
        }
    }

    /// Builds an integer value, choosing the smallest sufficient
    /// representation.
    pub fn int_from_i64(x: i64) -> (r: RuntimeValue)
        ensures
            r.wf(),
            crate::in_i32_range(x as int) ==> r == RuntimeValue::Int(x as i32),
            !crate::in_i32_range(x as int) ==> (r matches RuntimeValue::Big(b) && big_value(b) == x as int),
    {
        if x >= -0x8000_0000i64 && x <= 0x7fff_ffffi64 {
            RuntimeValue::Int(x as i32)
        } else {
            RuntimeValue::Big(crate::bignum::big_from_i64(x))
        }
    }
}

} // verus!
