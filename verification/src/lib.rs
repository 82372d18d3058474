//! Value-semantics core of a small configuration-language runtime: a unified
//! numeric value over machine integers, arbitrary-precision integers and
//! IEEE-754 doubles (modelled by their bit patterns), with one total
//! equality/ordering/hashing law, plus a runtime type-predicate layer.

pub mod bignum;
pub mod double;
pub mod num;
pub mod typing;
pub mod value;

use vstd::prelude::*;

verus! {

/// True exactly when `v` fits in a 32-bit signed integer.
pub open spec fn in_i32_range(v: int) -> bool {
    -0x8000_0000 <= v && v <= 0x7fff_ffff
}

} // verus!
