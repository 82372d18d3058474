//! Runtime type predicates: compiling a type expression into a reusable
//! matcher, and the two built-ins `eval_type` and `isinstance` that use it.
//!
//! A type expression is a first-class type object, a legacy type name
//! written as a string (accepted through a deprecation-aware path that
//! records a migration diagnostic), or a list of those, denoting their
//! union.  Anything else fails to compile with a type error naming the
//! expected category and the actual type of the offending value.

use vstd::prelude::*;
use crate::value::RuntimeValue;

verus! {

/// The basic types a runtime value can belong to.
#[derive(Clone, Copy, Debug, PartialEq, Eq, Structural)]
pub enum TypeKind {
    NoneType,
    Bool,
    Int,
    Float,
    Str,
    List,
    Type,
}

/// Whether a value belongs to a basic type.  Integers of any width are
/// one type.
pub open spec fn kind_matches(k: TypeKind, v: RuntimeValue) -> bool {
    match k {
        TypeKind::NoneType => v is NoneValue,
        TypeKind::Bool => v is Bool,
        TypeKind::Int => v is Int || v is Big,
        TypeKind::Float => v is Float,
        TypeKind::Str => v is Str,
        TypeKind::List => v is List,
        TypeKind::Type => v is TypeObject,
    }
}

fn kind_matches_exec(k: TypeKind, value: &RuntimeValue) -> (r: bool)
    ensures
        r == kind_matches(k, *value),
{
    match k {
        TypeKind::NoneType => matches!(value, RuntimeValue::NoneValue),
        TypeKind::Bool => matches!(value, RuntimeValue::Bool(_)),
        TypeKind::Int => matches!(value, RuntimeValue::Int(_) | RuntimeValue::Big(_)),
        TypeKind::Float => matches!(value, RuntimeValue::Float(_)),
        TypeKind::Str => matches!(value, RuntimeValue::Str(_)),
        TypeKind::List => matches!(value, RuntimeValue::List(_)),
        TypeKind::Type => matches!(value, RuntimeValue::TypeObject(_)),
    }
}

/// Whether some kind in the sequence matches `v`.
pub open spec fn any_kind_matches(ks: Seq<TypeKind>, v: RuntimeValue) -> bool {
    exists|i: int| 0 <= i < ks.len() && kind_matches(#[trigger] ks[i], v)
}

/// The legacy textual name of a basic type, if the string is one.
pub open spec fn legacy_lookup_sp(s: Seq<char>) -> Option<TypeKind> {
    if s == "NoneType"@ {
        Option::Some(TypeKind::NoneType)
    } else if s == "bool"@ {
        Option::Some(TypeKind::Bool)
    } else if s == "int"@ {
        Option::Some(TypeKind::Int)
    } else if s == "float"@ {
        Option::Some(TypeKind::Float)
    } else if s == "str"@ {
        Option::Some(TypeKind::Str)
    } else if s == "list"@ {
        Option::Some(TypeKind::List)
    } else if s == "type"@ {
        Option::Some(TypeKind::Type)
    } else {
        Option::None
    }
}

fn str_is(s: &String, t: &str) -> (r: bool)
    ensures
        r == (s@ == t@),
{
    let o = t.to_owned();
    *s == o
}

fn legacy_lookup(s: &String) -> (r: Option<TypeKind>)
    ensures
        r == legacy_lookup_sp(s@),
{
    if str_is(s, "NoneType") {
        Option::Some(TypeKind::NoneType)
    } else if str_is(s, "bool") {
        Option::Some(TypeKind::Bool)
    } else if str_is(s, "int") {
        Option::Some(TypeKind::Int)
    } else if str_is(s, "float") {
        Option::Some(TypeKind::Float)
    } else if str_is(s, "str") {
        Option::Some(TypeKind::Str)
    } else if str_is(s, "list") {
        Option::Some(TypeKind::List)
    } else if str_is(s, "type") {
        Option::Some(TypeKind::Type)
    } else {
        Option::None
    }
}

/// The basic type a single (non-list) type expression names, if any.
pub open spec fn elem_kind_sp(e: RuntimeValue, allow_str: bool) -> Option<TypeKind> {
    match e {
        RuntimeValue::TypeObject(k) => Option::Some(k),
        RuntimeValue::Str(s) => if allow_str {
            legacy_lookup_sp(s@)
        } else {
            Option::None
        },
        _ => Option::None,
    }
}

pub open spec fn kind_or_none(o: Option<TypeKind>) -> TypeKind {
    match o {
        Option::Some(k) => k,
        Option::None => TypeKind::NoneType,
    }
}

/// Whether every element of a list type expression names a basic type.
pub open spec fn list_recognized(xs: Seq<RuntimeValue>, allow_str: bool) -> bool {
    forall|i: int| 0 <= i < xs.len() ==> (#[trigger] elem_kind_sp(xs[i], allow_str)) is Some
}

/// Whether `v` belongs to some element of a list type expression.
pub open spec fn list_denotes(xs: Seq<RuntimeValue>, allow_str: bool, v: RuntimeValue) -> bool {
    exists|i: int| 0 <= i < xs.len() && kind_matches(kind_or_none(elem_kind_sp(#[trigger] xs[i], allow_str)), v)
}

/// Whether some element of a list type expression is a string.
pub open spec fn list_has_str(xs: Seq<RuntimeValue>) -> bool {
    exists|i: int| 0 <= i < xs.len() && (#[trigger] xs[i]) is Str
}

/// Whether a type expression is recognized: a type object, an accepted
/// legacy name, or a list of those (their union).
pub open spec fn recognized_sp(ty: RuntimeValue, allow_str: bool) -> bool {
    match ty {
        RuntimeValue::List(xs) => list_recognized(xs@, allow_str),
        _ => elem_kind_sp(ty, allow_str) is Some,
    }
}

/// Whether `v` belongs to the type a recognized expression denotes.
pub open spec fn denotes_sp(ty: RuntimeValue, allow_str: bool, v: RuntimeValue) -> bool {
    match ty {
        RuntimeValue::List(xs) => list_denotes(xs@, allow_str, v),
        _ => kind_matches(kind_or_none(elem_kind_sp(ty, allow_str)), v),
    }
}

/// Whether the expression uses the legacy string syntax anywhere.
pub open spec fn uses_legacy_sp(ty: RuntimeValue) -> bool {
    match ty {
        RuntimeValue::Str(_) => true,
        RuntimeValue::List(xs) => list_has_str(xs@),
        _ => false,
    }
}

/// A malformed type expression: the error carries the expected category
/// and the actual type name, verbatim, for user display.
#[derive(Debug)]
pub struct TypeError {
    pub expected: String,
    pub actual: String,
}

/// Relies on the std `format!` macro to assemble the diagnostic text.
#[verifier::external_body]
fn format_expected(expected: &str, actual: &str) -> (r: String)
    ensures
        r@ == "Expected type `"@ + expected@ + "` but got `"@ + actual@ + "`"@,
{
    format!("Expected type `{}` but got `{}`", expected, actual)
}

impl TypeError {
    pub open spec fn message_sp(self) -> Seq<char> {
        "Expected type `"@ + self.expected@ + "` but got `"@ + self.actual@ + "`"@
    }

    /// The user-visible message, e.g. ``Expected type `type` but got `str` ``.
    pub fn message(&self) -> (r: String)
        ensures
            r@ == self.message_sp(),
    {
        format_expected(self.expected.as_str(), self.actual.as_str())
    }
}

fn type_error(ty: &RuntimeValue) -> (r: TypeError)
    ensures
        r.expected@ == "type"@,
        r.actual@ == ty.get_type_sp(),
{
    TypeError { expected: "type".to_owned(), actual: ty.get_type().to_owned() }
}

/// A compiled, reusable matcher over runtime values: one basic type, or a
/// union of several.
#[derive(Clone, Debug)]
pub enum TypeCompiled {
    Basic(TypeKind),
    AnyOf(Vec<TypeKind>),
}

impl TypeCompiled {
    /// Whether `v` matches this predicate.
    pub open spec fn matches_sp(self, v: RuntimeValue) -> bool {
        match self {
            TypeCompiled::Basic(k) => kind_matches(k, v),
            TypeCompiled::AnyOf(ks) => any_kind_matches(ks@, v),
        }
    }

    /// Tests a value against the predicate.
    pub fn matches(&self, value: &RuntimeValue) -> (r: bool)
        ensures
            r == self.matches_sp(*value),
    {
        match self {
            TypeCompiled::Basic(k) => kind_matches_exec(*k, value),
            TypeCompiled::AnyOf(ks) => {
                let n = ks.len();
                let mut i: usize = 0;
                while i < n
                    invariant
                        *self is AnyOf && (*self)->AnyOf_0 == *ks,
                        n == ks@.len(),
                        i <= n,
                        forall|j: int| 0 <= j < i ==> !kind_matches(#[trigger] ks@[j], *value),
                    decreases n - i,
                {
                    if kind_matches_exec(ks[i], value) {
                        proof {
                            assert(any_kind_matches(ks@, *value)) by {
                                assert(0 <= (i as int) < ks@.len() && kind_matches(ks@[i as int], *value));
                            }
                        }
                        return true;
                    }
                    i = i + 1;
                }
                proof {
                    assert(!any_kind_matches(ks@, *value));
                }
                false
            },
        }
    }
}

fn elem_kind(e: &RuntimeValue, allow_str: bool) -> (r: Option<TypeKind>)
    ensures
        r == elem_kind_sp(*e, allow_str),
{
    match e {
        RuntimeValue::TypeObject(k) => Option::Some(*k),
        RuntimeValue::Str(s) => if allow_str {
            legacy_lookup(s)
        } else {
            Option::None
        },
        _ => Option::None,
    }
}

/// Compiles a type expression into a matcher.  Succeeds exactly on
/// recognized expressions, with a matcher that accepts exactly the values
/// the expression denotes; fails with a type error naming the offending
/// value's type otherwise.
pub fn compile_type_expr(ty: &RuntimeValue, allow_str: bool) -> (r: Result<TypeCompiled, TypeError>)
    ensures
        r is Ok <==> recognized_sp(*ty, allow_str),
        (r matches Ok(t) ==> forall|v: RuntimeValue| #[trigger] t.matches_sp(v) == denotes_sp(*ty, allow_str, v)),
        (r matches Err(e) ==> e.expected@ == "type"@ && e.actual@ == ty.get_type_sp()),
{
    match ty {
        RuntimeValue::TypeObject(k) => Result::Ok(TypeCompiled::Basic(*k)),
        RuntimeValue::Str(_) => {
            match elem_kind(ty, allow_str) {
                Option::Some(k) => Result::Ok(TypeCompiled::Basic(k)),
                Option::None => Result::Err(type_error(ty)),
            }
        },
        RuntimeValue::List(xs) => {
            let n = xs.len();
            let mut ks: Vec<TypeKind> = Vec::new();
            let mut i: usize = 0;
            while i < n
                invariant
                    *ty is List && (*ty)->List_0 == *xs,
                    n == xs@.len(),
                    i <= n,
                    ks@.len() == i as int,
                    forall|j: int| 0 <= j < i ==> elem_kind_sp(#[trigger] xs@[j], allow_str) == Option::Some(ks@[j]),
                decreases n - i,
            {
                match elem_kind(&xs[i], allow_str) {
                    Option::Some(k) => {
                        ks.push(k);
                    },
                    Option::None => {
                        proof {
                            assert(!list_recognized(xs@, allow_str)) by {
                                assert(elem_kind_sp(xs@[i as int], allow_str) is None);
                            }
                            assert(!recognized_sp(*ty, allow_str));
                        }
                        return Result::Err(type_error(ty));
                    },
                }
                i = i + 1;
            }
            proof {
                let tyv = *ty;
                assert(tyv is List && tyv->List_0 == *xs);
                assert(list_recognized(xs@, allow_str)) by {
                    assert forall|j: int| 0 <= j < xs@.len() implies (#[trigger] elem_kind_sp(xs@[j], allow_str)) is Some by {
                        assert(elem_kind_sp(xs@[j], allow_str) == Option::Some(ks@[j]));
                    }
                }
                assert(recognized_sp(tyv, allow_str));
                assert forall|v: RuntimeValue|
                    #[trigger] TypeCompiled::AnyOf(ks).matches_sp(v) == denotes_sp(tyv, allow_str, v)
                by {
                    if any_kind_matches(ks@, v) {
                        let j = choose|j: int| 0 <= j < ks@.len() && kind_matches(#[trigger] ks@[j], v);
                        assert(list_denotes(xs@, allow_str, v)) by {
                            assert(0 <= j < xs@.len()
                                && kind_matches(kind_or_none(elem_kind_sp(xs@[j], allow_str)), v));
                        }
                    }
                    if list_denotes(xs@, allow_str, v) {
                        let j = choose|j: int|
                            0 <= j < xs@.len() && kind_matches(kind_or_none(elem_kind_sp(#[trigger] xs@[j], allow_str)), v);
                        assert(any_kind_matches(ks@, v)) by {
                            assert(0 <= j < ks@.len() && kind_matches(ks@[j], v));
                        }
                    }
                    assert(TypeCompiled::AnyOf(ks).matches_sp(v) == any_kind_matches(ks@, v));
                    assert(denotes_sp(tyv, allow_str, v) == list_denotes(xs@, allow_str, v));
                }
            }
            Result::Ok(TypeCompiled::AnyOf(ks))
        },
        _ => Result::Err(type_error(ty)),
    }
}

fn uses_legacy(ty: &RuntimeValue) -> (r: bool)
    ensures
        r == uses_legacy_sp(*ty),
{
    match ty {
        RuntimeValue::Str(_) => true,
        RuntimeValue::List(xs) => {
            let n = xs.len();
            let mut i: usize = 0;
            while i < n
                invariant
                    *ty is List && (*ty)->List_0 == *xs,
                    n == xs@.len(),
                    i <= n,
                    forall|j: int| 0 <= j < i ==> !((#[trigger] xs@[j]) is Str),
                decreases n - i,
            {
                if matches!(&xs[i], RuntimeValue::Str(_)) {
                    proof {
                        assert(list_has_str(xs@)) by {
                            assert(0 <= (i as int) < xs@.len() && xs@[i as int] is Str);
                        }
                    }
                    return true;
                }
                i = i + 1;
            }
            proof {
                assert(!list_has_str(xs@));
            }
            false
        },
        _ => false,
    }
}

/// How the diagnostic sink changes across one compilation: one migration
/// diagnostic appended when `pushed`, untouched otherwise.
pub open spec fn sink_after(old_d: Seq<String>, new_d: Seq<String>, pushed: bool) -> bool {
    if pushed {
        &&& new_d.len() == old_d.len() + 1
        &&& new_d.subrange(0, old_d.len() as int) =~= old_d
        &&& new_d[old_d.len() as int]@ == "string-based type expressions are deprecated, use a type object"@
    } else {
        new_d == old_d
    }
}

/// The migration diagnostic recorded when legacy string syntax compiles.
pub fn legacy_warning() -> (r: String)
    ensures
        r@ == "string-based type expressions are deprecated, use a type object"@,
{
    "string-based type expressions are deprecated, use a type object".to_owned()
}

impl TypeCompiled {
    /// The deprecation-aware compilation path: accepts legacy string type
    /// syntax alongside first-class type objects, and records a migration
    /// diagnostic in the caller's sink when an accepted expression uses
    /// the legacy syntax.
    pub fn new_with_deprecation(ty: &RuntimeValue, diags: &mut Vec<String>) -> (r: Result<TypeCompiled, TypeError>)
        ensures
            r is Ok <==> recognized_sp(*ty, true),
            (r matches Ok(t) ==> forall|v: RuntimeValue| #[trigger] t.matches_sp(v) == denotes_sp(*ty, true, v)),
            (r matches Err(e) ==> e.expected@ == "type"@ && e.actual@ == ty.get_type_sp()),
            sink_after(old(diags)@, final(diags)@, r is Ok && uses_legacy_sp(*ty)),
    {
        let r = compile_type_expr(ty, true);
        if r.is_ok() && uses_legacy(ty) {
            diags.push(legacy_warning());
        }
        r
    }
}

/// Compiles a type expression into a runtime type object usable for
/// repeated matching, through the deprecation-aware path.
pub fn eval_type(ty: &RuntimeValue, diags: &mut Vec<String>) -> (r: Result<TypeCompiled, TypeError>)
    ensures
        r is Ok <==> recognized_sp(*ty, true),
        (r matches Ok(t) ==> forall|v: RuntimeValue| #[trigger] t.matches_sp(v) == denotes_sp(*ty, true, v)),
        (r matches Err(e) ==> e.expected@ == "type"@ && e.actual@ == ty.get_type_sp()),
        sink_after(old(diags)@, final(diags)@, r is Ok && uses_legacy_sp(*ty)),
{
    TypeCompiled::new_with_deprecation(ty, diags)
}

/// Checks whether a value matches the given type expression, compiling it
/// through the deprecation-aware path.
pub fn isinstance(value: &RuntimeValue, ty: &RuntimeValue, diags: &mut Vec<String>) -> (r: Result<bool, TypeError>)
    ensures
        r is Ok <==> recognized_sp(*ty, true),
        (r matches Ok(b) ==> b == denotes_sp(*ty, true, *value)),
        (r matches Err(e) ==> e.expected@ == "type"@ && e.actual@ == ty.get_type_sp()),
        sink_after(old(diags)@, final(diags)@, r is Ok && uses_legacy_sp(*ty)),
{
    match TypeCompiled::new_with_deprecation(ty, diags) {
        Result::Ok(t) => Result::Ok(t.matches(value)),
        Result::Err(e) => Result::Err(e),
    }
}

} // verus!
