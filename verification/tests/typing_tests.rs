use starlark_values::typing::{eval_type, isinstance, TypeCompiled, TypeKind};
use starlark_values::value::RuntimeValue;

#[test]
fn test_typechecking() {
    // isinstance(1, "") is a type error: the empty string is no recognized
    // type expression.
    let one = RuntimeValue::Int(1);
    let empty = RuntimeValue::Str(String::new());
    let mut diags: Vec<String> = Vec::new();
    let err = isinstance(&one, &empty, &mut diags).unwrap_err();
    assert_eq!(err.message(), "Expected type `type` but got `str`");
    assert!(diags.is_empty());
}

#[test]
fn test_isinstance_int_type() {
    let int_type = RuntimeValue::TypeObject(TypeKind::Int);
    let one = RuntimeValue::Int(1);
    let empty_str = RuntimeValue::Str(String::new());
    let mut diags: Vec<String> = Vec::new();
    assert_eq!(isinstance(&one, &int_type, &mut diags).unwrap(), true);
    assert_eq!(isinstance(&empty_str, &int_type, &mut diags).unwrap(), false);
    // Type objects are not legacy syntax: no diagnostic.
    assert!(diags.is_empty());
}

#[test]
fn test_error_names_actual_type() {
    let one = RuntimeValue::Int(1);
    let mut diags: Vec<String> = Vec::new();
    let err = eval_type(&RuntimeValue::Int(5), &mut diags).unwrap_err();
    assert_eq!(err.message(), "Expected type `type` but got `int`");
    let err = eval_type(&RuntimeValue::NoneValue, &mut diags).unwrap_err();
    assert_eq!(err.message(), "Expected type `type` but got `NoneType`");
    let err = isinstance(&one, &RuntimeValue::Bool(true), &mut diags).unwrap_err();
    assert_eq!(err.message(), "Expected type `type` but got `bool`");
    assert_eq!(err.expected, "type");
    assert_eq!(err.actual, "bool");
    assert!(diags.is_empty());
}

#[test]
fn test_legacy_string_type() {
    // A recognized legacy name compiles, but records one migration
    // diagnostic per compilation.
    let legacy_int = RuntimeValue::Str("int".to_owned());
    let one = RuntimeValue::Int(1);
    let half = RuntimeValue::Float((0.5f64).to_bits());
    let mut diags: Vec<String> = Vec::new();
    assert_eq!(isinstance(&one, &legacy_int, &mut diags).unwrap(), true);
    assert_eq!(diags.len(), 1);
    assert_eq!(
        diags[0],
        "string-based type expressions are deprecated, use a type object"
    );
    assert_eq!(isinstance(&half, &legacy_int, &mut diags).unwrap(), false);
    assert_eq!(diags.len(), 2);
}

#[test]
fn test_eval_type_reusable() {
    let mut diags: Vec<String> = Vec::new();
    let pred = eval_type(&RuntimeValue::TypeObject(TypeKind::Str), &mut diags).unwrap();
    let s = RuntimeValue::Str("x".to_owned());
    let b = RuntimeValue::Bool(false);
    assert!(pred.matches(&s));
    assert!(!pred.matches(&b));
    assert!(pred.matches(&s));
}

#[test]
fn test_union_type_expression() {
    // A list of type expressions denotes their union.
    let union = RuntimeValue::List(vec![
        RuntimeValue::TypeObject(TypeKind::Int),
        RuntimeValue::Str("str".to_owned()),
    ]);
    let mut diags: Vec<String> = Vec::new();
    let pred = eval_type(&union, &mut diags).unwrap();
    // The legacy member is still legacy syntax: one diagnostic.
    assert_eq!(diags.len(), 1);
    let one = RuntimeValue::Int(1);
    let big = RuntimeValue::int_from_i64(1 << 40);
    let s = RuntimeValue::Str("x".to_owned());
    let f = RuntimeValue::Float((1.5f64).to_bits());
    assert!(pred.matches(&one));
    assert!(pred.matches(&big));
    assert!(pred.matches(&s));
    assert!(!pred.matches(&f));

    // A list with an unrecognized member is itself the offending value.
    let bad = RuntimeValue::List(vec![RuntimeValue::Int(3)]);
    let err = eval_type(&bad, &mut diags).unwrap_err();
    assert_eq!(err.message(), "Expected type `type` but got `list`");
}

#[test]
fn test_basic_kind_matching() {
    let mut diags: Vec<String> = Vec::new();
    let none_pred = eval_type(&RuntimeValue::TypeObject(TypeKind::NoneType), &mut diags).unwrap();
    assert!(none_pred.matches(&RuntimeValue::NoneValue));
    assert!(!none_pred.matches(&RuntimeValue::Int(0)));

    let type_pred: TypeCompiled =
        eval_type(&RuntimeValue::TypeObject(TypeKind::Type), &mut diags).unwrap();
    assert!(type_pred.matches(&RuntimeValue::TypeObject(TypeKind::Bool)));
    assert!(!type_pred.matches(&RuntimeValue::Str("bool".to_owned())));

    // Booleans are not integers, and floats are not integers.
    let int_pred = eval_type(&RuntimeValue::TypeObject(TypeKind::Int), &mut diags).unwrap();
    assert!(!int_pred.matches(&RuntimeValue::Bool(true)));
    assert!(!int_pred.matches(&RuntimeValue::Float((1.0f64).to_bits())));
    assert!(int_pred.matches(&RuntimeValue::int_from_i64(1 << 40)));
}

#[test]
fn test_get_type_names() {
    assert_eq!(RuntimeValue::NoneValue.get_type(), "NoneType");
    assert_eq!(RuntimeValue::Bool(true).get_type(), "bool");
    assert_eq!(RuntimeValue::Int(1).get_type(), "int");
    assert_eq!(RuntimeValue::int_from_i64(1 << 40).get_type(), "int");
    assert_eq!(RuntimeValue::Float(0).get_type(), "float");
    assert_eq!(RuntimeValue::Str(String::new()).get_type(), "str");
    assert_eq!(RuntimeValue::List(Vec::new()).get_type(), "list");
    assert_eq!(
        RuntimeValue::TypeObject(TypeKind::Int).get_type(),
        "type"
    );
}
