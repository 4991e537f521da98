use airl::ast::{LitPattern, Pattern, PatternKind};
use airl::ir::IRPattern;
use airl::pattern::{try_match, try_match_ir};
use airl::span::Span;
use airl::value::Value;

fn pat(kind: PatternKind) -> Pattern {
    Pattern { kind, span: Span::dummy() }
}

#[test]
fn wildcard_matches_anything() {
    let p = pat(PatternKind::Wildcard);
    assert_eq!(try_match(&p, &Value::Int(42)), Some(vec![]));
    assert_eq!(try_match(&p, &Value::Str("hello".into())), Some(vec![]));
    assert_eq!(try_match(&p, &Value::Nil), Some(vec![]));
}

#[test]
fn binding_captures_value() {
    let p = pat(PatternKind::Binding("x".into()));
    let result = try_match(&p, &Value::Int(42));
    assert_eq!(result, Some(vec![("x".into(), Value::Int(42))]));
}

#[test]
fn binding_captures_any_type() {
    let p = pat(PatternKind::Binding("val".into()));
    let v = Value::List(vec![Value::Int(1), Value::Int(2)]);
    let result = try_match(&p, &v).unwrap();
    assert_eq!(result.len(), 1);
    assert_eq!(result[0].0, "val");
}

#[test]
fn literal_int_match() {
    let p = pat(PatternKind::Literal(LitPattern::Int(42)));
    assert!(try_match(&p, &Value::Int(42)).is_some());
    assert!(try_match(&p, &Value::Int(43)).is_none());
}

#[test]
fn literal_str_match() {
    let p = pat(PatternKind::Literal(LitPattern::Str("hello".into())));
    assert!(try_match(&p, &Value::Str("hello".into())).is_some());
    assert!(try_match(&p, &Value::Str("world".into())).is_none());
}

#[test]
fn literal_bool_match() {
    let p = pat(PatternKind::Literal(LitPattern::Bool(true)));
    assert!(try_match(&p, &Value::Bool(true)).is_some());
    assert!(try_match(&p, &Value::Bool(false)).is_none());
}

#[test]
fn literal_nil_match() {
    let p = pat(PatternKind::Literal(LitPattern::Nil));
    assert!(try_match(&p, &Value::Nil).is_some());
    assert!(try_match(&p, &Value::Int(0)).is_none());
}

#[test]
fn literal_type_mismatch() {
    let p = pat(PatternKind::Literal(LitPattern::Int(1)));
    assert!(try_match(&p, &Value::Str("1".into())).is_none());
    assert!(try_match(&p, &Value::Bool(true)).is_none());
}

#[test]
fn variant_match_with_binding() {
    let p = pat(PatternKind::Variant("Ok".into(), vec![pat(PatternKind::Binding("x".into()))]));
    let v = Value::Variant("Ok".into(), Box::new(Value::Int(42)));
    let result = try_match(&p, &v).unwrap();
    assert_eq!(result, vec![("x".into(), Value::Int(42))]);
}

#[test]
fn variant_name_mismatch() {
    let p = pat(PatternKind::Variant("Ok".into(), vec![pat(PatternKind::Wildcard)]));
    let v = Value::Variant("Err".into(), Box::new(Value::Str("bad".into())));
    assert!(try_match(&p, &v).is_none());
}

#[test]
fn variant_on_non_variant_value() {
    let p = pat(PatternKind::Variant("Ok".into(), vec![pat(PatternKind::Wildcard)]));
    assert!(try_match(&p, &Value::Int(42)).is_none());
}

#[test]
fn nullary_variant_match() {
    let p = pat(PatternKind::Variant("None".into(), vec![]));
    let v = Value::Variant("None".into(), Box::new(Value::Unit));
    assert!(try_match(&p, &v).is_some());
}

#[test]
fn nullary_variant_non_unit_inner_fails() {
    let p = pat(PatternKind::Variant("None".into(), vec![]));
    let v = Value::Variant("None".into(), Box::new(Value::Int(1)));
    assert!(try_match(&p, &v).is_none());
}

#[test]
fn nested_variant_pattern() {
    let inner_pat = pat(PatternKind::Variant("Ok".into(), vec![pat(PatternKind::Binding("x".into()))]));
    let outer_pat = pat(PatternKind::Variant("Ok".into(), vec![inner_pat]));
    let inner_val = Value::Variant("Ok".into(), Box::new(Value::Int(7)));
    let outer_val = Value::Variant("Ok".into(), Box::new(inner_val));
    let result = try_match(&outer_pat, &outer_val).unwrap();
    assert_eq!(result, vec![("x".into(), Value::Int(7))]);
}

#[test]
fn variant_with_literal_subpattern() {
    let p = pat(PatternKind::Variant("Ok".into(), vec![pat(PatternKind::Literal(LitPattern::Int(42)))]));
    let v_match = Value::Variant("Ok".into(), Box::new(Value::Int(42)));
    let v_no = Value::Variant("Ok".into(), Box::new(Value::Int(99)));
    assert!(try_match(&p, &v_match).is_some());
    assert!(try_match(&p, &v_no).is_none());
}

#[test]
fn multi_field_variant() {
    let p = pat(PatternKind::Variant(
        "Pair".into(),
        vec![pat(PatternKind::Binding("a".into())), pat(PatternKind::Binding("b".into()))],
    ));
    let v = Value::Variant("Pair".into(), Box::new(Value::Tuple(vec![Value::Int(1), Value::Int(2)])));
    let result = try_match(&p, &v).unwrap();
    assert_eq!(result.len(), 2);
    assert_eq!(result[0], ("a".into(), Value::Int(1)));
    assert_eq!(result[1], ("b".into(), Value::Int(2)));
}

#[test]
fn float_literal_matches_by_bits() {
    let p = pat(PatternKind::Literal(LitPattern::Float(1.5f64.to_bits())));
    assert!(try_match(&p, &Value::Float(1.5f64.to_bits())).is_some());
    assert!(try_match(&p, &Value::Float(2.5f64.to_bits())).is_none());
}

#[test]
fn multi_field_variant_length_mismatch() {
    let p = pat(PatternKind::Variant(
        "Pair".into(),
        vec![pat(PatternKind::Binding("a".into())), pat(PatternKind::Binding("b".into()))],
    ));
    let v = Value::Variant("Pair".into(), Box::new(Value::Tuple(vec![Value::Int(1)])));
    assert!(try_match(&p, &v).is_none());
}

#[test]
fn ir_pattern_variant_with_list_payload() {
    let p = IRPattern::Variant("Pair".into(), vec![IRPattern::Bind("a".into()), IRPattern::Wild]);
    let v = Value::Variant("Pair".into(), Box::new(Value::List(vec![Value::Int(1), Value::Int(2)])));
    assert_eq!(try_match_ir(&p, &v), Some(vec![("a".into(), Value::Int(1))]));
    let t = Value::Variant("Pair".into(), Box::new(Value::Tuple(vec![Value::Int(1), Value::Int(2)])));
    assert_eq!(try_match_ir(&p, &t), None);
}

#[test]
fn ir_pattern_nullary_ignores_payload() {
    let p = IRPattern::Variant("None".into(), vec![]);
    assert_eq!(try_match_ir(&p, &Value::Variant("None".into(), Box::new(Value::Int(3)))), Some(vec![]));
}

#[test]
fn ir_pattern_literal_uses_value_equality() {
    let p = IRPattern::Lit(Value::List(vec![Value::Int(1), Value::Int(2)]));
    assert!(try_match_ir(&p, &Value::IntList(vec![1, 2])).is_some());
    assert!(try_match_ir(&p, &Value::IntList(vec![2, 1])).is_none());
}

#[test]
fn variant_fields_bind_left_to_right() {
    let p = pat(PatternKind::Variant("Pair".into(), vec![
        pat(PatternKind::Binding("a".into())),
        pat(PatternKind::Variant("Some".into(), vec![pat(PatternKind::Binding("b".into()))])),
        pat(PatternKind::Wildcard),
    ]));
    let v = Value::Variant("Pair".into(), Box::new(Value::Tuple(vec![
        Value::Int(1),
        Value::Variant("Some".into(), Box::new(Value::Int(2))),
        Value::Nil,
    ])));
    let b = try_match(&p, &v).expect("matches");
    let names: Vec<&str> = b.iter().map(|(n, _)| n.as_str()).collect();
    assert_eq!(names, vec!["a", "b"]);
    assert_eq!(b[0].1, Value::Int(1));
    assert_eq!(b[1].1, Value::Int(2));
    let short = Value::Variant("Pair".into(), Box::new(Value::Tuple(vec![Value::Int(1)])));
    assert!(try_match(&p, &short).is_none());
}
