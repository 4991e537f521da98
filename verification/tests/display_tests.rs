use airl::display::DisplayPiece;
use airl::value::Value;

/// The pieces joined, each float written as `<f:bits>`.
fn joined(v: &Value) -> String {
    v.display_pieces()
        .into_iter()
        .map(|p| match p {
            DisplayPiece::Text(s) => s,
            DisplayPiece::Float(bits) => format!("<f:{}>", bits),
        })
        .collect()
}

#[test]
fn scalars_print() {
    assert_eq!(joined(&Value::Int(-42)), "-42");
    assert_eq!(joined(&Value::Bool(true)), "true");
    assert_eq!(joined(&Value::Str("hi".into())), "\"hi\"");
    assert_eq!(joined(&Value::Nil), "nil");
    assert_eq!(joined(&Value::Unit), "()");
    assert_eq!(joined(&Value::Bytes(vec![1, 2, 3])), "<Bytes len=3>");
    assert_eq!(joined(&Value::BuiltinFn("print".into())), "<builtin print>");
    assert_eq!(joined(&Value::IRFuncRef("f".into())), "<ir-fn:f>");
}

#[test]
fn collections_print() {
    let l = Value::List(vec![Value::Int(1), Value::Str("a".into()), Value::List(vec![])]);
    assert_eq!(joined(&l), "[1 \"a\" []]");
    assert_eq!(joined(&Value::IntList(vec![1, -2, 3])), "[1 -2 3]");
    assert_eq!(joined(&Value::Tuple(vec![Value::Int(1), Value::Bool(false)])), "(1 false)");
    assert_eq!(joined(&Value::Variant("None".into(), Box::new(Value::Unit))), "(None)");
    assert_eq!(joined(&Value::Variant("Some".into(), Box::new(Value::Int(5)))), "(Some 5)");
}

#[test]
fn map_keys_print_in_order() {
    let d = Value::Dict(vec![
        ("b".into(), Value::Int(2)),
        ("a".into(), Value::Int(1)),
        ("ab".into(), Value::Nil),
        ("B".into(), Value::Bool(true)),
    ]);
    assert_eq!(joined(&d), "{B: true, a: 1, ab: nil, b: 2}");
    assert_eq!(joined(&Value::Dict(vec![])), "{}");
}

#[test]
fn floats_are_left_to_the_caller() {
    let v = Value::List(vec![Value::Float(2.5f64.to_bits()), Value::Int(1)]);
    let pieces = v.display_pieces();
    assert!(pieces.iter().any(|p| matches!(p, DisplayPiece::Float(b) if *b == 2.5f64.to_bits())));
    assert_eq!(joined(&v), format!("[<f:{}> 1]", 2.5f64.to_bits()));
}
