use airl::value::{is_truthy, Value, BytecodeClosureValue};

#[test]
fn float_eq_bitwise() {
    assert_eq!(Value::Float(0.0f64.to_bits()), Value::Float(0.0f64.to_bits()));
    assert_eq!(Value::Float(f64::NAN.to_bits()), Value::Float(f64::NAN.to_bits()));
    assert_ne!(Value::Float((-0.0f64).to_bits()), Value::Float(0.0f64.to_bits()));
}

#[test]
fn variant_eq() {
    let a = Value::Variant("Ok".into(), Box::new(Value::Int(1)));
    let b = Value::Variant("Ok".into(), Box::new(Value::Int(1)));
    let c = Value::Variant("Err".into(), Box::new(Value::Int(1)));
    assert_eq!(a, b);
    assert_ne!(a, c);
}

#[test]
fn cross_type_not_equal() {
    assert_ne!(Value::Int(0), Value::Bool(false));
    assert_ne!(Value::Nil, Value::Bool(false));
}

#[test]
fn value_is_clone_and_debug() {
    let v = Value::Int(42);
    let v2 = v.clone();
    let _ = format!("{:?}", v2);
}

#[test]
fn intlist_eq_intlist() {
    assert_eq!(Value::IntList(vec![1, 2, 3]), Value::IntList(vec![1, 2, 3]));
    assert_ne!(Value::IntList(vec![1, 2]), Value::IntList(vec![1, 2, 3]));
}

#[test]
fn intlist_eq_list_cross() {
    let il = Value::IntList(vec![1, 2, 3]);
    let l = Value::List(vec![Value::Int(1), Value::Int(2), Value::Int(3)]);
    assert_eq!(il, l);
    assert_eq!(l, il);
}

#[test]
fn intlist_neq_list_mixed() {
    let il = Value::IntList(vec![1, 2, 3]);
    let l = Value::List(vec![Value::Int(1), Value::Str("two".into()), Value::Int(3)]);
    assert_ne!(il, l);
}

#[test]
fn intlist_into_list() {
    let il = Value::IntList(vec![10, 20]);
    assert_eq!(il.into_list(), vec![Value::Int(10), Value::Int(20)]);
}

#[test]
fn int_equality() {
    let v = Value::Int(42);
    assert_eq!(v, Value::Int(42));
    assert_ne!(v, Value::Int(43));
}

#[test]
fn str_bool_nil_unit_equality() {
    assert_eq!(Value::Str("hello".into()), Value::Str("hello".into()));
    assert_ne!(Value::Str("hello".into()), Value::Str("world".into()));
    assert_eq!(Value::Bool(false), Value::Bool(false));
    assert_eq!(Value::Nil, Value::Nil);
    assert_eq!(Value::Unit, Value::Unit);
    assert_ne!(Value::Nil, Value::Unit);
}

#[test]
fn list_and_tuple_equality() {
    let v = Value::List(vec![Value::Int(1), Value::Int(2), Value::Int(3)]);
    assert_eq!(v, Value::List(vec![Value::Int(1), Value::Int(2), Value::Int(3)]));
    assert_ne!(v, Value::List(vec![Value::Int(1), Value::Int(2)]));
    assert_ne!(v, Value::Tuple(vec![Value::Int(1), Value::Int(2), Value::Int(3)]));
    assert_eq!(Value::Tuple(vec![Value::Int(1), Value::Str("hi".into())]), Value::Tuple(vec![Value::Int(1), Value::Str("hi".into())]));
}

#[test]
fn map_equality_ignores_order() {
    let m1 = Value::Dict(vec![("b".into(), Value::Int(2)), ("a".into(), Value::Int(1))]);
    let m2 = Value::Dict(vec![("a".into(), Value::Int(1)), ("b".into(), Value::Int(2))]);
    let m3 = Value::Dict(vec![("a".into(), Value::Int(1))]);
    let m4 = Value::Dict(vec![("a".into(), Value::Int(1)), ("b".into(), Value::Int(3))]);
    assert_eq!(m1, m2);
    assert_ne!(m1, m3);
    assert_ne!(m1, m4);
    assert_eq!(Value::Dict(vec![]), Value::Dict(vec![]));
}

#[test]
fn builtin_and_function_refs() {
    assert_eq!(Value::BuiltinFn("print".into()), Value::BuiltinFn("print".into()));
    assert_ne!(Value::BuiltinFn("print".into()), Value::IRFuncRef("print".into()));
    assert_eq!(Value::IRFuncRef("f".into()), Value::IRFuncRef("f".into()));
}

#[test]
fn closures_are_never_equal() {
    let c = Value::BytecodeClosure(BytecodeClosureValue { func_name: "f".into(), captured: vec![] });
    let d = c.clone();
    assert_ne!(c, d);
}

#[test]
fn bytes_equality_and_into_list() {
    assert_eq!(Value::Bytes(vec![1, 2]), Value::Bytes(vec![1, 2]));
    assert_ne!(Value::Bytes(vec![1, 2]), Value::Bytes(vec![2, 1]));
    assert_eq!(Value::Bytes(vec![7, 255]).into_list(), vec![Value::Int(7), Value::Int(255)]);
}

#[test]
fn scalar_into_list_is_singleton() {
    assert_eq!(Value::Int(5).into_list(), vec![Value::Int(5)]);
    assert_eq!(Value::List(vec![Value::Nil]).into_list(), vec![Value::Nil]);
}

#[test]
fn clone_keeps_nested_contents() {
    let v = Value::Variant("Some".into(), Box::new(Value::Dict(vec![("k".into(), Value::List(vec![Value::Int(1)]))])));
    assert_eq!(v.clone(), v);
}

#[test]
fn truthiness_of_values() {
    assert!(!is_truthy(&Value::Bool(false)));
    assert!(is_truthy(&Value::Bool(true)));
    assert!(!is_truthy(&Value::Nil));
    assert!(!is_truthy(&Value::Unit));
    assert!(!is_truthy(&Value::Int(0)));
    assert!(is_truthy(&Value::Int(-3)));
    assert!(is_truthy(&Value::Str(String::new())));
}
