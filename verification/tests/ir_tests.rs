use airl::error::RuntimeError;
use airl::ir::{IRNode, IRPattern};
use airl::ir_marshal::{value_to_ir, value_to_pattern};
use airl::value::Value;

fn var(tag: &str, inner: Value) -> Value {
    Value::Variant(tag.into(), Box::new(inner))
}

#[test]
fn test_marshal_int() {
    let val = var("IRInt", Value::Int(42));
    let node = value_to_ir(&val).unwrap();
    match node {
        IRNode::Int(42) => {}
        _ => panic!("expected IRNode::Int(42)"),
    }
}

#[test]
fn test_marshal_pattern() {
    let val = var("IRPatBind", Value::Str("x".into()));
    let pat = value_to_pattern(&val).unwrap();
    match pat {
        IRPattern::Bind(name) => assert_eq!(name, "x"),
        _ => panic!("expected Bind"),
    }
}

#[test]
fn marshal_if_structure() {
    let val = var("IRIf", Value::List(vec![
        var("IRBool", Value::Bool(true)),
        var("IRInt", Value::Int(1)),
        var("IRInt", Value::Int(2)),
    ]));
    match value_to_ir(&val).unwrap() {
        IRNode::If(c, t, e) => {
            assert!(matches!(*c, IRNode::Bool(true)));
            assert!(matches!(*t, IRNode::Int(1)));
            assert!(matches!(*e, IRNode::Int(2)));
        }
        other => panic!("unexpected {:?}", other),
    }
}

#[test]
fn marshal_call_structure() {
    let val = var("IRCall", Value::List(vec![
        Value::Str("+".into()),
        Value::List(vec![var("IRInt", Value::Int(3)), var("IRInt", Value::Int(4))]),
    ]));
    match value_to_ir(&val).unwrap() {
        IRNode::Call(name, args) => {
            assert_eq!(name, "+");
            assert_eq!(args.len(), 2);
            assert!(matches!(args[1], IRNode::Int(4)));
        }
        other => panic!("unexpected {:?}", other),
    }
}

#[test]
fn marshal_func_let_match() {
    let body = var("IRLet", Value::List(vec![
        Value::List(vec![var("IRBinding", Value::List(vec![Value::Str("y".into()), var("IRLoad", Value::Str("x".into()))]))]),
        var("IRMatch", Value::List(vec![
            var("IRLoad", Value::Str("y".into())),
            Value::List(vec![
                var("IRArm", Value::List(vec![var("IRPatLit", Value::Int(0)), var("IRNil", Value::Nil)])),
                var("IRArm", Value::List(vec![var("IRPatWild", Value::Nil), var("IRStr", Value::Str("other".into()))])),
            ]),
        ])),
    ]));
    let f = var("IRFunc", Value::List(vec![Value::Str("f".into()), Value::List(vec![Value::Str("x".into())]), body]));
    match value_to_ir(&f).unwrap() {
        IRNode::Func(name, params, body) => {
            assert_eq!(name, "f");
            assert_eq!(params, vec!["x".to_string()]);
            match *body {
                IRNode::Let(bs, inner) => {
                    assert_eq!(bs.len(), 1);
                    assert_eq!(bs[0].name, "y");
                    match *inner {
                        IRNode::Match(_, arms) => {
                            assert_eq!(arms.len(), 2);
                            assert!(matches!(&arms[0].pattern, IRPattern::Lit(Value::Int(0))));
                            assert!(matches!(&arms[1].pattern, IRPattern::Wild));
                        }
                        other => panic!("unexpected {:?}", other),
                    }
                }
                other => panic!("unexpected {:?}", other),
            }
        }
        other => panic!("unexpected {:?}", other),
    }
}

fn ir_err(v: &Value) -> String {
    match value_to_ir(v) {
        Err(RuntimeError::TypeError(m)) => m,
        other => panic!("expected a type error, got {:?}", other),
    }
}

#[test]
fn marshal_error_messages() {
    assert_eq!(ir_err(&var("IRInt", Value::Bool(true))), "IR marshal: IRInt expects Int");
    assert_eq!(ir_err(&var("IRIf", Value::List(vec![]))), "IR marshal: IRIf: expected 3 items, got 0");
    assert_eq!(ir_err(&var("IRDo", Value::Nil)), "IR marshal: IRDo: expected list");
    assert_eq!(ir_err(&var("IRBinding", Value::Nil)), "IR marshal: IRBinding is not a standalone node");
    assert_eq!(ir_err(&var("IRWhat", Value::Nil)), "IR marshal: unknown IR node tag: IRWhat");
    assert_eq!(
        ir_err(&var("IRLambda", Value::List(vec![Value::List(vec![Value::Int(1)]), var("IRNil", Value::Nil)]))),
        "IR marshal: IRLambda params: expected string"
    );
    assert_eq!(
        ir_err(&var("IRDo", Value::List(vec![var("IRNil", Value::Nil), var("IRStr", Value::Int(1)), var("IRInt", Value::Nil)]))),
        "IR marshal: IRStr expects Str"
    );
}

#[test]
fn marshal_pattern_variants() {
    let p = var("IRPatVariant", Value::List(vec![
        Value::Str("Some".into()),
        Value::List(vec![var("IRPatBind", Value::Str("v".into()))]),
    ]));
    match value_to_pattern(&p).unwrap() {
        IRPattern::Variant(tag, subs) => {
            assert_eq!(tag, "Some");
            assert_eq!(subs.len(), 1);
        }
        other => panic!("unexpected {:?}", other),
    }
    match value_to_pattern(&var("IRPatNope", Value::Nil)) {
        Err(RuntimeError::TypeError(m)) => assert_eq!(m, "IR marshal: unknown pattern tag: IRPatNope"),
        other => panic!("unexpected {:?}", other),
    }
}
