use airl::env::{Env, FrameKind};
use airl::error::RuntimeError;
use airl::span::Span;
use airl::value::Value;

#[test]
fn new_env_has_module_frame() {
    let env = Env::new();
    assert_eq!(env.depth(), 1);
    assert_eq!(env.frame_kind(0), FrameKind::Module);
}

#[test]
fn bind_and_get() {
    let mut env = Env::new();
    env.bind("x".into(), Value::Int(42));
    assert_eq!(*env.get("x").unwrap(), Value::Int(42));
}

#[test]
fn undefined_symbol_error() {
    let env = Env::new();
    let err = env.get("nonexistent").unwrap_err();
    assert!(matches!(err, RuntimeError::UndefinedSymbol(ref s) if s == "nonexistent"));
}

#[test]
fn push_pop_frame() {
    let mut env = Env::new();
    env.bind("x".into(), Value::Int(1));
    env.push_frame(FrameKind::Let);
    env.bind("y".into(), Value::Int(2));
    assert_eq!(*env.get("x").unwrap(), Value::Int(1));
    assert_eq!(*env.get("y").unwrap(), Value::Int(2));
    env.pop_frame();
    assert_eq!(*env.get("x").unwrap(), Value::Int(1));
    assert!(env.get("y").is_err());
}

#[test]
fn inner_frame_shadows_outer() {
    let mut env = Env::new();
    env.bind("x".into(), Value::Int(1));
    env.push_frame(FrameKind::Function);
    env.bind("x".into(), Value::Int(2));
    assert_eq!(*env.get("x").unwrap(), Value::Int(2));
    env.pop_frame();
    assert_eq!(*env.get("x").unwrap(), Value::Int(1));
}

#[test]
fn mark_moved_and_use_after_move() {
    let mut env = Env::new();
    env.bind("v".into(), Value::Str("hello".into()));
    let span = Span::new(10, 15, 2, 5);
    env.mark_moved("v", span).unwrap();
    let err = env.get("v").unwrap_err();
    match err {
        RuntimeError::UseAfterMove { name, span: s } => {
            assert_eq!(name, "v");
            assert_eq!(s.line, 2);
            assert_eq!(s.col, 5);
        }
        _ => panic!("expected UseAfterMove"),
    }
}

#[test]
fn mark_moved_undefined_symbol() {
    let mut env = Env::new();
    let err = env.mark_moved("nope", Span::dummy()).unwrap_err();
    assert!(matches!(err, RuntimeError::UndefinedSymbol(_)));
}

#[test]
fn get_mut_updates_value() {
    let mut env = Env::new();
    env.bind("x".into(), Value::Int(1));
    {
        let v = env.get_mut("x").unwrap();
        *v = Value::Int(99);
    }
    assert_eq!(*env.get("x").unwrap(), Value::Int(99));
}

#[test]
fn get_mut_after_move_fails() {
    let mut env = Env::new();
    env.bind("x".into(), Value::Int(1));
    env.mark_moved("x", Span::dummy()).unwrap();
    assert!(env.get_mut("x").is_err());
}

#[test]
fn get_mut_undefined_fails() {
    let mut env = Env::new();
    assert!(env.get_mut("x").is_err());
}

#[test]
fn nested_frames() {
    let mut env = Env::new();
    env.bind("a".into(), Value::Int(1));
    env.push_frame(FrameKind::Function);
    env.bind("b".into(), Value::Int(2));
    env.push_frame(FrameKind::Let);
    env.bind("c".into(), Value::Int(3));
    env.push_frame(FrameKind::Match);
    env.bind("d".into(), Value::Int(4));
    assert_eq!(*env.get("a").unwrap(), Value::Int(1));
    assert_eq!(*env.get("d").unwrap(), Value::Int(4));
    env.pop_frame();
    assert!(env.get("d").is_err());
    assert_eq!(*env.get("c").unwrap(), Value::Int(3));
}

#[test]
fn borrow_immutable_succeeds() {
    let mut env = Env::new();
    env.bind("x".into(), Value::Int(42));
    env.borrow_immutable("x").unwrap();
    assert_eq!(*env.get("x").unwrap(), Value::Int(42));
}

#[test]
fn borrow_mutable_blocks_immutable() {
    let mut env = Env::new();
    env.bind("x".into(), Value::Int(1));
    env.borrow_mutable("x").unwrap();
    assert!(env.borrow_immutable("x").is_err());
}

#[test]
fn immutable_borrow_blocks_mutable() {
    let mut env = Env::new();
    env.bind("x".into(), Value::Int(1));
    env.borrow_immutable("x").unwrap();
    assert!(env.borrow_mutable("x").is_err());
}

#[test]
fn multiple_immutable_borrows_ok() {
    let mut env = Env::new();
    env.bind("x".into(), Value::Int(1));
    env.borrow_immutable("x").unwrap();
    env.borrow_immutable("x").unwrap();
}

#[test]
fn release_borrow_allows_mutable() {
    let mut env = Env::new();
    env.bind("x".into(), Value::Int(1));
    env.borrow_immutable("x").unwrap();
    env.release_immutable_borrow("x");
    env.borrow_mutable("x").unwrap();
}

#[test]
fn borrow_moved_value_fails() {
    let mut env = Env::new();
    env.bind("x".into(), Value::Int(1));
    env.mark_moved("x", Span::dummy()).unwrap();
    assert!(env.borrow_immutable("x").is_err());
}

#[test]
fn mark_moved_while_borrowed_fails() {
    let mut env = Env::new();
    env.bind("x".into(), Value::Int(1));
    env.borrow_immutable("x").unwrap();
    let err = env.mark_moved("x", Span::dummy()).unwrap_err();
    assert!(matches!(err, RuntimeError::Custom(ref s) if s.contains("borrowed")));
}

#[test]
fn release_mutable_borrow_allows_immutable() {
    let mut env = Env::new();
    env.bind("x".into(), Value::Int(1));
    env.borrow_mutable("x").unwrap();
    env.release_mutable_borrow("x");
    env.borrow_immutable("x").unwrap();
}

#[test]
fn borrow_error_messages() {
    let mut env = Env::new();
    env.bind("x".into(), Value::Int(1));
    env.borrow_mutable("x").unwrap();
    match env.borrow_mutable("x").unwrap_err() {
        RuntimeError::Custom(m) => assert_eq!(m, "cannot mutably borrow `x` — already mutably borrowed"),
        other => panic!("unexpected {:?}", other),
    }
    match env.borrow_immutable("x").unwrap_err() {
        RuntimeError::Custom(m) => assert_eq!(m, "cannot immutably borrow `x` — already mutably borrowed"),
        other => panic!("unexpected {:?}", other),
    }
    match env.mark_moved("x", Span::dummy()).unwrap_err() {
        RuntimeError::Custom(m) => assert_eq!(m, "cannot move `x` — borrowed"),
        other => panic!("unexpected {:?}", other),
    }
}

#[test]
fn rebinding_in_same_frame_replaces() {
    let mut env = Env::new();
    env.bind("x".into(), Value::Int(1));
    env.mark_moved("x", Span::dummy()).unwrap();
    env.bind("x".into(), Value::Int(2));
    assert_eq!(*env.get("x").unwrap(), Value::Int(2));
}

#[test]
fn iter_bindings_returns_all() {
    let mut env = Env::new();
    env.bind("a".into(), Value::Int(1));
    env.bind("b".into(), Value::Int(2));
    let bindings = env.iter_bindings();
    let names: Vec<&str> = bindings.iter().map(|(n, _)| *n).collect();
    assert_eq!(names, vec!["a", "b"]);
}

#[test]
fn iter_bindings_sorts_and_shows_innermost() {
    let mut env = Env::new();
    env.bind("zeta".into(), Value::Int(1));
    env.bind("alpha".into(), Value::Int(2));
    env.push_frame(FrameKind::Function);
    env.bind("zeta".into(), Value::Int(3));
    env.bind("al".into(), Value::Int(4));
    let bindings = env.iter_bindings();
    let names: Vec<&str> = bindings.iter().map(|(n, _)| *n).collect();
    assert_eq!(names, vec!["al", "alpha", "zeta"]);
    assert_eq!(bindings[2].1.value, Value::Int(3));
}
