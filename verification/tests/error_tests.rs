use airl::error::RuntimeError;
use airl::span::Span;

#[test]
fn type_error_display() {
    let e = RuntimeError::TypeError("expected i32, got bool".into());
    assert!(e.to_display_string().contains("expected i32"));
}

#[test]
fn use_after_move_display() {
    let e = RuntimeError::UseAfterMove { name: "x".into(), span: Span::new(0, 1, 3, 5) };
    let s = e.to_display_string();
    assert!(s.contains("x"));
    assert!(s.contains("3:5"));
}

#[test]
fn division_by_zero_display() {
    assert_eq!(RuntimeError::DivisionByZero.to_display_string(), "DivisionByZero");
}

#[test]
fn index_out_of_bounds_display() {
    let s = RuntimeError::IndexOutOfBounds { index: 10, len: 5 }.to_display_string();
    assert!(s.contains("10"));
    assert!(s.contains("5"));
}

#[test]
fn shape_mismatch_display() {
    let e = RuntimeError::ShapeMismatch { expected: vec![2, 3], got: vec![3, 2] };
    let s = e.to_display_string();
    assert!(s.contains("[2, 3]"));
    assert!(s.contains("[3, 2]"));
}

#[test]
fn undefined_symbol_display() {
    assert!(RuntimeError::UndefinedSymbol("foo".into()).to_display_string().contains("foo"));
}

#[test]
fn not_callable_display() {
    assert!(RuntimeError::NotCallable("integer".into()).to_display_string().contains("integer"));
}

#[test]
fn try_on_non_result_display() {
    assert!(RuntimeError::TryOnNonResult("i32".into()).to_display_string().contains("i32"));
}

#[test]
fn custom_display() {
    assert!(RuntimeError::Custom("something went wrong".into()).to_display_string().contains("something went wrong"));
}

#[test]
fn display_texts_exact() {
    assert_eq!(RuntimeError::TypeError("t".into()).to_display_string(), "TypeError: t");
    assert_eq!(
        RuntimeError::UseAfterMove { name: "v".into(), span: Span::new(0, 1, 12, 7) }.to_display_string(),
        "UseAfterMove: `v` was moved at 12:7"
    );
    assert_eq!(
        RuntimeError::IndexOutOfBounds { index: 10, len: 5 }.to_display_string(),
        "IndexOutOfBounds: index 10 but length is 5"
    );
    assert_eq!(
        RuntimeError::ShapeMismatch { expected: vec![], got: vec![7] }.to_display_string(),
        "ShapeMismatch: expected [], got [7]"
    );
    assert_eq!(RuntimeError::UndefinedSymbol("foo".into()).to_display_string(), "UndefinedSymbol: `foo`");
    assert_eq!(RuntimeError::NotCallable("n".into()).to_display_string(), "NotCallable: n");
    assert_eq!(RuntimeError::TryOnNonResult("r".into()).to_display_string(), "TryOnNonResult: r");
    assert_eq!(RuntimeError::Custom("plain".into()).to_display_string(), "plain");
}
