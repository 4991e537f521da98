use airl::span::Span;

#[test]
fn span_merge_takes_outer_bounds() {
    let a = Span::new(5, 10, 1, 5);
    let b = Span::new(15, 20, 2, 3);
    let merged = a.merge(b);
    assert_eq!(merged.start, 5);
    assert_eq!(merged.end, 20);
}

#[test]
fn span_len() {
    let s = Span::new(3, 10, 1, 3);
    assert_eq!(s.len(), 7);
}
