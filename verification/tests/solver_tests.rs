use airl::solver::{FunctionVerification, ProofCache, TranslateError, VerifyResult};

#[test]
fn proof_cache_records_latest_result() {
    let mut cache = ProofCache::new();
    cache.insert("f", "(> x 0)", VerifyResult::Unknown("timeout".into()));
    assert!(!cache.is_proven("f", "(> x 0)"));
    cache.insert("f", "(> x 0)", VerifyResult::Proven);
    assert!(cache.is_proven("f", "(> x 0)"));
    assert!(!cache.is_proven("g", "(> x 0)"));
}

#[test]
fn proven_set_lists_each_proven_pair_once() {
    let mut cache = ProofCache::new();
    cache.insert("f", "a", VerifyResult::Proven);
    cache.insert("f", "b", VerifyResult::Unknown("u".into()));
    cache.insert("g", "a", VerifyResult::Proven);
    cache.insert("f", "a", VerifyResult::Proven);
    let mut set = cache.into_proven_set();
    set.sort();
    assert_eq!(set, vec![("f".to_string(), "a".to_string()), ("g".to_string(), "a".to_string())]);
}

#[test]
fn verification_summaries() {
    let all = FunctionVerification {
        function_name: "f".into(),
        ensures_results: vec![("a".into(), VerifyResult::Proven)],
        invariants_results: vec![("b".into(), VerifyResult::Proven)],
    };
    assert!(all.all_proven());
    assert!(!all.has_disproven());
    let bad = FunctionVerification {
        function_name: "g".into(),
        ensures_results: vec![("a".into(), VerifyResult::Proven)],
        invariants_results: vec![("b".into(), VerifyResult::Disproven { counterexample: vec![] })],
    };
    assert!(!bad.all_proven());
    assert!(bad.has_disproven());
}

#[test]
fn result_texts() {
    assert_eq!(VerifyResult::Proven.to_display_string(), "proven");
    assert_eq!(VerifyResult::Disproven { counterexample: vec![] }.to_display_string(), "disproven");
    assert_eq!(
        VerifyResult::Disproven { counterexample: vec![("x".into(), "1".into()), ("y".into(), "-2".into())] }.to_display_string(),
        "disproven (counterexample: x = 1, y = -2)"
    );
    assert_eq!(VerifyResult::Unknown("timeout".into()).to_display_string(), "unknown: timeout");
    assert_eq!(VerifyResult::TranslationError("bad".into()).to_display_string(), "translation error: bad");
}

#[test]
fn translate_errors_display() {
    assert_eq!(TranslateError::UnsupportedExpression("x".into()).to_display_string(), "unsupported: x");
    assert_eq!(TranslateError::UnsupportedType("T".into()).to_display_string(), "unsupported type: T");
    assert_eq!(TranslateError::UndefinedVariable("v".into()).to_display_string(), "undefined: v");
}
