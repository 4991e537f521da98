use airl::cache::DiskCache;
use airl::solver::{FunctionVerification, VerifyResult};

fn verification(name: &str, ensures: Vec<(&str, VerifyResult)>) -> FunctionVerification {
    FunctionVerification {
        function_name: name.into(),
        ensures_results: ensures.into_iter().map(|(c, r)| (c.to_string(), r)).collect(),
        invariants_results: vec![],
    }
}

#[test]
fn parse_line_reads_every_field() {
    let line = r#"{"key":12345,"fn":"name","ensures":[["(>= result 0)","Proven"],["x","Unknown"]],"invariants":[]}"#;
    assert!(!DiskCache::parse_line_panics(line));
    let (key, entry) = DiskCache::parse_line(line).unwrap();
    assert_eq!(key, 12345);
    assert_eq!(entry.function_name, "name");
    assert_eq!(entry.ensures_results, vec![
        ("(>= result 0)".to_string(), "Proven".to_string()),
        ("x".to_string(), "Unknown".to_string()),
    ]);
    assert!(entry.invariants_results.is_empty());
}

#[test]
fn parse_line_rejects_incomplete_lines() {
    assert!(DiskCache::parse_line(r#"{"fn":"f","ensures":[],"invariants":[]}"#).is_none());
    assert!(DiskCache::parse_line(r#"{"key":1,"ensures":[],"invariants":[]}"#).is_none());
    assert!(DiskCache::parse_line(r#"{"key":1,"fn":"f","invariants":[]}"#).is_none());
    assert!(DiskCache::parse_line(r#"{"key":99999999999999999999,"fn":"f","ensures":[],"invariants":[]}"#).is_none());
    assert!(DiskCache::parse_line_panics(r#"{"key":1,"fn":"f","ensures":[["a","b"]"#));
}

#[test]
fn insert_then_get_maps_tags_back() {
    let mut cache = DiskCache::new();
    cache.insert(7, &verification("f", vec![
        ("a", VerifyResult::Proven),
        ("b", VerifyResult::Unknown("timeout".into())),
        ("c", VerifyResult::TranslationError("no".into())),
    ]));
    let fv = cache.get(7).unwrap();
    assert_eq!(fv.function_name, "f");
    assert!(matches!(fv.ensures_results[0].1, VerifyResult::Proven));
    assert!(matches!(&fv.ensures_results[1].1, VerifyResult::Unknown(r) if r == "cached"));
    assert!(matches!(&fv.ensures_results[2].1, VerifyResult::TranslationError(r) if r == "cached"));
    assert!(cache.get(8).is_none());
}

#[test]
fn disproven_results_are_not_cached() {
    let mut cache = DiskCache::new();
    cache.insert(1, &verification("f", vec![("a", VerifyResult::Disproven { counterexample: vec![] })]));
    assert!(cache.get(1).is_none());
    assert!(cache.to_lines().is_none());
}

#[test]
fn unknown_tags_read_back_as_unknown() {
    let cache = DiskCache::from_lines(&vec![
        r#"{"key":3,"fn":"g","ensures":[["c","Weird"]],"invariants":[]}"#.to_string(),
        "not json".to_string(),
    ]);
    let fv = cache.get(3).unwrap();
    assert!(matches!(&fv.ensures_results[0].1, VerifyResult::Unknown(r) if r == "unknown cache tag: Weird"));
    assert!(cache.to_lines().is_none());
}

#[test]
fn written_lines_render_entries() {
    let mut cache = DiskCache::new();
    cache.insert(42, &verification("f", vec![("(> x \"a\")", VerifyResult::Proven)]));
    let lines = cache.to_lines().unwrap();
    assert_eq!(lines, vec![r#"{"key":42,"fn":"f","ensures":[["(> x \"a\")","Proven"]],"invariants":[]}"#.to_string()]);
}

#[test]
fn written_line_loads_back() {
    let mut cache = DiskCache::new();
    cache.insert(9, &verification("h", vec![("(= result 1)", VerifyResult::Proven), ("y", VerifyResult::Unknown("r".into()))]));
    let lines = cache.to_lines().unwrap();
    let loaded = DiskCache::from_lines(&lines);
    let fv = loaded.get(9).unwrap();
    assert_eq!(fv.function_name, "h");
    assert_eq!(fv.ensures_results[0].0, "(= result 1)");
    assert!(matches!(fv.ensures_results[0].1, VerifyResult::Proven));
    assert!(matches!(&fv.ensures_results[1].1, VerifyResult::Unknown(r) if r == "cached"));
}

#[test]
fn evict_keeps_only_current_keys() {
    let mut cache = DiskCache::new();
    cache.insert(1, &verification("a", vec![]));
    cache.insert(2, &verification("b", vec![]));
    cache.insert(3, &verification("c", vec![]));
    cache.evict_stale(&[3, 1, 5]);
    assert!(cache.get(1).is_some());
    assert!(cache.get(2).is_none());
    assert!(cache.get(3).is_some());
    assert_eq!(cache.to_lines().unwrap().len(), 2);
}
