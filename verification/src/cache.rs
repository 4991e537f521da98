//! Disk-backed cache of verification results: one JSON object per line,
//! parsed and rendered by hand. Reading and writing the file is the
//! caller's business; this module turns lines into entries and back.
use vstd::prelude::*;
use crate::chars::{find_char_from, find_seq_from, trim_by, ws_pred, quote_pred, find_char_from_exec, find_seq_from_exec, trim_by_exec};
use crate::text::{str_chars, string_from_chars, u64_to_string, decimal, push_char};
use crate::solver::{VerifyResult, SpecVerifyResult, FunctionVerification, SpecFunctionVerification, view_pairs, view_results, any_disproven_in};
use std::collections::HashMap;
use vstd::std_specs::iter::IteratorSpec;

verus! {

broadcast use vstd::std_specs::vec::group_vec_axioms, vstd::std_specs::hash::group_hash_axioms;

pub open spec fn is_ascii_digit_char(c: char) -> bool {
    '0' <= c <= '9'
}

pub open spec fn digits_u64(d: Seq<char>) -> nat
    decreases d.len(),
{
    if d.len() == 0 {
        0
    } else {
        digits_u64(d.drop_last()) * 10 + ((d.last() as u32) - 48) as nat
    }
}

/// `str::parse::<u64>` on a string of ASCII digits.
pub open spec fn parse_u64_digits(d: Seq<char>) -> Option<u64> {
    if d.len() == 0 || digits_u64(d) > u64::MAX {
        None
    } else {
        Some(digits_u64(d) as u64)
    }
}

/// First index at or after `from` that is not an ASCII digit.
pub open spec fn first_non_digit(s: Seq<char>, from: int) -> Option<int>
    decreases s.len() - from,
{
    if from < 0 || from >= s.len() {
        None
    } else if !is_ascii_digit_char(s[from]) {
        Some(from)
    } else {
        first_non_digit(s, from + 1)
    }
}

/// The number right after `prefix`, which must be followed by a non-digit.
pub open spec fn spec_extract_u64(s: Seq<char>, prefix: Seq<char>) -> Option<u64> {
    match find_seq_from(s, 0, prefix) {
        None => None,
        Some(i) => {
            let start = i + prefix.len();
            match first_non_digit(s, start) {
                None => None,
                Some(end) => parse_u64_digits(s.subrange(start, end)),
            }
        },
    }
}

/// The text between `prefix` and the next `"`.
pub open spec fn spec_extract_string(s: Seq<char>, prefix: Seq<char>) -> Option<Seq<char>> {
    match find_seq_from(s, 0, prefix) {
        None => None,
        Some(i) => {
            let start = i + prefix.len();
            match find_char_from(s, start, '"') {
                None => None,
                Some(end) => Some(s.subrange(start, end)),
            }
        },
    }
}

/// Index of the `]` that brings the bracket depth from `depth` to zero.
pub open spec fn close_of(s: Seq<char>, j: int, depth: int) -> Option<int>
    decreases s.len() - j,
{
    if j < 0 || j >= s.len() {
        None
    } else if s[j] == '[' {
        close_of(s, j + 1, depth + 1)
    } else if s[j] == ']' {
        if depth - 1 == 0 { Some(j) } else { close_of(s, j + 1, depth - 1) }
    } else {
        close_of(s, j + 1, depth)
    }
}

pub proof fn lemma_close_of_after(s: Seq<char>, j: int, depth: int)
    ensures
        close_of(s, j, depth) matches Some(e) ==> j <= e < s.len(),
    decreases s.len() - j,
{
    if 0 <= j < s.len() {
        lemma_close_of_after(s, j + 1, depth + 1);
        lemma_close_of_after(s, j + 1, depth - 1);
        lemma_close_of_after(s, j + 1, depth);
    }
}

/// First comma in `s`, if any.
pub open spec fn first_comma(s: Seq<char>) -> Option<int> {
    find_char_from(s, 0, ',')
}

pub open spec fn clean_part(p: Seq<char>) -> Seq<char> {
    trim_by(trim_by(p, ws_pred()), quote_pred())
}

/// The `["clause","result"]` pairs inside a bracket body, from `pos` on.
pub open spec fn parse_pairs(inner: Seq<char>, pos: int) -> Seq<(Seq<char>, Seq<char>)>
    decreases inner.len() - pos,
{
    match find_char_from(inner, pos, '[') {
        None => Seq::empty(),
        Some(a) => match find_char_from(inner, a, ']') {
            None => Seq::empty(),
            Some(b) => {
                let pair = inner.subrange(a + 1, b);
                let rest = if pos <= b < inner.len() { parse_pairs(inner, b + 1) } else { Seq::empty() };
                match first_comma(pair) {
                    Some(c) => seq![(clean_part(pair.subrange(0, c)), clean_part(pair.subrange(c + 1, pair.len() as int)))] + rest,
                    None => rest,
                }
            },
        },
    }
}

/// Where the bracketed list after `prefix` starts, and where its matching
/// close bracket is (if any).
pub open spec fn clause_list_bounds(s: Seq<char>, prefix: Seq<char>) -> Option<(int, Option<int>)> {
    match find_seq_from(s, 0, prefix) {
        None => None,
        Some(i) => match find_char_from(s, i + prefix.len(), '[') {
            None => None,
            Some(bs) => Some((bs, close_of(s, bs, 0))),
        },
    }
}

/// Reading a line cannot go on when the list after `prefix` opens but
/// never closes: there is no end to slice the list at.
pub open spec fn clause_list_unclosed(s: Seq<char>, prefix: Seq<char>) -> bool {
    clause_list_bounds(s, prefix) matches Some((_, None))
}

pub open spec fn spec_extract_clause_results(s: Seq<char>, prefix: Seq<char>) -> Option<Seq<(Seq<char>, Seq<char>)>> {
    match clause_list_bounds(s, prefix) {
        None => None,
        Some((bs, close)) => {
            let end = match close { Some(e) => e, None => bs + 1 };
            let inner = s.subrange(bs + 1, end);
            if trim_by(inner, ws_pred()).len() == 0 {
                Some(Seq::empty())
            } else {
                Some(parse_pairs(inner, 0))
            }
        },
    }
}

pub open spec fn key_prefix() -> Seq<char> { "\"key\":"@ }
pub open spec fn fn_prefix() -> Seq<char> { "\"fn\":\""@ }
pub open spec fn ensures_prefix() -> Seq<char> { "\"ensures\":"@ }
pub open spec fn invariants_prefix() -> Seq<char> { "\"invariants\":"@ }

pub struct SpecCacheEntry {
    pub function_name: Seq<char>,
    pub ensures_results: Seq<(Seq<char>, Seq<char>)>,
    pub invariants_results: Seq<(Seq<char>, Seq<char>)>,
}

/// Parse of one cache line: key, function name, then both clause lists.
pub open spec fn spec_parse_line(s: Seq<char>) -> Option<(u64, SpecCacheEntry)> {
    match spec_extract_u64(s, key_prefix()) {
        None => None,
        Some(key) => match spec_extract_string(s, fn_prefix()) {
            None => None,
            Some(name) => match spec_extract_clause_results(s, ensures_prefix()) {
                None => None,
                Some(ens) => match spec_extract_clause_results(s, invariants_prefix()) {
                    None => None,
                    Some(inv) => Some((key, SpecCacheEntry { function_name: name, ensures_results: ens, invariants_results: inv })),
                },
            },
        },
    }
}

/// The lines a reader cannot finish: a clause list it reaches opens and
/// never closes.
pub open spec fn spec_parse_line_panics(s: Seq<char>) -> bool {
    spec_extract_u64(s, key_prefix()) is Some && spec_extract_string(s, fn_prefix()) is Some && (
    clause_list_unclosed(s, ensures_prefix()) || (spec_extract_clause_results(s, ensures_prefix()) is Some
        && clause_list_unclosed(s, invariants_prefix())))
}

/// Serializable cache entry for a single function's results.
pub struct CacheEntry {
    pub function_name: String,
    pub ensures_results: Vec<(String, String)>,
    pub invariants_results: Vec<(String, String)>,
}

impl View for CacheEntry {
    type V = SpecCacheEntry;

    open spec fn view(&self) -> SpecCacheEntry {
        SpecCacheEntry {
            function_name: self.function_name@,
            ensures_results: crate::solver::view_pairs(self.ensures_results@),
            invariants_results: crate::solver::view_pairs(self.invariants_results@),
        }
    }
}

fn extract_u64(s: &Vec<char>, prefix: &Vec<char>) -> (r: Option<u64>)
    ensures
        r == spec_extract_u64(s@, prefix@),
{
    let i = match find_seq_from_exec(s, 0, prefix) {
        Some(i) => i,
        None => {
            return None;
        },
    };
    let slen = s.len();
    assert(s@.len() <= usize::MAX);
    let start = i + prefix.len();
    let mut j = start;
    while j < s.len() && s[j] >= '0' && s[j] <= '9'
        invariant
            start <= j,
            forall|m: int| start <= m < j ==> is_ascii_digit_char(#[trigger] s@[m]),
            first_non_digit(s@, start as int) == first_non_digit(s@, j as int),
        decreases s@.len() - j,
    {
        j += 1;
    }
    if j >= s.len() {
        return None;
    }
    let end = j;
    if start == end {
        return None;
    }
    let mut v: u128 = 0;
    let mut k = start;
    assert(s@.subrange(start as int, start as int).len() == 0);
    while k < end
        invariant
            start <= k <= end < s@.len(),
            forall|m: int| start <= m < end ==> is_ascii_digit_char(#[trigger] s@[m]),
            v == digits_u64(s@.subrange(start as int, k as int)) || (v == u64::MAX as u128 + 1 && digits_u64(s@.subrange(start as int, k as int)) > u64::MAX),
            v <= u64::MAX as u128 + 1,
        decreases end - k,
    {
        let d = (s[k] as u32 - 48) as u128;
        proof {
            assert(s@.subrange(start as int, k + 1).drop_last() =~= s@.subrange(start as int, k as int));
            let pv = digits_u64(s@.subrange(start as int, k as int));
            assert(pv * 10 + d >= pv) by (nonlinear_arith)
                requires
                    d >= 0,
                    pv >= 0,
            ;
        }
        if v > u64::MAX as u128 {
            v = u64::MAX as u128 + 1;
        } else {
            let nv = v * 10 + d;
            if nv > u64::MAX as u128 {
                v = u64::MAX as u128 + 1;
            } else {
                v = nv;
            }
        }
        k += 1;
    }
    if v > u64::MAX as u128 { None } else { Some(v as u64) }
}

fn extract_string(s: &Vec<char>, prefix: &Vec<char>) -> (r: Option<String>)
    ensures
        match spec_extract_string(s@, prefix@) {
            Some(t) => r matches Some(x) && x@ == t,
            None => r is None,
        },
{
    let i = match find_seq_from_exec(s, 0, prefix) {
        Some(i) => i,
        None => {
            return None;
        },
    };
    let slen = s.len();
    assert(s@.len() <= usize::MAX);
    let start = i + prefix.len();
    match find_char_from_exec(s, start, '"') {
        Some(end) => Some(string_from_chars(s.as_slice(), start, end)),
        None => None,
    }
}

fn close_of_exec(s: &Vec<char>, bs: usize) -> (r: Option<usize>)
    requires
        bs < s@.len(),
    ensures
        r is None <==> close_of(s@, bs as int, 0) is None,
        r matches Some(e) ==> close_of(s@, bs as int, 0) == Some(e as int),
        r matches Some(e) ==> bs <= e < s@.len(),
{
    let slen = s.len();
    let mut depth: i128 = 0;
    let mut j = bs;
    while j < s.len()
        invariant
            bs <= j,
            -(j as int - bs) <= depth <= j as int - bs,
            j <= s@.len(),
            s@.len() <= usize::MAX,
            close_of(s@, bs as int, 0) == close_of(s@, j as int, depth as int),
        decreases s@.len() - j,
    {
        if s[j] == '[' {
            depth = depth + 1;
        } else if s[j] == ']' {
            depth = depth - 1;
            if depth == 0 {
                return Some(j);
            }
        }
        j += 1;
    }
    None
}

fn parse_pairs_exec(inner: &Vec<char>, pos: usize) -> (r: Vec<(String, String)>)
    ensures
        crate::solver::view_pairs(r@) == parse_pairs(inner@, pos as int),
    decreases inner@.len() - pos,
{
    let a = match find_char_from_exec(inner, pos, '[') {
        Some(a) => a,
        None => {
            let v: Vec<(String, String)> = Vec::new();
            assert(crate::solver::view_pairs(v@) =~= Seq::<(Seq<char>, Seq<char>)>::empty());
            return v;
        },
    };
    let b = match find_char_from_exec(inner, a, ']') {
        Some(b) => b,
        None => {
            let v: Vec<(String, String)> = Vec::new();
            assert(crate::solver::view_pairs(v@) =~= Seq::<(Seq<char>, Seq<char>)>::empty());
            return v;
        },
    };
    let mut pair: Vec<char> = Vec::new();
    let mut k = a + 1;
    while k < b
        invariant
            a + 1 <= k <= b < inner@.len(),
            pair@ == inner@.subrange(a + 1, k as int),
        decreases b - k,
    {
        pair.push(inner[k]);
        k += 1;
        assert(pair@ =~= inner@.subrange(a + 1, k as int));
    }
    assert(pair@ =~= inner@.subrange(a + 1, b as int));
    let ilen = inner.len();
    let rest = parse_pairs_exec(inner, b + 1);
    match find_char_from_exec(&pair, 0, ',') {
        Some(c) => {
            let left_ws = trim_by_exec(&pair, 0, c, false);
            let left = trim_by_exec(&left_ws, 0, left_ws.len(), true);
            let right_ws = trim_by_exec(&pair, c + 1, pair.len(), false);
            let right = trim_by_exec(&right_ws, 0, right_ws.len(), true);
            assert(left_ws@.subrange(0, left_ws@.len() as int) =~= left_ws@);
            assert(right_ws@.subrange(0, right_ws@.len() as int) =~= right_ws@);
            let mut out: Vec<(String, String)> = Vec::new();
            out.push((string_from_chars(left.as_slice(), 0, left.len()), string_from_chars(right.as_slice(), 0, right.len())));
            assert(left@.subrange(0, left@.len() as int) =~= left@);
            assert(right@.subrange(0, right@.len() as int) =~= right@);
            let mut i: usize = 0;
            let ghost first = crate::solver::view_pairs(out@);
            while i < rest.len()
                invariant
                    i <= rest@.len(),
                    out@.len() == i + 1,
                    crate::solver::view_pairs(out@) == first + crate::solver::view_pairs(rest@).take(i as int),
                decreases rest@.len() - i,
            {
                let x = rest[i].0.clone();
                let y = rest[i].1.clone();
                let ghost prev = out@;
                out.push((x, y));
                assert(crate::solver::view_pairs(out@) =~= crate::solver::view_pairs(prev).push(crate::solver::view_pairs(rest@)[i as int]));
                assert(crate::solver::view_pairs(rest@).take(i + 1) =~= crate::solver::view_pairs(rest@).take(i as int).push(crate::solver::view_pairs(rest@)[i as int]));
                i += 1;
                assert(crate::solver::view_pairs(out@) =~= first + crate::solver::view_pairs(rest@).take(i as int));
            }
            assert(crate::solver::view_pairs(rest@).take(rest@.len() as int) =~= crate::solver::view_pairs(rest@));
            out
        },
        None => rest,
    }
}

fn extract_clause_results(s: &Vec<char>, prefix: &Vec<char>) -> (r: Option<Vec<(String, String)>>)
    requires
        !clause_list_unclosed(s@, prefix@),
    ensures
        match spec_extract_clause_results(s@, prefix@) {
            Some(t) => r matches Some(x) && crate::solver::view_pairs(x@) == t,
            None => r is None,
        },
{
    let i = match find_seq_from_exec(s, 0, prefix) {
        Some(i) => i,
        None => {
            return None;
        },
    };
    let slen = s.len();
    assert(s@.len() <= usize::MAX);
    let bs = match find_char_from_exec(s, i + prefix.len(), '[') {
        Some(b) => b,
        None => {
            return None;
        },
    };
    let end = match close_of_exec(s, bs) {
        Some(e) => e,
        None => {
            return None;
        },
    };
    proof {
        assert(s@[bs as int] == '[');
        assert(close_of(s@, bs as int, 0) == close_of(s@, bs + 1, 1));
        lemma_close_of_after(s@, bs + 1, 1);
    }
    let trimmed = trim_by_exec(s, bs + 1, end, false);
    let mut inner: Vec<char> = Vec::new();
    let mut k = bs + 1;
    while k < end
        invariant
            bs + 1 <= k <= end < s@.len(),
            inner@ == s@.subrange(bs + 1, k as int),
        decreases end - k,
    {
        inner.push(s[k]);
        k += 1;
        assert(inner@ =~= s@.subrange(bs + 1, k as int));
    }
    if trimmed.len() == 0 {
        let v: Vec<(String, String)> = Vec::new();
        assert(crate::solver::view_pairs(v@) =~= Seq::<(Seq<char>, Seq<char>)>::empty());
        return Some(v);
    }
    Some(parse_pairs_exec(&inner, 0))
}


/// The tag stored on disk for a result: the name of its variant.
pub open spec fn spec_result_tag(r: SpecVerifyResult) -> Seq<char> {
    match r {
        SpecVerifyResult::Proven => "Proven"@,
        SpecVerifyResult::Disproven(_) => "Disproven"@,
        SpecVerifyResult::Unknown(_) => "Unknown"@,
        SpecVerifyResult::TranslationError(_) => "TranslationError"@,
    }
}

/// The result a stored tag stands for; the reasons of non-proven results
/// are not stored and come back as `cached`.
pub open spec fn spec_parse_result_tag(tag: Seq<char>) -> SpecVerifyResult {
    if tag == "Proven"@ {
        SpecVerifyResult::Proven
    } else if tag == "Unknown"@ {
        SpecVerifyResult::Unknown("cached"@)
    } else if tag == "TranslationError"@ {
        SpecVerifyResult::TranslationError("cached"@)
    } else {
        SpecVerifyResult::Unknown("unknown cache tag: "@ + tag)
    }
}

pub open spec fn tags_to_results(s: Seq<(Seq<char>, Seq<char>)>) -> Seq<(Seq<char>, SpecVerifyResult)> {
    Seq::new(s.len(), |i: int| (s[i].0, spec_parse_result_tag(s[i].1)))
}

pub open spec fn results_to_tags(s: Seq<(Seq<char>, SpecVerifyResult)>) -> Seq<(Seq<char>, Seq<char>)> {
    Seq::new(s.len(), |i: int| (s[i].0, spec_result_tag(s[i].1)))
}

/// What `get` hands back for a stored entry.
pub open spec fn entry_to_verification(e: SpecCacheEntry) -> SpecFunctionVerification {
    SpecFunctionVerification {
        function_name: e.function_name,
        ensures_results: tags_to_results(e.ensures_results),
        invariants_results: tags_to_results(e.invariants_results),
    }
}

/// What `insert` stores for a function's results.
pub open spec fn verification_to_entry(v: SpecFunctionVerification) -> SpecCacheEntry {
    SpecCacheEntry {
        function_name: v.function_name,
        ensures_results: results_to_tags(v.ensures_results),
        invariants_results: results_to_tags(v.invariants_results),
    }
}

/// A result as the cache gives it back: `Proven` as it is, the reason of an
/// `Unknown` or a `TranslationError` replaced by `cached`.
pub open spec fn cached_result(r: SpecVerifyResult) -> SpecVerifyResult {
    match r {
        SpecVerifyResult::Unknown(_) => SpecVerifyResult::Unknown("cached"@),
        SpecVerifyResult::TranslationError(_) => SpecVerifyResult::TranslationError("cached"@),
        other => other,
    }
}

pub open spec fn cached_results(s: Seq<(Seq<char>, SpecVerifyResult)>) -> Seq<(Seq<char>, SpecVerifyResult)> {
    Seq::new(s.len(), |i: int| (s[i].0, cached_result(s[i].1)))
}

/// A function's results as the cache gives them back: the same name and
/// clause texts in order, each result as `cached_result` has it.
pub open spec fn cached_form(v: SpecFunctionVerification) -> SpecFunctionVerification {
    SpecFunctionVerification {
        function_name: v.function_name,
        ensures_results: cached_results(v.ensures_results),
        invariants_results: cached_results(v.invariants_results),
    }
}

proof fn lemma_tag_roundtrip(r: SpecVerifyResult)
    requires
        !(r is Disproven),
    ensures
        spec_parse_result_tag(spec_result_tag(r)) == cached_result(r),
{
    reveal_strlit("Proven");
    reveal_strlit("Unknown");
    reveal_strlit("TranslationError");
    match r {
        SpecVerifyResult::Unknown(_) => {
            assert("Unknown"@[0] != "Proven"@[0]);
        },
        SpecVerifyResult::TranslationError(_) => {
            assert("TranslationError"@[0] != "Proven"@[0]);
            assert("TranslationError"@[0] != "Unknown"@[0]);
        },
        _ => {},
    }
}

proof fn lemma_tags_roundtrip(s: Seq<(Seq<char>, SpecVerifyResult)>)
    requires
        !results_have_disproven(s),
    ensures
        tags_to_results(results_to_tags(s)) == cached_results(s),
{
    assert forall|i: int| 0 <= i < s.len() implies #[trigger] tags_to_results(results_to_tags(s))[i] == cached_results(s)[i] by {
        assert(!(s[i].1 is Disproven));
        lemma_tag_roundtrip(s[i].1);
    }
    assert(tags_to_results(results_to_tags(s)) =~= cached_results(s));
}

/// After storing a function's results (none of them disproven) under `key`,
/// the cache gives back for `key` the same name and clause texts in order,
/// `Proven` as it was and `Unknown` or `TranslationError` with the reason
/// `cached`; every other key gives what it gave before.
pub proof fn law_insert_then_get(m: Map<u64, SpecCacheEntry>, key: u64, v: SpecFunctionVerification, k: u64)
    requires
        !spec_has_disproven(v),
    ensures
        entry_to_verification(m.insert(key, verification_to_entry(v))[key]) == cached_form(v),
        k != key ==> m.insert(key, verification_to_entry(v)).contains_key(k) == m.contains_key(k),
        k != key ==> m.insert(key, verification_to_entry(v))[k] == m[k],
{
    lemma_tags_roundtrip(v.ensures_results);
    lemma_tags_roundtrip(v.invariants_results);
}

pub open spec fn results_have_disproven(s: Seq<(Seq<char>, SpecVerifyResult)>) -> bool {
    exists|i: int| 0 <= i < s.len() && (#[trigger] s[i]).1 is Disproven
}

pub open spec fn spec_has_disproven(v: SpecFunctionVerification) -> bool {
    results_have_disproven(v.ensures_results) || results_have_disproven(v.invariants_results)
}

/// The entries a sequence of lines loads to: later lines win on equal keys,
/// lines that do not parse are skipped.
pub open spec fn load_map(lines: Seq<Seq<char>>) -> Map<u64, SpecCacheEntry>
    decreases lines.len(),
{
    if lines.len() == 0 {
        Map::empty()
    } else {
        let m = load_map(lines.drop_last());
        match spec_parse_line(lines.last()) {
            Some((k, e)) => m.insert(k, e),
            None => m,
        }
    }
}

fn parse_result_tag(tag: &str) -> (r: VerifyResult)
    ensures
        r@ == spec_parse_result_tag(tag@),
{
    if crate::text::str_eq(tag, "Proven") {
        VerifyResult::Proven
    } else if crate::text::str_eq(tag, "Unknown") {
        VerifyResult::Unknown(String::from_str("cached"))
    } else if crate::text::str_eq(tag, "TranslationError") {
        VerifyResult::TranslationError(String::from_str("cached"))
    } else {
        let mut m = String::from_str("unknown cache tag: ");
        m.append(tag);
        VerifyResult::Unknown(m)
    }
}

fn result_tag(r: &VerifyResult) -> (t: String)
    ensures
        t@ == spec_result_tag(r@),
{
    match r {
        VerifyResult::Proven => String::from_str("Proven"),
        VerifyResult::Disproven { .. } => String::from_str("Disproven"),
        VerifyResult::Unknown(_) => String::from_str("Unknown"),
        VerifyResult::TranslationError(_) => String::from_str("TranslationError"),
    }
}

fn tags_to_results_exec(v: &Vec<(String, String)>) -> (r: Vec<(String, VerifyResult)>)
    ensures
        view_results(r@) == tags_to_results(view_pairs(v@)),
{
    let mut out: Vec<(String, VerifyResult)> = Vec::new();
    let mut i: usize = 0;
    while i < v.len()
        invariant
            i <= v@.len(),
            view_results(out@) == tags_to_results(view_pairs(v@)).take(i as int),
        decreases v@.len() - i,
    {
        let c = v[i].0.clone();
        let res = parse_result_tag(v[i].1.as_str());
        let ghost prev = out@;
        out.push((c, res));
        assert(view_results(out@) =~= view_results(prev).push(tags_to_results(view_pairs(v@))[i as int]));
        i += 1;
        assert(view_results(out@) =~= tags_to_results(view_pairs(v@)).take(i as int));
    }
    assert(tags_to_results(view_pairs(v@)).take(v@.len() as int) =~= tags_to_results(view_pairs(v@)));
    out
}

fn results_to_tags_exec(v: &Vec<(String, VerifyResult)>) -> (r: Vec<(String, String)>)
    ensures
        view_pairs(r@) == results_to_tags(view_results(v@)),
{
    let mut out: Vec<(String, String)> = Vec::new();
    let mut i: usize = 0;
    while i < v.len()
        invariant
            i <= v@.len(),
            view_pairs(out@) == results_to_tags(view_results(v@)).take(i as int),
        decreases v@.len() - i,
    {
        let c = v[i].0.clone();
        let t = result_tag(&v[i].1);
        let ghost prev = out@;
        out.push((c, t));
        assert(view_pairs(out@) =~= view_pairs(prev).push(results_to_tags(view_results(v@))[i as int]));
        i += 1;
        assert(view_pairs(out@) =~= results_to_tags(view_results(v@)).take(i as int));
    }
    assert(results_to_tags(view_results(v@)).take(v@.len() as int) =~= results_to_tags(view_results(v@)));
    out
}

/// Disk-backed cache of verification results, keyed by a hash of the
/// function's source.
pub struct DiskCache {
    entries: HashMap<u64, CacheEntry>,
    dirty: bool,
}

impl View for DiskCache {
    type V = Map<u64, SpecCacheEntry>;

    closed spec fn view(&self) -> Map<u64, SpecCacheEntry> {
        self.entries@.map_values(|e: CacheEntry| e@)
    }
}

impl DiskCache {
    /// Whether the cache changed since it was created or loaded.
    pub closed spec fn is_dirty(&self) -> bool {
        self.dirty
    }

    /// An empty, unchanged cache.
    pub fn new() -> (c: DiskCache)
        ensures
            c@ == Map::<u64, SpecCacheEntry>::empty(),
            !c.is_dirty(),
    {
        let c = DiskCache { entries: HashMap::new(), dirty: false };
        assert(c@ =~= Map::<u64, SpecCacheEntry>::empty());
        c
    }

    /// The results stored under `key`, with each tag turned back into a result.
    pub fn get(&self, key: u64) -> (r: Option<FunctionVerification>)
        ensures
            r is None <==> !self@.contains_key(key),
            r matches Some(fv) ==> fv@ == entry_to_verification(self@[key]),
    {
        match self.entries.get(&key) {
            None => None,
            Some(entry) => {
                let name = entry.function_name.clone();
                let ens = tags_to_results_exec(&entry.ensures_results);
                let inv = tags_to_results_exec(&entry.invariants_results);
                Some(FunctionVerification { function_name: name, ensures_results: ens, invariants_results: inv })
            },
        }
    }

    /// Stores a function's results under `key`; results with a disproven
    /// clause are never stored and leave the cache as it was.
    pub fn insert(&mut self, key: u64, verification: &FunctionVerification)
        ensures
            spec_has_disproven(verification@) ==> final(self)@ == old(self)@ && final(self).is_dirty() == old(self).is_dirty(),
            !spec_has_disproven(verification@) ==> final(self)@ == old(self)@.insert(key, verification_to_entry(verification@))
                && final(self).is_dirty(),
    {
        let hd = verification.has_disproven();
        proof {
            let v = verification@;
            if any_disproven_in(verification.ensures_results@) {
                let i = choose|i: int| 0 <= i < verification.ensures_results@.len() && (#[trigger] verification.ensures_results@[i]).1@ is Disproven;
                assert(v.ensures_results[i].1 is Disproven);
            }
            if any_disproven_in(verification.invariants_results@) {
                let i = choose|i: int| 0 <= i < verification.invariants_results@.len() && (#[trigger] verification.invariants_results@[i]).1@ is Disproven;
                assert(v.invariants_results[i].1 is Disproven);
            }
            if results_have_disproven(v.ensures_results) {
                let i = choose|i: int| 0 <= i < v.ensures_results.len() && (#[trigger] v.ensures_results[i]).1 is Disproven;
                assert(verification.ensures_results@[i].1@ is Disproven);
            }
            if results_have_disproven(v.invariants_results) {
                let i = choose|i: int| 0 <= i < v.invariants_results.len() && (#[trigger] v.invariants_results[i]).1 is Disproven;
                assert(verification.invariants_results@[i].1@ is Disproven);
            }
        }
        if hd {
            return;
        }
        let entry = CacheEntry {
            function_name: verification.function_name.clone(),
            ensures_results: results_to_tags_exec(&verification.ensures_results),
            invariants_results: results_to_tags_exec(&verification.invariants_results),
        };
        let ghost ev = entry@;
        let ghost old_entries = self.entries@;
        self.entries.insert(key, entry);
        self.dirty = true;
        assert(self@ =~= old(self)@.insert(key, ev));
    }

    /// Keeps only the entries whose key is among `current_keys`.
    pub fn evict_stale(&mut self, current_keys: &[u64])
        ensures
            final(self)@ == old(self)@.restrict(current_keys@.to_set()),
            final(self).is_dirty(),
    {
        let mut rest: HashMap<u64, CacheEntry> = HashMap::new();
        std::mem::swap(&mut rest, &mut self.entries);
        let ghost orig = rest@;
        let mut kept: HashMap<u64, CacheEntry> = HashMap::new();
        let mut i: usize = 0;
        while i < current_keys.len()
            invariant
                i <= current_keys@.len(),
                forall|k: u64| #[trigger] kept@.contains_key(k) <==> (orig.contains_key(k) && current_keys@.take(i as int).contains(k)),
                forall|k: u64| #[trigger] rest@.contains_key(k) <==> (orig.contains_key(k) && !current_keys@.take(i as int).contains(k)),
                forall|k: u64| kept@.contains_key(k) ==> #[trigger] kept@[k] == orig[k],
                forall|k: u64| rest@.contains_key(k) ==> #[trigger] rest@[k] == orig[k],
            decreases current_keys@.len() - i,
        {
            let k = current_keys[i];
            let ghost before_take = current_keys@.take(i as int);
            assert(current_keys@.take(i + 1) =~= before_take.push(k));
            proof {
                assert forall|x: u64| #[trigger] before_take.push(k).contains(x) <==> (before_take.contains(x) || x == k) by {
                    if before_take.push(k).contains(x) {
                        let j = choose|j: int| 0 <= j < before_take.push(k).len() && before_take.push(k)[j] == x;
                        if j < before_take.len() {
                            assert(before_take[j] == x);
                        }
                    }
                    if before_take.contains(x) {
                        let j = choose|j: int| 0 <= j < before_take.len() && before_take[j] == x;
                        assert(before_take.push(k)[j] == x);
                    }
                    if x == k {
                        assert(before_take.push(k)[before_take.len() as int] == k);
                    }
                }
            }
            match rest.remove(&k) {
                Some(e) => {
                    kept.insert(k, e);
                },
                None => {},
            }
            i += 1;
        }
        assert(current_keys@.take(current_keys@.len() as int) =~= current_keys@);
        self.entries = kept;
        self.dirty = true;
        assert(self@ =~= old(self)@.restrict(current_keys@.to_set()));
    }
}


fn clause_list_unclosed_exec(s: &Vec<char>, prefix: &Vec<char>) -> (b: bool)
    ensures
        b == clause_list_unclosed(s@, prefix@),
{
    let i = match find_seq_from_exec(s, 0, prefix) {
        Some(i) => i,
        None => {
            return false;
        },
    };
    let slen = s.len();
    assert(s@.len() <= usize::MAX);
    let bs = match find_char_from_exec(s, i + prefix.len(), '[') {
        Some(b) => b,
        None => {
            return false;
        },
    };
    close_of_exec(s, bs).is_none()
}

impl DiskCache {
    /// True on the lines on which parsing would slice out of bounds: a clause
    /// list that opens and never closes.
    pub fn parse_line_panics(line: &str) -> (b: bool)
        ensures
            b == spec_parse_line_panics(line@),
    {
        let s = str_chars(line);
        let kp = str_chars("\"key\":");
        let fp = str_chars("\"fn\":\"");
        let ep = str_chars("\"ensures\":");
        let ip = str_chars("\"invariants\":");
        if extract_u64(&s, &kp).is_none() {
            return false;
        }
        if extract_string(&s, &fp).is_none() {
            return false;
        }
        if clause_list_unclosed_exec(&s, &ep) {
            return true;
        }
        if extract_clause_results(&s, &ep).is_none() {
            return false;
        }
        clause_list_unclosed_exec(&s, &ip)
    }

    /// One cache line: `{"key":K,"fn":"NAME","ensures":[..],"invariants":[..]}`.
    pub fn parse_line(line: &str) -> (r: Option<(u64, CacheEntry)>)
        requires
            !spec_parse_line_panics(line@),
        ensures
            match spec_parse_line(line@) {
                None => r is None,
                Some((k, e)) => r matches Some((k2, e2)) && k2 == k && e2@ == e,
            },
    {
        let s = str_chars(line);
        let kp = str_chars("\"key\":");
        let fp = str_chars("\"fn\":\"");
        let ep = str_chars("\"ensures\":");
        let ip = str_chars("\"invariants\":");
        let key = match extract_u64(&s, &kp) {
            Some(k) => k,
            None => {
                return None;
            },
        };
        let name = match extract_string(&s, &fp) {
            Some(n) => n,
            None => {
                return None;
            },
        };
        let ens = match extract_clause_results(&s, &ep) {
            Some(e) => e,
            None => {
                return None;
            },
        };
        let inv = match extract_clause_results(&s, &ip) {
            Some(e) => e,
            None => {
                return None;
            },
        };
        Some((key, CacheEntry { function_name: name, ensures_results: ens, invariants_results: inv }))
    }

    /// The cache held by a file's lines, unchanged since loading.
    pub fn from_lines(lines: &Vec<String>) -> (c: DiskCache)
        requires
            forall|i: int| 0 <= i < lines@.len() ==> !spec_parse_line_panics(#[trigger] lines@[i]@),
        ensures
            c@ == load_map(Seq::new(lines@.len(), |i: int| lines@[i]@)),
            !c.is_dirty(),
    {
        let ghost ls = Seq::new(lines@.len(), |i: int| lines@[i]@);
        let mut entries: HashMap<u64, CacheEntry> = HashMap::new();
        let mut i: usize = 0;
        assert(ls.take(0) =~= Seq::<Seq<char>>::empty());
        while i < lines.len()
            invariant
                i <= lines@.len(),
                ls == Seq::new(lines@.len(), |j: int| lines@[j]@),
                forall|j: int| 0 <= j < lines@.len() ==> !spec_parse_line_panics(#[trigger] lines@[j]@),
                entries@.map_values(|e: CacheEntry| e@) == load_map(ls.take(i as int)),
            decreases lines@.len() - i,
        {
            let ghost before = entries@;
            assert(ls.take(i + 1).drop_last() =~= ls.take(i as int));
            assert(ls.take(i + 1).last() == lines@[i as int]@);
            match DiskCache::parse_line(lines[i].as_str()) {
                Some((k, e)) => {
                    let ghost ev = e@;
                    entries.insert(k, e);
                    assert(entries@.map_values(|e: CacheEntry| e@) =~= before.map_values(|e: CacheEntry| e@).insert(k, ev));
                },
                None => {},
            }
            i += 1;
        }
        assert(ls.take(lines@.len() as int) =~= ls);
        DiskCache { entries, dirty: false }
    }
}


/// `"` written as `\"`, every other character as itself.
pub open spec fn escape_quotes(s: Seq<char>) -> Seq<char>
    decreases s.len(),
{
    if s.len() == 0 {
        Seq::empty()
    } else if s.last() == '"' {
        escape_quotes(s.drop_last()) + seq!['\\', '"']
    } else {
        escape_quotes(s.drop_last()).push(s.last())
    }
}

pub open spec fn pair_json(p: (Seq<char>, Seq<char>)) -> Seq<char> {
    "[\""@ + escape_quotes(p.0) + "\",\""@ + escape_quotes(p.1) + "\"]"@
}

pub open spec fn json_pairs(s: Seq<(Seq<char>, Seq<char>)>) -> Seq<char>
    decreases s.len(),
{
    if s.len() == 0 {
        Seq::empty()
    } else if s.len() == 1 {
        pair_json(s[0])
    } else {
        json_pairs(s.drop_last()) + ","@ + pair_json(s.last())
    }
}

/// A clause list as a JSON array of two-string arrays.
pub open spec fn clauses_json(s: Seq<(Seq<char>, Seq<char>)>) -> Seq<char> {
    if s.len() == 0 {
        "[]"@
    } else {
        "["@ + json_pairs(s) + "]"@
    }
}

/// The line written for one entry.
pub open spec fn render_line(key: u64, e: SpecCacheEntry) -> Seq<char> {
    "{\"key\":"@ + decimal(key as nat) + ",\"fn\":\""@ + e.function_name + "\",\"ensures\":"@
        + clauses_json(e.ensures_results) + ",\"invariants\":"@ + clauses_json(e.invariants_results) + "}"@
}

fn escape_quotes_exec(s: &String) -> (r: String)
    ensures
        r@ == escape_quotes(s@),
{
    let cs = str_chars(s.as_str());
    let mut out = String::new();
    let mut i: usize = 0;
    assert(cs@.take(0) =~= Seq::<char>::empty());
    while i < cs.len()
        invariant
            i <= cs@.len(),
            out@ == escape_quotes(cs@.take(i as int)),
        decreases cs@.len() - i,
    {
        let c = cs[i];
        assert(cs@.take(i + 1).drop_last() =~= cs@.take(i as int));
        assert(cs@.take(i + 1).last() == c);
        if c == '"' {
            let ghost before = out@;
            push_char(&mut out, '\\');
            push_char(&mut out, '"');
            assert(out@ =~= before + seq!['\\', '"']);
        } else {
            push_char(&mut out, c);
        }
        i += 1;
    }
    assert(cs@.take(cs@.len() as int) =~= cs@);
    out
}

fn clauses_to_json(clauses: &Vec<(String, String)>) -> (r: String)
    ensures
        r@ == clauses_json(view_pairs(clauses@)),
{
    if clauses.len() == 0 {
        return String::from_str("[]");
    }
    let ghost vp = view_pairs(clauses@);
    let mut body = String::new();
    let mut i: usize = 0;
    while i < clauses.len()
        invariant
            i <= clauses@.len(),
            vp == view_pairs(clauses@),
            clauses@.len() > 0,
            body@ == json_pairs(vp.take(i as int)),
        decreases clauses@.len() - i,
    {
        assert(vp.take(i + 1).drop_last() =~= vp.take(i as int));
        assert(vp.take(i + 1).last() == vp[i as int]);
        if i > 0 {
            body.append(",");
        }
        body.append("[\"");
        let a = escape_quotes_exec(&clauses[i].0);
        body.append(a.as_str());
        body.append("\",\"");
        let b = escape_quotes_exec(&clauses[i].1);
        body.append(b.as_str());
        body.append("\"]");
        i += 1;
    }
    assert(vp.take(clauses@.len() as int) =~= vp);
    let mut out = String::from_str("[");
    out.append(body.as_str());
    out.append("]");
    out
}

fn render_line_exec(key: u64, e: &CacheEntry) -> (r: String)
    ensures
        r@ == render_line(key, e@),
{
    let mut out = String::from_str("{\"key\":");
    let k = u64_to_string(key);
    out.append(k.as_str());
    out.append(",\"fn\":\"");
    out.append(e.function_name.as_str());
    out.append("\",\"ensures\":");
    let ej = clauses_to_json(&e.ensures_results);
    out.append(ej.as_str());
    out.append(",\"invariants\":");
    let ij = clauses_to_json(&e.invariants_results);
    out.append(ij.as_str());
    out.append("}");
    out
}

/// The line is the rendering of one of the map's entries.
pub open spec fn renders_some_entry(m: Map<u64, SpecCacheEntry>, line: Seq<char>) -> bool {
    exists|k: u64| #[trigger] m.contains_key(k) && line == render_line(k, m[k])
}

impl DiskCache {
    /// The lines to write back: none when nothing changed, otherwise one
    /// line per entry, in the map's own order.
    pub fn to_lines(&self) -> (r: Option<Vec<String>>)
        ensures
            !self.is_dirty() <==> r is None,
            r matches Some(lines) ==> {
                &&& lines@.len() == self@.dom().len()
                &&& forall|i: int| 0 <= i < lines@.len() ==> renders_some_entry(self@, #[trigger] lines@[i]@)
                &&& forall|k: u64| #[trigger] self@.contains_key(k) ==> exists|i: int| 0 <= i < lines@.len() && (#[trigger] lines@[i])@ == render_line(k, self@[k])
            },
    {
        if !self.dirty {
            return None;
        }
        let ghost m = self.entries@;
        let ghost v = vstd::std_specs::hash::spec_hash_map_iter(&self.entries).remaining();
        let mut lines: Vec<String> = Vec::new();
        for (k, e) in it: self.entries.iter()
            invariant
                m == self.entries@,
                it.seq() == v,
                lines@.len() == it.index(),
                forall|j: int| 0 <= j < it.index() ==> (#[trigger] lines@[j])@ == render_line(*v[j].0, (*v[j].1)@),
        {
            let line = render_line_exec(*k, e);
            lines.push(line);
        }
        proof {
            assert(lines@.len() == v.len());
            assert(self@.dom() =~= m.dom());
            assert forall|i: int| 0 <= i < lines@.len() implies renders_some_entry(self@, #[trigger] lines@[i]@) by {
                let k = *v[i].0;
                assert(m.contains_key(*v[i].0) && m[*v[i].0] == *v[i].1);
                assert(self@.contains_key(k));
            }
            assert forall|k: u64| #[trigger] self@.contains_key(k) implies exists|i: int| 0 <= i < lines@.len() && (#[trigger] lines@[i])@ == render_line(k, self@[k]) by {
                assert(m.contains_key(k));
                assert(v.contains((&k, &m[k])));
                let j = choose|j: int| 0 <= j < v.len() && v[j] == (&k, &m[k]);
                assert(lines@[j]@ == render_line(k, self@[k]));
            }
        }
        Some(lines)
    }
}

} // verus!
