//! Searching and trimming on character sequences, with exact specs.
use vstd::prelude::*;

verus! {

broadcast use vstd::std_specs::vec::group_vec_axioms;

/// First index at or after `from` holding `c`.
pub open spec fn find_char_from(s: Seq<char>, from: int, c: char) -> Option<int>
    decreases s.len() - from,
{
    if from < 0 || from >= s.len() {
        None
    } else if s[from] == c {
        Some(from)
    } else {
        find_char_from(s, from + 1, c)
    }
}

pub open spec fn occurs_at(s: Seq<char>, i: int, pat: Seq<char>) -> bool {
    0 <= i && i + pat.len() <= s.len() && s.subrange(i, i + pat.len()) == pat
}

/// First index at or after `from` where `pat` occurs.
pub open spec fn find_seq_from(s: Seq<char>, from: int, pat: Seq<char>) -> Option<int>
    decreases s.len() - from,
{
    if from < 0 || from + pat.len() > s.len() {
        None
    } else if occurs_at(s, from, pat) {
        Some(from)
    } else if from >= s.len() {
        None
    } else {
        find_seq_from(s, from + 1, pat)
    }
}

/// `char::is_whitespace`: the Unicode `White_Space` property.
pub open spec fn is_unicode_ws(c: char) -> bool {
    let u = c as u32;
    (0x9 <= u <= 0xD) || u == 0x20 || u == 0x85 || u == 0xA0 || u == 0x1680 || (0x2000 <= u <= 0x200A)
        || u == 0x2028 || u == 0x2029 || u == 0x202F || u == 0x205F || u == 0x3000
}

pub fn is_whitespace_char(c: char) -> (b: bool)
    ensures
        b == is_unicode_ws(c),
{
    let u = c as u32;
    (0x9 <= u && u <= 0xD) || u == 0x20 || u == 0x85 || u == 0xA0 || u == 0x1680 || (0x2000 <= u && u
        <= 0x200A) || u == 0x2028 || u == 0x2029 || u == 0x202F || u == 0x205F || u == 0x3000
}

/// Number of leading characters satisfying `f`.
pub open spec fn lead_count(s: Seq<char>, f: spec_fn(char) -> bool) -> int
    decreases s.len(),
{
    if s.len() == 0 || !f(s[0]) {
        0
    } else {
        1 + lead_count(s.drop_first(), f)
    }
}

/// Number of trailing characters satisfying `f`.
pub open spec fn trail_count(s: Seq<char>, f: spec_fn(char) -> bool) -> int
    decreases s.len(),
{
    if s.len() == 0 || !f(s.last()) {
        0
    } else {
        1 + trail_count(s.drop_last(), f)
    }
}

pub proof fn lemma_lead_count(s: Seq<char>, f: spec_fn(char) -> bool)
    ensures
        0 <= lead_count(s, f) <= s.len(),
        forall|i: int| 0 <= i < lead_count(s, f) ==> f(#[trigger] s[i]),
        lead_count(s, f) < s.len() ==> !f(s[lead_count(s, f)]),
    decreases s.len(),
{
    if s.len() > 0 && f(s[0]) {
        lemma_lead_count(s.drop_first(), f);
        assert forall|i: int| 0 <= i < lead_count(s, f) implies f(#[trigger] s[i]) by {
            if i > 0 {
                assert(s[i] == s.drop_first()[i - 1]);
            }
        }
    }
}

pub proof fn lemma_trail_count(s: Seq<char>, f: spec_fn(char) -> bool)
    ensures
        0 <= trail_count(s, f) <= s.len(),
        forall|i: int| s.len() - trail_count(s, f) <= i < s.len() ==> f(#[trigger] s[i]),
        trail_count(s, f) < s.len() ==> !f(s[s.len() - trail_count(s, f) - 1]),
    decreases s.len(),
{
    if s.len() > 0 && f(s.last()) {
        lemma_trail_count(s.drop_last(), f);
        assert forall|i: int| s.len() - trail_count(s, f) <= i < s.len() implies f(#[trigger] s[i]) by {
            if i < s.len() - 1 {
                assert(s[i] == s.drop_last()[i]);
            }
        }
    }
}

/// Drops the leading and trailing characters satisfying `f`
/// (`str::trim_matches`, and `str::trim` for whitespace).
pub open spec fn trim_by(s: Seq<char>, f: spec_fn(char) -> bool) -> Seq<char> {
    let a = lead_count(s, f);
    if a == s.len() {
        Seq::empty()
    } else {
        s.subrange(a, s.len() - trail_count(s, f))
    }
}

pub open spec fn ws_pred() -> spec_fn(char) -> bool {
    |c: char| is_unicode_ws(c)
}

pub open spec fn quote_pred() -> spec_fn(char) -> bool {
    |c: char| c == '"'
}

pub fn find_char_from_exec(s: &Vec<char>, from: usize, c: char) -> (r: Option<usize>)
    ensures
        r is None <==> find_char_from(s@, from as int, c) is None,
        r matches Some(i) ==> find_char_from(s@, from as int, c) == Some(i as int),
        r matches Some(i) ==> from <= i < s@.len() && s@[i as int] == c,
{
    let mut i = from;
    while i < s.len()
        invariant
            from <= i,
            find_char_from(s@, from as int, c) == find_char_from(s@, i as int, c),
        decreases s@.len() - i,
    {
        if s[i] == c {
            return Some(i);
        }
        i += 1;
    }
    None
}

pub fn find_seq_from_exec(s: &Vec<char>, from: usize, pat: &Vec<char>) -> (r: Option<usize>)
    ensures
        r is None <==> find_seq_from(s@, from as int, pat@) is None,
        r matches Some(i) ==> find_seq_from(s@, from as int, pat@) == Some(i as int),
        r matches Some(i) ==> i + pat@.len() <= s@.len(),
{
    if from > s.len() {
        return None;
    }
    let mut i = from;
    loop
        invariant
            from <= i <= s@.len(),
            find_seq_from(s@, from as int, pat@) == find_seq_from(s@, i as int, pat@),
        decreases s@.len() - i,
    {
        if pat.len() > s.len() - i {
            return None;
        }
        let mut k: usize = 0;
        let mut ok = true;
        while k < pat.len()
            invariant
                k <= pat@.len(),
                i + pat@.len() <= s@.len(),
                s@.len() <= usize::MAX,
                ok ==> forall|m: int| 0 <= m < k ==> s@[i + m] == pat@[m],
                !ok ==> !occurs_at(s@, i as int, pat@),
            decreases pat@.len() - k,
        {
            if s[i + k] != pat[k] {
                ok = false;
                proof {
                    assert(s@.subrange(i as int, i + pat@.len())[k as int] != pat@[k as int]);
                }
            }
            k += 1;
        }
        if ok {
            assert(s@.subrange(i as int, i + pat@.len()) =~= pat@);
            return Some(i);
        }
        if i >= s.len() {
            return None;
        }
        i += 1;
    }
}

fn trims_char(c: char, quotes: bool) -> (b: bool)
    ensures
        b == (if quotes { quote_pred() } else { ws_pred() })(c),
{
    if quotes { c == '"' } else { is_whitespace_char(c) }
}

pub fn trim_by_exec(s: &Vec<char>, start: usize, end: usize, quotes: bool) -> (r: Vec<char>)
    requires
        start <= end <= s@.len(),
    ensures
        r@ == trim_by(s@.subrange(start as int, end as int), if quotes { quote_pred() } else { ws_pred() }),
{
    let ghost t = s@.subrange(start as int, end as int);
    let ghost f = if quotes { quote_pred() } else { ws_pred() };
    proof {
        lemma_lead_count(t, f);
        lemma_trail_count(t, f);
    }
    let mut a = start;
    while a < end && trims_char(s[a], quotes)
        invariant
            start <= a <= end <= s@.len(),
            t == s@.subrange(start as int, end as int),
            f == (if quotes { quote_pred() } else { ws_pred() }),
            forall|i: int| start <= i < a ==> f(#[trigger] s@[i]),
            0 <= lead_count(t, f) <= t.len(),
            forall|i: int| 0 <= i < lead_count(t, f) ==> f(#[trigger] t[i]),
            lead_count(t, f) < t.len() ==> !f(t[lead_count(t, f)]),
        decreases end - a,
    {
        assert(f(s@[a as int]));
        a += 1;
    }
    assert((a - start) == lead_count(t, f)) by {
        if (a - start) < lead_count(t, f) {
            assert(f(t[(a - start) as int]));
        }
        if (a - start) > lead_count(t, f) {
            assert(f(s@[start + lead_count(t, f)]));
            assert(t[lead_count(t, f)] == s@[start + lead_count(t, f)]);
        }
    }
    if a == end {
        return Vec::new();
    }
    let mut b = end;
    while b > a && trims_char(s[b - 1], quotes)
        invariant
            a < end,
            start <= a <= b <= end <= s@.len(),
            t == s@.subrange(start as int, end as int),
            f == (if quotes { quote_pred() } else { ws_pred() }),
            forall|i: int| b <= i < end ==> f(#[trigger] s@[i]),
            a - start == lead_count(t, f),
            lead_count(t, f) < t.len() ==> !f(t[lead_count(t, f)]),
            0 <= trail_count(t, f) <= t.len(),
            forall|i: int| t.len() - trail_count(t, f) <= i < t.len() ==> f(#[trigger] t[i]),
            trail_count(t, f) < t.len() ==> !f(t[t.len() - trail_count(t, f) - 1]),
        decreases b,
    {
        assert(f(s@[b - 1]));
        b -= 1;
    }
    assert((end - b) == trail_count(t, f)) by {
        if (end - b) < trail_count(t, f) {
            assert(f(t[t.len() - (end - b) - 1]));
            assert(t[t.len() - (end - b) - 1] == s@[b - 1]);
        }
        if (end - b) > trail_count(t, f) {
            let j = t.len() - trail_count(t, f) - 1;
            assert(t[j] == s@[start + j]);
            assert(f(s@[start + j]));
        }
    }
    let mut out: Vec<char> = Vec::new();
    let mut i = a;
    while i < b
        invariant
            a <= i <= b <= end <= s@.len(),
            out@ == s@.subrange(a as int, i as int),
        decreases b - i,
    {
        out.push(s[i]);
        i += 1;
        assert(out@ =~= s@.subrange(a as int, i as int));
    }
    assert(out@ =~= t.subrange(lead_count(t, f), t.len() - trail_count(t, f)));
    out
}

} // verus!
