//! Results of proving contract clauses, and the in-memory cache of them
//! handed to the bytecode compiler.
use vstd::prelude::*;
use crate::text::{string_eq, push_char};

verus! {

/// Result of attempting to prove a single contract clause.
#[derive(Debug)]
pub enum VerifyResult {
    /// The clause holds for all inputs satisfying `:requires`.
    Proven,
    /// Inputs satisfying `:requires` but violating the clause.
    Disproven { counterexample: Vec<(String, String)> },
    /// The solver could not decide; runtime checking stays.
    Unknown(String),
    /// The clause could not be translated (unsupported expression).
    TranslationError(String),
}

pub enum SpecVerifyResult {
    Proven,
    Disproven(Seq<(Seq<char>, Seq<char>)>),
    Unknown(Seq<char>),
    TranslationError(Seq<char>),
}

pub open spec fn view_pairs(s: Seq<(String, String)>) -> Seq<(Seq<char>, Seq<char>)> {
    Seq::new(s.len(), |i: int| (s[i].0@, s[i].1@))
}

impl View for VerifyResult {
    type V = SpecVerifyResult;

    open spec fn view(&self) -> SpecVerifyResult {
        match self {
            VerifyResult::Proven => SpecVerifyResult::Proven,
            VerifyResult::Disproven { counterexample } => SpecVerifyResult::Disproven(view_pairs(counterexample@)),
            VerifyResult::Unknown(s) => SpecVerifyResult::Unknown(s@),
            VerifyResult::TranslationError(s) => SpecVerifyResult::TranslationError(s@),
        }
    }
}

/// `name = value` pairs joined by `, `.
pub open spec fn render_pairs(s: Seq<(Seq<char>, Seq<char>)>) -> Seq<char>
    decreases s.len(),
{
    if s.len() == 0 {
        Seq::empty()
    } else if s.len() == 1 {
        s[0].0 + " = "@ + s[0].1
    } else {
        render_pairs(s.drop_last()) + ", "@ + s.last().0 + " = "@ + s.last().1
    }
}

/// The text a result prints as.
pub open spec fn render_result(r: SpecVerifyResult) -> Seq<char> {
    match r {
        SpecVerifyResult::Proven => "proven"@,
        SpecVerifyResult::Disproven(ce) => if ce.len() == 0 {
            "disproven"@
        } else {
            "disproven"@ + " (counterexample: "@ + render_pairs(ce) + ")"@
        },
        SpecVerifyResult::Unknown(reason) => "unknown: "@ + reason,
        SpecVerifyResult::TranslationError(msg) => "translation error: "@ + msg,
    }
}

impl VerifyResult {
    pub fn is_proven(&self) -> (b: bool)
        ensures
            b == (self@ is Proven),
    {
        match self {
            VerifyResult::Proven => true,
            _ => false,
        }
    }

    pub fn is_disproven(&self) -> (b: bool)
        ensures
            b == (self@ is Disproven),
    {
        match self {
            VerifyResult::Disproven { .. } => true,
            _ => false,
        }
    }

    /// The human-readable form of the result (what `Display` prints).
    pub fn to_display_string(&self) -> (s: String)
        ensures
            s@ == render_result(self@),
    {
        match self {
            VerifyResult::Proven => String::from_str("proven"),
            VerifyResult::Disproven { counterexample } => {
                let mut s = String::from_str("disproven");
                if counterexample.len() > 0 {
                    s.append(" (counterexample: ");
                    let ghost head = s@;
                    let mut i: usize = 0;
                    let mut body = String::new();
                    while i < counterexample.len()
                        invariant
                            i <= counterexample@.len(),
                            counterexample@.len() > 0,
                            i == 0 ==> body@ == Seq::<char>::empty(),
                            i > 0 ==> body@ == render_pairs(view_pairs(counterexample@).take(i as int)),
                        decreases counterexample@.len() - i,
                    {
                        let ghost prev = view_pairs(counterexample@).take(i as int);
                        let ghost next = view_pairs(counterexample@).take(i + 1);
                        assert(next.drop_last() =~= prev);
                        if i > 0 {
                            body.append(", ");
                        }
                        body.append(counterexample[i].0.as_str());
                        body.append(" = ");
                        body.append(counterexample[i].1.as_str());
                        i += 1;
                    }
                    assert(view_pairs(counterexample@).take(counterexample@.len() as int) =~= view_pairs(counterexample@));
                    s.append(body.as_str());
                    s.append(")");
                }
                s
            },
            VerifyResult::Unknown(reason) => {
                let mut s = String::from_str("unknown: ");
                s.append(reason.as_str());
                s
            },
            VerifyResult::TranslationError(msg) => {
                let mut s = String::from_str("translation error: ");
                s.append(msg.as_str());
                s
            },
        }
    }

    /// A copy with the same content.
    pub fn duplicate(&self) -> (r: VerifyResult)
        ensures
            r@ == self@,
    {
        match self {
            VerifyResult::Proven => VerifyResult::Proven,
            VerifyResult::Disproven { counterexample } => {
                let mut v: Vec<(String, String)> = Vec::new();
                let mut i: usize = 0;
                while i < counterexample.len()
                    invariant
                        i <= counterexample@.len(),
                        v@.len() == i,
                        forall|j: int| 0 <= j < i ==> (#[trigger] v@[j]).0@ == counterexample@[j].0@ && v@[j].1@ == counterexample@[j].1@,
                    decreases counterexample@.len() - i,
                {
                    let a = counterexample[i].0.clone();
                    let b = counterexample[i].1.clone();
                    v.push((a, b));
                    i += 1;
                }
                assert(view_pairs(v@) =~= view_pairs(counterexample@));
                VerifyResult::Disproven { counterexample: v }
            },
            VerifyResult::Unknown(s) => VerifyResult::Unknown(s.clone()),
            VerifyResult::TranslationError(s) => VerifyResult::TranslationError(s.clone()),
        }
    }
}

/// Verification results for a complete function.
#[derive(Debug)]
pub struct FunctionVerification {
    pub function_name: String,
    pub ensures_results: Vec<(String, VerifyResult)>,
    pub invariants_results: Vec<(String, VerifyResult)>,
}

/// Abstract form of a function's results: clause text paired with its result.
pub struct SpecFunctionVerification {
    pub function_name: Seq<char>,
    pub ensures_results: Seq<(Seq<char>, SpecVerifyResult)>,
    pub invariants_results: Seq<(Seq<char>, SpecVerifyResult)>,
}

pub open spec fn view_results(s: Seq<(String, VerifyResult)>) -> Seq<(Seq<char>, SpecVerifyResult)> {
    Seq::new(s.len(), |i: int| (s[i].0@, s[i].1@))
}

impl View for FunctionVerification {
    type V = SpecFunctionVerification;

    open spec fn view(&self) -> SpecFunctionVerification {
        SpecFunctionVerification {
            function_name: self.function_name@,
            ensures_results: view_results(self.ensures_results@),
            invariants_results: view_results(self.invariants_results@),
        }
    }
}

pub open spec fn all_proven_in(s: Seq<(String, VerifyResult)>) -> bool {
    forall|i: int| 0 <= i < s.len() ==> (#[trigger] s[i]).1@ is Proven
}

pub open spec fn any_disproven_in(s: Seq<(String, VerifyResult)>) -> bool {
    exists|i: int| 0 <= i < s.len() && (#[trigger] s[i]).1@ is Disproven
}

fn all_proven_vec(v: &Vec<(String, VerifyResult)>) -> (b: bool)
    ensures
        b == all_proven_in(v@),
{
    let mut i: usize = 0;
    while i < v.len()
        invariant
            i <= v@.len(),
            forall|j: int| 0 <= j < i ==> (#[trigger] v@[j]).1@ is Proven,
        decreases v@.len() - i,
    {
        if !v[i].1.is_proven() {
            return false;
        }
        i += 1;
    }
    true
}

fn any_disproven_vec(v: &Vec<(String, VerifyResult)>) -> (b: bool)
    ensures
        b == any_disproven_in(v@),
{
    let mut i: usize = 0;
    while i < v.len()
        invariant
            i <= v@.len(),
            forall|j: int| 0 <= j < i ==> !((#[trigger] v@[j]).1@ is Disproven),
        decreases v@.len() - i,
    {
        if v[i].1.is_disproven() {
            return true;
        }
        i += 1;
    }
    false
}

impl FunctionVerification {
    /// Every `:ensures` and `:invariant` clause was proven.
    pub fn all_proven(&self) -> (b: bool)
        ensures
            b == (all_proven_in(self.ensures_results@) && all_proven_in(self.invariants_results@)),
    {
        all_proven_vec(&self.ensures_results) && all_proven_vec(&self.invariants_results)
    }

    /// Some clause was disproven.
    pub fn has_disproven(&self) -> (b: bool)
        ensures
            b == (any_disproven_in(self.ensures_results@) || any_disproven_in(self.invariants_results@)),
    {
        any_disproven_vec(&self.ensures_results) || any_disproven_vec(&self.invariants_results)
    }
}

// ── ProofCache ──────────────────────────────────────────────────────

pub struct ProofEntry {
    pub fn_name: String,
    pub clause: String,
    pub result: VerifyResult,
}

pub open spec fn entry_key(e: ProofEntry) -> (Seq<char>, Seq<char>) {
    (e.fn_name@, e.clause@)
}

pub open spec fn keys_unique(s: Seq<ProofEntry>) -> bool {
    forall|i: int, j: int| 0 <= i < s.len() && 0 <= j < s.len() && #[trigger] entry_key(s[i]) == #[trigger] entry_key(s[j]) ==> i == j
}

pub open spec fn has_key(s: Seq<ProofEntry>, k: (Seq<char>, Seq<char>)) -> bool {
    exists|i: int| 0 <= i < s.len() && #[trigger] entry_key(s[i]) == k
}

pub open spec fn proven_in_prefix(s: Seq<ProofEntry>, n: int, k: (Seq<char>, Seq<char>)) -> bool {
    exists|b: int| 0 <= b < n && #[trigger] entry_key(s[b]) == k && s[b].result@ is Proven
}

pub open spec fn entries_map(s: Seq<ProofEntry>) -> Map<(Seq<char>, Seq<char>), SpecVerifyResult> {
    Map::new(
        |k: (Seq<char>, Seq<char>)| has_key(s, k),
        |k: (Seq<char>, Seq<char>)| s[choose|i: int| 0 <= i < s.len() && #[trigger] entry_key(s[i]) == k].result@,
    )
}

/// Cache of verification results keyed by function name, then clause text.
/// Passed to the bytecode compiler so proven contracts skip their checks.
pub struct ProofCache {
    entries: Vec<ProofEntry>,
}

impl View for ProofCache {
    type V = Map<(Seq<char>, Seq<char>), SpecVerifyResult>;

    closed spec fn view(&self) -> Self::V {
        entries_map(self.entries@)
    }
}

impl ProofCache {
    #[verifier::type_invariant]
    spec fn inv(&self) -> bool {
        keys_unique(self.entries@)
    }

    pub fn new() -> (c: ProofCache)
        ensures
            c@ == Map::<(Seq<char>, Seq<char>), SpecVerifyResult>::empty(),
    {
        let c = ProofCache { entries: Vec::new() };
        assert(entries_map(c.entries@) =~= Map::<(Seq<char>, Seq<char>), SpecVerifyResult>::empty());
        c
    }

    fn find(&self, fn_name: &str, clause: &str) -> (r: Option<usize>)
        ensures
            match r {
                Some(i) => i < self.entries@.len() && entry_key(self.entries@[i as int]) == (fn_name@, clause@),
                None => !has_key(self.entries@, (fn_name@, clause@)),
            },
    {
        let mut i: usize = 0;
        while i < self.entries.len()
            invariant
                i <= self.entries@.len(),
                forall|j: int| 0 <= j < i ==> #[trigger] entry_key(self.entries@[j]) != (fn_name@, clause@),
            decreases self.entries@.len() - i,
        {
            if crate::text::str_eq(self.entries[i].fn_name.as_str(), fn_name)
                && crate::text::str_eq(self.entries[i].clause.as_str(), clause) {
                return Some(i);
            }
            i += 1;
        }
        None
    }

    /// Records the result for `(fn_name, clause)`, replacing any earlier one.
    pub fn insert(&mut self, fn_name: &str, clause: &str, result: VerifyResult)
        ensures
            final(self)@ == old(self)@.insert((fn_name@, clause@), result@),
    {
        proof {
            use_type_invariant(&*self);
        }
        let ghost k = (fn_name@, clause@);
        let ghost rv = result@;
        match self.find(fn_name, clause) {
            Some(i) => {
                let mut entries: Vec<ProofEntry> = Vec::new();
                std::mem::swap(&mut entries, &mut self.entries);
                let ghost old_entries = entries@;
                let e = ProofEntry {
                    fn_name: String::from_str(fn_name),
                    clause: String::from_str(clause),
                    result,
                };
                entries.set(i, e);
                proof {
                    assert forall|a: int, b: int|
                        0 <= a < entries@.len() && 0 <= b < entries@.len()
                            && #[trigger] entry_key(entries@[a]) == #[trigger] entry_key(entries@[b]) implies a == b by {
                        assert(entry_key(entries@[a]) == entry_key(old_entries[a]));
                        assert(entry_key(entries@[b]) == entry_key(old_entries[b]));
                    }
                    assert forall|kk: (Seq<char>, Seq<char>)| has_key(entries@, kk) == has_key(old_entries, kk) by {
                        if has_key(entries@, kk) {
                            let j = choose|j: int| 0 <= j < entries@.len() && #[trigger] entry_key(entries@[j]) == kk;
                            assert(entry_key(old_entries[j]) == kk);
                        }
                        if has_key(old_entries, kk) {
                            let j = choose|j: int| 0 <= j < old_entries.len() && #[trigger] entry_key(old_entries[j]) == kk;
                            assert(entry_key(entries@[j]) == kk);
                        }
                    }
                    assert forall|kk: (Seq<char>, Seq<char>)| #[trigger] entries_map(entries@).contains_key(kk)
                        implies entries_map(entries@)[kk] == entries_map(old_entries).insert(k, rv)[kk] by {
                        let j = choose|j: int| 0 <= j < entries@.len() && #[trigger] entry_key(entries@[j]) == kk;
                        if kk == k {
                            assert(entry_key(entries@[i as int]) == kk);
                            assert(j == i);
                        } else {
                            let j2 = choose|j2: int| 0 <= j2 < old_entries.len() && #[trigger] entry_key(old_entries[j2]) == kk;
                            assert(entry_key(old_entries[j]) == kk);
                            assert(j2 == j);
                            assert(j != i);
                        }
                    }
                    assert(entry_key(old_entries[i as int]) == k);
                    assert(has_key(old_entries, k));
                    assert(entries_map(entries@).dom() =~= entries_map(old_entries).insert(k, rv).dom());
                    assert(entries_map(entries@) =~= entries_map(old_entries).insert(k, rv));
                }
                self.entries = entries;
            },
            None => {
                let mut entries: Vec<ProofEntry> = Vec::new();
                std::mem::swap(&mut entries, &mut self.entries);
                let ghost old_entries = entries@;
                let e = ProofEntry {
                    fn_name: String::from_str(fn_name),
                    clause: String::from_str(clause),
                    result,
                };
                entries.push(e);
                proof {
                    assert forall|a: int, b: int|
                        0 <= a < entries@.len() && 0 <= b < entries@.len()
                            && #[trigger] entry_key(entries@[a]) == #[trigger] entry_key(entries@[b]) implies a == b by {
                        if a < old_entries.len() && b < old_entries.len() {
                            assert(entry_key(entries@[a]) == entry_key(old_entries[a]));
                            assert(entry_key(entries@[b]) == entry_key(old_entries[b]));
                        } else if a < old_entries.len() {
                            assert(entry_key(entries@[a]) == entry_key(old_entries[a]));
                        } else if b < old_entries.len() {
                            assert(entry_key(entries@[b]) == entry_key(old_entries[b]));
                        }
                    }
                    assert forall|kk: (Seq<char>, Seq<char>)| has_key(entries@, kk) == (has_key(old_entries, kk) || kk == k) by {
                        if has_key(entries@, kk) {
                            let j = choose|j: int| 0 <= j < entries@.len() && #[trigger] entry_key(entries@[j]) == kk;
                            if j < old_entries.len() {
                                assert(entry_key(old_entries[j]) == kk);
                            }
                        }
                        if has_key(old_entries, kk) {
                            let j = choose|j: int| 0 <= j < old_entries.len() && #[trigger] entry_key(old_entries[j]) == kk;
                            assert(entry_key(entries@[j]) == kk);
                        }
                        if kk == k {
                            assert(entry_key(entries@[old_entries.len() as int]) == kk);
                        }
                    }
                    assert forall|kk: (Seq<char>, Seq<char>)| #[trigger] entries_map(entries@).contains_key(kk)
                        implies entries_map(entries@)[kk] == entries_map(old_entries).insert(k, rv)[kk] by {
                        let j = choose|j: int| 0 <= j < entries@.len() && #[trigger] entry_key(entries@[j]) == kk;
                        let n = old_entries.len() as int;
                        if kk == k {
                            assert(entry_key(entries@[n]) == kk);
                            assert(j == n);
                        } else {
                            assert(j != n);
                            let j2 = choose|j2: int| 0 <= j2 < old_entries.len() && #[trigger] entry_key(old_entries[j2]) == kk;
                            assert(entry_key(old_entries[j]) == kk);
                            assert(entry_key(entries@[j2]) == kk);
                            assert(j2 == j);
                        }
                    }
                    assert(entries_map(entries@) =~= entries_map(old_entries).insert(k, rv));
                }
                self.entries = entries;
            },
        }
    }

    /// True when `(fn_name, clause)` was recorded as proven.
    pub fn is_proven(&self, fn_name: &str, clause: &str) -> (b: bool)
        ensures
            b == (self@.contains_key((fn_name@, clause@)) && self@[(fn_name@, clause@)] is Proven),
    {
        proof {
            use_type_invariant(self);
        }
        match self.find(fn_name, clause) {
            Some(i) => {
                proof {
                    let k = (fn_name@, clause@);
                    let j = choose|j: int| 0 <= j < self.entries@.len() && #[trigger] entry_key(self.entries@[j]) == k;
                    assert(j == i);
                }
                self.entries[i].result.is_proven()
            },
            None => false,
        }
    }

    /// The `(function, clause)` pairs recorded as proven, each once.
    pub fn into_proven_set(self) -> (v: Vec<(String, String)>)
        ensures
            forall|i: int, j: int| 0 <= i < v@.len() && 0 <= j < v@.len() && #[trigger] view_pairs(v@)[i] == #[trigger] view_pairs(v@)[j] ==> i == j,
            forall|k: (Seq<char>, Seq<char>)| view_pairs(v@).contains(k) <==> (self@.contains_key(k) && self@[k] is Proven),
    {
        proof {
            use_type_invariant(&self);
        }
        let ghost es = self.entries@;
        let mut out: Vec<(String, String)> = Vec::new();
        let mut i: usize = 0;
        while i < self.entries.len()
            invariant
                i <= es.len(),
                es == self.entries@,
                keys_unique(es),
                out@.len() <= i,
                forall|a: int| 0 <= a < out@.len() ==> proven_in_prefix(es, i as int, #[trigger] view_pairs(out@)[a]),
                forall|b: int| 0 <= b < i && (#[trigger] es[b]).result@ is Proven ==> view_pairs(out@).contains(entry_key(es[b])),
                forall|a: int, c: int| 0 <= a < out@.len() && 0 <= c < out@.len() && #[trigger] view_pairs(out@)[a] == #[trigger] view_pairs(out@)[c] ==> a == c,
            decreases es.len() - i,
        {
            if self.entries[i].result.is_proven() {
                let a = self.entries[i].fn_name.clone();
                let b = self.entries[i].clause.clone();
                let ghost old_out = out@;
                out.push((a, b));
                proof {
                    assert(view_pairs(out@) =~= view_pairs(old_out).push(entry_key(es[i as int])));
                    assert forall|x: int, y: int| 0 <= x < out@.len() && 0 <= y < out@.len() && #[trigger] view_pairs(out@)[x] == #[trigger] view_pairs(out@)[y] implies x == y by {
                        if x < old_out.len() && y == old_out.len() {
                            assert(view_pairs(old_out)[x] == view_pairs(out@)[x]);
                            assert(proven_in_prefix(es, i as int, view_pairs(old_out)[x]));
                            let bb = choose|bb: int| 0 <= bb < i && #[trigger] entry_key(es[bb]) == view_pairs(old_out)[x] && es[bb].result@ is Proven;
                            assert(entry_key(es[bb]) == entry_key(es[i as int]));
                        } else if y < old_out.len() && x == old_out.len() {
                            assert(view_pairs(old_out)[y] == view_pairs(out@)[y]);
                            assert(proven_in_prefix(es, i as int, view_pairs(old_out)[y]));
                            let bb = choose|bb: int| 0 <= bb < i && #[trigger] entry_key(es[bb]) == view_pairs(old_out)[y] && es[bb].result@ is Proven;
                            assert(entry_key(es[bb]) == entry_key(es[i as int]));
                        } else if x < old_out.len() && y < old_out.len() {
                            assert(view_pairs(old_out)[x] == view_pairs(out@)[x]);
                            assert(view_pairs(old_out)[y] == view_pairs(out@)[y]);
                        }
                    }
                    assert forall|aa: int| 0 <= aa < out@.len() implies proven_in_prefix(es, i + 1, #[trigger] view_pairs(out@)[aa]) by {
                        if aa < old_out.len() {
                            assert(view_pairs(old_out)[aa] == view_pairs(out@)[aa]);
                            assert(proven_in_prefix(es, i as int, view_pairs(old_out)[aa]));
                            let bb = choose|bb: int| 0 <= bb < i && #[trigger] entry_key(es[bb]) == view_pairs(old_out)[aa] && es[bb].result@ is Proven;
                            assert(entry_key(es[bb]) == view_pairs(out@)[aa]);
                        } else {
                            assert(view_pairs(out@)[aa] == entry_key(es[i as int]));
                        }
                    }
                    assert forall|bb: int| 0 <= bb < i + 1 && (#[trigger] es[bb]).result@ is Proven implies view_pairs(out@).contains(entry_key(es[bb])) by {
                        if bb < i {
                            let w = choose|w: int| 0 <= w < view_pairs(old_out).len() && view_pairs(old_out)[w] == entry_key(es[bb]);
                            assert(view_pairs(out@)[w] == entry_key(es[bb]));
                        } else {
                            assert(view_pairs(out@)[old_out.len() as int] == entry_key(es[bb]));
                        }
                    }
                }
            }
            else {
                proof {
                    assert forall|aa: int| 0 <= aa < out@.len() implies proven_in_prefix(es, i + 1, #[trigger] view_pairs(out@)[aa]) by {
                        assert(proven_in_prefix(es, i as int, view_pairs(out@)[aa]));
                        let bb = choose|bb: int| 0 <= bb < i && #[trigger] entry_key(es[bb]) == view_pairs(out@)[aa] && es[bb].result@ is Proven;
                        assert(entry_key(es[bb]) == view_pairs(out@)[aa]);
                    }
                }
            }
            i += 1;
        }
        proof {
            assert forall|k: (Seq<char>, Seq<char>)| view_pairs(out@).contains(k) <==> (entries_map(es).contains_key(k) && entries_map(es)[k] is Proven) by {
                if view_pairs(out@).contains(k) {
                    let w = choose|w: int| 0 <= w < view_pairs(out@).len() && view_pairs(out@)[w] == k;
                    assert(proven_in_prefix(es, i as int, view_pairs(out@)[w]));
                    let b = choose|b: int| 0 <= b < i && #[trigger] entry_key(es[b]) == view_pairs(out@)[w] && es[b].result@ is Proven;
                    assert(has_key(es, k));
                    let c = choose|c: int| 0 <= c < es.len() && #[trigger] entry_key(es[c]) == k;
                    assert(c == b);
                }
                if entries_map(es).contains_key(k) && entries_map(es)[k] is Proven {
                    let c = choose|c: int| 0 <= c < es.len() && #[trigger] entry_key(es[c]) == k;
                    assert(es[c].result@ is Proven);
                }
            }
        }
        out
    }
}


/// Why an expression could not be translated for the solver.
#[derive(Debug, Clone)]
pub enum TranslateError {
    UnsupportedExpression(String),
    UnsupportedType(String),
    UndefinedVariable(String),
}

impl TranslateError {
    /// The message: `unsupported: e`, `unsupported type: t`, `undefined: v`.
    pub fn to_display_string(&self) -> (s: String)
        ensures
            s@ == (match *self {
                TranslateError::UnsupportedExpression(e) => "unsupported: "@ + e@,
                TranslateError::UnsupportedType(t) => "unsupported type: "@ + t@,
                TranslateError::UndefinedVariable(v) => "undefined: "@ + v@,
            }),
    {
        let (head, body) = match self {
            TranslateError::UnsupportedExpression(e) => ("unsupported: ", e),
            TranslateError::UnsupportedType(t) => ("unsupported type: ", t),
            TranslateError::UndefinedVariable(v) => ("undefined: ", v),
        };
        let mut s = String::from_str(head);
        s.append(body.as_str());
        s
    }
}

} // verus!
