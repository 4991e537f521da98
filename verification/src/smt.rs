//! The solver-side term language that contracts are translated into: sorted
//! constants, literals, operator applications, uninterpreted function calls
//! and quantifiers, plus the name-to-term tables the translator keeps.
use vstd::prelude::*;
use crate::text::str_eq;

verus! {

/// Which solver sort a variable has.
#[derive(Debug, Clone, Copy, PartialEq, Eq, Structural)]
pub enum VarSort {
    Int,
    Bool,
    Real,
    Str,
    /// A sequence of integers, the solver's stand-in for a list.
    IntSeq,
}

/// The operators a translated term applies.
#[derive(Debug, Clone, Copy, PartialEq, Eq, Structural)]
pub enum SmtOp {
    /// Integer or real sum of all operands.
    Add,
    Sub,
    /// Integer or real product of all operands.
    Mul,
    Div,
    Mod,
    Eq,
    Not,
    And,
    Or,
    Implies,
    /// `if`-`then`-`else` over its three operands.
    Ite,
    Lt,
    Le,
    Gt,
    Ge,
    /// An integer read as a real.
    ToReal,
    StrConcat,
    StrLen,
    /// The first string contains the second.
    StrContains,
    /// The first string is a prefix of the second.
    StrPrefixOf,
    /// The first string is a suffix of the second.
    StrSuffixOf,
    /// Length of an integer sequence.
    SeqLen,
    /// The sequence (first operand) contains the integer (second operand).
    SeqContainsElem,
    /// Bitwise operators on the 64-bit two's-complement encodings of
    /// integers, read back as signed integers.
    BvAnd,
    BvOr,
    BvXor,
    BvShl,
    /// Logical (zero-filling) right shift.
    BvLshr,
    BvNot,
}

/// A translated term.
#[derive(Debug)]
pub enum Term {
    Int(i64),
    Bool(bool),
    /// The real `num / den`.
    Real(i64, i64),
    /// A real given by the source text of a float literal.
    FloatText(String),
    /// A real given by the bits of a float pattern literal.
    FloatBits(u64),
    Str(String),
    /// A named constant of a sort.
    Const(String, VarSort),
    App(SmtOp, Vec<Term>),
    /// An uninterpreted function (integer parameters) with the given result sort.
    Uninterp(String, VarSort, Vec<Term>),
    /// `forall` (true) or `exists` (false) over one bound constant.
    Quant(bool, String, VarSort, Box<Term>),
}

pub enum SpecTerm {
    Int(i64),
    Bool(bool),
    Real(i64, i64),
    FloatText(Seq<char>),
    FloatBits(u64),
    Str(Seq<char>),
    Const(Seq<char>, VarSort),
    App(SmtOp, Seq<SpecTerm>),
    Uninterp(Seq<char>, VarSort, Seq<SpecTerm>),
    Quant(bool, Seq<char>, VarSort, Box<SpecTerm>),
}

pub open spec fn term_view(t: Term) -> SpecTerm
    decreases t, 1nat,
{
    match t {
        Term::Int(v) => SpecTerm::Int(v),
        Term::Bool(b) => SpecTerm::Bool(b),
        Term::Real(n, d) => SpecTerm::Real(n, d),
        Term::FloatText(s) => SpecTerm::FloatText(s@),
        Term::FloatBits(b) => SpecTerm::FloatBits(b),
        Term::Str(s) => SpecTerm::Str(s@),
        Term::Const(n, s) => SpecTerm::Const(n@, s),
        Term::App(op, args) => SpecTerm::App(op, terms_view(args@)),
        Term::Uninterp(n, s, args) => SpecTerm::Uninterp(n@, s, terms_view(args@)),
        Term::Quant(f, n, s, body) => SpecTerm::Quant(f, n@, s, Box::new(term_view(*body))),
    }
}

pub open spec fn terms_view(s: Seq<Term>) -> Seq<SpecTerm>
    decreases s, 0nat,
{
    if s.len() == 0 {
        Seq::empty()
    } else {
        terms_view(s.drop_last()).push(term_view(s.last()))
    }
}

pub fn clone_term(t: &Term) -> (r: Term)
    ensures
        term_view(r) == term_view(*t),
    decreases t, 1nat,
{
    match t {
        Term::Int(v) => Term::Int(*v),
        Term::Bool(b) => Term::Bool(*b),
        Term::Real(n, d) => Term::Real(*n, *d),
        Term::FloatText(s) => Term::FloatText(s.clone()),
        Term::FloatBits(b) => Term::FloatBits(*b),
        Term::Str(s) => Term::Str(s.clone()),
        Term::Const(n, s) => Term::Const(n.clone(), *s),
        Term::App(op, args) => Term::App(*op, clone_terms(args)),
        Term::Uninterp(n, s, args) => Term::Uninterp(n.clone(), *s, clone_terms(args)),
        Term::Quant(f, n, s, body) => Term::Quant(*f, n.clone(), *s, Box::new(clone_term(body))),
    }
}

pub fn clone_terms(v: &Vec<Term>) -> (r: Vec<Term>)
    ensures
        terms_view(r@) == terms_view(v@),
    decreases v, 0nat,
{
    let mut out: Vec<Term> = Vec::new();
    let mut i: usize = 0;
    assert(v@.take(0) =~= Seq::<Term>::empty());
    while i < v.len()
        invariant
            i <= v@.len(),
            terms_view(out@) == terms_view(v@.take(i as int)),
        decreases v@.len() - i,
    {
        proof {
            assert(decreases_to!(v => v@));
            assert(decreases_to!(v@ => v@[i as int]));
        }
        let c = clone_term(&v[i]);
        let ghost prev = out@;
        out.push(c);
        proof {
            assert(out@.drop_last() =~= prev);
            assert(v@.take(i + 1).drop_last() =~= v@.take(i as int));
        }
        i += 1;
    }
    assert(v@.take(v@.len() as int) =~= v@);
    out
}

impl Clone for Term {
    fn clone(&self) -> (r: Term)
        ensures
            term_view(r) == term_view(*self),
    {
        clone_term(self)
    }
}

// ── Name-to-term tables ─────────────────────────────────────────────

/// The map an entry list stands for: later entries win.
pub open spec fn entries_map(b: Seq<(String, Term)>) -> Map<Seq<char>, SpecTerm>
    decreases b.len(),
{
    if b.len() == 0 {
        Map::empty()
    } else {
        entries_map(b.drop_last()).insert(b.last().0@, term_view(b.last().1))
    }
}

/// The entries whose name is not `k`, in order.
pub open spec fn without(b: Seq<(String, Term)>, k: Seq<char>) -> Seq<(String, Term)>
    decreases b.len(),
{
    if b.len() == 0 {
        Seq::empty()
    } else if b.last().0@ == k {
        without(b.drop_last(), k)
    } else {
        without(b.drop_last(), k).push(b.last())
    }
}

proof fn lemma_without(b: Seq<(String, Term)>, k: Seq<char>)
    ensures
        entries_map(without(b, k)) == entries_map(b).remove(k),
    decreases b.len(),
{
    if b.len() > 0 {
        lemma_without(b.drop_last(), k);
        let w = without(b, k);
        if b.last().0@ != k {
            assert(w.drop_last() =~= without(b.drop_last(), k));
        }
        assert(entries_map(w) =~= entries_map(b).remove(k));
    }
}

proof fn lemma_entries_update(b: Seq<(String, Term)>, i: int, t: Term)
    requires
        0 <= i < b.len(),
        forall|j: int| i < j < b.len() ==> (#[trigger] b[j]).0@ != b[i].0@,
    ensures
        entries_map(b.update(i, (b[i].0, t))) == entries_map(b).insert(b[i].0@, term_view(t)),
    decreases b.len(),
{
    let nb = b.update(i, (b[i].0, t));
    if i == b.len() - 1 {
        assert(nb.drop_last() =~= b.drop_last());
    } else {
        assert(nb.drop_last() =~= b.drop_last().update(i, (b[i].0, t)));
        lemma_entries_update(b.drop_last(), i, t);
        assert(b.last().0@ != b[i].0@);
    }
    assert(entries_map(nb) =~= entries_map(b).insert(b[i].0@, term_view(t)));
}

proof fn lemma_entries_lookup(b: Seq<(String, Term)>, i: int)
    requires
        0 <= i < b.len(),
        forall|j: int| i < j < b.len() ==> (#[trigger] b[j]).0@ != b[i].0@,
    ensures
        entries_map(b).contains_key(b[i].0@),
        entries_map(b)[b[i].0@] == term_view(b[i].1),
    decreases b.len(),
{
    if i < b.len() - 1 {
        lemma_entries_lookup(b.drop_last(), i);
    }
}

proof fn lemma_entries_absent(b: Seq<(String, Term)>, k: Seq<char>)
    requires
        forall|j: int| 0 <= j < b.len() ==> (#[trigger] b[j]).0@ != k,
    ensures
        !entries_map(b).contains_key(k),
    decreases b.len(),
{
    if b.len() > 0 {
        lemma_entries_absent(b.drop_last(), k);
    }
}

/// A table from names to terms.
pub struct TermMap {
    entries: Vec<(String, Term)>,
}

impl View for TermMap {
    type V = Map<Seq<char>, SpecTerm>;

    closed spec fn view(&self) -> Map<Seq<char>, SpecTerm> {
        entries_map(self.entries@)
    }
}

impl TermMap {
    pub fn new() -> (m: TermMap)
        ensures
            m@ == Map::<Seq<char>, SpecTerm>::empty(),
    {
        TermMap { entries: Vec::new() }
    }

    /// Index of the last entry named `name`.
    fn find(&self, name: &str) -> (r: Option<usize>)
        ensures
            match r {
                Some(j) => j < self.entries@.len() && self.entries@[j as int].0@ == name@
                    && (forall|m: int| j < m < self.entries@.len() ==> (#[trigger] self.entries@[m]).0@ != name@)
                    && self@.contains_key(name@) && self@[name@] == term_view(self.entries@[j as int].1),
                None => !self@.contains_key(name@),
            },
    {
        let mut j = self.entries.len();
        while j > 0
            invariant
                j <= self.entries@.len(),
                forall|m: int| j <= m < self.entries@.len() ==> (#[trigger] self.entries@[m]).0@ != name@,
            decreases j,
        {
            if str_eq(self.entries[j - 1].0.as_str(), name) {
                proof {
                    lemma_entries_lookup(self.entries@, j - 1);
                }
                return Some(j - 1);
            }
            j -= 1;
        }
        proof {
            lemma_entries_absent(self.entries@, name@);
        }
        None
    }

    pub fn contains_key(&self, name: &str) -> (b: bool)
        ensures
            b == self@.contains_key(name@),
    {
        self.find(name).is_some()
    }

    /// A copy of the term bound to `name`.
    pub fn get(&self, name: &str) -> (r: Option<Term>)
        ensures
            match r {
                Some(t) => self@.contains_key(name@) && term_view(t) == self@[name@],
                None => !self@.contains_key(name@),
            },
    {
        match self.find(name) {
            Some(j) => Some(clone_term(&self.entries[j].1)),
            None => None,
        }
    }

    /// Binds `name` to `t`, giving back what it was bound to before.
    pub fn insert(&mut self, name: String, t: Term) -> (r: Option<Term>)
        ensures
            final(self)@ == old(self)@.insert(name@, term_view(t)),
            match r {
                Some(p) => old(self)@.contains_key(name@) && term_view(p) == old(self)@[name@],
                None => !old(self)@.contains_key(name@),
            },
    {
        let ghost tv = term_view(t);
        match self.find(name.as_str()) {
            Some(j) => {
                let ghost ob = self.entries@;
                let (n, prev) = self.entries.remove(j);
                self.entries.insert(j, (n, t));
                proof {
                    assert(self.entries@ =~= ob.update(j as int, (ob[j as int].0, t)));
                    lemma_entries_update(ob, j as int, t);
                }
                Some(prev)
            },
            None => {
                let ghost ob = self.entries@;
                self.entries.push((name, t));
                proof {
                    assert(self.entries@.drop_last() =~= ob);
                }
                None
            },
        }
    }

    /// Drops every binding of `name`.
    pub fn remove(&mut self, name: &str)
        ensures
            final(self)@ == old(self)@.remove(name@),
    {
        let ghost ob = self.entries@;
        let n = self.entries.len();
        assert(ob.len() == n);
        let mut rest: Vec<(String, Term)> = Vec::new();
        std::mem::swap(&mut rest, &mut self.entries);
        let mut kept: Vec<(String, Term)> = Vec::new();
        let mut i: usize = 0;
        while rest.len() > 0
            invariant
                i <= ob.len(),
                rest@ == ob.skip(i as int),
                rest@.len() + i == ob.len(),
                ob.len() <= usize::MAX,
                kept@ == without(ob.take(i as int), name@),
            decreases rest@.len(),
        {
            assert(ob.take(i + 1).drop_last() =~= ob.take(i as int));
            let e = rest.remove(0);
            assert(e == ob[i as int]);
            assert(rest@ =~= ob.skip(i + 1));
            if !str_eq(e.0.as_str(), name) {
                kept.push(e);
            }
            i += 1;
        }
        assert(ob.take(ob.len() as int) =~= ob);
        proof {
            lemma_without(ob, name@);
        }
        self.entries = kept;
    }

    /// Restores `name` to what `prev` says it was bound to (nothing: unbound).
    pub fn restore(&mut self, name: String, prev: Option<Term>)
        ensures
            final(self)@ == (match prev {
                Some(t) => old(self)@.insert(name@, term_view(t)),
                None => old(self)@.remove(name@),
            }),
    {
        match prev {
            Some(t) => {
                self.insert(name, t);
            },
            None => {
                self.remove(name.as_str());
            },
        }
    }
}

} // verus!
