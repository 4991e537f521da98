//! Matching values against patterns, both the source-level patterns of the
//! tree-walking interpreter and the IR patterns of the IR VM.
use vstd::prelude::*;
use crate::ast::{Pattern, PatternKind, LitPattern};
use crate::ir::IRPattern;
use crate::value::{Value, value_eq, value_same, clone_value, values_equal};
use crate::text::str_eq;

verus! {

/// The bindings a match produces: names with the matched sub-values.
pub type Bindings = Seq<(Seq<char>, Value)>;

/// A literal pattern matches a value of the same kind and content; floats by bits.
pub open spec fn lit_matches(lit: LitPattern, v: Value) -> bool {
    match lit {
        LitPattern::Int(a) => v == Value::Int(a),
        LitPattern::Float(a) => v == Value::Float(a),
        LitPattern::Str(a) => v matches Value::Str(b) && a@ == b@,
        LitPattern::Bool(a) => v == Value::Bool(a),
        LitPattern::Nil => v is Nil,
    }
}

/// Matching a source pattern: a nullary variant pattern needs a `Unit`
/// payload, a single sub-pattern matches the payload itself, several match
/// the fields of a tuple payload of the same length.
pub open spec fn match_pattern(p: Pattern, v: Value) -> Option<Bindings>
    decreases p,
{
    match p.kind {
        PatternKind::Wildcard => Some(Seq::empty()),
        PatternKind::Binding(name) => Some(seq![(name@, v)]),
        PatternKind::Literal(lit) => if lit_matches(lit, v) { Some(Seq::empty()) } else { None },
        PatternKind::Variant(name, subs) => match v {
            Value::Variant(vname, inner) => if vname@ != name@ {
                None
            } else if subs@.len() == 0 {
                if *inner is Unit { Some(Seq::empty()) } else { None }
            } else if subs@.len() == 1 {
                match_pattern(subs@[0], *inner)
            } else {
                match *inner {
                    Value::Tuple(items) => if items@.len() != subs@.len() {
                        None
                    } else {
                        match_all(subs@, items@)
                    },
                    _ => None,
                }
            },
            _ => None,
        },
    }
}

/// Matching patterns against values pairwise, bindings in order.
pub open spec fn match_all(ps: Seq<Pattern>, vs: Seq<Value>) -> Option<Bindings>
    decreases ps,
{
    if ps.len() == 0 || vs.len() == 0 {
        Some(Seq::empty())
    } else {
        match match_all(ps.drop_last(), vs.drop_last()) {
            None => None,
            Some(b) => match match_pattern(ps.last(), vs.last()) {
                None => None,
                Some(c) => Some(b + c),
            },
        }
    }
}

/// The names a pattern binds, left to right.
pub open spec fn binders(p: Pattern) -> Seq<Seq<char>>
    decreases p, 1nat,
{
    match p.kind {
        PatternKind::Binding(name) => seq![name@],
        PatternKind::Variant(_, subs) => binders_all(subs@),
        _ => Seq::empty(),
    }
}

pub open spec fn binders_all(ps: Seq<Pattern>) -> Seq<Seq<char>>
    decreases ps, 0nat,
{
    if ps.len() == 0 { Seq::empty() } else { binders_all(ps.drop_last()) + binders(ps.last()) }
}

pub open spec fn binding_names(b: Bindings) -> Seq<Seq<char>> {
    Seq::new(b.len(), |i: int| b[i].0)
}

/// A successful match binds exactly the pattern's names, left to right, each
/// once: a variant's single sub-pattern binds through the payload, several
/// through the tuple fields in order.
pub proof fn law_match_binds_in_order(p: Pattern, v: Value)
    ensures
        match_pattern(p, v) matches Some(b) ==> binding_names(b) == binders(p),
    decreases p, 1nat,
{
    match p.kind {
        PatternKind::Binding(name) => {
            assert(binding_names(seq![(name@, v)]) =~= seq![name@]);
        },
        PatternKind::Variant(name, subs) => {
            if let Value::Variant(vname, inner) = v {
                if vname@ == name@ {
                    if subs@.len() == 0 {
                        assert(binding_names(Seq::empty()) =~= binders_all(subs@));
                    } else if subs@.len() == 1 {
                        law_match_binds_in_order(subs@[0], *inner);
                        assert(subs@.drop_last() =~= Seq::<Pattern>::empty());
                        assert(subs@.last() == subs@[0]);
                        assert(binders_all(subs@.drop_last()) == Seq::<Seq<char>>::empty());
                        assert(Seq::<Seq<char>>::empty() + binders(subs@[0]) =~= binders(subs@[0]));
                    } else if let Value::Tuple(items) = *inner {
                        if items@.len() == subs@.len() {
                            lemma_match_all_binds(subs@, items@);
                        }
                    }
                }
            }
        },
        _ => {
            assert(binding_names(Seq::empty()) =~= Seq::<Seq<char>>::empty());
        },
    }
}

proof fn lemma_match_all_binds(ps: Seq<Pattern>, vs: Seq<Value>)
    requires
        ps.len() == vs.len(),
    ensures
        match_all(ps, vs) matches Some(b) ==> binding_names(b) == binders_all(ps),
    decreases ps, 0nat,
{
    if ps.len() == 0 {
        assert(binding_names(Seq::empty()) =~= Seq::<Seq<char>>::empty());
    } else {
        lemma_match_all_binds(ps.drop_last(), vs.drop_last());
        law_match_binds_in_order(ps.last(), vs.last());
        if let Some(b) = match_all(ps.drop_last(), vs.drop_last()) {
            if let Some(c) = match_pattern(ps.last(), vs.last()) {
                assert(binding_names(b + c) =~= binding_names(b) + binding_names(c));
            }
        }
    }
}

/// Exec bindings standing for spec bindings: same names, copied values.
pub open spec fn bindings_agree(r: Seq<(String, Value)>, s: Bindings) -> bool {
    &&& r.len() == s.len()
    &&& forall|i: int| 0 <= i < r.len() ==> (#[trigger] r[i]).0@ == s[i].0 && value_same(s[i].1, r[i].1)
}

pub open spec fn match_result_agrees(r: Option<Vec<(String, Value)>>, s: Option<Bindings>) -> bool {
    match s {
        None => r is None,
        Some(b) => r matches Some(v) && bindings_agree(v@, b),
    }
}

fn lit_matches_exec(lit: &LitPattern, value: &Value) -> (b: bool)
    ensures
        b == lit_matches(*lit, *value),
{
    match (lit, value) {
        (LitPattern::Int(a), Value::Int(b)) => *a == *b,
        (LitPattern::Float(a), Value::Float(b)) => *a == *b,
        (LitPattern::Str(a), Value::Str(b)) => str_eq(a.as_str(), b.as_str()),
        (LitPattern::Bool(a), Value::Bool(b)) => *a == *b,
        (LitPattern::Nil, Value::Nil) => true,
        _ => false,
    }
}

fn append_bindings(out: &mut Vec<(String, Value)>, more: Vec<(String, Value)>, Ghost(sa): Ghost<Bindings>, Ghost(sb): Ghost<Bindings>)
    requires
        bindings_agree(old(out)@, sa),
        bindings_agree(more@, sb),
    ensures
        bindings_agree(final(out)@, sa + sb),
{
    let mut more = more;
    let ghost o0 = out@;
    let ghost m0 = more@;
    out.append(&mut more);
    assert(out@ =~= o0 + m0);
    assert forall|i: int| 0 <= i < out@.len() implies (#[trigger] out@[i]).0@ == (sa + sb)[i].0 && value_same((sa + sb)[i].1, out@[i].1) by {
        if i < o0.len() {
            assert(out@[i] == o0[i]);
        } else {
            assert(out@[i] == m0[i - o0.len()]);
        }
    }
}

/// Matches a source pattern against a value; `None` when it does not match.
pub fn try_match(pattern: &Pattern, value: &Value) -> (r: Option<Vec<(String, Value)>>)
    ensures
        match_result_agrees(r, match_pattern(*pattern, *value)),
    decreases pattern, 1nat,
{
    match &pattern.kind {
        PatternKind::Wildcard => Some(Vec::new()),
        PatternKind::Binding(name) => {
            let mut v: Vec<(String, Value)> = Vec::new();
            v.push((name.clone(), clone_value(value)));
            Some(v)
        },
        PatternKind::Literal(lit) => {
            if lit_matches_exec(lit, value) {
                Some(Vec::new())
            } else {
                None
            }
        },
        PatternKind::Variant(name, subs) => {
            match value {
                Value::Variant(vname, inner) => {
                    if !str_eq(vname.as_str(), name.as_str()) {
                        return None;
                    }
                    if subs.len() == 0 {
                        match &**inner {
                            Value::Unit => Some(Vec::new()),
                            _ => None,
                        }
                    } else if subs.len() == 1 {
                        proof {
                            assert(decreases_to!(*pattern => pattern.kind));
                            assert(decreases_to!(pattern.kind => *subs));
                            assert(decreases_to!(*subs => subs@));
                            assert(decreases_to!(subs@ => subs@[0]));
                        }
                        try_match(&subs[0], inner)
                    } else {
                        match &**inner {
                            Value::Tuple(items) => {
                                if items.len() != subs.len() {
                                    return None;
                                }
                                try_match_all(subs, items)
                            },
                            _ => None,
                        }
                    }
                },
                _ => None,
            }
        },
    }
}

fn try_match_all(ps: &Vec<Pattern>, vs: &Vec<Value>) -> (r: Option<Vec<(String, Value)>>)
    requires
        ps@.len() == vs@.len(),
    ensures
        match_result_agrees(r, match_all(ps@, vs@)),
    decreases ps, 0nat,
{
    let mut out: Vec<(String, Value)> = Vec::new();
    let mut i: usize = 0;
    let ghost mut acc: Bindings = Seq::empty();
    while i < ps.len()
        invariant
            i <= ps@.len(),
            ps@.len() == vs@.len(),
            match_all(ps@.take(i as int), vs@.take(i as int)) == Some(acc),
            bindings_agree(out@, acc),
        decreases ps@.len() - i,
    {
        assert(ps@.take(i + 1).drop_last() =~= ps@.take(i as int));
        assert(vs@.take(i + 1).drop_last() =~= vs@.take(i as int));
        proof {
            assert(decreases_to!(ps => ps@));
            assert(decreases_to!(ps@ => ps@[i as int]));
        }
        match try_match(&ps[i], &vs[i]) {
            None => {
                proof {
                    lemma_match_all_none(ps@, vs@, i as int + 1);
                }
                return None;
            },
            Some(bs) => {
                let ghost sb = match_pattern(ps@[i as int], vs@[i as int])->0;
                append_bindings(&mut out, bs, Ghost(acc), Ghost(sb));
                proof {
                    acc = acc + sb;
                }
            },
        }
        i += 1;
    }
    assert(ps@.take(ps@.len() as int) =~= ps@);
    assert(vs@.take(vs@.len() as int) =~= vs@);
    Some(out)
}

/// A failure on a prefix is a failure of the whole.
pub proof fn lemma_match_all_none(ps: Seq<Pattern>, vs: Seq<Value>, n: int)
    requires
        ps.len() == vs.len(),
        0 < n <= ps.len(),
        match_all(ps.take(n), vs.take(n)) is None,
    ensures
        match_all(ps, vs) is None,
    decreases ps.len() - n,
{
    if n < ps.len() {
        assert(ps.take(n + 1).drop_last() =~= ps.take(n));
        assert(vs.take(n + 1).drop_last() =~= vs.take(n));
        lemma_match_all_none(ps, vs, n + 1);
    } else {
        assert(ps.take(n) =~= ps);
        assert(vs.take(n) =~= vs);
    }
}


// ── IR patterns ─────────────────────────────────────────────────────

/// Matching an IR pattern: a literal by value equality, a variant pattern
/// with no sub-patterns by tag alone, one sub-pattern against the payload,
/// several against the elements of a list payload of the same length.
pub open spec fn match_ir(p: IRPattern, v: Value) -> Option<Bindings>
    decreases p,
{
    match p {
        IRPattern::Wild => Some(Seq::empty()),
        IRPattern::Bind(name) => Some(seq![(name@, v)]),
        IRPattern::Lit(lit) => if value_eq(v, lit) { Some(Seq::empty()) } else { None },
        IRPattern::Variant(tag, subs) => match v {
            Value::Variant(vtag, inner) => if vtag@ != tag@ {
                None
            } else if subs@.len() == 0 {
                Some(Seq::empty())
            } else if subs@.len() == 1 {
                match_ir(subs@[0], *inner)
            } else {
                match *inner {
                    Value::List(items) => if items@.len() == subs@.len() {
                        match_ir_all(subs@, items@)
                    } else {
                        None
                    },
                    _ => None,
                }
            },
            _ => None,
        },
    }
}

pub open spec fn match_ir_all(ps: Seq<IRPattern>, vs: Seq<Value>) -> Option<Bindings>
    decreases ps,
{
    if ps.len() == 0 || vs.len() == 0 {
        Some(Seq::empty())
    } else {
        match match_ir_all(ps.drop_last(), vs.drop_last()) {
            None => None,
            Some(b) => match match_ir(ps.last(), vs.last()) {
                None => None,
                Some(c) => Some(b + c),
            },
        }
    }
}

/// Matches an IR pattern against a value; `None` when it does not match.
pub fn try_match_ir(pattern: &IRPattern, value: &Value) -> (r: Option<Vec<(String, Value)>>)
    ensures
        match_result_agrees(r, match_ir(*pattern, *value)),
    decreases pattern, 1nat,
{
    match pattern {
        IRPattern::Wild => Some(Vec::new()),
        IRPattern::Bind(name) => {
            let mut v: Vec<(String, Value)> = Vec::new();
            v.push((name.clone(), clone_value(value)));
            Some(v)
        },
        IRPattern::Lit(lit) => {
            if values_equal(value, lit) {
                Some(Vec::new())
            } else {
                None
            }
        },
        IRPattern::Variant(tag, subs) => {
            match value {
                Value::Variant(vtag, inner) => {
                    if !str_eq(vtag.as_str(), tag.as_str()) {
                        return None;
                    }
                    if subs.len() == 0 {
                        Some(Vec::new())
                    } else if subs.len() == 1 {
                        proof {
                            assert(decreases_to!(*pattern => *subs));
                            assert(decreases_to!(*subs => subs@));
                            assert(decreases_to!(subs@ => subs@[0]));
                        }
                        try_match_ir(&subs[0], inner)
                    } else {
                        match &**inner {
                            Value::List(items) => {
                                if items.len() == subs.len() {
                                    try_match_ir_all(subs, items)
                                } else {
                                    None
                                }
                            },
                            _ => None,
                        }
                    }
                },
                _ => None,
            }
        },
    }
}

fn try_match_ir_all(ps: &Vec<IRPattern>, vs: &Vec<Value>) -> (r: Option<Vec<(String, Value)>>)
    requires
        ps@.len() == vs@.len(),
    ensures
        match_result_agrees(r, match_ir_all(ps@, vs@)),
    decreases ps, 0nat,
{
    let mut out: Vec<(String, Value)> = Vec::new();
    let mut i: usize = 0;
    let ghost mut acc: Bindings = Seq::empty();
    while i < ps.len()
        invariant
            i <= ps@.len(),
            ps@.len() == vs@.len(),
            match_ir_all(ps@.take(i as int), vs@.take(i as int)) == Some(acc),
            bindings_agree(out@, acc),
        decreases ps@.len() - i,
    {
        assert(ps@.take(i + 1).drop_last() =~= ps@.take(i as int));
        assert(vs@.take(i + 1).drop_last() =~= vs@.take(i as int));
        proof {
            assert(decreases_to!(ps => ps@));
            assert(decreases_to!(ps@ => ps@[i as int]));
        }
        match try_match_ir(&ps[i], &vs[i]) {
            None => {
                proof {
                    lemma_match_ir_all_none(ps@, vs@, i as int + 1);
                }
                return None;
            },
            Some(bs) => {
                let ghost sb = match_ir(ps@[i as int], vs@[i as int])->0;
                append_bindings(&mut out, bs, Ghost(acc), Ghost(sb));
                proof {
                    acc = acc + sb;
                }
            },
        }
        i += 1;
    }
    assert(ps@.take(ps@.len() as int) =~= ps@);
    assert(vs@.take(vs@.len() as int) =~= vs@);
    Some(out)
}

pub proof fn lemma_match_ir_all_none(ps: Seq<IRPattern>, vs: Seq<Value>, n: int)
    requires
        ps.len() == vs.len(),
        0 < n <= ps.len(),
        match_ir_all(ps.take(n), vs.take(n)) is None,
    ensures
        match_ir_all(ps, vs) is None,
    decreases ps.len() - n,
{
    if n < ps.len() {
        assert(ps.take(n + 1).drop_last() =~= ps.take(n));
        assert(vs.take(n + 1).drop_last() =~= vs.take(n));
        lemma_match_ir_all_none(ps, vs, n + 1);
    } else {
        assert(ps.take(n) =~= ps);
        assert(vs.take(n) =~= vs);
    }
}

/// An IR variant pattern matches only a variant value with its own tag.
pub proof fn law_ir_variant_needs_same_tag(tag: String, subs: Vec<IRPattern>, v: Value)
    ensures
        match_ir(IRPattern::Variant(tag, subs), v) is Some
            ==> (v matches Value::Variant(vtag, _) && vtag@ == tag@),
{
}

/// A source variant pattern matches only a variant value with its own name.
pub proof fn law_variant_needs_same_name(p: Pattern, v: Value)
    ensures
        (p.kind is Variant && match_pattern(p, v) is Some)
            ==> (p.kind matches PatternKind::Variant(name, _) && v matches Value::Variant(vname, _) && vname@ == name@),
{
}

} // verus!
