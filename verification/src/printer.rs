//! Writing expressions and patterns back as AIRL source text.
use vstd::prelude::*;
use crate::ast::{Expr, ExprKind, LetBinding, MatchArm, Param, Pattern, PatternKind, LitPattern, type_text};
use crate::parser::strings_view;
use crate::text::{decimal_int, i64_to_string};

verus! {

/// Parts written one after another with `sep` between them.
pub open spec fn joined(parts: Seq<Seq<char>>, sep: Seq<char>) -> Seq<char>
    decreases parts.len(),
{
    if parts.len() == 0 {
        Seq::empty()
    } else if parts.len() == 1 {
        parts[0]
    } else {
        joined(parts.drop_last(), sep) + sep + parts.last()
    }
}

/// The strings joined with `sep` between them.
pub fn join_strings(parts: &Vec<String>, sep: &str) -> (s: String)
    ensures
        s@ == joined(strings_view(parts@), sep@),
{
    let mut out = String::new();
    let mut i: usize = 0;
    assert(strings_view(parts@.take(0)) =~= Seq::<Seq<char>>::empty());
    while i < parts.len()
        invariant
            i <= parts@.len(),
            out@ == joined(strings_view(parts@.take(i as int)), sep@),
        decreases parts@.len() - i,
    {
        assert(strings_view(parts@.take(i + 1)).drop_last() =~= strings_view(parts@.take(i as int)));
        if i > 0 {
            out.append(sep);
        }
        out.append(parts[i].as_str());
        i += 1;
    }
    assert(parts@.take(i as int) =~= parts@);
    out
}

// ── Patterns ────────────────────────────────────────────────────────

/// No float literal anywhere in the pattern: those print only with a float
/// formatter, which this library does not hold.
pub open spec fn pattern_printable(p: Pattern) -> bool
    decreases p, 1nat,
{
    match p.kind {
        PatternKind::Literal(LitPattern::Float(_)) => false,
        PatternKind::Variant(_, subs) => patterns_printable(subs@),
        _ => true,
    }
}

pub open spec fn patterns_printable(s: Seq<Pattern>) -> bool
    decreases s, 0nat,
{
    if s.len() == 0 { true } else { patterns_printable(s.drop_last()) && pattern_printable(s.last()) }
}

pub open spec fn pattern_text(p: Pattern) -> Seq<char>
    decreases p, 1nat,
{
    match p.kind {
        PatternKind::Wildcard => "_"@,
        PatternKind::Binding(n) => n@,
        PatternKind::Literal(l) => match l {
            LitPattern::Int(v) => decimal_int(v as int),
            LitPattern::Str(v) => "\""@ + v@ + "\""@,
            LitPattern::Bool(b) => if b { "true"@ } else { "false"@ },
            LitPattern::Nil => "nil"@,
            LitPattern::Float(_) => Seq::empty(),
        },
        PatternKind::Variant(n, subs) => if subs@.len() == 0 {
            "("@ + n@ + ")"@
        } else {
            "("@ + n@ + " "@ + joined(pattern_texts(subs@), " "@) + ")"@
        },
    }
}

pub open spec fn pattern_texts(s: Seq<Pattern>) -> Seq<Seq<char>>
    decreases s, 0nat,
{
    if s.len() == 0 { Seq::empty() } else { pattern_texts(s.drop_last()).push(pattern_text(s.last())) }
}

fn pattern_texts_exec(v: &Vec<Pattern>) -> (r: Vec<String>)
    requires
        patterns_printable(v@),
    ensures
        strings_view(r@) == pattern_texts(v@),
    decreases v, 0nat,
{
    let mut out: Vec<String> = Vec::new();
    let mut i: usize = 0;
    assert(v@.take(0) =~= Seq::<Pattern>::empty());
    assert(strings_view(out@) =~= Seq::<Seq<char>>::empty());
    while i < v.len()
        invariant
            i <= v@.len(),
            patterns_printable(v@),
            strings_view(out@) == pattern_texts(v@.take(i as int)),
        decreases v@.len() - i,
    {
        proof {
            assert(decreases_to!(v => v@));
            assert(decreases_to!(v@ => v@[i as int]));
            assert(v@.take(i + 1).drop_last() =~= v@.take(i as int));
            lemma_patterns_printable_index(v@, i as int);
        }
        let t = v[i].to_airl();
        let ghost prev = out@;
        out.push(t);
        assert(strings_view(out@) =~= strings_view(prev).push(t@));
        i += 1;
    }
    assert(v@.take(i as int) =~= v@);
    out
}

proof fn lemma_patterns_printable_index(s: Seq<Pattern>, k: int)
    requires
        patterns_printable(s),
        0 <= k < s.len(),
    ensures
        pattern_printable(s[k]),
    decreases s.len(),
{
    if k < s.len() - 1 {
        lemma_patterns_printable_index(s.drop_last(), k);
    }
}

impl Pattern {
    /// The pattern written back as AIRL source.
    pub fn to_airl(&self) -> (s: String)
        requires
            pattern_printable(*self),
        ensures
            s@ == pattern_text(*self),
        decreases self, 1nat,
    {
        match &self.kind {
            PatternKind::Wildcard => String::from_str("_"),
            PatternKind::Binding(n) => n.clone(),
            PatternKind::Literal(l) => match l {
                LitPattern::Int(v) => i64_to_string(*v),
                LitPattern::Str(v) => {
                    let mut s = String::from_str("\"");
                    s.append(v.as_str());
                    s.append("\"");
                    s
                },
                LitPattern::Bool(b) => if *b { String::from_str("true") } else { String::from_str("false") },
                LitPattern::Nil => String::from_str("nil"),
                LitPattern::Float(_) => String::new(),
            },
            PatternKind::Variant(n, subs) => {
                let mut s = String::from_str("(");
                s.append(n.as_str());
                if subs.len() > 0 {
                    s.append(" ");
                    let parts = pattern_texts_exec(subs);
                    let j = join_strings(&parts, " ");
                    s.append(j.as_str());
                }
                s.append(")");
                s
            },
        }
    }
}

// ── Expressions ─────────────────────────────────────────────────────

/// No float-literal pattern in any `match` of the expression.
pub open spec fn expr_printable(e: Expr) -> bool
    decreases e, 1nat,
{
    match e.kind {
        ExprKind::FnCall(f, args) => expr_printable(*f) && exprs_printable(args@),
        ExprKind::If(c, t, f) => expr_printable(*c) && expr_printable(*t) && expr_printable(*f),
        ExprKind::Let(bs, body) => bindings_printable(bs@) && expr_printable(*body),
        ExprKind::Do(es) => exprs_printable(es@),
        ExprKind::Match(s, arms) => expr_printable(*s) && arms_printable(arms@),
        ExprKind::Lambda(_, body) => expr_printable(*body),
        ExprKind::Try(x) => expr_printable(*x),
        ExprKind::Forall(_, g, b) => guard_printable(g) && expr_printable(*b),
        ExprKind::Exists(_, g, b) => guard_printable(g) && expr_printable(*b),
        ExprKind::VariantCtor(_, args) => exprs_printable(args@),
        ExprKind::StructLit(_, fs) => fields_printable(fs@),
        ExprKind::ListLit(es) => exprs_printable(es@),
        _ => true,
    }
}

pub open spec fn guard_printable(g: Option<Box<Expr>>) -> bool
    decreases g, 0nat,
{
    match g {
        Some(x) => expr_printable(*x),
        None => true,
    }
}

pub open spec fn exprs_printable(s: Seq<Expr>) -> bool
    decreases s, 0nat,
{
    if s.len() == 0 { true } else { exprs_printable(s.drop_last()) && expr_printable(s.last()) }
}

pub open spec fn bindings_printable(s: Seq<LetBinding>) -> bool
    decreases s, 0nat,
{
    if s.len() == 0 { true } else { bindings_printable(s.drop_last()) && expr_printable(s.last().value) }
}

pub open spec fn arms_printable(s: Seq<MatchArm>) -> bool
    decreases s, 0nat,
{
    if s.len() == 0 {
        true
    } else {
        arms_printable(s.drop_last()) && pattern_printable(s.last().pattern) && expr_printable(s.last().body)
    }
}

pub open spec fn fields_printable(s: Seq<(String, Expr)>) -> bool
    decreases s, 0nat,
{
    if s.len() == 0 { true } else { fields_printable(s.drop_last()) && expr_printable(s.last().1) }
}

/// The expression written back as AIRL source.
pub open spec fn expr_text(e: Expr) -> Seq<char>
    decreases e, 1nat,
{
    match e.kind {
        ExprKind::IntLit(v) => decimal_int(v as int),
        ExprKind::FloatLit(t) => t@,
        ExprKind::StrLit(v) => "\""@ + v@ + "\""@,
        ExprKind::BoolLit(b) => if b { "true"@ } else { "false"@ },
        ExprKind::NilLit => "nil"@,
        ExprKind::SymbolRef(s) => s@,
        ExprKind::KeywordLit(k) => ":"@ + k@,
        ExprKind::FnCall(f, args) => "("@ + joined(seq![expr_text(*f)] + expr_texts(args@), " "@) + ")"@,
        ExprKind::If(c, t, f) => "(if "@ + expr_text(*c) + " "@ + expr_text(*t) + " "@ + expr_text(*f) + ")"@,
        ExprKind::Let(bs, body) => "(let "@ + joined(binding_texts(bs@), " "@) + " "@ + expr_text(*body) + ")"@,
        ExprKind::Do(es) => "(do "@ + joined(expr_texts(es@), " "@) + ")"@,
        ExprKind::Match(s, arms) => "(match "@ + expr_text(*s) + arms_text(arms@) + ")"@,
        ExprKind::Lambda(ps, body) => "(fn ["@ + joined(param_names(ps@), " "@) + "] "@ + expr_text(*body) + ")"@,
        ExprKind::Try(x) => "(try "@ + expr_text(*x) + ")"@,
        ExprKind::Forall(p, g, b) => "(forall ["@ + p.name@ + " : "@ + type_text(p.ty) + "]"@ + guard_text(g) + " "@
            + expr_text(*b) + ")"@,
        ExprKind::Exists(p, g, b) => "(exists ["@ + p.name@ + " : "@ + type_text(p.ty) + "]"@ + guard_text(g) + " "@
            + expr_text(*b) + ")"@,
        ExprKind::VariantCtor(n, args) => if args@.len() == 0 {
            n@
        } else {
            "("@ + n@ + " "@ + joined(expr_texts(args@), " "@) + ")"@
        },
        ExprKind::StructLit(n, fs) => "("@ + n@ + " "@ + joined(field_texts(fs@), " "@) + ")"@,
        ExprKind::ListLit(es) => "["@ + joined(expr_texts(es@), " "@) + "]"@,
    }
}

pub open spec fn guard_text(g: Option<Box<Expr>>) -> Seq<char>
    decreases g, 0nat,
{
    match g {
        Some(x) => " (where "@ + expr_text(*x) + ")"@,
        None => Seq::empty(),
    }
}

pub open spec fn expr_texts(s: Seq<Expr>) -> Seq<Seq<char>>
    decreases s, 0nat,
{
    if s.len() == 0 { Seq::empty() } else { expr_texts(s.drop_last()).push(expr_text(s.last())) }
}

pub open spec fn binding_texts(s: Seq<LetBinding>) -> Seq<Seq<char>>
    decreases s, 0nat,
{
    if s.len() == 0 {
        Seq::empty()
    } else {
        binding_texts(s.drop_last()).push("("@ + s.last().name@ + " : "@ + type_text(s.last().ty) + " "@
            + expr_text(s.last().value) + ")"@)
    }
}

pub open spec fn arms_text(s: Seq<MatchArm>) -> Seq<char>
    decreases s, 0nat,
{
    if s.len() == 0 {
        Seq::empty()
    } else {
        arms_text(s.drop_last()) + " "@ + pattern_text(s.last().pattern) + " "@ + expr_text(s.last().body)
    }
}

pub open spec fn field_texts(s: Seq<(String, Expr)>) -> Seq<Seq<char>>
    decreases s, 0nat,
{
    if s.len() == 0 {
        Seq::empty()
    } else {
        field_texts(s.drop_last()).push(":"@ + s.last().0@ + " "@ + expr_text(s.last().1))
    }
}

pub open spec fn param_names(s: Seq<Param>) -> Seq<Seq<char>> {
    Seq::new(s.len(), |k: int| s[k].name@)
}


proof fn lemma_exprs_printable_index(s: Seq<Expr>, k: int)
    requires
        exprs_printable(s),
        0 <= k < s.len(),
    ensures
        expr_printable(s[k]),
    decreases s.len(),
{
    if k < s.len() - 1 {
        lemma_exprs_printable_index(s.drop_last(), k);
    }
}

proof fn lemma_bindings_printable_index(s: Seq<LetBinding>, k: int)
    requires
        bindings_printable(s),
        0 <= k < s.len(),
    ensures
        expr_printable(s[k].value),
    decreases s.len(),
{
    if k < s.len() - 1 {
        lemma_bindings_printable_index(s.drop_last(), k);
    }
}

proof fn lemma_arms_printable_index(s: Seq<MatchArm>, k: int)
    requires
        arms_printable(s),
        0 <= k < s.len(),
    ensures
        pattern_printable(s[k].pattern),
        expr_printable(s[k].body),
    decreases s.len(),
{
    if k < s.len() - 1 {
        lemma_arms_printable_index(s.drop_last(), k);
    }
}

proof fn lemma_fields_printable_index(s: Seq<(String, Expr)>, k: int)
    requires
        fields_printable(s),
        0 <= k < s.len(),
    ensures
        expr_printable(s[k].1),
    decreases s.len(),
{
    if k < s.len() - 1 {
        lemma_fields_printable_index(s.drop_last(), k);
    }
}

fn expr_texts_exec(v: &Vec<Expr>) -> (r: Vec<String>)
    requires
        exprs_printable(v@),
    ensures
        strings_view(r@) == expr_texts(v@),
    decreases v, 0nat,
{
    let mut out: Vec<String> = Vec::new();
    let mut i: usize = 0;
    assert(v@.take(0) =~= Seq::<Expr>::empty());
    assert(strings_view(out@) =~= Seq::<Seq<char>>::empty());
    while i < v.len()
        invariant
            i <= v@.len(),
            exprs_printable(v@),
            strings_view(out@) == expr_texts(v@.take(i as int)),
        decreases v@.len() - i,
    {
        proof {
            assert(decreases_to!(v => v@));
            assert(decreases_to!(v@ => v@[i as int]));
            assert(v@.take(i + 1).drop_last() =~= v@.take(i as int));
            lemma_exprs_printable_index(v@, i as int);
        }
        let t = v[i].to_airl();
        let ghost prev = out@;
        out.push(t);
        assert(strings_view(out@) =~= strings_view(prev).push(t@));
        i += 1;
    }
    assert(v@.take(i as int) =~= v@);
    out
}

fn binding_texts_exec(v: &Vec<LetBinding>) -> (r: Vec<String>)
    requires
        bindings_printable(v@),
    ensures
        strings_view(r@) == binding_texts(v@),
    decreases v, 0nat,
{
    let mut out: Vec<String> = Vec::new();
    let mut i: usize = 0;
    assert(v@.take(0) =~= Seq::<LetBinding>::empty());
    assert(strings_view(out@) =~= Seq::<Seq<char>>::empty());
    while i < v.len()
        invariant
            i <= v@.len(),
            bindings_printable(v@),
            strings_view(out@) == binding_texts(v@.take(i as int)),
        decreases v@.len() - i,
    {
        proof {
            assert(decreases_to!(v => v@));
            assert(decreases_to!(v@ => v@[i as int]));
            assert(decreases_to!(v@[i as int] => v@[i as int].value));
            assert(v@.take(i + 1).drop_last() =~= v@.take(i as int));
            lemma_bindings_printable_index(v@, i as int);
        }
        let b = &v[i];
        let mut t = String::from_str("(");
        t.append(b.name.as_str());
        t.append(" : ");
        let ty = b.ty.to_airl();
        t.append(ty.as_str());
        t.append(" ");
        let val = b.value.to_airl();
        t.append(val.as_str());
        t.append(")");
        let ghost prev = out@;
        out.push(t);
        assert(strings_view(out@) =~= strings_view(prev).push(t@));
        i += 1;
    }
    assert(v@.take(i as int) =~= v@);
    out
}

fn arms_text_exec(v: &Vec<MatchArm>) -> (r: String)
    requires
        arms_printable(v@),
    ensures
        r@ == arms_text(v@),
    decreases v, 0nat,
{
    let mut out = String::new();
    let mut i: usize = 0;
    assert(v@.take(0) =~= Seq::<MatchArm>::empty());
    while i < v.len()
        invariant
            i <= v@.len(),
            arms_printable(v@),
            out@ == arms_text(v@.take(i as int)),
        decreases v@.len() - i,
    {
        proof {
            assert(decreases_to!(v => v@));
            assert(decreases_to!(v@ => v@[i as int]));
            assert(decreases_to!(v@[i as int] => v@[i as int].body));
            assert(v@.take(i + 1).drop_last() =~= v@.take(i as int));
            lemma_arms_printable_index(v@, i as int);
        }
        out.append(" ");
        let p = v[i].pattern.to_airl();
        out.append(p.as_str());
        out.append(" ");
        let b = v[i].body.to_airl();
        out.append(b.as_str());
        i += 1;
    }
    assert(v@.take(i as int) =~= v@);
    out
}

fn field_texts_exec(v: &Vec<(String, Expr)>) -> (r: Vec<String>)
    requires
        fields_printable(v@),
    ensures
        strings_view(r@) == field_texts(v@),
    decreases v, 0nat,
{
    let mut out: Vec<String> = Vec::new();
    let mut i: usize = 0;
    assert(v@.take(0) =~= Seq::<(String, Expr)>::empty());
    assert(strings_view(out@) =~= Seq::<Seq<char>>::empty());
    while i < v.len()
        invariant
            i <= v@.len(),
            fields_printable(v@),
            strings_view(out@) == field_texts(v@.take(i as int)),
        decreases v@.len() - i,
    {
        proof {
            assert(decreases_to!(v => v@));
            assert(decreases_to!(v@ => v@[i as int]));
            assert(decreases_to!(v@[i as int] => v@[i as int].1));
            assert(v@.take(i + 1).drop_last() =~= v@.take(i as int));
            lemma_fields_printable_index(v@, i as int);
        }
        let mut t = String::from_str(":");
        t.append(v[i].0.as_str());
        t.append(" ");
        let e = v[i].1.to_airl();
        t.append(e.as_str());
        let ghost prev = out@;
        out.push(t);
        assert(strings_view(out@) =~= strings_view(prev).push(t@));
        i += 1;
    }
    assert(v@.take(i as int) =~= v@);
    out
}

pub(crate) fn param_names_exec(v: &Vec<Param>) -> (r: Vec<String>)
    ensures
        strings_view(r@) == param_names(v@),
{
    let mut out: Vec<String> = Vec::new();
    let mut i: usize = 0;
    while i < v.len()
        invariant
            i <= v@.len(),
            strings_view(out@) == param_names(v@.take(i as int)),
        decreases v@.len() - i,
    {
        let ghost prev = out@;
        out.push(v[i].name.clone());
        assert(strings_view(out@) =~= strings_view(prev).push(v@[i as int].name@));
        assert(param_names(v@.take(i + 1)) =~= param_names(v@.take(i as int)).push(v@[i as int].name@));
        i += 1;
    }
    assert(v@.take(i as int) =~= v@);
    out
}

/// `" "`-separated texts inside `open`/`close`.
fn wrapped(open: &str, parts: &Vec<String>, close: &str) -> (s: String)
    ensures
        s@ == open@ + joined(strings_view(parts@), " "@) + close@,
{
    let mut s = String::from_str(open);
    let j = join_strings(parts, " ");
    s.append(j.as_str());
    s.append(close);
    s
}

impl Expr {
    /// The expression written back as AIRL source.
    pub fn to_airl(&self) -> (s: String)
        requires
            expr_printable(*self),
        ensures
            s@ == expr_text(*self),
        decreases self, 1nat,
    {
        let out = match &self.kind {
            ExprKind::IntLit(v) => i64_to_string(*v),
            ExprKind::FloatLit(t) => t.clone(),
            ExprKind::StrLit(v) => {
                let mut s = String::from_str("\"");
                s.append(v.as_str());
                s.append("\"");
                s
            },
            ExprKind::BoolLit(b) => if *b { String::from_str("true") } else { String::from_str("false") },
            ExprKind::NilLit => String::from_str("nil"),
            ExprKind::SymbolRef(n) => n.clone(),
            ExprKind::KeywordLit(k) => {
                let mut s = String::from_str(":");
                s.append(k.as_str());
                s
            },
            ExprKind::FnCall(f, args) => {
                let mut parts: Vec<String> = Vec::new();
                parts.push(f.to_airl());
                let ghost first = parts@;
                let mut rest = expr_texts_exec(args);
                proof {
                    assert(strings_view(first) =~= seq![expr_text(**f)]);
                    assert(strings_view(first + rest@) =~= strings_view(first) + strings_view(rest@));
                }
                parts.append(&mut rest);
                let w = wrapped("(", &parts, ")");
                assert(w@ =~= expr_text(*self));
                w
            },
            ExprKind::If(c, t, f) => {
                let mut s = String::from_str("(if ");
                s.append(c.to_airl().as_str());
                s.append(" ");
                s.append(t.to_airl().as_str());
                s.append(" ");
                s.append(f.to_airl().as_str());
                s.append(")");
                assert(s@ =~= expr_text(*self));
                s
            },
            ExprKind::Let(bs, body) => {
                let parts = binding_texts_exec(bs);
                let mut s = wrapped("(let ", &parts, " ");
                s.append(body.to_airl().as_str());
                s.append(")");
                assert(s@ =~= expr_text(*self));
                s
            },
            ExprKind::Do(es) => {
                let parts = expr_texts_exec(es);
                let w = wrapped("(do ", &parts, ")");
                assert(w@ =~= expr_text(*self));
                w
            },
            ExprKind::Match(x, arms) => {
                let mut s = String::from_str("(match ");
                s.append(x.to_airl().as_str());
                s.append(arms_text_exec(arms).as_str());
                s.append(")");
                assert(s@ =~= expr_text(*self));
                s
            },
            ExprKind::Lambda(ps, body) => {
                let names = param_names_exec(ps);
                let mut s = wrapped("(fn [", &names, "] ");
                s.append(body.to_airl().as_str());
                s.append(")");
                assert(s@ =~= expr_text(*self));
                s
            },
            ExprKind::Try(x) => {
                let mut s = String::from_str("(try ");
                s.append(x.to_airl().as_str());
                s.append(")");
                assert(s@ =~= expr_text(*self));
                s
            },
            ExprKind::Forall(p, g, b) => {
                let mut s = String::from_str("(forall [");
                s.append(p.name.as_str());
                s.append(" : ");
                s.append(p.ty.to_airl().as_str());
                s.append("]");
                let ghost pre = s@;
                match g {
                    Some(guard) => {
                        assert(guard_printable(*g));
                        assert(expr_printable(**guard));
                        s.append(" (where ");
                        s.append(guard.to_airl().as_str());
                        s.append(")");
                        assert(s@ =~= pre + guard_text(*g));
                    },
                    None => {
                        assert(s@ =~= pre + guard_text(*g));
                    },
                }
                s.append(" ");
                s.append(b.to_airl().as_str());
                s.append(")");
                assert(s@ =~= expr_text(*self));
                s
            },
            ExprKind::Exists(p, g, b) => {
                let mut s = String::from_str("(exists [");
                s.append(p.name.as_str());
                s.append(" : ");
                s.append(p.ty.to_airl().as_str());
                s.append("]");
                let ghost pre = s@;
                match g {
                    Some(guard) => {
                        assert(guard_printable(*g));
                        assert(expr_printable(**guard));
                        s.append(" (where ");
                        s.append(guard.to_airl().as_str());
                        s.append(")");
                        assert(s@ =~= pre + guard_text(*g));
                    },
                    None => {
                        assert(s@ =~= pre + guard_text(*g));
                    },
                }
                s.append(" ");
                s.append(b.to_airl().as_str());
                s.append(")");
                assert(s@ =~= expr_text(*self));
                s
            },
            ExprKind::VariantCtor(n, args) => {
                if args.len() == 0 {
                    n.clone()
                } else {
                    let parts = expr_texts_exec(args);
                    let mut s = String::from_str("(");
                    s.append(n.as_str());
                    s.append(" ");
                    s.append(join_strings(&parts, " ").as_str());
                    s.append(")");
                    assert(s@ =~= expr_text(*self));
                    s
                }
            },
            ExprKind::StructLit(n, fs) => {
                let parts = field_texts_exec(fs);
                let mut s = String::from_str("(");
                s.append(n.as_str());
                s.append(" ");
                s.append(join_strings(&parts, " ").as_str());
                s.append(")");
                assert(s@ =~= expr_text(*self));
                s
            },
            ExprKind::ListLit(es) => {
                let parts = expr_texts_exec(es);
                let w = wrapped("[", &parts, "]");
                assert(w@ =~= expr_text(*self));
                w
            },
        };
        assert(out@ =~= expr_text(*self));
        out
    }
}

// ── Checking printability ───────────────────────────────────────────

/// Whether the pattern prints back as source (holds no float literal).
pub fn check_pattern_printable(p: &Pattern) -> (b: bool)
    ensures
        b == pattern_printable(*p),
    decreases p, 1nat,
{
    match &p.kind {
        PatternKind::Literal(LitPattern::Float(_)) => false,
        PatternKind::Variant(_, subs) => check_patterns_printable(subs),
        _ => true,
    }
}

fn check_patterns_printable(v: &Vec<Pattern>) -> (b: bool)
    ensures
        b == patterns_printable(v@),
    decreases v, 0nat,
{
    let mut ok = true;
    let mut i: usize = 0;
    while i < v.len()
        invariant
            i <= v@.len(),
            ok == patterns_printable(v@.take(i as int)),
        decreases v@.len() - i,
    {
        proof {
            assert(decreases_to!(v => v@));
            assert(decreases_to!(v@ => v@[i as int]));
            assert(v@.take(i + 1).drop_last() =~= v@.take(i as int));
            assert(v@.take(i + 1).last() == v@[i as int]);
        }
        let c = check_pattern_printable(&v[i]);
        ok = ok && c;
        i += 1;
    }
    assert(v@.take(i as int) =~= v@);
    ok
}

/// Whether the expression prints back as source: no `match` in it has a
/// float-literal pattern.
pub fn check_printable(e: &Expr) -> (b: bool)
    ensures
        b == expr_printable(*e),
    decreases e, 1nat,
{
    match &e.kind {
        ExprKind::FnCall(f, args) => check_printable(f) && check_all_printable(args),
        ExprKind::If(c, t, f) => check_printable(c) && check_printable(t) && check_printable(f),
        ExprKind::Let(bs, body) => check_bindings_printable(bs) && check_printable(body),
        ExprKind::Do(es) => check_all_printable(es),
        ExprKind::Match(sc, arms) => check_printable(sc) && check_arms_printable(arms),
        ExprKind::Lambda(_, body) => check_printable(body),
        ExprKind::Try(x) => check_printable(x),
        ExprKind::Forall(_, g, b) => check_guard_printable(g) && check_printable(b),
        ExprKind::Exists(_, g, b) => check_guard_printable(g) && check_printable(b),
        ExprKind::VariantCtor(_, args) => check_all_printable(args),
        ExprKind::StructLit(_, fs) => check_fields_printable(fs),
        ExprKind::ListLit(es) => check_all_printable(es),
        _ => true,
    }
}

fn check_guard_printable(g: &Option<Box<Expr>>) -> (b: bool)
    ensures
        b == guard_printable(*g),
    decreases g, 0nat,
{
    match g {
        Some(x) => check_printable(x),
        None => true,
    }
}

/// Whether every expression of the list prints back as source.
pub fn check_all_printable(v: &Vec<Expr>) -> (b: bool)
    ensures
        b == exprs_printable(v@),
    decreases v, 0nat,
{
    let mut ok = true;
    let mut i: usize = 0;
    while i < v.len()
        invariant
            i <= v@.len(),
            ok == exprs_printable(v@.take(i as int)),
        decreases v@.len() - i,
    {
        proof {
            assert(decreases_to!(v => v@));
            assert(decreases_to!(v@ => v@[i as int]));
            assert(v@.take(i + 1).drop_last() =~= v@.take(i as int));
            assert(v@.take(i + 1).last() == v@[i as int]);
        }
        let c = check_printable(&v[i]);
        ok = ok && c;
        i += 1;
    }
    assert(v@.take(i as int) =~= v@);
    ok
}

fn check_bindings_printable(v: &Vec<LetBinding>) -> (b: bool)
    ensures
        b == bindings_printable(v@),
    decreases v, 0nat,
{
    let mut ok = true;
    let mut i: usize = 0;
    while i < v.len()
        invariant
            i <= v@.len(),
            ok == bindings_printable(v@.take(i as int)),
        decreases v@.len() - i,
    {
        proof {
            assert(decreases_to!(v => v@));
            assert(decreases_to!(v@ => v@[i as int]));
            assert(decreases_to!(v@[i as int] => v@[i as int].value));
            assert(v@.take(i + 1).drop_last() =~= v@.take(i as int));
            assert(v@.take(i + 1).last() == v@[i as int]);
        }
        let c = check_printable(&v[i].value);
        ok = ok && c;
        i += 1;
    }
    assert(v@.take(i as int) =~= v@);
    ok
}

fn check_arms_printable(v: &Vec<MatchArm>) -> (b: bool)
    ensures
        b == arms_printable(v@),
    decreases v, 0nat,
{
    let mut ok = true;
    let mut i: usize = 0;
    while i < v.len()
        invariant
            i <= v@.len(),
            ok == arms_printable(v@.take(i as int)),
        decreases v@.len() - i,
    {
        proof {
            assert(decreases_to!(v => v@));
            assert(decreases_to!(v@ => v@[i as int]));
            assert(decreases_to!(v@[i as int] => v@[i as int].body));
            assert(v@.take(i + 1).drop_last() =~= v@.take(i as int));
            assert(v@.take(i + 1).last() == v@[i as int]);
        }
        let p = check_pattern_printable(&v[i].pattern);
        let c = check_printable(&v[i].body);
        ok = ok && p && c;
        i += 1;
    }
    assert(v@.take(i as int) =~= v@);
    ok
}

fn check_fields_printable(v: &Vec<(String, Expr)>) -> (b: bool)
    ensures
        b == fields_printable(v@),
    decreases v, 0nat,
{
    let mut ok = true;
    let mut i: usize = 0;
    while i < v.len()
        invariant
            i <= v@.len(),
            ok == fields_printable(v@.take(i as int)),
        decreases v@.len() - i,
    {
        proof {
            assert(decreases_to!(v => v@));
            assert(decreases_to!(v@ => v@[i as int]));
            assert(decreases_to!(v@[i as int] => v@[i as int].1));
            assert(v@.take(i + 1).drop_last() =~= v@.take(i as int));
            assert(v@.take(i + 1).last() == v@[i as int]);
        }
        let c = check_printable(&v[i].1);
        ok = ok && c;
        i += 1;
    }
    assert(v@.take(i as int) =~= v@);
    ok
}

/// A list prints back exactly when each of its expressions does.
pub proof fn lemma_exprs_printable_each(s: Seq<Expr>)
    ensures
        exprs_printable(s) <==> forall|i: int| 0 <= i < s.len() ==> expr_printable(#[trigger] s[i]),
    decreases s.len(),
{
    if s.len() > 0 {
        lemma_exprs_printable_each(s.drop_last());
        if forall|i: int| 0 <= i < s.len() ==> expr_printable(#[trigger] s[i]) {
            assert forall|i: int| 0 <= i < s.drop_last().len() implies expr_printable(#[trigger] s.drop_last()[i]) by {
                assert(s.drop_last()[i] == s[i]);
            }
        }
        if exprs_printable(s) {
            assert forall|i: int| 0 <= i < s.len() implies expr_printable(#[trigger] s[i]) by {
                if i < s.len() - 1 {
                    assert(s.drop_last()[i] == s[i]);
                }
            }
        }
    }
}

} // verus!
