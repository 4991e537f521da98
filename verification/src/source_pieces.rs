//! Expressions written back as AIRL source for any expression: the text as
//! pieces, literal text and the float literals of `match` patterns by their
//! bits, which the caller's float formatting writes. Read with the floats
//! left out, the pieces are `to_airl`'s text (`expr_text`).
use vstd::prelude::*;
use crate::ast::{Expr, ExprKind, LetBinding, MatchArm, Pattern, PatternKind, LitPattern, type_text};
use crate::display::{DisplayPiece, SpecPiece, pieces_view, text, push_text, push_str, cat3};
use crate::printer::{joined, join_strings, param_names, param_names_exec, pattern_text, pattern_texts, expr_text,
    expr_texts, guard_text, binding_texts, arms_text, field_texts};
use crate::parser::strings_view;
use crate::text::{decimal_int, i64_to_string};

verus! {

// ── The pieces ──────────────────────────────────────────────────────

pub open spec fn pattern_pieces(p: Pattern) -> Seq<SpecPiece>
    decreases p, 1nat,
{
    match p.kind {
        PatternKind::Wildcard => text("_"@),
        PatternKind::Binding(n) => text(n@),
        PatternKind::Literal(l) => match l {
            LitPattern::Int(v) => text(decimal_int(v as int)),
            LitPattern::Str(v) => text("\""@ + v@ + "\""@),
            LitPattern::Bool(b) => text(if b { "true"@ } else { "false"@ }),
            LitPattern::Nil => text("nil"@),
            LitPattern::Float(bits) => seq![SpecPiece::Float(bits)],
        },
        PatternKind::Variant(n, subs) => if subs@.len() == 0 {
            text("("@ + n@ + ")"@)
        } else {
            text("("@ + n@) + patterns_spaced(subs@) + text(")"@)
        },
    }
}

/// Each pattern after a space.
pub open spec fn patterns_spaced(s: Seq<Pattern>) -> Seq<SpecPiece>
    decreases s, 0nat,
{
    if s.len() == 0 { Seq::empty() } else { patterns_spaced(s.drop_last()) + text(" "@) + pattern_pieces(s.last()) }
}

pub open spec fn expr_pieces(e: Expr) -> Seq<SpecPiece>
    decreases e, 1nat,
{
    match e.kind {
        ExprKind::IntLit(v) => text(decimal_int(v as int)),
        ExprKind::FloatLit(t) => text(t@),
        ExprKind::StrLit(v) => text("\""@ + v@ + "\""@),
        ExprKind::BoolLit(b) => text(if b { "true"@ } else { "false"@ }),
        ExprKind::NilLit => text("nil"@),
        ExprKind::SymbolRef(s) => text(s@),
        ExprKind::KeywordLit(k) => text(":"@ + k@),
        ExprKind::FnCall(f, args) => text("("@) + expr_pieces(*f) + exprs_spaced(args@) + text(")"@),
        ExprKind::If(c, t, f) => text("(if "@) + expr_pieces(*c) + text(" "@) + expr_pieces(*t) + text(" "@)
            + expr_pieces(*f) + text(")"@),
        ExprKind::Let(bs, body) => text("(let "@) + bindings_joined(bs@) + text(" "@) + expr_pieces(*body) + text(")"@),
        ExprKind::Do(es) => text("(do "@) + exprs_joined(es@) + text(")"@),
        ExprKind::Match(s, arms) => text("(match "@) + expr_pieces(*s) + arms_pieces(arms@) + text(")"@),
        ExprKind::Lambda(ps, body) => text("(fn ["@ + joined(param_names(ps@), " "@) + "] "@) + expr_pieces(*body)
            + text(")"@),
        ExprKind::Try(x) => text("(try "@) + expr_pieces(*x) + text(")"@),
        ExprKind::Forall(p, g, b) => text("(forall ["@ + p.name@ + " : "@ + type_text(p.ty) + "]"@) + guard_pieces(g)
            + text(" "@) + expr_pieces(*b) + text(")"@),
        ExprKind::Exists(p, g, b) => text("(exists ["@ + p.name@ + " : "@ + type_text(p.ty) + "]"@) + guard_pieces(g)
            + text(" "@) + expr_pieces(*b) + text(")"@),
        ExprKind::VariantCtor(n, args) => if args@.len() == 0 {
            text(n@)
        } else {
            text("("@ + n@) + exprs_spaced(args@) + text(")"@)
        },
        ExprKind::StructLit(n, fs) => text("("@ + n@ + " "@) + fields_joined(fs@) + text(")"@),
        ExprKind::ListLit(es) => text("["@) + exprs_joined(es@) + text("]"@),
    }
}

pub open spec fn guard_pieces(g: Option<Box<Expr>>) -> Seq<SpecPiece>
    decreases g, 0nat,
{
    match g {
        Some(x) => text(" (where "@) + expr_pieces(*x) + text(")"@),
        None => Seq::empty(),
    }
}

/// Each expression after a space.
pub open spec fn exprs_spaced(s: Seq<Expr>) -> Seq<SpecPiece>
    decreases s, 0nat,
{
    if s.len() == 0 { Seq::empty() } else { exprs_spaced(s.drop_last()) + text(" "@) + expr_pieces(s.last()) }
}

/// The expressions with a space between each two.
pub open spec fn exprs_joined(s: Seq<Expr>) -> Seq<SpecPiece>
    decreases s, 0nat,
{
    if s.len() == 0 {
        Seq::empty()
    } else if s.len() == 1 {
        expr_pieces(s[0])
    } else {
        exprs_joined(s.drop_last()) + text(" "@) + expr_pieces(s.last())
    }
}

pub open spec fn binding_pieces(b: LetBinding) -> Seq<SpecPiece>
    decreases b, 0nat,
{
    text("("@ + b.name@ + " : "@ + type_text(b.ty) + " "@) + expr_pieces(b.value) + text(")"@)
}

pub open spec fn bindings_joined(s: Seq<LetBinding>) -> Seq<SpecPiece>
    decreases s, 1nat,
{
    if s.len() == 0 {
        Seq::empty()
    } else if s.len() == 1 {
        binding_pieces(s[0])
    } else {
        bindings_joined(s.drop_last()) + text(" "@) + binding_pieces(s.last())
    }
}

/// Each arm as ` pattern body`.
pub open spec fn arms_pieces(s: Seq<MatchArm>) -> Seq<SpecPiece>
    decreases s, 0nat,
{
    if s.len() == 0 {
        Seq::empty()
    } else {
        arms_pieces(s.drop_last()) + text(" "@) + pattern_pieces(s.last().pattern) + text(" "@)
            + expr_pieces(s.last().body)
    }
}

pub open spec fn field_pieces(f: (String, Expr)) -> Seq<SpecPiece>
    decreases f, 0nat,
{
    text(":"@ + f.0@ + " "@) + expr_pieces(f.1)
}

pub open spec fn fields_joined(s: Seq<(String, Expr)>) -> Seq<SpecPiece>
    decreases s, 1nat,
{
    if s.len() == 0 {
        Seq::empty()
    } else if s.len() == 1 {
        field_pieces(s[0])
    } else {
        fields_joined(s.drop_last()) + text(" "@) + field_pieces(s.last())
    }
}

// ── Reading them as text ────────────────────────────────────────────

/// The pieces' text with the floats left out.
pub open spec fn pieces_text(ps: Seq<SpecPiece>) -> Seq<char>
    decreases ps.len(),
{
    if ps.len() == 0 {
        Seq::empty()
    } else {
        pieces_text(ps.drop_last()) + match ps.last() {
            SpecPiece::Text(t) => t,
            SpecPiece::Float(_) => Seq::empty(),
        }
    }
}

proof fn lemma_pt_add(a: Seq<SpecPiece>, b: Seq<SpecPiece>)
    ensures
        pieces_text(a + b) == pieces_text(a) + pieces_text(b),
    decreases b.len(),
{
    if b.len() == 0 {
        assert(a + b =~= a);
        assert(pieces_text(a) + pieces_text(b) =~= pieces_text(a));
    } else {
        lemma_pt_add(a, b.drop_last());
        assert((a + b).drop_last() =~= a + b.drop_last());
        assert((a + b).last() == b.last());
        let tail = match b.last() {
            SpecPiece::Text(t) => t,
            SpecPiece::Float(_) => Seq::<char>::empty(),
        };
        assert(pieces_text(a) + pieces_text(b.drop_last()) + tail =~= pieces_text(a) + (pieces_text(b.drop_last()) + tail));
    }
}

proof fn lemma_pt_rules()
    ensures
        forall|a: Seq<SpecPiece>, b: Seq<SpecPiece>| #[trigger] pieces_text(a + b) == pieces_text(a) + pieces_text(b),
        forall|t: Seq<char>| #[trigger] pieces_text(text(t)) == t,
{
    assert forall|a: Seq<SpecPiece>, b: Seq<SpecPiece>| #[trigger] pieces_text(a + b) == pieces_text(a) + pieces_text(b) by {
        lemma_pt_add(a, b);
    }
    assert forall|t: Seq<char>| #[trigger] pieces_text(text(t)) == t by {
        assert(text(t).drop_last() =~= Seq::<SpecPiece>::empty());
        assert(text(t).last() == SpecPiece::Text(t));
        assert(pieces_text(Seq::<SpecPiece>::empty()) == Seq::<char>::empty());
        assert(Seq::<char>::empty() + t =~= t);
    }
}

/// Each text after a space.
pub open spec fn spaced_chars(ts: Seq<Seq<char>>) -> Seq<char>
    decreases ts.len(),
{
    if ts.len() == 0 { Seq::empty() } else { spaced_chars(ts.drop_last()) + " "@ + ts.last() }
}

proof fn lemma_joined_spaced(ts: Seq<Seq<char>>)
    requires
        ts.len() > 0,
    ensures
        " "@ + joined(ts, " "@) == spaced_chars(ts),
    decreases ts.len(),
{
    if ts.len() == 1 {
        assert(ts.drop_last() =~= Seq::<Seq<char>>::empty());
        assert(ts.last() == ts[0]);
        assert(spaced_chars(ts.drop_last()) == Seq::<char>::empty());
        assert(joined(ts, " "@) == ts[0]);
        assert(Seq::<char>::empty() + " "@ + ts[0] =~= " "@ + ts[0]);
    } else {
        lemma_joined_spaced(ts.drop_last());
        assert(" "@ + (joined(ts.drop_last(), " "@) + " "@ + ts.last())
            =~= (" "@ + joined(ts.drop_last(), " "@)) + " "@ + ts.last());
    }
}

proof fn lemma_joined_cons(x: Seq<char>, ts: Seq<Seq<char>>)
    ensures
        joined(seq![x] + ts, " "@) == x + spaced_chars(ts),
    decreases ts.len(),
{
    if ts.len() == 0 {
        assert(seq![x] + ts =~= seq![x]);
        assert(x + Seq::<char>::empty() =~= x);
    } else {
        lemma_joined_cons(x, ts.drop_last());
        assert((seq![x] + ts).drop_last() =~= seq![x] + ts.drop_last());
        assert((seq![x] + ts).last() == ts.last());
        assert(x + spaced_chars(ts.drop_last()) + " "@ + ts.last() =~= x + (spaced_chars(ts.drop_last()) + " "@ + ts.last()));
    }
}

/// A pattern's pieces read as its source text, its float literals left out.
pub proof fn lemma_pattern_pieces_text(p: Pattern)
    ensures
        pieces_text(pattern_pieces(p)) == pattern_text(p),
    decreases p, 1nat,
{
    lemma_pt_rules();
    match p.kind {
        PatternKind::Literal(LitPattern::Float(b)) => {
            let ps = seq![SpecPiece::Float(b)];
            assert(ps.drop_last() =~= Seq::<SpecPiece>::empty());
            assert(ps.last() == SpecPiece::Float(b));
            assert(pieces_text(Seq::<SpecPiece>::empty()) == Seq::<char>::empty());
            assert(pieces_text(ps) =~= Seq::<char>::empty());
        },
        PatternKind::Variant(n, subs) => {
            if subs@.len() > 0 {
                lemma_patterns_spaced_text(subs@);
                lemma_joined_spaced(pattern_texts(subs@));
                assert("("@ + n@ + (" "@ + joined(pattern_texts(subs@), " "@)) + ")"@
                    =~= "("@ + n@ + " "@ + joined(pattern_texts(subs@), " "@) + ")"@);
            }
        },
        _ => {},
    }
}

proof fn lemma_patterns_spaced_text(s: Seq<Pattern>)
    ensures
        pieces_text(patterns_spaced(s)) == spaced_chars(pattern_texts(s)),
    decreases s, 0nat,
{
    lemma_pt_rules();
    if s.len() > 0 {
        lemma_patterns_spaced_text(s.drop_last());
        lemma_pattern_pieces_text(s.last());
        assert(pattern_texts(s).drop_last() =~= pattern_texts(s.drop_last()));
    }
}

/// An expression's pieces read as its source text (`to_airl`'s, when it has
/// no float pattern), its patterns' float literals left out.
#[verifier::rlimit(100)]
#[verifier::spinoff_prover]
pub proof fn lemma_expr_pieces_text(e: Expr)
    ensures
        pieces_text(expr_pieces(e)) == expr_text(e),
    decreases e, 1nat,
{
    lemma_pt_rules();
    match e.kind {
        ExprKind::FnCall(f, args) => {
            lemma_expr_pieces_text(*f);
            lemma_exprs_spaced_text(args@);
            lemma_joined_cons(expr_text(*f), expr_texts(args@));
        },
        ExprKind::If(c, t, f) => {
            lemma_expr_pieces_text(*c);
            lemma_expr_pieces_text(*t);
            lemma_expr_pieces_text(*f);
        },
        ExprKind::Let(bs, body) => {
            lemma_bindings_joined_text(bs@);
            lemma_expr_pieces_text(*body);
        },
        ExprKind::Do(es) => {
            lemma_exprs_joined_text(es@);
        },
        ExprKind::Match(sc, arms) => {
            lemma_expr_pieces_text(*sc);
            lemma_arms_text(arms@);
        },
        ExprKind::Lambda(_, body) => {
            lemma_expr_pieces_text(*body);
        },
        ExprKind::Try(x) => {
            lemma_expr_pieces_text(*x);
        },
        ExprKind::Forall(_, g, b) => {
            lemma_guard_text(g);
            lemma_expr_pieces_text(*b);
        },
        ExprKind::Exists(_, g, b) => {
            lemma_guard_text(g);
            lemma_expr_pieces_text(*b);
        },
        ExprKind::VariantCtor(n, args) => {
            if args@.len() > 0 {
                lemma_exprs_spaced_text(args@);
                lemma_joined_spaced(expr_texts(args@));
                assert("("@ + n@ + (" "@ + joined(expr_texts(args@), " "@)) + ")"@
                    =~= "("@ + n@ + " "@ + joined(expr_texts(args@), " "@) + ")"@);
            }
        },
        ExprKind::StructLit(_, fs) => {
            lemma_fields_joined_text(fs@);
        },
        ExprKind::ListLit(es) => {
            lemma_exprs_joined_text(es@);
        },
        _ => {},
    }
}

proof fn lemma_guard_text(g: Option<Box<Expr>>)
    ensures
        pieces_text(guard_pieces(g)) == guard_text(g),
    decreases g, 0nat,
{
    lemma_pt_rules();
    match g {
        Some(x) => lemma_expr_pieces_text(*x),
        None => {},
    }
}

proof fn lemma_exprs_spaced_text(s: Seq<Expr>)
    ensures
        pieces_text(exprs_spaced(s)) == spaced_chars(expr_texts(s)),
    decreases s, 0nat,
{
    lemma_pt_rules();
    if s.len() > 0 {
        lemma_exprs_spaced_text(s.drop_last());
        lemma_expr_pieces_text(s.last());
        assert(expr_texts(s).drop_last() =~= expr_texts(s.drop_last()));
    }
}

proof fn lemma_exprs_joined_text(s: Seq<Expr>)
    ensures
        pieces_text(exprs_joined(s)) == joined(expr_texts(s), " "@),
    decreases s, 0nat,
{
    lemma_pt_rules();
    if s.len() == 1 {
        lemma_expr_pieces_text(s[0]);
        assert(expr_texts(s)[0] == expr_text(s[0]));
    } else if s.len() > 1 {
        lemma_exprs_joined_text(s.drop_last());
        lemma_expr_pieces_text(s.last());
        assert(expr_texts(s).drop_last() =~= expr_texts(s.drop_last()));
    }
}

proof fn lemma_binding_text(b: LetBinding)
    ensures
        pieces_text(binding_pieces(b)) == "("@ + b.name@ + " : "@ + type_text(b.ty) + " "@ + expr_text(b.value) + ")"@,
    decreases b, 0nat,
{
    lemma_pt_rules();
    lemma_expr_pieces_text(b.value);
}

proof fn lemma_bindings_joined_text(s: Seq<LetBinding>)
    ensures
        pieces_text(bindings_joined(s)) == joined(binding_texts(s), " "@),
    decreases s, 1nat,
{
    lemma_pt_rules();
    if s.len() == 1 {
        lemma_binding_text(s[0]);
        assert(s.drop_last() =~= Seq::<LetBinding>::empty());
        assert(s.last() == s[0]);
    } else if s.len() > 1 {
        lemma_bindings_joined_text(s.drop_last());
        lemma_binding_text(s.last());
        assert(binding_texts(s).drop_last() =~= binding_texts(s.drop_last()));
    }
}

proof fn lemma_arms_text(s: Seq<MatchArm>)
    ensures
        pieces_text(arms_pieces(s)) == arms_text(s),
    decreases s, 0nat,
{
    lemma_pt_rules();
    if s.len() > 0 {
        lemma_arms_text(s.drop_last());
        lemma_pattern_pieces_text(s.last().pattern);
        lemma_expr_pieces_text(s.last().body);
    }
}

proof fn lemma_field_text(f: (String, Expr))
    ensures
        pieces_text(field_pieces(f)) == ":"@ + f.0@ + " "@ + expr_text(f.1),
    decreases f, 0nat,
{
    lemma_pt_rules();
    lemma_expr_pieces_text(f.1);
}

proof fn lemma_fields_joined_text(s: Seq<(String, Expr)>)
    ensures
        pieces_text(fields_joined(s)) == joined(field_texts(s), " "@),
    decreases s, 1nat,
{
    lemma_pt_rules();
    if s.len() == 1 {
        lemma_field_text(s[0]);
        assert(s.drop_last() =~= Seq::<(String, Expr)>::empty());
        assert(s.last() == s[0]);
    } else if s.len() > 1 {
        lemma_fields_joined_text(s.drop_last());
        lemma_field_text(s.last());
        assert(field_texts(s).drop_last() =~= field_texts(s.drop_last()));
    }
}

// ── Writing them ────────────────────────────────────────────────────

fn push_pattern(out: &mut Vec<DisplayPiece>, p: &Pattern)
    ensures
        pieces_view(final(out)@) == pieces_view(old(out)@) + pattern_pieces(*p),
    decreases p, 1nat,
{
    let ghost base = pieces_view(out@);
    match &p.kind {
        PatternKind::Wildcard => push_str(out, "_"),
        PatternKind::Binding(n) => push_text(out, n.clone()),
        PatternKind::Literal(l) => match l {
            LitPattern::Int(v) => push_text(out, i64_to_string(*v)),
            LitPattern::Str(v) => push_text(out, cat3("\"", v.as_str(), "\"")),
            LitPattern::Bool(b) => push_str(out, if *b { "true" } else { "false" }),
            LitPattern::Nil => push_str(out, "nil"),
            LitPattern::Float(bits) => {
                out.push(DisplayPiece::Float(*bits));
                assert(pieces_view(out@) =~= base + pattern_pieces(*p));
            },
        },
        PatternKind::Variant(n, subs) => {
            if subs.len() == 0 {
                push_text(out, cat3("(", n.as_str(), ")"));
            } else {
                let mut t = String::from_str("(");
                t.append(n.as_str());
                push_text(out, t);
                push_patterns_spaced(out, subs);
                push_str(out, ")");
                assert(pieces_view(out@) =~= base + pattern_pieces(*p));
            }
        },
    }
}

fn push_guard(out: &mut Vec<DisplayPiece>, g: &Option<Box<Expr>>)
    ensures
        pieces_view(final(out)@) == pieces_view(old(out)@) + guard_pieces(*g),
    decreases g, 0nat,
{
    let ghost base = pieces_view(out@);
    match g {
        Some(x) => {
            push_str(out, " (where ");
            push_expr(out, x);
            push_str(out, ")");
            assert(pieces_view(out@) =~= base + guard_pieces(*g));
        },
        None => {
            assert(pieces_view(out@) =~= base + guard_pieces(*g));
        },
    }
}

fn push_binding(out: &mut Vec<DisplayPiece>, b: &LetBinding)
    ensures
        pieces_view(final(out)@) == pieces_view(old(out)@) + binding_pieces(*b),
    decreases b, 0nat,
{
    let ghost base = pieces_view(out@);
    let mut t = String::from_str("(");
    t.append(b.name.as_str());
    t.append(" : ");
    t.append(b.ty.to_airl().as_str());
    t.append(" ");
    push_text(out, t);
    push_expr(out, &b.value);
    push_str(out, ")");
    assert(pieces_view(out@) =~= base + binding_pieces(*b));
}

fn push_field(out: &mut Vec<DisplayPiece>, f: &(String, Expr))
    ensures
        pieces_view(final(out)@) == pieces_view(old(out)@) + field_pieces(*f),
    decreases f, 0nat,
{
    let ghost base = pieces_view(out@);
    push_text(out, cat3(":", f.0.as_str(), " "));
    push_expr(out, &f.1);
    assert(pieces_view(out@) =~= base + field_pieces(*f));
}

fn push_quant(out: &mut Vec<DisplayPiece>, e: &Expr)
    requires
        e.kind is Forall || e.kind is Exists,
    ensures
        pieces_view(final(out)@) == pieces_view(old(out)@) + expr_pieces(*e),
    decreases e, 0nat,
{
    let ghost base = pieces_view(out@);
    let (word, p, g, b) = match &e.kind {
        ExprKind::Forall(p, g, b) => ("(forall [", p, g, b),
        ExprKind::Exists(p, g, b) => ("(exists [", p, g, b),
        _ => { return; },
    };
    let mut t = String::from_str(word);
    t.append(p.name.as_str());
    t.append(" : ");
    t.append(p.ty.to_airl().as_str());
    t.append("]");
    push_text(out, t);
    push_guard(out, g);
    push_str(out, " ");
    push_expr(out, b);
    push_str(out, ")");
    assert(pieces_view(out@) =~= base + expr_pieces(*e));
}

#[verifier::rlimit(40)]
fn push_expr(out: &mut Vec<DisplayPiece>, e: &Expr)
    ensures
        pieces_view(final(out)@) == pieces_view(old(out)@) + expr_pieces(*e),
    decreases e, 1nat,
{
    let ghost base = pieces_view(out@);
    match &e.kind {
        ExprKind::IntLit(v) => push_text(out, i64_to_string(*v)),
        ExprKind::FloatLit(t) => push_text(out, t.clone()),
        ExprKind::StrLit(v) => push_text(out, cat3("\"", v.as_str(), "\"")),
        ExprKind::BoolLit(b) => push_str(out, if *b { "true" } else { "false" }),
        ExprKind::NilLit => push_str(out, "nil"),
        ExprKind::SymbolRef(s) => push_text(out, s.clone()),
        ExprKind::KeywordLit(k) => {
            let mut t = String::from_str(":");
            t.append(k.as_str());
            push_text(out, t);
        },
        ExprKind::FnCall(f, args) => {
            push_str(out, "(");
            push_expr(out, f);
            push_exprs_spaced(out, args);
            push_str(out, ")");
            assert(pieces_view(out@) =~= base + expr_pieces(*e));
        },
        ExprKind::If(c, t, f) => {
            push_str(out, "(if ");
            push_expr(out, c);
            push_str(out, " ");
            push_expr(out, t);
            push_str(out, " ");
            push_expr(out, f);
            push_str(out, ")");
            assert(pieces_view(out@) =~= base + expr_pieces(*e));
        },
        ExprKind::Let(bs, body) => {
            push_str(out, "(let ");
            push_bindings_joined(out, bs);
            push_str(out, " ");
            push_expr(out, body);
            push_str(out, ")");
            assert(pieces_view(out@) =~= base + expr_pieces(*e));
        },
        ExprKind::Do(es) => {
            push_str(out, "(do ");
            push_exprs_joined(out, es);
            push_str(out, ")");
            assert(pieces_view(out@) =~= base + expr_pieces(*e));
        },
        ExprKind::Match(sc, arms) => {
            push_str(out, "(match ");
            push_expr(out, sc);
            push_arms(out, arms);
            push_str(out, ")");
            assert(pieces_view(out@) =~= base + expr_pieces(*e));
        },
        ExprKind::Lambda(ps, body) => {
            let names = param_names_exec(ps);
            let j = join_strings(&names, " ");
            push_text(out, cat3("(fn [", j.as_str(), "] "));
            push_expr(out, body);
            push_str(out, ")");
            assert(pieces_view(out@) =~= base + expr_pieces(*e));
        },
        ExprKind::Try(x) => {
            push_str(out, "(try ");
            push_expr(out, x);
            push_str(out, ")");
            assert(pieces_view(out@) =~= base + expr_pieces(*e));
        },
        ExprKind::Forall(_, _, _) => push_quant(out, e),
        ExprKind::Exists(_, _, _) => push_quant(out, e),
        ExprKind::VariantCtor(n, args) => {
            if args.len() == 0 {
                push_text(out, n.clone());
            } else {
                let mut t = String::from_str("(");
                t.append(n.as_str());
                push_text(out, t);
                push_exprs_spaced(out, args);
                push_str(out, ")");
                assert(pieces_view(out@) =~= base + expr_pieces(*e));
            }
        },
        ExprKind::StructLit(n, fs) => {
            push_text(out, cat3("(", n.as_str(), " "));
            push_fields_joined(out, fs);
            push_str(out, ")");
            assert(pieces_view(out@) =~= base + expr_pieces(*e));
        },
        ExprKind::ListLit(es) => {
            push_str(out, "[");
            push_exprs_joined(out, es);
            push_str(out, "]");
            assert(pieces_view(out@) =~= base + expr_pieces(*e));
        },
    }
}

fn push_patterns_spaced(out: &mut Vec<DisplayPiece>, v: &Vec<Pattern>)
    ensures
        pieces_view(final(out)@) == pieces_view(old(out)@) + patterns_spaced(v@),
    decreases v, 0nat,
{
    let ghost base = pieces_view(out@);
    let mut i: usize = 0;
    assert(base + patterns_spaced(v@.take(0)) =~= base);
    while i < v.len()
        invariant
            i <= v@.len(),
            pieces_view(out@) == base + patterns_spaced(v@.take(i as int)),
        decreases v@.len() - i,
    {
        proof {
            assert(decreases_to!(v => v@));
            assert(decreases_to!(v@ => v@[i as int]));
            
            assert(v@.take(i + 1).drop_last() =~= v@.take(i as int));
            assert(v@.take(i + 1).last() == v@[i as int]);
        }
        let ghost mid = pieces_view(out@);
        push_str(out, " ");
        push_pattern(out, &v[i]);
        proof {
            
            assert(pieces_view(out@) =~= base + patterns_spaced(v@.take(i + 1)));
        }
        i += 1;
    }
    assert(v@.take(i as int) =~= v@);
}

fn push_exprs_spaced(out: &mut Vec<DisplayPiece>, v: &Vec<Expr>)
    ensures
        pieces_view(final(out)@) == pieces_view(old(out)@) + exprs_spaced(v@),
    decreases v, 0nat,
{
    let ghost base = pieces_view(out@);
    let mut i: usize = 0;
    assert(base + exprs_spaced(v@.take(0)) =~= base);
    while i < v.len()
        invariant
            i <= v@.len(),
            pieces_view(out@) == base + exprs_spaced(v@.take(i as int)),
        decreases v@.len() - i,
    {
        proof {
            assert(decreases_to!(v => v@));
            assert(decreases_to!(v@ => v@[i as int]));
            
            assert(v@.take(i + 1).drop_last() =~= v@.take(i as int));
            assert(v@.take(i + 1).last() == v@[i as int]);
        }
        let ghost mid = pieces_view(out@);
        push_str(out, " ");
        push_expr(out, &v[i]);
        proof {
            
            assert(pieces_view(out@) =~= base + exprs_spaced(v@.take(i + 1)));
        }
        i += 1;
    }
    assert(v@.take(i as int) =~= v@);
}

fn push_exprs_joined(out: &mut Vec<DisplayPiece>, v: &Vec<Expr>)
    ensures
        pieces_view(final(out)@) == pieces_view(old(out)@) + exprs_joined(v@),
    decreases v, 0nat,
{
    let ghost base = pieces_view(out@);
    let mut i: usize = 0;
    assert(base + exprs_joined(v@.take(0)) =~= base);
    while i < v.len()
        invariant
            i <= v@.len(),
            pieces_view(out@) == base + exprs_joined(v@.take(i as int)),
        decreases v@.len() - i,
    {
        proof {
            assert(decreases_to!(v => v@));
            assert(decreases_to!(v@ => v@[i as int]));
            
            assert(v@.take(i + 1).drop_last() =~= v@.take(i as int));
            assert(v@.take(i + 1).last() == v@[i as int]);
        }
        let ghost mid = pieces_view(out@);
        if i > 0 {
            push_str(out, " ");
        }
        push_expr(out, &v[i]);
        proof {
            if i == 0 {
                assert(v@.take(1)[0] == v@[0]);
            }
            assert(pieces_view(out@) =~= base + exprs_joined(v@.take(i + 1)));
        }
        i += 1;
    }
    assert(v@.take(i as int) =~= v@);
}

fn push_bindings_joined(out: &mut Vec<DisplayPiece>, v: &Vec<LetBinding>)
    ensures
        pieces_view(final(out)@) == pieces_view(old(out)@) + bindings_joined(v@),
    decreases v, 1nat,
{
    let ghost base = pieces_view(out@);
    let mut i: usize = 0;
    assert(base + bindings_joined(v@.take(0)) =~= base);
    while i < v.len()
        invariant
            i <= v@.len(),
            pieces_view(out@) == base + bindings_joined(v@.take(i as int)),
        decreases v@.len() - i,
    {
        proof {
            assert(decreases_to!(v => v@));
            assert(decreases_to!(v@ => v@[i as int]));
            
            assert(v@.take(i + 1).drop_last() =~= v@.take(i as int));
            assert(v@.take(i + 1).last() == v@[i as int]);
        }
        let ghost mid = pieces_view(out@);
        if i > 0 {
            push_str(out, " ");
        }
        push_binding(out, &v[i]);
        proof {
            if i == 0 {
                assert(v@.take(1)[0] == v@[0]);
            }
            assert(pieces_view(out@) =~= base + bindings_joined(v@.take(i + 1)));
        }
        i += 1;
    }
    assert(v@.take(i as int) =~= v@);
}

fn push_fields_joined(out: &mut Vec<DisplayPiece>, v: &Vec<(String, Expr)>)
    ensures
        pieces_view(final(out)@) == pieces_view(old(out)@) + fields_joined(v@),
    decreases v, 1nat,
{
    let ghost base = pieces_view(out@);
    let mut i: usize = 0;
    assert(base + fields_joined(v@.take(0)) =~= base);
    while i < v.len()
        invariant
            i <= v@.len(),
            pieces_view(out@) == base + fields_joined(v@.take(i as int)),
        decreases v@.len() - i,
    {
        proof {
            assert(decreases_to!(v => v@));
            assert(decreases_to!(v@ => v@[i as int]));
            
            assert(v@.take(i + 1).drop_last() =~= v@.take(i as int));
            assert(v@.take(i + 1).last() == v@[i as int]);
        }
        let ghost mid = pieces_view(out@);
        if i > 0 {
            push_str(out, " ");
        }
        push_field(out, &v[i]);
        proof {
            if i == 0 {
                assert(v@.take(1)[0] == v@[0]);
            }
            assert(pieces_view(out@) =~= base + fields_joined(v@.take(i + 1)));
        }
        i += 1;
    }
    assert(v@.take(i as int) =~= v@);
}

fn push_arms(out: &mut Vec<DisplayPiece>, v: &Vec<MatchArm>)
    ensures
        pieces_view(final(out)@) == pieces_view(old(out)@) + arms_pieces(v@),
    decreases v, 0nat,
{
    let ghost base = pieces_view(out@);
    let mut i: usize = 0;
    assert(base + arms_pieces(v@.take(0)) =~= base);
    while i < v.len()
        invariant
            i <= v@.len(),
            pieces_view(out@) == base + arms_pieces(v@.take(i as int)),
        decreases v@.len() - i,
    {
        proof {
            assert(decreases_to!(v => v@));
            assert(decreases_to!(v@ => v@[i as int]));
            assert(decreases_to!(v@[i as int] => v@[i as int].body));

            assert(v@.take(i + 1).drop_last() =~= v@.take(i as int));
            assert(v@.take(i + 1).last() == v@[i as int]);
        }
        let ghost mid = pieces_view(out@);
        push_str(out, " ");
        push_pattern(out, &v[i].pattern);
        push_str(out, " ");
        push_expr(out, &v[i].body);
        proof {
            
            assert(pieces_view(out@) =~= base + arms_pieces(v@.take(i + 1)));
        }
        i += 1;
    }
    assert(v@.take(i as int) =~= v@);
}

impl Expr {
    /// The expression written back as AIRL source, for any expression: the
    /// float literals of its patterns are left as pieces for the caller's
    /// float formatting.
    pub fn to_airl_pieces(&self) -> (r: Vec<DisplayPiece>)
        ensures
            pieces_view(r@) == expr_pieces(*self),
            pieces_text(pieces_view(r@)) == expr_text(*self),
    {
        let mut out: Vec<DisplayPiece> = Vec::new();
        push_expr(&mut out, self);
        proof {
            lemma_expr_pieces_text(*self);
        }
        assert(pieces_view(out@) =~= expr_pieces(*self));
        out
    }
}

} // verus!
