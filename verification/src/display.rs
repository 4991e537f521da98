//! How a runtime value prints: `[1 2 3]` for a list, `(1 "a")` for a tuple,
//! `(Some 1)` or `(None)` for a variant, `{a: 1, b: 2}` for a map with its
//! keys in order. The text is given as pieces: literal text, and the floats,
//! whose decimal form is for the caller's float formatting to write.
use vstd::prelude::*;
use vstd::string::StrSliceExecFns;
use crate::value::Value;
use crate::text::{decimal, decimal_int, u64_to_string, i64_to_string};

verus! {

/// A piece of a value's printed text.
#[derive(Debug)]
pub enum DisplayPiece {
    Text(String),
    /// A float, by its bits, printed by the caller's float formatting.
    Float(u64),
}

pub enum SpecPiece {
    Text(Seq<char>),
    Float(u64),
}

pub open spec fn piece_view(p: DisplayPiece) -> SpecPiece {
    match p {
        DisplayPiece::Text(s) => SpecPiece::Text(s@),
        DisplayPiece::Float(b) => SpecPiece::Float(b),
    }
}

pub open spec fn pieces_view(s: Seq<DisplayPiece>) -> Seq<SpecPiece> {
    Seq::new(s.len(), |i: int| piece_view(s[i]))
}

pub open spec fn text(s: Seq<char>) -> Seq<SpecPiece> {
    seq![SpecPiece::Text(s)]
}

// ── Ordering map keys ───────────────────────────────────────────────

/// `a` comes before `b` from position `i` on, comparing characters (for
/// UTF-8 text this is the byte order strings compare by).
pub open spec fn key_lt_from(a: Seq<char>, b: Seq<char>, i: int) -> bool
    decreases a.len() - i,
{
    if i < 0 || i >= a.len() {
        i >= 0 && i < b.len()
    } else if i >= b.len() {
        false
    } else if a[i] != b[i] {
        a[i] < b[i]
    } else {
        key_lt_from(a, b, i + 1)
    }
}

pub open spec fn key_lt(a: Seq<char>, b: Seq<char>) -> bool {
    key_lt_from(a, b, 0)
}

pub open spec fn entry_keys(s: Seq<(String, Value)>) -> Seq<Seq<char>> {
    Seq::new(s.len(), |i: int| s[i].0@)
}

/// The first position from `j` on whose key comes after `k`.
pub open spec fn slot(keys: Seq<Seq<char>>, perm: Seq<int>, k: Seq<char>, j: int) -> int
    decreases perm.len() - j,
{
    if j < 0 || j >= perm.len() {
        perm.len() as int
    } else if key_lt(k, keys[perm[j]]) {
        j
    } else {
        slot(keys, perm, k, j + 1)
    }
}

/// The first `n` positions in key order, equal keys in their first order:
/// each next position goes before the first one whose key comes after it.
pub open spec fn key_order(keys: Seq<Seq<char>>, n: nat) -> Seq<int>
    decreases n,
{
    if n == 0 {
        Seq::empty()
    } else {
        let p = key_order(keys, (n - 1) as nat);
        p.insert(slot(keys, p, keys[n - 1], 0), n - 1)
    }
}

// ── The pieces ──────────────────────────────────────────────────────

pub open spec fn bool_word(b: bool) -> Seq<char> {
    if b { "true"@ } else { "false"@ }
}

/// The pieces a value prints as.
pub open spec fn value_pieces(v: Value) -> Seq<SpecPiece>
    decreases v, 2nat, 0nat,
{
    match v {
        Value::Int(n) => text(decimal_int(n as int)),
        Value::Float(b) => seq![SpecPiece::Float(b)],
        Value::Bool(b) => text(bool_word(b)),
        Value::Str(s) => text("\""@ + s@ + "\""@),
        Value::Nil => text("nil"@),
        Value::Unit => text("()"@),
        Value::List(items) => text("["@) + items_pieces(items@) + text("]"@),
        Value::IntList(xs) => text("["@) + ints_pieces(xs@) + text("]"@),
        Value::Tuple(items) => text("("@) + items_pieces(items@) + text(")"@),
        Value::Variant(name, inner) => match *inner {
            Value::Unit => text("("@ + name@ + ")"@),
            _ => text("("@ + name@ + " "@) + value_pieces(*inner) + text(")"@),
        },
        Value::Dict(entries) => text("{"@) + entries_pieces(entries@, key_order(entry_keys(entries@),
            entries@.len())) + text("}"@),
        Value::BuiltinFn(name) => text("<builtin "@ + name@ + ">"@),
        Value::IRFuncRef(name) => text("<ir-fn:"@ + name@ + ">"@),
        Value::BytecodeClosure(_) => text("<bytecode-closure>"@),
        Value::Bytes(b) => text("<Bytes len="@ + decimal(b@.len()) + ">"@),
    }
}

/// Values separated by spaces.
pub open spec fn items_pieces(s: Seq<Value>) -> Seq<SpecPiece>
    decreases s, 0nat, 0nat,
{
    if s.len() == 0 {
        Seq::empty()
    } else if s.len() == 1 {
        value_pieces(s[0])
    } else {
        items_pieces(s.drop_last()) + text(" "@) + value_pieces(s.last())
    }
}

pub open spec fn ints_pieces(s: Seq<i64>) -> Seq<SpecPiece>
    decreases s.len(),
{
    if s.len() == 0 {
        Seq::empty()
    } else if s.len() == 1 {
        text(decimal_int(s[0] as int))
    } else {
        ints_pieces(s.drop_last()) + text(" "@) + text(decimal_int(s.last() as int))
    }
}

/// The entry at position `i`: `key: value`.
pub open spec fn entry_pieces(s: Seq<(String, Value)>, i: int) -> Seq<SpecPiece>
    decreases s, 0nat, 0nat,
{
    if 0 <= i < s.len() {
        text(s[i].0@ + ": "@) + value_pieces(s[i].1)
    } else {
        Seq::empty()
    }
}

/// The entries at the positions of `order`, separated by `, `.
pub open spec fn entries_pieces(s: Seq<(String, Value)>, order: Seq<int>) -> Seq<SpecPiece>
    decreases s, 1nat, order.len(),
{
    if order.len() == 0 {
        Seq::empty()
    } else if order.len() == 1 {
        entry_pieces(s, order[0])
    } else {
        entries_pieces(s, order.drop_last()) + text(", "@) + entry_pieces(s, order.last())
    }
}

// ── Writing the pieces ──────────────────────────────────────────────

pub open spec fn order_ints(s: Seq<usize>) -> Seq<int> {
    Seq::new(s.len(), |i: int| s[i] as int)
}

pub(crate) fn push_text(out: &mut Vec<DisplayPiece>, t: String)
    ensures
        pieces_view(final(out)@) == pieces_view(old(out)@) + text(t@),
{
    let ghost prev = out@;
    out.push(DisplayPiece::Text(t));
    proof {
        assert(pieces_view(out@) =~= pieces_view(prev) + text(t@));
    }
}

pub(crate) fn push_str(out: &mut Vec<DisplayPiece>, t: &str)
    ensures
        pieces_view(final(out)@) == pieces_view(old(out)@) + text(t@),
{
    push_text(out, String::from_str(t));
}

pub(crate) fn cat3(a: &str, b: &str, c: &str) -> (s: String)
    ensures
        s@ == a@ + b@ + c@,
{
    let mut s = String::from_str(a);
    s.append(b);
    s.append(c);
    s
}

/// Whether `a` comes before `b` in key order.
fn key_less(a: &str, b: &str) -> (r: bool)
    ensures
        r == key_lt(a@, b@),
{
    let la = a.unicode_len();
    let lb = b.unicode_len();
    let mut i: usize = 0;
    while i < la && i < lb
        invariant
            la == a@.len(),
            lb == b@.len(),
            i <= la,
            i <= lb,
            key_lt_from(a@, b@, 0) == key_lt_from(a@, b@, i as int),
        decreases la - i,
    {
        let ca = a.get_char(i);
        let cb = b.get_char(i);
        if ca != cb {
            return ca < cb;
        }
        i += 1;
    }
    i < lb
}

/// The positions of the entries in key order.
fn key_order_exec(entries: &Vec<(String, Value)>) -> (order: Vec<usize>)
    ensures
        order_ints(order@) == key_order(entry_keys(entries@), entries@.len()),
        forall|j: int| 0 <= j < order@.len() ==> order@[j] < entries@.len(),
{
    let ghost keys = entry_keys(entries@);
    let mut order: Vec<usize> = Vec::new();
    let mut i: usize = 0;
    assert(order_ints(order@) =~= key_order(keys, 0));
    while i < entries.len()
        invariant
            keys == entry_keys(entries@),
            i <= entries@.len(),
            order_ints(order@) == key_order(keys, i as nat),
            forall|j: int| 0 <= j < order@.len() ==> order@[j] < i,
        decreases entries@.len() - i,
    {
        let ghost p = order_ints(order@);
        let mut j: usize = 0;
        let mut found = false;
        while j < order.len() && !found
            invariant
                keys == entry_keys(entries@),
                i < entries@.len(),
                p == order_ints(order@),
                forall|m: int| 0 <= m < order@.len() ==> order@[m] < i,
                j <= order@.len(),
                found ==> slot(keys, p, keys[i as int], 0) == j,
                !found ==> slot(keys, p, keys[i as int], 0) == slot(keys, p, keys[i as int], j as int),
            decreases order@.len() - j, if found { 0int } else { 1int },
        {
            let k = order[j];
            if key_less(entries[i].0.as_str(), entries[k].0.as_str()) {
                found = true;
            } else {
                j += 1;
            }
        }
        order.insert(j, i);
        proof {
            assert(order_ints(order@) =~= p.insert(j as int, i as int));
        }
        i += 1;
    }
    order
}

fn push_items(out: &mut Vec<DisplayPiece>, items: &Vec<Value>)
    ensures
        pieces_view(final(out)@) == pieces_view(old(out)@) + items_pieces(items@),
    decreases items, 0nat, 0nat,
{
    let ghost base = pieces_view(out@);
    let mut i: usize = 0;
    assert(base + items_pieces(items@.take(0)) =~= base);
    while i < items.len()
        invariant
            i <= items@.len(),
            pieces_view(out@) == base + items_pieces(items@.take(i as int)),
        decreases items@.len() - i,
    {
        proof {
            assert(decreases_to!(items => items@));
            assert(decreases_to!(items@ => items@[i as int]));
            assert(items@.take(i + 1).drop_last() =~= items@.take(i as int));
            assert(items@.take(i + 1).last() == items@[i as int]);
        }
        if i > 0 {
            push_str(out, " ");
        }
        push_value(out, &items[i]);
        proof {
            if i == 0 {
                assert(items@.take(1)[0] == items@[0]);
            }
            assert(pieces_view(out@) =~= base + items_pieces(items@.take(i + 1)));
        }
        i += 1;
    }
    assert(items@.take(i as int) =~= items@);
}

fn push_ints(out: &mut Vec<DisplayPiece>, xs: &Vec<i64>)
    ensures
        pieces_view(final(out)@) == pieces_view(old(out)@) + ints_pieces(xs@),
{
    let ghost base = pieces_view(out@);
    let mut i: usize = 0;
    assert(base + ints_pieces(xs@.take(0)) =~= base);
    while i < xs.len()
        invariant
            i <= xs@.len(),
            pieces_view(out@) == base + ints_pieces(xs@.take(i as int)),
        decreases xs@.len() - i,
    {
        proof {
            assert(xs@.take(i + 1).drop_last() =~= xs@.take(i as int));
            assert(xs@.take(i + 1).last() == xs@[i as int]);
        }
        if i > 0 {
            push_str(out, " ");
        }
        push_text(out, i64_to_string(xs[i]));
        proof {
            if i == 0 {
                assert(xs@.take(1)[0] == xs@[0]);
            }
            assert(pieces_view(out@) =~= base + ints_pieces(xs@.take(i + 1)));
        }
        i += 1;
    }
    assert(xs@.take(i as int) =~= xs@);
}

fn push_entries(out: &mut Vec<DisplayPiece>, entries: &Vec<(String, Value)>)
    ensures
        pieces_view(final(out)@) == pieces_view(old(out)@)
            + entries_pieces(entries@, key_order(entry_keys(entries@), entries@.len())),
    decreases entries, 1nat, 0nat,
{
    let order = key_order_exec(entries);
    let ghost ov = order_ints(order@);
    let ghost base = pieces_view(out@);
    let mut j: usize = 0;
    assert(base + entries_pieces(entries@, ov.take(0)) =~= base);
    while j < order.len()
        invariant
            ov == order_ints(order@),
            forall|m: int| 0 <= m < order@.len() ==> order@[m] < entries@.len(),
            j <= order@.len(),
            pieces_view(out@) == base + entries_pieces(entries@, ov.take(j as int)),
        decreases order@.len() - j,
    {
        let k = order[j];
        proof {
            assert(decreases_to!(entries => entries@));
            assert(decreases_to!(entries@ => entries@[k as int]));
            assert(decreases_to!(entries@[k as int] => entries@[k as int].1));
            assert(ov.take(j + 1).drop_last() =~= ov.take(j as int));
            assert(ov.take(j + 1).last() == k as int);
        }
        if j > 0 {
            push_str(out, ", ");
        }
        let ghost mid = pieces_view(out@);
        let mut t = entries[k].0.clone();
        t.append(": ");
        assert(t@ == entries@[k as int].0@ + ": "@);
        push_text(out, t);
        push_value(out, &entries[k].1);
        proof {
            assert(order@[j as int] < entries@.len());
            assert(entry_pieces(entries@, k as int) == text(entries@[k as int].0@ + ": "@) + value_pieces(entries@[k as int].1));
            assert(pieces_view(out@) =~= mid + entry_pieces(entries@, k as int));
            if j == 0 {
                assert(ov.take(1)[0] == k as int);
            }
            assert(pieces_view(out@) =~= base + entries_pieces(entries@, ov.take(j + 1)));
        }
        j += 1;
    }
    assert(ov.take(j as int) =~= ov);
}

fn push_value(out: &mut Vec<DisplayPiece>, v: &Value)
    ensures
        pieces_view(final(out)@) == pieces_view(old(out)@) + value_pieces(*v),
    decreases v, 2nat, 0nat,
{
    let ghost base = pieces_view(out@);
    match v {
        Value::Int(n) => push_text(out, i64_to_string(*n)),
        Value::Float(b) => {
            out.push(DisplayPiece::Float(*b));
            assert(pieces_view(out@) =~= base + value_pieces(*v));
        },
        Value::Bool(b) => push_str(out, if *b { "true" } else { "false" }),
        Value::Str(s) => push_text(out, cat3("\"", s.as_str(), "\"")),
        Value::Nil => push_str(out, "nil"),
        Value::Unit => push_str(out, "()"),
        Value::List(items) => {
            push_str(out, "[");
            push_items(out, items);
            push_str(out, "]");
            assert(pieces_view(out@) =~= base + value_pieces(*v));
        },
        Value::IntList(xs) => {
            push_str(out, "[");
            push_ints(out, xs);
            push_str(out, "]");
            assert(pieces_view(out@) =~= base + value_pieces(*v));
        },
        Value::Tuple(items) => {
            push_str(out, "(");
            push_items(out, items);
            push_str(out, ")");
            assert(pieces_view(out@) =~= base + value_pieces(*v));
        },
        Value::Variant(name, inner) => match &**inner {
            Value::Unit => push_text(out, cat3("(", name.as_str(), ")")),
            _ => {
                push_text(out, cat3("(", name.as_str(), " "));
                push_value(out, inner);
                push_str(out, ")");
                assert(pieces_view(out@) =~= base + value_pieces(*v));
            },
        },
        Value::Dict(entries) => {
            push_str(out, "{");
            push_entries(out, entries);
            push_str(out, "}");
            assert(pieces_view(out@) =~= base + value_pieces(*v));
        },
        Value::BuiltinFn(name) => push_text(out, cat3("<builtin ", name.as_str(), ">")),
        Value::IRFuncRef(name) => push_text(out, cat3("<ir-fn:", name.as_str(), ">")),
        Value::BytecodeClosure(_) => push_str(out, "<bytecode-closure>"),
        Value::Bytes(b) => {
            let n = u64_to_string(b.len() as u64);
            push_text(out, cat3("<Bytes len=", n.as_str(), ">"));
        },
    }
}

impl Value {
    /// The value's printed text as pieces: literal text, and each float by
    /// its bits for the caller's float formatting to write.
    pub fn display_pieces(&self) -> (r: Vec<DisplayPiece>)
        ensures
            pieces_view(r@) == value_pieces(*self),
    {
        let mut out: Vec<DisplayPiece> = Vec::new();
        push_value(&mut out, self);
        assert(pieces_view(out@) =~= value_pieces(*self));
        out
    }
}

} // verus!
