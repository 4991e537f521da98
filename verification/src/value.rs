//! Runtime values as the bytecode compiler and the VMs exchange them, and
//! their equality.
use vstd::prelude::*;
use crate::text::str_eq;

verus! {

/// A closure produced by the bytecode VM: the function it runs and the
/// values it captured.
#[derive(Debug)]
pub struct BytecodeClosureValue {
    pub func_name: String,
    pub captured: Vec<Value>,
}

/// A runtime value. A float is held as its IEEE-754 bit pattern, which is
/// also what float equality compares. A map is a list of `(key, value)`
/// entries with distinct keys.
#[derive(Debug)]
pub enum Value {
    Int(i64),
    Float(u64),
    Bool(bool),
    Str(String),
    Nil,
    Unit,
    List(Vec<Value>),
    /// A homogeneous integer list, equal to the `List` of the same integers.
    IntList(Vec<i64>),
    Tuple(Vec<Value>),
    Variant(String, Box<Value>),
    Dict(Vec<(String, Value)>),
    BuiltinFn(String),
    IRFuncRef(String),
    BytecodeClosure(BytecodeClosureValue),
    Bytes(Vec<u8>),
}

/// The value stored under `k`: the first entry with that key.
pub open spec fn map_get(m: Seq<(String, Value)>, k: Seq<char>) -> Option<Value>
    decreases m.len(),
{
    if m.len() == 0 {
        None
    } else if m[0].0@ == k {
        Some(m[0].1)
    } else {
        map_get(m.drop_first(), k)
    }
}

/// Every element of `ys` is `Int` of the integer at the same place in `xs`.
pub open spec fn ints_match(xs: Seq<i64>, ys: Seq<Value>) -> bool {
    xs.len() == ys.len() && forall|i: int| 0 <= i < xs.len() ==> (#[trigger] ys[i]) == Value::Int(xs[i])
}

/// Value equality: floats by bits, strings by characters, an integer list
/// equal to the list of the same integers, maps by key regardless of order,
/// closures equal to nothing.
pub open spec fn value_eq(a: Value, b: Value) -> bool
    decreases a,
{
    match a {
        Value::Int(x) => b matches Value::Int(y) && x == y,
        Value::Float(x) => b matches Value::Float(y) && x == y,
        Value::Bool(x) => b matches Value::Bool(y) && x == y,
        Value::Str(x) => b matches Value::Str(y) && x@ == y@,
        Value::Nil => b is Nil,
        Value::Unit => b is Unit,
        Value::List(x) => match b {
            Value::List(y) => seq_eq(x@, y@),
            Value::IntList(ys) => ints_match(ys@, x@),
            _ => false,
        },
        Value::IntList(x) => match b {
            Value::IntList(y) => x@ == y@,
            Value::List(ys) => ints_match(x@, ys@),
            _ => false,
        },
        Value::Tuple(x) => b matches Value::Tuple(y) && seq_eq(x@, y@),
        Value::Variant(na, va) => b matches Value::Variant(nb, vb) && na@ == nb@ && value_eq(*va, *vb),
        Value::Dict(x) => b matches Value::Dict(y) && x@.len() == y@.len() && entries_found(x@, y@),
        Value::BuiltinFn(x) => b matches Value::BuiltinFn(y) && x@ == y@,
        Value::IRFuncRef(x) => b matches Value::IRFuncRef(y) && x@ == y@,
        Value::BytecodeClosure(_) => false,
        Value::Bytes(x) => b matches Value::Bytes(y) && x@ == y@,
    }
}

/// Same length, equal element by element.
pub open spec fn seq_eq(x: Seq<Value>, y: Seq<Value>) -> bool
    decreases x,
{
    if x.len() != y.len() {
        false
    } else if x.len() == 0 {
        true
    } else {
        seq_eq(x.drop_last(), y.drop_last()) && value_eq(x.last(), y.last())
    }
}

/// Every entry of `x` has its key in `y`, with an equal value.
pub open spec fn entries_found(x: Seq<(String, Value)>, y: Seq<(String, Value)>) -> bool
    decreases x,
{
    if x.len() == 0 {
        true
    } else {
        entries_found(x.drop_last(), y) && match map_get(y, x.last().0@) {
            Some(v) => value_eq(x.last().1, v),
            None => false,
        }
    }
}

fn map_get_exec<'a>(m: &'a Vec<(String, Value)>, k: &String) -> (r: Option<&'a Value>)
    ensures
        match map_get(m@, k@) {
            Some(v) => r matches Some(w) && *w == v,
            None => r is None,
        },
{
    let mut i: usize = 0;
    assert(m@.skip(0) =~= m@);
    while i < m.len()
        invariant
            i <= m@.len(),
            map_get(m@, k@) == map_get(m@.skip(i as int), k@),
        decreases m@.len() - i,
    {
        assert(m@.skip(i as int).drop_first() =~= m@.skip(i + 1));
        if str_eq(m[i].0.as_str(), k.as_str()) {
            return Some(&m[i].1);
        }
        i += 1;
    }
    None
}

fn seq_equal(x: &Vec<Value>, y: &Vec<Value>) -> (r: bool)
    ensures
        r == seq_eq(x@, y@),
    decreases x, 0nat,
{
    if x.len() != y.len() {
        return false;
    }
    let mut i: usize = 0;
    while i < x.len()
        invariant
            i <= x@.len(),
            x@.len() == y@.len(),
            seq_eq(x@.take(i as int), y@.take(i as int)),
        decreases x@.len() - i,
    {
        assert(x@.take(i + 1).drop_last() =~= x@.take(i as int));
        assert(y@.take(i + 1).drop_last() =~= y@.take(i as int));
        proof {
            assert(decreases_to!(x => x@));
            assert(decreases_to!(x@ => x@[i as int]));
        }
        if !values_equal(&x[i], &y[i]) {
            proof {
                if seq_eq(x@, y@) {
                    lemma_seq_eq_prefix(x@, y@, i + 1);
                }
            }
            return false;
        }
        i += 1;
    }
    assert(x@.take(x@.len() as int) =~= x@);
    assert(y@.take(y@.len() as int) =~= y@);
    true
}

/// Equal sequences have equal prefixes.
pub proof fn lemma_seq_eq_prefix(x: Seq<Value>, y: Seq<Value>, n: int)
    requires
        0 <= n <= x.len(),
        seq_eq(x, y),
    ensures
        seq_eq(x.take(n), y.take(n)),
    decreases x.len(),
{
    if n < x.len() {
        assert(x.drop_last().take(n) =~= x.take(n));
        assert(y.drop_last().take(n) =~= y.take(n));
        lemma_seq_eq_prefix(x.drop_last(), y.drop_last(), n);
    } else {
        assert(x.take(n) =~= x);
        assert(y.take(n) =~= y);
    }
}

/// Whether every entry of `x` prefix up to `n` is found: grows one entry at a time.
pub proof fn lemma_entries_found_prefix(x: Seq<(String, Value)>, y: Seq<(String, Value)>, n: int)
    requires
        0 <= n <= x.len(),
        entries_found(x, y),
    ensures
        entries_found(x.take(n), y),
    decreases x.len(),
{
    if n < x.len() {
        assert(x.drop_last().take(n) =~= x.take(n));
        lemma_entries_found_prefix(x.drop_last(), y, n);
    } else {
        assert(x.take(n) =~= x);
    }
}

fn entries_equal(x: &Vec<(String, Value)>, y: &Vec<(String, Value)>) -> (r: bool)
    ensures
        r == entries_found(x@, y@),
    decreases x, 0nat,
{
    let mut i: usize = 0;
    while i < x.len()
        invariant
            i <= x@.len(),
            entries_found(x@.take(i as int), y@),
        decreases x@.len() - i,
    {
        assert(x@.take(i + 1).drop_last() =~= x@.take(i as int));
        assert(x@.take(i + 1).last() == x@[i as int]);
        match map_get_exec(y, &x[i].0) {
            Some(v) => {
                proof {
                    assert(decreases_to!(x => x@));
                    assert(decreases_to!(x@ => x@[i as int]));
                    assert(decreases_to!(x@[i as int] => x@[i as int].1));
                }
                if !values_equal(&x[i].1, v) {
                    proof {
                        if entries_found(x@, y@) {
                            lemma_entries_found_prefix(x@, y@, i + 1);
                        }
                    }
                    return false;
                }
            },
            None => {
                proof {
                    if entries_found(x@, y@) {
                        lemma_entries_found_prefix(x@, y@, i + 1);
                    }
                }
                return false;
            },
        }
        i += 1;
    }
    assert(x@.take(x@.len() as int) =~= x@);
    true
}

fn ints_match_exec(xs: &Vec<i64>, ys: &Vec<Value>) -> (r: bool)
    ensures
        r == ints_match(xs@, ys@),
{
    if xs.len() != ys.len() {
        return false;
    }
    let mut i: usize = 0;
    while i < xs.len()
        invariant
            i <= xs@.len(),
            xs@.len() == ys@.len(),
            forall|j: int| 0 <= j < i ==> (#[trigger] ys@[j]) == Value::Int(xs@[j]),
        decreases xs@.len() - i,
    {
        match &ys[i] {
            Value::Int(n) => {
                if *n != xs[i] {
                    return false;
                }
            },
            _ => {
                return false;
            },
        }
        i += 1;
    }
    true
}

fn ints_equal(x: &Vec<i64>, y: &Vec<i64>) -> (r: bool)
    ensures
        r == (x@ == y@),
{
    if x.len() != y.len() {
        return false;
    }
    let mut i: usize = 0;
    while i < x.len()
        invariant
            i <= x@.len(),
            x@.len() == y@.len(),
            forall|j: int| 0 <= j < i ==> x@[j] == y@[j],
        decreases x@.len() - i,
    {
        if x[i] != y[i] {
            return false;
        }
        i += 1;
    }
    assert(x@ =~= y@);
    true
}

fn bytes_equal(x: &Vec<u8>, y: &Vec<u8>) -> (r: bool)
    ensures
        r == (x@ == y@),
{
    if x.len() != y.len() {
        return false;
    }
    let mut i: usize = 0;
    while i < x.len()
        invariant
            i <= x@.len(),
            x@.len() == y@.len(),
            forall|j: int| 0 <= j < i ==> x@[j] == y@[j],
        decreases x@.len() - i,
    {
        if x[i] != y[i] {
            return false;
        }
        i += 1;
    }
    assert(x@ =~= y@);
    true
}

/// Value equality as `==` computes it.
pub fn values_equal(a: &Value, b: &Value) -> (r: bool)
    ensures
        r == value_eq(*a, *b),
    decreases a, 1nat,
{
    match (a, b) {
        (Value::Int(x), Value::Int(y)) => *x == *y,
        (Value::Float(x), Value::Float(y)) => *x == *y,
        (Value::Bool(x), Value::Bool(y)) => *x == *y,
        (Value::Str(x), Value::Str(y)) => str_eq(x.as_str(), y.as_str()),
        (Value::Nil, Value::Nil) => true,
        (Value::Unit, Value::Unit) => true,
        (Value::List(x), Value::List(y)) => seq_equal(x, y),
        (Value::IntList(x), Value::IntList(y)) => ints_equal(x, y),
        (Value::IntList(xs), Value::List(ys)) => ints_match_exec(xs, ys),
        (Value::List(ys), Value::IntList(xs)) => ints_match_exec(xs, ys),
        (Value::Tuple(x), Value::Tuple(y)) => seq_equal(x, y),
        (Value::Variant(na, va), Value::Variant(nb, vb)) => str_eq(na.as_str(), nb.as_str()) && values_equal(va, vb),
        (Value::Dict(x), Value::Dict(y)) => {
            if x.len() != y.len() {
                return false;
            }
            entries_equal(x, y)
        },
        (Value::BuiltinFn(x), Value::BuiltinFn(y)) => str_eq(x.as_str(), y.as_str()),
        (Value::IRFuncRef(x), Value::IRFuncRef(y)) => str_eq(x.as_str(), y.as_str()),
        (Value::Bytes(x), Value::Bytes(y)) => bytes_equal(x, y),
        _ => false,
    }
}

impl PartialEq for Value {
    fn eq(&self, other: &Self) -> (r: bool) {
        values_equal(self, other)
    }
}

impl vstd::std_specs::cmp::PartialEqSpecImpl for Value {
    open spec fn obeys_eq_spec() -> bool {
        true
    }

    open spec fn eq_spec(&self, other: &Self) -> bool {
        value_eq(*self, *other)
    }
}

/// The elements `into_list` yields.
pub open spec fn list_of(v: Value) -> Seq<Value> {
    match v {
        Value::List(items) => items@,
        Value::IntList(items) => Seq::new(items@.len(), |i: int| Value::Int(items@[i])),
        Value::Bytes(b) => Seq::new(b@.len(), |i: int| Value::Int(b@[i] as i64)),
        other => seq![other],
    }
}

impl Value {
    /// Any list-like value as its elements; an integer list or byte string
    /// becomes a list of `Int`s, any other value a one-element list.
    pub fn into_list(self) -> (r: Vec<Value>)
        ensures
            r@ == list_of(self),
    {
        match self {
            Value::List(items) => items,
            Value::IntList(items) => {
                let mut out: Vec<Value> = Vec::new();
                let mut i: usize = 0;
                while i < items.len()
                    invariant
                        i <= items@.len(),
                        out@ == Seq::new(i as nat, |j: int| Value::Int(items@[j])),
                    decreases items@.len() - i,
                {
                    out.push(Value::Int(items[i]));
                    i += 1;
                    assert(out@ =~= Seq::new(i as nat, |j: int| Value::Int(items@[j])));
                }
                out
            },
            Value::Bytes(b) => {
                let mut out: Vec<Value> = Vec::new();
                let mut i: usize = 0;
                while i < b.len()
                    invariant
                        i <= b@.len(),
                        out@ == Seq::new(i as nat, |j: int| Value::Int(b@[j] as i64)),
                    decreases b@.len() - i,
                {
                    out.push(Value::Int(b[i] as i64));
                    i += 1;
                    assert(out@ =~= Seq::new(i as nat, |j: int| Value::Int(b@[j] as i64)));
                }
                out
            },
            other => {
                let mut out: Vec<Value> = Vec::new();
                out.push(other);
                assert(out@ =~= seq![other]);
                out
            },
        }
    }
}


// ── Copies ──────────────────────────────────────────────────────────

/// Two values with the same structure and contents (closures included).
pub open spec fn value_same(a: Value, b: Value) -> bool
    decreases a,
{
    match a {
        Value::Int(x) => b == Value::Int(x),
        Value::Float(x) => b == Value::Float(x),
        Value::Bool(x) => b == Value::Bool(x),
        Value::Str(x) => b matches Value::Str(y) && x@ == y@,
        Value::Nil => b is Nil,
        Value::Unit => b is Unit,
        Value::List(x) => b matches Value::List(y) && seq_same(x@, y@),
        Value::IntList(x) => b matches Value::IntList(y) && x@ == y@,
        Value::Tuple(x) => b matches Value::Tuple(y) && seq_same(x@, y@),
        Value::Variant(na, va) => b matches Value::Variant(nb, vb) && na@ == nb@ && value_same(*va, *vb),
        Value::Dict(x) => b matches Value::Dict(y) && entries_same(x@, y@),
        Value::BuiltinFn(x) => b matches Value::BuiltinFn(y) && x@ == y@,
        Value::IRFuncRef(x) => b matches Value::IRFuncRef(y) && x@ == y@,
        Value::BytecodeClosure(c) => b matches Value::BytecodeClosure(d) && c.func_name@ == d.func_name@
            && seq_same(c.captured@, d.captured@),
        Value::Bytes(x) => b matches Value::Bytes(y) && x@ == y@,
    }
}

pub open spec fn seq_same(x: Seq<Value>, y: Seq<Value>) -> bool
    decreases x,
{
    if x.len() != y.len() {
        false
    } else if x.len() == 0 {
        true
    } else {
        seq_same(x.drop_last(), y.drop_last()) && value_same(x.last(), y.last())
    }
}

pub open spec fn entries_same(x: Seq<(String, Value)>, y: Seq<(String, Value)>) -> bool
    decreases x,
{
    if x.len() != y.len() {
        false
    } else if x.len() == 0 {
        true
    } else {
        entries_same(x.drop_last(), y.drop_last()) && x.last().0@ == y.last().0@ && value_same(x.last().1, y.last().1)
    }
}

fn clone_values(x: &Vec<Value>) -> (r: Vec<Value>)
    ensures
        seq_same(x@, r@),
    decreases x, 0nat,
{
    let mut out: Vec<Value> = Vec::new();
    let mut i: usize = 0;
    while i < x.len()
        invariant
            i <= x@.len(),
            seq_same(x@.take(i as int), out@),
        decreases x@.len() - i,
    {
        assert(x@.take(i + 1).drop_last() =~= x@.take(i as int));
        proof {
            assert(decreases_to!(x => x@));
            assert(decreases_to!(x@ => x@[i as int]));
        }
        let v = clone_value(&x[i]);
        let ghost prev = out@;
        out.push(v);
        assert(out@.drop_last() =~= prev);
        i += 1;
    }
    assert(x@.take(x@.len() as int) =~= x@);
    out
}

fn clone_entries(x: &Vec<(String, Value)>) -> (r: Vec<(String, Value)>)
    ensures
        entries_same(x@, r@),
    decreases x, 0nat,
{
    let mut out: Vec<(String, Value)> = Vec::new();
    let mut i: usize = 0;
    while i < x.len()
        invariant
            i <= x@.len(),
            entries_same(x@.take(i as int), out@),
        decreases x@.len() - i,
    {
        assert(x@.take(i + 1).drop_last() =~= x@.take(i as int));
        proof {
            assert(decreases_to!(x => x@));
            assert(decreases_to!(x@ => x@[i as int]));
            assert(decreases_to!(x@[i as int] => x@[i as int].1));
        }
        let k = x[i].0.clone();
        let v = clone_value(&x[i].1);
        let ghost prev = out@;
        out.push((k, v));
        assert(out@.drop_last() =~= prev);
        i += 1;
    }
    assert(x@.take(x@.len() as int) =~= x@);
    out
}

fn clone_ints(x: &Vec<i64>) -> (r: Vec<i64>)
    ensures
        r@ == x@,
{
    let mut out: Vec<i64> = Vec::new();
    let mut i: usize = 0;
    while i < x.len()
        invariant
            i <= x@.len(),
            out@ == x@.take(i as int),
        decreases x@.len() - i,
    {
        out.push(x[i]);
        i += 1;
        assert(out@ =~= x@.take(i as int));
    }
    assert(x@.take(x@.len() as int) =~= x@);
    out
}

fn clone_bytes(x: &Vec<u8>) -> (r: Vec<u8>)
    ensures
        r@ == x@,
{
    let mut out: Vec<u8> = Vec::new();
    let mut i: usize = 0;
    while i < x.len()
        invariant
            i <= x@.len(),
            out@ == x@.take(i as int),
        decreases x@.len() - i,
    {
        out.push(x[i]);
        i += 1;
        assert(out@ =~= x@.take(i as int));
    }
    assert(x@.take(x@.len() as int) =~= x@);
    out
}

/// A deep copy.
pub fn clone_value(v: &Value) -> (r: Value)
    ensures
        value_same(*v, r),
    decreases v, 1nat,
{
    match v {
        Value::Int(x) => Value::Int(*x),
        Value::Float(x) => Value::Float(*x),
        Value::Bool(x) => Value::Bool(*x),
        Value::Str(x) => Value::Str(x.clone()),
        Value::Nil => Value::Nil,
        Value::Unit => Value::Unit,
        Value::List(x) => Value::List(clone_values(x)),
        Value::IntList(x) => Value::IntList(clone_ints(x)),
        Value::Tuple(x) => Value::Tuple(clone_values(x)),
        Value::Variant(n, inner) => Value::Variant(n.clone(), Box::new(clone_value(inner))),
        Value::Dict(x) => Value::Dict(clone_entries(x)),
        Value::BuiltinFn(x) => Value::BuiltinFn(x.clone()),
        Value::IRFuncRef(x) => Value::IRFuncRef(x.clone()),
        Value::BytecodeClosure(c) => {
            proof {
                assert(decreases_to!(*v => *c));
                assert(decreases_to!(*c => c.captured));
            }
            Value::BytecodeClosure(BytecodeClosureValue { func_name: c.func_name.clone(), captured: clone_values(&c.captured) })
        },
        Value::Bytes(x) => Value::Bytes(clone_bytes(x)),
    }
}

impl Clone for Value {
    fn clone(&self) -> (r: Value)
        ensures
            value_same(*self, r),
    {
        clone_value(self)
    }
}


/// Truthiness in conditions: `false`, `nil`, unit and the integer 0 are
/// false; every other value is true.
pub open spec fn truthy(v: Value) -> bool {
    match v {
        Value::Bool(b) => b,
        Value::Nil => false,
        Value::Unit => false,
        Value::Int(n) => n != 0,
        _ => true,
    }
}

pub fn is_truthy(val: &Value) -> (b: bool)
    ensures
        b == truthy(*val),
{
    match val {
        Value::Bool(b) => *b,
        Value::Nil => false,
        Value::Unit => false,
        Value::Int(n) => *n != 0,
        _ => true,
    }
}

} // verus!
