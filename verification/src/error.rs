//! Errors raised while running AIRL code, and the text they print as.
use vstd::prelude::*;
use crate::span::Span;
use crate::text::{decimal, u64_to_string};

verus! {

#[derive(Debug)]
pub enum RuntimeError {
    TypeError(String),
    UseAfterMove { name: String, span: Span },
    DivisionByZero,
    IndexOutOfBounds { index: usize, len: usize },
    ShapeMismatch { expected: Vec<usize>, got: Vec<usize> },
    UndefinedSymbol(String),
    NotCallable(String),
    TryOnNonResult(String),
    /// Loaded bytecode refers to a register or constant that does not exist.
    BytecodeValidation(String),
    Custom(String),
}

/// `[a, b, c]`: a list of sizes as `{:?}` writes it.
pub open spec fn sizes_debug(s: Seq<usize>) -> Seq<char> {
    "["@ + sizes_joined(s) + "]"@
}

pub open spec fn sizes_joined(s: Seq<usize>) -> Seq<char>
    decreases s.len(),
{
    if s.len() == 0 {
        Seq::empty()
    } else if s.len() == 1 {
        decimal(s[0] as nat)
    } else {
        sizes_joined(s.drop_last()) + ", "@ + decimal(s.last() as nat)
    }
}

/// The message an error prints.
pub open spec fn error_text(e: RuntimeError) -> Seq<char> {
    match e {
        RuntimeError::TypeError(msg) => "TypeError: "@ + msg@,
        RuntimeError::UseAfterMove { name, span } => "UseAfterMove: `"@ + name@ + "` was moved at "@
            + decimal(span.line as nat) + ":"@ + decimal(span.col as nat),
        RuntimeError::DivisionByZero => "DivisionByZero"@,
        RuntimeError::IndexOutOfBounds { index, len } => "IndexOutOfBounds: index "@ + decimal(index as nat)
            + " but length is "@ + decimal(len as nat),
        RuntimeError::ShapeMismatch { expected, got } => "ShapeMismatch: expected "@ + sizes_debug(expected@)
            + ", got "@ + sizes_debug(got@),
        RuntimeError::UndefinedSymbol(name) => "UndefinedSymbol: `"@ + name@ + "`"@,
        RuntimeError::NotCallable(desc) => "NotCallable: "@ + desc@,
        RuntimeError::TryOnNonResult(desc) => "TryOnNonResult: "@ + desc@,
        RuntimeError::BytecodeValidation(msg) => "BytecodeValidation: "@ + msg@,
        RuntimeError::Custom(msg) => msg@,
    }
}

fn sizes_debug_exec(s: &Vec<usize>) -> (r: String)
    ensures
        r@ == sizes_debug(s@),
{
    let mut body = String::new();
    let mut i: usize = 0;
    while i < s.len()
        invariant
            i <= s@.len(),
            body@ == sizes_joined(s@.take(i as int)),
        decreases s@.len() - i,
    {
        assert(s@.take(i + 1).drop_last() =~= s@.take(i as int));
        if i > 0 {
            body.append(", ");
        }
        let d = u64_to_string(s[i] as u64);
        body.append(d.as_str());
        i += 1;
    }
    assert(s@.take(s@.len() as int) =~= s@);
    let mut r = String::from_str("[");
    r.append(body.as_str());
    r.append("]");
    r
}

impl RuntimeError {
    /// The message the error prints (its `Display` text).
    pub fn to_display_string(&self) -> (s: String)
        ensures
            s@ == error_text(*self),
    {
        match self {
            RuntimeError::TypeError(msg) => {
                let mut s = String::from_str("TypeError: ");
                s.append(msg.as_str());
                s
            },
            RuntimeError::UseAfterMove { name, span } => {
                let mut s = String::from_str("UseAfterMove: `");
                s.append(name.as_str());
                s.append("` was moved at ");
                let l = u64_to_string(span.line as u64);
                s.append(l.as_str());
                s.append(":");
                let c = u64_to_string(span.col as u64);
                s.append(c.as_str());
                s
            },
            RuntimeError::DivisionByZero => String::from_str("DivisionByZero"),
            RuntimeError::IndexOutOfBounds { index, len } => {
                let mut s = String::from_str("IndexOutOfBounds: index ");
                let a = u64_to_string(*index as u64);
                s.append(a.as_str());
                s.append(" but length is ");
                let b = u64_to_string(*len as u64);
                s.append(b.as_str());
                s
            },
            RuntimeError::ShapeMismatch { expected, got } => {
                let mut s = String::from_str("ShapeMismatch: expected ");
                let a = sizes_debug_exec(expected);
                s.append(a.as_str());
                s.append(", got ");
                let b = sizes_debug_exec(got);
                s.append(b.as_str());
                s
            },
            RuntimeError::UndefinedSymbol(name) => {
                let mut s = String::from_str("UndefinedSymbol: `");
                s.append(name.as_str());
                s.append("`");
                s
            },
            RuntimeError::NotCallable(desc) => {
                let mut s = String::from_str("NotCallable: ");
                s.append(desc.as_str());
                s
            },
            RuntimeError::TryOnNonResult(desc) => {
                let mut s = String::from_str("TryOnNonResult: ");
                s.append(desc.as_str());
                s
            },
            RuntimeError::BytecodeValidation(msg) => {
                let mut s = String::from_str("BytecodeValidation: ");
                s.append(msg.as_str());
                s
            },
            RuntimeError::Custom(msg) => msg.clone(),
        }
    }
}

} // verus!
