use vstd::prelude::*;
use crate::span::Span;

verus! {

#[derive(Debug, Clone, Copy, PartialEq, Eq, Structural)]
pub enum Severity {
    Error,
    Warning,
}

/// A message about the source, with the span it refers to.
#[derive(Debug, Clone)]
pub struct Diagnostic {
    pub severity: Severity,
    pub message: String,
    pub span: Span,
}

pub struct SpecDiagnostic {
    pub severity: Severity,
    pub message: Seq<char>,
    pub span: Span,
}

impl View for Diagnostic {
    type V = SpecDiagnostic;

    open spec fn view(&self) -> SpecDiagnostic {
        SpecDiagnostic { severity: self.severity, message: self.message@, span: self.span }
    }
}

pub open spec fn spec_error(message: Seq<char>, span: Span) -> SpecDiagnostic {
    SpecDiagnostic { severity: Severity::Error, message, span }
}

pub open spec fn spec_warning(message: Seq<char>, span: Span) -> SpecDiagnostic {
    SpecDiagnostic { severity: Severity::Warning, message, span }
}

impl Diagnostic {
    pub fn error(message: String, span: Span) -> (d: Diagnostic)
        ensures
            d@ == spec_error(message@, span),
    {
        Diagnostic { severity: Severity::Error, message, span }
    }

    pub fn warning(message: String, span: Span) -> (d: Diagnostic)
        ensures
            d@ == spec_warning(message@, span),
    {
        Diagnostic { severity: Severity::Warning, message, span }
    }

    /// An error whose message is a string literal.
    pub fn error_str(message: &str, span: Span) -> (d: Diagnostic)
        ensures
            d@ == spec_error(message@, span),
    {
        Diagnostic { severity: Severity::Error, message: String::from_str(message), span }
    }

    pub fn is_error(&self) -> (b: bool)
        ensures
            b == (self.severity == Severity::Error),
    {
        match self.severity {
            Severity::Error => true,
            Severity::Warning => false,
        }
    }
}

pub open spec fn view_diags(s: Seq<Diagnostic>) -> Seq<SpecDiagnostic> {
    Seq::new(s.len(), |i: int| s[i]@)
}

/// Diagnostics collected while parsing, plus the counter that names the
/// temporaries introduced when destructuring bindings are expanded.
pub struct Diagnostics {
    pub items: Vec<Diagnostic>,
    pub gensym_counter: usize,
}

/// The collected diagnostics and the counter, as values.
pub struct SpecDiags {
    pub items: Seq<SpecDiagnostic>,
    pub counter: usize,
}

impl View for Diagnostics {
    type V = SpecDiags;

    open spec fn view(&self) -> SpecDiags {
        SpecDiags { items: view_diags(self.items@), counter: self.gensym_counter }
    }
}

/// The state after one more diagnostic is recorded.
pub open spec fn spec_add(st: SpecDiags, d: SpecDiagnostic) -> SpecDiags {
    SpecDiags { items: st.items.push(d), counter: st.counter }
}

impl Diagnostics {
    pub fn new() -> (d: Diagnostics)
        ensures
            d.items@.len() == 0,
            d.gensym_counter == 0,
            d@.items.len() == 0,
    {
        Diagnostics { items: Vec::new(), gensym_counter: 0 }
    }

    pub fn add(&mut self, d: Diagnostic)
        ensures
            final(self).items@ == old(self).items@.push(d),
            final(self).gensym_counter == old(self).gensym_counter,
            final(self)@ == spec_add(old(self)@, d@),
    {
        self.items.push(d);
        assert(view_diags(self.items@) =~= view_diags(old(self).items@).push(d@));
    }

    pub open spec fn spec_has_errors(&self) -> bool {
        exists|i: int| 0 <= i < self.items@.len() && #[trigger] self.items@[i].severity == Severity::Error
    }

    pub fn has_errors(&self) -> (b: bool)
        ensures
            b == self.spec_has_errors(),
    {
        let mut i: usize = 0;
        while i < self.items.len()
            invariant
                i <= self.items@.len(),
                forall|j: int| 0 <= j < i ==> #[trigger] self.items@[j].severity != Severity::Error,
            decreases self.items@.len() - i,
        {
            if self.items[i].is_error() {
                return true;
            }
            i += 1;
        }
        false
    }
}

} // verus!
