//! What the parser has to say about a program that it cannot read.
use crate::span::Span;
use vstd::prelude::*;
use vstd::string::StringExecFns;

verus! {

/// An error in the source text: where it is and what is wrong.
#[derive(Debug, PartialEq, Eq)]
pub struct Diagnostic {
    pub span: Span,
    pub message: String,
}

pub struct DiagnosticView {
    pub span: Span,
    pub message: Seq<char>,
}

impl View for Diagnostic {
    type V = DiagnosticView;

    open spec fn view(&self) -> DiagnosticView {
        DiagnosticView { span: self.span, message: self.message@ }
    }
}

/// The diagnostics that `diagnostics` stand for.
pub open spec fn diagnostics_view(diagnostics: Seq<Diagnostic>) -> Seq<DiagnosticView> {
    Seq::new(diagnostics.len(), |i: int| diagnostics[i]@)
}

impl Diagnostic {
    pub fn new(span: Span, message: &str) -> (r: Self)
        ensures
            r@ == (DiagnosticView { span, message: message@ }),
    {
        Diagnostic { span, message: String::from_str(message) }
    }
}

impl Clone for Diagnostic {
    fn clone(&self) -> (r: Self)
        ensures
            r@ == self@,
    {
        Diagnostic { span: self.span, message: self.message.clone() }
    }
}

} // verus!
