//! Structured diagnostics: a message anchored at a span, with an optional
//! related secondary location.

use crate::source::{Range, SrcPos};
use vstd::prelude::*;

verus! {

/// The ghost content of a diagnostic: where it points (by source identity
/// and range), what it says, and any related secondary location.
pub struct DiagnosticView {
    pub source_name: Seq<char>,
    pub range: Range,
    pub message: Seq<char>,
    pub related: Option<(Seq<char>, Range, Seq<char>)>,
}

/// An error or warning tied to an exact source location.
#[derive(Debug)]
pub struct Diagnostic {
    pub pos: SrcPos,
    pub message: String,
    pub related: Option<(SrcPos, String)>,
}

impl View for Diagnostic {
    type V = DiagnosticView;

    open spec fn view(&self) -> DiagnosticView {
        DiagnosticView {
            source_name: self.pos.source@.name,
            range: self.pos.range,
            message: self.message@,
            related: match self.related {
                Some((ref p, ref m)) => Some((p.source@.name, p.range, m@)),
                None => None,
            },
        }
    }
}

/// The view of a diagnostic that a message at a span yields.
pub open spec fn diag_at(pos: SrcPos, message: Seq<char>) -> DiagnosticView {
    DiagnosticView {
        source_name: pos.source@.name,
        range: pos.range,
        message,
        related: None,
    }
}

/// The views of a sequence of diagnostics.
pub open spec fn diag_views(s: Seq<Diagnostic>) -> Seq<DiagnosticView> {
    s.map_values(|d: Diagnostic| d@)
}

impl Diagnostic {
    /// An error message anchored at the given span.
    pub fn error(pos: &SrcPos, message: String) -> (d: Diagnostic)
        ensures
            d@ == diag_at(
                SrcPos { source: pos.source, range: pos.range },
                message@,
            ),
    {
        Diagnostic { pos: pos.clone(), message, related: None }
    }

    /// Attach a related secondary location, in the manner of a "previously
    /// defined here" note.
    pub fn add_related(&mut self, pos: &SrcPos, message: String)
        ensures
            final(self)@ == (DiagnosticView {
                related: Some((pos.source@.name, pos.range, message@)),
                ..old(self)@
            }),
    {
        self.related = Some((pos.clone(), message));
    }
}

/// The outcome of a parse step: a value, or one diagnostic that describes
/// why there is none.
pub type ParseResult<T> = Result<T, Diagnostic>;

} // verus!
