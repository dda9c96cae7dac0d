//! What a pass has met and gone on from: events that do not stop a
//! conversion and that the caller may want to report.

use vstd::prelude::*;

verus! {

/// An event that a pass has met and gone on from.
#[derive(Debug, Clone, PartialEq, Eq)]
pub enum Diagnostic {
    /// A key was defined again, for a figure or for a table; the first
    /// definition stands.
    DuplicateReferenceKey { key: String },
    /// A placeholder refers to a key that neither namespace knows; it was
    /// left as written.
    UnresolvedReferencePlaceholder { key: String },
    /// Inline metadata is written as a JSON object but does not hold what
    /// it has to; it counts as absent. `text` is the metadata as written.
    MalformedInlineMetadata { text: String },
    /// A list item stands outside any list; nothing was made of it.
    ListItemOutsideListContext,
}

/// The model of a [`Diagnostic`].
pub enum DiagnosticView {
    DuplicateReferenceKey { key: Seq<char> },
    UnresolvedReferencePlaceholder { key: Seq<char> },
    MalformedInlineMetadata { text: Seq<char> },
    ListItemOutsideListContext,
}

impl View for Diagnostic {
    type V = DiagnosticView;

    open spec fn view(&self) -> DiagnosticView {
        match self {
            Diagnostic::DuplicateReferenceKey { key } => DiagnosticView::DuplicateReferenceKey {
                key: key@,
            },
            Diagnostic::UnresolvedReferencePlaceholder {
                key,
            } => DiagnosticView::UnresolvedReferencePlaceholder { key: key@ },
            Diagnostic::MalformedInlineMetadata {
                text,
            } => DiagnosticView::MalformedInlineMetadata { text: text@ },
            Diagnostic::ListItemOutsideListContext => DiagnosticView::ListItemOutsideListContext,
        }
    }
}

} // verus!
