use crate::text::{decimal_text, to_decimal};
use vstd::prelude::*;
use vstd::string::StringExecFns;

verus! {

/// A warning that a code block names a language for which there is no
/// syntax definition, so that the block was rendered as plain text.
#[derive(Clone, Debug, PartialEq, Eq)]
pub struct Diagnostic {
    /// The id of the post that holds the block.
    pub post_id: String,
    /// The line of the post on which the block starts.
    pub line: usize,
    /// The language token of the block.
    pub token: String,
}

/// Mathematical value of a [`Diagnostic`].
pub ghost struct DiagnosticView {
    pub post_id: Seq<char>,
    pub line: nat,
    pub token: Seq<char>,
}

impl View for Diagnostic {
    type V = DiagnosticView;

    open spec fn view(&self) -> DiagnosticView {
        DiagnosticView { post_id: self.post_id@, line: self.line as nat, token: self.token@ }
    }
}

/// The values of a sequence of diagnostics.
pub open spec fn diagnostic_views(diagnostics: Seq<Diagnostic>) -> Seq<DiagnosticView> {
    diagnostics.map_values(|d: Diagnostic| d@)
}

/// The sentence that tells a reader of a diagnostic.
pub open spec fn message_text(d: DiagnosticView) -> Seq<char> {
    "post "@ + d.post_id + ", line "@ + decimal_text(d.line) + ": unknown code language \""@
        + d.token + "\", rendered as plain text"@
}

impl Diagnostic {
    /// The diagnostic as a sentence.
    pub fn message(&self) -> (text: String)
        ensures
            text@ == message_text(self@),
    {
        let mut text = String::from_str("post ");
        text.append(self.post_id.as_str());
        text.append(", line ");
        let line = to_decimal(self.line);
        text.append(line.as_str());
        text.append(": unknown code language \"");
        text.append(self.token.as_str());
        text.append("\", rendered as plain text");
        text
    }
}

} // verus!
