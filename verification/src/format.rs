//! The formats a note can be exported to.

use crate::text::{
    append_all, append_str, chars_of, equal_ignoring_case, equals_ignoring_case, lower_code,
    string_of,
};
use vstd::prelude::*;

verus! {

/// The name of the HTML format.
pub const HTML_NAME: &'static str = "html";

/// The name of the PDF format.
pub const PDF_NAME: &'static str = "pdf";

/// What the message for an unknown format says before the name it was given.
pub const UNSUPPORTED_BEFORE: &'static str = "Unsupported format: ";

/// What the message for an unknown format says behind the name it was given.
pub const UNSUPPORTED_AFTER: &'static str = ". Supported: html, pdf";

/// A format that a note can be exported to.
#[derive(Debug, Clone, Copy, PartialEq, Eq, Structural)]
pub enum ExportFormat {
    /// A complete HTML document.
    Html,
    /// That document, printed to PDF.
    Pdf,
}

/// The format that `token` names, in upper or lower case.
pub open spec fn format_named(token: Seq<char>) -> Option<ExportFormat> {
    if equal_ignoring_case(token, HTML_NAME@) {
        Some(ExportFormat::Html)
    } else if equal_ignoring_case(token, PDF_NAME@) {
        Some(ExportFormat::Pdf)
    } else {
        None
    }
}

/// The message for `token`, which names no format. It holds the token as it
/// was given, and the names that are supported.
pub open spec fn unsupported_message(token: Seq<char>) -> Seq<char> {
    UNSUPPORTED_BEFORE@ + token + UNSUPPORTED_AFTER@
}

/// The case of the letters does not matter: two tokens that differ in
/// nothing else name the same format, or both none.
pub proof fn lemma_format_ignores_case(a: Seq<char>, b: Seq<char>)
    requires
        equal_ignoring_case(a, b),
    ensures
        format_named(a) == format_named(b),
{
    assert forall|word: Seq<char>| equal_ignoring_case(a, word) == equal_ignoring_case(
        b,
        word,
    ) by {
        if equal_ignoring_case(a, word) {
            assert forall|i: int| 0 <= i < b.len() implies lower_code(#[trigger] b[i])
                == lower_code(word[i]) by {
                assert(lower_code(a[i]) == lower_code(b[i]));
            }
        }
        if equal_ignoring_case(b, word) {
            assert forall|i: int| 0 <= i < a.len() implies lower_code(#[trigger] a[i])
                == lower_code(word[i]) by {
                assert(lower_code(a[i]) == lower_code(b[i]));
            }
        }
    }
}

impl ExportFormat {
    /// The format that `s` names. The case of the letters does not matter;
    /// any other token gives the message that names the supported formats.
    pub fn from_str(s: &str) -> (r: Result<ExportFormat, String>)
        ensures
            match format_named(s@) {
                Some(format) => r == Ok::<ExportFormat, String>(format),
                None => r matches Err(message) && message@ == unsupported_message(s@),
            },
    {
        let token = chars_of(s);
        let html = chars_of(HTML_NAME);
        let pdf = chars_of(PDF_NAME);
        if equals_ignoring_case(token.as_slice(), html.as_slice()) {
            Ok(ExportFormat::Html)
        } else if equals_ignoring_case(token.as_slice(), pdf.as_slice()) {
            Ok(ExportFormat::Pdf)
        } else {
            let mut message: Vec<char> = Vec::new();
            append_str(&mut message, UNSUPPORTED_BEFORE);
            append_all(&mut message, token.as_slice());
            append_str(&mut message, UNSUPPORTED_AFTER);
            Err(string_of(message.as_slice()))
        }
    }

    /// The file extension that goes with the format, without a dot.
    pub fn extension(&self) -> (r: &'static str)
        ensures
            r@ == match *self {
                ExportFormat::Html => HTML_NAME@,
                ExportFormat::Pdf => PDF_NAME@,
            },
    {
        match self {
            ExportFormat::Html => HTML_NAME,
            ExportFormat::Pdf => PDF_NAME,
        }
    }
}

} // verus!
