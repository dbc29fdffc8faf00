//! From markdown to the bytes of an HTML document.

use crate::diagram::{diagram_sources, extract_mermaid_blocks, processed_text};
use crate::format::ExportFormat;
use crate::markdown::{
    error_details, generate_html, html_of, lossy_text, parse_markdown, parsed, text_of_bytes,
};
use crate::template::{composed, compose_document};
use crate::text::{append_str, owned, starts_with, string_of, texts};
use crate::title::{extract_title, title_of};
use vstd::prelude::*;
use vstd::string::StrSliceExecFns;
use vstd::utf8::encode_utf8;

verus! {

/// What the message for a text that cannot be parsed starts with.
pub const PARSE_FAILURE: &'static str = "Failed to parse markdown: ";

/// What the message for a document that cannot be written as HTML starts with.
pub const GENERATION_FAILURE: &'static str = "Failed to generate HTML: ";

/// The message for a conversion that was asked for PDF: a PDF is printed from
/// the HTML document and never made from markdown.
pub const PDF_NOT_CONVERTED: &'static str = "PDF format should be handled via convert_html_to_pdf";

/// The HTML document for `content`, given the bytes `raw_html` that the
/// generator made of its processed text: title and diagrams are those of
/// `content`, the body is the text of `raw_html`.
pub open spec fn html_document(content: Seq<char>, raw_html: Seq<u8>) -> Seq<char> {
    composed(title_of(content), lossy_text(raw_html), diagram_sources(content))
}

/// `before` and `details`, one behind the other.
pub fn failure_message(before: &str, details: &str) -> (message: String)
    ensures
        message@ == before@ + details@,
{
    let mut message: Vec<char> = Vec::new();
    append_str(&mut message, before);
    append_str(&mut message, details);
    string_of(message.as_slice())
}

/// The bytes of the HTML document for `content`, given the bytes `raw_html`
/// that the generator made, and the diagrams that were taken out of `content`.
pub fn compose_export(content: &str, diagrams: &Vec<String>, raw_html: &[u8]) -> (bytes: Vec<u8>)
    ensures
        bytes@ == encode_utf8(
            composed(title_of(content@), lossy_text(raw_html@), texts(diagrams@)),
        ),
{
    let title = extract_title(content);
    let html_content = text_of_bytes(raw_html);
    let styled_html = compose_document(title.as_str(), html_content.as_str(), diagrams);
    styled_html.as_str().as_bytes_vec()
}

/// Converts `content` to `format`.
///
/// The text is parsed without its diagram blocks. If the parser refuses it,
/// the result is a message that starts with `PARSE_FAILURE`, whatever the
/// format. Otherwise PDF gives `PDF_NOT_CONVERTED`, and HTML gives the bytes
/// of the document made of what the generator returns, or, if the generator
/// fails, a message that starts with `GENERATION_FAILURE`.
pub fn convert_markdown(content: &str, format: &ExportFormat) -> (r: Result<Vec<u8>, String>)
    ensures
        match parsed(processed_text(content@)) {
            None => r matches Err(message) && starts_with(message@, PARSE_FAILURE@),
            Some(document) => match *format {
                ExportFormat::Pdf => r matches Err(message) && message@ == PDF_NOT_CONVERTED@,
                ExportFormat::Html => match html_of(document) {
                    Some(raw_html) => r matches Ok(bytes) && bytes@ == encode_utf8(
                        html_document(content@, raw_html),
                    ),
                    None => r matches Err(message) && starts_with(message@, GENERATION_FAILURE@),
                },
            },
        },
{
    let (processed_content, mermaid_blocks) = extract_mermaid_blocks(content);
    let document = match parse_markdown(processed_content) {
        Ok(document) => document,
        Err(error) => {
            let details = error_details(&error);
            let message = failure_message(PARSE_FAILURE, details.as_str());
            proof {
                assert(message@.take(PARSE_FAILURE@.len() as int) == PARSE_FAILURE@);
            }
            return Err(message);
        },
    };
    match format {
        ExportFormat::Html => {
            match generate_html(&document) {
                Ok(raw_html) => {
                    let bytes = compose_export(content, &mermaid_blocks, raw_html.as_slice());
                    proof {
                        assert(bytes@ == encode_utf8(html_document(content@, raw_html@)));
                    }
                    Ok(bytes)
                },
                Err(error) => {
                    let details = error_details(&error);
                    let message = failure_message(GENERATION_FAILURE, details.as_str());
                    proof {
                        assert(message@.take(GENERATION_FAILURE@.len() as int)
                            == GENERATION_FAILURE@);
                    }
                    Err(message)
                },
            }
        },
        ExportFormat::Pdf => Err(owned(PDF_NOT_CONVERTED)),
    }
}

} // verus!
