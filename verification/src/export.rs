//! The export of one document: what is decided between reading the document
//! from the store and writing the result to a file.

use crate::convert::{convert_markdown, failure_message, html_document, GENERATION_FAILURE, PARSE_FAILURE};
use crate::diagram::processed_text;
use crate::format::{format_named, unsupported_message, ExportFormat};
use crate::markdown::{lossy_text, markdown_accepted, rendered, text_of_bytes};
use crate::store::StoredDocument;
use crate::text::{append_signed_decimal, append_str, signed_decimal, starts_with, string_of};
use vstd::prelude::*;
use vstd::utf8::{
    decode_utf8, encode_utf8, encode_utf8_decode_utf8, encode_utf8_valid_utf8, valid_utf8,
};

verus! {

/// What the message for a missing document says before the document's number.
pub const NOT_FOUND_BEFORE: &'static str = "Document ";

/// What the message for a missing document says behind the document's number.
pub const NOT_FOUND_AFTER: &'static str = " not found";

/// What the message starts with when the result could not be written.
pub const WRITE_FAILURE: &'static str = "Failed to write file: ";

/// What is left to do outside for an export.
#[derive(Debug, PartialEq, Eq)]
pub enum ExportPlan {
    /// Write these bytes, an HTML document, to the file.
    WriteHtml(Vec<u8>),
    /// Print this HTML document to PDF, and write the PDF to the file.
    RenderPdf(String),
}

/// An `ExportPlan`, with sequences in place of vector and string.
pub enum PlanView {
    WriteHtml(Seq<u8>),
    RenderPdf(Seq<char>),
}

impl View for ExportPlan {
    type V = PlanView;

    open spec fn view(&self) -> PlanView {
        match *self {
            ExportPlan::WriteHtml(bytes) => PlanView::WriteHtml(bytes@),
            ExportPlan::RenderPdf(html) => PlanView::RenderPdf(html@),
        }
    }
}

/// The message for a store without the document `document_id`.
pub open spec fn not_found_message(document_id: int) -> Seq<char> {
    NOT_FOUND_BEFORE@ + signed_decimal(document_id) + NOT_FOUND_AFTER@
}

/// What is left to do for `format` with the bytes `html` of the HTML
/// document: HTML is written as it is; for PDF the text of the bytes is
/// printed. There is no other way to a PDF than through the HTML document.
pub open spec fn plan_of(format: ExportFormat, html: Seq<u8>) -> PlanView {
    match format {
        ExportFormat::Html => PlanView::WriteHtml(html),
        ExportFormat::Pdf => PlanView::RenderPdf(lossy_text(html)),
    }
}

/// The message for a store without the document `document_id`.
pub fn document_not_found(document_id: i64) -> (message: String)
    ensures
        message@ == not_found_message(document_id as int),
{
    let mut message: Vec<char> = Vec::new();
    append_str(&mut message, NOT_FOUND_BEFORE);
    append_signed_decimal(&mut message, document_id);
    append_str(&mut message, NOT_FOUND_AFTER);
    proof {
        assert(message@ == not_found_message(document_id as int));
    }
    string_of(message.as_slice())
}

/// The message for a result that could not be written; `details` says why.
pub fn write_failure(details: &str) -> (message: String)
    ensures
        message@ == WRITE_FAILURE@ + details@,
{
    failure_message(WRITE_FAILURE, details)
}

/// What is left to do for `format` with the bytes `html` of the HTML document.
pub fn plan_for(format: ExportFormat, html: Vec<u8>) -> (plan: ExportPlan)
    ensures
        plan@ == plan_of(format, html@),
        format == ExportFormat::Pdf && valid_utf8(html@) ==> plan@ == PlanView::RenderPdf(
            decode_utf8(html@),
        ),
{
    match format {
        ExportFormat::Html => ExportPlan::WriteHtml(html),
        ExportFormat::Pdf => ExportPlan::RenderPdf(text_of_bytes(html.as_slice())),
    }
}

/// Plans the export of `document`, which the store gave for the number
/// `document_id`, to the format that `format` names.
///
/// A missing document gives the message that names its number. Then an
/// unknown format gives the message that names the supported formats: nothing
/// is parsed or rendered for it. Then the document's content is converted to
/// HTML, for either format, and a failure of that is the result. What is left
/// is to write the HTML document, or to print it to PDF and write that.
pub fn plan_export(document: Option<&StoredDocument>, document_id: i64, format: &str) -> (r: Result<
    ExportPlan,
    String,
>)
    ensures
        document is None ==> (r matches Err(message) && message@ == not_found_message(
            document_id as int,
        )),
        document is Some && format_named(format@) is None ==> (r matches Err(message) && message@
            == unsupported_message(format@)),
        match (document, format_named(format@)) {
            (Some(found), Some(export_format)) => {
                let content = found.content@;
                match rendered(processed_text(content)) {
                    Some(raw_html) => r matches Ok(plan) && plan@ == match export_format {
                        ExportFormat::Html => PlanView::WriteHtml(
                            encode_utf8(html_document(content, raw_html)),
                        ),
                        ExportFormat::Pdf => PlanView::RenderPdf(html_document(content, raw_html)),
                    },
                    None => r matches Err(message) && starts_with(
                        message@,
                        if markdown_accepted(processed_text(content)) {
                            GENERATION_FAILURE@
                        } else {
                            PARSE_FAILURE@
                        },
                    ),
                }
            },
            _ => true,
        },
{
    let found = match document {
        Some(found) => found,
        None => {
            return Err(document_not_found(document_id));
        },
    };
    let export_format = match ExportFormat::from_str(format) {
        Ok(export_format) => export_format,
        Err(message) => {
            return Err(message);
        },
    };
    match convert_markdown(found.content.as_str(), &ExportFormat::Html) {
        Ok(html) => {
            let plan = plan_for(export_format, html);
            proof {
                let content = found.content@;
                let raw_html = rendered(processed_text(content))->0;
                encode_utf8_valid_utf8(html_document(content, raw_html));
                encode_utf8_decode_utf8(html_document(content, raw_html));
            }
            Ok(plan)
        },
        Err(message) => Err(message),
    }
}

} // verus!
