use markdown_ui::convert::convert_markdown;
use markdown_ui::export::{document_not_found, plan_export, plan_for, write_failure, ExportPlan};
use markdown_ui::format::ExportFormat;
use markdown_ui::store::StoredDocument;

fn document(content: &str) -> StoredDocument {
    StoredDocument {
        id: 7,
        collection_id: 1,
        name: "Note".to_string(),
        content: content.to_string(),
        created_at: "2024-01-01 00:00:00".to_string(),
        updated_at: "2024-01-02 00:00:00".to_string(),
    }
}

#[test]
fn missing_document_is_reported_with_its_number() {
    assert_eq!(document_not_found(42), "Document 42 not found");
    assert_eq!(document_not_found(-3), "Document -3 not found");
    assert_eq!(document_not_found(0), "Document 0 not found");
    assert_eq!(
        document_not_found(i64::MIN),
        "Document -9223372036854775808 not found"
    );
    assert_eq!(plan_export(None, 42, "html"), Err("Document 42 not found".to_string()));
    assert_eq!(plan_export(None, 42, "xml"), Err("Document 42 not found".to_string()));
}

#[test]
fn unknown_format_fails_before_anything_is_parsed() {
    let unparsable = document("![alt](picture.png)\n");
    assert_eq!(
        plan_export(Some(&unparsable), 7, "xml"),
        Err("Unsupported format: xml. Supported: html, pdf".to_string())
    );
    let fine = document("# Title\n");
    assert_eq!(
        plan_export(Some(&fine), 7, "xml"),
        Err("Unsupported format: xml. Supported: html, pdf".to_string())
    );
}

#[test]
fn html_export_writes_the_document() {
    let note = document("# Title\n\ntext\n");
    let expected = convert_markdown(&note.content, &ExportFormat::Html).unwrap();
    assert_eq!(plan_export(Some(&note), 7, "HTML"), Ok(ExportPlan::WriteHtml(expected)));
}

#[test]
fn pdf_export_prints_the_html_document() {
    let note = document("# Title\n\n```mermaid\ngraph TD; A-->B;\n```\n");
    let html = convert_markdown(&note.content, &ExportFormat::Html).unwrap();
    let expected = String::from_utf8(html).unwrap();
    assert_eq!(plan_export(Some(&note), 7, "pdf"), Ok(ExportPlan::RenderPdf(expected)));
}

#[test]
fn failed_conversion_is_the_result_for_either_format() {
    let note = document("![alt](picture.png)\n");
    for format in ["html", "pdf"] {
        let message = plan_export(Some(&note), 7, format).unwrap_err();
        assert!(message.starts_with("Failed to parse markdown: "), "{}", message);
    }
}

#[test]
fn plan_for_html_keeps_the_bytes() {
    assert_eq!(
        plan_for(ExportFormat::Html, vec![0xff, b'a']),
        ExportPlan::WriteHtml(vec![0xff, b'a'])
    );
}

#[test]
fn plan_for_pdf_takes_the_text_of_the_bytes() {
    assert_eq!(
        plan_for(ExportFormat::Pdf, "<p>gr\u{fc}n</p>".as_bytes().to_vec()),
        ExportPlan::RenderPdf("<p>gr\u{fc}n</p>".to_string())
    );
    assert_eq!(
        plan_for(ExportFormat::Pdf, vec![b'a', 0xff]),
        ExportPlan::RenderPdf("a\u{fffd}".to_string())
    );
}

#[test]
fn write_failure_names_the_cause() {
    assert_eq!(write_failure("Permission denied (os error 13)"), "Failed to write file: Permission denied (os error 13)");
}
