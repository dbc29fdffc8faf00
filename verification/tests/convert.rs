use markdown_ui::convert::{compose_export, convert_markdown, failure_message};
use markdown_ui::format::ExportFormat;
use markdown_ui::markdown::refuse_image;
use markdown_ui::template::HTML_TEMPLATE;

#[test]
fn html_export_of_document_with_diagram() {
    let content = "# Title\n\nSome text.\n\n```mermaid\ngraph TD; A-->B;\n```\n";
    let bytes = convert_markdown(content, &ExportFormat::Html).unwrap();
    let html = String::from_utf8(bytes).unwrap();
    assert!(html.contains("<title>Title</title>"));
    assert!(html.contains("<div class=\"mermaid\">\ngraph TD; A-->B;\n</div>"));
    assert!(!html.contains("MERMAID_DIAGRAM_PLACEHOLDER_"));
    assert!(html.contains("<h1>Title</h1>"));
    assert!(html.contains("<p>Some text.</p>"));
}

#[test]
fn html_export_is_a_complete_document() {
    let bytes = convert_markdown("plain\n", &ExportFormat::Html).unwrap();
    let html = String::from_utf8(bytes).unwrap();
    assert!(html.starts_with("<!DOCTYPE html>\n<html lang=\"en\">"));
    assert!(html.ends_with("</body>\n</html>"));
    assert!(html.contains("<title>Document</title>"));
    assert!(html.contains("<p>plain</p>"));
}

#[test]
fn html_export_is_the_same_every_time() {
    let content = "# A\n\n- one\n- two\n\n```mermaid\npie\n```\n";
    let first = convert_markdown(content, &ExportFormat::Html).unwrap();
    let second = convert_markdown(content, &ExportFormat::Html).unwrap();
    assert_eq!(first, second);
}

#[test]
fn pdf_is_not_made_from_markdown() {
    assert_eq!(
        convert_markdown("# Title\n", &ExportFormat::Pdf),
        Err("PDF format should be handled via convert_html_to_pdf".to_string())
    );
}

#[test]
fn document_with_image_is_refused_by_the_parser() {
    for format in [ExportFormat::Html, ExportFormat::Pdf] {
        let message = convert_markdown("text\n\n![alt](picture.png)\n", &format).unwrap_err();
        assert!(message.starts_with("Failed to parse markdown: "), "{}", message);
        assert!(message.contains("images are not supported: picture.png"), "{}", message);
    }
}

#[test]
fn image_is_refused_with_its_name() {
    assert_eq!(refuse_image("a/b.png"), Err("images are not supported: a/b.png".to_string()));
    assert_eq!(refuse_image(""), Err("images are not supported: ".to_string()));
}

#[test]
fn nested_lists_are_parsed() {
    let content = "- a\n  - b\n    - c\n  - d\n- e\n\n1. x\n2. y\n";
    let bytes = convert_markdown(content, &ExportFormat::Html).unwrap();
    let html = String::from_utf8(bytes).unwrap();
    assert!(html.contains("<ul>"));
    assert!(html.contains("<ol>"));
}

#[test]
fn failure_message_is_context_and_details() {
    assert_eq!(failure_message("Failed to parse markdown: ", "boom"), "Failed to parse markdown: boom");
    assert_eq!(failure_message("", ""), "");
}

#[test]
fn export_is_composed_of_title_body_and_diagrams() {
    let diagrams = vec!["graph TD;\n".to_string()];
    let bytes = compose_export(
        "intro\n# The Title\n",
        &diagrams,
        "<p>MERMAID_DIAGRAM_PLACEHOLDER_0</p>".as_bytes(),
    );
    let expected = HTML_TEMPLATE
        .replace("{{TITLE}}", "The Title")
        .replace("{{CONTENT}}", "<p><div class=\"mermaid\">\ngraph TD;\n</div></p>");
    assert_eq!(bytes, expected.into_bytes());
}

#[test]
fn bytes_that_are_no_text_become_the_replacement_character() {
    let bytes = compose_export("", &Vec::new(), &[b'a', 0xff, b'b', 0xc3]);
    let html = String::from_utf8(bytes).unwrap();
    assert!(html.contains("<body>\na\u{fffd}b\u{fffd}\n</body>"));
}

#[test]
fn text_in_bytes_is_kept() {
    let bytes = compose_export("", &Vec::new(), "gr\u{fc}n \u{1F600}".as_bytes());
    let html = String::from_utf8(bytes).unwrap();
    assert!(html.contains("<body>\ngr\u{fc}n \u{1F600}\n</body>"));
}

#[test]
fn failure_prefixes_name_the_stage() {
    assert_eq!(
        failure_message(markdown_ui::convert::PARSE_FAILURE, "x"),
        "Failed to parse markdown: x"
    );
    assert_eq!(
        failure_message(markdown_ui::convert::GENERATION_FAILURE, "x"),
        "Failed to generate HTML: x"
    );
}

#[test]
fn html_export_of_eleven_diagrams_holds_all_eleven() {
    let content: String = (0..11).map(|i| format!("```mermaid\nD{}\n```\n\n", i)).collect();
    let bytes = convert_markdown(&content, &ExportFormat::Html).unwrap();
    let html = String::from_utf8(bytes).unwrap();
    for i in 0..11 {
        let element = format!("<div class=\"mermaid\">\nD{}\n</div>", i);
        assert_eq!(html.matches(&element).count(), 1, "block {}", i);
    }
    assert!(!html.contains("MERMAID_DIAGRAM_PLACEHOLDER_"));
    let first = html.find("\nD0\n").unwrap();
    let last = html.find("\nD10\n").unwrap();
    assert!(first < last);
}
