use markdown_ui::template::{compose_document, restore_diagrams, HTML_TEMPLATE};

fn strings(items: &[&str]) -> Vec<String> {
    items.iter().map(|s| s.to_string()).collect()
}

#[test]
fn document_holds_title_and_body_in_the_template() {
    let doc = compose_document("My Title", "<p>Hello</p>", &Vec::new());
    assert_eq!(
        doc,
        HTML_TEMPLATE.replace("{{TITLE}}", "My Title").replace("{{CONTENT}}", "<p>Hello</p>")
    );
    assert!(doc.starts_with("<!DOCTYPE html>\n<html lang=\"en\">\n<head>\n"));
    assert!(doc.contains("<title>My Title</title>"));
    assert!(doc.ends_with("</head>\n<body>\n<p>Hello</p>\n</body>\n</html>"));
    assert!(!doc.contains("{{TITLE}}"));
    assert!(!doc.contains("{{CONTENT}}"));
}

#[test]
fn document_brings_its_styles_and_the_diagram_script() {
    let doc = compose_document("t", "b", &Vec::new());
    assert!(doc.contains("<style>"));
    assert!(doc.contains("@media (prefers-color-scheme: dark)"));
    assert!(doc.contains("https://cdn.jsdelivr.net/npm/mermaid@10/dist/mermaid.min.js"));
    assert!(doc.contains("theme: isDark ? 'dark' : 'default'"));
    assert!(!doc.contains("<link"));
}

#[test]
fn title_goes_in_without_escaping() {
    let doc = compose_document("a < b & c", "", &Vec::new());
    assert!(doc.contains("<title>a < b & c</title>"));
}

#[test]
fn title_is_put_in_before_the_body() {
    let doc = compose_document("{{CONTENT}}", "B", &Vec::new());
    assert!(doc.contains("<title>B</title>"));
    let doc = compose_document("T", "{{TITLE}}", &Vec::new());
    assert!(doc.contains("<body>\n{{TITLE}}\n</body>"));
}

#[test]
fn diagram_is_put_back_without_the_whitespace_around_its_source() {
    let body = "<p>MERMAID_DIAGRAM_PLACEHOLDER_0</p>";
    let out = restore_diagrams(body, &strings(&["\n  graph TD; A-->B;  \n\n"]));
    assert_eq!(out, "<p><div class=\"mermaid\">\ngraph TD; A-->B;\n</div></p>");
}

#[test]
fn every_occurrence_of_a_placeholder_is_replaced() {
    let body = "MERMAID_DIAGRAM_PLACEHOLDER_0 and MERMAID_DIAGRAM_PLACEHOLDER_0";
    let out = restore_diagrams(body, &strings(&["x"]));
    assert_eq!(
        out,
        "<div class=\"mermaid\">\nx\n</div> and <div class=\"mermaid\">\nx\n</div>"
    );
}

#[test]
fn each_diagram_goes_where_its_own_placeholder_stands() {
    let body = "MERMAID_DIAGRAM_PLACEHOLDER_1|MERMAID_DIAGRAM_PLACEHOLDER_0";
    let out = restore_diagrams(body, &strings(&["a", "b"]));
    assert_eq!(out, "<div class=\"mermaid\">\nb\n</div>|<div class=\"mermaid\">\na\n</div>");
}

#[test]
fn placeholder_without_a_diagram_stays() {
    let body = "MERMAID_DIAGRAM_PLACEHOLDER_3";
    assert_eq!(restore_diagrams(body, &strings(&["a"])), body);
    assert_eq!(restore_diagrams(body, &Vec::new()), body);
}

#[test]
fn document_with_diagram_holds_the_diagram_element() {
    let doc = compose_document(
        "T",
        "<p>MERMAID_DIAGRAM_PLACEHOLDER_0</p>\n",
        &strings(&["graph TD; A-->B;\n"]),
    );
    assert!(doc.contains("<p><div class=\"mermaid\">\ngraph TD; A-->B;\n</div></p>"));
    assert!(!doc.contains("MERMAID_DIAGRAM_PLACEHOLDER_"));
}

#[test]
fn framed_body_in_a_title_with_the_content_marker_makes_no_placeholder() {
    let doc = compose_document("MERMAID_DIAGRAM_{{CONTENT}}", "<p>PLACEHOLDER_</p>", &Vec::new());
    assert!(doc.contains("<title>MERMAID_DIAGRAM_<p>PLACEHOLDER_</p></title>"));
    assert!(!doc.contains("MERMAID_DIAGRAM_PLACEHOLDER_"));
}

#[test]
fn unframed_body_in_a_title_with_the_content_marker_can_make_the_prefix() {
    let doc = compose_document("MERMAID_DIAGRAM_{{CONTENT}}", "PLACEHOLDER_", &Vec::new());
    assert!(doc.contains("<title>MERMAID_DIAGRAM_PLACEHOLDER_</title>"));
}
