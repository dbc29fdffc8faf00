use markdown_ui::diagram::extract_mermaid_blocks;
use markdown_ui::template::restore_diagrams;

fn strings(items: &[&str]) -> Vec<String> {
    items.iter().map(|s| s.to_string()).collect()
}

#[test]
fn text_without_fences_comes_back_unchanged() {
    let text = "# Title\n\nSome text.\n\n```rust\nfn main() {}\n```\n";
    let (processed, blocks) = extract_mermaid_blocks(text);
    assert_eq!(processed, text);
    assert!(blocks.is_empty());
}

#[test]
fn text_without_final_line_feed_gets_one() {
    let (processed, blocks) = extract_mermaid_blocks("a\nb");
    assert_eq!(processed, "a\nb\n");
    assert!(blocks.is_empty());
}

#[test]
fn empty_text_stays_empty() {
    let (processed, blocks) = extract_mermaid_blocks("");
    assert_eq!(processed, "");
    assert!(blocks.is_empty());
}

#[test]
fn carriage_return_before_line_feed_is_dropped() {
    let (processed, blocks) = extract_mermaid_blocks("a\r\nb\r\n");
    assert_eq!(processed, "a\nb\n");
    assert!(blocks.is_empty());
}

#[test]
fn one_block_gives_one_placeholder() {
    let (processed, blocks) = extract_mermaid_blocks("a\n```mermaid\ngraph TD; A-->B;\n```\nb\n");
    assert_eq!(processed, "a\nMERMAID_DIAGRAM_PLACEHOLDER_0\nb\n");
    assert_eq!(blocks, strings(&["graph TD; A-->B;\n"]));
}

#[test]
fn blocks_are_numbered_in_the_order_of_the_text() {
    let text = "```mermaid\none\n```\nx\n```mermaid\ntwo\nlines\n```\n```mermaid\n```\n";
    let (processed, blocks) = extract_mermaid_blocks(text);
    assert_eq!(
        processed,
        "MERMAID_DIAGRAM_PLACEHOLDER_0\nx\nMERMAID_DIAGRAM_PLACEHOLDER_1\nMERMAID_DIAGRAM_PLACEHOLDER_2\n"
    );
    assert_eq!(blocks, strings(&["one\n", "two\nlines\n", ""]));
    let placeholders: Vec<&str> =
        processed.lines().filter(|l| l.starts_with("MERMAID_DIAGRAM_PLACEHOLDER_")).collect();
    assert_eq!(placeholders.len(), 3);
    assert_ne!(placeholders[0], placeholders[1]);
    assert_ne!(placeholders[1], placeholders[2]);
    assert_ne!(placeholders[0], placeholders[2]);
}

#[test]
fn fences_may_have_whitespace_around_them() {
    let (processed, blocks) = extract_mermaid_blocks("  ```mermaid \t\n  a\n\t```  \n");
    assert_eq!(processed, "MERMAID_DIAGRAM_PLACEHOLDER_0\n");
    assert_eq!(blocks, strings(&["  a\n"]));
}

#[test]
fn fence_with_other_text_is_no_fence() {
    let text = "```mermaid x\na\n```\n";
    let (processed, blocks) = extract_mermaid_blocks(text);
    assert_eq!(processed, text);
    assert!(blocks.is_empty());
}

#[test]
fn unterminated_block_is_lost() {
    let (processed, blocks) = extract_mermaid_blocks("a\n```mermaid\ngraph TD;\nmore\n");
    assert_eq!(processed, "a\n");
    assert!(blocks.is_empty());
}

#[test]
fn opening_fence_inside_a_block_starts_the_block_again() {
    let (processed, blocks) = extract_mermaid_blocks("```mermaid\nold\n```mermaid\nnew\n```\n");
    assert_eq!(processed, "MERMAID_DIAGRAM_PLACEHOLDER_0\n");
    assert_eq!(blocks, strings(&["new\n"]));
}

#[test]
fn closing_fence_outside_a_block_is_kept() {
    let (processed, blocks) = extract_mermaid_blocks("```\ncode\n```\n```mermaid\nd\n```\n```\n");
    assert_eq!(processed, "```\ncode\n```\nMERMAID_DIAGRAM_PLACEHOLDER_0\n```\n");
    assert_eq!(blocks, strings(&["d\n"]));
}

#[test]
fn other_fence_inside_a_block_ends_it_only_when_bare() {
    let (processed, blocks) = extract_mermaid_blocks("```mermaid\n```js\nx\n```\ny\n");
    assert_eq!(processed, "MERMAID_DIAGRAM_PLACEHOLDER_0\ny\n");
    assert_eq!(blocks, strings(&["```js\nx\n"]));
}

#[test]
fn block_lines_lose_their_carriage_return() {
    let (processed, blocks) = extract_mermaid_blocks("```mermaid\r\na\r\n```\r\n");
    assert_eq!(processed, "MERMAID_DIAGRAM_PLACEHOLDER_0\n");
    assert_eq!(blocks, strings(&["a\n"]));
}

#[test]
fn twelve_blocks_get_the_numbers_zero_to_eleven() {
    let mut text = String::new();
    for i in 0..12 {
        text.push_str(&format!("```mermaid\nd{}\n```\n", i));
    }
    let (processed, blocks) = extract_mermaid_blocks(&text);
    let expected: Vec<String> =
        (0..12).map(|i| format!("MERMAID_DIAGRAM_PLACEHOLDER_{}", i)).collect();
    let lines: Vec<String> = processed.lines().map(|l| l.to_string()).collect();
    assert_eq!(lines, expected);
    assert_eq!(blocks.len(), 12);
    assert_eq!(blocks[11], "d11\n");
}

#[test]
fn round_trip_leaves_no_placeholder() {
    let text = "intro\n```mermaid\ngraph TD; A-->B;\n```\nmiddle\n```mermaid\n  pie\n```\nend\n";
    let (processed, blocks) = extract_mermaid_blocks(text);
    let restored = restore_diagrams(&processed, &blocks);
    assert!(!restored.contains("MERMAID_DIAGRAM_PLACEHOLDER_"));
    assert_eq!(
        restored,
        "intro\n<div class=\"mermaid\">\ngraph TD; A-->B;\n</div>\nmiddle\n<div class=\"mermaid\">\npie\n</div>\nend\n"
    );
}

#[test]
fn round_trip_of_twelve_blocks_puts_every_block_back() {
    let mut text = String::new();
    let mut expected = String::new();
    for i in 0..12 {
        text.push_str(&format!("```mermaid\nD{}\n```\n\n", i));
        expected.push_str(&format!("<div class=\"mermaid\">\nD{}\n</div>\n\n", i));
    }
    let (processed, blocks) = extract_mermaid_blocks(&text);
    let restored = restore_diagrams(&processed, &blocks);
    assert!(!restored.contains("MERMAID_DIAGRAM_PLACEHOLDER_"));
    for i in 0..12 {
        let element = format!("<div class=\"mermaid\">\nD{}\n</div>", i);
        assert_eq!(restored.matches(&element).count(), 1, "block {}", i);
    }
    assert_eq!(restored, expected);
}

#[test]
fn placeholder_of_block_ten_is_not_taken_for_that_of_block_one() {
    let blocks: Vec<String> = (0..11).map(|i| format!("{}", i)).collect();
    assert_eq!(
        restore_diagrams("MERMAID_DIAGRAM_PLACEHOLDER_10", &blocks),
        "<div class=\"mermaid\">\n10\n</div>"
    );
    assert_eq!(
        restore_diagrams("MERMAID_DIAGRAM_PLACEHOLDER_1|MERMAID_DIAGRAM_PLACEHOLDER_10", &blocks),
        "<div class=\"mermaid\">\n1\n</div>|<div class=\"mermaid\">\n10\n</div>"
    );
}
