use markdown_ui::title::extract_title;

#[test]
fn title_is_the_first_heading_of_level_one() {
    assert_eq!(extract_title("# Hello World\nbody text"), "Hello World");
}

#[test]
fn text_without_heading_has_the_default_title() {
    assert_eq!(extract_title("body text\nmore"), "Document");
    assert_eq!(extract_title(""), "Document");
}

#[test]
fn heading_of_level_two_gives_no_title() {
    assert_eq!(extract_title("## Section\ntext"), "Document");
    assert_eq!(extract_title("## Section\n# Main\n"), "Main");
    assert_eq!(extract_title("### Deep\n## Section\n"), "Document");
}

#[test]
fn later_headings_of_level_one_are_ignored() {
    assert_eq!(extract_title("text\n# First\n# Second\n"), "First");
}

#[test]
fn whitespace_around_heading_and_title_is_dropped() {
    assert_eq!(extract_title("   #    Spaced out  \t\n"), "Spaced out");
    assert_eq!(extract_title("# Title\r\nbody"), "Title");
    assert_eq!(extract_title("#\tTab"), "Document");
}

#[test]
fn heading_needs_a_space_and_a_text_behind_it() {
    assert_eq!(extract_title("#NoSpace\n"), "Document");
    assert_eq!(extract_title("# \n"), "Document");
    assert_eq!(extract_title("#\n# Real"), "Real");
    assert_eq!(extract_title("# # Nested"), "# Nested");
}

#[test]
fn heading_inside_a_diagram_block_counts_too() {
    assert_eq!(extract_title("```mermaid\n# In block\n```\n# After"), "In block");
}
