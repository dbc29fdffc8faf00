use markdown_ui::convert::convert_markdown;
use markdown_ui::format::ExportFormat;

const LINES: [&str; 24] = [
    "- a",
    "  - b",
    "    - c",
    "      - d",
    "# h",
    "",
    "text",
    "1. x",
    "   1. y",
    "> q",
    "  > - z",
    "- [l](u)",
    "  [l](u) tail",
    "- # h",
    "  more",
    "-",
    "  -",
    "| a | b |",
    "|---|---|",
    "```",
    "  ```",
    "* * *",
    "- - a",
    "<div>x</div>",
];

fn converts(document: &str) {
    match convert_markdown(document, &ExportFormat::Html) {
        Ok(bytes) => assert!(String::from_utf8(bytes).is_ok()),
        Err(message) => assert!(message.starts_with("Failed to "), "{}", message),
    }
}

#[test]
fn every_text_of_up_to_three_sample_lines_is_converted() {
    for a in LINES {
        converts(&format!("{}\n", a));
        for b in LINES {
            converts(&format!("{}\n{}\n", a, b));
            for c in LINES {
                converts(&format!("{}\n{}\n{}\n", a, b, c));
            }
        }
    }
}

#[test]
fn longer_texts_of_sample_lines_are_converted() {
    let mut seed: u64 = 0x2545F4914F6CDD1D;
    for _ in 0..3000 {
        let mut document = String::new();
        for _ in 0..8 {
            seed ^= seed << 13;
            seed ^= seed >> 7;
            seed ^= seed << 17;
            document.push_str(LINES[(seed % LINES.len() as u64) as usize]);
            document.push('\n');
        }
        converts(&document);
    }
}
