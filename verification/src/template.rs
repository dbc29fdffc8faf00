//! The HTML document around a rendered body: a fixed template with the
//! stylesheet and the diagram script, the title and the body put into it, and
//! each diagram put back where its placeholder stands.

use crate::diagram::{placeholder, MERMAID_PLACEHOLDER};
use crate::text::{
    append_decimal, append_range, append_str, chars_of, replace, replace_all,
    string_of, texts, trim, trim_bounds,
};
use vstd::prelude::*;

verus! {

/// The document without title and body. The stylesheet is part of it; the
/// diagrams are drawn by a script that the document loads.
pub const HTML_TEMPLATE: &'static str = r#"<!DOCTYPE html>
<html lang="en">
<head>
    <meta charset="UTF-8">
    <meta name="viewport" content="width=device-width, initial-scale=1.0">
    <title>{{TITLE}}</title>
    <style>
        :root {
            --bg-color: #ffffff;
            --text-color: #24292e;
            --code-bg: #f6f8fa;
            --border-color: #e1e4e8;
            --link-color: #0366d6;
            --heading-color: #24292e;
        }
        
        * {
            box-sizing: border-box;
        }
        
        body {
            font-family: -apple-system, BlinkMacSystemFont, 'Segoe UI', Helvetica, Arial, sans-serif;
            font-size: 16px;
            line-height: 1.6;
            color: var(--text-color);
            background-color: var(--bg-color);
            max-width: 900px;
            margin: 0 auto;
            padding: 40px 20px;
        }
        
        h1, h2, h3, h4, h5, h6 {
            color: var(--heading-color);
            margin-top: 24px;
            margin-bottom: 16px;
            font-weight: 600;
            line-height: 1.25;
            border-bottom: 1px solid var(--border-color);
            padding-bottom: 0.3em;
        }
        
        h1 { font-size: 2em; }
        h2 { font-size: 1.5em; }
        h3 { font-size: 1.25em; border-bottom: none; }
        h4, h5, h6 { border-bottom: none; }
        
        p {
            margin-top: 0;
            margin-bottom: 16px;
        }
        
        a {
            color: var(--link-color);
            text-decoration: none;
        }
        
        a:hover {
            text-decoration: underline;
        }
        
        code {
            font-family: 'SFMono-Regular', Consolas, 'Liberation Mono', Menlo, monospace;
            font-size: 85%;
            background-color: var(--code-bg);
            padding: 0.2em 0.4em;
            border-radius: 6px;
        }
        
        pre {
            font-family: 'SFMono-Regular', Consolas, 'Liberation Mono', Menlo, monospace;
            font-size: 85%;
            background-color: var(--code-bg);
            padding: 16px;
            overflow: auto;
            border-radius: 6px;
            line-height: 1.45;
        }
        
        pre code {
            background-color: transparent;
            padding: 0;
            border-radius: 0;
        }
        
        blockquote {
            margin: 0 0 16px 0;
            padding: 0 1em;
            color: #6a737d;
            border-left: 4px solid var(--border-color);
        }
        
        ul, ol {
            margin-top: 0;
            margin-bottom: 16px;
            padding-left: 2em;
        }
        
        li + li {
            margin-top: 0.25em;
        }
        
        table {
            border-collapse: collapse;
            width: 100%;
            margin-bottom: 16px;
        }
        
        table th, table td {
            padding: 8px 13px;
            border: 1px solid var(--border-color);
        }
        
        table th {
            background-color: var(--code-bg);
            font-weight: 600;
        }
        
        table tr:nth-child(even) {
            background-color: #f6f8fa;
        }
        
        hr {
            border: 0;
            height: 1px;
            background-color: var(--border-color);
            margin: 24px 0;
        }
        
        img {
            max-width: 100%;
            height: auto;
        }
        
        /* Task list styling */
        input[type="checkbox"] {
            margin-right: 0.5em;
        }
        
        /* Mermaid diagram styling */
        .mermaid {
            text-align: center;
            margin: 16px 0;
            background-color: var(--code-bg);
            padding: 16px;
            border-radius: 6px;
        }
        
        @media print {
            body {
                max-width: none;
                padding: 20px;
            }
        }
        
        @media (prefers-color-scheme: dark) {
            :root {
                --bg-color: #0d1117;
                --text-color: #c9d1d9;
                --code-bg: #161b22;
                --border-color: #30363d;
                --link-color: #58a6ff;
                --heading-color: #c9d1d9;
            }
            
            table tr:nth-child(even) {
                background-color: #161b22;
            }
        }
    </style>
    <!-- Mermaid.js for diagram rendering -->
    <script src="https://cdn.jsdelivr.net/npm/mermaid@10/dist/mermaid.min.js"></script>
    <script>
        document.addEventListener('DOMContentLoaded', function() {
            // Detect dark mode
            const isDark = window.matchMedia && window.matchMedia('(prefers-color-scheme: dark)').matches;
            mermaid.initialize({
                startOnLoad: true,
                theme: isDark ? 'dark' : 'default',
                securityLevel: 'loose'
            });
        });
    </script>
</head>
<body>
{{CONTENT}}
</body>
</html>"#;

/// Where the title goes in the template.
pub const TITLE_MARKER: &'static str = "{{TITLE}}";

/// Where the body goes in the template.
pub const CONTENT_MARKER: &'static str = "{{CONTENT}}";

/// What stands before a diagram's source in the document.
pub const DIAGRAM_OPEN: &'static str = "<div class=\"mermaid\">\n";

/// What stands behind a diagram's source in the document.
pub const DIAGRAM_CLOSE: &'static str = "\n</div>";

/// The element that holds the diagram with the source `source`: the source
/// without the whitespace around it, between the opening and the closing tag.
pub open spec fn diagram_markup(source: Seq<char>) -> Seq<char> {
    DIAGRAM_OPEN@ + trim(source) + DIAGRAM_CLOSE@
}

/// `body` after the first `count` blocks were put back, from the highest
/// index down: each step replaces every occurrence of one block's placeholder
/// by that block's element. The order matters: the placeholder of block 1 is
/// the beginning of that of block 10, which therefore goes first.
pub open spec fn restored_below(body: Seq<char>, blocks: Seq<Seq<char>>, count: nat) -> Seq<char>
    decreases count,
{
    if count == 0 || count > blocks.len() {
        body
    } else {
        restored_below(
            replace_all(
                body,
                placeholder((count - 1) as nat),
                diagram_markup(blocks[count - 1]),
            ),
            blocks,
            (count - 1) as nat,
        )
    }
}

/// `body` with every block of `blocks` put back.
pub open spec fn restored(body: Seq<char>, blocks: Seq<Seq<char>>) -> Seq<char> {
    restored_below(body, blocks, blocks.len())
}

/// The document with the title `title` and the body `body`, into which the
/// diagrams `blocks` were put back: first the title takes the place of every
/// title marker of the template, then the body that of every content marker of
/// the result. Title and body go in as they are, without escaping.
pub open spec fn composed(title: Seq<char>, body: Seq<char>, blocks: Seq<Seq<char>>) -> Seq<char> {
    replace_all(
        replace_all(HTML_TEMPLATE@, TITLE_MARKER@, title),
        CONTENT_MARKER@,
        restored(body, blocks),
    )
}

/// Puts each diagram of `diagrams` back into `body`, where its placeholder
/// stands.
pub fn restore_diagrams_in(body: Vec<char>, diagrams: &Vec<String>) -> (out: Vec<char>)
    ensures
        out@ == restored(body@, texts(diagrams@)),
{
    let mut current = body;
    let mut i: usize = diagrams.len();
    while i > 0
        invariant
            i <= diagrams.len(),
            restored_below(current@, texts(diagrams@), i as nat) == restored(
                body@,
                texts(diagrams@),
            ),
        decreases i,
    {
        i -= 1;
        let mut pattern: Vec<char> = Vec::new();
        append_str(&mut pattern, MERMAID_PLACEHOLDER);
        append_decimal(&mut pattern, i as u64);
        let source = chars_of(diagrams[i].as_str());
        let (a, b) = trim_bounds(source.as_slice(), 0, source.len());
        let mut markup: Vec<char> = Vec::new();
        append_str(&mut markup, DIAGRAM_OPEN);
        append_range(&mut markup, source.as_slice(), a, b);
        append_str(&mut markup, DIAGRAM_CLOSE);
        proof {
            assert(source@.subrange(0, source.len() as int) == source@);
            assert(texts(diagrams@)[i as int] == source@);
            assert(pattern@ == placeholder(i as nat));
            assert(markup@ == diagram_markup(source@));
        }
        current = replace(current.as_slice(), pattern.as_slice(), markup.as_slice());
    }
    current
}

/// `body_html` with each diagram of `diagrams` put back where its placeholder
/// stands: the diagram at index `i` takes the place of the placeholder with
/// the number `i`.
pub fn restore_diagrams(body_html: &str, diagrams: &Vec<String>) -> (out: String)
    ensures
        out@ == restored(body_html@, texts(diagrams@)),
{
    let out = restore_diagrams_in(chars_of(body_html), diagrams);
    string_of(out.as_slice())
}

/// The complete HTML document with the title `title` and the body
/// `body_html`, into which the diagrams of `diagrams` were put back.
pub fn compose_document(title: &str, body_html: &str, diagrams: &Vec<String>) -> (out: String)
    ensures
        out@ == composed(title@, body_html@, texts(diagrams@)),
{
    let body = restore_diagrams_in(chars_of(body_html), diagrams);
    let template = chars_of(HTML_TEMPLATE);
    let title_marker = chars_of(TITLE_MARKER);
    let content_marker = chars_of(CONTENT_MARKER);
    let title_chars = chars_of(title);
    let titled = replace(template.as_slice(), title_marker.as_slice(), title_chars.as_slice());
    let styled = replace(titled.as_slice(), content_marker.as_slice(), body.as_slice());
    string_of(styled.as_slice())
}

} // verus!
