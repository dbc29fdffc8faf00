//! The shape of the document: where title and body stand in it, and that no
//! placeholder is left in it.

use crate::convert::html_document;
use crate::diagram::{diagram_sources, MERMAID_PLACEHOLDER};
use crate::markdown::lossy_text;
use crate::roundtrip::{
    holds_only_placeholders, is_framed, is_name_char, lemma_every_placeholder_is_replaced,
    lemma_prefix_is_a_name, lemma_replaced_stays_clean, lemma_restored_is_framed,
    lemma_round_trip_leaves_no_placeholder, sources_are_clean,
};
use crate::template::{composed, restored, CONTENT_MARKER, HTML_TEMPLATE, TITLE_MARKER};
use crate::text::{
    contains, lemma_occurs_in_part, lemma_part_of_part, lemma_replace_concat,
    lemma_replace_nothing, lemma_replace_single, lemma_replace_whole, none_across, occurs_at,
    replace_all,
};
use crate::title::{lemma_title_is_part_or_default, title_of, DEFAULT_TITLE};
use vstd::prelude::*;

verus! {

/// Where the title marker stands in the template.
pub open spec fn title_marker_at() -> int {
    153
}

/// Where the content marker stands in the template.
pub open spec fn content_marker_at() -> int {
    4941
}

/// The template before the title marker.
pub open spec fn head() -> Seq<char> {
    HTML_TEMPLATE@.take(title_marker_at())
}

/// The template between the title marker and the content marker.
pub open spec fn middle() -> Seq<char> {
    HTML_TEMPLATE@.subrange(title_marker_at() + TITLE_MARKER@.len(), content_marker_at())
}

/// The template behind the content marker.
pub open spec fn tail() -> Seq<char> {
    HTML_TEMPLATE@.skip(content_marker_at() + CONTENT_MARKER@.len())
}

/// Whether two opening braces stand at index `i` of `s`, one behind the other.
pub open spec fn braces_at(s: Seq<char>, i: int) -> bool {
    0 <= i < s.len() - 1 && s[i] == '{' && s[i + 1] == '{'
}

/// Whether the first two letters of the placeholder prefix stand at index `i`
/// of `s`.
pub open spec fn prefix_begins_at(s: Seq<char>, i: int) -> bool {
    0 <= i < s.len() - 1 && s[i] == 'M' && s[i + 1] == 'E'
}

/// What the template holds: two opening braces only where the two markers
/// stand, the first letters of the placeholder prefix nowhere, and around the
/// markers the end of a tag or a line.
#[verifier::rlimit(50)]
pub proof fn lemma_template_chars()
    ensures
        HTML_TEMPLATE@.len() == 4968,
        forall|i: int| #[trigger]
            braces_at(HTML_TEMPLATE@, i) ==> i == title_marker_at() || i == content_marker_at(),
        forall|i: int| !prefix_begins_at(HTML_TEMPLATE@, i),
        braces_at(HTML_TEMPLATE@, title_marker_at()),
        braces_at(HTML_TEMPLATE@, content_marker_at()),
        HTML_TEMPLATE@[title_marker_at() - 1] == '>',
        HTML_TEMPLATE@[title_marker_at() + 9] == '<',
        HTML_TEMPLATE@[content_marker_at() - 1] == '\n',
        HTML_TEMPLATE@[content_marker_at() + 11] == '\n',
        HTML_TEMPLATE@.subrange(title_marker_at() + 2, title_marker_at() + 9) == seq![
            'T',
            'I',
            'T',
            'L',
            'E',
            '}',
            '}',
        ],
        HTML_TEMPLATE@.subrange(content_marker_at() + 2, content_marker_at() + 11) == seq![
            'C',
            'O',
            'N',
            'T',
            'E',
            'N',
            'T',
            '}',
            '}',
        ],
{
    reveal_strlit(r#"<!DOCTYPE html>
<html lang="en">
<head>
    <meta charset="UTF-8">
    <meta name="viewport" content="width=device-width, initial-scale=1.0">
    <title>{{TITLE}}</title>
    <style>
        :root {
            --bg-color: #ffffff;
            --text-color: #24292e;
            --code-bg: #f6f8fa;
            --border-color: #e1e4e8;
            --link-color: #0366d6;
            --heading-color: #24292e;
        }
        
        * {
            box-sizing: border-box;
        }
        
        body {
            font-family: -apple-system, BlinkMacSystemFont, 'Segoe UI', Helvetica, Arial, sans-serif;
            font-size: 16px;
            line-height: 1.6;
            color: var(--text-color);
            background-color: var(--bg-color);
            max-width: 900px;
            margin: 0 auto;
            padding: 40px 20px;
        }
        
        h1, h2, h3, h4, h5, h6 {
            color: var(--heading-color);
            margin-top: 24px;
            margin-bottom: 16px;
            font-weight: 600;
            line-height: 1.25;
            border-bottom: 1px solid var(--border-color);
            padding-bottom: 0.3em;
        }
        
        h1 { font-size: 2em; }
        h2 { font-size: 1.5em; }
        h3 { font-size: 1.25em; border-bottom: none; }
        h4, h5, h6 { border-bottom: none; }
        
        p {
            margin-top: 0;
            margin-bottom: 16px;
        }
        
        a {
            color: var(--link-color);
            text-decoration: none;
        }
        
        a:hover {
            text-decoration: underline;
        }
        
        code {
            font-family: 'SFMono-Regular', Consolas, 'Liberation Mono', Menlo, monospace;
            font-size: 85%;
            background-color: var(--code-bg);
            padding: 0.2em 0.4em;
            border-radius: 6px;
        }
        
        pre {
            font-family: 'SFMono-Regular', Consolas, 'Liberation Mono', Menlo, monospace;
            font-size: 85%;
            background-color: var(--code-bg);
            padding: 16px;
            overflow: auto;
            border-radius: 6px;
            line-height: 1.45;
        }
        
        pre code {
            background-color: transparent;
            padding: 0;
            border-radius: 0;
        }
        
        blockquote {
            margin: 0 0 16px 0;
            padding: 0 1em;
            color: #6a737d;
            border-left: 4px solid var(--border-color);
        }
        
        ul, ol {
            margin-top: 0;
            margin-bottom: 16px;
            padding-left: 2em;
        }
        
        li + li {
            margin-top: 0.25em;
        }
        
        table {
            border-collapse: collapse;
            width: 100%;
            margin-bottom: 16px;
        }
        
        table th, table td {
            padding: 8px 13px;
            border: 1px solid var(--border-color);
        }
        
        table th {
            background-color: var(--code-bg);
            font-weight: 600;
        }
        
        table tr:nth-child(even) {
            background-color: #f6f8fa;
        }
        
        hr {
            border: 0;
            height: 1px;
            background-color: var(--border-color);
            margin: 24px 0;
        }
        
        img {
            max-width: 100%;
            height: auto;
        }
        
        /* Task list styling */
        input[type="checkbox"] {
            margin-right: 0.5em;
        }
        
        /* Mermaid diagram styling */
        .mermaid {
            text-align: center;
            margin: 16px 0;
            background-color: var(--code-bg);
            padding: 16px;
            border-radius: 6px;
        }
        
        @media print {
            body {
                max-width: none;
                padding: 20px;
            }
        }
        
        @media (prefers-color-scheme: dark) {
            :root {
                --bg-color: #0d1117;
                --text-color: #c9d1d9;
                --code-bg: #161b22;
                --border-color: #30363d;
                --link-color: #58a6ff;
                --heading-color: #c9d1d9;
            }
            
            table tr:nth-child(even) {
                background-color: #161b22;
            }
        }
    </style>
    <!-- Mermaid.js for diagram rendering -->
    <script src="https://cdn.jsdelivr.net/npm/mermaid@10/dist/mermaid.min.js"></script>
    <script>
        document.addEventListener('DOMContentLoaded', function() {
            // Detect dark mode
            const isDark = window.matchMedia && window.matchMedia('(prefers-color-scheme: dark)').matches;
            mermaid.initialize({
                startOnLoad: true,
                theme: isDark ? 'dark' : 'default',
                securityLevel: 'loose'
            });
        });
    </script>
</head>
<body>
{{CONTENT}}
</body>
</html>"#);
}

/// The two markers: what they are made of.
pub proof fn lemma_markers()
    ensures
        TITLE_MARKER@ == seq!['{', '{', 'T', 'I', 'T', 'L', 'E', '}', '}'],
        CONTENT_MARKER@ == seq!['{', '{', 'C', 'O', 'N', 'T', 'E', 'N', 'T', '}', '}'],
{
    reveal_strlit("{{TITLE}}");
    reveal_strlit("{{CONTENT}}");
    assert(TITLE_MARKER@ =~= seq!['{', '{', 'T', 'I', 'T', 'L', 'E', '}', '}']);
    assert(CONTENT_MARKER@ =~= seq!['{', '{', 'C', 'O', 'N', 'T', 'E', 'N', 'T', '}', '}']);
}

/// A text that holds two opening braces nowhere holds no marker.
pub proof fn lemma_no_braces_no_marker(s: Seq<char>)
    requires
        forall|i: int| !braces_at(s, i),
    ensures
        !contains(s, TITLE_MARKER@),
        !contains(s, CONTENT_MARKER@),
{
    lemma_markers();
    assert forall|at: int| !occurs_at(s, TITLE_MARKER@, at) by {
        if occurs_at(s, TITLE_MARKER@, at) {
            let found = s.subrange(at, at + 9);
            assert(found[0] == s[at] && found[1] == s[at + 1]);
            assert(braces_at(s, at));
        }
    }
    assert forall|at: int| !occurs_at(s, CONTENT_MARKER@, at) by {
        if occurs_at(s, CONTENT_MARKER@, at) {
            let found = s.subrange(at, at + 11);
            assert(found[0] == s[at] && found[1] == s[at + 1]);
            assert(braces_at(s, at));
        }
    }
}

/// The template is its head, the title marker, its middle, the content
/// marker, and its tail; and neither head, middle nor tail holds two opening
/// braces.
pub proof fn lemma_template_parts()
    ensures
        HTML_TEMPLATE@ == head() + TITLE_MARKER@ + middle() + CONTENT_MARKER@ + tail(),
        forall|i: int| !braces_at(head(), i),
        forall|i: int| !braces_at(middle(), i),
        forall|i: int| !braces_at(tail(), i),
        forall|i: int| !braces_at(middle() + CONTENT_MARKER@ + tail(), i) || i == middle().len(),
        head().len() > 0 && head().last() == '>',
        middle().len() > 0 && middle()[0] == '<' && middle().last() == '\n',
        tail().len() > 0 && tail()[0] == '\n',
{
    lemma_template_chars();
    lemma_markers();
    let t = HTML_TEMPLATE@;
    let k1 = title_marker_at();
    let k2 = content_marker_at();
    assert(t.subrange(k1, k1 + 9) =~= TITLE_MARKER@) by {
        assert forall|i: int| 0 <= i < 9 implies t.subrange(k1, k1 + 9)[i] == TITLE_MARKER@[i] by {
            if i >= 2 {
                assert(t.subrange(k1 + 2, k1 + 9)[i - 2] == t[k1 + i]);
            }
        }
    }
    assert(t.subrange(k2, k2 + 11) =~= CONTENT_MARKER@) by {
        assert forall|i: int| 0 <= i < 11 implies t.subrange(k2, k2 + 11)[i] == CONTENT_MARKER@[i] by {
            if i >= 2 {
                assert(t.subrange(k2 + 2, k2 + 11)[i - 2] == t[k2 + i]);
            }
        }
    }
    assert(t =~= head() + TITLE_MARKER@ + middle() + CONTENT_MARKER@ + tail());
    assert forall|i: int| !braces_at(head(), i) by {
        if braces_at(head(), i) {
            assert(braces_at(t, i));
        }
    }
    assert forall|i: int| !braces_at(middle(), i) by {
        if braces_at(middle(), i) {
            assert(braces_at(t, i + k1 + 9));
        }
    }
    assert forall|i: int| !braces_at(tail(), i) by {
        if braces_at(tail(), i) {
            assert(braces_at(t, i + k2 + 11));
        }
    }
    let rest = middle() + CONTENT_MARKER@ + tail();
    assert(rest =~= t.skip(k1 + 9));
    assert forall|i: int| !braces_at(rest, i) || i == middle().len() by {
        if braces_at(rest, i) {
            assert(braces_at(t, i + k1 + 9));
        }
    }
}

/// The title takes the place of the title marker, and nothing else of the
/// template is changed.
pub proof fn lemma_title_goes_in(title: Seq<char>)
    ensures
        replace_all(HTML_TEMPLATE@, TITLE_MARKER@, title) == head() + title + (middle()
            + CONTENT_MARKER@ + tail()),
{
    lemma_template_parts();
    lemma_markers();
    let tm = TITLE_MARKER@;
    let cm = CONTENT_MARKER@;
    let rest = middle() + cm + tail();
    let t = head() + tm + rest;
    assert(HTML_TEMPLATE@ == t);
    assert forall|i: int| 0 <= i < head().len() implies !occurs_at(t, tm, i) by {
        if occurs_at(t, tm, i) {
            let found = t.subrange(i, i + 9);
            assert(found[0] == t[i] && found[1] == t[i + 1]);
            if i + 1 < head().len() {
                assert(t[i] == head()[i] && t[i + 1] == head()[i + 1]);
                assert(braces_at(head(), i));
            } else {
                assert(t[i] == head().last());
            }
        }
    }
    assert(!contains(rest, tm)) by {
        assert forall|at: int| !occurs_at(rest, tm, at) by {
            if occurs_at(rest, tm, at) {
                let found = rest.subrange(at, at + 9);
                assert(found[0] == rest[at] && found[1] == rest[at + 1] && found[2] == rest[at
                    + 2]);
                assert(braces_at(rest, at));
                assert(rest[middle().len() as int + 2] == cm[2]);
            }
        }
    }
    lemma_replace_single(head(), tm, rest, title);
}

/// No occurrence of the content marker lies across a place where on one
/// side stands the end of a tag or a line.
pub proof fn lemma_marker_not_across(a: Seq<char>, b: Seq<char>)
    requires
        (a.len() > 0 && (a.last() == '>' || a.last() == '\n')) || (b.len() > 0 && (b[0] == '<'
            || b[0] == '\n')),
    ensures
        none_across(a, b, CONTENT_MARKER@),
{
    lemma_markers();
    let cm = CONTENT_MARKER@;
    let n = cm.len() as int;
    assert forall|at: int| #[trigger] occurs_at(a + b, cm, at) implies at + n <= a.len() || at
        >= a.len() by {
        if at < a.len() && at + n > a.len() {
            let found = (a + b).subrange(at, at + n);
            assert(found[a.len() - 1 - at] == a.last());
            assert(found[a.len() - at] == b[0]);
        }
    }
}

/// The document in parts: the head of the template, the title, the middle of
/// the template, the body, and the tail of the template. If the title holds
/// the content marker, the body stands in the title too, in place of the
/// marker.
pub proof fn lemma_document_shape(title: Seq<char>, body: Seq<char>)
    ensures
        replace_all(replace_all(HTML_TEMPLATE@, TITLE_MARKER@, title), CONTENT_MARKER@, body)
            == head() + replace_all(title, CONTENT_MARKER@, body) + middle() + body + tail(),
        !contains(title, CONTENT_MARKER@) ==> replace_all(
            replace_all(HTML_TEMPLATE@, TITLE_MARKER@, title),
            CONTENT_MARKER@,
            body,
        ) == head() + title + middle() + body + tail(),
{
    lemma_template_parts();
    lemma_markers();
    lemma_title_goes_in(title);
    let cm = CONTENT_MARKER@;
    let a = head() + title;
    let b = a + middle();
    let c = b + cm;
    let x = c + tail();
    assert(x == head() + title + (middle() + cm + tail()));
    assert(b.last() == middle().last());
    lemma_marker_not_across(head(), title);
    lemma_marker_not_across(a, middle());
    lemma_marker_not_across(b, cm);
    lemma_marker_not_across(c, tail());
    lemma_replace_concat(c, tail(), cm, body);
    lemma_replace_concat(b, cm, cm, body);
    lemma_replace_concat(a, middle(), cm, body);
    lemma_replace_concat(head(), title, cm, body);
    lemma_no_braces_no_marker(head());
    lemma_no_braces_no_marker(middle());
    lemma_no_braces_no_marker(tail());
    lemma_replace_nothing(head(), cm, body);
    lemma_replace_nothing(middle(), cm, body);
    lemma_replace_nothing(tail(), cm, body);
    lemma_replace_whole(cm, body);
    if !contains(title, cm) {
        lemma_replace_nothing(title, cm, body);
    }
}

/// Whether the placeholder prefix cannot lie across the place where `a` ends
/// and `b` begins: one of the two is empty, or `a` ends or `b` begins with a
/// character that the prefix does not hold.
pub open spec fn joint_is_safe(a: Seq<char>, b: Seq<char>) -> bool {
    a.len() == 0 || b.len() == 0 || !is_name_char(a.last()) || !is_name_char(b[0])
}

/// Two texts without the placeholder prefix, one behind the other, hold the
/// prefix nowhere if it cannot lie across the place where they meet.
pub proof fn lemma_joined_is_clean(a: Seq<char>, b: Seq<char>)
    requires
        !contains(a, MERMAID_PLACEHOLDER@),
        !contains(b, MERMAID_PLACEHOLDER@),
        joint_is_safe(a, b),
    ensures
        !contains(a + b, MERMAID_PLACEHOLDER@),
{
    lemma_prefix_is_a_name();
    let p = MERMAID_PLACEHOLDER@;
    let len = p.len() as int;
    let all = a + b;
    assert forall|at: int| !occurs_at(all, p, at) by {
        if occurs_at(all, p, at) {
            let found = all.subrange(at, at + len);
            let cut = a.len() as int;
            if at + len <= cut {
                assert(found == a.subrange(at, at + len));
                assert(occurs_at(a, p, at));
            } else if at >= cut {
                assert(found == b.subrange(at - cut, at - cut + len));
                assert(occurs_at(b, p, at - cut));
            } else {
                assert(found[cut - 1 - at] == a.last());
                assert(found[cut - at] == b[0]);
                assert(is_name_char(p[cut - 1 - at]) && is_name_char(p[cut - at]));
            }
        }
    }
}

/// A part of the template does not hold the placeholder prefix.
pub proof fn lemma_template_part_is_clean(from: int, to: int)
    requires
        0 <= from <= to <= HTML_TEMPLATE@.len(),
    ensures
        !contains(HTML_TEMPLATE@.subrange(from, to), MERMAID_PLACEHOLDER@),
{
    lemma_template_chars();
    reveal_strlit("MERMAID_DIAGRAM_PLACEHOLDER_");
    let t = HTML_TEMPLATE@;
    let p = MERMAID_PLACEHOLDER@;
    assert forall|at: int| !occurs_at(t.subrange(from, to), p, at) by {
        if occurs_at(t.subrange(from, to), p, at) {
            lemma_occurs_in_part(t, from, to, p, at);
            let found = t.subrange(from + at, from + at + p.len());
            assert(found[0] == t[from + at] && found[1] == t[from + at + 1]);
            assert(p[0] == 'M' && p[1] == 'E');
            assert(prefix_begins_at(t, from + at));
        }
    }
}

/// No placeholder is left in the document: if the placeholder prefix occurs
/// in the body only where the placeholder of one of the diagrams stands, and
/// in none of the diagrams' sources nor in the title, then the document holds
/// the prefix nowhere. (A title that holds the content marker takes the body
/// in. The prefix could then lie across the place where the two meet, unless
/// the body is framed: the title is to hold no content marker, or the body to
/// be framed.)
pub proof fn lemma_document_holds_no_placeholder(
    title: Seq<char>,
    body: Seq<char>,
    blocks: Seq<Seq<char>>,
)
    requires
        !contains(title, MERMAID_PLACEHOLDER@),
        !contains(title, CONTENT_MARKER@) || is_framed(body),
        holds_only_placeholders(body, blocks.len()),
        sources_are_clean(blocks),
    ensures
        !contains(composed(title, body, blocks), MERMAID_PLACEHOLDER@),
{
    let t = HTML_TEMPLATE@;
    let cm = CONTENT_MARKER@;
    let put_back = restored(body, blocks);
    lemma_every_placeholder_is_replaced(body, blocks);
    lemma_document_shape(title, put_back);
    lemma_template_parts();
    lemma_template_chars();
    lemma_markers();
    let k1 = title_marker_at();
    let k2 = content_marker_at();
    lemma_template_part_is_clean(0, k1);
    lemma_template_part_is_clean(k1 + 9, k2);
    lemma_template_part_is_clean(k2 + 11, t.len() as int);
    assert(head() == t.subrange(0, k1));
    assert(tail() == t.subrange(k2 + 11, t.len() as int));
    let titled = replace_all(title, cm, put_back);
    if contains(title, cm) {
        lemma_restored_is_framed(body, blocks, blocks.len());
        lemma_replaced_stays_clean(title, cm, put_back);
    } else {
        lemma_replace_nothing(title, cm, put_back);
    }
    lemma_joined_is_clean(head(), titled);
    let a = head() + titled;
    assert(a.len() > 0);
    lemma_joined_is_clean(a, middle());
    let b = a + middle();
    assert(b.last() == middle().last());
    lemma_joined_is_clean(b, put_back);
    let c = b + put_back;
    lemma_joined_is_clean(c, tail());
}

/// The title of a text that does not hold the placeholder prefix does not
/// hold it either.
pub proof fn lemma_title_is_clean(content: Seq<char>)
    requires
        !contains(content, MERMAID_PLACEHOLDER@),
    ensures
        !contains(title_of(content), MERMAID_PLACEHOLDER@),
{
    let p = MERMAID_PLACEHOLDER@;
    lemma_title_is_part_or_default(content);
    if title_of(content) == DEFAULT_TITLE@ {
        reveal_strlit("Document");
        lemma_prefix_is_a_name();
        assert forall|at: int| !occurs_at(DEFAULT_TITLE@, p, at) by {}
    } else if contains(title_of(content), p) {
        lemma_part_of_part(content, title_of(content), p);
    }
}

/// The round trip, for the document that is exported: if the text does not
/// hold the placeholder prefix, and the generator hands the placeholders on
/// as they are, so that the prefix occurs in its bytes only where the
/// placeholder of one of the diagrams stands, then the document holds the
/// prefix nowhere. (A title that holds the content marker takes the body in;
/// the prefix could then lie across the place where the two meet, unless the
/// body is framed, as one that begins and ends with a tag is. The title is to
/// hold no content marker, or the body to be framed.)
pub proof fn lemma_export_holds_no_placeholder(content: Seq<char>, raw_html: Seq<u8>)
    requires
        !contains(content, MERMAID_PLACEHOLDER@),
        !contains(title_of(content), CONTENT_MARKER@) || is_framed(lossy_text(raw_html)),
        holds_only_placeholders(lossy_text(raw_html), diagram_sources(content).len()),
    ensures
        !contains(html_document(content, raw_html), MERMAID_PLACEHOLDER@),
{
    lemma_title_is_clean(content);
    lemma_round_trip_leaves_no_placeholder(content);
    lemma_document_holds_no_placeholder(
        title_of(content),
        lossy_text(raw_html),
        diagram_sources(content),
    );
}

} // verus!
