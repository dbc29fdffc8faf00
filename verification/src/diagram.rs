//! Diagram blocks: fenced blocks of diagram source are taken out of a markdown
//! text before it is rendered, and a placeholder line stands in for each.

use crate::fences::{lemma_one_diagram_per_fence, lines_put_out, well_formed_fences};
use crate::text::{
    append_decimal, append_range, append_str, chars_of, decimal, join_lines, lemma_join_lines_push,
    lemma_lines_rejoin, lemma_texts_push, lines, newline_terminated, next_line, no_crlf,
    range_equals, string_of, texts, trim, trim_bounds,
};
use vstd::prelude::*;

verus! {

/// The line that opens a diagram block.
pub const DIAGRAM_FENCE_OPEN: &'static str = "```mermaid";

/// The line that closes a diagram block.
pub const DIAGRAM_FENCE_CLOSE: &'static str = "```";

/// What every placeholder starts with; the index of the block follows it.
pub const MERMAID_PLACEHOLDER: &'static str = "MERMAID_DIAGRAM_PLACEHOLDER_";

/// Whether `line`, but for the whitespace around it, opens a diagram block.
pub open spec fn opens_diagram(line: Seq<char>) -> bool {
    trim(line) == DIAGRAM_FENCE_OPEN@
}

/// Whether `line`, but for the whitespace around it, is a closing fence.
pub open spec fn closes_diagram(line: Seq<char>) -> bool {
    trim(line) == DIAGRAM_FENCE_CLOSE@
}

/// The placeholder of the block with index `index`.
pub open spec fn placeholder(index: nat) -> Seq<char> {
    MERMAID_PLACEHOLDER@ + decimal(index)
}

/// Where a scan of the lines of a text stands.
pub struct Scan {
    /// Whether the scan is inside a diagram block.
    pub capturing: bool,
    /// The source collected of the block that the scan is in.
    pub buffer: Seq<char>,
    /// The lines put out so far.
    pub output: Seq<Seq<char>>,
    /// The sources of the blocks closed so far.
    pub blocks: Seq<Seq<char>>,
}

impl Scan {
    /// The scan before the first line.
    pub open spec fn start() -> Scan {
        Scan { capturing: false, buffer: Seq::empty(), output: Seq::empty(), blocks: Seq::empty() }
    }

    /// The scan after one more line.
    ///
    /// An opening fence starts a block, also inside a block, whose source so
    /// far is then dropped. Inside a block a closing fence ends it: the block
    /// gets the next index and its placeholder is put out. Any other line goes,
    /// with a line feed, to the block's source inside a block and to the output
    /// outside.
    pub open spec fn step(self, line: Seq<char>) -> Scan {
        if opens_diagram(line) {
            Scan { capturing: true, buffer: Seq::empty(), ..self }
        } else if self.capturing && closes_diagram(line) {
            Scan {
                capturing: false,
                buffer: Seq::empty(),
                output: self.output.push(placeholder(self.blocks.len())),
                blocks: self.blocks.push(self.buffer),
            }
        } else if self.capturing {
            Scan { buffer: self.buffer + line + seq!['\n'], ..self }
        } else {
            Scan { output: self.output.push(line), ..self }
        }
    }

    /// The scan after the lines `ls`, in order.
    pub open spec fn run(self, ls: Seq<Seq<char>>) -> Scan
        decreases ls.len(),
    {
        if ls.len() == 0 {
            self
        } else {
            self.step(ls[0]).run(ls.drop_first())
        }
    }
}

/// The scan that is inside a block or not, with these lines put out and these
/// blocks closed; the source collected counts only inside a block.
pub open spec fn scan_at(
    capturing: bool,
    buffer: Seq<char>,
    output: Seq<Seq<char>>,
    blocks: Seq<Seq<char>>,
) -> Scan {
    Scan {
        capturing,
        buffer: if capturing {
            buffer
        } else {
            Seq::empty()
        },
        output,
        blocks,
    }
}

/// The scan of all lines of `markdown`. A block that is still open at the end
/// is lost: its source is in no block and in no output line.
pub open spec fn extraction(markdown: Seq<char>) -> Scan {
    Scan::start().run(lines(markdown))
}

/// `markdown` with a placeholder line in place of each diagram block.
pub open spec fn processed_text(markdown: Seq<char>) -> Seq<char> {
    join_lines(extraction(markdown).output)
}

/// The sources of the diagram blocks of `markdown`, in the order of the text.
pub open spec fn diagram_sources(markdown: Seq<char>) -> Seq<Seq<char>> {
    extraction(markdown).blocks
}

/// A scan that is outside a block and meets no opening fence puts out every
/// line and closes no block.
pub proof fn lemma_run_without_fences(scan: Scan, ls: Seq<Seq<char>>)
    requires
        !scan.capturing,
        forall|i: int| 0 <= i < ls.len() ==> !opens_diagram(#[trigger] ls[i]),
    ensures
        scan.run(ls) == (Scan { output: scan.output + ls, ..scan }),
    decreases ls.len(),
{
    if ls.len() == 0 {
        assert(scan.output + ls == scan.output);
    } else {
        let rest = ls.drop_first();
        assert forall|i: int| 0 <= i < rest.len() implies !opens_diagram(#[trigger] rest[i]) by {
            assert(rest[i] == ls[i + 1]);
        }
        assert(!opens_diagram(ls[0]));
        lemma_run_without_fences(scan.step(ls[0]), rest);
        assert(scan.output.push(ls[0]) + rest == scan.output + ls);
    }
}

/// A text without an opening fence comes back unchanged and without a diagram.
/// It comes back line by line, each line with a line feed behind it: so a line
/// feed is added at the end if there was none. (A carriage return before a line
/// feed is part of the line ending and would not come back: the text is to hold
/// none.)
pub proof fn lemma_text_without_fences_is_unchanged(markdown: Seq<char>)
    requires
        forall|i: int|
            0 <= i < lines(markdown).len() ==> !opens_diagram(#[trigger] lines(markdown)[i]),
        no_crlf(markdown),
    ensures
        diagram_sources(markdown) == Seq::<Seq<char>>::empty(),
        processed_text(markdown) == newline_terminated(markdown),
{
    lemma_run_without_fences(Scan::start(), lines(markdown));
    assert(Seq::<Seq<char>>::empty() + lines(markdown) == lines(markdown));
    lemma_lines_rejoin(markdown);
}

/// Takes the diagram blocks out of `content`. Returns the text with one
/// placeholder line for each block, and the blocks' sources in the order of the
/// text: the block at index `i` is the one whose placeholder ends in `i`.
///
/// There is one block for each well-formed fence, and the text returned holds,
/// each with a line feed, the lines that stand outside the blocks and for each
/// block its placeholder.
pub fn extract_mermaid_blocks(content: &str) -> (r: (String, Vec<String>))
    ensures
        r.0@ == processed_text(content@),
        texts(r.1@) == diagram_sources(content@),
        r.1.len() == well_formed_fences(lines(content@)),
        r.0@ == join_lines(lines_put_out(lines(content@), lines(content@).len() as int)),
{
    let v = chars_of(content);
    let open = chars_of(DIAGRAM_FENCE_OPEN);
    let close = chars_of(DIAGRAM_FENCE_CLOSE);
    let mut result: Vec<char> = Vec::new();
    let mut mermaid_blocks: Vec<String> = Vec::new();
    let mut in_mermaid = false;
    let mut mermaid_content: Vec<char> = Vec::new();
    let ghost mut kept: Seq<Seq<char>> = Seq::empty();
    let mut pos: usize = 0;
    proof {
        assert(v@.skip(0) == v@);
        assert(texts(mermaid_blocks@) =~= Seq::<Seq<char>>::empty());
    }
    while pos < v.len()
        invariant
            pos <= v.len(),
            open@ == DIAGRAM_FENCE_OPEN@,
            close@ == DIAGRAM_FENCE_CLOSE@,
            result@ == join_lines(kept),
            scan_at(in_mermaid, mermaid_content@, kept, texts(mermaid_blocks@)).run(
                lines(v@.skip(pos as int)),
            ) == extraction(v@),
        decreases v.len() - pos,
    {
        let (end, next) = next_line(v.as_slice(), pos);
        let ghost line = v@.subrange(pos as int, end as int);
        let ghost before = scan_at(in_mermaid, mermaid_content@, kept, texts(mermaid_blocks@));
        proof {
            let ls = lines(v@.skip(pos as int));
            assert(ls[0] == line);
            assert(ls.drop_first() == lines(v@.skip(next as int)));
            assert(before.run(ls) == before.step(line).run(lines(v@.skip(next as int))));
        }
        let (a, b) = trim_bounds(v.as_slice(), pos, end);
        if range_equals(v.as_slice(), a, b, open.as_slice()) {
            in_mermaid = true;
            mermaid_content.clear();
        } else if in_mermaid && range_equals(v.as_slice(), a, b, close.as_slice()) {
            in_mermaid = false;
            proof {
                lemma_join_lines_push(kept, placeholder(mermaid_blocks.len() as nat));
                kept = kept.push(placeholder(mermaid_blocks.len() as nat));
            }
            append_str(&mut result, MERMAID_PLACEHOLDER);
            append_decimal(&mut result, mermaid_blocks.len() as u64);
            result.push('\n');
            let block = string_of(mermaid_content.as_slice());
            proof {
                lemma_texts_push(mermaid_blocks@, block);
                assert(result@ == join_lines(kept));
            }
            mermaid_blocks.push(block);
        } else if in_mermaid {
            append_range(&mut mermaid_content, v.as_slice(), pos, end);
            mermaid_content.push('\n');
            proof {
                assert(mermaid_content@ == before.buffer + line + seq!['\n']);
            }
        } else {
            proof {
                lemma_join_lines_push(kept, line);
                kept = kept.push(line);
            }
            append_range(&mut result, v.as_slice(), pos, end);
            result.push('\n');
            proof {
                assert(result@ == join_lines(kept));
            }
        }
        proof {
            let after = scan_at(in_mermaid, mermaid_content@, kept, texts(mermaid_blocks@));
            assert(after == before.step(line));
        }
        pos = next;
    }
    proof {
        assert(lines(v@.skip(pos as int)) =~= Seq::<Seq<char>>::empty());
        lemma_one_diagram_per_fence(v@);
    }
    (string_of(result.as_slice()), mermaid_blocks)
}

} // verus!
