//! What the extraction of diagram blocks returns, said line by line and
//! without a scan: which lines end a block, which lines are kept, and what
//! text each block holds.

use crate::diagram::{
    closes_diagram, diagram_sources, extraction, opens_diagram, placeholder, Scan,
    MERMAID_PLACEHOLDER,
};
use crate::text::{join_lines, lemma_decimal_is_injective, lemma_join_lines_push, lines};
use vstd::prelude::*;

verus! {

/// Whether line `j` of `ls` stands inside a diagram block: an opening fence
/// stands before it, and no closing fence between the two.
pub open spec fn inside_block(ls: Seq<Seq<char>>, j: int) -> bool {
    exists|i: int| opened_at(ls, i, j)
}

/// Whether line `i` of `ls` is an opening fence before line `j` with no
/// closing fence between the two.
pub open spec fn opened_at(ls: Seq<Seq<char>>, i: int, j: int) -> bool {
    0 <= i < j && opens_diagram(ls[i]) && forall|k: int|
        i < k < j ==> !closes_diagram(#[trigger] ls[k])
}

/// Whether line `j` of `ls` ends a diagram block: it is a closing fence
/// inside a block. Each such line makes one well-formed diagram fence.
pub open spec fn ends_block(ls: Seq<Seq<char>>, j: int) -> bool {
    0 <= j < ls.len() && !opens_diagram(ls[j]) && closes_diagram(ls[j]) && inside_block(ls, j)
}

/// Whether line `j` of `ls` is kept: it is no opening fence and stands
/// outside every block.
pub open spec fn is_kept(ls: Seq<Seq<char>>, j: int) -> bool {
    0 <= j < ls.len() && !opens_diagram(ls[j]) && !inside_block(ls, j)
}

/// How many of the first `n` lines of `ls` end a block.
pub open spec fn blocks_ended(ls: Seq<Seq<char>>, n: int) -> nat
    decreases n,
{
    if n <= 0 {
        0
    } else {
        blocks_ended(ls, n - 1) + if ends_block(ls, n - 1) {
            1nat
        } else {
            0nat
        }
    }
}

/// The number of well-formed diagram fences of `ls`.
pub open spec fn well_formed_fences(ls: Seq<Seq<char>>) -> nat {
    blocks_ended(ls, ls.len() as int)
}

/// The index of the last opening fence among the first `n` lines of `ls`, or
/// -1 if there is none.
pub open spec fn last_opening(ls: Seq<Seq<char>>, n: int) -> int
    decreases n,
{
    if n <= 0 {
        -1
    } else if opens_diagram(ls[n - 1]) {
        n - 1
    } else {
        last_opening(ls, n - 1)
    }
}

/// The source of the block that line `j` of `ls` ends or stands in: the lines
/// behind the last opening fence before `j`, each with a line feed.
pub open spec fn source_before(ls: Seq<Seq<char>>, j: int) -> Seq<char> {
    join_lines(ls.subrange(last_opening(ls, j) + 1, j))
}

/// What the first `n` lines of `ls` put out: each kept line as it is, and for
/// each line that ends a block the placeholder with the number of the blocks
/// ended before it.
pub open spec fn lines_put_out(ls: Seq<Seq<char>>, n: int) -> Seq<Seq<char>>
    decreases n,
{
    if n <= 0 {
        Seq::empty()
    } else if ends_block(ls, n - 1) {
        lines_put_out(ls, n - 1).push(placeholder(blocks_ended(ls, n - 1)))
    } else if is_kept(ls, n - 1) {
        lines_put_out(ls, n - 1).push(ls[n - 1])
    } else {
        lines_put_out(ls, n - 1)
    }
}

/// Whether `line` is the placeholder of some block.
pub open spec fn is_placeholder(line: Seq<char>) -> bool {
    exists|index: nat| line == placeholder(index)
}

/// The lines of `ls` that are placeholders, in order.
pub open spec fn placeholder_lines(ls: Seq<Seq<char>>) -> Seq<Seq<char>>
    decreases ls.len(),
{
    if ls.len() == 0 {
        Seq::empty()
    } else if is_placeholder(ls.last()) {
        placeholder_lines(ls.drop_last()).push(ls.last())
    } else {
        placeholder_lines(ls.drop_last())
    }
}

/// The placeholders of the first `n` blocks, in order.
pub open spec fn placeholders(n: nat) -> Seq<Seq<char>> {
    Seq::new(n, |i: int| placeholder(i as nat))
}

/// A scan of some lines and one more is the scan of those lines, and then a
/// step for the last one.
pub proof fn lemma_run_push(scan: Scan, ls: Seq<Seq<char>>, line: Seq<char>)
    ensures
        scan.run(ls.push(line)) == scan.run(ls).step(line),
    decreases ls.len(),
{
    let all = ls.push(line);
    if ls.len() == 0 {
        assert(all.drop_first() == Seq::<Seq<char>>::empty());
        assert(scan.step(line).run(all.drop_first()) == scan.step(line));
    } else {
        assert(all[0] == ls[0]);
        assert(all.drop_first() == ls.drop_first().push(line));
        lemma_run_push(scan.step(ls[0]), ls.drop_first(), line);
    }
}

/// The last opening fence before a line inside a block opens that block: no
/// line between it and that line is an opening or a closing fence.
pub proof fn lemma_last_opening(ls: Seq<Seq<char>>, n: int)
    requires
        0 <= n <= ls.len(),
    ensures
        -1 <= last_opening(ls, n) < n,
        last_opening(ls, n) >= 0 ==> opens_diagram(ls[last_opening(ls, n)]),
        forall|k: int| last_opening(ls, n) < k < n ==> !opens_diagram(#[trigger] ls[k]),
        forall|i: int| #[trigger] opened_at(ls, i, n) ==> opened_at(ls, last_opening(ls, n), n),
    decreases n,
{
    if n > 0 {
        lemma_last_opening(ls, n - 1);
        let last = last_opening(ls, n);
        assert forall|i: int| #[trigger] opened_at(ls, i, n) implies opened_at(ls, last, n) by {
            assert(i <= last);
        }
    }
}

/// After the first `n` lines, a scan is inside a block exactly if line `n` is,
/// it holds the source of that block, it has closed one block for each line
/// that ends one, with the source that stood before that line, and it has put
/// out what those lines put out.
pub proof fn lemma_scan_of_prefix(ls: Seq<Seq<char>>, n: int)
    requires
        0 <= n <= ls.len(),
    ensures
        ({
            let scan = Scan::start().run(ls.take(n));
            &&& scan.capturing == inside_block(ls, n)
            &&& scan.capturing ==> scan.buffer == source_before(ls, n)
            &&& scan.blocks.len() == blocks_ended(ls, n)
            &&& scan.output == lines_put_out(ls, n)
            &&& forall|j: int|
                0 <= j < n && #[trigger] ends_block(ls, j) ==> scan.blocks[blocks_ended(ls, j) as int]
                    == source_before(ls, j)
        }),
    decreases n,
{
    if n == 0 {
        assert(ls.take(0) == Seq::<Seq<char>>::empty());
        assert(!inside_block(ls, 0)) by {
            assert forall|i: int| !opened_at(ls, i, 0) by {}
        }
    } else {
        let m = n - 1;
        let line = ls[m];
        lemma_scan_of_prefix(ls, m);
        let before = Scan::start().run(ls.take(m));
        assert(ls.take(n) == ls.take(m).push(line));
        lemma_run_push(Scan::start(), ls.take(m), line);
        let after = before.step(line);
        lemma_last_opening(ls, m);
        lemma_last_opening(ls, n);
        lemma_blocks_ended_is_monotonic(ls, m);
        if opens_diagram(line) {
            assert(opened_at(ls, m, n));
            assert(ls.subrange(m + 1, n) == Seq::<Seq<char>>::empty());
        } else if before.capturing && closes_diagram(line) {
            assert(!inside_block(ls, n)) by {
                assert forall|i: int| !opened_at(ls, i, n) by {
                    if opened_at(ls, i, n) {
                        assert(!closes_diagram(ls[m]));
                    }
                }
            }
            assert(ends_block(ls, m));
        } else if before.capturing {
            let i = choose|i: int| opened_at(ls, i, m);
            assert(opened_at(ls, i, n));
            let o = last_opening(ls, m);
            assert(ls.subrange(o + 1, n) == ls.subrange(o + 1, m).push(line));
            lemma_join_lines_push(ls.subrange(o + 1, m), line);
        } else {
            assert(!inside_block(ls, n)) by {
                assert forall|i: int| !opened_at(ls, i, n) by {
                    if opened_at(ls, i, n) {
                        assert(opened_at(ls, i, m));
                    }
                }
            }
            assert(is_kept(ls, m));
        }
        assert forall|j: int| 0 <= j < n && #[trigger] ends_block(ls, j) implies after.blocks[blocks_ended(
            ls,
            j,
        ) as int] == source_before(ls, j) by {
            if j < m {
                lemma_blocks_ended_is_monotonic(ls, j);
                lemma_blocks_ended_grows(ls, j, m);
            }
        }
    }
}

/// A line that ends a block is counted from the next line on.
pub proof fn lemma_blocks_ended_is_monotonic(ls: Seq<Seq<char>>, j: int)
    requires
        0 <= j,
    ensures
        blocks_ended(ls, j) <= blocks_ended(ls, j + 1),
        ends_block(ls, j) ==> blocks_ended(ls, j) < blocks_ended(ls, j + 1),
{
}

/// The number of blocks ended does not go down along the lines.
pub proof fn lemma_blocks_ended_grows(ls: Seq<Seq<char>>, a: int, b: int)
    requires
        0 <= a <= b,
    ensures
        blocks_ended(ls, a) <= blocks_ended(ls, b),
        a < b && ends_block(ls, a) ==> blocks_ended(ls, a) < blocks_ended(ls, b),
    decreases b - a,
{
    if a < b {
        lemma_blocks_ended_grows(ls, a, b - 1);
        lemma_blocks_ended_is_monotonic(ls, b - 1);
        if a == b - 1 {
            lemma_blocks_ended_is_monotonic(ls, a);
        }
    }
}

/// The placeholders among what the first `n` lines put out are those of the
/// blocks ended so far, in the order of their numbers, as long as no kept line
/// is a placeholder itself.
pub proof fn lemma_placeholders_put_out(ls: Seq<Seq<char>>, n: int)
    requires
        0 <= n <= ls.len(),
        forall|j: int| #[trigger] is_kept(ls, j) ==> !is_placeholder(ls[j]),
    ensures
        placeholder_lines(lines_put_out(ls, n)) == placeholders(blocks_ended(ls, n)),
    decreases n,
{
    if n <= 0 {
        assert(placeholders(0) == Seq::<Seq<char>>::empty());
    } else {
        lemma_placeholders_put_out(ls, n - 1);
        let before = lines_put_out(ls, n - 1);
        let count = blocks_ended(ls, n - 1);
        if ends_block(ls, n - 1) {
            let line = placeholder(count);
            assert(is_placeholder(line));
            assert(before.push(line).drop_last() == before);
            assert(placeholders(count).push(line) == placeholders(count + 1));
        } else if is_kept(ls, n - 1) {
            assert(before.push(ls[n - 1]).drop_last() == before);
        }
    }
}

/// The placeholders of two blocks differ.
pub proof fn lemma_placeholders_are_distinct(i: nat, j: nat)
    requires
        i != j,
    ensures
        placeholder(i) != placeholder(j),
{
    if placeholder(i) == placeholder(j) {
        let n = MERMAID_PLACEHOLDER@.len() as int;
        assert(placeholder(i).skip(n) == crate::text::decimal(i));
        assert(placeholder(j).skip(n) == crate::text::decimal(j));
        lemma_decimal_is_injective(i, j);
    }
}

/// A text with N well-formed diagram fences gives N diagrams, in the order of
/// the text: the diagram with index `i` holds the lines between the opening
/// and the closing fence of the fence that `i` fences end before.
pub proof fn lemma_one_diagram_per_fence(markdown: Seq<char>)
    ensures
        diagram_sources(markdown).len() == well_formed_fences(lines(markdown)),
        forall|j: int| #[trigger]
            ends_block(lines(markdown), j) ==> diagram_sources(markdown)[blocks_ended(
                lines(markdown),
                j,
            ) as int] == source_before(lines(markdown), j),
        extraction(markdown).output == lines_put_out(
            lines(markdown),
            lines(markdown).len() as int,
        ),
{
    let ls = lines(markdown);
    lemma_scan_of_prefix(ls, ls.len() as int);
    assert(ls.take(ls.len() as int) == ls);
}

/// The processed text of a text with N well-formed diagram fences holds N
/// placeholder lines: those with the indices 0 to N - 1, in this order, and
/// no two of them are the same. (A kept line that is a placeholder itself
/// would be one more: the text is to hold none.)
pub proof fn lemma_one_placeholder_per_fence(markdown: Seq<char>)
    requires
        forall|j: int| #[trigger]
            is_kept(lines(markdown), j) ==> !is_placeholder(lines(markdown)[j]),
    ensures
        placeholder_lines(extraction(markdown).output) == placeholders(
            well_formed_fences(lines(markdown)),
        ),
        forall|i: nat, j: nat| i != j ==> #[trigger] placeholder(i) != #[trigger] placeholder(j),
{
    let ls = lines(markdown);
    lemma_one_diagram_per_fence(markdown);
    lemma_placeholders_put_out(ls, ls.len() as int);
    assert forall|i: nat, j: nat| i != j implies #[trigger] placeholder(i) != #[trigger] placeholder(
        j,
    ) by {
        lemma_placeholders_are_distinct(i, j);
    }
}

} // verus!
