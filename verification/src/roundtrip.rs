//! Every placeholder is replaced: after the diagrams were put back, the body
//! holds the placeholder prefix nowhere.

use crate::diagram::{
    diagram_sources, extraction, placeholder, processed_text, MERMAID_PLACEHOLDER,
};
use crate::fences::{
    blocks_ended, ends_block, last_opening, lemma_last_opening, lemma_one_diagram_per_fence,
    lines_put_out,
};
use crate::template::{diagram_markup, restored, restored_below, DIAGRAM_CLOSE, DIAGRAM_OPEN};
use crate::text::{
    contains, decimal, is_digit, join_lines, lemma_decimal, lemma_decimal_prefix,
    lemma_replace_in_lines, line_replaced,
    lemma_lines_are_parts, lemma_occurs_in_part, lemma_occurs_in_skip,
    lemma_trim_is_part, lines, occurs_at, replace_all, trim,
};
use vstd::prelude::*;

verus! {

/// Whether `c` is one of the characters that the placeholder prefix is made
/// of: a capital letter or an underscore.
pub open spec fn is_name_char(c: char) -> bool {
    ('A' <= c <= 'Z') || c == '_'
}

/// Whether `s` is made of characters of the placeholder prefix only.
pub open spec fn all_name_chars(s: Seq<char>) -> bool {
    forall|i: int| 0 <= i < s.len() ==> is_name_char(#[trigger] s[i])
}

/// Whether `s` holds no character of the placeholder prefix.
pub open spec fn no_name_chars(s: Seq<char>) -> bool {
    forall|i: int| 0 <= i < s.len() ==> !is_name_char(#[trigger] s[i])
}

/// The placeholder prefix is not empty and is made of capital letters and
/// underscores.
pub proof fn lemma_prefix_is_a_name()
    ensures
        MERMAID_PLACEHOLDER@.len() == 28,
        all_name_chars(MERMAID_PLACEHOLDER@),
{
    reveal_strlit("MERMAID_DIAGRAM_PLACEHOLDER_");
    let p = MERMAID_PLACEHOLDER@;
    assert(p.len() == 28);
    assert forall|i: int| 0 <= i < p.len() implies is_name_char(#[trigger] p[i]) by {
        if i < 8 {
            assert(is_name_char(p[0]) && is_name_char(p[1]) && is_name_char(p[2]) && is_name_char(
                p[3],
            ) && is_name_char(p[4]) && is_name_char(p[5]) && is_name_char(p[6]) && is_name_char(
                p[7],
            ));
        } else if i < 16 {
            assert(is_name_char(p[8]) && is_name_char(p[9]) && is_name_char(p[10])
                && is_name_char(p[11]) && is_name_char(p[12]) && is_name_char(p[13])
                && is_name_char(p[14]) && is_name_char(p[15]));
        } else if i < 22 {
            assert(is_name_char(p[16]) && is_name_char(p[17]) && is_name_char(p[18])
                && is_name_char(p[19]) && is_name_char(p[20]) && is_name_char(p[21]));
        } else {
            assert(is_name_char(p[22]) && is_name_char(p[23]) && is_name_char(p[24])
                && is_name_char(p[25]) && is_name_char(p[26]) && is_name_char(p[27]));
        }
    }
}

/// What is replaced by: a text that is not empty, begins and ends with a
/// character that the placeholder prefix does not hold, and holds the prefix
/// nowhere.
pub open spec fn is_inert(replacement: Seq<char>) -> bool {
    &&& replacement.len() > 0
    &&& !is_name_char(replacement[0])
    &&& !is_name_char(replacement.last())
    &&& !contains(replacement, MERMAID_PLACEHOLDER@)
}

/// As far as the result of a replacement begins with characters of the
/// placeholder prefix, it begins as the text did, and what follows is the
/// result for what follows in the text, if what was put in begins with
/// another character.
pub proof fn lemma_replaced_begins_alike(
    s: Seq<char>,
    pattern: Seq<char>,
    replacement: Seq<char>,
    m: int,
)
    requires
        replacement.len() > 0,
        !is_name_char(replacement[0]),
        0 <= m <= replace_all(s, pattern, replacement).len(),
        all_name_chars(replace_all(s, pattern, replacement).take(m)),
    ensures
        m <= s.len(),
        s.take(m) == replace_all(s, pattern, replacement).take(m),
        replace_all(s, pattern, replacement).skip(m) == replace_all(
            s.skip(m),
            pattern,
            replacement,
        ),
    decreases m,
{
    let r = replace_all(s, pattern, replacement);
    if m == 0 {
        assert(s.skip(0) == s);
        assert(r.skip(0) == r);
        assert(s.take(0) == r.take(0));
    } else if pattern.len() == 0 || s.len() < pattern.len() {
        let rest = s.skip(m);
        assert(replace_all(rest, pattern, replacement) == rest);
    } else if s.take(pattern.len() as int) == pattern {
        assert(r.take(m)[0] == replacement[0]);
    } else {
        let rest = s.drop_first();
        let rr = replace_all(rest, pattern, replacement);
        assert(r == seq![s[0]] + rr);
        assert forall|i: int| 0 <= i < m - 1 implies is_name_char(#[trigger] rr.take(m - 1)[i]) by {
            assert(rr.take(m - 1)[i] == r.take(m)[i + 1]);
        }
        lemma_replaced_begins_alike(rest, pattern, replacement, m - 1);
        assert(s.take(m) == seq![s[0]] + rest.take(m - 1));
        assert(r.take(m) == seq![s[0]] + rr.take(m - 1));
        assert(r.skip(m) == rr.skip(m - 1));
        assert(s.skip(m) == rest.skip(m - 1));
    }
}

/// Whether every occurrence of the placeholder prefix in `body` begins the
/// placeholder of one of the first `count` blocks.
pub open spec fn holds_only_placeholders(body: Seq<char>, count: nat) -> bool {
    forall|at: int| #[trigger]
        occurs_at(body, MERMAID_PLACEHOLDER@, at) ==> exists|index: nat|
            index < count && occurs_at(body, placeholder(index), at)
}

/// What holds of the occurrences of the prefix in a text holds of those in
/// the rest of it.
pub proof fn lemma_holds_in_skip(s: Seq<char>, k: int, count: nat)
    requires
        0 <= k <= s.len(),
        holds_only_placeholders(s, count),
    ensures
        holds_only_placeholders(s.skip(k), count),
{
    let p = MERMAID_PLACEHOLDER@;
    assert forall|at: int| #[trigger] occurs_at(s.skip(k), p, at) implies exists|index: nat|
        index < count && occurs_at(s.skip(k), placeholder(index), at) by {
        lemma_occurs_in_skip(s, p, k, at);
        let index = choose|index: nat|
            index < count && occurs_at(s, placeholder(index), at + k);
        lemma_occurs_in_skip(s, placeholder(index), k, at);
    }
}

/// As far as a text begins with characters other than the first of the
/// pattern, the result of a replacement begins as the text does.
pub proof fn lemma_replaced_keeps_start(
    s: Seq<char>,
    pattern: Seq<char>,
    replacement: Seq<char>,
    m: int,
)
    requires
        pattern.len() > 0,
        0 <= m <= s.len(),
        forall|i: int| 0 <= i < m ==> #[trigger] s[i] != pattern[0],
    ensures
        m <= replace_all(s, pattern, replacement).len(),
        replace_all(s, pattern, replacement).take(m) == s.take(m),
    decreases m,
{
    let r = replace_all(s, pattern, replacement);
    if m == 0 {
        assert(r.take(0) == s.take(0));
    } else if s.len() < pattern.len() {
    } else {
        if s.take(pattern.len() as int) == pattern {
            assert(s.take(pattern.len() as int)[0] == s[0]);
        }
        let rest = s.drop_first();
        assert forall|i: int| 0 <= i < m - 1 implies #[trigger] rest[i] != pattern[0] by {
            assert(rest[i] == s[i + 1]);
        }
        lemma_replaced_keeps_start(rest, pattern, replacement, m - 1);
        let rr = replace_all(rest, pattern, replacement);
        assert(r == seq![s[0]] + rr);
        assert(r.take(m) == seq![s[0]] + rr.take(m - 1));
        assert(s.take(m) == seq![s[0]] + rest.take(m - 1));
    }
}

/// One step of putting the diagrams back: if the prefix occurs only where the
/// placeholder of one of the first `count` blocks stands, then after the
/// placeholder of the last of them was replaced, it occurs only where the
/// placeholder of one of the others stands.
pub proof fn lemma_put_back_one(s: Seq<char>, count: nat, replacement: Seq<char>)
    requires
        count > 0,
        holds_only_placeholders(s, count),
        is_inert(replacement),
    ensures
        holds_only_placeholders(
            replace_all(s, placeholder((count - 1) as nat), replacement),
            (count - 1) as nat,
        ),
    decreases s.len(),
{
    lemma_prefix_is_a_name();
    let p = MERMAID_PLACEHOLDER@;
    let len = p.len() as int;
    let last = (count - 1) as nat;
    let pattern = placeholder(last);
    lemma_decimal(last);
    assert(pattern.len() > len);
    assert(pattern[0] == p[0]);
    let r = replace_all(s, pattern, replacement);
    if s.len() < pattern.len() {
        assert forall|at: int| #[trigger] occurs_at(r, p, at) implies exists|index: nat|
            index < last && occurs_at(r, placeholder(index), at) by {
            let index = choose|index: nat| index < count && occurs_at(s, placeholder(index), at);
            assert(index < last);
        }
    } else if s.take(pattern.len() as int) == pattern {
        let cut = replacement.len() as int;
        let rest = s.skip(pattern.len() as int);
        let rr = replace_all(rest, pattern, replacement);
        lemma_holds_in_skip(s, pattern.len() as int, count);
        lemma_put_back_one(rest, count, replacement);
        assert(r == replacement + rr);
        assert(r.skip(cut) == rr);
        assert forall|at: int| #[trigger] occurs_at(r, p, at) implies exists|index: nat|
            index < last && occurs_at(r, placeholder(index), at) by {
            if at >= cut {
                lemma_occurs_in_skip(r, p, cut, at - cut);
                let index = choose|index: nat|
                    index < last && occurs_at(rr, placeholder(index), at - cut);
                lemma_occurs_in_skip(r, placeholder(index), cut, at - cut);
            } else if at + len <= cut {
                assert(r.subrange(at, at + len) == replacement.subrange(at, at + len));
                assert(occurs_at(replacement, p, at));
            } else {
                assert(r.subrange(at, at + len)[cut - 1 - at] == replacement.last());
                assert(is_name_char(p[cut - 1 - at]));
            }
        }
    } else {
        let rest = s.drop_first();
        let rr = replace_all(rest, pattern, replacement);
        lemma_holds_in_skip(s, 1, count);
        lemma_put_back_one(rest, count, replacement);
        assert(r == seq![s[0]] + rr);
        assert(r.skip(1) == rr);
        assert forall|at: int| #[trigger] occurs_at(r, p, at) implies exists|index: nat|
            index < last && occurs_at(r, placeholder(index), at) by {
            if at >= 1 {
                lemma_occurs_in_skip(r, p, 1, at - 1);
                let index = choose|index: nat|
                    index < last && occurs_at(rr, placeholder(index), at - 1);
                lemma_occurs_in_skip(r, placeholder(index), 1, at - 1);
            } else {
                assert(r.take(len) == r.subrange(0, len));
                lemma_replaced_begins_alike(s, pattern, replacement, len);
                assert(s.subrange(0, len) == s.take(len));
                assert(occurs_at(s, p, 0));
                let index = choose|index: nat|
                    index < count && occurs_at(s, placeholder(index), 0);
                let whole = placeholder(index);
                assert(s.take(whole.len() as int) == s.subrange(0, whole.len() as int));
                assert(index < last);
                lemma_decimal(index);
                let digits = decimal(index);
                let d = digits.len() as int;
                let tail = s.skip(len);
                assert(tail.take(d) == digits) by {
                    assert(tail.take(d) =~= s.subrange(0, len + d).skip(len));
                    assert(whole.skip(len) =~= digits);
                }
                assert forall|i: int| 0 <= i < d implies #[trigger] tail[i] != pattern[0] by {
                    assert(tail[i] == tail.take(d)[i]);
                    assert(is_digit(digits[i]));
                    assert(is_name_char(p[0]));
                }
                lemma_replaced_keeps_start(tail, pattern, replacement, d);
                let rt = replace_all(tail, pattern, replacement);
                assert(r.skip(len) == rt);
                assert(r.subrange(0, len + d) =~= r.take(len) + rt.take(d));
                assert(occurs_at(r, whole, 0));
            }
        }
    }
}

/// Whether each source of `blocks` makes an element that can be put in: the
/// source does not hold the placeholder prefix.
pub open spec fn sources_are_clean(blocks: Seq<Seq<char>>) -> bool {
    forall|i: int| 0 <= i < blocks.len() ==> !contains(#[trigger] blocks[i], MERMAID_PLACEHOLDER@)
}

/// An occurrence of the prefix in a text between two texts without a
/// character of the prefix lies in the text between them.
pub proof fn lemma_occurs_between(before: Seq<char>, s: Seq<char>, after: Seq<char>, at: int)
    requires
        no_name_chars(before),
        no_name_chars(after),
        occurs_at(before + s + after, MERMAID_PLACEHOLDER@, at),
    ensures
        occurs_at(s, MERMAID_PLACEHOLDER@, at - before.len()),
{
    lemma_prefix_is_a_name();
    let p = MERMAID_PLACEHOLDER@;
    let all = before + s + after;
    let len = p.len() as int;
    if at < before.len() {
        assert(all.subrange(at, at + len)[0] == before[at]);
        assert(is_name_char(p[0]));
    }
    if at + len > before.len() + s.len() {
        let i = at + len - 1;
        assert(all.subrange(at, at + len)[len - 1] == after[i - before.len() - s.len()]);
        assert(is_name_char(p[len - 1]));
    }
    assert(all.subrange(at, at + len) == s.subrange(at - before.len(), at - before.len() + len));
}

/// The tags around a diagram hold no character of the placeholder prefix.
pub proof fn lemma_tags_hold_no_name_char()
    ensures
        DIAGRAM_OPEN@.len() == 22,
        DIAGRAM_CLOSE@.len() == 7,
        no_name_chars(DIAGRAM_OPEN@),
        no_name_chars(DIAGRAM_CLOSE@),
{
    reveal_strlit("<div class=\"mermaid\">\n");
    reveal_strlit("\n</div>");
    let open = DIAGRAM_OPEN@;
    let close = DIAGRAM_CLOSE@;
    assert(open.len() == 22);
    assert(close.len() == 7);
    assert forall|i: int| 0 <= i < open.len() implies !is_name_char(#[trigger] open[i]) by {
        if i < 8 {
            assert(!is_name_char(open[0]) && !is_name_char(open[1]) && !is_name_char(open[2])
                && !is_name_char(open[3]) && !is_name_char(open[4]) && !is_name_char(open[5])
                && !is_name_char(open[6]) && !is_name_char(open[7]));
        } else if i < 16 {
            assert(!is_name_char(open[8]) && !is_name_char(open[9]) && !is_name_char(open[10])
                && !is_name_char(open[11]) && !is_name_char(open[12]) && !is_name_char(open[13])
                && !is_name_char(open[14]) && !is_name_char(open[15]));
        } else {
            assert(!is_name_char(open[16]) && !is_name_char(open[17]) && !is_name_char(open[18])
                && !is_name_char(open[19]) && !is_name_char(open[20]) && !is_name_char(
                open[21],
            ));
        }
    }
    assert forall|i: int| 0 <= i < close.len() implies !is_name_char(#[trigger] close[i]) by {
        assert(!is_name_char(close[0]) && !is_name_char(close[1]) && !is_name_char(close[2])
            && !is_name_char(close[3]) && !is_name_char(close[4]) && !is_name_char(close[5])
            && !is_name_char(close[6]));
    }
}

/// The element for a diagram whose source does not hold the placeholder
/// prefix can be put in: it begins and ends with a character that the prefix
/// does not hold, and holds the prefix nowhere.
pub proof fn lemma_markup_is_inert(source: Seq<char>)
    requires
        !contains(source, MERMAID_PLACEHOLDER@),
    ensures
        is_inert(diagram_markup(source)),
{
    lemma_tags_hold_no_name_char();
    lemma_trim_is_part(source);
    let p = MERMAID_PLACEHOLDER@;
    let markup = diagram_markup(source);
    let inner = trim(source);
    assert(markup[0] == DIAGRAM_OPEN@[0]);
    assert(markup.last() == DIAGRAM_CLOSE@[6]);
    assert forall|at: int| !occurs_at(markup, p, at) by {
        if occurs_at(markup, p, at) {
            lemma_occurs_between(DIAGRAM_OPEN@, inner, DIAGRAM_CLOSE@, at);
            let (a, b) = choose|a: int, b: int|
                0 <= a <= b <= source.len() && trim(source) == #[trigger] source.subrange(a, b);
            lemma_occurs_in_part(source, a, b, p, at - DIAGRAM_OPEN@.len());
        }
    }
}

/// Putting the first `count` blocks back leaves no occurrence of the
/// placeholder prefix, if it occurs only where the placeholder of one of them
/// stands.
pub proof fn lemma_restored_below_is_clean(body: Seq<char>, blocks: Seq<Seq<char>>, count: nat)
    requires
        count <= blocks.len(),
        sources_are_clean(blocks),
        holds_only_placeholders(body, count),
    ensures
        !contains(restored_below(body, blocks, count), MERMAID_PLACEHOLDER@),
    decreases count,
{
    let p = MERMAID_PLACEHOLDER@;
    if count == 0 {
        assert forall|at: int| !occurs_at(body, p, at) by {}
    } else {
        let last = (count - 1) as nat;
        let markup = diagram_markup(blocks[last as int]);
        lemma_markup_is_inert(blocks[last as int]);
        lemma_put_back_one(body, count, markup);
        lemma_restored_below_is_clean(replace_all(body, placeholder(last), markup), blocks, last);
    }
}

/// Every placeholder is replaced: if the placeholder prefix occurs in a body
/// only where the placeholder of one of the diagrams stands, and in none of
/// the diagrams' sources, then it occurs nowhere after the diagrams were put
/// back.
pub proof fn lemma_every_placeholder_is_replaced(body: Seq<char>, blocks: Seq<Seq<char>>)
    requires
        holds_only_placeholders(body, blocks.len()),
        sources_are_clean(blocks),
    ensures
        !contains(restored(body, blocks), MERMAID_PLACEHOLDER@),
{
    lemma_restored_below_is_clean(body, blocks, blocks.len());
}

/// Whether `body` is framed: it is not empty, begins with a character that
/// the placeholder prefix does not hold, and ends with a character that no
/// placeholder holds. A body that begins with the opening of a tag and ends
/// with the end of one is framed.
pub open spec fn is_framed(body: Seq<char>) -> bool {
    &&& body.len() > 0
    &&& !is_name_char(body[0])
    &&& !is_name_char(body.last())
    &&& !is_digit(body.last())
}

/// A text that does not end with the last character of the pattern ends as
/// before after a replacement.
pub proof fn lemma_replaced_keeps_end(s: Seq<char>, pattern: Seq<char>, replacement: Seq<char>)
    requires
        pattern.len() > 0,
        s.len() > 0,
        s.last() != pattern.last(),
    ensures
        replace_all(s, pattern, replacement).len() > 0,
        replace_all(s, pattern, replacement).last() == s.last(),
    decreases s.len(),
{
    let n = pattern.len() as int;
    if s.len() < n {
    } else if s.take(n) == pattern {
        if s.len() == n {
            assert(s.take(n) == s);
        }
        let rest = s.skip(n);
        assert(rest.last() == s.last());
        lemma_replaced_keeps_end(rest, pattern, replacement);
    } else {
        let rest = s.drop_first();
        if rest.len() > 0 {
            assert(rest.last() == s.last());
            lemma_replaced_keeps_end(rest, pattern, replacement);
        } else {
            assert(replace_all(rest, pattern, replacement) == rest);
        }
    }
}

/// A framed body is framed after the blocks were put back.
pub proof fn lemma_restored_is_framed(body: Seq<char>, blocks: Seq<Seq<char>>, count: nat)
    requires
        count <= blocks.len(),
        is_framed(body),
    ensures
        is_framed(restored_below(body, blocks, count)),
    decreases count,
{
    if count > 0 {
        let last = (count - 1) as nat;
        let pattern = placeholder(last);
        let markup = diagram_markup(blocks[last as int]);
        lemma_prefix_is_a_name();
        lemma_decimal(last);
        assert(pattern[0] == MERMAID_PLACEHOLDER@[0]);
        assert(is_name_char(MERMAID_PLACEHOLDER@[0]));
        assert(pattern.last() == decimal(last).last());
        lemma_replaced_keeps_start(body, pattern, markup, 1);
        lemma_replaced_keeps_end(body, pattern, markup);
        let next = replace_all(body, pattern, markup);
        assert(next[0] == next.take(1)[0]);
        assert(body[0] == body.take(1)[0]);
        lemma_restored_is_framed(next, blocks, last);
    }
}

/// A text without the placeholder prefix holds none after a replacement, if
/// what is put in holds none, is not empty, and begins and ends with a
/// character that the prefix does not hold.
pub proof fn lemma_replaced_stays_clean(s: Seq<char>, pattern: Seq<char>, replacement: Seq<char>)
    requires
        !contains(s, MERMAID_PLACEHOLDER@),
        is_inert(replacement),
    ensures
        !contains(replace_all(s, pattern, replacement), MERMAID_PLACEHOLDER@),
    decreases s.len(),
{
    lemma_prefix_is_a_name();
    let p = MERMAID_PLACEHOLDER@;
    let len = p.len() as int;
    let n = pattern.len() as int;
    let r = replace_all(s, pattern, replacement);
    if pattern.len() == 0 || s.len() < pattern.len() {
    } else if s.take(n) == pattern {
        let cut = replacement.len() as int;
        let rest = s.skip(n);
        let rr = replace_all(rest, pattern, replacement);
        assert(!contains(rest, p)) by {
            assert forall|at: int| !occurs_at(rest, p, at) by {
                lemma_occurs_in_skip(s, p, n, at);
            }
        }
        lemma_replaced_stays_clean(rest, pattern, replacement);
        assert(r == replacement + rr);
        assert(r.skip(cut) == rr);
        assert forall|at: int| !occurs_at(r, p, at) by {
            if occurs_at(r, p, at) {
                if at >= cut {
                    lemma_occurs_in_skip(r, p, cut, at - cut);
                } else if at + len <= cut {
                    assert(r.subrange(at, at + len) == replacement.subrange(at, at + len));
                    assert(occurs_at(replacement, p, at));
                } else {
                    assert(r.subrange(at, at + len)[cut - 1 - at] == replacement.last());
                    assert(is_name_char(p[cut - 1 - at]));
                }
            }
        }
    } else {
        let rest = s.drop_first();
        let rr = replace_all(rest, pattern, replacement);
        assert(!contains(rest, p)) by {
            assert forall|at: int| !occurs_at(rest, p, at) by {
                lemma_occurs_in_skip(s, p, 1, at);
            }
        }
        lemma_replaced_stays_clean(rest, pattern, replacement);
        assert(r == seq![s[0]] + rr);
        assert(r.skip(1) == rr);
        assert forall|at: int| !occurs_at(r, p, at) by {
            if occurs_at(r, p, at) {
                if at >= 1 {
                    lemma_occurs_in_skip(r, p, 1, at - 1);
                } else {
                    assert(r.take(len) == r.subrange(0, len));
                    lemma_replaced_begins_alike(s, pattern, replacement, len);
                    assert(s.subrange(0, len) == s.take(len));
                    assert(occurs_at(s, p, 0));
                }
            }
        }
    }
}

/// Whether `line` does not hold the placeholder prefix, or is the placeholder
/// of one of the first `count` blocks.
pub open spec fn is_clean_or_placeholder(line: Seq<char>, count: nat) -> bool {
    !contains(line, MERMAID_PLACEHOLDER@) || exists|index: nat|
        index < count && line == placeholder(index)
}

/// In the text made of lines that do not hold the placeholder prefix, and of
/// placeholders, the prefix occurs only where a placeholder stands.
pub proof fn lemma_join_holds_only_placeholders(ls: Seq<Seq<char>>, count: nat)
    requires
        forall|i: int| 0 <= i < ls.len() ==> is_clean_or_placeholder(#[trigger] ls[i], count),
    ensures
        holds_only_placeholders(join_lines(ls), count),
        join_lines(ls).len() > 0 ==> join_lines(ls).last() == '\n',
    decreases ls.len(),
{
    lemma_prefix_is_a_name();
    let p = MERMAID_PLACEHOLDER@;
    let len = p.len() as int;
    if ls.len() > 0 {
        let before = join_lines(ls.drop_last());
        let line = ls.last();
        let all = join_lines(ls);
        let cut = before.len() as int;
        lemma_join_holds_only_placeholders(ls.drop_last(), count);
        assert(all == before + line + seq!['\n']);
        assert forall|at: int| #[trigger] occurs_at(all, p, at) implies exists|index: nat|
            index < count && occurs_at(all, placeholder(index), at) by {
            let found = all.subrange(at, at + len);
            if at + len <= cut {
                assert(found == before.subrange(at, at + len));
                assert(occurs_at(before, p, at));
                let index = choose|index: nat|
                    index < count && occurs_at(before, placeholder(index), at);
                let n = placeholder(index).len() as int;
                assert(all.subrange(at, at + n) == before.subrange(at, at + n));
                assert(occurs_at(all, placeholder(index), at));
            } else if at < cut {
                assert(found[cut - 1 - at] == before.last());
                assert(is_name_char(p[cut - 1 - at]));
            } else {
                if at + len > cut + line.len() {
                    assert(found[len - 1] == '\n');
                    assert(is_name_char(p[len - 1]));
                }
                assert(found == line.subrange(at - cut, at - cut + len));
                assert(occurs_at(line, p, at - cut));
                let index = choose|index: nat| index < count && line == placeholder(index);
                if at > cut {
                    lemma_decimal(index);
                    let i = at - cut + len - 1;
                    assert(line[i] == decimal(index)[i - len]);
                    assert(found[len - 1] == line[i]);
                    assert(is_name_char(p[len - 1]));
                }
                assert(all.subrange(cut, cut + line.len()) == line);
                assert(occurs_at(all, placeholder(index), at));
            }
        }
    } else {
        assert forall|at: int| !occurs_at(join_lines(ls), p, at) by {}
    }
}

/// Whether `line` is the placeholder of a block with a number from `from` on.
pub open spec fn is_placeholder_from(line: Seq<char>, blocks: Seq<Seq<char>>, from: nat) -> bool {
    exists|index: nat| from <= index < blocks.len() && line == placeholder(index)
}

/// `line` after the blocks with a number from `from` on were put back: the
/// element of its block if the line is the placeholder of one of them, else
/// the line as it is.
pub open spec fn line_put_back(line: Seq<char>, blocks: Seq<Seq<char>>, from: nat) -> Seq<char> {
    if is_placeholder_from(line, blocks, from) {
        diagram_markup(
            blocks[(choose|index: nat| from <= index < blocks.len() && line == placeholder(index)) as int],
        )
    } else {
        line
    }
}

/// The lines `ls` after the blocks with a number from `from` on were put back.
pub open spec fn lines_put_back(ls: Seq<Seq<char>>, blocks: Seq<Seq<char>>, from: nat) -> Seq<
    Seq<char>,
> {
    Seq::new(ls.len(), |k: int| line_put_back(ls[k], blocks, from))
}

/// What holds a placeholder holds the placeholder prefix.
pub proof fn lemma_placeholder_holds_prefix(s: Seq<char>, index: nat, at: int)
    requires
        occurs_at(s, placeholder(index), at),
    ensures
        occurs_at(s, MERMAID_PLACEHOLDER@, at),
{
    let p = MERMAID_PLACEHOLDER@;
    let whole = s.subrange(at, at + placeholder(index).len());
    assert(whole.take(p.len() as int) == p);
    assert(s.subrange(at, at + p.len()) == whole.take(p.len() as int));
}

/// The placeholder of a block holds that of no block with a higher number,
/// and the placeholder prefix only at its beginning.
pub proof fn lemma_placeholder_holds_no_later(index: nat, later: nat)
    requires
        index < later,
    ensures
        !contains(placeholder(index), placeholder(later)),
        placeholder(index) != placeholder(later),
        forall|k: int| 0 <= k < placeholder(index).len() ==> #[trigger] placeholder(index)[k]
            != '\n',
{
    lemma_prefix_is_a_name();
    lemma_decimal(index);
    lemma_decimal(later);
    let p = MERMAID_PLACEHOLDER@;
    let len = p.len() as int;
    let whole = placeholder(index);
    let pattern = placeholder(later);
    assert forall|k: int| 0 <= k < whole.len() implies #[trigger] whole[k] != '\n' by {
        if k < len {
            assert(is_name_char(p[k]));
        } else {
            assert(is_digit(decimal(index)[k - len]));
        }
    }
    assert forall|at: int| !occurs_at(whole, pattern, at) by {
        if occurs_at(whole, pattern, at) {
            lemma_placeholder_holds_prefix(whole, later, at);
            if at > 0 {
                let found = whole.subrange(at, at + len);
                assert(found[len - 1] == decimal(index)[at - 1]);
                assert(is_name_char(p[len - 1]));
            }
            let found = whole.subrange(0, pattern.len() as int);
            let d = decimal(later).len() as int;
            assert(decimal(index).take(d) =~= found.skip(len));
            assert(pattern.skip(len) =~= decimal(later));
            lemma_decimal_prefix(later, index);
        }
    }
    if whole == pattern {
        assert(whole.subrange(0, whole.len() as int) == whole);
        assert(occurs_at(whole, pattern, 0));
    }
}

/// What a line is after the blocks from `from` on were put back: a line
/// without the prefix stays; the placeholder of a block with a number from
/// `from` on is that block's element; the placeholder of another block stays.
pub proof fn lemma_line_put_back(line: Seq<char>, blocks: Seq<Seq<char>>, from: nat)
    ensures
        !contains(line, MERMAID_PLACEHOLDER@) ==> line_put_back(line, blocks, from) == line,
        forall|index: nat|
            index < blocks.len() && line == #[trigger] placeholder(index) ==> line_put_back(
                line,
                blocks,
                from,
            ) == if from <= index {
                diagram_markup(blocks[index as int])
            } else {
                line
            },
{
    let p = MERMAID_PLACEHOLDER@;
    if !contains(line, p) {
        if is_placeholder_from(line, blocks, from) {
            let index = choose|index: nat| from <= index < blocks.len() && line == placeholder(index);
            assert(line.subrange(0, line.len() as int) == line);
            lemma_placeholder_holds_prefix(line, index, 0);
        }
    }
    assert forall|index: nat| index < blocks.len() && line == #[trigger] placeholder(
        index,
    ) implies line_put_back(line, blocks, from) == if from <= index {
        diagram_markup(blocks[index as int])
    } else {
        line
    } by {
        if is_placeholder_from(line, blocks, from) {
            let other = choose|other: nat|
                from <= other < blocks.len() && line == placeholder(other);
            if other < index {
                lemma_placeholder_holds_no_later(other, index);
            } else if index < other {
                lemma_placeholder_holds_no_later(index, other);
            }
        }
    }
}

/// One step on one line: after the blocks from `count` on were put back, a
/// line is the placeholder of the block before them or does not hold it; and
/// with that placeholder replaced it is the line after the blocks from that
/// block on were put back.
pub proof fn lemma_put_back_line(line: Seq<char>, blocks: Seq<Seq<char>>, count: nat)
    requires
        0 < count <= blocks.len(),
        is_clean_or_placeholder(line, blocks.len()),
        sources_are_clean(blocks),
    ensures
        ({
            let last = (count - 1) as nat;
            let now = line_put_back(line, blocks, count);
            &&& now == placeholder(last) || !contains(now, placeholder(last))
            &&& line_replaced(now, placeholder(last), diagram_markup(blocks[last as int]))
                == line_put_back(line, blocks, last)
        }),
{
    let p = MERMAID_PLACEHOLDER@;
    let last = (count - 1) as nat;
    let pattern = placeholder(last);
    let now = line_put_back(line, blocks, count);
    lemma_line_put_back(line, blocks, count);
    lemma_line_put_back(line, blocks, last);
    if !contains(line, p) {
        assert forall|at: int| !occurs_at(line, pattern, at) by {
            if occurs_at(line, pattern, at) {
                lemma_placeholder_holds_prefix(line, last, at);
            }
        }
        if line == pattern {
            assert(line.subrange(0, line.len() as int) == line);
            assert(occurs_at(line, pattern, 0));
        }
    } else {
        let index = choose|index: nat| index < blocks.len() && line == placeholder(index);
        if index >= count {
            lemma_markup_is_inert(blocks[index as int]);
            assert forall|at: int| !occurs_at(now, pattern, at) by {
                if occurs_at(now, pattern, at) {
                    lemma_placeholder_holds_prefix(now, last, at);
                }
            }
            if now == pattern {
                assert(now.subrange(0, now.len() as int) == now);
                assert(occurs_at(now, pattern, 0));
            }
        } else if index < last {
            lemma_placeholder_holds_no_later(index, last);
        }
    }
}

/// The blocks put back line by line: in a text made of lines that do not hold
/// the placeholder prefix, and of placeholders of the blocks, putting the
/// blocks back gives the same lines with the element of its own block in
/// place of each placeholder, if no source holds the prefix.
pub proof fn lemma_restored_line_by_line(ls: Seq<Seq<char>>, blocks: Seq<Seq<char>>)
    requires
        forall|k: int| 0 <= k < ls.len() ==> is_clean_or_placeholder(#[trigger] ls[k], blocks.len()),
        sources_are_clean(blocks),
    ensures
        restored(join_lines(ls), blocks) == join_lines(lines_put_back(ls, blocks, 0)),
{
    let all = blocks.len();
    assert(lines_put_back(ls, blocks, all) =~= ls) by {
        assert forall|k: int| 0 <= k < ls.len() implies line_put_back(ls[k], blocks, all)
            == ls[k] by {}
    }
    lemma_restored_below_line_by_line(ls, blocks, all);
}

/// The same, for the blocks below `count`, in a text in which those from
/// `count` on were put back.
pub proof fn lemma_restored_below_line_by_line(
    ls: Seq<Seq<char>>,
    blocks: Seq<Seq<char>>,
    count: nat,
)
    requires
        count <= blocks.len(),
        forall|k: int| 0 <= k < ls.len() ==> is_clean_or_placeholder(#[trigger] ls[k], blocks.len()),
        sources_are_clean(blocks),
    ensures
        restored_below(join_lines(lines_put_back(ls, blocks, count)), blocks, count)
            == join_lines(lines_put_back(ls, blocks, 0)),
    decreases count,
{
    if count > 0 {
        let last = (count - 1) as nat;
        let pattern = placeholder(last);
        let markup = diagram_markup(blocks[last as int]);
        let now = lines_put_back(ls, blocks, count);
        lemma_prefix_is_a_name();
        lemma_decimal(last);
        assert forall|i: int| 0 <= i < pattern.len() implies pattern[i] != '\n' by {
            if i < MERMAID_PLACEHOLDER@.len() {
                assert(is_name_char(MERMAID_PLACEHOLDER@[i]));
            } else {
                assert(is_digit(decimal(last)[i - MERMAID_PLACEHOLDER@.len()]));
            }
        }
        assert forall|k: int| 0 <= k < now.len() implies #[trigger] now[k] == pattern || !contains(
            now[k],
            pattern,
        ) by {
            lemma_put_back_line(ls[k], blocks, count);
        }
        lemma_replace_in_lines(now, pattern, markup);
        let next = Seq::new(now.len(), |k: int| line_replaced(now[k], pattern, markup));
        assert(next =~= lines_put_back(ls, blocks, last)) by {
            assert forall|k: int| 0 <= k < now.len() implies next[k] == lines_put_back(
                ls,
                blocks,
                last,
            )[k] by {
                lemma_put_back_line(ls[k], blocks, count);
            }
        }
        lemma_restored_below_line_by_line(ls, blocks, last);
    }
}

/// Each of the first `n` lines of a text that end a block has its number, and
/// each number below the number of blocks ended belongs to one of them.
pub proof fn lemma_each_block_has_its_line(ls: Seq<Seq<char>>, n: int, index: nat)
    requires
        0 <= n <= ls.len(),
        index < blocks_ended(ls, n),
    ensures
        exists|j: int| 0 <= j < n && #[trigger] ends_block(ls, j) && blocks_ended(ls, j) == index,
    decreases n,
{
    if n > 0 {
        if index < blocks_ended(ls, n - 1) {
            lemma_each_block_has_its_line(ls, n - 1, index);
        } else {
            assert(ends_block(ls, n - 1) && blocks_ended(ls, n - 1) == index);
        }
    }
}

/// What the first `n` lines of a text without the placeholder prefix put out
/// are lines without the prefix, and placeholders of the blocks ended.
pub proof fn lemma_lines_put_out_are_clean(ls: Seq<Seq<char>>, n: int)
    requires
        0 <= n <= ls.len(),
        forall|i: int| 0 <= i < ls.len() ==> !contains(#[trigger] ls[i], MERMAID_PLACEHOLDER@),
    ensures
        forall|i: int|
            0 <= i < lines_put_out(ls, n).len() ==> is_clean_or_placeholder(
                #[trigger] lines_put_out(ls, n)[i],
                blocks_ended(ls, n),
            ),
    decreases n,
{
    if n > 0 {
        lemma_lines_put_out_are_clean(ls, n - 1);
        let before = lines_put_out(ls, n - 1);
        let out = lines_put_out(ls, n);
        let count = blocks_ended(ls, n);
        assert forall|i: int| 0 <= i < out.len() implies is_clean_or_placeholder(
            #[trigger] out[i],
            count,
        ) by {
            if i < before.len() {
                assert(out[i] == before[i]);
                assert(is_clean_or_placeholder(before[i], blocks_ended(ls, n - 1)));
                if contains(out[i], MERMAID_PLACEHOLDER@) {
                    let index = choose|index: nat|
                        index < blocks_ended(ls, n - 1) && before[i] == placeholder(index);
                    assert(index < count && out[i] == placeholder(index));
                }
            } else if ends_block(ls, n - 1) {
                let index = blocks_ended(ls, n - 1);
                assert(index < count && out[i] == placeholder(index));
            } else {
                assert(out[i] == ls[n - 1]);
            }
        }
    }
}

/// The round trip: the diagrams of a text, put back into its processed text,
/// give the lines that were put out with the element of its own block in
/// place of each placeholder, and leave the placeholder prefix nowhere. (A
/// text that holds the prefix itself would keep it: the text is to hold it
/// nowhere.)
pub proof fn lemma_round_trip_leaves_no_placeholder(markdown: Seq<char>)
    requires
        !contains(markdown, MERMAID_PLACEHOLDER@),
    ensures
        holds_only_placeholders(processed_text(markdown), diagram_sources(markdown).len()),
        sources_are_clean(diagram_sources(markdown)),
        restored(processed_text(markdown), diagram_sources(markdown)) == join_lines(
            lines_put_back(extraction(markdown).output, diagram_sources(markdown), 0),
        ),
        !contains(
            restored(processed_text(markdown), diagram_sources(markdown)),
            MERMAID_PLACEHOLDER@,
        ),
{
    let p = MERMAID_PLACEHOLDER@;
    let ls = lines(markdown);
    let n = ls.len() as int;
    let blocks = diagram_sources(markdown);
    lemma_lines_are_parts(markdown);
    assert forall|i: int| 0 <= i < ls.len() implies !contains(#[trigger] ls[i], p) by {
        let (a, b) = choose|a: int, b: int|
            0 <= a <= b <= markdown.len() && #[trigger] ls[i] == #[trigger] markdown.subrange(
                a,
                b,
            );
        assert forall|at: int| !occurs_at(ls[i], p, at) by {
            if occurs_at(ls[i], p, at) {
                lemma_occurs_in_part(markdown, a, b, p, at);
            }
        }
    }
    lemma_one_diagram_per_fence(markdown);
    lemma_lines_put_out_are_clean(ls, n);
    lemma_join_holds_only_placeholders(extraction(markdown).output, blocks.len());
    assert forall|i: int| 0 <= i < blocks.len() implies !contains(#[trigger] blocks[i], p) by {
        lemma_each_block_has_its_line(ls, n, i as nat);
        let j = choose|j: int|
            0 <= j < n && #[trigger] ends_block(ls, j) && blocks_ended(ls, j) == i as nat;
        lemma_last_opening(ls, j);
        let part = ls.subrange(last_opening(ls, j) + 1, j);
        assert forall|k: int| 0 <= k < part.len() implies is_clean_or_placeholder(
            #[trigger] part[k],
            0,
        ) by {
            assert(part[k] == ls[k + last_opening(ls, j) + 1]);
        }
        lemma_join_holds_only_placeholders(part, 0);
        assert(blocks[i] == join_lines(part));
        assert forall|at: int| !occurs_at(blocks[i], p, at) by {}
    }
    lemma_every_placeholder_is_replaced(processed_text(markdown), blocks);
    lemma_restored_line_by_line(extraction(markdown).output, blocks);
}

} // verus!
