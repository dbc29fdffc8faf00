//! The title of a markdown text: what its first heading of level one says.

use crate::text::{
    append_range, chars_of, contains, lemma_part_of_part, lemma_parts_occur, lines, next_line,
    owned, string_of, trim, trim_bounds,
};
use vstd::prelude::*;

verus! {

/// The title of a text without a heading of level one.
pub const DEFAULT_TITLE: &'static str = "Document";

/// What `line` gives as a title: if the line, without the whitespace around
/// it, starts with `#` and a space, the rest of it without the whitespace
/// around it. A heading of a deeper level starts with `##` and gives none.
pub open spec fn heading_title(line: Seq<char>) -> Option<Seq<char>> {
    let t = trim(line);
    if t.len() >= 2 && t[0] == '#' && t[1] == ' ' {
        Some(trim(t.skip(2)))
    } else {
        None
    }
}

/// The title that the first line of `ls` with one gives, or the default title.
pub open spec fn first_title(ls: Seq<Seq<char>>) -> Seq<char>
    decreases ls.len(),
{
    if ls.len() == 0 {
        DEFAULT_TITLE@
    } else if heading_title(ls[0]) is Some {
        heading_title(ls[0])->0
    } else {
        first_title(ls.drop_first())
    }
}

/// The title of `markdown`.
pub open spec fn title_of(markdown: Seq<char>) -> Seq<char> {
    first_title(lines(markdown))
}

/// The title is that of the first line that gives one, and no line before it
/// gives one; it is the default title exactly if no line gives one or a line
/// gives the default title itself.
pub proof fn lemma_first_title(ls: Seq<Seq<char>>)
    ensures
        (forall|i: int| 0 <= i < ls.len() ==> heading_title(#[trigger] ls[i]) is None)
            ==> first_title(ls) == DEFAULT_TITLE@,
        forall|i: int|
            0 <= i < ls.len() && heading_title(#[trigger] ls[i]) is Some && (forall|j: int|
                0 <= j < i ==> heading_title(#[trigger] ls[j]) is None) ==> first_title(ls)
                == heading_title(ls[i])->0,
    decreases ls.len(),
{
    if ls.len() > 0 {
        let rest = ls.drop_first();
        lemma_first_title(rest);
        assert forall|i: int|
            0 <= i < ls.len() && heading_title(#[trigger] ls[i]) is Some && (forall|j: int|
                0 <= j < i ==> heading_title(#[trigger] ls[j]) is None) implies first_title(ls)
            == heading_title(ls[i])->0 by {
            if i > 0 {
                assert(heading_title(ls[0]) is None);
                assert(rest[i - 1] == ls[i]);
                assert forall|j: int| 0 <= j < i - 1 implies heading_title(
                    #[trigger] rest[j],
                ) is None by {
                    assert(rest[j] == ls[j + 1]);
                }
            }
        }
        if forall|i: int| 0 <= i < ls.len() ==> heading_title(#[trigger] ls[i]) is None {
            assert(heading_title(ls[0]) is None);
            assert forall|i: int| 0 <= i < rest.len() implies heading_title(
                #[trigger] rest[i],
            ) is None by {
                assert(rest[i] == ls[i + 1]);
            }
        }
    }
}

/// The title that a line gives occurs in the line.
pub proof fn lemma_heading_title_is_part(line: Seq<char>)
    requires
        heading_title(line) is Some,
    ensures
        contains(line, heading_title(line)->0),
{
    let t = trim(line);
    lemma_parts_occur(line);
    lemma_parts_occur(t);
    lemma_parts_occur(t.skip(2));
    lemma_part_of_part(t, t.skip(2), trim(t.skip(2)));
    lemma_part_of_part(line, t, trim(t.skip(2)));
}

/// The title of a text is the default title or occurs in the text.
pub proof fn lemma_title_is_part_or_default(markdown: Seq<char>)
    ensures
        title_of(markdown) == DEFAULT_TITLE@ || contains(markdown, title_of(markdown)),
{
    let ls = lines(markdown);
    lemma_parts_occur(markdown);
    lemma_first_title_is_of_a_line(ls);
    if title_of(markdown) != DEFAULT_TITLE@ {
        let i = choose|i: int|
            0 <= i < ls.len() && heading_title(ls[i]) == Some(first_title(ls));
        lemma_heading_title_is_part(ls[i]);
        lemma_part_of_part(markdown, ls[i], title_of(markdown));
    }
}

/// The title that lines give is the default title or the title that one of
/// them gives.
pub proof fn lemma_first_title_is_of_a_line(ls: Seq<Seq<char>>)
    ensures
        first_title(ls) == DEFAULT_TITLE@ || exists|i: int|
            0 <= i < ls.len() && heading_title(#[trigger] ls[i]) == Some(first_title(ls)),
    decreases ls.len(),
{
    if ls.len() > 0 {
        if heading_title(ls[0]) is Some {
            assert(heading_title(ls[0]) == Some(first_title(ls)));
        } else {
            let rest = ls.drop_first();
            lemma_first_title_is_of_a_line(rest);
            if first_title(rest) != DEFAULT_TITLE@ {
                let i = choose|i: int|
                    0 <= i < rest.len() && heading_title(#[trigger] rest[i]) == Some(
                        first_title(rest),
                    );
                assert(rest[i] == ls[i + 1]);
                assert(heading_title(ls[i + 1]) == Some(first_title(ls)));
            }
        }
    }
}

/// A heading of a deeper level gives no title: a line that starts with two
/// number signs is passed over.
pub proof fn lemma_deeper_heading_gives_no_title(line: Seq<char>)
    requires
        trim(line).len() >= 2,
        trim(line)[0] == '#',
        trim(line)[1] == '#',
    ensures
        heading_title(line) is None,
{
}

/// The title of `content`: what its first heading of level one says, or
/// `"Document"` if it has none.
pub fn extract_title(content: &str) -> (title: String)
    ensures
        title@ == title_of(content@),
{
    let v = chars_of(content);
    let mut pos: usize = 0;
    proof {
        assert(v@.skip(0) == v@);
    }
    while pos < v.len()
        invariant
            pos <= v.len(),
            v@ == content@,
            first_title(lines(v@.skip(pos as int))) == title_of(v@),
        decreases v.len() - pos,
    {
        let (end, next) = next_line(v.as_slice(), pos);
        proof {
            let ls = lines(v@.skip(pos as int));
            assert(ls[0] == v@.subrange(pos as int, end as int));
            assert(ls.drop_first() == lines(v@.skip(next as int)));
        }
        let (a, b) = trim_bounds(v.as_slice(), pos, end);
        if b - a >= 2 && v[a] == '#' && v[a + 1] == ' ' {
            let (c, d) = trim_bounds(v.as_slice(), a + 2, b);
            let mut out: Vec<char> = Vec::new();
            append_range(&mut out, v.as_slice(), c, d);
            proof {
                let ls = lines(v@.skip(pos as int));
                let t = v@.subrange(a as int, b as int);
                assert(t == trim(ls[0]));
                assert(t[0] == v@[a as int]);
                assert(t[1] == v@[a + 1]);
                assert(t.skip(2) == v@.subrange(a + 2, b as int));
            }
            return string_of(out.as_slice());
        }
        proof {
            let ls = lines(v@.skip(pos as int));
            let t = v@.subrange(a as int, b as int);
            assert(t == trim(ls[0]));
            if t.len() >= 2 {
                assert(t[0] == v@[a as int]);
                assert(t[1] == v@[a + 1]);
            }
        }
        pos = next;
    }
    proof {
        assert(lines(v@.skip(pos as int)) =~= Seq::<Seq<char>>::empty());
    }
    owned(DEFAULT_TITLE)
}

} // verus!
