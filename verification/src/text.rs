//! Character sequences: whitespace, trimming, lines, search and replacement.
//!
//! Every text in this crate is modelled as a `Seq<char>`, the view of `str` and
//! `String`. The executable functions work on `[char]`, so that a character is
//! reached by its index in constant time.

use vstd::prelude::*;

verus! {

/// `String::push` of std: appends `ch` to the end of `s` and changes nothing else.
pub assume_specification[ String::push ](s: &mut String, ch: char)
    ensures
        final(s)@ == old(s)@.push(ch),
;

// ---------------------------------------------------------------------------
// Conversions between strings and character vectors
// ---------------------------------------------------------------------------

/// The characters of `s`, in order.
pub fn chars_of(s: &str) -> (v: Vec<char>)
    ensures
        v@ == s@,
{
    let mut v: Vec<char> = Vec::new();
    for c in it: s.chars()
        invariant
            v@ == it.seq().take(it.index() as int),
            it.seq() == s@,
    {
        v.push(c);
    }
    v
}

/// The string made of the characters of `v`, in order.
pub fn string_of(v: &[char]) -> (s: String)
    ensures
        s@ == v@,
{
    let mut s = String::new();
    let mut i: usize = 0;
    while i < v.len()
        invariant
            i <= v.len(),
            s@ == v@.take(i as int),
        decreases v.len() - i,
    {
        s.push(v[i]);
        i += 1;
    }
    s
}

/// The string with the text of `s`.
pub fn owned(s: &str) -> (r: String)
    ensures
        r@ == s@,
{
    let v = chars_of(s);
    string_of(v.as_slice())
}

/// Appends the characters `v[lo..hi]` to `out`.
pub fn append_range(out: &mut Vec<char>, v: &[char], lo: usize, hi: usize)
    requires
        lo <= hi <= v.len(),
    ensures
        final(out)@ == old(out)@ + v@.subrange(lo as int, hi as int),
{
    let mut i: usize = lo;
    while i < hi
        invariant
            lo <= i <= hi <= v.len(),
            out@ == old(out)@ + v@.subrange(lo as int, i as int),
        decreases hi - i,
    {
        out.push(v[i]);
        i += 1;
    }
}

/// Appends all of `v` to `out`.
pub fn append_all(out: &mut Vec<char>, v: &[char])
    ensures
        final(out)@ == old(out)@ + v@,
{
    append_range(out, v, 0, v.len());
    assert(v@.subrange(0, v.len() as int) == v@);
}

/// Appends the characters of `s` to `out`.
pub fn append_str(out: &mut Vec<char>, s: &str)
    ensures
        final(out)@ == old(out)@ + s@,
{
    for c in it: s.chars()
        invariant
            out@ == old(out)@ + it.seq().take(it.index() as int),
            it.seq() == s@,
    {
        out.push(c);
    }
}

// ---------------------------------------------------------------------------
// Whitespace and trimming
// ---------------------------------------------------------------------------

/// The characters with the Unicode property `White_Space`.
pub open spec fn is_whitespace(c: char) -> bool {
    let n = c as u32;
    ||| 0x09 <= n <= 0x0D
    ||| n == 0x20
    ||| n == 0x85
    ||| n == 0xA0
    ||| n == 0x1680
    ||| 0x2000 <= n <= 0x200A
    ||| n == 0x2028
    ||| n == 0x2029
    ||| n == 0x202F
    ||| n == 0x205F
    ||| n == 0x3000
}

/// `s` without its leading whitespace.
pub open spec fn trim_start(s: Seq<char>) -> Seq<char>
    decreases s.len(),
{
    if s.len() > 0 && is_whitespace(s[0]) {
        trim_start(s.drop_first())
    } else {
        s
    }
}

/// `s` without its trailing whitespace.
pub open spec fn trim_end(s: Seq<char>) -> Seq<char>
    decreases s.len(),
{
    if s.len() > 0 && is_whitespace(s.last()) {
        trim_end(s.drop_last())
    } else {
        s
    }
}

/// `s` without its leading and trailing whitespace.
pub open spec fn trim(s: Seq<char>) -> Seq<char> {
    trim_end(trim_start(s))
}

/// Whether `c` has the Unicode property `White_Space`.
pub fn char_is_whitespace(c: char) -> (b: bool)
    ensures
        b == is_whitespace(c),
{
    let n: u32 = c as u32;
    (0x09 <= n && n <= 0x0D) || n == 0x20 || n == 0x85 || n == 0xA0 || n == 0x1680 || (0x2000 <= n
        && n <= 0x200A) || n == 0x2028 || n == 0x2029 || n == 0x202F || n == 0x205F || n == 0x3000
}

/// Leading whitespace is exactly what `trim_start` removes: if the first `k`
/// characters of `s` are whitespace and the next one is not, `trim_start(s)` is
/// `s` from `k` on.
pub proof fn lemma_trim_start_is_skip(s: Seq<char>, k: int)
    requires
        0 <= k <= s.len(),
        forall|i: int| 0 <= i < k ==> is_whitespace(#[trigger] s[i]),
        k < s.len() ==> !is_whitespace(s[k]),
    ensures
        trim_start(s) == s.skip(k),
    decreases k,
{
    if k == 0 {
        assert(s.skip(0) == s);
    } else {
        let t = s.drop_first();
        assert forall|i: int| 0 <= i < k - 1 implies is_whitespace(#[trigger] t[i]) by {
            assert(t[i] == s[i + 1]);
        }
        lemma_trim_start_is_skip(t, k - 1);
        assert(t.skip(k - 1) == s.skip(k));
    }
}

/// Trailing whitespace is exactly what `trim_end` removes: if the characters of
/// `s` from `k` on are whitespace and the one before them is not, `trim_end(s)`
/// is the first `k` characters of `s`.
pub proof fn lemma_trim_end_is_take(s: Seq<char>, k: int)
    requires
        0 <= k <= s.len(),
        forall|i: int| k <= i < s.len() ==> is_whitespace(#[trigger] s[i]),
        k > 0 ==> !is_whitespace(s[k - 1]),
    ensures
        trim_end(s) == s.take(k),
    decreases s.len() - k,
{
    if k == s.len() {
        assert(s.take(k) == s);
    } else {
        let t = s.drop_last();
        lemma_trim_end_is_take(t, k);
        assert(t.take(k) == s.take(k));
    }
}

/// What `trim` leaves of a text is a part of the text.
pub proof fn lemma_trim_is_part(s: Seq<char>)
    ensures
        exists|a: int, b: int| 0 <= a <= b <= s.len() && trim(s) == #[trigger] s.subrange(a, b),
{
    lemma_trim_start_is_part(s);
    let a = choose|a: int| 0 <= a <= s.len() && trim_start(s) == s.skip(a);
    let t = s.skip(a);
    lemma_trim_end_is_part(t);
    let b = choose|b: int| 0 <= b <= t.len() && trim_end(t) == t.take(b);
    assert(t.take(b) == s.subrange(a, a + b));
}

/// What `trim_start` leaves of a text is the text from some index on.
pub proof fn lemma_trim_start_is_part(s: Seq<char>)
    ensures
        exists|a: int| 0 <= a <= s.len() && trim_start(s) == #[trigger] s.skip(a),
    decreases s.len(),
{
    if s.len() > 0 && is_whitespace(s[0]) {
        let t = s.drop_first();
        lemma_trim_start_is_part(t);
        let a = choose|a: int| 0 <= a <= t.len() && trim_start(t) == t.skip(a);
        assert(t.skip(a) == s.skip(a + 1));
    } else {
        assert(s.skip(0) == s);
    }
}

/// What `trim_end` leaves of a text is the text up to some index.
pub proof fn lemma_trim_end_is_part(s: Seq<char>)
    ensures
        exists|b: int| 0 <= b <= s.len() && trim_end(s) == #[trigger] s.take(b),
    decreases s.len(),
{
    if s.len() > 0 && is_whitespace(s.last()) {
        let t = s.drop_last();
        lemma_trim_end_is_part(t);
        let b = choose|b: int| 0 <= b <= t.len() && trim_end(t) == t.take(b);
        assert(t.take(b) == s.take(b));
    } else {
        assert(s.take(s.len() as int) == s);
    }
}

/// The bounds `(a, b)` of `v[lo..hi]` without its leading and trailing whitespace.
pub fn trim_bounds(v: &[char], lo: usize, hi: usize) -> (r: (usize, usize))
    requires
        lo <= hi <= v.len(),
    ensures
        lo <= r.0 <= r.1 <= hi,
        v@.subrange(r.0 as int, r.1 as int) == trim(v@.subrange(lo as int, hi as int)),
{
    let mut a: usize = lo;
    while a < hi && char_is_whitespace(v[a])
        invariant
            lo <= a <= hi <= v.len(),
            forall|i: int| lo <= i < a ==> is_whitespace(#[trigger] v@[i]),
        decreases hi - a,
    {
        a += 1;
    }
    let mut b: usize = hi;
    while b > a && char_is_whitespace(v[b - 1])
        invariant
            a <= b <= hi <= v.len(),
            forall|i: int| b <= i < hi ==> is_whitespace(#[trigger] v@[i]),
        decreases b,
    {
        b -= 1;
    }
    proof {
        let s = v@.subrange(lo as int, hi as int);
        lemma_trim_start_is_skip(s, a - lo);
        let t = s.skip(a - lo);
        assert(t == v@.subrange(a as int, hi as int));
        lemma_trim_end_is_take(t, b - a);
        assert(t.take(b - a) == v@.subrange(a as int, b as int));
    }
    (a, b)
}

// ---------------------------------------------------------------------------
// Comparison
// ---------------------------------------------------------------------------

/// Whether `v[lo..hi]` is the sequence `pattern`.
pub fn range_equals(v: &[char], lo: usize, hi: usize, pattern: &[char]) -> (b: bool)
    requires
        lo <= hi <= v.len(),
    ensures
        b == (v@.subrange(lo as int, hi as int) == pattern@),
{
    if hi - lo != pattern.len() {
        return false;
    }
    let mut i: usize = 0;
    while i < pattern.len()
        invariant
            lo <= hi <= v.len(),
            hi - lo == pattern.len(),
            i <= pattern.len(),
            v@.subrange(lo as int, lo + i) == pattern@.take(i as int),
        decreases pattern.len() - i,
    {
        if v[lo + i] != pattern[i] {
            assert(v@.subrange(lo as int, hi as int)[i as int] != pattern@[i as int]);
            return false;
        }
        assert(v@.subrange(lo as int, lo + i + 1) == v@.subrange(lo as int, lo + i).push(
            v@[lo + i],
        ));
        assert(pattern@.take(i + 1) == pattern@.take(i as int).push(pattern@[i as int]));
        i += 1;
    }
    assert(pattern@.take(pattern.len() as int) == pattern@);
    true
}

/// The code of `c`, or of its lower-case form if `c` is one of `A` to `Z`.
pub open spec fn lower_code(c: char) -> int {
    if 'A' <= c <= 'Z' {
        c as u32 + 32
    } else {
        c as u32 as int
    }
}

/// Whether `s` and `word` are the same but for the case of the letters `a` to
/// `z`. No other character has two forms here.
pub open spec fn equal_ignoring_case(s: Seq<char>, word: Seq<char>) -> bool {
    s.len() == word.len() && forall|i: int|
        0 <= i < s.len() ==> lower_code(#[trigger] s[i]) == lower_code(word[i])
}

/// The code of `c`, or of its lower-case form if `c` is one of `A` to `Z`.
pub fn char_lower_code(c: char) -> (n: u32)
    ensures
        n == lower_code(c),
{
    let n: u32 = c as u32;
    if 'A' <= c && c <= 'Z' {
        n + 32
    } else {
        n
    }
}

/// Whether `v` and `word` are the same but for the case of the letters `a` to
/// `z`.
pub fn equals_ignoring_case(v: &[char], word: &[char]) -> (b: bool)
    ensures
        b == equal_ignoring_case(v@, word@),
{
    if v.len() != word.len() {
        return false;
    }
    let mut i: usize = 0;
    while i < v.len()
        invariant
            v.len() == word.len(),
            i <= v.len(),
            forall|j: int| 0 <= j < i ==> lower_code(#[trigger] v@[j]) == lower_code(word@[j]),
        decreases v.len() - i,
    {
        if char_lower_code(v[i]) != char_lower_code(word[i]) {
            return false;
        }
        i += 1;
    }
    true
}

/// Whether `s` begins with `prefix`.
pub open spec fn starts_with(s: Seq<char>, prefix: Seq<char>) -> bool {
    prefix.len() <= s.len() && s.take(prefix.len() as int) == prefix
}

// ---------------------------------------------------------------------------
// Lines
// ---------------------------------------------------------------------------

/// The index of the first line feed in `s`, or `s.len()` if it has none.
pub open spec fn first_newline(s: Seq<char>) -> nat
    decreases s.len(),
{
    if s.len() == 0 || s[0] == '\n' {
        0
    } else {
        1 + first_newline(s.drop_first())
    }
}

/// `line` without one trailing carriage return.
pub open spec fn strip_cr(line: Seq<char>) -> Seq<char> {
    if line.len() > 0 && line.last() == '\r' {
        line.drop_last()
    } else {
        line
    }
}

/// The lines of `s`. A line ends at a line feed; a carriage return right before
/// that line feed belongs to the line ending. Neither is part of the line. What
/// follows the last line feed is a line of its own unless it is empty, and it
/// keeps a carriage return at its end.
pub open spec fn lines(s: Seq<char>) -> Seq<Seq<char>>
    decreases s.len(),
{
    if s.len() == 0 {
        Seq::empty()
    } else {
        let k = first_newline(s) as int;
        if k >= s.len() {
            seq![s]
        } else {
            seq![strip_cr(s.take(k))] + lines(s.skip(k + 1))
        }
    }
}

/// `first_newline(s)` is an index of `s` or its length, no character before it
/// is a line feed, and the character at it, if there is one, is a line feed.
pub proof fn lemma_first_newline(s: Seq<char>)
    ensures
        first_newline(s) <= s.len(),
        forall|i: int| 0 <= i < first_newline(s) ==> #[trigger] s[i] != '\n',
        first_newline(s) < s.len() ==> s[first_newline(s) as int] == '\n',
    decreases s.len(),
{
    if s.len() == 0 || s[0] == '\n' {
    } else {
        let t = s.drop_first();
        lemma_first_newline(t);
        assert forall|i: int| 0 <= i < first_newline(s) implies #[trigger] s[i] != '\n' by {
            if i > 0 {
                assert(s[i] == t[i - 1]);
            }
        }
    }
}

/// The first index `k` with no line feed before it that is the length of `s`
/// or holds a line feed is `first_newline(s)`.
pub proof fn lemma_first_newline_is(s: Seq<char>, k: int)
    requires
        0 <= k <= s.len(),
        forall|i: int| 0 <= i < k ==> #[trigger] s[i] != '\n',
        k < s.len() ==> s[k] == '\n',
    ensures
        first_newline(s) == k,
    decreases k,
{
    if k == 0 {
    } else {
        let t = s.drop_first();
        assert forall|i: int| 0 <= i < k - 1 implies #[trigger] t[i] != '\n' by {
            assert(t[i] == s[i + 1]);
        }
        assert(s[0] != '\n');
        lemma_first_newline_is(t, k - 1);
    }
}

/// Where the line that starts at `pos` ends, and where the next line starts:
/// `v[pos..r.0]` is the first line of `v[pos..]`, and the lines after it are
/// those of `v[r.1..]`.
pub fn next_line(v: &[char], pos: usize) -> (r: (usize, usize))
    requires
        pos < v.len(),
    ensures
        pos <= r.0 <= r.1 <= v.len(),
        pos < r.1,
        lines(v@.skip(pos as int)) == seq![v@.subrange(pos as int, r.0 as int)] + lines(
            v@.skip(r.1 as int),
        ),
{
    let mut k: usize = pos;
    while k < v.len() && v[k] != '\n'
        invariant
            pos <= k <= v.len(),
            forall|i: int| pos <= i < k ==> #[trigger] v@[i] != '\n',
        decreases v.len() - k,
    {
        k += 1;
    }
    let ghost rest = v@.skip(pos as int);
    proof {
        lemma_first_newline_is(rest, k - pos);
    }
    if k == v.len() {
        proof {
            assert(rest == v@.subrange(pos as int, k as int));
            assert(v@.skip(k as int).len() == 0);
            assert(lines(v@.skip(k as int)) == Seq::<Seq<char>>::empty());
            assert(seq![rest] + Seq::<Seq<char>>::empty() == seq![rest]);
        }
        (k, k)
    } else {
        let end: usize = if k > pos && v[k - 1] == '\r' {
            k - 1
        } else {
            k
        };
        proof {
            let raw = rest.take(k - pos);
            assert(raw == v@.subrange(pos as int, k as int));
            assert(strip_cr(raw) == v@.subrange(pos as int, end as int));
            assert(rest.skip(k - pos + 1) == v@.skip(k + 1));
        }
        (end, k + 1)
    }
}

/// Every line of a text is a part of the text.
pub proof fn lemma_lines_are_parts(s: Seq<char>)
    ensures
        forall|i: int|
            0 <= i < lines(s).len() ==> exists|a: int, b: int|
                0 <= a <= b <= s.len() && #[trigger] lines(s)[i] == #[trigger] s.subrange(a, b),
    decreases s.len(),
{
    if s.len() > 0 {
        lemma_first_newline(s);
        let k = first_newline(s) as int;
        if k >= s.len() {
            assert(s.subrange(0, s.len() as int) == s);
        } else {
            let rest = s.skip(k + 1);
            lemma_lines_are_parts(rest);
            let head = strip_cr(s.take(k));
            assert forall|i: int| 0 <= i < lines(s).len() implies exists|a: int, b: int|
                0 <= a <= b <= s.len() && #[trigger] lines(s)[i] == #[trigger] s.subrange(
                    a,
                    b,
                ) by {
                if i == 0 {
                    assert(lines(s)[0] == head);
                    if head.len() < k {
                        assert(head == s.subrange(0, k - 1));
                    } else {
                        assert(head == s.subrange(0, k));
                    }
                } else {
                    assert(lines(s)[i] == lines(rest)[i - 1]);
                    let (a, b) = choose|a: int, b: int|
                        0 <= a <= b <= rest.len() && #[trigger] lines(rest)[i - 1]
                            == #[trigger] rest.subrange(a, b);
                    assert(rest.subrange(a, b) == s.subrange(a + k + 1, b + k + 1));
                }
            }
        }
    }
}

/// The text that holds each line of `ls` followed by a line feed.
pub open spec fn join_lines(ls: Seq<Seq<char>>) -> Seq<char>
    decreases ls.len(),
{
    if ls.len() == 0 {
        Seq::empty()
    } else {
        join_lines(ls.drop_last()) + ls.last() + seq!['\n']
    }
}

/// Joining one more line appends that line and a line feed.
pub proof fn lemma_join_lines_push(ls: Seq<Seq<char>>, line: Seq<char>)
    ensures
        join_lines(ls.push(line)) == join_lines(ls) + line + seq!['\n'],
{
    assert(ls.push(line).drop_last() == ls);
}

/// Joining a line and more lines gives that line, a line feed, and the rest.
pub proof fn lemma_join_lines_first(line: Seq<char>, ls: Seq<Seq<char>>)
    ensures
        join_lines(seq![line] + ls) == line + seq!['\n'] + join_lines(ls),
    decreases ls.len(),
{
    let all = seq![line] + ls;
    if ls.len() == 0 {
        assert(all.drop_last() == Seq::<Seq<char>>::empty());
        assert(join_lines(all.drop_last()) == Seq::<char>::empty());
        assert(Seq::<char>::empty() + line + seq!['\n'] == line + seq!['\n'] + Seq::<char>::empty());
    } else {
        assert(all.drop_last() == seq![line] + ls.drop_last());
        assert(all.last() == ls.last());
        lemma_join_lines_first(line, ls.drop_last());
        assert((line + seq!['\n'] + join_lines(ls.drop_last())) + ls.last() + seq!['\n'] == line
            + seq!['\n'] + (join_lines(ls.drop_last()) + ls.last() + seq!['\n']));
    }
}

/// Whether a carriage return stands at index `i` of `s` and a line feed
/// right behind it.
pub open spec fn crlf_at(s: Seq<char>, i: int) -> bool {
    0 <= i < s.len() - 1 && s[i] == '\r' && s[i + 1] == '\n'
}

/// Whether no line feed of `s` has a carriage return right before it.
pub open spec fn no_crlf(s: Seq<char>) -> bool {
    forall|i: int| !crlf_at(s, i)
}

/// `s` with a line feed at its end, unless it is empty or has one there.
pub open spec fn newline_terminated(s: Seq<char>) -> Seq<char> {
    if s.len() == 0 || s.last() == '\n' {
        s
    } else {
        s.push('\n')
    }
}

/// Splitting a text into lines and joining them again changes nothing but the
/// end of the text, where a line feed is added if there was none, as long as
/// no line ends in a carriage return and a line feed.
pub proof fn lemma_lines_rejoin(s: Seq<char>)
    requires
        no_crlf(s),
    ensures
        join_lines(lines(s)) == newline_terminated(s),
    decreases s.len(),
{
    if s.len() == 0 {
    } else {
        lemma_first_newline(s);
        let k = first_newline(s) as int;
        if k >= s.len() {
            lemma_join_lines_push(Seq::empty(), s);
            assert(Seq::<Seq<char>>::empty().push(s) == seq![s]);
            assert(s.last() != '\n');
            assert(Seq::<char>::empty() + s + seq!['\n'] == s.push('\n'));
        } else {
            let head = s.take(k);
            let rest = s.skip(k + 1);
            assert(strip_cr(head) == head) by {
                if head.len() > 0 && head.last() == '\r' {
                    assert(crlf_at(s, k - 1));
                }
            }
            assert(no_crlf(rest)) by {
                assert forall|i: int| !crlf_at(rest, i) by {
                    if crlf_at(rest, i) {
                        assert(crlf_at(s, i + k + 1));
                    }
                }
            }
            lemma_lines_rejoin(rest);
            lemma_join_lines_first(head, lines(rest));
            assert(s == head + seq!['\n'] + rest);
            if rest.len() == 0 {
                assert(s.last() == '\n');
            } else if rest.last() == '\n' {
                assert(s.last() == rest.last());
            } else {
                assert(s.last() == rest.last());
                assert(head + seq!['\n'] + rest.push('\n') == (head + seq!['\n'] + rest).push(
                    '\n',
                ));
            }
        }
    }
}

/// The texts of the strings of `v`, in order.
pub open spec fn texts(v: Seq<String>) -> Seq<Seq<char>> {
    v.map_values(|s: String| s@)
}

/// The texts of a vector with one more string are the texts before, and the
/// text of that string.
pub proof fn lemma_texts_push(v: Seq<String>, s: String)
    ensures
        texts(v.push(s)) == texts(v).push(s@),
{
    assert(texts(v.push(s)) =~= texts(v).push(s@));
}

// ---------------------------------------------------------------------------
// Search and replacement
// ---------------------------------------------------------------------------

/// Whether `pattern` stands in `s` at index `at`.
pub open spec fn occurs_at(s: Seq<char>, pattern: Seq<char>, at: int) -> bool {
    0 <= at && at + pattern.len() <= s.len() && s.subrange(at, at + pattern.len()) == pattern
}

/// Whether `pattern` stands somewhere in `s`.
pub open spec fn contains(s: Seq<char>, pattern: Seq<char>) -> bool {
    exists|at: int| occurs_at(s, pattern, at)
}

/// `s` with `replacement` in place of every occurrence of `pattern`. The
/// occurrences are taken from left to right and do not overlap: the search goes
/// on behind an occurrence that was replaced, and what was put in is not
/// searched again. An empty `pattern` occurs nowhere.
pub open spec fn replace_all(s: Seq<char>, pattern: Seq<char>, replacement: Seq<char>) -> Seq<
    char,
>
    decreases s.len(),
{
    if pattern.len() == 0 || s.len() < pattern.len() {
        s
    } else if s.take(pattern.len() as int) == pattern {
        replacement + replace_all(s.skip(pattern.len() as int), pattern, replacement)
    } else {
        seq![s[0]] + replace_all(s.drop_first(), pattern, replacement)
    }
}

/// `v` with `replacement` in place of every occurrence of `pattern`.
pub fn replace(v: &[char], pattern: &[char], replacement: &[char]) -> (out: Vec<char>)
    ensures
        out@ == replace_all(v@, pattern@, replacement@),
{
    let mut out: Vec<char> = Vec::new();
    if pattern.len() == 0 {
        append_all(&mut out, v);
        return out;
    }
    let mut i: usize = 0;
    proof {
        assert(v@.skip(0) == v@);
    }
    while i < v.len() && pattern.len() <= v.len() - i
        invariant
            i <= v.len(),
            pattern.len() > 0,
            out@ + replace_all(v@.skip(i as int), pattern@, replacement@) == replace_all(
                v@,
                pattern@,
                replacement@,
            ),
        decreases v.len() - i,
    {
        let ghost rest = v@.skip(i as int);
        let ghost before = out@;
        proof {
            assert(rest.take(pattern.len() as int) == v@.subrange(
                i as int,
                i + pattern.len(),
            ));
        }
        if range_equals(v, i, i + pattern.len(), pattern) {
            append_all(&mut out, replacement);
            proof {
                assert(rest.skip(pattern.len() as int) == v@.skip(i + pattern.len()));
                let tail = replace_all(v@.skip(i + pattern.len()), pattern@, replacement@);
                assert((before + replacement@) + tail == before + (replacement@ + tail));
            }
            i += pattern.len();
        } else {
            out.push(v[i]);
            proof {
                assert(rest.drop_first() == v@.skip(i + 1));
                let tail = replace_all(v@.skip(i + 1), pattern@, replacement@);
                assert(before.push(v@[i as int]) + tail == before + (seq![rest[0]] + tail));
            }
            i += 1;
        }
    }
    proof {
        assert(replace_all(v@.skip(i as int), pattern@, replacement@) == v@.skip(i as int));
        assert(v@.skip(i as int) == v@.subrange(i as int, v.len() as int));
    }
    append_range(&mut out, v, i, v.len());
    out
}

/// An occurrence in the rest of a text is an occurrence in the text.
pub proof fn lemma_occurs_in_skip(s: Seq<char>, pattern: Seq<char>, k: int, at: int)
    requires
        0 <= k <= s.len(),
    ensures
        occurs_at(s.skip(k), pattern, at) <==> (at >= 0 && occurs_at(s, pattern, at + k)),
{
    if at >= 0 && at + pattern.len() <= s.len() - k {
        assert(s.skip(k).subrange(at, at + pattern.len()) == s.subrange(
            at + k,
            at + k + pattern.len(),
        ));
    }
}

/// What occurs in a part of a text occurs in the text.
pub proof fn lemma_occurs_in_part(s: Seq<char>, a: int, b: int, pattern: Seq<char>, at: int)
    requires
        0 <= a <= b <= s.len(),
        occurs_at(s.subrange(a, b), pattern, at),
    ensures
        occurs_at(s, pattern, a + at),
{
    assert(s.subrange(a, b).subrange(at, at + pattern.len()) == s.subrange(
        a + at,
        a + at + pattern.len(),
    ));
}

/// What occurs in a text that occurs in another text occurs in that text.
pub proof fn lemma_part_of_part(s: Seq<char>, part: Seq<char>, pattern: Seq<char>)
    requires
        contains(s, part),
        contains(part, pattern),
    ensures
        contains(s, pattern),
{
    let a = choose|a: int| occurs_at(s, part, a);
    let b = choose|b: int| occurs_at(part, pattern, b);
    lemma_occurs_in_part(s, a, a + part.len(), pattern, b);
}

/// What `trim` leaves of a text occurs in the text, and so does each line of
/// a text, and a text from some index on.
pub proof fn lemma_parts_occur(s: Seq<char>)
    ensures
        contains(s, trim(s)),
        forall|i: int| 0 <= i < lines(s).len() ==> contains(s, #[trigger] lines(s)[i]),
        forall|k: int| 0 <= k <= s.len() ==> contains(s, #[trigger] s.skip(k)),
{
    lemma_trim_is_part(s);
    let (a, b) = choose|a: int, b: int|
        0 <= a <= b <= s.len() && trim(s) == #[trigger] s.subrange(a, b);
    assert(occurs_at(s, trim(s), a));
    lemma_lines_are_parts(s);
    assert forall|i: int| 0 <= i < lines(s).len() implies contains(s, #[trigger] lines(s)[i]) by {
        let (a, b) = choose|a: int, b: int|
            0 <= a <= b <= s.len() && lines(s)[i] == #[trigger] s.subrange(a, b);
        assert(occurs_at(s, lines(s)[i], a));
    }
    assert forall|k: int| 0 <= k <= s.len() implies contains(s, #[trigger] s.skip(k)) by {
        assert(s.skip(k) == s.subrange(k, k + s.skip(k).len()));
        assert(occurs_at(s, s.skip(k), k));
    }
}

/// A text without an occurrence of `pattern` is left as it is.
pub proof fn lemma_replace_nothing(s: Seq<char>, pattern: Seq<char>, replacement: Seq<char>)
    requires
        !contains(s, pattern),
    ensures
        replace_all(s, pattern, replacement) == s,
    decreases s.len(),
{
    if pattern.len() == 0 || s.len() < pattern.len() {
    } else {
        if s.take(pattern.len() as int) == pattern {
            assert(s.subrange(0, pattern.len() as int) == s.take(pattern.len() as int));
            assert(occurs_at(s, pattern, 0));
        }
        let rest = s.drop_first();
        assert(!contains(rest, pattern)) by {
            assert forall|at: int| !occurs_at(rest, pattern, at) by {
                lemma_occurs_in_skip(s, pattern, 1, at);
            }
        }
        lemma_replace_nothing(rest, pattern, replacement);
        assert(seq![s[0]] + rest == s);
    }
}

/// The first occurrence of a pattern is replaced, what stands before it is
/// kept, and the replacement goes on behind it.
pub proof fn lemma_replace_first(
    s: Seq<char>,
    pattern: Seq<char>,
    replacement: Seq<char>,
    at: int,
)
    requires
        pattern.len() > 0,
        occurs_at(s, pattern, at),
        forall|i: int| 0 <= i < at ==> !occurs_at(s, pattern, i),
    ensures
        replace_all(s, pattern, replacement) == s.take(at) + replacement + replace_all(
            s.skip(at + pattern.len()),
            pattern,
            replacement,
        ),
    decreases at,
{
    let n = pattern.len() as int;
    assert(s.take(n) == s.subrange(0, n));
    if at == 0 {
        assert(s.take(0) + replacement == replacement);
    } else {
        assert(!occurs_at(s, pattern, 0));
        let rest = s.drop_first();
        lemma_occurs_in_skip(s, pattern, 1, at - 1);
        assert forall|i: int| 0 <= i < at - 1 implies !occurs_at(rest, pattern, i) by {
            lemma_occurs_in_skip(s, pattern, 1, i);
        }
        lemma_replace_first(rest, pattern, replacement, at - 1);
        assert(rest.skip(at - 1 + n) == s.skip(at + n));
        let after = replace_all(s.skip(at + n), pattern, replacement);
        assert(seq![s[0]] + (rest.take(at - 1) + replacement + after) == s.take(at) + replacement
            + after);
    }
}

/// A text with one occurrence of a marker: the marker is replaced, and nothing
/// else is changed.
pub proof fn lemma_replace_single(
    before: Seq<char>,
    marker: Seq<char>,
    after: Seq<char>,
    replacement: Seq<char>,
)
    requires
        marker.len() > 0,
        forall|i: int| 0 <= i < before.len() ==> !occurs_at(before + marker + after, marker, i),
        !contains(after, marker),
    ensures
        replace_all(before + marker + after, marker, replacement) == before + replacement + after,
{
    let s = before + marker + after;
    let at = before.len() as int;
    assert(s.subrange(at, at + marker.len()) == marker);
    lemma_replace_first(s, marker, replacement, at);
    assert(s.take(at) == before);
    assert(s.skip(at + marker.len()) == after);
    lemma_replace_nothing(after, marker, replacement);
}

/// A text that is the pattern becomes the replacement.
pub proof fn lemma_replace_whole(pattern: Seq<char>, replacement: Seq<char>)
    requires
        pattern.len() > 0,
    ensures
        replace_all(pattern, pattern, replacement) == replacement,
{
    assert(pattern.take(pattern.len() as int) == pattern);
    assert(pattern.skip(pattern.len() as int) == Seq::<char>::empty());
    assert(replace_all(Seq::<char>::empty(), pattern, replacement) == Seq::<char>::empty());
    assert(replacement + Seq::<char>::empty() == replacement);
}

/// Whether no occurrence of `pattern` in `a + b` lies across the place where
/// `a` ends and `b` begins.
pub open spec fn none_across(a: Seq<char>, b: Seq<char>, pattern: Seq<char>) -> bool {
    forall|at: int| #[trigger]
        occurs_at(a + b, pattern, at) ==> at + pattern.len() <= a.len() || at >= a.len()
}

/// Two texts one behind the other are replaced in each for itself, if no
/// occurrence of the pattern lies across the place where they meet.
pub proof fn lemma_replace_concat(
    a: Seq<char>,
    b: Seq<char>,
    pattern: Seq<char>,
    replacement: Seq<char>,
)
    requires
        pattern.len() > 0,
        none_across(a, b, pattern),
    ensures
        replace_all(a + b, pattern, replacement) == replace_all(a, pattern, replacement)
            + replace_all(b, pattern, replacement),
    decreases a.len(),
{
    let n = pattern.len() as int;
    let all = a + b;
    if a.len() == 0 {
        assert(all == b);
        assert(replace_all(a, pattern, replacement) + replace_all(b, pattern, replacement)
            == replace_all(b, pattern, replacement));
    } else if all.len() < n {
        assert(a + b == all);
    } else if all.take(n) == pattern {
        assert(all.subrange(0, n) == all.take(n));
        assert(occurs_at(all, pattern, 0));
        assert(a.take(n) == all.take(n));
        let rest = a.skip(n);
        assert(all.skip(n) == rest + b);
        assert(none_across(rest, b, pattern)) by {
            assert forall|at: int| #[trigger] occurs_at(rest + b, pattern, at) implies at + n
                <= rest.len() || at >= rest.len() by {
                lemma_occurs_in_skip(all, pattern, n, at);
            }
        }
        lemma_replace_concat(rest, b, pattern, replacement);
        let ra = replace_all(rest, pattern, replacement);
        let rb = replace_all(b, pattern, replacement);
        assert(replacement + (ra + rb) == (replacement + ra) + rb);
    } else {
        if a.len() >= n && a.take(n) == pattern {
            assert(all.take(n) == a.take(n));
        }
        let rest = a.drop_first();
        assert(all.drop_first() == rest + b);
        assert(none_across(rest, b, pattern)) by {
            assert forall|at: int| #[trigger] occurs_at(rest + b, pattern, at) implies at + n
                <= rest.len() || at >= rest.len() by {
                lemma_occurs_in_skip(all, pattern, 1, at);
            }
        }
        lemma_replace_concat(rest, b, pattern, replacement);
        let ra = replace_all(rest, pattern, replacement);
        let rb = replace_all(b, pattern, replacement);
        assert(seq![a[0]] + (ra + rb) == (seq![a[0]] + ra) + rb);
        if a.len() < n {
            assert(replace_all(rest, pattern, replacement) == rest);
            assert(seq![a[0]] + rest == a);
        }
    }
}

/// `line`, or `replacement` if `line` is `pattern`.
pub open spec fn line_replaced(line: Seq<char>, pattern: Seq<char>, replacement: Seq<char>) -> Seq<
    char,
> {
    if line == pattern {
        replacement
    } else {
        line
    }
}

/// In a text made of lines that are the pattern or do not hold it, the
/// lines that are the pattern are replaced, and nothing else is changed, if
/// the pattern holds no line feed.
pub proof fn lemma_replace_in_lines(
    ls: Seq<Seq<char>>,
    pattern: Seq<char>,
    replacement: Seq<char>,
)
    requires
        pattern.len() > 0,
        forall|i: int| 0 <= i < pattern.len() ==> pattern[i] != '\n',
        forall|k: int| 0 <= k < ls.len() ==> #[trigger] ls[k] == pattern || !contains(ls[k], pattern),
    ensures
        replace_all(join_lines(ls), pattern, replacement) == join_lines(
            Seq::new(ls.len(), |k: int| line_replaced(ls[k], pattern, replacement)),
        ),
    decreases ls.len(),
{
    let n = pattern.len() as int;
    let out = Seq::new(ls.len(), |k: int| line_replaced(ls[k], pattern, replacement));
    if ls.len() == 0 {
        assert(join_lines(ls) == Seq::<char>::empty());
        assert(join_lines(out) == Seq::<char>::empty());
    } else {
        let line = ls[0];
        let rest = ls.drop_first();
        let feed = seq!['\n'];
        assert(ls == seq![line] + rest);
        lemma_join_lines_first(line, rest);
        let head = line + feed;
        let tail = join_lines(rest);
        assert(join_lines(ls) == head + tail);
        assert(none_across(head, tail, pattern)) by {
            assert forall|at: int| #[trigger] occurs_at(head + tail, pattern, at) implies at + n
                <= head.len() || at >= head.len() by {
                if at < head.len() && at + n > head.len() {
                    let found = (head + tail).subrange(at, at + n);
                    assert(found[head.len() - 1 - at] == '\n');
                }
            }
        }
        lemma_replace_concat(head, tail, pattern, replacement);
        assert(none_across(line, feed, pattern)) by {
            assert forall|at: int| #[trigger] occurs_at(line + feed, pattern, at) implies at + n
                <= line.len() || at >= line.len() by {
                if at < line.len() && at + n > line.len() {
                    let found = (line + feed).subrange(at, at + n);
                    assert(found[line.len() - at] == '\n');
                }
            }
        }
        lemma_replace_concat(line, feed, pattern, replacement);
        assert(!contains(feed, pattern)) by {
            assert forall|at: int| !occurs_at(feed, pattern, at) by {
                if occurs_at(feed, pattern, at) {
                    assert(feed.subrange(at, at + n)[0] == '\n');
                }
            }
        }
        lemma_replace_nothing(feed, pattern, replacement);
        assert(ls[0] == pattern || !contains(ls[0], pattern));
        if line == pattern {
            lemma_replace_whole(pattern, replacement);
        } else {
            lemma_replace_nothing(line, pattern, replacement);
        }
        assert forall|k: int| 0 <= k < rest.len() implies #[trigger] rest[k] == pattern || !contains(
            rest[k],
            pattern,
        ) by {
            assert(rest[k] == ls[k + 1]);
        }
        lemma_replace_in_lines(rest, pattern, replacement);
        let out_rest = Seq::new(rest.len(), |k: int| line_replaced(rest[k], pattern, replacement));
        assert(out =~= seq![line_replaced(line, pattern, replacement)] + out_rest);
        lemma_join_lines_first(line_replaced(line, pattern, replacement), out_rest);
    }
}

// ---------------------------------------------------------------------------
// Decimal numbers
// ---------------------------------------------------------------------------

/// The decimal digit for `d`.
pub open spec fn digit_char(d: nat) -> char
    recommends
        d < 10,
{
    if d == 0 {
        '0'
    } else if d == 1 {
        '1'
    } else if d == 2 {
        '2'
    } else if d == 3 {
        '3'
    } else if d == 4 {
        '4'
    } else if d == 5 {
        '5'
    } else if d == 6 {
        '6'
    } else if d == 7 {
        '7'
    } else if d == 8 {
        '8'
    } else {
        '9'
    }
}

/// Whether `c` is one of the ten decimal digits.
pub open spec fn is_digit(c: char) -> bool {
    '0' <= c <= '9'
}

/// `n` written in decimal, without leading zeros.
pub open spec fn decimal(n: nat) -> Seq<char>
    decreases n,
{
    if n < 10 {
        seq![digit_char(n)]
    } else {
        decimal(n / 10).push(digit_char(n % 10))
    }
}

/// The number that the decimal digit `c` stands for.
pub open spec fn digit_value(c: char) -> nat
    recommends
        is_digit(c),
{
    (c as u32 - '0' as u32) as nat
}

/// The number that the decimal digits `s` stand for.
pub open spec fn decimal_value(s: Seq<char>) -> nat
    decreases s.len(),
{
    if s.len() == 0 {
        0
    } else {
        decimal_value(s.drop_last()) * 10 + digit_value(s.last())
    }
}

/// `decimal(n)` is made of digits, is not empty, and stands for `n`.
pub proof fn lemma_decimal(n: nat)
    ensures
        decimal(n).len() > 0,
        forall|i: int| 0 <= i < decimal(n).len() ==> is_digit(#[trigger] decimal(n)[i]),
        decimal_value(decimal(n)) == n,
    decreases n,
{
    if n < 10 {
        assert(seq![digit_char(n)].drop_last() == Seq::<char>::empty());
        assert(decimal_value(Seq::<char>::empty()) == 0);
    } else {
        lemma_decimal(n / 10);
        assert(decimal(n).drop_last() == decimal(n / 10));
    }
}

/// The digits at the beginning of a number stand for no more than the number.
pub proof fn lemma_value_of_prefix(s: Seq<char>, m: int)
    requires
        0 <= m <= s.len(),
    ensures
        decimal_value(s.take(m)) <= decimal_value(s),
    decreases s.len() - m,
{
    if m == s.len() {
        assert(s.take(m) == s);
    } else {
        assert(s.drop_last().take(m) == s.take(m));
        lemma_value_of_prefix(s.drop_last(), m);
    }
}

/// A number whose decimal form is the beginning of that of another number is
/// no more than that number.
pub proof fn lemma_decimal_prefix(a: nat, b: nat)
    requires
        decimal(a).len() <= decimal(b).len(),
        decimal(b).take(decimal(a).len() as int) == decimal(a),
    ensures
        a <= b,
{
    lemma_decimal(a);
    lemma_decimal(b);
    lemma_value_of_prefix(decimal(b), decimal(a).len() as int);
}

/// Two numbers with the same decimal form are the same number.
pub proof fn lemma_decimal_is_injective(a: nat, b: nat)
    requires
        decimal(a) == decimal(b),
    ensures
        a == b,
{
    lemma_decimal(a);
    lemma_decimal(b);
}

/// The decimal digit for `d`.
pub fn digit(d: u64) -> (c: char)
    requires
        d < 10,
    ensures
        c == digit_char(d as nat),
{
    if d == 0 {
        '0'
    } else if d == 1 {
        '1'
    } else if d == 2 {
        '2'
    } else if d == 3 {
        '3'
    } else if d == 4 {
        '4'
    } else if d == 5 {
        '5'
    } else if d == 6 {
        '6'
    } else if d == 7 {
        '7'
    } else if d == 8 {
        '8'
    } else {
        '9'
    }
}

/// Appends `n` in decimal to `out`.
pub fn append_decimal(out: &mut Vec<char>, n: u64)
    ensures
        final(out)@ == old(out)@ + decimal(n as nat),
    decreases n,
{
    if n >= 10 {
        append_decimal(out, n / 10);
    }
    out.push(digit(n % 10));
    proof {
        if n >= 10 {
            assert(old(out)@ + decimal(n as nat) == (old(out)@ + decimal((n / 10) as nat)).push(
                digit_char((n % 10) as nat),
            ));
        } else {
            assert(old(out)@ + decimal(n as nat) == old(out)@.push(digit_char(n as nat)));
        }
    }
}

/// `n` written in decimal, with a minus sign before it if it is negative.
pub open spec fn signed_decimal(n: int) -> Seq<char> {
    if n < 0 {
        seq!['-'] + decimal((-n) as nat)
    } else {
        decimal(n as nat)
    }
}

/// Appends `n` in decimal to `out`, with a minus sign before it if it is
/// negative.
pub fn append_signed_decimal(out: &mut Vec<char>, n: i64)
    ensures
        final(out)@ == old(out)@ + signed_decimal(n as int),
{
    if n < 0 {
        out.push('-');
        let below: u64 = (-(n + 1)) as u64;
        append_decimal(out, below + 1);
        proof {
            assert(old(out)@.push('-') + decimal((-n) as nat) == old(out)@ + (seq!['-'] + decimal(
                (-n) as nat,
            )));
        }
    } else {
        append_decimal(out, n as u64);
    }
}

} // verus!
