use markdown_ui::text::{
    append_decimal, append_signed_decimal, char_is_whitespace, chars_of, equals_ignoring_case,
    next_line, range_equals, replace, string_of, trim_bounds,
};

fn lines_of(text: &str) -> Vec<String> {
    let v = chars_of(text);
    let mut out = Vec::new();
    let mut pos = 0;
    while pos < v.len() {
        let (end, next) = next_line(&v, pos);
        out.push(string_of(&v[pos..end]));
        pos = next;
    }
    out
}

fn trimmed(text: &str) -> String {
    let v = chars_of(text);
    let (a, b) = trim_bounds(&v, 0, v.len());
    string_of(&v[a..b])
}

fn replaced(text: &str, pattern: &str, replacement: &str) -> String {
    string_of(&replace(&chars_of(text), &chars_of(pattern), &chars_of(replacement)))
}

#[test]
fn chars_and_strings_convert_both_ways() {
    let text = "caf\u{e9} \u{1F600}\n";
    let v = chars_of(text);
    assert_eq!(v, vec!['c', 'a', 'f', '\u{e9}', ' ', '\u{1F600}', '\n']);
    assert_eq!(string_of(&v), text);
    assert_eq!(string_of(&[]), "");
}

#[test]
fn whitespace_is_what_std_calls_whitespace() {
    let mut code: u32 = 0;
    while code <= 0x10FFFF {
        if let Some(c) = char::from_u32(code) {
            assert_eq!(char_is_whitespace(c), c.is_whitespace(), "U+{:04X}", code);
        }
        code += 1;
    }
}

#[test]
fn trim_removes_whitespace_at_both_ends_only() {
    assert_eq!(trimmed("  a b \t\r\n"), "a b");
    assert_eq!(trimmed("\u{a0}\u{3000}x\u{2003}"), "x");
    assert_eq!(trimmed(" \t "), "");
    assert_eq!(trimmed(""), "");
    assert_eq!(trimmed("x"), "x");
    for sample in [" a", "a ", "\n\na\n\n", "\u{85}a\u{1680}", "a\u{200b}", " \u{feff}a "] {
        assert_eq!(trimmed(sample), sample.trim());
    }
}

#[test]
fn trim_bounds_stay_in_the_range() {
    let v = chars_of("ab  cd  ef");
    assert_eq!(trim_bounds(&v, 2, 8), (4, 6));
    assert_eq!(trim_bounds(&v, 2, 4), (4, 4));
    assert_eq!(trim_bounds(&v, 3, 3), (3, 3));
}

#[test]
fn range_equals_compares_the_whole_range() {
    let v = chars_of("xx```yy");
    let fence = chars_of("```");
    assert!(range_equals(&v, 2, 5, &fence));
    assert!(!range_equals(&v, 2, 6, &fence));
    assert!(!range_equals(&v, 1, 4, &fence));
    assert!(range_equals(&v, 3, 3, &[]));
}

#[test]
fn lines_are_the_lines_of_std() {
    let samples = [
        "",
        "\n",
        "a",
        "a\n",
        "a\nb",
        "a\n\nb\n",
        "\na",
        "a\r\nb\r\n",
        "a\r",
        "a\r\r\nb",
        "\r\n",
        "a\rb\n",
        "\n\n",
        "last\r\n\r",
    ];
    for sample in samples {
        let expected: Vec<String> = sample.lines().map(|l| l.to_string()).collect();
        assert_eq!(lines_of(sample), expected, "{:?}", sample);
    }
}

#[test]
fn line_ending_is_not_part_of_the_line() {
    assert_eq!(lines_of("a\r\nb\n"), vec!["a".to_string(), "b".to_string()]);
    assert_eq!(lines_of("a\r"), vec!["a\r".to_string()]);
    assert!(lines_of("").is_empty());
    assert_eq!(lines_of("\n"), vec!["".to_string()]);
}

#[test]
fn replace_is_the_replace_of_std() {
    let samples = [
        ("aXbXc", "X", "--"),
        ("aaa", "aa", "b"),
        ("aaaa", "aa", "a"),
        ("abab", "ab", ""),
        ("abc", "abc", "x"),
        ("abc", "abcd", "x"),
        ("", "a", "b"),
        ("aab", "ab", "b"),
        ("{{T}}{{T}}", "{{T}}", "{{T}}{{T}}"),
        ("x\u{e9}y", "\u{e9}", "e"),
    ];
    for (text, pattern, replacement) in samples {
        assert_eq!(
            replaced(text, pattern, replacement),
            text.replace(pattern, replacement),
            "{:?} {:?} {:?}",
            text,
            pattern,
            replacement
        );
    }
}

#[test]
fn replace_takes_occurrences_from_the_left_without_overlap() {
    assert_eq!(replaced("aaa", "aa", "b"), "ba");
    assert_eq!(replaced("aab", "ab", ""), "a");
    assert_eq!(replaced("abc", "b", "bb"), "abbc");
}

#[test]
fn replace_with_empty_pattern_changes_nothing() {
    assert_eq!(replaced("abc", "", "x"), "abc");
    assert_eq!(replaced("", "", "x"), "");
}

#[test]
fn case_of_ascii_letters_is_ignored() {
    let html = chars_of("html");
    for token in ["html", "HTML", "Html", "hTmL"] {
        assert!(equals_ignoring_case(&chars_of(token), &html), "{}", token);
    }
    for token in ["htm", "html ", "htm1", "\u{ff28}tml", "h\u{0130}ml", ""] {
        assert!(!equals_ignoring_case(&chars_of(token), &html), "{}", token);
        assert_ne!(token.to_lowercase(), "html");
    }
    assert!(!equals_ignoring_case(&chars_of("@"), &chars_of("`")));
    assert!(!equals_ignoring_case(&chars_of("["), &chars_of("{")));
}

#[test]
fn decimal_has_no_leading_zeros() {
    for n in [0u64, 7, 9, 10, 11, 42, 99, 100, 1234567890, u64::MAX] {
        let mut out = vec!['#'];
        append_decimal(&mut out, n);
        assert_eq!(string_of(&out), format!("#{}", n));
    }
}

#[test]
fn signed_decimal_has_a_minus_sign_for_negative_numbers() {
    for n in [0i64, 1, -1, 42, -42, i64::MAX, i64::MIN, i64::MIN + 1] {
        let mut out = Vec::new();
        append_signed_decimal(&mut out, n);
        assert_eq!(string_of(&out), format!("{}", n));
    }
}
