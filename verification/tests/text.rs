use rustyface::text::{
    all_hex_in, chars_of, contains, count_leading_slashes, ensure_trailing_slash,
    equal_ignoring_case, fold_ascii, is_whitespace, join_path, line_spans_of, matches_at,
    push_decimal, scan_from, segment_start_of, trim_end_index,
};

fn chars(s: &str) -> Vec<char> {
    s.chars().collect()
}

fn lines_of(s: &str) -> Vec<String> {
    let text = chars(s);
    line_spans_of(&text)
        .into_iter()
        .map(|(from, to)| text[from..to].iter().collect())
        .collect()
}

#[test]
fn whitespace_is_the_unicode_set() {
    for c in [' ', '\t', '\n', '\r', '\u{0B}', '\u{0C}', '\u{85}', '\u{A0}', '\u{1680}', '\u{2003}',
        '\u{2028}', '\u{2029}', '\u{202F}', '\u{205F}', '\u{3000}']
    {
        assert!(is_whitespace(c), "{:?}", c);
    }
    for c in ['a', '0', '/', '\u{200B}', '\u{08}', '\u{0E}', '\u{1F}', '\u{200B}', '\u{FEFF}'] {
        assert!(!is_whitespace(c), "{:?}", c);
    }
}

#[test]
fn whitespace_agrees_with_std_on_every_char() {
    let mut code: u32 = 0;
    while code <= 0x10FFFF {
        if let Some(c) = char::from_u32(code) {
            assert_eq!(is_whitespace(c), c.is_whitespace(), "{:#x}", code);
        }
        code += 1;
    }
}

#[test]
fn chars_of_keeps_every_char_in_order() {
    assert_eq!(chars_of(""), Vec::<char>::new());
    assert_eq!(chars_of("a/b"), vec!['a', '/', 'b']);
    assert_eq!(chars_of("héllo→"), vec!['h', 'é', 'l', 'l', 'o', '→']);
}

#[test]
fn scan_finds_the_first_char_of_the_wanted_kind() {
    let s = chars("  ab cd");
    assert_eq!(scan_from(&s, 0, false), 2);
    assert_eq!(scan_from(&s, 2, true), 4);
    assert_eq!(scan_from(&s, 4, false), 5);
    assert_eq!(scan_from(&s, 5, true), 7);
    assert_eq!(scan_from(&s, 7, true), 7);
    assert_eq!(scan_from(&chars("   "), 0, false), 3);
}

#[test]
fn trim_end_stops_after_the_last_visible_char() {
    assert_eq!(trim_end_index(&chars("ab  \t")), 2);
    assert_eq!(trim_end_index(&chars("ab")), 2);
    assert_eq!(trim_end_index(&chars("   ")), 0);
    assert_eq!(trim_end_index(&chars("")), 0);
    assert_eq!(trim_end_index(&chars(" a b ")), 4);
}

#[test]
fn matches_at_compares_in_place() {
    let s = chars("oid sha256:abc");
    assert!(matches_at(&s, &chars("oid sha256:"), 0));
    assert!(!matches_at(&s, &chars("oid sha256:"), 1));
    assert!(matches_at(&s, &chars("abc"), 11));
    assert!(!matches_at(&s, &chars("abcd"), 11));
    assert!(matches_at(&s, &chars(""), 14));
    assert!(!matches_at(&s, &chars(""), 15));
    assert!(!matches_at(&chars("ab"), &chars("abc"), 0));
}

#[test]
fn contains_finds_a_pattern_anywhere() {
    let line = chars("*.bin filter=lfs diff=lfs merge=lfs -text");
    assert!(contains(&line, &chars("filter=lfs")));
    assert!(contains(&line, &chars("-text")));
    assert!(contains(&line, &chars("*.bin")));
    assert!(contains(&line, &chars("")));
    assert!(!contains(&line, &chars("filter=lfx")));
    assert!(!contains(&chars("lfs"), &chars("filter=lfs")));
    assert!(contains(&chars(""), &chars("")));
}

#[test]
fn lines_end_at_line_feed_or_carriage_return_line_feed() {
    assert_eq!(lines_of(""), Vec::<String>::new());
    assert_eq!(lines_of("a"), vec!["a"]);
    assert_eq!(lines_of("a\n"), vec!["a"]);
    assert_eq!(lines_of("a\nb"), vec!["a", "b"]);
    assert_eq!(lines_of("a\r\nb\r\n"), vec!["a", "b"]);
    assert_eq!(lines_of("\n"), vec![""]);
    assert_eq!(lines_of("\n\n"), vec!["", ""]);
    assert_eq!(lines_of("a\n\nb"), vec!["a", "", "b"]);
    assert_eq!(lines_of("\r\n"), vec![""]);
}

#[test]
fn a_carriage_return_is_dropped_only_before_a_line_feed() {
    assert_eq!(lines_of("a\r"), vec!["a\r"]);
    assert_eq!(lines_of("a\rb\n"), vec!["a\rb"]);
    assert_eq!(lines_of("a\r\r\n"), vec!["a\r"]);
}

#[test]
fn lines_agree_with_std() {
    for text in ["", "a", "a\n", "a\r\nb", "x\n\ny\n", "\r\n\r\n", "one\ntwo\r\nthree"] {
        let expected: Vec<String> = text.lines().map(|l| l.to_string()).collect();
        assert_eq!(lines_of(text), expected, "{:?}", text);
    }
}

#[test]
fn segment_starts_after_the_last_slash() {
    assert_eq!(segment_start_of(&chars("a/b/c.bin")), 4);
    assert_eq!(segment_start_of(&chars("c.bin")), 0);
    assert_eq!(segment_start_of(&chars("a/b/")), 4);
    assert_eq!(segment_start_of(&chars("")), 0);
    assert_eq!(segment_start_of(&chars("/")), 1);
}

fn decimal(n: u64) -> String {
    let mut out = String::new();
    push_decimal(&mut out, n);
    out
}

#[test]
fn decimal_has_no_leading_zeros() {
    assert_eq!(decimal(0), "0");
    assert_eq!(decimal(7), "7");
    assert_eq!(decimal(10), "10");
    assert_eq!(decimal(1234567890), "1234567890");
    assert_eq!(decimal(u64::MAX), "18446744073709551615");
}

#[test]
fn decimal_appends_to_what_is_there() {
    let mut out = String::from("bytes=");
    push_decimal(&mut out, 4096);
    assert_eq!(out, "bytes=4096");
}

#[test]
fn decimal_agrees_with_std() {
    for n in [0u64, 1, 9, 10, 11, 99, 100, 101, 65535, 65536, 999_999_999, 1_000_000_000] {
        assert_eq!(decimal(n), n.to_string());
    }
}

#[test]
fn folding_maps_capitals_onto_small_letters_only() {
    assert_eq!(fold_ascii('A'), 'a' as u32);
    assert_eq!(fold_ascii('Z'), 'z' as u32);
    assert_eq!(fold_ascii('a'), 'a' as u32);
    assert_eq!(fold_ascii('@'), '@' as u32);
    assert_eq!(fold_ascii('['), '[' as u32);
    assert_eq!(fold_ascii('5'), '5' as u32);
    assert_eq!(fold_ascii('É'), 'É' as u32);
}

#[test]
fn comparison_ignores_the_case_of_ascii_letters() {
    assert!(equal_ignoring_case(&chars("ABCdef09"), &chars("abcDEF09")));
    assert!(equal_ignoring_case(&chars(""), &chars("")));
    assert!(!equal_ignoring_case(&chars("abc"), &chars("abd")));
    assert!(!equal_ignoring_case(&chars("abc"), &chars("abcd")));
    assert!(!equal_ignoring_case(&chars("é"), &chars("É")));
}

#[test]
fn hex_digits_are_recognised_in_both_cases() {
    let s = chars("xx09afAFgz");
    assert!(all_hex_in(&s, 2, 8));
    assert!(!all_hex_in(&s, 2, 9));
    assert!(!all_hex_in(&s, 1, 8));
    assert!(all_hex_in(&s, 3, 3));
    assert!(!all_hex_in(&chars("/:@G`g"), 0, 1));
    assert!(!all_hex_in(&chars("/:@G`g"), 1, 2));
    assert!(!all_hex_in(&chars("/:@G`g"), 2, 3));
    assert!(!all_hex_in(&chars("/:@G`g"), 3, 4));
    assert!(!all_hex_in(&chars("/:@G`g"), 4, 5));
    assert!(!all_hex_in(&chars("/:@G`g"), 5, 6));
}

#[test]
fn a_trailing_slash_is_added_once() {
    assert_eq!(ensure_trailing_slash("https://hf-mirror.com"), "https://hf-mirror.com/");
    assert_eq!(ensure_trailing_slash("https://hf-mirror.com/"), "https://hf-mirror.com/");
    assert_eq!(ensure_trailing_slash(""), "/");
    assert_eq!(ensure_trailing_slash("/"), "/");
}

#[test]
fn join_puts_one_slash_between() {
    assert_eq!(join_path("/work/repo", "model.bin"), "/work/repo/model.bin");
    assert_eq!(join_path("/work/repo/", "model.bin"), "/work/repo/model.bin");
    assert_eq!(join_path("", "model.bin"), "model.bin");
    assert_eq!(join_path("repo", ""), "repo/");
}

#[test]
fn leading_slashes_are_counted() {
    assert_eq!(count_leading_slashes(&chars("//a/b")), 2);
    assert_eq!(count_leading_slashes(&chars("a/b")), 0);
    assert_eq!(count_leading_slashes(&chars("///")), 3);
    assert_eq!(count_leading_slashes(&chars("")), 0);
}
