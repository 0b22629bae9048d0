use mini_shell::text::{
    chars_of, contains, find, is_whitespace, join, left_justify, right_justify, same_text, split,
    split_whitespace, starts_at, to_rows, to_strings, trim,
};

fn text(v: &Vec<char>) -> String {
    v.iter().collect()
}

fn texts_of(v: &Vec<Vec<char>>) -> Vec<String> {
    v.iter().map(text).collect()
}

#[test]
fn chars_of_keeps_every_character_in_order() {
    assert_eq!(chars_of("héllo"), vec!['h', 'é', 'l', 'l', 'o']);
    assert_eq!(chars_of(""), Vec::<char>::new());
}

#[test]
fn rows_and_strings_convert_both_ways() {
    let strings = vec!["ab".to_string(), "".to_string(), "c".to_string()];
    let rows = to_rows(&strings);
    assert_eq!(rows, vec![vec!['a', 'b'], vec![], vec!['c']]);
    assert_eq!(to_strings(&rows), strings);
}

#[test]
fn whitespace_is_the_unicode_property() {
    for c in [' ', '\t', '\n', '\r', '\u{0B}', '\u{0C}', '\u{85}', '\u{A0}', '\u{1680}', '\u{2000}', '\u{200A}', '\u{2028}', '\u{2029}', '\u{202F}', '\u{205F}', '\u{3000}'] {
        assert!(is_whitespace(c), "{:?}", c);
    }
    for c in ['a', '0', '_', '\u{200B}', '\u{1F}', '\u{21}', '\u{2007}'] {
        assert_eq!(is_whitespace(c), c.is_whitespace(), "{:?}", c);
    }
}

#[test]
fn whitespace_agrees_with_std_on_every_character() {
    let mut code: u32 = 0;
    while code <= 0x10FFFF {
        if let Some(c) = char::from_u32(code) {
            assert_eq!(is_whitespace(c), c.is_whitespace(), "U+{:X}", code);
        }
        code += 1;
    }
}

#[test]
fn trim_removes_both_ends_only() {
    assert_eq!(text(&trim(&chars_of("  a b \t\n"))), "a b");
    assert_eq!(text(&trim(&chars_of("abc"))), "abc");
    assert_eq!(text(&trim(&chars_of(" \t "))), "");
    assert_eq!(text(&trim(&chars_of(""))), "");
    assert_eq!(text(&trim(&chars_of("\u{3000}x\u{A0}"))), "x");
}

#[test]
fn starts_at_checks_one_position() {
    let hay = chars_of("abcabc");
    assert!(starts_at(&hay, &chars_of("bc"), 1));
    assert!(!starts_at(&hay, &chars_of("bc"), 2));
    assert!(starts_at(&hay, &chars_of("bc"), 4));
    assert!(!starts_at(&hay, &chars_of("bc"), 5));
    assert!(!starts_at(&hay, &chars_of("bc"), 7));
    assert!(starts_at(&hay, &chars_of(""), 6));
    assert!(!starts_at(&hay, &chars_of(""), 7));
}

#[test]
fn find_gives_the_first_occurrence() {
    assert_eq!(find(&chars_of("a>>b>>c"), &chars_of(">>")), Some(1));
    assert_eq!(find(&chars_of("abc"), &chars_of("c")), Some(2));
    assert_eq!(find(&chars_of("abc"), &chars_of("abcd")), None);
    assert_eq!(find(&chars_of("abc"), &chars_of("x")), None);
    assert_eq!(find(&chars_of("abc"), &chars_of("")), Some(0));
    assert_eq!(find(&chars_of(""), &chars_of("")), Some(0));
    assert_eq!(find(&chars_of("aab"), &chars_of("ab")), Some(1));
}

#[test]
fn contains_is_substring_containment() {
    assert!(contains(&chars_of("hello world"), &chars_of("lo w")));
    assert!(!contains(&chars_of("hello world"), &chars_of("low")));
    assert!(contains(&chars_of("hello"), &chars_of("")));
    assert!(!contains(&chars_of(""), &chars_of("a")));
}

#[test]
fn split_cuts_at_every_separator_from_the_left() {
    let sep = chars_of("&&");
    assert_eq!(texts_of(&split(&chars_of("a && b&&c"), &sep)), vec!["a ", " b", "c"]);
    assert_eq!(texts_of(&split(&chars_of("abc"), &sep)), vec!["abc"]);
    assert_eq!(texts_of(&split(&chars_of(""), &sep)), vec![""]);
    assert_eq!(texts_of(&split(&chars_of("&&"), &sep)), vec!["", ""]);
    assert_eq!(texts_of(&split(&chars_of("a&&&b"), &sep)), vec!["a", "&b"]);
    assert_eq!(texts_of(&split(&chars_of("a&&&&b"), &sep)), vec!["a", "", "b"]);
    assert_eq!(texts_of(&split(&chars_of("x&&"), &sep)), vec!["x", ""]);
}

#[test]
fn split_agrees_with_std() {
    for line in ["a&&b", "&&&", "a & b && c &&& d", "", "&", "&&&&&&"] {
        let want: Vec<String> = line.split("&&").map(|s| s.to_string()).collect();
        assert_eq!(texts_of(&split(&chars_of(line), &chars_of("&&"))), want, "{:?}", line);
    }
}

#[test]
fn split_with_an_empty_separator_splits_nothing() {
    assert_eq!(texts_of(&split(&chars_of("abc"), &chars_of(""))), vec!["abc"]);
}

#[test]
fn split_whitespace_gives_the_words() {
    assert_eq!(texts_of(&split_whitespace(&chars_of("  ls   -a\t-l \n"))), vec!["ls", "-a", "-l"]);
    assert_eq!(texts_of(&split_whitespace(&chars_of(""))), Vec::<String>::new());
    assert_eq!(texts_of(&split_whitespace(&chars_of("   "))), Vec::<String>::new());
    assert_eq!(texts_of(&split_whitespace(&chars_of("one"))), vec!["one"]);
}

#[test]
fn split_whitespace_agrees_with_std() {
    for line in ["a b", " a  b ", "\ta\u{A0}b\u{3000}", "x", "", " \n "] {
        let want: Vec<String> = line.split_whitespace().map(|s| s.to_string()).collect();
        assert_eq!(texts_of(&split_whitespace(&chars_of(line))), want, "{:?}", line);
    }
}

#[test]
fn join_puts_the_separator_between_neighbours() {
    let parts = vec![chars_of("a"), chars_of("b"), chars_of("c")];
    assert_eq!(text(&join(&parts, &chars_of(" "))), "a b c");
    assert_eq!(text(&join(&parts, &chars_of(", "))), "a, b, c");
    assert_eq!(text(&join(&vec![chars_of("only")], &chars_of(" "))), "only");
    assert_eq!(text(&join(&vec![], &chars_of(" "))), "");
    assert_eq!(text(&join(&vec![chars_of(""), chars_of("")], &chars_of("-"))), "-");
}

#[test]
fn same_text_compares_character_by_character() {
    assert!(same_text(&chars_of("-a"), &chars_of("-a")));
    assert!(!same_text(&chars_of("-a"), &chars_of("-b")));
    assert!(!same_text(&chars_of("-a"), &chars_of("-ab")));
    assert!(same_text(&chars_of(""), &chars_of("")));
}

#[test]
fn justify_pads_to_the_width_and_never_cuts() {
    assert_eq!(text(&left_justify(&chars_of("ab"), 5)), "ab   ");
    assert_eq!(text(&right_justify(&chars_of("ab"), 5)), "   ab");
    assert_eq!(text(&left_justify(&chars_of("abcdef"), 5)), "abcdef");
    assert_eq!(text(&right_justify(&chars_of("abcdef"), 5)), "abcdef");
    assert_eq!(text(&left_justify(&chars_of("abcde"), 5)), "abcde");
    assert_eq!(text(&right_justify(&chars_of(""), 3)), "   ");
    assert_eq!(text(&left_justify(&chars_of("é"), 3)), "é  ");
}
