use palet::text::{
    blank, chars_of, contains, fold_case, join_words, lower_ascii, lowercase_chars, matches_at,
    ordered, render_integer, replace, same_chars, same_text, scattered_in, split_words,
    starts_with, string_from, trim_trailing, whitespace,
};

fn chars(text: &str) -> Vec<char> {
    text.chars().collect()
}

#[test]
fn whitespace_agrees_with_the_standard_library_on_every_character() {
    let mut code: u32 = 0;
    while code <= 0x10FFFF {
        if let Some(c) = char::from_u32(code) {
            assert_eq!(whitespace(c), c.is_whitespace(), "U+{:04X}", code);
        }
        code += 1;
    }
}

#[test]
fn chars_and_strings_convert_both_ways() {
    assert_eq!(chars_of("héllo"), vec!['h', 'é', 'l', 'l', 'o']);
    assert_eq!(chars_of(""), Vec::<char>::new());
    assert_eq!(string_from(&vec!['a', 'ß', 'c']), "aßc");
    assert_eq!(string_from(&Vec::new()), "");
}

#[test]
fn lowercase_follows_unicode() {
    assert_eq!(lowercase_chars("FireFOX"), chars("firefox"));
    assert_eq!(lowercase_chars("ÉDITEUR"), chars("éditeur"));
    assert_eq!(lowercase_chars(""), chars(""));
}

#[test]
fn folding_touches_only_ascii_capitals() {
    assert_eq!(lower_ascii('Q'), 'q');
    assert_eq!(lower_ascii('q'), 'q');
    assert_eq!(lower_ascii('É'), 'É');
    assert_eq!(lower_ascii('['), '[');
    assert_eq!(lower_ascii('@'), '@');
    assert_eq!(fold_case("Hello WÖRLD 1"), chars("hello wÖrld 1"));
}

#[test]
fn blank_texts() {
    assert!(blank(&chars("")));
    assert!(blank(&chars("   ")));
    assert!(blank(&chars(" \t\n\u{00A0}\u{3000}")));
    assert!(!blank(&chars("  x ")));
    assert!(!blank(&chars("\u{200B}")));
}

#[test]
fn occurrences() {
    let hay = chars("hello world");
    assert!(matches_at(&hay, &chars("world"), 6));
    assert!(!matches_at(&hay, &chars("world"), 5));
    assert!(!matches_at(&hay, &chars("world"), 7));
    assert!(matches_at(&hay, &chars(""), 11));
    assert!(!matches_at(&hay, &chars(""), 12));
    assert!(starts_with(&hay, &chars("hell")));
    assert!(starts_with(&hay, &chars("")));
    assert!(!starts_with(&hay, &chars("ello")));
    assert!(!starts_with(&chars("he"), &chars("hello")));
    assert!(contains(&hay, &chars("o w")));
    assert!(contains(&hay, &chars("")));
    assert!(contains(&hay, &chars("hello world")));
    assert!(contains(&hay, &chars("d")));
    assert!(!contains(&hay, &chars("worlds")));
    assert!(!contains(&chars(""), &chars("a")));
    assert!(contains(&chars(""), &chars("")));
}

#[test]
fn words_are_split_at_any_whitespace() {
    assert_eq!(
        split_words(&chars("  firefox \t --new-window\n%u  ")),
        vec![chars("firefox"), chars("--new-window"), chars("%u")]
    );
    assert_eq!(split_words(&chars("")), Vec::<Vec<char>>::new());
    assert_eq!(split_words(&chars(" \n ")), Vec::<Vec<char>>::new());
    assert_eq!(split_words(&chars("one")), vec![chars("one")]);
    let text = "a\u{2003}b  c";
    let expected: Vec<Vec<char>> = text.split_whitespace().map(chars).collect();
    assert_eq!(split_words(&chars(text)), expected);
}

#[test]
fn words_are_joined_by_single_spaces() {
    assert_eq!(join_words(&vec![chars("a"), chars("bc"), chars("d")]), chars("a bc d"));
    assert_eq!(join_words(&vec![chars("alone")]), chars("alone"));
    assert_eq!(join_words(&Vec::new()), chars(""));
}

#[test]
fn integers_are_rendered_in_decimal() {
    assert_eq!(render_integer(0), chars("0"));
    assert_eq!(render_integer(7), chars("7"));
    assert_eq!(render_integer(-7), chars("-7"));
    assert_eq!(render_integer(10), chars("10"));
    assert_eq!(render_integer(1203), chars("1203"));
    assert_eq!(render_integer(i64::MAX), chars("9223372036854775807"));
    assert_eq!(render_integer(i64::MIN), chars("-9223372036854775808"));
    let mut value: i64 = -1000;
    while value <= 1000 {
        assert_eq!(render_integer(value), chars(&format!("{}", value)));
        value += 1;
    }
}

#[test]
fn trailing_runs_are_trimmed() {
    let mut text = chars("2.5000");
    trim_trailing(&mut text, '0');
    assert_eq!(text, chars("2.5"));
    let mut text = chars("000");
    trim_trailing(&mut text, '0');
    assert_eq!(text, chars(""));
    let mut text = chars("10.01");
    trim_trailing(&mut text, '0');
    assert_eq!(text, chars("10.01"));
}

#[test]
fn every_occurrence_is_replaced() {
    assert_eq!(replace(&chars("a{q}b{q}"), &chars("{q}"), &chars("xy")), chars("axybxy"));
    assert_eq!(replace(&chars("no marker"), &chars("{q}"), &chars("xy")), chars("no marker"));
    assert_eq!(replace(&chars("aaa"), &chars("aa"), &chars("b")), chars("ba"));
    assert_eq!(replace(&chars("{q"), &chars("{q}"), &chars("x")), chars("{q"));
    assert_eq!(replace(&chars("abc"), &chars(""), &chars("x")), chars("abc"));
    assert_eq!(replace(&chars(""), &chars("a"), &chars("x")), chars(""));
    assert_eq!(replace(&chars("{q}"), &chars("{q}"), &chars("")), chars(""));
}

#[test]
fn order_is_that_of_strings() {
    let samples = ["", "a", "A", "ab", "abc", "b", "alpha", "Alpha", "beta", "zed", "é", "z"];
    for left in samples.iter() {
        for right in samples.iter() {
            assert_eq!(ordered(&chars(left), &chars(right)), left <= right, "{} {}", left, right);
        }
    }
}

#[test]
fn texts_are_compared_by_their_characters() {
    assert!(same_text("Application", "Application"));
    assert!(!same_text("Application", "application"));
    assert!(!same_text("Application", "Applicatio"));
    assert!(same_text("", ""));
}

#[test]
fn characters_that_stand_apart_in_order() {
    assert!(scattered_in(&chars("shl"), &chars("shl")));
    assert!(scattered_in(&chars("shl"), &chars("sh/**/l")));
    assert!(scattered_in(&chars("shl"), &chars("a shell")));
    assert!(scattered_in(&chars(""), &chars("")));
    assert!(scattered_in(&chars(""), &chars("x")));
    assert!(!scattered_in(&chars("shl"), &chars("lhs")));
    assert!(!scattered_in(&chars("shl"), &chars("sh")));
    assert!(!scattered_in(&chars("s"), &chars("")));
    assert!(!scattered_in(&chars("aa"), &chars("a")));
    assert!(scattered_in(&chars("aa"), &chars("aba")));
    assert!(same_chars(&chars("abc"), &chars("abc")));
    assert!(!same_chars(&chars("abc"), &chars("abd")));
    assert!(!same_chars(&chars("abc"), &chars("ab")));
}
