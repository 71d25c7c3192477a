use sitemap_parser::text::{
    char_folds_to, char_is_whitespace, chars_of, contains, decimal_digits, find, push_all,
    same_text, starts_with, starts_with_ignoring_case, trim_end_char_slice, trim_slice,
};

fn chars(s: &str) -> Vec<char> {
    s.chars().collect()
}

#[test]
fn white_space_is_the_unicode_property() {
    for code in 0..=0x10FFFFu32 {
        if let Some(c) = char::from_u32(code) {
            assert_eq!(char_is_whitespace(c), c.is_whitespace(), "U+{:04X}", code);
        }
    }
}

#[test]
fn trimming_agrees_with_std() {
    let samples = [
        "",
        " ",
        "a",
        "  a b  ",
        "\t\r\n x \u{a0}\u{3000}",
        "\u{2003}\u{2028}",
        "x\u{200b}",
        "\u{85}y\u{1680}",
    ];
    for sample in samples {
        let v = chars(sample);
        let trimmed: String = trim_slice(&v).iter().collect();
        assert_eq!(trimmed, sample.trim(), "{:?}", sample);
    }
}

#[test]
fn trailing_characters_are_removed() {
    assert_eq!(trim_end_char_slice(&chars("a/b///"), '/'), &chars("a/b")[..]);
    assert_eq!(trim_end_char_slice(&chars("///"), '/'), &chars("")[..]);
    assert_eq!(trim_end_char_slice(&chars("/a"), '/'), &chars("/a")[..]);
    assert_eq!(trim_end_char_slice(&chars(""), '/'), &chars("")[..]);
}

#[test]
fn prefixes() {
    assert!(starts_with(&chars("https://x"), &chars("https://")));
    assert!(starts_with(&chars("abc"), &chars("")));
    assert!(starts_with(&chars("abc"), &chars("abc")));
    assert!(!starts_with(&chars("ab"), &chars("abc")));
    assert!(!starts_with(&chars("Https://x"), &chars("https://")));

    assert!(starts_with_ignoring_case(&chars("SiteMap: x"), &chars("sitemap:")));
    assert!(starts_with_ignoring_case(&chars("sitemap:"), &chars("sitemap:")));
    assert!(!starts_with_ignoring_case(&chars("sitemap"), &chars("sitemap:")));
    assert!(!starts_with_ignoring_case(&chars("sitemap;"), &chars("sitemap:")));
    assert!(!starts_with_ignoring_case(&chars("S\u{131}temap:"), &chars("sitemap:")));
    assert!(!starts_with_ignoring_case(&chars("\u{17f}itemap:"), &chars("sitemap:")));
    assert!(char_folds_to('Z', 'z'));
    assert!(char_folds_to('z', 'z'));
    assert!(!char_folds_to('z', 'Z'));
    assert!(!char_folds_to('\u{1a}', ':'));
    assert!(!char_folds_to('@', '`'));
    assert!(!char_folds_to('[', '{'));
}

#[test]
fn search_finds_the_first_occurrence() {
    let text = chars("ab<loc>cd<loc>ef");
    let pattern = chars("<loc>");
    assert_eq!(find(&text, &pattern, 0), Some(2));
    assert_eq!(find(&text, &pattern, 2), Some(2));
    assert_eq!(find(&text, &pattern, 3), Some(9));
    assert_eq!(find(&text, &pattern, 10), None);
    assert_eq!(find(&text, &pattern, 100), None);
    assert_eq!(find(&text, &chars(""), 16), Some(16));
    assert_eq!(find(&text, &chars(""), 17), None);
    assert_eq!(find(&chars("aaa"), &chars("aa"), 1), Some(1));
    assert_eq!(find(&chars("ab"), &chars("abc"), 0), None);
    assert!(contains(&text, &chars("d<l")));
    assert!(!contains(&text, &chars("</loc>")));
}

#[test]
fn text_comparison() {
    assert!(same_text("", ""));
    assert!(same_text("loc", "loc"));
    assert!(!same_text("loc", "lo"));
    assert!(!same_text("lo", "loc"));
    assert!(!same_text("loc", "loC"));
    assert!(same_text("\u{e9}\u{1f600}", "\u{e9}\u{1f600}"));
}

#[test]
fn characters_and_digits() {
    assert_eq!(chars_of("a\u{e9}\u{1f600}"), vec!['a', '\u{e9}', '\u{1f600}']);
    assert_eq!(chars_of(""), Vec::<char>::new());
    assert_eq!(decimal_digits(0), vec!['0']);
    assert_eq!(decimal_digits(9), vec!['9']);
    assert_eq!(decimal_digits(10), vec!['1', '0']);
    assert_eq!(decimal_digits(8080), vec!['8', '0', '8', '0']);
    assert_eq!(decimal_digits(65535), vec!['6', '5', '5', '3', '5']);
    for n in 0..=u16::MAX {
        let text: String = decimal_digits(n).iter().collect();
        assert_eq!(text, n.to_string());
    }
    let mut v = chars("ab");
    push_all(&mut v, &chars("cd"));
    assert_eq!(v, chars("abcd"));
}
