use vertretung::text::{
    contains, first_two_words, format_i64, parse_i64, trim, trim_end_matches_char,
};

#[test]
fn trim_agrees_with_std() {
    let samples = [
        "",
        "   ",
        "  Montag 22.08.2022 ",
        "\t\n x \r\n",
        "\u{a0}Mathe\u{3000}",
        "\u{2003}a b\u{205f}",
        "kein Rand",
        "\u{200b}zero width is not whitespace\u{200b}",
    ];
    for s in samples {
        assert_eq!(trim(s), s.trim(), "input {:?}", s);
    }
}

#[test]
fn contains_agrees_with_std() {
    let cases = [
        ("12A/12B", "12A"),
        ("12A/12B", "12B"),
        ("12A/12B", "12C"),
        ("abc", ""),
        ("", ""),
        ("", "a"),
        ("Mathematik", "Mathe"),
        ("&nbsp;", "&nbsp;"),
        ("ab", "abc"),
        ("äöü", "öü"),
    ];
    for (h, n) in cases {
        assert_eq!(contains(h, n), h.contains(n), "{:?} in {:?}", n, h);
    }
}

#[test]
fn first_two_words_of_a_caption() {
    assert_eq!(
        first_two_words("Montag 22.08.2022"),
        Some(("Montag".to_string(), "22.08.2022".to_string()))
    );
    assert_eq!(
        first_two_words("  Dienstag \t 23.08.2022 (B-Woche)"),
        Some(("Dienstag".to_string(), "23.08.2022".to_string()))
    );
    assert_eq!(first_two_words("Montag"), None);
    assert_eq!(first_two_words("   "), None);
    assert_eq!(first_two_words(""), None);
}

#[test]
fn first_two_words_agree_with_split_whitespace() {
    let samples = ["a b c", " a\u{a0}b", "x\u{3000}y\u{3000}z", "one", "\ttwo  words\n"];
    for s in samples {
        let mut it = s.split_whitespace();
        let expected = match (it.next(), it.next()) {
            (Some(a), Some(b)) => Some((a.to_string(), b.to_string())),
            _ => None,
        };
        assert_eq!(first_two_words(s), expected, "input {:?}", s);
    }
}

#[test]
fn parse_i64_agrees_with_std() {
    let samples = [
        "5",
        "+5",
        "-5",
        "",
        "-",
        "+",
        "5a",
        " 5",
        "00012",
        "9223372036854775807",
        "9223372036854775808",
        "-9223372036854775808",
        "-9223372036854775809",
        "123456789012345678901234567890",
        "\u{663}",
        "--5",
    ];
    for s in samples {
        assert_eq!(parse_i64(s), s.parse::<i64>().ok(), "input {:?}", s);
    }
}

#[test]
fn format_i64_agrees_with_to_string() {
    let samples = [0i64, 7, -7, 10, 42, -100, 1234567890, i64::MAX, i64::MIN];
    for n in samples {
        assert_eq!(format_i64(n), n.to_string());
    }
}

#[test]
fn trim_end_matches_dots() {
    assert_eq!(trim_end_matches_char("3.", '.'), "3");
    assert_eq!(trim_end_matches_char("3...", '.'), "3");
    assert_eq!(trim_end_matches_char("3.4.", '.'), "3.4");
    assert_eq!(trim_end_matches_char("...", '.'), "");
    assert_eq!(trim_end_matches_char("", '.'), "");
}

#[test]
fn decimal_text_reads_back() {
    for n in [0i64, 1, 9, 10, -1, 37, i64::MAX, i64::MIN] {
        let text = format_i64(n);
        let cut = trim_end_matches_char(&text, '.');
        assert_eq!(parse_i64(&cut), Some(n));
    }
}

#[test]
fn whitespace_agrees_with_std_on_every_char() {
    for u in 0u32..=0x10ffff {
        if let Some(c) = char::from_u32(u) {
            assert_eq!(vertretung::text::is_white_space_char(c), c.is_whitespace(), "U+{:04X}", u);
        }
    }
}
