use overdrive::text::join_strings;
use overdrive::text::{compare_text, is_whitespace, keyword_is, parse_usize, u64_to_text, usize_to_text};

#[test]
fn whitespace_matches_std() {
    for u in 0u32..=0x10FFFF {
        if let Some(c) = char::from_u32(u) {
            assert_eq!(is_whitespace(c), c.is_whitespace(), "U+{:04X}", u);
        }
    }
}

#[test]
fn parse_usize_matches_std() {
    for s in ["0", "7", "+5", "-1", "", "+", "12a", " 3", "18446744073709551615", "18446744073709551616", "007", "٣"] {
        assert_eq!(parse_usize(s), s.parse::<usize>().ok(), "{:?}", s);
    }
}

#[test]
fn decimal_text_matches_std() {
    for n in [0usize, 9, 10, 99, 100, 4096, usize::MAX] {
        assert_eq!(usize_to_text(n), n.to_string());
    }
    for n in [0u64, 1, 512, 100_000, u64::MAX] {
        assert_eq!(u64_to_text(n), n.to_string());
    }
}

#[test]
fn keywords_match_in_any_case() {
    assert!(keyword_is("select", "SELECT"));
    assert!(keyword_is("SeLeCt", "SELECT"));
    assert!(keyword_is("straße", "STRASSE"));
    assert!(!keyword_is("selec", "SELECT"));
}

#[test]
fn join_matches_std() {
    let v: Vec<String> = vec!["a".into(), "".into(), "c".into()];
    assert_eq!(join_strings(&v, ", "), v.join(", "));
    assert_eq!(join_strings(&vec![], "-"), "");
    assert_eq!(join_strings(&vec!["x".to_string()], "-"), "x");
}

#[test]
fn text_order_matches_std() {
    let words = ["", "a", "ab", "b", "B", "é", "z", "\u{10000}", "\u{FFFF}", "aé", "a\u{10000}"];
    for x in words {
        for y in words {
            let expected = match x.cmp(y) {
                std::cmp::Ordering::Less => -1,
                std::cmp::Ordering::Equal => 0,
                std::cmp::Ordering::Greater => 1,
            };
            assert_eq!(compare_text(x, y), expected, "{:?} {:?}", x, y);
        }
    }
}
