use branch::order::{sort_distinct, text_before};
use branch::text::{
    alphanumeric, chars_of, contains, is_empty, join, lines, number_text, parse_number, same_text,
    split, split_once, split_up_to, split_white, strip_prefix, strip_suffix, text_of, trim,
    trim_end, trim_start, white,
};

fn texts(v: Vec<&[char]>) -> Vec<String> {
    v.into_iter().map(text_of).collect()
}

#[test]
fn white_space_is_that_of_unicode() {
    for v in 0..0x11_0000u32 {
        if let Some(c) = char::from_u32(v) {
            assert_eq!(white(c), c.is_whitespace());
            assert_eq!(alphanumeric(c), c.is_ascii_alphanumeric());
        }
    }
}

#[test]
fn trimming_agrees() {
    for s in ["", " ", "a", "  a b\t\n", "\u{3000}x\u{a0}", "//a//", "\r\r"] {
        let c = chars_of(s);
        assert_eq!(text_of(&c), s);
        assert_eq!(text_of(trim(&c)), s.trim());
        assert_eq!(text_of(trim_end(&c, '/')), s.trim_end_matches('/'));
        assert_eq!(text_of(trim_start(&c, '/')), s.trim_start_matches('/'));
        assert_eq!(is_empty(s), s.is_empty());
    }
}

#[test]
fn splitting_agrees() {
    for s in ["", "a", "a,b", ",", "a,,b,", ",a,b,c,d"] {
        let c = chars_of(s);
        assert_eq!(texts(split(&c, ',')), s.split(',').collect::<Vec<_>>());
        for n in 1..5 {
            assert_eq!(texts(split_up_to(&c, ',', n)), s.splitn(n, ',').collect::<Vec<_>>());
        }
        assert_eq!(
            split_once(&c, ',').map(|(a, b)| (text_of(a), text_of(b))),
            s.split_once(',').map(|(a, b)| (a.to_string(), b.to_string()))
        );
    }
    let c = chars_of("origin\t url");
    assert_eq!(
        split_white(&c).map(|(a, b)| (text_of(a), text_of(b))),
        Some(("origin".to_string(), " url".to_string()))
    );
    assert!(split_white(&chars_of("origin")).is_none());
}

#[test]
fn lines_agree() {
    for s in ["", "\n", "a", "a\n", "a\r\nb\r", "\r\n\n x \n", "a\r\r\n"] {
        let c = chars_of(s);
        assert_eq!(texts(lines(&c)), s.lines().collect::<Vec<_>>());
    }
}

#[test]
fn prefixes_and_suffixes() {
    let c = chars_of("repo.git");
    assert_eq!(strip_suffix(&c, ".git").map(text_of).as_deref(), Some("repo"));
    assert_eq!(strip_suffix(&c, "repo").map(text_of), None);
    assert_eq!(strip_prefix(&c, "repo").map(text_of).as_deref(), Some(".git"));
    assert_eq!(strip_prefix(&c, "repo.git.").map(text_of), None);
    assert!(contains(&c, &chars_of("o.g")));
    assert!(contains(&c, &[]));
    assert!(!contains(&c, &chars_of("og")));
    assert!(same_text("a", "a") && !same_text("a", "b") && !same_text("a", "aa"));
}

#[test]
fn numbers_agree() {
    for s in ["0", "007", "+5", "18446744073709551615", "18446744073709551616", "", "+", "-1", "1a", " 1"] {
        assert_eq!(parse_number(&chars_of(s)), s.parse::<u64>().ok());
    }
    for n in [0u64, 9, 10, 99, 100, 12345, u64::MAX] {
        assert_eq!(number_text(n), n.to_string());
        assert_eq!(parse_number(&chars_of(&number_text(n))), Some(n));
    }
}

#[test]
fn joining_is_undone_by_splitting() {
    let parts = vec!["a".to_string(), "".to_string(), "bc".to_string()];
    let joined = join(&parts, ",");
    assert_eq!(joined, "a,,bc");
    assert_eq!(texts(split(&chars_of(&joined), ',')), parts);
    assert_eq!(join(&vec![], ", "), "");
}

#[test]
fn order_of_texts_agrees() {
    let all = ["", "a", "ab", "b", "B", "\u{e9}", "\u{ffff}", "\u{10000}", "a/b"];
    for a in all {
        for b in all {
            assert_eq!(text_before(a, b), a < b);
        }
    }
    let v: Vec<String> = ["b", "a", "b", "ab", "a"].iter().map(|s| s.to_string()).collect();
    assert_eq!(sort_distinct(v), ["a", "ab", "b"]);
    assert!(sort_distinct(vec![]).is_empty());
}
