use myllm_connect::text::{chars_of, contains_chars, first_token, is_whitespace_char, string_of, trim_chars};

#[test]
fn whitespace_matches_std_for_every_char() {
    for u in 0u32..=0x10FFFF {
        if let Some(c) = char::from_u32(u) {
            assert_eq!(is_whitespace_char(c), c.is_whitespace(), "U+{:04X}", u);
        }
    }
}

#[test]
fn chars_round_trip() {
    let s = "héllo 🌍";
    let v = chars_of(s);
    assert_eq!(v, s.chars().collect::<Vec<_>>());
    assert_eq!(string_of(&v), s);
}

#[test]
fn trim_matches_std() {
    for s in ["  a b \n", "\u{3000}x\u{a0}", "", "   ", "abc"] {
        let t: String = trim_chars(&chars_of(s)).into_iter().collect();
        assert_eq!(t, s.trim());
    }
}

#[test]
fn contains_matches_std() {
    let hay = chars_of("serve is not enabled");
    assert!(contains_chars(&hay, &chars_of("not en")));
    assert!(contains_chars(&hay, &chars_of("")));
    assert!(!contains_chars(&hay, &chars_of("enabled!")));
    assert!(!contains_chars(&chars_of(""), &chars_of("a")));
}

#[test]
fn first_token_by_prefix_and_infix() {
    let text = chars_of("a https://x.com https://y.ts.net z");
    let t = first_token(&text, &chars_of("https://"), &chars_of(".ts.net"));
    assert_eq!(t, Some(chars_of("https://y.ts.net")));
    assert_eq!(first_token(&text, &chars_of("ftp://"), &chars_of("")), None);
}
