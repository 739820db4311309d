use yfiles::text::{
    chars_of, fmt_octal4, fmt_u64, parse_usize, str_eq, trim_str, words_of,
};

#[test]
fn trim_matches_std() {
    for s in ["", "  a  ", "\t x y \n", "\u{3000}wide\u{2028}", "none", "   "] {
        assert_eq!(trim_str(s), s.trim());
        assert_eq!(trim_str(&trim_str(s)), trim_str(s));
    }
}

#[test]
fn words_match_split_whitespace() {
    for s in ["", "a b  c", "  lead", "trail  ", "tab\tsep\nline", "\u{a0}nbsp\u{a0}x"] {
        let ours: Vec<String> =
            words_of(&chars_of(s)).into_iter().map(|w| w.into_iter().collect()).collect();
        let theirs: Vec<String> = s.split_whitespace().map(|w| w.to_string()).collect();
        assert_eq!(ours, theirs, "words of {:?}", s);
    }
}

#[test]
fn number_formatting() {
    assert_eq!(fmt_u64(0), "0");
    assert_eq!(fmt_u64(1234567890), "1234567890");
    assert_eq!(fmt_u64(u64::MAX), u64::MAX.to_string());
    assert_eq!(fmt_octal4(0o755), "0755");
    assert_eq!(fmt_octal4(0), "0000");
    assert_eq!(fmt_octal4(0o17777), "17777");
    for m in [0u32, 7, 0o644, 0o4755, 4095] {
        assert_eq!(fmt_octal4(m), format!("{:04o}", m));
    }
}

#[test]
fn parse_usize_matches_std() {
    for s in ["0", "42", "+7", "", "+", "-1", "12a", " 3", "18446744073709551615",
        "18446744073709551616", "007"] {
        assert_eq!(parse_usize(&chars_of(s)), s.parse::<usize>().ok(), "{:?}", s);
    }
}

#[test]
fn string_equality() {
    assert!(str_eq("abc", "abc"));
    assert!(!str_eq("abc", "abd"));
    assert!(!str_eq("ab", "abc"));
}
