use rush_qdrant::text;

#[test]
fn trim_agrees_with_the_unicode_property() {
    for n in 0..0x110000u32 {
        if let Some(c) = char::from_u32(n) {
            let s = format!("{}x{}", c, c);
            assert_eq!(text::trim(&s), s.trim(), "{:x}", n);
        }
    }
    assert_eq!(text::trim(" \t a b \r\n"), "a b");
    assert_eq!(text::trim(" \u{3000} "), "");
}

#[test]
fn trimming_of_one_character() {
    assert_eq!(text::trim_end_of("http://x//", '/'), "http://x");
    assert_eq!(text::trim_end_of("///", '/'), "");
    assert_eq!(text::trim_start_of("//a/", '/'), "a/");
}

#[test]
fn lines_are_split_as_everywhere() {
    for s in [
        "", "\n", "a", "a\n", "a\nb", "a\r\nb\r\n", "\r\n", "a\r", "a\r\r\nb", "\n\n", "x\n\ny\r",
    ] {
        let expected: Vec<String> = s.lines().map(|l| l.to_string()).collect();
        assert_eq!(text::lines(s), expected, "{:?}", s);
    }
}

#[test]
fn numbers_are_written_and_read() {
    for n in [0u64, 7, 9, 10, 99, 100, 12345, u64::MAX] {
        assert_eq!(text::number(n), n.to_string());
    }
    for n in [0usize, 9, 10, 4096, usize::MAX] {
        assert_eq!(text::parse_usize(&text::number(n as u64)), Some(n));
    }
    for s in ["", "+", "-", "-1", "+5", "00012", " 1", "1 ", "1a", "18446744073709551616", "٣"] {
        assert_eq!(text::parse_usize(s), s.parse::<usize>().ok(), "{:?}", s);
    }
}

#[test]
fn parts_are_found_and_removed() {
    assert!(text::contains("tokens exceed the limit", "exceed"));
    assert!(text::contains("abc", ""));
    assert!(!text::contains("exc", "exceed"));
    assert!(!text::contains("exceexcee", "exceed"));
    assert_eq!(text::remove_all("a:[x]b:[x]:[x]", ":[x]"), "ab");
    assert_eq!(text::remove_all("aaa", "aa"), "aaa".replace("aa", ""));
    assert_eq!(text::remove_all("ababa", "aba"), "ababa".replace("aba", ""));
    assert_eq!(text::remove_all("abc", ""), "abc");
    assert_eq!(text::trim_endings("x.git.git", ".git"), "x");
    assert_eq!(text::trim_endings(".git", ".git"), "");
    assert_eq!(text::trim_endings("git", ".git"), "git");
    assert!(text::starts_with("abc", "ab") && !text::starts_with("a", "ab"));
    assert!(text::ends_with("abc", "bc") && !text::ends_with("c", "bc"));
}

#[test]
fn parts_at_a_character() {
    assert_eq!(text::tail_after("a/b/c", '/'), "c");
    assert_eq!(text::tail_after("abc", '/'), "abc");
    assert_eq!(text::tail_after("a/", '/'), "");
    assert_eq!(text::head_before("a/b/c", '/'), "a/b");
    assert_eq!(text::head_before("abc", '/'), "");
    assert_eq!(text::head_before("/abc", '/'), "");
}

#[test]
fn items_are_joined() {
    let parts = |list: &[&str]| -> Vec<String> { list.iter().map(|s| s.to_string()).collect() };
    assert_eq!(text::join(&parts(&[]), ", "), "");
    assert_eq!(text::join(&parts(&["a"]), ", "), "a");
    assert_eq!(text::join(&parts(&["a", "", "c"]), ", "), "a, , c");
}

#[test]
fn bytes_are_cut_between_characters() {
    let s = "a\u{e9}b";
    assert!(text::cuts_between_chars(s, 1));
    assert!(!text::cuts_between_chars(s, 2));
    assert!(text::cuts_between_chars(s, 3));
    assert!(text::cuts_between_chars(s, 100));
    assert_eq!(text::cut_to_bytes(s, 1), "a");
    assert_eq!(text::cut_to_bytes(s, 3), "a\u{e9}");
    assert_eq!(text::cut_to_bytes(s, 100), s);
}
