use uv_cmd::text;

const SAMPLES: [&str; 16] = [
    "",
    "\n",
    "\n\n",
    "a",
    "a\n",
    "a\nb",
    "a\r\nb\r\n",
    "a\rb\n",
    "a\r",
    "\r\n\r\n",
    "a\r\r\nb",
    "  a b \t\n",
    "\u{3000}a\u{a0}\u{2003}",
    "日本語 🎉\n line",
    "\u{1b}[31mred\u{1b}[0m and \u{1b}[1;32mgreen\u{1b}[m",
    "\u{1b}[31 \u{1b}[\u{1b}[2K\u{1b}]0;t\u{7}x\u{1b}\u{1b}[0m[0m",
];

#[test]
fn white_space_is_the_unicode_property() {
    for c in '\0'..=char::MAX {
        assert_eq!(text::is_white_space(c), c.is_whitespace(), "{:?}", c);
    }
}

#[test]
fn lines_agree_with_std() {
    for s in SAMPLES {
        let expected: Vec<&str> = s.lines().collect();
        assert_eq!(text::lines(s), expected, "{:?}", s);
    }
}

#[test]
fn trim_agrees_with_std() {
    for s in SAMPLES {
        assert_eq!(text::trim(s), s.trim(), "{:?}", s);
    }
}

#[test]
fn control_sequences_agree_with_their_pattern() {
    let re = regex::Regex::new(r"\x1b\[[0-9;]*[a-zA-Z]").unwrap();
    for s in SAMPLES {
        assert_eq!(text::strip_ansi(s), re.replace_all(s, ""), "{:?}", s);
    }
    assert_eq!(text::strip_ansi("\u{1b}[1;31mboom\u{1b}[0m"), "boom");
}

#[test]
fn a_removed_control_sequence_can_leave_another() {
    assert_eq!(text::strip_ansi("\u{1b}\u{1b}[0m[0m"), "\u{1b}[0m");
}

#[test]
fn join_agrees_with_std() {
    let parts: Vec<String> = vec!["a".to_string(), String::new(), "b".to_string()];
    assert_eq!(text::join(&parts, 0, 3, "\n"), "a\n\nb");
    assert_eq!(text::join(&parts, 0, 3, ", "), parts.join(", "));
    assert_eq!(text::join(&parts, 1, 1, "\n"), "");
    assert_eq!(text::join(&parts, 2, 3, "\n"), "b");
}

#[test]
fn prefixes_and_occurrences_agree_with_std() {
    let needles = ["", "a", "ab", "abc", "b", "bc", "abcd", "日"];
    let texts = ["", "abc", "xabc", "aab", "日本"];
    for s in texts {
        for n in needles {
            assert_eq!(text::starts_with(s, n), s.starts_with(n), "{:?} {:?}", s, n);
            assert_eq!(text::contains(s, n), s.contains(n), "{:?} {:?}", s, n);
        }
    }
}

#[test]
fn truncate_counts_characters() {
    assert_eq!(text::truncate("abcdef", 6), "abcdef");
    assert_eq!(text::truncate("abcdef", 5), "ab...");
    assert_eq!(text::truncate("日本語日本語", 5), "日本...");
    assert_eq!(text::truncate("abcdef", 3), "...");
    assert_eq!(text::truncate("abcdef", 2), "...");
    assert_eq!(text::truncate("", 0), "");
    let once = text::truncate("abcdef", 5);
    assert_eq!(text::truncate(&once, 5), once);
}

#[test]
fn numbers_agree_with_std() {
    for n in [0u64, 7, 10, 99, 100, 12345, u64::MAX] {
        assert_eq!(text::decimal(n), n.to_string());
    }
    for n in [0i32, 1, -1, 137, -15, i32::MAX, i32::MIN] {
        assert_eq!(text::signed_decimal(n), n.to_string());
    }
}

#[test]
fn characters_make_the_string_again() {
    let chars = text::chars_of("日本語 x");
    assert_eq!(text::string_of(&chars, 0, 5), "日本語 x");
    assert_eq!(text::string_of(&chars, 1, 3), "本語");
}

#[test]
fn lines_and_join_undo_each_other() {
    for s in ["a\nb", "a\n\nb", "x"] {
        let lines = text::lines(s);
        assert_eq!(text::join(&lines, 0, lines.len(), "\n"), s);
    }
    let lines = text::lines("a\nb\n");
    assert_eq!(text::join(&lines, 0, lines.len(), "\n"), "a\nb");
}

#[test]
fn trimming_again_changes_nothing() {
    for s in SAMPLES {
        let once = text::trim(s);
        assert_eq!(text::trim(&once), once, "{:?}", s);
    }
}

#[test]
fn plain_text_is_left_as_it_is() {
    assert_eq!(text::strip_ansi("[31m plain; text"), "[31m plain; text");
}
