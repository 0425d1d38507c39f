use nexo_poller_gmail::text::{
    chars_of, contains_text, decimal_text, is_before, is_white_space, same_text, text_of, trim,
};

const SAMPLES: [&str; 14] = [
    "",
    " ",
    "a",
    "  a b \n",
    "\u{a0}\u{2003}x\u{3000}",
    "abc",
    "abd",
    "ab",
    "Z",
    "é",
    "\u{ff21}",
    "\u{10000}",
    "\u{200b}a",
    "401 Unauthorized",
];

#[test]
fn white_space_is_that_of_unicode() {
    for n in 0..=0x10ffffu32 {
        if let Some(ch) = char::from_u32(n) {
            assert_eq!(is_white_space(ch), ch.is_whitespace(), "{n:x}");
        }
    }
}

#[test]
fn trim_drops_white_space_at_both_ends() {
    assert_eq!(trim("  a b \n"), "a b");
    for s in SAMPLES {
        assert_eq!(trim(s), s.trim());
    }
}

#[test]
fn texts_are_ordered_by_their_bytes() {
    for a in SAMPLES {
        for b in SAMPLES {
            assert_eq!(is_before(a, b), a < b, "{a:?} {b:?}");
            assert_eq!(same_text(a, b), a == b);
        }
    }
}

#[test]
fn contained_texts_are_found() {
    assert!(contains_text("error 401: denied", "401"));
    assert!(!contains_text("error 40 1", "401"));
    for a in SAMPLES {
        for b in SAMPLES {
            assert_eq!(contains_text(a, b), a.contains(b), "{a:?} {b:?}");
        }
    }
}

#[test]
fn numbers_are_written_in_decimal() {
    assert_eq!(decimal_text(0), "0");
    assert_eq!(decimal_text(20), "20");
    assert_eq!(decimal_text(usize::MAX), format!("{}", usize::MAX));
}

#[test]
fn texts_are_put_together_from_characters() {
    let chars = chars_of("héllo");
    assert_eq!(chars, vec!['h', 'é', 'l', 'l', 'o']);
    assert_eq!(text_of(&chars, 1, 3), "él");
}
