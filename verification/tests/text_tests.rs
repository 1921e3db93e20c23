use litepad::text::{
    bytes_le, chars_of, joined, ends_with, skip_chars, starts_with, str_equal, str_le,
};

const SAMPLES: [&str; 18] = [
    "", "a", "A", "ab", "abc", "abd", "b", "aa", "a\u{0}", "\u{7f}", "\u{80}", "\u{7ff}",
    "\u{800}", "\u{ffff}", "\u{10000}", "\u{e9}", "e\u{301}", "litepad_backup_",
];

#[test]
fn order_is_that_of_the_standard_library() {
    for a in SAMPLES.iter() {
        for b in SAMPLES.iter() {
            assert_eq!(str_le(a, b), a <= b, "{:?} against {:?}", a, b);
            assert_eq!(bytes_le(a.as_bytes(), b.as_bytes()), a.as_bytes() <= b.as_bytes());
            assert_eq!(str_equal(a, b), a == b);
        }
    }
}

#[test]
fn prefixes_and_suffixes_are_those_of_the_standard_library() {
    for a in SAMPLES.iter() {
        for b in SAMPLES.iter() {
            assert_eq!(starts_with(a, b), a.starts_with(b), "{:?} starts with {:?}", a, b);
            assert_eq!(ends_with(a, b), a.ends_with(b), "{:?} ends with {:?}", a, b);
            assert_eq!(joined(a, b), format!("{}{}", a, b));
        }
    }
}

#[test]
fn characters_are_counted_not_bytes() {
    assert_eq!(chars_of("a\u{e9}\u{6587}\u{1f600}"), vec!['a', '\u{e9}', '\u{6587}', '\u{1f600}']);
    assert_eq!(chars_of(""), Vec::<char>::new());
    assert_eq!(skip_chars("\u{e9}\u{6587}xyz", 2), "xyz");
    assert_eq!(skip_chars("abc", 0), "abc");
    assert_eq!(skip_chars("abc", 3), "");
    assert_eq!(skip_chars("abc", 4), "");
}
