use rust_str_bench::byte1::{
    find_byte, find_char_chars_enumerate, find_char_string_find_char, find_char_with_ascii,
    find_char_with_ascii_memchr, find_str, gen_random_strings,
};
use rust_str_bench::random_strings::random_string;

#[test]
fn all_finders_agree_on_ascii() {
    for s in ["", "a", "b", "bbbab", "xyzabca", "the quick brown fox", "zzzz"] {
        let expected = s.find('a');
        assert_eq!(find_char_chars_enumerate(s, 'a'), expected);
        assert_eq!(find_char_string_find_char(s, 'a'), expected);
        assert_eq!(find_char_with_ascii(s, 'a'), expected);
        assert_eq!(find_char_with_ascii_memchr(s, 'a'), expected);
        assert_eq!(find_str(s, "a"), expected);
    }
}

#[test]
fn chars_are_counted_in_characters_and_offsets_in_bytes() {
    let s = "h\u{e9}llo w\u{f6}rld";
    assert_eq!(find_char_chars_enumerate(s, 'l'), Some(2));
    assert_eq!(find_char_string_find_char(s, 'l'), Some(3));
    assert_eq!(find_char_with_ascii(s, 'l'), Some(3));
    assert_eq!(find_char_with_ascii_memchr(s, 'l'), Some(3));
    assert_eq!(find_char_chars_enumerate(s, '\u{f6}'), Some(7));
    assert_eq!(find_char_string_find_char(s, '\u{f6}'), Some(8));
    assert_eq!(find_char_string_find_char(s, 'z'), None);
}

#[test]
fn needles_up_to_the_limit_are_sought_as_single_bytes() {
    // U+00E9 is at most 0xf7, so the byte 0xe9 is sought, which a UTF-8
    // string never holds.
    let s = "h\u{e9}llo";
    assert_eq!(find_char_with_ascii(s, '\u{e9}'), None);
    assert_eq!(find_char_with_ascii_memchr(s, '\u{e9}'), None);
    // U+00C3 is sought as the byte 0xc3, the first byte of U+00E9 in UTF-8.
    assert_eq!(find_char_with_ascii(s, '\u{c3}'), Some(1));
    assert_eq!(find_char_with_ascii_memchr(s, '\u{c3}'), Some(1));
    // U+0100 is beyond the limit and is sought as a character.
    let t = "a\u{100}b";
    assert_eq!(find_char_with_ascii(t, '\u{100}'), Some(1));
    assert_eq!(find_char_with_ascii_memchr(t, '\u{100}'), Some(1));
    assert_eq!(find_char_with_ascii(t, '\u{f8}'), None);
}

#[test]
fn find_byte_and_find_str() {
    assert_eq!(find_byte(b"hello", b'l'), Some(2));
    assert_eq!(find_byte(b"hello", b'z'), None);
    assert_eq!(find_byte(b"", b'z'), None);
    assert_eq!(find_str("hello world", "o w"), Some(4));
    assert_eq!(find_str("hello world", "ow"), None);
    assert_eq!(find_str("hello", ""), Some(0));
    assert_eq!(find_str("aaab", "ab"), Some(2));
}

#[test]
fn random_strings_are_lowercase_and_of_the_length_asked() {
    for len in [0usize, 1, 2, 17, 100] {
        let s = random_string(len);
        assert_eq!(s.len(), len);
        assert!(s.bytes().all(|b| b.is_ascii_lowercase()));
    }
    let strings = gen_random_strings();
    assert_eq!(strings.len(), 1000);
    for s in &strings {
        assert!(s.len() <= 30);
        assert!(s.bytes().all(|b| b.is_ascii_lowercase()));
    }
    assert!(strings.iter().any(|s| s.len() > 15));
}
