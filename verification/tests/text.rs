use magpkg::text::{
    char_is_space, chars_of, concat2, concat3, decimal, hex16, str_contains_char, str_ends_with,
    str_eq, str_find, str_starts_with, str_strip_suffix, str_to_ascii_lowercase, str_trim,
    str_trim_start, string_of,
};

#[test]
fn chars_round_trip() {
    let v = chars_of("héllo");
    assert_eq!(v, vec!['h', 'é', 'l', 'l', 'o']);
    assert_eq!(string_of(&v), "héllo");
    assert_eq!(chars_of(""), Vec::<char>::new());
}

#[test]
fn equality_prefix_and_suffix() {
    assert!(str_eq("abc", "abc"));
    assert!(!str_eq("abc", "abd"));
    assert!(!str_eq("abc", "ab"));
    assert!(str_eq("", ""));
    assert!(str_starts_with("magnet:?xt", "magnet:"));
    assert!(!str_starts_with("mag", "magnet:"));
    assert!(str_starts_with("x", ""));
    assert!(str_ends_with("a.torrent", ".torrent"));
    assert!(!str_ends_with("a.torrent.x", ".torrent"));
    assert!(!str_ends_with("t", ".torrent"));
}

#[test]
fn find_gives_first_occurrence_in_characters() {
    assert_eq!(str_find("abcabc", "bc"), Some(1));
    assert_eq!(str_find("ééa", "a"), Some(2));
    assert_eq!(str_find("abc", "d"), None);
    assert_eq!(str_find("abc", ""), Some(0));
    assert_eq!(str_find("ab", "abc"), None);
    assert_eq!(str_find("aab", "ab"), Some(1));
}

#[test]
fn contains_char_and_strip_suffix() {
    assert!(str_contains_char("a/b", '/'));
    assert!(!str_contains_char("ab", '/'));
    assert_eq!(str_strip_suffix("x.lock", ".lock"), Some("x".to_string()));
    assert_eq!(str_strip_suffix(".lock", ".lock"), Some(String::new()));
    assert_eq!(str_strip_suffix("x.lock2", ".lock"), None);
}

#[test]
fn trim_agrees_with_the_standard_library() {
    let cases = [
        "",
        "  a b  ",
        "\t\n x\r\n",
        "\u{a0}x\u{2003}",
        "\u{3000}\u{85}y\u{1680}",
        "   ",
        "no-space",
        "\u{200b}zero-width-is-no-space ",
    ];
    for case in cases {
        assert_eq!(str_trim(case), case.trim(), "{case:?}");
        assert_eq!(str_trim_start(case), case.trim_start(), "{case:?}");
    }
}

#[test]
fn white_space_agrees_with_the_standard_library() {
    for code in 0u32..0x3100 {
        if let Some(c) = char::from_u32(code) {
            assert_eq!(char_is_space(c), c.is_whitespace(), "{code:#x}");
        }
    }
}

#[test]
fn lowercase_maps_ascii_letters_only() {
    assert_eq!(str_to_ascii_lowercase("AbC.TORRENT"), "abc.torrent");
    assert_eq!(str_to_ascii_lowercase("ÀÉ Z@["), "ÀÉ z@[");
    assert_eq!(str_to_ascii_lowercase("ÀÉ Z@["), "ÀÉ Z@[".to_ascii_lowercase());
}

#[test]
fn decimal_numerals() {
    assert_eq!(decimal(0), "0");
    assert_eq!(decimal(7), "7");
    assert_eq!(decimal(10), "10");
    assert_eq!(decimal(1234567890), "1234567890");
    assert_eq!(decimal(u64::MAX), u64::MAX.to_string());
}

#[test]
fn sixteen_hex_digits() {
    assert_eq!(hex16(0), "0000000000000000");
    assert_eq!(hex16(1), "0000000000000001");
    assert_eq!(hex16(0xdead_beef), "00000000deadbeef");
    assert_eq!(hex16(u64::MAX), "ffffffffffffffff");
    assert_eq!(hex16(0x0123_4567_89ab_cdef), format!("{:016x}", 0x0123_4567_89ab_cdefu64));
}

#[test]
fn concatenation() {
    assert_eq!(concat2("a", "b"), "ab");
    assert_eq!(concat3("a", "", "c"), "ac");
}
