use gtmov::text::{chars_of, decimal_string, replace_char, string_from_chars, trim_chars, white_space};

#[test]
fn decimal_rendering() {
    assert_eq!(decimal_string(0), "0");
    assert_eq!(decimal_string(7), "7");
    assert_eq!(decimal_string(10), "10");
    assert_eq!(decimal_string(4294967295), "4294967295");
    assert_eq!(decimal_string(u64::MAX), u64::MAX.to_string());
}

#[test]
fn chars_round_trip() {
    let v = chars_of("héllo wörld");
    assert_eq!(v.len(), 11);
    assert_eq!(string_from_chars(&v), "héllo wörld");
}

#[test]
fn trimming_matches_str_trim() {
    for s in ["  a b  ", "\u{3000}x\u{a0}", "", "   ", "\tTab\n", "\u{200b}z"] {
        let t = string_from_chars(&trim_chars(&chars_of(s)));
        assert_eq!(t, s.trim());
    }
}

#[test]
fn white_space_matches_std() {
    for c in ['\t', '\n', ' ', '\u{85}', '\u{a0}', '\u{1680}', '\u{2000}', '\u{200a}', '\u{200b}',
        '\u{2028}', '\u{202f}', '\u{205f}', '\u{3000}', 'a', '_', '\u{feff}']
    {
        assert_eq!(white_space(c), c.is_whitespace(), "{:?}", c);
    }
}

#[test]
fn replacing_characters() {
    let r = replace_char(&chars_of("a\"b\""), '"', &vec!['\\', '"']);
    assert_eq!(string_from_chars(&r), "a\\\"b\\\"");
    let r = replace_char(&chars_of("x_y__z"), '_', &vec![' ']);
    assert_eq!(string_from_chars(&r), "x y  z");
}
