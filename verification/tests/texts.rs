use rustty::text::{
    chars_of, eq_ignore_ascii_case, find, is_white_space, slice_of, split_once, string_of, strip,
    trim, utf16_from, utf16_lossy,
};

#[test]
fn blanks_are_trimmed_as_in_a_string() {
    for text in ["", "  ", " a b ", "\t\u{3000}x\u{2009}\n", "\u{200b}y\u{200b}"] {
        assert_eq!(string_of(&trim(&chars_of(text))), text.trim());
    }
    for value in 0..0x3100u32 {
        if let Some(c) = char::from_u32(value) {
            assert_eq!(is_white_space(c), c.is_whitespace(), "{value:x}");
        }
    }
}

#[test]
fn marks_are_stripped_from_both_ends() {
    assert_eq!(string_of(&strip(&chars_of("\"\"ss01\""), '"')), "ss01");
    assert_eq!(string_of(&strip(&chars_of("a\"b"), '"')), "a\"b");
    assert_eq!(string_of(&strip(&chars_of("\"\""), '"')), "");
}

#[test]
fn texts_are_split_at_the_first_mark() {
    let chars = chars_of("a=b=c");
    assert_eq!(find(&chars, '=', 0), 1);
    assert_eq!(find(&chars, '=', 2), 3);
    assert_eq!(find(&chars, 'z', 0), 5);
    let (head, tail) = split_once(&chars, '=').expect("two parts");
    assert_eq!((string_of(&head), string_of(&tail)), ("a".to_string(), "b=c".to_string()));
    assert!(split_once(&chars_of("abc"), '=').is_none());
    assert_eq!(string_of(&slice_of(&chars, 1, 4)), "=b=");
}

#[test]
fn case_counts_only_beyond_ascii() {
    assert!(eq_ignore_ascii_case("Consolas", "cONSOLAS"));
    assert!(!eq_ignore_ascii_case("Consolas", "Consola"));
    assert!(!eq_ignore_ascii_case("\u{e9}", "\u{c9}"));
    for a in ['@', 'A', 'Z', '[', '`', 'a', 'z', '{'] {
        for b in ['@', 'A', 'Z', '[', '`', 'a', 'z', '{'] {
            let (left, right) = (a.to_string(), b.to_string());
            assert_eq!(
                eq_ignore_ascii_case(&left, &right),
                left.eq_ignore_ascii_case(&right)
            );
        }
    }
}

#[test]
fn utf16_reads_back() {
    for text in ["", "plain", "\u{e9}\u{20ac}", "\u{1f600}x\u{10ffff}"] {
        let units = utf16_from(text);
        assert_eq!(units, text.encode_utf16().collect::<Vec<u16>>());
        assert_eq!(utf16_lossy(&units), text);
    }
}

#[test]
fn lone_halves_are_replaced() {
    for units in [
        vec![0xd83d],
        vec![0xde00, 0x41],
        vec![0xd83d, 0xd83d, 0xde00],
        vec![0x41, 0xd83d, 0x42],
    ] {
        assert_eq!(utf16_lossy(&units), String::from_utf16_lossy(&units));
    }
}
