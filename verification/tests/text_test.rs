use jarvish::text::{
    chars_of, is_white_space, push_decimal, push_hex, push_signed_decimal, string_of,
};

#[test]
fn white_space_is_that_of_the_standard_library() {
    for code in 0..=0x10_ffffu32 {
        if let Some(c) = char::from_u32(code) {
            assert_eq!(is_white_space(c), c.is_whitespace(), "{code:x}");
        }
    }
}

#[test]
fn numbers_are_written_like_the_standard_library() {
    for n in [0, 7, 10, 99, 100, 4096, u64::MAX] {
        let mut decimal = String::from("n=");
        push_decimal(&mut decimal, n);
        assert_eq!(decimal, format!("n={n}"));
        let mut hex = String::from("x");
        push_hex(&mut hex, n, 16);
        assert_eq!(hex, format!("x{n:016x}"));
    }
    for n in [0, 1, -1, i32::MAX, i32::MIN] {
        let mut signed = String::new();
        push_signed_decimal(&mut signed, n);
        assert_eq!(signed, n.to_string());
    }
}

#[test]
fn characters_and_strings_are_one() {
    let chars = chars_of("aä日\u{1f935}");
    assert_eq!(chars, vec!['a', 'ä', '日', '\u{1f935}']);
    assert_eq!(string_of(&chars), "aä日\u{1f935}");
}
