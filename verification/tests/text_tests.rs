use bm_keyboard::text::{
    is_ascii_punctuation_char, is_control_char, is_whitespace_char, push_hex_padded, str_eq,
};

#[test]
fn char_classes_agree_with_std() {
    for v in 0u32..=0x10FFFF {
        if let Some(c) = char::from_u32(v) {
            assert_eq!(is_whitespace_char(c), c.is_whitespace(), "{v:#x}");
            assert_eq!(is_control_char(c), c.is_control(), "{v:#x}");
            assert_eq!(is_ascii_punctuation_char(c), c.is_ascii_punctuation(), "{v:#x}");
        }
    }
}

#[test]
fn hex_padding_agrees_with_format() {
    for n in [0u32, 1, 0xf, 0x10, 0x41, 0x314e, 0xffff, 0x1f600, 0x10ffff, u32::MAX] {
        let mut s = String::new();
        push_hex_padded(&mut s, n, 4);
        assert_eq!(s, format!("{n:04X}"));
        let mut s = String::new();
        push_hex_padded(&mut s, n, 2);
        assert_eq!(s, format!("{n:02X}"));
    }
}

#[test]
fn str_eq_compares_characters() {
    assert!(str_eq("oi", "oi"));
    assert!(!str_eq("oi", "oe"));
    assert!(!str_eq("o", "oi"));
    assert!(str_eq("", ""));
}
