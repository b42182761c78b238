use bm_keyboard::token::{canonical_entry, Token, CANONICAL_LEN};

#[test]
fn convert_picks_longest_prefix() {
    assert_eq!(Token::convert("yae"), Some(("yae", 'ㅒ')));
    assert_eq!(Token::convert("yaeb"), Some(("yae", 'ㅒ')));
    assert_eq!(Token::convert("yab"), Some(("ya", 'ㅑ')));
    assert_eq!(Token::convert("chx"), Some(("ch", 'ㅊ')));
    assert_eq!(Token::convert("c"), None);
    assert_eq!(Token::convert("x"), None);
    assert_eq!(Token::convert(""), None);
    assert_eq!(Token::convert("ㅎ"), None);
    assert_eq!(Token::convert("hㅎ"), Some(("h", 'ㅎ')));
}

#[test]
fn every_canonical_spelling_is_matched_by_itself() {
    for i in 0..CANONICAL_LEN {
        let (key, jamo) = canonical_entry(i);
        assert_eq!(Token::convert(key), Some((key, jamo)));
    }
}

#[test]
fn no_longer_spelling_begins_the_text_than_the_one_picked() {
    let texts = ["yaeo", "oaek", "wi", "eumm", "kkk", "sss", "yeoyo", "uiu"];
    for text in texts {
        let (picked, _) = Token::convert(text).unwrap();
        for i in 0..CANONICAL_LEN {
            let (key, _) = canonical_entry(i);
            if text.starts_with(key) {
                assert!(key.len() <= picked.len(), "{key} longer than {picked} in {text}");
            }
        }
    }
}

#[test]
fn new_token_holds_match_or_input() {
    let t = Token::new("kka");
    assert_eq!(t.text(), "kk");
    assert_eq!(t.ch(), 'ㄲ');
    let t = Token::new("xyz");
    assert_eq!(t.text(), "xyz");
    assert_eq!(t.ch(), '\0');
    let t = Token::default();
    assert_eq!(t.text(), "");
    assert_eq!(t.ch(), '\0');
}
