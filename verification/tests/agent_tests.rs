use bm_keyboard::agent::{
    convert, CharChoice, CharScanner, Effect, InputAgent, Message, SynthesizerAgent,
};
use bm_keyboard::key_event::KeyEvent;

#[test]
fn default_text_is_empty() {
    let a = InputAgent::default();
    assert_eq!(a.text(), "");
}

#[test]
fn typing_appends_chars() {
    let mut a = InputAgent::default();
    let _ = a.update(Message::Key(KeyEvent::Char("ㅈ".into())));
    let _ = a.update(Message::Key(KeyEvent::Char("ㅏ".into())));
    assert_eq!(a.text(), "ㅈㅏ");
}

#[test]
fn backspace_pops_one_char() {
    let mut a = InputAgent::default();
    let _ = a.update(Message::Key(KeyEvent::Char("ab".into())));
    let _ = a.update(Message::Key(KeyEvent::Backspace));
    assert_eq!(a.text(), "a");
}

#[test]
fn backspace_on_empty_is_noop() {
    let mut a = InputAgent::default();
    let _ = a.update(Message::Key(KeyEvent::Backspace));
    assert_eq!(a.text(), "");
}

#[test]
fn escape_clears_text() {
    let mut a = InputAgent::default();
    let _ = a.update(Message::Key(KeyEvent::Char("anything".into())));
    let _ = a.update(Message::Key(KeyEvent::Escape));
    assert_eq!(a.text(), "");
}

#[test]
fn enter_clears_text() {
    let mut a = InputAgent::default();
    let _ = a.update(Message::Key(KeyEvent::Char("commit me".into())));
    let _ = a.update(Message::Key(KeyEvent::Enter));
    assert_eq!(a.text(), "");
}

#[test]
fn click_appends_jang() {
    let mut a = InputAgent::default();
    let _ = a.update(Message::Clicked);
    assert_eq!(a.text(), "장");
}

#[test]
fn enter_commits_the_text_typed() {
    let mut a = InputAgent::default();
    let _ = a.update(Message::Key(KeyEvent::Char("commit me".into())));
    match a.update(Message::Key(KeyEvent::Enter)) {
        Effect::Commit(text) => assert_eq!(text, "commit me"),
        other => panic!("expected a commit, got {other:?}"),
    }
}

#[test]
fn backspace_removes_a_whole_multibyte_char() {
    let mut a = InputAgent::default();
    let _ = a.update(Message::Key(KeyEvent::Char("가나".into())));
    let _ = a.update(Message::Key(KeyEvent::Backspace));
    assert_eq!(a.text(), "가");
}

#[test]
fn window_opening_leaves_text_and_asks_nothing() {
    let mut a = InputAgent::default();
    let _ = a.update(Message::Key(KeyEvent::Char("ab".into())));
    let effect = a.update(Message::WindowOpened(iced::window::Id::unique()));
    assert!(matches!(effect, Effect::Idle));
    assert_eq!(a.text(), "ab");
}

#[test]
fn edits_ask_for_a_resize() {
    let mut a = InputAgent::default();
    assert!(matches!(a.update(Message::Clicked), Effect::Resize));
    assert!(matches!(a.update(Message::Key(KeyEvent::Escape)), Effect::Resize));
}

#[test]
fn measured_chars_is_at_least_one_and_grows_with_text() {
    let mut a = InputAgent::default();
    assert_eq!(a.measured_chars(), 1);
    let _ = a.update(Message::Key(KeyEvent::Char("a".into())));
    assert_eq!(a.measured_chars(), 1);
    let _ = a.update(Message::Key(KeyEvent::Char("aaaaaaa".into())));
    assert_eq!(a.measured_chars(), 8);
}

#[test]
fn convert_reads_romaja_by_longest_prefix() {
    assert_eq!(convert("annyeong"), "ㅏㄴㄴㅕㄴㄱ");
    assert_eq!(convert("babo"), "ㅂㅏㅂㅗ");
    assert_eq!(convert("choi"), "ㅊㅗㅣ");
    assert_eq!(convert("yae"), "ㅒ");
    assert_eq!(convert("kkachi"), "ㄲㅏㅊㅣ");
}

#[test]
fn convert_drops_what_matches_nothing() {
    assert_eq!(convert(""), "");
    assert_eq!(convert("x1!"), "");
    assert_eq!(convert("xlax"), "ㅏ");
}

#[test]
fn convert_of_each_canonical_spelling_is_its_jamo() {
    for i in 0..bm_keyboard::token::CANONICAL_LEN {
        let (key, jamo) = bm_keyboard::token::canonical_entry(i);
        assert_eq!(convert(key), jamo.to_string());
    }
}

#[test]
fn synthesizer_shows_converted_input() {
    let mut s = SynthesizerAgent::default();
    s.update("hangul");
    assert_eq!(s.text(), "ㅎㅏㄴㄱㅜ");
    s.update("");
    assert_eq!(s.text(), "");
    assert_eq!(s.measured_chars(), 1);
}

#[test]
fn char_choice_offers_alternatives() {
    let mut c = CharChoice::default();
    assert!(c.choices().is_empty());
    c.new("oi");
    assert_eq!(c.choices(), &["oe".to_string()]);
    c.new("wae");
    assert_eq!(c.choices(), &["wae".to_string()]);
    c.new("ab");
    assert!(c.choices().is_empty());
}

#[test]
fn scanner_classifies_and_finds_digraphs() {
    let mut s = CharScanner::default();
    s.scan("chae 9A!");
    let expected = [
        "[ch]",
        "vowel(a)",
        "vowel(e)",
        "space",
        "digit(value=9)",
        "alpha(A, code=0x41)",
        "punct(!)",
    ];
    assert_eq!(s.tokens(), &expected.map(String::from));
    assert_eq!(s.digraph_count(), 1);
}

#[test]
fn scanner_reports_other_characters_with_their_code() {
    let mut s = CharScanner::default();
    s.scan("ㅎ\u{1}b");
    assert_eq!(
        s.tokens(),
        &[
            "other('ㅎ', U+314E)".to_string(),
            "other('\\u{1}', U+0001)".to_string(),
            "alpha(b, code=0x62)".to_string(),
        ]
    );
    assert_eq!(s.digraph_count(), 0);
}

#[test]
fn scanner_accumulates_over_scans() {
    let mut s = CharScanner::default();
    s.scan("eo");
    s.scan("gng");
    s.scan("gg\t");
    assert_eq!(
        s.tokens(),
        &[
            "[eo]".to_string(),
            "alpha(g, code=0x67)".to_string(),
            "[ng]".to_string(),
            "[gg]".to_string(),
            "space".to_string(),
        ]
    );
    assert_eq!(s.digraph_count(), 3);
    // every character is a token of its own or one of a digraph
    assert_eq!(s.tokens().len() + s.digraph_count(), 2 + 3 + 3);
}

#[test]
fn other_token_formats_debug_text_and_code() {
    assert_eq!(
        bm_keyboard::agent::other_token('\u{1F600}', "'😀'"),
        "other('😀', U+1F600)"
    );
}
