use bm_keyboard::key_event::KeyEvent;
use bm_keyboard::listener::{grab_event, translate, Grab, InputEvent, PressedKey};
use bm_keyboard::macos_key_tap::{
    key_down_step, should_pass_through, special_keycode, swallows, tap_thread_name,
    unicode_string_from_units, KeyStep, TapMode, FLAG_ALTERNATE, FLAG_COMMAND, FLAG_CONTROL,
    KEYCODE_DELETE, KEYCODE_ESCAPE, KEYCODE_RETURN,
};

#[test]
fn translates_control_keys() {
    assert!(matches!(
        special_keycode(KEYCODE_DELETE),
        Some(KeyEvent::Backspace)
    ));
    assert!(matches!(
        special_keycode(KEYCODE_RETURN),
        Some(KeyEvent::Enter)
    ));
    assert!(matches!(
        special_keycode(KEYCODE_ESCAPE),
        Some(KeyEvent::Escape)
    ));
    assert!(special_keycode(0).is_none());
}

#[test]
fn keycodes_are_the_macos_ones() {
    assert_eq!(KEYCODE_DELETE, 0x33);
    assert_eq!(KEYCODE_RETURN, 0x24);
    assert_eq!(KEYCODE_ESCAPE, 0x35);
}

#[test]
fn modifiers_pass_through() {
    assert!(should_pass_through(FLAG_COMMAND));
    assert!(should_pass_through(FLAG_CONTROL | 0x100));
    assert!(should_pass_through(FLAG_ALTERNATE));
    assert!(!should_pass_through(0));
    assert!(!should_pass_through(0x0002_0000));
}

#[test]
fn key_down_decisions() {
    assert!(matches!(key_down_step(false, 0, 0x33), KeyStep::Ignore));
    assert!(matches!(key_down_step(true, FLAG_COMMAND, 0x33), KeyStep::Ignore));
    assert!(matches!(key_down_step(true, 0, -1), KeyStep::Ignore));
    assert!(matches!(key_down_step(true, 0, 0x1_0000), KeyStep::Ignore));
    assert!(matches!(
        key_down_step(true, 0, 0x33),
        KeyStep::Send(KeyEvent::Backspace)
    ));
    assert!(matches!(key_down_step(true, 0, 0x00), KeyStep::ReadText));
}

#[test]
fn only_grab_mode_swallows_sent_keys() {
    assert!(swallows(TapMode::Grab, true));
    assert!(!swallows(TapMode::Grab, false));
    assert!(!swallows(TapMode::Listen, true));
    assert_eq!(tap_thread_name(TapMode::Grab), "macos-key-grab");
    assert_eq!(tap_thread_name(TapMode::Listen), "macos-key-listen");
}

#[test]
fn key_text_from_utf16_buffer() {
    let mut buf = [0u16; 8];
    buf[0] = 'a' as u16;
    assert_eq!(unicode_string_from_units(&buf, 1), Some("a".to_string()));
    assert_eq!(unicode_string_from_units(&buf, 0), None);
    assert_eq!(unicode_string_from_units(&buf, 9), None);
    buf[0] = 0x1b;
    assert_eq!(unicode_string_from_units(&buf, 1), None);
    buf[0] = 0xD83D;
    buf[1] = 0xDE00;
    assert_eq!(unicode_string_from_units(&buf, 2), Some("😀".to_string()));
    assert_eq!(unicode_string_from_units(&buf, 1), None);
    buf[0] = 0xDE00;
    assert_eq!(unicode_string_from_units(&buf, 1), None);
}

#[test]
fn utf16_decoding_agrees_with_std() {
    let samples: [&[u16]; 6] = [
        &[0x61, 0x62],
        &[0xD55C, 0xAE00],
        &[0xD83D, 0xDE00, 0x41],
        &[0xDC00, 0x41],
        &[0x41, 0xD800],
        &[0xFFFF, 0xE000],
    ];
    for units in samples {
        let ours = bm_keyboard::macos_key_tap::decode_utf16(units, units.len());
        assert_eq!(ours, String::from_utf16(units).ok());
    }
}

#[test]
fn listener_translates_presses() {
    assert!(matches!(translate(PressedKey::Backspace, None), Some(KeyEvent::Backspace)));
    assert!(matches!(translate(PressedKey::Return, Some("x".into())), Some(KeyEvent::Enter)));
    assert!(matches!(translate(PressedKey::Escape, None), Some(KeyEvent::Escape)));
    assert!(matches!(translate(PressedKey::Other, Some("q".into())), Some(KeyEvent::Char(s)) if s == "q"));
    assert!(translate(PressedKey::Other, Some(String::new())).is_none());
    assert!(translate(PressedKey::Other, None).is_none());
}

#[test]
fn grab_lets_command_shortcuts_through() {
    let mut held = false;
    assert!(matches!(
        grab_event(&mut held, InputEvent::Press(PressedKey::Other), Some("a".into())),
        Grab::Swallow(Some(KeyEvent::Char(_)))
    ));
    assert!(matches!(
        grab_event(&mut held, InputEvent::Press(PressedKey::MetaLeft), None),
        Grab::PassThrough
    ));
    assert!(held);
    assert!(matches!(
        grab_event(&mut held, InputEvent::Press(PressedKey::Other), Some("c".into())),
        Grab::PassThrough
    ));
    assert!(matches!(
        grab_event(&mut held, InputEvent::Release(PressedKey::MetaRight), None),
        Grab::PassThrough
    ));
    assert!(!held);
    assert!(matches!(
        grab_event(&mut held, InputEvent::Press(PressedKey::Escape), None),
        Grab::Swallow(Some(KeyEvent::Escape))
    ));
    assert!(matches!(grab_event(&mut held, InputEvent::Other, None), Grab::PassThrough));
}
