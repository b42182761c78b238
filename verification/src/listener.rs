use vstd::prelude::*;

use crate::key_event::KeyEvent;

verus! {

/// The keys that the key listener tells apart; every other key is `Other`.
#[derive(Debug, Clone, Copy, PartialEq, Eq, Structural)]
pub enum PressedKey {
    MetaLeft,
    MetaRight,
    Backspace,
    Return,
    Escape,
    Other,
}

/// A keyboard event as the listener sees it.
#[derive(Debug, Clone, Copy, PartialEq, Eq, Structural)]
pub enum InputEvent {
    Press(PressedKey),
    Release(PressedKey),
    /// Any event that is not a key press or release.
    Other,
}

/// What the listener does with an event.
#[derive(Debug)]
pub enum Grab {
    /// Hand the event on to the system.
    PassThrough,
    /// Keep the event from the system, sending the key event, if any, to the
    /// keyboard.
    Swallow(Option<KeyEvent>),
}

/// Whether `r` is what a press of `key`, whose produced text is `name`,
/// translates to: the control keys give their key events, any other key
/// the text it produced if that is not empty, and nothing otherwise.
pub open spec fn translates_to(key: PressedKey, name: Option<Seq<char>>, r: Option<KeyEvent>) -> bool {
    match key {
        PressedKey::Backspace => r matches Some(KeyEvent::Backspace),
        PressedKey::Return => r matches Some(KeyEvent::Enter),
        PressedKey::Escape => r matches Some(KeyEvent::Escape),
        _ => match name {
            Some(n) => if n.len() > 0 {
                r matches Some(KeyEvent::Char(t)) && t@ == n
            } else {
                r is None
            },
            None => r is None,
        },
    }
}

/// A press of any key but Backspace, Return and Escape that produced a
/// non-empty text is translated to that very text, whatever its characters;
/// one that produced no text, or an empty one, to nothing. Backspace,
/// Return and Escape give their own key events whatever text they produced.
pub proof fn law_produced_text_is_sent_as_typed(key: PressedKey, name: Option<Seq<char>>, r: Option<KeyEvent>)
    requires
        translates_to(key, name, r),
    ensures
        key != PressedKey::Backspace && key != PressedKey::Return && key != PressedKey::Escape ==> (
        match name {
            Some(n) => if n.len() > 0 {
                r matches Some(KeyEvent::Char(t)) && t@ == n
            } else {
                r is None
            },
            None => r is None,
        }),
        key == PressedKey::Backspace ==> r matches Some(KeyEvent::Backspace),
        key == PressedKey::Return ==> r matches Some(KeyEvent::Enter),
        key == PressedKey::Escape ==> r matches Some(KeyEvent::Escape),
{
}

/// While no Command key is held, a press of any key but a Command key,
/// Backspace, Return and Escape that produced a non-empty text is kept from
/// the system and sent on as that text.
pub proof fn law_grabbed_press_sends_its_text(key: PressedKey, n: Seq<char>, g: Grab)
    requires
        key != PressedKey::Backspace && key != PressedKey::Return && key != PressedKey::Escape,
        n.len() > 0,
        g matches Grab::Swallow(r) && translates_to(key, Some(n), r),
    ensures
        g matches Grab::Swallow(Some(KeyEvent::Char(t))) && t@ == n,
{
}

/// The view of an optional string.
pub open spec fn opt_view(s: Option<String>) -> Option<Seq<char>> {
    match s {
        Some(t) => Some(t@),
        None => None,
    }
}

/// Translates a key press into a key event.
pub fn translate(key: PressedKey, name: Option<String>) -> (r: Option<KeyEvent>)
    ensures
        translates_to(key, opt_view(name), r),
        key != PressedKey::Backspace && key != PressedKey::Return && key != PressedKey::Escape ==> (
        match name {
            Some(n) => if n@.len() > 0 {
                r matches Some(KeyEvent::Char(t)) && t@ == n@
            } else {
                r is None
            },
            None => r is None,
        }),
{
    match key {
        PressedKey::Backspace => Some(KeyEvent::Backspace),
        PressedKey::Return => Some(KeyEvent::Enter),
        PressedKey::Escape => Some(KeyEvent::Escape),
        _ => match name {
            Some(s) => if s.as_str().unicode_len() > 0 {
                Some(KeyEvent::Char(s))
            } else {
                None
            },
            None => None,
        },
    }
}

/// Decides what the grabbing listener does with an event, given whether a
/// Command (Meta) key is held, which it updates. Pressing or releasing a
/// Command key sets or clears the flag and passes the event on; while it is
/// held other presses pass on too (system shortcuts keep working); otherwise
/// a press is swallowed and translated. Everything else passes on.
pub fn grab_event(cmd_held: &mut bool, event: InputEvent, name: Option<String>) -> (g: Grab)
    ensures
        match event {
            InputEvent::Press(k) => if k == PressedKey::MetaLeft || k == PressedKey::MetaRight {
                *final(cmd_held) && g is PassThrough
            } else {
                *final(cmd_held) == *old(cmd_held) && if *old(cmd_held) {
                    g is PassThrough
                } else {
                    g matches Grab::Swallow(r) && translates_to(k, opt_view(name), r)
                }
            },
            InputEvent::Release(k) => if k == PressedKey::MetaLeft || k == PressedKey::MetaRight {
                !*final(cmd_held) && g is PassThrough
            } else {
                *final(cmd_held) == *old(cmd_held) && g is PassThrough
            },
            InputEvent::Other => *final(cmd_held) == *old(cmd_held) && g is PassThrough,
        },
        (event matches InputEvent::Press(k) && k != PressedKey::MetaLeft && k != PressedKey::MetaRight
            && k != PressedKey::Backspace && k != PressedKey::Return && k != PressedKey::Escape)
            && !*old(cmd_held) && (name matches Some(n) && n@.len() > 0) ==> (g matches Grab::Swallow(
            Some(KeyEvent::Char(t))) && t@ == name->0@),
{
    match event {
        InputEvent::Press(PressedKey::MetaLeft) | InputEvent::Press(PressedKey::MetaRight) => {
            *cmd_held = true;
            Grab::PassThrough
        },
        InputEvent::Release(PressedKey::MetaLeft) | InputEvent::Release(PressedKey::MetaRight) => {
            *cmd_held = false;
            Grab::PassThrough
        },
        InputEvent::Press(k) => {
            if *cmd_held {
                Grab::PassThrough
            } else {
                Grab::Swallow(translate(k, name))
            }
        },
        _ => Grab::PassThrough,
    }
}

} // verus!
