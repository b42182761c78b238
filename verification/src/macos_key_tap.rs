use vstd::prelude::*;

use crate::hangul::{char_from_u32, is_char_value};
use crate::key_event::KeyEvent;
use crate::listener::opt_view;
use crate::text::{is_control, is_control_char, push_char};

verus! {

/// Whether the macOS event tap only listens or also takes the keys it
/// reports away from the system.
#[derive(Debug, Clone, Copy, PartialEq, Eq, Structural)]
pub enum TapMode {
    Grab,
    Listen,
}

/// The virtual key code of Delete (Backspace) on macOS.
pub const KEYCODE_DELETE: u16 = 0x33;

/// The virtual key code of Return on macOS.
pub const KEYCODE_RETURN: u16 = 0x24;

/// The virtual key code of Escape on macOS.
pub const KEYCODE_ESCAPE: u16 = 0x35;

/// The Control modifier bit of a macOS event's flags.
pub const FLAG_CONTROL: u64 = 0x0004_0000;

/// The Option (Alternate) modifier bit of a macOS event's flags.
pub const FLAG_ALTERNATE: u64 = 0x0008_0000;

/// The Command modifier bit of a macOS event's flags.
pub const FLAG_COMMAND: u64 = 0x0010_0000;

/// The name of the thread that runs the tap in `mode`.
pub fn tap_thread_name(mode: TapMode) -> (name: &'static str)
    ensures
        name@ == match mode {
            TapMode::Grab => seq!['m', 'a', 'c', 'o', 's', '-', 'k', 'e', 'y', '-', 'g', 'r', 'a', 'b'],
            TapMode::Listen => seq![
                'm', 'a', 'c', 'o', 's', '-', 'k', 'e', 'y', '-', 'l', 'i', 's', 't', 'e', 'n',
            ],
        },
{
    proof {
        reveal_strlit("macos-key-grab");
        reveal_strlit("macos-key-listen");
    }
    match mode {
        TapMode::Grab => {
            assert("macos-key-grab"@ =~= seq![
                'm', 'a', 'c', 'o', 's', '-', 'k', 'e', 'y', '-', 'g', 'r', 'a', 'b'
            ]);
            "macos-key-grab"
        },
        TapMode::Listen => {
            assert("macos-key-listen"@ =~= seq![
                'm', 'a', 'c', 'o', 's', '-', 'k', 'e', 'y', '-', 'l', 'i', 's', 't', 'e', 'n'
            ]);
            "macos-key-listen"
        },
    }
}

/// The key event of a control key code: Delete, Return and Escape; `None`
/// for any other code.
pub fn special_keycode(code: u16) -> (r: Option<KeyEvent>)
    ensures
        code == KEYCODE_DELETE ==> r matches Some(KeyEvent::Backspace),
        code == KEYCODE_RETURN ==> r matches Some(KeyEvent::Enter),
        code == KEYCODE_ESCAPE ==> r matches Some(KeyEvent::Escape),
        code != KEYCODE_DELETE && code != KEYCODE_RETURN && code != KEYCODE_ESCAPE ==> r is None,
{
    if code == KEYCODE_DELETE {
        Some(KeyEvent::Backspace)
    } else if code == KEYCODE_RETURN {
        Some(KeyEvent::Enter)
    } else if code == KEYCODE_ESCAPE {
        Some(KeyEvent::Escape)
    } else {
        None
    }
}

/// Whether an event with these modifier flags is left to the system: when
/// Command, Control or Option is held.
pub fn should_pass_through(flags: u64) -> (r: bool)
    ensures
        r == (flags & (FLAG_COMMAND | FLAG_CONTROL | FLAG_ALTERNATE) != 0),
{
    flags & (FLAG_COMMAND | FLAG_CONTROL | FLAG_ALTERNATE) != 0
}

/// What to do with a keyboard event seen by the tap.
#[derive(Debug)]
pub enum KeyStep {
    /// Leave the event alone.
    Ignore,
    /// Report this key event.
    Send(KeyEvent),
    /// Report the text the key produced, read from the event.
    ReadText,
}

/// Decides about a keyboard event from whether it is a key-down, its
/// modifier flags and its key code field: anything but a key-down, a key
/// with Command, Control or Option held, or a code outside `u16` is left
/// alone; a control key is reported as its key event; any other key is
/// reported by the text it produced.
pub fn key_down_step(is_key_down: bool, flags: u64, keycode: i64) -> (s: KeyStep)
    ensures
        !is_key_down ==> s is Ignore,
        is_key_down && flags & (FLAG_COMMAND | FLAG_CONTROL | FLAG_ALTERNATE) != 0 ==> s is Ignore,
        is_key_down && flags & (FLAG_COMMAND | FLAG_CONTROL | FLAG_ALTERNATE) == 0 && !(0 <= keycode
            <= 0xffff) ==> s is Ignore,
        is_key_down && flags & (FLAG_COMMAND | FLAG_CONTROL | FLAG_ALTERNATE) == 0 && 0 <= keycode
            <= 0xffff ==> if keycode == KEYCODE_DELETE {
            s matches KeyStep::Send(KeyEvent::Backspace)
        } else if keycode == KEYCODE_RETURN {
            s matches KeyStep::Send(KeyEvent::Enter)
        } else if keycode == KEYCODE_ESCAPE {
            s matches KeyStep::Send(KeyEvent::Escape)
        } else {
            s is ReadText
        },
{
    if !is_key_down {
        return KeyStep::Ignore;
    }
    if should_pass_through(flags) {
        return KeyStep::Ignore;
    }
    if keycode < 0 || keycode > 0xffff {
        return KeyStep::Ignore;
    }
    let code = keycode as u16;
    match special_keycode(code) {
        Some(evt) => KeyStep::Send(evt),
        None => KeyStep::ReadText,
    }
}

/// Whether the tap takes a reported key away from the system: in `Grab`
/// mode, once the key event was sent on.
pub fn swallows(mode: TapMode, sent: bool) -> (r: bool)
    ensures
        r == (sent && mode == TapMode::Grab),
{
    sent && match mode {
        TapMode::Grab => true,
        TapMode::Listen => false,
    }
}

/// The characters that the UTF-16 code units `u` encode: a unit outside
/// 0xD800..=0xDFFF stands for itself, a high surrogate followed by a low
/// surrogate for the supplementary character they combine to; `None` when
/// a surrogate is unpaired.
pub open spec fn utf16_decode(u: Seq<u16>) -> Option<Seq<char>>
    decreases u.len(),
{
    if u.len() == 0 {
        Some(seq![])
    } else if u[0] < 0xD800 || u[0] > 0xDFFF {
        match utf16_decode(u.drop_first()) {
            Some(r) => Some(seq![u[0] as u32 as char] + r),
            None => None,
        }
    } else if u[0] <= 0xDBFF && u.len() >= 2 && 0xDC00 <= u[1] <= 0xDFFF {
        match utf16_decode(u.skip(2)) {
            Some(r) => Some(seq![surrogate_pair_value(u[0], u[1]) as u32 as char] + r),
            None => None,
        }
    } else {
        None
    }
}

/// The code point that a high and a low surrogate combine to.
pub open spec fn surrogate_pair_value(high: u16, low: u16) -> int {
    0x10000 + (high - 0xD800) * 0x400 + (low - 0xDC00)
}

/// Code units outside the surrogate range 0xD800..=0xDFFF decode one for
/// one to the characters of the same value.
pub proof fn law_plain_units_decode_one_for_one(u: Seq<u16>)
    requires
        forall|k: int| 0 <= k < u.len() ==> (#[trigger] u[k]) < 0xD800 || u[k] > 0xDFFF,
    ensures
        utf16_decode(u) matches Some(s) && s.len() == u.len() && forall|k: int|
            0 <= k < s.len() ==> (#[trigger] s[k]) as u32 == u[k] as u32,
    decreases u.len(),
{
    if u.len() > 0 {
        let t = u.drop_first();
        assert forall|k: int| 0 <= k < t.len() implies (#[trigger] t[k]) < 0xD800 || t[k] > 0xDFFF by {
            assert(t[k] == u[k + 1]);
        }
        law_plain_units_decode_one_for_one(t);
        let r = utf16_decode(t).unwrap();
        let c = u[0] as u32 as char;
        assert(is_char_value(u[0] as int));
        assert((c as u32) == u[0] as u32) by {
            assert(u[0] < 0xD800 || u[0] > 0xDFFF);
        }
        let s = seq![c] + r;
        assert(utf16_decode(u) == Some(s));
        assert forall|k: int| 0 <= k < s.len() implies (#[trigger] s[k]) as u32 == u[k] as u32 by {
            if k > 0 {
                assert(s[k] == r[k - 1]);
                assert(u[k] == t[k - 1]);
            }
        }
    }
}

/// A low surrogate that comes first, or a high surrogate that no low
/// surrogate follows, makes the units undecodable.
pub proof fn law_unpaired_surrogate_fails(u: Seq<u16>)
    requires
        u.len() > 0,
        (0xDC00 <= u[0] <= 0xDFFF) || (0xD800 <= u[0] <= 0xDBFF && (u.len() == 1 || !(0xDC00 <= u[1]
            <= 0xDFFF))),
    ensures
        utf16_decode(u) is None,
{
}

/// Decodes the first `len` UTF-16 code units of `units`.
pub fn decode_utf16(units: &[u16], len: usize) -> (r: Option<String>)
    requires
        len <= units@.len(),
    ensures
        opt_view(r) == utf16_decode(units@.take(len as int)),
{
    let ghost all = units@.take(len as int);
    let mut out = String::new();
    let mut i: usize = 0;
    assert(all.skip(0) =~= all);
    assert(Seq::<char>::empty() + Seq::<char>::empty() =~= Seq::<char>::empty());
    while i < len
        invariant
            len <= units@.len(),
            all == units@.take(len as int),
            i <= len,
            utf16_decode(all) == match utf16_decode(all.skip(i as int)) {
                Some(rest) => Some(out@ + rest),
                None => None,
            },
        decreases len - i,
    {
        let ghost rest = all.skip(i as int);
        let u0 = units[i];
        assert(rest[0] == u0);
        if u0 < 0xD800 || u0 > 0xDFFF {
            match char_from_u32(u0 as u32) {
                Some(c) => {
                    proof {
                        vstd::utf8::char_u32_cast(c, u0 as u32);
                    }
                    let ghost before = out@;
                    push_char(&mut out, c);
                    assert(rest.drop_first() =~= all.skip(i + 1));
                    proof {
                        if let Some(tail) = utf16_decode(all.skip(i + 1)) {
                            assert(out@ + tail =~= before + (seq![c] + tail));
                        }
                    }
                },
                None => {
                    return None;
                },
            }
            i = i + 1;
        } else if u0 <= 0xDBFF && i + 1 < len && 0xDC00 <= units[i + 1] && units[i + 1] <= 0xDFFF {
            let u1 = units[i + 1];
            assert(rest[1] == u1);
            let v: u32 = 0x10000 + (u0 as u32 - 0xD800) * 0x400 + (u1 as u32 - 0xDC00);
            assert(v as int == surrogate_pair_value(u0, u1));
            match char_from_u32(v) {
                Some(c) => {
                    proof {
                        vstd::utf8::char_u32_cast(c, v);
                    }
                    let ghost before = out@;
                    push_char(&mut out, c);
                    assert(rest.skip(2) =~= all.skip(i + 2));
                    proof {
                        if let Some(tail) = utf16_decode(all.skip(i + 2)) {
                            assert(out@ + tail =~= before + (seq![c] + tail));
                        }
                    }
                },
                None => {
                    return None;
                },
            }
            i = i + 2;
        } else {
            return None;
        }
    }
    assert(all.skip(len as int) =~= Seq::<u16>::empty());
    assert(out@ + Seq::<char>::empty() =~= out@);
    Some(out)
}

/// Whether every character of `s` is a control character.
pub open spec fn all_control(s: Seq<char>) -> bool {
    forall|k: int| 0 <= k < s.len() ==> is_control(#[trigger] s[k])
}

/// The text a key produced, from the UTF-16 buffer filled for the event and
/// the number of units reported: none when the count is 0 or exceeds the
/// buffer, when the units do not decode, or when they decode to control
/// characters only.
pub open spec fn key_text(units: Seq<u16>, actual: int) -> Option<Seq<char>> {
    if actual == 0 || actual > units.len() {
        None
    } else {
        match utf16_decode(units.take(actual)) {
            Some(s) => if all_control(s) {
                None
            } else {
                Some(s)
            },
            None => None,
        }
    }
}

/// Reads the text a key produced from the UTF-16 buffer filled for the
/// event and the number of units reported (see `key_text`).
pub fn unicode_string_from_units(units: &[u16], actual: usize) -> (r: Option<String>)
    ensures
        opt_view(r) == key_text(units@, actual as int),
{
    if actual == 0 || actual > units.len() {
        return None;
    }
    let decoded = decode_utf16(units, actual);
    let s = match decoded {
        Some(s) => s,
        None => return None,
    };
    assert(utf16_decode(units@.take(actual as int)) == Some(s@));
    let n = s.as_str().unicode_len();
    let mut k: usize = 0;
    while k < n
        invariant
            n == s@.len(),
            k <= n,
            0 < actual <= units@.len(),
            utf16_decode(units@.take(actual as int)) == Some(s@),
            forall|j: int| 0 <= j < k ==> is_control(#[trigger] s@[j]),
        decreases n - k,
    {
        if !is_control_char(s.as_str().get_char(k)) {
            assert(!is_control(s@[k as int]));
            assert(!all_control(s@));
            return Some(s);
        }
        k = k + 1;
    }
    assert(all_control(s@));
    None
}

} // verus!
