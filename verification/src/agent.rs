use vstd::prelude::*;
use vstd::utf8::is_ascii_chars;

use crate::key_event::KeyEvent;
use crate::text::{
    char_debug_text, debug_char, hex_digit, hex_upper, hex_upper_padded, is_ascii_punctuation, is_ascii_punctuation_char,
    is_whitespace, is_whitespace_char, push_char, push_hex_padded, push_str, str_eq,
};
use crate::token::{
    canonical_jamo, canonical_key, first_match, law_convert_is_longest_match,
    lemma_canonical_keys_distinct, lemma_first_match_spelling, Token,
};

verus! {

/// The identifier of a window of the overlay.
#[verifier::external_type_specification]
#[verifier::external_body]
pub struct ExWindowId(iced::window::Id);

/// Trusted: the derived `Clone` of iced's window `Id` (a `Copy` type) gives
/// back an equal identifier.
pub assume_specification[ <iced::window::Id as Clone>::clone ](id: &iced::window::Id) -> (r: iced::window::Id)
    ensures
        r == *id,
;

/// How the synthesizer turns the typed text into what it shows.
#[derive(Debug, Clone, Copy, PartialEq, Eq, Structural)]
pub enum InputLogic {
    /// Romaja is converted to jamo.
    Converting,
    /// The typed text is shown as it is.
    Synthesizing,
}

/// The jamo that `s` converts to: at each position the canonical entry
/// whose spelling begins the rest (the longest, see
/// `law_convert_is_longest_match`) gives its jamo and its spelling is
/// consumed; a character that begins no spelling is dropped.
pub open spec fn romaja_to_jamo(s: Seq<char>) -> Seq<char>
    decreases s.len(),
{
    if s.len() == 0 {
        seq![]
    } else {
        match first_match(s) {
            Some(i) => {
                proof {
                    lemma_first_match_spelling(s);
                }
                seq![canonical_jamo(i)] + romaja_to_jamo(s.skip(canonical_key(i).len() as int))
            },
            None => romaja_to_jamo(s.drop_first()),
        }
    }
}

/// Whether `c` is the jamo of some canonical entry.
pub open spec fn is_table_jamo(c: char) -> bool {
    exists|i: int| 0 <= i < 39 && canonical_jamo(i) == c
}

/// The conversion never yields more characters than it reads, and every
/// character it yields is the jamo of some canonical entry.
pub proof fn law_conversion_is_shorter_and_all_jamo(s: Seq<char>)
    ensures
        romaja_to_jamo(s).len() <= s.len(),
        forall|k: int| 0 <= k < romaja_to_jamo(s).len() ==> is_table_jamo(#[trigger] romaja_to_jamo(s)[k]),
    decreases s.len(),
{
    if s.len() > 0 {
        lemma_first_match_spelling(s);
        match first_match(s) {
            Some(i) => {
                let rest = s.skip(canonical_key(i).len() as int);
                law_conversion_is_shorter_and_all_jamo(rest);
                let out = romaja_to_jamo(s);
                assert(out == seq![canonical_jamo(i)] + romaja_to_jamo(rest));
                assert forall|k: int| 0 <= k < out.len() implies is_table_jamo(#[trigger] out[k]) by {
                    if k > 0 {
                        assert(out[k] == romaja_to_jamo(rest)[k - 1]);
                    } else {
                        assert(out[k] == canonical_jamo(i));
                    }
                }
            },
            None => {
                law_conversion_is_shorter_and_all_jamo(s.drop_first());
                assert(romaja_to_jamo(s) == romaja_to_jamo(s.drop_first()));
            },
        }
    }
}

/// A canonical spelling on its own converts to exactly its jamo.
pub proof fn law_canonical_spelling_converts_to_its_jamo(i: int)
    requires
        0 <= i < 39,
    ensures
        romaja_to_jamo(canonical_key(i)) == seq![canonical_jamo(i)],
{
    crate::token::law_canonical_spelling_matches_itself(i);
    lemma_first_match_spelling(canonical_key(i));
    let k = canonical_key(i);
    assert(k.skip(k.len() as int) =~= Seq::<char>::empty());
    assert(romaja_to_jamo(Seq::<char>::empty()) == Seq::<char>::empty());
    assert(seq![canonical_jamo(i)] + Seq::<char>::empty() =~= seq![canonical_jamo(i)]);
}

/// A character that begins no canonical spelling is dropped on its own and
/// the conversion resumes right after it: converting the text is converting
/// the text without that character.
pub proof fn law_unmatched_character_is_dropped_alone(s: Seq<char>)
    requires
        s.len() > 0,
        forall|j: int| 0 <= j < 39 ==> !(#[trigger] canonical_key(j)).is_prefix_of(s),
    ensures
        romaja_to_jamo(s) == romaja_to_jamo(s.drop_first()),
{
    law_convert_is_longest_match(s);
    if let Some(i) = first_match(s) {
        assert(!canonical_key(i).is_prefix_of(s));
    }
}

/// Where canonical spellings begin the text, the longest of them gives its
/// jamo first and the conversion goes on right after that spelling.
pub proof fn law_longest_spelling_gives_its_jamo(s: Seq<char>, j: int)
    requires
        0 <= j < 39,
        canonical_key(j).is_prefix_of(s),
        forall|k: int|
            0 <= k < 39 && (#[trigger] canonical_key(k)).is_prefix_of(s) ==> canonical_key(k).len()
                <= canonical_key(j).len(),
    ensures
        romaja_to_jamo(s) == seq![canonical_jamo(j)] + romaja_to_jamo(
            s.skip(canonical_key(j).len() as int),
        ),
{
    law_convert_is_longest_match(s);
    lemma_first_match_spelling(s);
    match first_match(s) {
        Some(i) => {
            assert(canonical_key(i).len() <= canonical_key(j).len());
            assert(canonical_key(j).len() <= canonical_key(i).len());
            if i != j {
                lemma_canonical_keys_distinct(i, j);
                assert(canonical_key(i) =~= canonical_key(j)) by {
                    assert(canonical_key(i) =~= s.subrange(0, canonical_key(i).len() as int));
                    assert(canonical_key(j) =~= s.subrange(0, canonical_key(j).len() as int));
                }
            }
        },
        None => {
            assert(!canonical_key(j).is_prefix_of(s));
        },
    }
}

/// Converts romaja to jamo. The input must be ASCII: romaja is, and the
/// conversion steps through the input one byte at a time where nothing
/// matches.
pub fn convert(input: &str) -> (output: String)
    requires
        is_ascii_chars(input@),
    ensures
        output@ == romaja_to_jamo(input@),
{
    let mut output = String::new();
    let n = input.unicode_len();
    let mut i: usize = 0;
    assert(input@.skip(0) =~= input@);
    assert(output@ + romaja_to_jamo(input@) =~= romaja_to_jamo(input@));
    while i < n
        invariant
            n == input@.len(),
            i <= n,
            output@ + romaja_to_jamo(input@.skip(i as int)) == romaja_to_jamo(input@),
        decreases n - i,
    {
        let rest = input.substring_char(i, n);
        assert(rest@ =~= input@.skip(i as int));
        proof {
            lemma_first_match_spelling(rest@);
        }
        match Token::convert(rest) {
            Some((canonical, jamo)) => {
                let len = canonical.unicode_len();
                let ghost before = output@;
                push_char(&mut output, jamo);
                assert(rest@.skip(len as int) =~= input@.skip(i + len));
                assert(output@ + romaja_to_jamo(input@.skip(i + len)) =~= before + romaja_to_jamo(
                    rest@,
                ));
                i = i + len;
            },
            None => {
                assert(rest@.drop_first() =~= input@.skip(i + 1));
                i = i + 1;
            },
        }
    }
    assert(input@.skip(n as int) =~= Seq::<char>::empty());
    assert(output@ + Seq::<char>::empty() =~= output@);
    output
}

/// A message of the input window.
#[derive(Debug, Clone)]
pub enum Message {
    /// A key was pressed.
    Key(KeyEvent),
    /// The window was clicked.
    Clicked,
    /// A window was opened.
    WindowOpened(iced::window::Id),
}

/// What the front end is to do after an update of the input agent.
#[derive(Debug)]
pub enum Effect {
    /// Nothing.
    Idle,
    /// Resize the window to the text.
    Resize,
    /// Hand on the committed text, then resize the window to the (now empty)
    /// text.
    Commit(String),
}

/// The syllable that a click on the input window appends.
pub const CLICK_SYLLABLE: char = '장';

/// The text typed so far, and the window that shows it.
pub struct InputAgent {
    text: String,
    window_id: Option<iced::window::Id>,
}

impl View for InputAgent {
    type V = Seq<char>;

    closed spec fn view(&self) -> Seq<char> {
        self.text@
    }
}

impl Default for InputAgent {
    fn default() -> (a: Self)
        ensures
            a@ == Seq::<char>::empty(),
            a.window() is None,
    {
        InputAgent { text: String::new(), window_id: None }
    }
}

impl InputAgent {
    /// The window the agent shows its text in, if one was set.
    pub closed spec fn window(&self) -> Option<iced::window::Id> {
        self.window_id
    }

    /// Sets the window that shows the text.
    pub fn set_window(&mut self, id: iced::window::Id)
        ensures
            final(self).window() == Some(id),
            final(self)@ == old(self)@,
    {
        self.window_id = Some(id);
    }

    /// The window the agent shows its text in, if one was set.
    pub fn window_id(&self) -> (r: Option<iced::window::Id>)
        ensures
            r == self.window(),
    {
        self.window_id
    }

    /// The text typed so far.
    pub fn text(&self) -> (r: &str)
        ensures
            r@ == self@,
    {
        self.text.as_str()
    }

    /// Applies a message to the text. Typed text is appended; Backspace
    /// removes the last character, if any; Enter commits the text and clears
    /// it; Escape clears it; a click appends `CLICK_SYLLABLE`. Every message
    /// but a window opening asks for a resize.
    pub fn update(&mut self, message: Message) -> (effect: Effect)
        ensures
            final(self).window() == old(self).window(),
            match message {
                Message::Key(KeyEvent::Char(s)) => final(self)@ == old(self)@ + s@ && effect is Resize,
                Message::Key(KeyEvent::Backspace) => final(self)@ == (if old(self)@.len() > 0 {
                    old(self)@.drop_last()
                } else {
                    old(self)@
                }) && effect is Resize,
                Message::Key(KeyEvent::Enter) => final(self)@ == Seq::<char>::empty()
                    && (effect matches Effect::Commit(c) && c@ == old(self)@),
                Message::Key(KeyEvent::Escape) => final(self)@ == Seq::<char>::empty()
                    && effect is Resize,
                Message::Clicked => final(self)@ == old(self)@.push(CLICK_SYLLABLE)
                    && effect is Resize,
                Message::WindowOpened(_) => final(self)@ == old(self)@ && effect is Idle,
            },
    {
        match message {
            Message::Key(KeyEvent::Char(s)) => push_str(&mut self.text, s.as_str()),
            Message::Key(KeyEvent::Backspace) => {
                let n = self.text.as_str().unicode_len();
                if n > 0 {
                    let kept = self.text.as_str().substring_char(0, n - 1).to_owned();
                    self.text = kept;
                }
            },
            Message::Key(KeyEvent::Enter) => {
                let committed = self.text.clone();
                self.text = String::new();
                return Effect::Commit(committed);
            },
            Message::Key(KeyEvent::Escape) => self.text = String::new(),
            Message::Clicked => push_char(&mut self.text, CLICK_SYLLABLE),
            Message::WindowOpened(_) => return Effect::Idle,
        }
        Effect::Resize
    }

    /// The number of characters the window is sized for: the length of the
    /// text, and at least one.
    pub fn measured_chars(&self) -> (n: usize)
        ensures
            n == if self@.len() == 0 {
                1
            } else {
                self@.len()
            },
    {
        let n = self.text.as_str().unicode_len();
        if n == 0 {
            1
        } else {
            n
        }
    }
}

/// The converted text shown above the input window.
pub struct SynthesizerAgent {
    text: String,
    display: bool,
    mode: InputLogic,
    window_id: Option<iced::window::Id>,
}

impl View for SynthesizerAgent {
    type V = Seq<char>;

    closed spec fn view(&self) -> Seq<char> {
        self.text@
    }
}

impl Default for SynthesizerAgent {
    fn default() -> (a: Self)
        ensures
            a@ == Seq::<char>::empty(),
            a.mode() == InputLogic::Converting,
            a.window() is None,
    {
        SynthesizerAgent {
            text: String::new(),
            display: false,
            mode: InputLogic::Converting,
            window_id: None,
        }
    }
}

impl SynthesizerAgent {
    /// The window the agent shows its text in, if one was set.
    pub closed spec fn window(&self) -> Option<iced::window::Id> {
        self.window_id
    }

    /// How the agent turns the typed text into its own.
    pub closed spec fn mode(&self) -> InputLogic {
        self.mode
    }

    /// Sets the window that shows the text.
    pub fn set_window(&mut self, id: iced::window::Id)
        ensures
            final(self).window() == Some(id),
            final(self)@ == old(self)@,
            final(self).mode() == old(self).mode(),
    {
        self.window_id = Some(id);
    }

    /// The window the agent shows its text in, if one was set.
    pub fn window_id(&self) -> (r: Option<iced::window::Id>)
        ensures
            r == self.window(),
    {
        self.window_id
    }

    /// How the agent turns the typed text into its own.
    pub fn logic(&self) -> (r: InputLogic)
        ensures
            r == self.mode(),
    {
        self.mode
    }

    /// The text shown.
    pub fn text(&self) -> (r: &str)
        ensures
            r@ == self@,
    {
        self.text.as_str()
    }

    /// Replaces the shown text by the typed text `input`, converted to jamo
    /// in `Converting` mode and as it is in `Synthesizing` mode. Conversion
    /// needs ASCII input (see `convert`).
    pub fn update(&mut self, input: &str)
        requires
            old(self).mode() == InputLogic::Converting ==> is_ascii_chars(input@),
        ensures
            final(self)@ == match old(self).mode() {
                InputLogic::Converting => romaja_to_jamo(input@),
                InputLogic::Synthesizing => input@,
            },
            final(self).mode() == old(self).mode(),
            final(self).window() == old(self).window(),
    {
        self.text = match self.mode {
            InputLogic::Converting => convert(input),
            InputLogic::Synthesizing => input.to_owned(),
        };
    }

    /// The number of characters the window is sized for: the length of the
    /// text, and at least one.
    pub fn measured_chars(&self) -> (n: usize)
        ensures
            n == if self@.len() == 0 {
                1
            } else {
                self@.len()
            },
    {
        let n = self.text.as_str().unicode_len();
        if n == 0 {
            1
        } else {
            n
        }
    }
}

/// The alternatives offered for an ambiguous romanisation: "oi" offers "oe",
/// "wae" offers itself; anything else offers none.
pub open spec fn choices_for(text: Seq<char>) -> Seq<Seq<char>> {
    if text == seq!['o', 'i'] {
        seq![seq!['o', 'e']]
    } else if text == seq!['w', 'a', 'e'] {
        seq![seq!['w', 'a', 'e']]
    } else {
        seq![]
    }
}

/// The views of a list of strings.
pub open spec fn strings_view(v: Seq<String>) -> Seq<Seq<char>> {
    v.map_values(|s: String| s@)
}

/// A multiple-choice romanisation: a text and the alternatives for it.
pub struct CharChoice {
    text: String,
    choices: Vec<String>,
}

impl View for CharChoice {
    type V = (Seq<char>, Seq<Seq<char>>);

    closed spec fn view(&self) -> (Seq<char>, Seq<Seq<char>>) {
        (self.text@, strings_view(self.choices@))
    }
}

impl Default for CharChoice {
    fn default() -> (c: Self)
        ensures
            c@ == (Seq::<char>::empty(), Seq::<Seq<char>>::empty()),
    {
        let c = CharChoice { text: String::new(), choices: Vec::new() };
        assert(strings_view(c.choices@) =~= Seq::<Seq<char>>::empty());
        c
    }
}

impl CharChoice {
    /// Takes `input` as the text and offers its alternatives.
    pub fn new(&mut self, input: &str)
        ensures
            final(self)@ == (input@, choices_for(input@)),
    {
        self.text = input.to_owned();
        self.tokenize();
    }

    /// The alternatives offered for the text.
    pub fn choices(&self) -> (r: &[String])
        ensures
            strings_view(r@) == self@.1,
    {
        self.choices.as_slice()
    }

    fn tokenize(&mut self)
        ensures
            final(self)@ == (old(self)@.0, choices_for(old(self)@.0)),
    {
        self.choices.clear();
        proof {
            reveal_strlit("oi");
            reveal_strlit("wae");
            reveal_strlit("oe");
        }
        assert("oi"@ =~= seq!['o', 'i']);
        assert("wae"@ =~= seq!['w', 'a', 'e']);
        assert("oe"@ =~= seq!['o', 'e']);
        if str_eq(self.text.as_str(), "oi") {
            self.choices.push("oe".to_owned());
        } else if str_eq(self.text.as_str(), "wae") {
            self.choices.push("wae".to_owned());
        }
        assert(strings_view(self.choices@) =~= choices_for(self.text@));
    }
}

/// Whether the two characters form one of the digraphs "ch", "eo", "ng", "gg".
pub open spec fn is_digraph(a: char, b: char) -> bool {
    ||| a == 'c' && b == 'h'
    ||| a == 'e' && b == 'o'
    ||| a == 'n' && b == 'g'
    ||| a == 'g' && b == 'g'
}

/// The token of a single character that other scanned text yields, given
/// the `Debug` text of that character (used for characters of no other
/// class).
pub open spec fn single_token(c: char, debug: Seq<char>) -> Seq<char> {
    if c == 'a' || c == 'e' || c == 'i' || c == 'o' || c == 'u' {
        seq!['v', 'o', 'w', 'e', 'l', '('] + seq![c] + seq![')']
    } else if '0' <= c <= '9' {
        seq!['d', 'i', 'g', 'i', 't', '(', 'v', 'a', 'l', 'u', 'e', '='] + seq![c] + seq![')']
    } else if ('A' <= c <= 'Z') || ('a' <= c <= 'z') {
        seq!['a', 'l', 'p', 'h', 'a', '('] + seq![c] + seq![',', ' ', 'c', 'o', 'd', 'e', '=', '0', 'x']
            + hex_upper_padded(c as u32 as nat, 2) + seq![')']
    } else if is_whitespace(c) {
        seq!['s', 'p', 'a', 'c', 'e']
    } else if is_ascii_punctuation(c) {
        seq!['p', 'u', 'n', 'c', 't', '('] + seq![c] + seq![')']
    } else {
        seq!['o', 't', 'h', 'e', 'r', '('] + debug + seq![',', ' ', 'U', '+'] + hex_upper_padded(
            c as u32 as nat,
            4,
        ) + seq![')']
    }
}

/// The tokens that scanning `s` yields: each digraph becomes "[xy]", each
/// other character its `single_token`.
pub open spec fn scan_tokens(s: Seq<char>) -> Seq<Seq<char>>
    decreases s.len(),
{
    if s.len() == 0 {
        seq![]
    } else if s.len() >= 2 && is_digraph(s[0], s[1]) {
        seq![seq!['[', s[0], s[1], ']']] + scan_tokens(s.skip(2))
    } else {
        seq![single_token(s[0], char_debug_text(s[0]))] + scan_tokens(s.drop_first())
    }
}

/// The number of digraphs that scanning `s` finds.
pub open spec fn scan_digraphs(s: Seq<char>) -> nat
    decreases s.len(),
{
    if s.len() == 0 {
        0
    } else if s.len() >= 2 && is_digraph(s[0], s[1]) {
        1 + scan_digraphs(s.skip(2))
    } else {
        scan_digraphs(s.drop_first())
    }
}

/// Every character scanned is either one of a digraph or a token of its own:
/// the tokens plus the digraphs number the characters.
pub proof fn law_scan_counts_every_character(s: Seq<char>)
    ensures
        scan_tokens(s).len() + scan_digraphs(s) == s.len(),
    decreases s.len(),
{
    if s.len() >= 2 && is_digraph(s[0], s[1]) {
        law_scan_counts_every_character(s.skip(2));
    } else if s.len() > 0 {
        law_scan_counts_every_character(s.drop_first());
    }
}

/// The upper-case hexadecimal digits, in order.
pub open spec fn upper_hex_digits() -> Seq<char> {
    seq!['0', '1', '2', '3', '4', '5', '6', '7', '8', '9', 'A', 'B', 'C', 'D', 'E', 'F']
}

proof fn lemma_two_hex_digits(v: nat)
    requires
        16 <= v < 256,
    ensures
        hex_upper_padded(v, 2) == seq![upper_hex_digits()[(v / 16) as int], upper_hex_digits()[(v % 16) as int]],
{
    assert forall|d: int| 0 <= d < 16 implies #[trigger] hex_digit(d) == upper_hex_digits()[d] by {}
    assert(hex_upper(v / 16) == seq![hex_digit((v / 16) as int)]);
    assert(hex_upper(v) == hex_upper(v / 16).push(hex_digit((v % 16) as int)));
    assert(hex_upper(v) =~= seq![upper_hex_digits()[(v / 16) as int], upper_hex_digits()[(v % 16) as int]]);
}

/// A scan starting with "ch", "eo", "ng" or "gg" yields that digraph in
/// brackets and goes on after both characters.
pub proof fn law_scan_digraph_token(s: Seq<char>)
    requires
        s.len() >= 2,
        (s[0] == 'c' && s[1] == 'h') || (s[0] == 'e' && s[1] == 'o') || (s[0] == 'n' && s[1] == 'g')
            || (s[0] == 'g' && s[1] == 'g'),
    ensures
        scan_tokens(s).len() >= 1,
        scan_tokens(s)[0] == seq!['[', s[0], s[1], ']'],
        scan_tokens(s).drop_first() == scan_tokens(s.skip(2)),
        scan_digraphs(s) == 1 + scan_digraphs(s.skip(2)),
{
    assert(scan_tokens(s) == seq![seq!['[', s[0], s[1], ']']] + scan_tokens(s.skip(2)));
    assert((seq![seq!['[', s[0], s[1], ']']] + scan_tokens(s.skip(2))).drop_first() =~= scan_tokens(
        s.skip(2),
    ));
}

/// A scan starting with a character that does not begin a digraph yields a
/// token for that character alone and goes on right after it: a lower-case
/// vowel a, e, i, o, u gives "vowel(c)"; a digit gives "digit(value=c)";
/// any other ASCII letter gives "alpha(c, code=0xHH)" with its code in two
/// upper-case hexadecimal digits; ASCII white space gives "space"; ASCII
/// punctuation gives "punct(c)".
pub proof fn law_scan_classifies_single_character(s: Seq<char>)
    requires
        s.len() > 0,
        !(s.len() >= 2 && ((s[0] == 'c' && s[1] == 'h') || (s[0] == 'e' && s[1] == 'o') || (s[0]
            == 'n' && s[1] == 'g') || (s[0] == 'g' && s[1] == 'g'))),
    ensures
        scan_tokens(s).len() >= 1,
        scan_tokens(s).drop_first() == scan_tokens(s.drop_first()),
        scan_digraphs(s) == scan_digraphs(s.drop_first()),
        s[0] == 'a' || s[0] == 'e' || s[0] == 'i' || s[0] == 'o' || s[0] == 'u' ==> scan_tokens(s)[0]
            == seq!['v', 'o', 'w', 'e', 'l', '(', s[0], ')'],
        '0' <= s[0] <= '9' ==> scan_tokens(s)[0] == seq![
            'd',
            'i',
            'g',
            'i',
            't',
            '(',
            'v',
            'a',
            'l',
            'u',
            'e',
            '=',
            s[0],
            ')',
        ],
        (('A' <= s[0] <= 'Z') || ('a' <= s[0] <= 'z')) && !(s[0] == 'a' || s[0] == 'e' || s[0] == 'i'
            || s[0] == 'o' || s[0] == 'u') ==> scan_tokens(s)[0] == seq![
            'a',
            'l',
            'p',
            'h',
            'a',
            '(',
            s[0],
            ',',
            ' ',
            'c',
            'o',
            'd',
            'e',
            '=',
            '0',
            'x',
            upper_hex_digits()[(s[0] as u32 / 16) as int],
            upper_hex_digits()[(s[0] as u32 % 16) as int],
            ')',
        ],
        s[0] == ' ' || ('\t' <= s[0] <= '\r') ==> scan_tokens(s)[0] == seq!['s', 'p', 'a', 'c', 'e'],
        ('!' <= s[0] <= '/') || (':' <= s[0] <= '@') || ('[' <= s[0] <= '`') || ('{' <= s[0] <= '~')
            ==> scan_tokens(s)[0] == seq!['p', 'u', 'n', 'c', 't', '(', s[0], ')'],
{
    let c = s[0];
    let tok = single_token(c, char_debug_text(c));
    assert(scan_tokens(s) == seq![tok] + scan_tokens(s.drop_first()));
    assert((seq![tok] + scan_tokens(s.drop_first())).drop_first() =~= scan_tokens(s.drop_first()));
    if (('A' <= c <= 'Z') || ('a' <= c <= 'z')) && !(c == 'a' || c == 'e' || c == 'i' || c == 'o'
        || c == 'u') {
        lemma_two_hex_digits(c as u32 as nat);
        assert(tok =~= seq![
            'a',
            'l',
            'p',
            'h',
            'a',
            '(',
            c,
            ',',
            ' ',
            'c',
            'o',
            'd',
            'e',
            '=',
            '0',
            'x',
            upper_hex_digits()[(c as u32 / 16) as int],
            upper_hex_digits()[(c as u32 % 16) as int],
            ')',
        ]);
    }
    if c == 'a' || c == 'e' || c == 'i' || c == 'o' || c == 'u' {
        assert(tok =~= seq!['v', 'o', 'w', 'e', 'l', '(', c, ')']);
    }
    if '0' <= c <= '9' {
        assert(tok =~= seq!['d', 'i', 'g', 'i', 't', '(', 'v', 'a', 'l', 'u', 'e', '=', c, ')']);
    }
    if ('!' <= c <= '/') || (':' <= c <= '@') || ('[' <= c <= '`') || ('{' <= c <= '~') {
        assert(tok =~= seq!['p', 'u', 'n', 'c', 't', '(', c, ')']);
    }
}

proof fn lemma_four_hex_digits(v: nat)
    requires
        v < 0x10000,
        v < 256 || v >= 0x1000,
    ensures
        hex_upper_padded(v, 4) == seq![
            upper_hex_digits()[(v / 4096) as int],
            upper_hex_digits()[((v / 256) % 16) as int],
            upper_hex_digits()[((v / 16) % 16) as int],
            upper_hex_digits()[(v % 16) as int],
        ],
{
    assert forall|d: int| 0 <= d < 16 implies #[trigger] hex_digit(d) == upper_hex_digits()[d] by {}
    let h = upper_hex_digits();
    if v < 16 {
        assert(hex_upper(v) == seq![hex_digit(v as int)]);
        assert(hex_upper_padded(v, 4) =~= seq![h[0], h[0], h[0], h[(v % 16) as int]]);
    } else if v < 256 {
        assert(hex_upper(v / 16) == seq![hex_digit((v / 16) as int)]);
        assert(hex_upper(v) == hex_upper(v / 16).push(hex_digit((v % 16) as int)));
        assert(hex_upper_padded(v, 4) =~= seq![h[0], h[0], h[(v / 16) as int], h[(v % 16) as int]]);
        assert(v / 4096 == 0 && (v / 256) % 16 == 0 && (v / 16) % 16 == v / 16);
    } else {
        let a = v / 16;
        let b = a / 16;
        let c = b / 16;
        assert(b == v / 256 && c == v / 4096 && 1 <= c < 16 && 16 <= b < 256 && 256 <= a < 4096);
        assert(hex_upper(c) == seq![hex_digit(c as int)]);
        assert(hex_upper(b) == hex_upper(c).push(hex_digit((b % 16) as int)));
        assert(hex_upper(a) == hex_upper(b).push(hex_digit((a % 16) as int)));
        assert(hex_upper(v) == hex_upper(a).push(hex_digit((v % 16) as int)));
        assert(hex_upper(v) =~= seq![h[c as int], h[(b % 16) as int], h[(a % 16) as int], h[(v % 16) as int]]);
    }
}

/// Whether `c` is one of the non-ASCII white space characters
/// U+0085, U+00A0, U+1680, U+2000 to U+200A, U+2028, U+2029, U+202F,
/// U+205F and U+3000.
pub open spec fn is_unicode_space(c: char) -> bool {
    c == '\u{85}' || c == '\u{a0}' || c == '\u{1680}' || ('\u{2000}' <= c <= '\u{200a}') || c
        == '\u{2028}' || c == '\u{2029}' || c == '\u{202f}' || c == '\u{205f}' || c == '\u{3000}'
}

/// The characters of no ASCII class: a non-ASCII white space character
/// gives "space"; any other character that is neither an ASCII letter,
/// digit, white space nor punctuation gives "other(<debug>, U+<code>)" with
/// its `Debug` text and its code in upper-case hexadecimal, four digits for
/// the basic plane; and the scan goes on right after it.
pub proof fn law_scan_other_characters(s: Seq<char>)
    requires
        s.len() > 0,
        !('\t' <= s[0] <= '\r') && !(' ' <= s[0] <= '~'),
    ensures
        scan_tokens(s).len() >= 1,
        scan_tokens(s).drop_first() == scan_tokens(s.drop_first()),
        is_unicode_space(s[0]) ==> scan_tokens(s)[0] == seq!['s', 'p', 'a', 'c', 'e'],
        !is_unicode_space(s[0]) ==> exists|code: Seq<char>|
            scan_tokens(s)[0] == seq!['o', 't', 'h', 'e', 'r', '('] + char_debug_text(s[0]) + seq![
                ',',
                ' ',
                'U',
                '+',
            ] + code + seq![')'] && code.len() >= 4,
        !is_unicode_space(s[0]) && (s[0] as u32) < 0x10000 && ((s[0] as u32) < 256 || (s[0] as u32)
            >= 0x1000) ==> scan_tokens(s)[0] == seq!['o', 't', 'h', 'e', 'r', '('] + char_debug_text(
            s[0],
        ) + seq![
            ',',
            ' ',
            'U',
            '+',
            upper_hex_digits()[(s[0] as u32 / 4096) as int],
            upper_hex_digits()[((s[0] as u32 / 256) % 16) as int],
            upper_hex_digits()[((s[0] as u32 / 16) % 16) as int],
            upper_hex_digits()[(s[0] as u32 % 16) as int],
            ')',
        ],
{
    let c = s[0];
    let tok = single_token(c, char_debug_text(c));
    assert(scan_tokens(s) == seq![tok] + scan_tokens(s.drop_first()));
    assert((seq![tok] + scan_tokens(s.drop_first())).drop_first() =~= scan_tokens(s.drop_first()));
    if !is_unicode_space(c) {
        let code = hex_upper_padded(c as u32 as nat, 4);
        let digits = hex_upper(c as u32 as nat);
        assert(code.len() >= 4);
        assert(tok == seq!['o', 't', 'h', 'e', 'r', '('] + char_debug_text(c) + seq![',', ' ', 'U', '+']
            + code + seq![')']);
        if (c as u32) < 0x10000 && ((c as u32) < 256 || (c as u32) >= 0x1000) {
            lemma_four_hex_digits(c as u32 as nat);
            assert(tok =~= seq!['o', 't', 'h', 'e', 'r', '('] + char_debug_text(c) + seq![
                ',',
                ' ',
                'U',
                '+',
                upper_hex_digits()[(c as u32 / 4096) as int],
                upper_hex_digits()[((c as u32 / 256) % 16) as int],
                upper_hex_digits()[((c as u32 / 16) % 16) as int],
                upper_hex_digits()[(c as u32 % 16) as int],
                ')',
            ]);
        }
    }
}

/// Builds the token of a character of no other class from its `Debug`
/// text: "other(<debug>, U+<code>)", the code in upper-case hexadecimal of
/// at least four digits.
pub fn other_token(c: char, debug: &str) -> (t: String)
    ensures
        t@ == seq!['o', 't', 'h', 'e', 'r', '('] + debug@ + seq![',', ' ', 'U', '+']
            + hex_upper_padded(c as u32 as nat, 4) + seq![')'],
{
    let mut t = String::new();
    proof {
        reveal_strlit("other(");
        reveal_strlit(", U+");
    }
    push_str(&mut t, "other(");
    push_str(&mut t, debug);
    push_str(&mut t, ", U+");
    push_hex_padded(&mut t, c as u32, 4);
    push_char(&mut t, ')');
    t
}

/// The token of a single character.
fn single_token_of(c: char) -> (t: String)
    ensures
        t@ == single_token(c, char_debug_text(c)),
{
    let mut t = String::new();
    if c == 'a' || c == 'e' || c == 'i' || c == 'o' || c == 'u' {
        proof {
            reveal_strlit("vowel(");
        }
        push_str(&mut t, "vowel(");
        push_char(&mut t, c);
        push_char(&mut t, ')');
    } else if '0' <= c && c <= '9' {
        proof {
            reveal_strlit("digit(value=");
        }
        push_str(&mut t, "digit(value=");
        push_char(&mut t, c);
        push_char(&mut t, ')');
    } else if ('A' <= c && c <= 'Z') || ('a' <= c && c <= 'z') {
        proof {
            reveal_strlit("alpha(");
            reveal_strlit(", code=0x");
        }
        push_str(&mut t, "alpha(");
        push_char(&mut t, c);
        push_str(&mut t, ", code=0x");
        push_hex_padded(&mut t, c as u32, 2);
        push_char(&mut t, ')');
    } else if is_whitespace_char(c) {
        proof {
            reveal_strlit("space");
        }
        push_str(&mut t, "space");
    } else if is_ascii_punctuation_char(c) {
        proof {
            reveal_strlit("punct(");
        }
        push_str(&mut t, "punct(");
        push_char(&mut t, c);
        push_char(&mut t, ')');
    } else {
        let debug = debug_char(c);
        t = other_token(c, debug.as_str());
    }
    t
}

/// A scanner that classifies typed characters and finds digraphs.
pub struct CharScanner {
    tokens: Vec<String>,
    digraph_count: usize,
}

impl View for CharScanner {
    type V = (Seq<Seq<char>>, nat);

    closed spec fn view(&self) -> (Seq<Seq<char>>, nat) {
        (strings_view(self.tokens@), self.digraph_count as nat)
    }
}

impl Default for CharScanner {
    fn default() -> (s: Self)
        ensures
            s@ == (Seq::<Seq<char>>::empty(), 0nat),
    {
        let s = CharScanner { tokens: Vec::new(), digraph_count: 0 };
        assert(strings_view(s.tokens@) =~= Seq::<Seq<char>>::empty());
        s
    }
}

impl CharScanner {
    /// The tokens scanned so far.
    pub fn tokens(&self) -> (r: &[String])
        ensures
            strings_view(r@) == self@.0,
    {
        self.tokens.as_slice()
    }

    /// The number of digraphs found so far.
    pub fn digraph_count(&self) -> (n: usize)
        ensures
            n == self@.1,
    {
        self.digraph_count
    }

    /// Scans `input`, appending its tokens and counting its digraphs.
    pub fn scan(&mut self, input: &str)
        requires
            old(self)@.1 + scan_digraphs(input@) <= usize::MAX,
        ensures
            final(self)@.0 == old(self)@.0 + scan_tokens(input@),
            final(self)@.1 == old(self)@.1 + scan_digraphs(input@),
    {
        let n = input.unicode_len();
        let mut i: usize = 0;
        let ghost start = self@;
        assert(input@.skip(0) =~= input@);
        assert(start.0 + scan_tokens(input@) =~= self@.0 + scan_tokens(input@.skip(0)));
        while i < n
            invariant
                n == input@.len(),
                i <= n,
                start.1 + scan_digraphs(input@) <= usize::MAX,
                self@.0 + scan_tokens(input@.skip(i as int)) == start.0 + scan_tokens(input@),
                self@.1 + scan_digraphs(input@.skip(i as int)) == start.1 + scan_digraphs(input@),
            decreases n - i,
        {
            let ghost rest = input@.skip(i as int);
            let c = input.get_char(i);
            let ghost before = self@.0;
            if i + 1 < n && is_digraph_pair(c, input.get_char(i + 1)) {
                let next = input.get_char(i + 1);
                let mut t = String::new();
                push_char(&mut t, '[');
                push_char(&mut t, c);
                push_char(&mut t, next);
                push_char(&mut t, ']');
                assert(t@ =~= seq!['[', c, next, ']']);
                self.tokens.push(t);
                self.digraph_count = self.digraph_count + 1;
                assert(rest.skip(2) =~= input@.skip(i + 2));
                assert(strings_view(self.tokens@) =~= before.push(seq!['[', c, next, ']']));
                assert(self@.0 + scan_tokens(input@.skip(i + 2)) =~= before + scan_tokens(rest));
                i = i + 2;
            } else {
                let t = single_token_of(c);
                self.tokens.push(t);
                assert(rest.drop_first() =~= input@.skip(i + 1));
                assert(strings_view(self.tokens@) =~= before.push(single_token(c, char_debug_text(c))));
                assert(self@.0 + scan_tokens(input@.skip(i + 1)) =~= before + scan_tokens(rest));
                i = i + 1;
            }
        }
        assert(input@.skip(n as int) =~= Seq::<char>::empty());
        assert(self@.0 + Seq::<Seq<char>>::empty() =~= self@.0);
    }
}

fn is_digraph_pair(a: char, b: char) -> (r: bool)
    ensures
        r == is_digraph(a, b),
{
    (a == 'c' && b == 'h') || (a == 'e' && b == 'o') || (a == 'n' && b == 'g') || (a == 'g' && b
        == 'g')
}

} // verus!
