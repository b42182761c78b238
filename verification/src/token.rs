use vstd::prelude::*;

verus! {

/// Number of entries in the canonical romaja table.
pub const CANONICAL_LEN: usize = 39;

/// The canonical romaja table: entry `i` pairs a romanised spelling with the
/// jamo it stands for. Entries are ordered by spelling length, longest first
/// (three letters, then two, then one), so that the first entry whose spelling
/// begins a text is also the longest such entry.
pub open spec fn canonical(i: int) -> (Seq<char>, char) {
    if i == 0 {
        (seq!['y', 'a', 'e'], 'ㅒ')
    } else if i == 1 {
        (seq!['y', 'e', 'o'], 'ㅕ')
    } else if i == 2 {
        (seq!['o', 'a', 'e'], 'ㅙ')
    } else if i == 3 {
        (seq!['c', 'h'], 'ㅊ')
    } else if i == 4 {
        (seq!['k', 'k'], 'ㄲ')
    } else if i == 5 {
        (seq!['t', 't'], 'ㄸ')
    } else if i == 6 {
        (seq!['p', 'p'], 'ㅃ')
    } else if i == 7 {
        (seq!['s', 's'], 'ㅆ')
    } else if i == 8 {
        (seq!['j', 'j'], 'ㅉ')
    } else if i == 9 {
        (seq!['a', 'e'], 'ㅐ')
    } else if i == 10 {
        (seq!['e', 'o'], 'ㅓ')
    } else if i == 11 {
        (seq!['e', 'u'], 'ㅡ')
    } else if i == 12 {
        (seq!['o', 'e'], 'ㅚ')
    } else if i == 13 {
        (seq!['y', 'a'], 'ㅑ')
    } else if i == 14 {
        (seq!['y', 'e'], 'ㅖ')
    } else if i == 15 {
        (seq!['y', 'o'], 'ㅛ')
    } else if i == 16 {
        (seq!['y', 'u'], 'ㅠ')
    } else if i == 17 {
        (seq!['u', 'i'], 'ㅢ')
    } else if i == 18 {
        (seq!['w', 'a'], 'ㅘ')
    } else if i == 19 {
        (seq!['w', 'e'], 'ㅞ')
    } else if i == 20 {
        (seq!['w', 'i'], 'ㅟ')
    } else if i == 21 {
        (seq!['w', 'o'], 'ㅝ')
    } else if i == 22 {
        (seq!['a'], 'ㅏ')
    } else if i == 23 {
        (seq!['e'], 'ㅔ')
    } else if i == 24 {
        (seq!['i'], 'ㅣ')
    } else if i == 25 {
        (seq!['o'], 'ㅗ')
    } else if i == 26 {
        (seq!['u'], 'ㅜ')
    } else if i == 27 {
        (seq!['g'], 'ㄱ')
    } else if i == 28 {
        (seq!['n'], 'ㄴ')
    } else if i == 29 {
        (seq!['d'], 'ㄷ')
    } else if i == 30 {
        (seq!['r'], 'ㄹ')
    } else if i == 31 {
        (seq!['m'], 'ㅁ')
    } else if i == 32 {
        (seq!['b'], 'ㅂ')
    } else if i == 33 {
        (seq!['s'], 'ㅅ')
    } else if i == 34 {
        (seq!['j'], 'ㅈ')
    } else if i == 35 {
        (seq!['k'], 'ㅋ')
    } else if i == 36 {
        (seq!['t'], 'ㅌ')
    } else if i == 37 {
        (seq!['p'], 'ㅍ')
    } else if i == 38 {
        (seq!['h'], 'ㅎ')
    } else {
        (seq![], '\0')
    }
}

/// The romanised spelling of canonical entry `i`.
pub open spec fn canonical_key(i: int) -> Seq<char> {
    canonical(i).0
}

/// The jamo of canonical entry `i`.
pub open spec fn canonical_jamo(i: int) -> char {
    canonical(i).1
}

/// Index of the first canonical entry, at `i` or later, whose spelling is a
/// prefix of `s`.
pub open spec fn first_match_from(s: Seq<char>, i: int) -> Option<int>
    decreases 39 - i,
{
    if i < 0 || i >= 39 {
        None
    } else if canonical_key(i).is_prefix_of(s) {
        Some(i)
    } else {
        first_match_from(s, i + 1)
    }
}

/// Index of the first canonical entry whose spelling is a prefix of `s`.
pub open spec fn first_match(s: Seq<char>) -> Option<int> {
    first_match_from(s, 0)
}

/// Length of canonical spelling `i`: three letters for the first three
/// entries, two for the next nineteen, one for the rest.
pub open spec fn canonical_key_len(i: int) -> nat {
    if i < 3 {
        3
    } else if i < 22 {
        2
    } else {
        1
    }
}

proof fn lemma_canonical_key_len(i: int)
    requires
        0 <= i < 39,
    ensures
        canonical_key(i).len() == canonical_key_len(i),
{
}

proof fn lemma_first_match_from(s: Seq<char>, i: int)
    requires
        0 <= i <= 39,
    ensures
        match first_match_from(s, i) {
            Some(k) => i <= k < 39 && canonical_key(k).is_prefix_of(s) && forall|j: int|
                i <= j < k ==> !(#[trigger] canonical_key(j)).is_prefix_of(s),
            None => forall|j: int| i <= j < 39 ==> !(#[trigger] canonical_key(j)).is_prefix_of(s),
        },
    decreases 39 - i,
{
    if i < 39 && !canonical_key(i).is_prefix_of(s) {
        lemma_first_match_from(s, i + 1);
    }
}

proof fn lemma_earlier_key_not_prefix(j: int, i: int)
    requires
        0 <= j < i < 39,
    ensures
        !canonical_key(j).is_prefix_of(canonical_key(i)),
{
    lemma_canonical_key_len(i);
    lemma_canonical_key_len(j);
    if canonical_key(j).len() == canonical_key(i).len() {
        let a = canonical_key(j);
        let b = canonical_key(i);
        if a =~= b.subrange(0, a.len() as int) {
            assert(a[0] == b[0]);
            if a.len() >= 2 {
                assert(a[1] == b[1]);
            }
            if a.len() >= 3 {
                assert(a[2] == b[2]);
            }
        }
    }
}

proof fn lemma_key_matches_itself_from(i: int, j: int)
    requires
        0 <= j <= i < 39,
    ensures
        first_match_from(canonical_key(i), j) == Some(i),
    decreases i - j,
{
    if j < i {
        lemma_earlier_key_not_prefix(j, i);
        lemma_key_matches_itself_from(i, j + 1);
    } else {
        assert(canonical_key(i).is_prefix_of(canonical_key(i))) by {
            assert(canonical_key(i) =~= canonical_key(i).subrange(0, canonical_key(i).len() as int));
        }
    }
}

/// Every canonical spelling, read on its own, is matched by its own entry:
/// the table gives each spelling exactly its jamo.
pub proof fn law_canonical_spelling_matches_itself(i: int)
    requires
        0 <= i < 39,
    ensures
        first_match(canonical_key(i)) == Some(i),
{
    lemma_key_matches_itself_from(i, 0);
}

/// When an entry is picked for `s`, it is a table entry whose non-empty
/// spelling begins `s`.
pub proof fn lemma_first_match_spelling(s: Seq<char>)
    ensures
        first_match(s) matches Some(i) ==> 0 <= i < 39 && canonical_key(i).is_prefix_of(s)
            && 1 <= canonical_key(i).len() <= s.len(),
{
    lemma_first_match_from(s, 0);
    if let Some(i) = first_match(s) {
        lemma_canonical_key_len(i);
    }
}

/// Distinct canonical entries have distinct spellings.
pub proof fn lemma_canonical_keys_distinct(j: int, i: int)
    requires
        0 <= j < 39,
        0 <= i < 39,
        j != i,
    ensures
        canonical_key(j) != canonical_key(i),
{
    if j < i {
        lemma_earlier_key_not_prefix(j, i);
        if canonical_key(j) == canonical_key(i) {
            assert(canonical_key(j) =~= canonical_key(i).subrange(0, canonical_key(j).len() as int));
        }
    } else {
        lemma_earlier_key_not_prefix(i, j);
        if canonical_key(j) == canonical_key(i) {
            assert(canonical_key(i) =~= canonical_key(j).subrange(0, canonical_key(i).len() as int));
        }
    }
}

/// What `Token::convert` picks is a table entry whose spelling begins the
/// text, and no entry whose spelling begins the text is longer: the table is
/// matched by longest prefix. When nothing is picked, no spelling begins the
/// text.
pub proof fn law_convert_is_longest_match(s: Seq<char>)
    ensures
        match first_match(s) {
            Some(i) => {
                &&& 0 <= i < 39
                &&& canonical_key(i).is_prefix_of(s)
                &&& forall|j: int|
                    0 <= j < 39 && (#[trigger] canonical_key(j)).is_prefix_of(s)
                        ==> canonical_key(j).len() <= canonical_key(i).len()
            },
            None => forall|j: int| 0 <= j < 39 ==> !(#[trigger] canonical_key(j)).is_prefix_of(s),
        },
{
    lemma_first_match_from(s, 0);
    if let Some(i) = first_match(s) {
        assert forall|j: int|
            0 <= j < 39 && (#[trigger] canonical_key(j)).is_prefix_of(s) implies canonical_key(
            j,
        ).len() <= canonical_key(i).len() by {
            lemma_canonical_key_len(i);
            lemma_canonical_key_len(j);
        }
    }
}

/// Canonical entry `i` as executable values.
pub fn canonical_entry(i: usize) -> (e: (&'static str, char))
    requires
        i < CANONICAL_LEN,
    ensures
        e.0@ == canonical_key(i as int),
        e.1 == canonical_jamo(i as int),
{
    if i == 0 {
        proof { reveal_strlit("yae"); }
        ("yae", 'ㅒ')
    } else if i == 1 {
        proof { reveal_strlit("yeo"); }
        ("yeo", 'ㅕ')
    } else if i == 2 {
        proof { reveal_strlit("oae"); }
        ("oae", 'ㅙ')
    } else if i == 3 {
        proof { reveal_strlit("ch"); }
        ("ch", 'ㅊ')
    } else if i == 4 {
        proof { reveal_strlit("kk"); }
        ("kk", 'ㄲ')
    } else if i == 5 {
        proof { reveal_strlit("tt"); }
        ("tt", 'ㄸ')
    } else if i == 6 {
        proof { reveal_strlit("pp"); }
        ("pp", 'ㅃ')
    } else if i == 7 {
        proof { reveal_strlit("ss"); }
        ("ss", 'ㅆ')
    } else if i == 8 {
        proof { reveal_strlit("jj"); }
        ("jj", 'ㅉ')
    } else if i == 9 {
        proof { reveal_strlit("ae"); }
        ("ae", 'ㅐ')
    } else if i == 10 {
        proof { reveal_strlit("eo"); }
        ("eo", 'ㅓ')
    } else if i == 11 {
        proof { reveal_strlit("eu"); }
        ("eu", 'ㅡ')
    } else if i == 12 {
        proof { reveal_strlit("oe"); }
        ("oe", 'ㅚ')
    } else if i == 13 {
        proof { reveal_strlit("ya"); }
        ("ya", 'ㅑ')
    } else if i == 14 {
        proof { reveal_strlit("ye"); }
        ("ye", 'ㅖ')
    } else if i == 15 {
        proof { reveal_strlit("yo"); }
        ("yo", 'ㅛ')
    } else if i == 16 {
        proof { reveal_strlit("yu"); }
        ("yu", 'ㅠ')
    } else if i == 17 {
        proof { reveal_strlit("ui"); }
        ("ui", 'ㅢ')
    } else if i == 18 {
        proof { reveal_strlit("wa"); }
        ("wa", 'ㅘ')
    } else if i == 19 {
        proof { reveal_strlit("we"); }
        ("we", 'ㅞ')
    } else if i == 20 {
        proof { reveal_strlit("wi"); }
        ("wi", 'ㅟ')
    } else if i == 21 {
        proof { reveal_strlit("wo"); }
        ("wo", 'ㅝ')
    } else if i == 22 {
        proof { reveal_strlit("a"); }
        ("a", 'ㅏ')
    } else if i == 23 {
        proof { reveal_strlit("e"); }
        ("e", 'ㅔ')
    } else if i == 24 {
        proof { reveal_strlit("i"); }
        ("i", 'ㅣ')
    } else if i == 25 {
        proof { reveal_strlit("o"); }
        ("o", 'ㅗ')
    } else if i == 26 {
        proof { reveal_strlit("u"); }
        ("u", 'ㅜ')
    } else if i == 27 {
        proof { reveal_strlit("g"); }
        ("g", 'ㄱ')
    } else if i == 28 {
        proof { reveal_strlit("n"); }
        ("n", 'ㄴ')
    } else if i == 29 {
        proof { reveal_strlit("d"); }
        ("d", 'ㄷ')
    } else if i == 30 {
        proof { reveal_strlit("r"); }
        ("r", 'ㄹ')
    } else if i == 31 {
        proof { reveal_strlit("m"); }
        ("m", 'ㅁ')
    } else if i == 32 {
        proof { reveal_strlit("b"); }
        ("b", 'ㅂ')
    } else if i == 33 {
        proof { reveal_strlit("s"); }
        ("s", 'ㅅ')
    } else if i == 34 {
        proof { reveal_strlit("j"); }
        ("j", 'ㅈ')
    } else if i == 35 {
        proof { reveal_strlit("k"); }
        ("k", 'ㅋ')
    } else if i == 36 {
        proof { reveal_strlit("t"); }
        ("t", 'ㅌ')
    } else if i == 37 {
        proof { reveal_strlit("p"); }
        ("p", 'ㅍ')
    } else if i == 38 {
        proof { reveal_strlit("h"); }
        ("h", 'ㅎ')
    } else {
        proof { reveal_strlit("h"); }
        ("h", 'ㅎ')
    }
}

/// Whether `key` is a prefix of `text`, compared character by character.
pub fn starts_with(text: &str, key: &str) -> (r: bool)
    ensures
        r == key@.is_prefix_of(text@),
{
    let n = key.unicode_len();
    let m = text.unicode_len();
    if n > m {
        return false;
    }
    let mut i: usize = 0;
    while i < n
        invariant
            n == key@.len(),
            m == text@.len(),
            n <= m,
            i <= n,
            forall|j: int| 0 <= j < i ==> key@[j] == text@[j],
        decreases n - i,
    {
        if key.get_char(i) != text.get_char(i) {
            return false;
        }
        i = i + 1;
    }
    assert(key@ =~= text@.subrange(0, n as int));
    true
}

/// A romaja token: a canonical spelling and its jamo, or an unmatched text
/// with the NUL character.
pub struct Token {
    text: String,
    ch: char,
}

impl View for Token {
    type V = (Seq<char>, char);

    closed spec fn view(&self) -> (Seq<char>, char) {
        (self.text@, self.ch)
    }
}

impl Default for Token {
    fn default() -> (t: Self)
        ensures
            t@ == (Seq::<char>::empty(), '\0'),
    {
        Token { text: String::new(), ch: '\0' }
    }
}

impl Token {
    /// The canonical entry whose spelling begins `text`, taking the first in
    /// table order; `None` when no spelling begins it.
    pub fn convert(text: &str) -> (r: Option<(&'static str, char)>)
        ensures
            match r {
                None => first_match(text@) is None,
                Some((k, j)) => first_match(text@) matches Some(i) && k@ == canonical_key(i)
                    && j == canonical_jamo(i),
            },
    {
        let mut i: usize = 0;
        while i < CANONICAL_LEN
            invariant
                i <= CANONICAL_LEN,
                first_match(text@) == first_match_from(text@, i as int),
            decreases CANONICAL_LEN - i,
        {
            let (k, j) = canonical_entry(i);
            if starts_with(text, k) {
                return Some((k, j));
            }
            i = i + 1;
        }
        None
    }

    /// The token that begins `input`: the first canonical entry whose
    /// spelling begins it, or else `input` itself with the NUL character.
    pub fn new(input: &str) -> (t: Self)
        ensures
            t@ == match first_match(input@) {
                Some(i) => (canonical_key(i), canonical_jamo(i)),
                None => (input@, '\0'),
            },
    {
        match Self::convert(input) {
            Some((text, ch)) => Token { text: text.to_owned(), ch },
            None => Token { text: input.to_owned(), ch: '\0' },
        }
    }

    /// The token's text.
    pub fn text(&self) -> (r: &str)
        ensures
            r@ == self@.0,
    {
        self.text.as_str()
    }

    /// The token's jamo, NUL when the text matched no canonical entry.
    pub fn ch(&self) -> (r: char)
        ensures
            r == self@.1,
    {
        self.ch
    }
}

} // verus!
