use vstd::prelude::*;
use vstd::utf8::is_ascii_chars;

use crate::text::{push_char, push_str, str_eq};
use crate::token::{
    canonical_entry, canonical_jamo, canonical_key, first_match, lemma_first_match_spelling,
    law_convert_is_longest_match, lemma_canonical_keys_distinct, starts_with, Token, CANONICAL_LEN,
};

verus! {

/// Number of entries in the variant table.
pub const VARIANTS_LEN: usize = 4;

/// The variant table: entry `i` pairs a variant spelling with its ranked
/// canonical interpretations, the first being the default. Entries are
/// ordered longest spelling first.
pub open spec fn variant(i: int) -> (Seq<char>, Seq<Seq<char>>) {
    if i == 0 {
        (seq!['y', 'o'], seq![seq!['y', 'o'], seq!['y', 'e', 'o']])
    } else if i == 1 {
        (seq!['g', 'g'], seq![seq!['k', 'k'], seq!['g']])
    } else if i == 2 {
        (seq!['o', 'i'], seq![seq!['o', 'e']])
    } else if i == 3 {
        (seq!['o'], seq![seq!['o'], seq!['e', 'o']])
    } else {
        (seq![], seq![])
    }
}

/// Index of the first variant, at `i` or later, whose spelling is a prefix
/// of `s`.
pub open spec fn first_variant_from(s: Seq<char>, i: int) -> Option<int>
    decreases 4 - i,
{
    if i < 0 || i >= 4 {
        None
    } else if variant(i).0.is_prefix_of(s) {
        Some(i)
    } else {
        first_variant_from(s, i + 1)
    }
}

/// Index of the first variant whose spelling is a prefix of `s`.
pub open spec fn first_variant(s: Seq<char>) -> Option<int> {
    first_variant_from(s, 0)
}

/// Index of the first canonical entry, at `i` or later, spelled `name`.
pub open spec fn canonical_index_from(name: Seq<char>, i: int) -> Option<int>
    decreases 39 - i,
{
    if i < 0 || i >= 39 {
        None
    } else if canonical_key(i) == name {
        Some(i)
    } else {
        canonical_index_from(name, i + 1)
    }
}

/// Index of the canonical entry spelled `name`, if any.
pub open spec fn canonical_index(name: Seq<char>) -> Option<int> {
    canonical_index_from(name, 0)
}

/// The canonical entries that `names` spell, in order, skipping names that
/// spell none.
pub open spec fn resolve(names: Seq<Seq<char>>) -> Seq<(Seq<char>, char)>
    decreases names.len(),
{
    if names.len() == 0 {
        seq![]
    } else {
        let head = match canonical_index(names[0]) {
            Some(k) => seq![(canonical_key(k), canonical_jamo(k))],
            None => seq![],
        };
        head + resolve(names.drop_first())
    }
}

/// Length of the spelling of the first variant that begins `s`, 0 if none.
pub open spec fn variant_len(s: Seq<char>) -> nat {
    match first_variant(s) {
        Some(i) => variant(i).0.len(),
        None => 0,
    }
}

/// Length of the spelling of the first canonical entry that begins `s`, 0
/// if none.
pub open spec fn canonical_len(s: Seq<char>) -> nat {
    match first_match(s) {
        Some(j) => canonical_key(j).len(),
        None => 0,
    }
}

/// What a lookup at the start of `s` yields: the number of characters
/// consumed and the ranked (spelling, jamo) choices. The longer of the
/// variant match and the canonical match wins, the variant on a tie; a
/// variant yields its interpretations, a canonical entry itself.
pub open spec fn demo_lookup(s: Seq<char>) -> Option<(nat, Seq<(Seq<char>, char)>)> {
    let v_len = variant_len(s);
    let c_len = canonical_len(s);
    if v_len == 0 && c_len == 0 {
        None
    } else if v_len >= c_len {
        match first_variant(s) {
            Some(i) => {
                let choices = resolve(variant(i).1);
                if choices.len() == 0 {
                    None
                } else {
                    Some((v_len, choices))
                }
            },
            None => None,
        }
    } else {
        match first_match(s) {
            Some(j) => Some((c_len, seq![(canonical_key(j), canonical_jamo(j))])),
            None => None,
        }
    }
}

/// The (spelling, jamo) views of a list of choices.
pub open spec fn choices_view(v: Seq<(&'static str, char)>) -> Seq<(Seq<char>, char)> {
    v.map_values(|p: (&'static str, char)| (p.0@, p.1))
}

proof fn lemma_first_variant_from(s: Seq<char>, i: int)
    requires
        0 <= i <= 4,
    ensures
        match first_variant_from(s, i) {
            Some(k) => i <= k < 4 && variant(k).0.is_prefix_of(s) && forall|j: int|
                i <= j < k ==> !(#[trigger] variant(j).0).is_prefix_of(s),
            None => forall|j: int| i <= j < 4 ==> !(#[trigger] variant(j).0).is_prefix_of(s),
        },
    decreases 4 - i,
{
    if i < 4 && !variant(i).0.is_prefix_of(s) {
        lemma_first_variant_from(s, i + 1);
    }
}

/// A lookup that yields something consumes at least one character, no
/// more than there are, and offers at least one choice.
pub proof fn lemma_lookup_consumes(s: Seq<char>)
    ensures
        demo_lookup(s) matches Some((n, c)) ==> 1 <= n <= s.len() && c.len() >= 1,
{
    lemma_first_variant_from(s, 0);
    lemma_first_match_spelling(s);
}

proof fn lemma_canonical_index_from_key(k: int, i: int)
    requires
        0 <= i <= k < 39,
    ensures
        canonical_index_from(canonical_key(k), i) == Some(k),
    decreases k - i,
{
    if i < k {
        lemma_canonical_keys_distinct(i, k);
        lemma_canonical_index_from_key(k, i + 1);
    }
}

proof fn lemma_resolve_cons(names: Seq<Seq<char>>, k: int)
    requires
        names.len() > 0,
        0 <= k < 39,
        names[0] == canonical_key(k),
    ensures
        resolve(names) == seq![(canonical_key(k), canonical_jamo(k))] + resolve(names.drop_first()),
{
    lemma_canonical_index_from_key(k, 0);
}

/// Every interpretation in the variant table is the spelling of a
/// canonical entry, so resolving a variant loses none of its choices and
/// keeps their order and rank.
pub proof fn law_variant_choices_are_canonical(i: int)
    requires
        0 <= i < 4,
    ensures
        resolve(variant(i).1).len() == variant(i).1.len(),
        forall|k: int| 0 <= k < variant(i).1.len() ==> (#[trigger] resolve(variant(i).1)[k]).0 == variant(i).1[k],
{
    let names = variant(i).1;
    let empty = Seq::<Seq<char>>::empty();
    assert(resolve(empty) == Seq::<(Seq<char>, char)>::empty());
    if i == 0 {
        assert(canonical_key(15) =~= names[0]);
        assert(canonical_key(1) =~= names[1]);
        lemma_resolve_cons(names, 15);
        lemma_resolve_cons(names.drop_first(), 1);
        assert(names.drop_first().drop_first() =~= empty);
    } else if i == 1 {
        assert(canonical_key(4) =~= names[0]);
        assert(canonical_key(27) =~= names[1]);
        lemma_resolve_cons(names, 4);
        lemma_resolve_cons(names.drop_first(), 27);
        assert(names.drop_first().drop_first() =~= empty);
    } else if i == 2 {
        assert(canonical_key(12) =~= names[0]);
        lemma_resolve_cons(names, 12);
        assert(names.drop_first() =~= empty);
    } else {
        assert(canonical_key(25) =~= names[0]);
        assert(canonical_key(10) =~= names[1]);
        lemma_resolve_cons(names, 25);
        lemma_resolve_cons(names.drop_first(), 10);
        assert(names.drop_first().drop_first() =~= empty);
    }
}

/// A lookup consumes the longest spelling, in either table, that begins the
/// text: no variant or canonical spelling that begins it is longer than
/// what is consumed, and what is consumed is the length of the variant
/// match or of the canonical match.
pub proof fn law_lookup_takes_longest_match(s: Seq<char>)
    ensures
        demo_lookup(s) matches Some((n, _choices)) ==> {
            &&& forall|j: int|
                0 <= j < 39 && (#[trigger] canonical_key(j)).is_prefix_of(s) ==> canonical_key(j).len() <= n
            &&& forall|i: int|
                0 <= i < 4 && (#[trigger] variant(i).0).is_prefix_of(s) ==> variant(i).0.len() <= n
            &&& (n == variant_len(s) && first_variant(s) is Some) || (n == canonical_len(s)
                && first_match(s) is Some)
        },
{
    law_convert_is_longest_match(s);
    lemma_first_variant_from(s, 0);
    if let Some((n, _c)) = demo_lookup(s) {
        if let Some(k) = first_variant(s) {
            assert forall|i: int|
                0 <= i < 4 && (#[trigger] variant(i).0).is_prefix_of(s) implies variant(i).0.len()
                <= n by {
                assert(variant(i).0.len() <= variant(k).0.len() || i < k);
            }
        }
    }
}

proof fn lemma_canonical_index_from_bounds(name: Seq<char>, i: int)
    requires
        0 <= i,
    ensures
        canonical_index_from(name, i) matches Some(k) ==> i <= k < 39 && canonical_key(k) == name,
    decreases 39 - i,
{
    if i < 39 && canonical_key(i) != name {
        lemma_canonical_index_from_bounds(name, i + 1);
    }
}

proof fn lemma_resolve_entries(names: Seq<Seq<char>>)
    ensures
        resolve(names).len() <= names.len(),
        forall|m: int|
            0 <= m < resolve(names).len() ==> exists|k: int|
                0 <= k < 39 && #[trigger] resolve(names)[m] == (canonical_key(k), canonical_jamo(k)),
    decreases names.len(),
{
    if names.len() > 0 {
        lemma_resolve_entries(names.drop_first());
        lemma_canonical_index_from_bounds(names[0], 0);
        let head = match canonical_index(names[0]) {
            Some(k) => seq![(canonical_key(k), canonical_jamo(k))],
            None => Seq::<(Seq<char>, char)>::empty(),
        };
        let tail = resolve(names.drop_first());
        assert(resolve(names) == head + tail);
        assert forall|m: int| 0 <= m < resolve(names).len() implies exists|k: int|
            0 <= k < 39 && #[trigger] resolve(names)[m] == (canonical_key(k), canonical_jamo(k)) by {
            if m < head.len() {
                let k = canonical_index(names[0]).unwrap();
                assert(resolve(names)[m] == (canonical_key(k), canonical_jamo(k)));
            } else {
                assert(resolve(names)[m] == tail[m - head.len()]);
            }
        }
    }
}

/// When the canonical entry `j` begins the text and is strictly longer
/// than every variant spelling that begins it (and no canonical spelling
/// that begins it is longer), the lookup consumes exactly that spelling and
/// offers exactly that one entry.
pub proof fn law_longer_canonical_match_offers_only_itself(s: Seq<char>, j: int)
    requires
        0 <= j < 39,
        canonical_key(j).is_prefix_of(s),
        forall|k: int|
            0 <= k < 39 && (#[trigger] canonical_key(k)).is_prefix_of(s) ==> canonical_key(k).len()
                <= canonical_key(j).len(),
        forall|i: int|
            0 <= i < 4 && (#[trigger] variant(i).0).is_prefix_of(s) ==> variant(i).0.len()
                < canonical_key(j).len(),
    ensures
        demo_lookup(s) == Some(
            (canonical_key(j).len(), seq![(canonical_key(j), canonical_jamo(j))]),
        ),
{
    law_convert_is_longest_match(s);
    lemma_first_variant_from(s, 0);
    lemma_first_match_spelling(s);
    match first_match(s) {
        Some(i) => {
            assert(canonical_key(i).len() == canonical_key(j).len());
            if i != j {
                lemma_canonical_keys_distinct(i, j);
                assert(canonical_key(i) =~= canonical_key(j)) by {
                    assert(canonical_key(i) =~= s.subrange(0, canonical_key(i).len() as int));
                    assert(canonical_key(j) =~= s.subrange(0, canonical_key(j).len() as int));
                }
            }
        },
        None => {
            assert(!canonical_key(j).is_prefix_of(s));
        },
    }
}

/// When the variant `i` begins the text and no variant or canonical
/// spelling that begins it is longer, the lookup consumes the variant
/// spelling and offers its interpretations in their ranked order, each as
/// a canonical entry with that spelling and its jamo.
pub proof fn law_variant_match_offers_its_interpretations(s: Seq<char>, i: int)
    requires
        0 <= i < 4,
        variant(i).0.is_prefix_of(s),
        forall|v: int|
            0 <= v < 4 && (#[trigger] variant(v).0).is_prefix_of(s) ==> variant(v).0.len()
                <= variant(i).0.len(),
        forall|k: int|
            0 <= k < 39 && (#[trigger] canonical_key(k)).is_prefix_of(s) ==> canonical_key(k).len()
                <= variant(i).0.len(),
    ensures
        demo_lookup(s) matches Some((n, choices)) && n == variant(i).0.len() && choices.len()
            == variant(i).1.len() && forall|m: int|
            0 <= m < choices.len() ==> (#[trigger] choices[m]).0 == variant(i).1[m] && exists|k: int|
                0 <= k < 39 && canonical_key(k) == choices[m].0 && canonical_jamo(k) == choices[m].1,
{
    law_convert_is_longest_match(s);
    lemma_first_variant_from(s, 0);
    lemma_first_match_spelling(s);
    match first_variant(s) {
        Some(v) => {
            assert(variant(v).0.len() <= variant(i).0.len());
            if v != i {
                assert(variant(v).0 =~= s.subrange(0, variant(v).0.len() as int));
                assert(variant(i).0 =~= s.subrange(0, variant(i).0.len() as int));
                assert(variant(v).0.len() >= variant(i).0.len() || v > i);
                if v < i {
                    assert(variant(v).0 =~= variant(i).0);
                    assert(false);
                }
            }
            assert(v == i);
            law_variant_choices_are_canonical(i);
            lemma_resolve_entries(variant(i).1);
            let choices = resolve(variant(i).1);
            assert forall|m: int| 0 <= m < choices.len() implies (#[trigger] choices[m]).0 == variant(
                i,
            ).1[m] && exists|k: int|
                0 <= k < 39 && canonical_key(k) == choices[m].0 && canonical_jamo(k) == choices[m].1 by {
                let k = choose|k: int|
                    0 <= k < 39 && #[trigger] choices[m] == (canonical_key(k), canonical_jamo(k));
                assert(canonical_key(k) == choices[m].0);
            }
        },
        None => {
            assert(!variant(i).0.is_prefix_of(s));
        },
    }
}

/// Where no variant or canonical spelling begins the text, the scan skips
/// that one character and goes on right after it; where a lookup yields
/// choices, they are the scan's first list and the scan goes on after the
/// consumed characters.
pub proof fn law_scan_steps(s: Seq<char>)
    requires
        s.len() > 0,
    ensures
        (forall|j: int| 0 <= j < 39 ==> !(#[trigger] canonical_key(j)).is_prefix_of(s)) && (forall|
            i: int,
        |
            0 <= i < 4 ==> !(#[trigger] variant(i).0).is_prefix_of(s)) ==> demo_scan(s) == demo_scan(
            s.drop_first(),
        ),
        demo_lookup(s) matches Some((n, c)) ==> demo_scan(s).len() >= 1 && demo_scan(s)[0] == c
            && demo_scan(s).drop_first() == demo_scan(s.skip(n as int)),
{
    law_convert_is_longest_match(s);
    lemma_first_variant_from(s, 0);
    lemma_lookup_consumes(s);
    if let Some((n, c)) = demo_lookup(s) {
        assert(demo_scan(s) == seq![c] + demo_scan(s.skip(n as int)));
        assert((seq![c] + demo_scan(s.skip(n as int))).drop_first() =~= demo_scan(s.skip(n as int)));
    }
}

/// Variant entry `i` as executable values.
pub fn variant_entry(i: usize) -> (e: (&'static str, Vec<&'static str>))
    requires
        i < VARIANTS_LEN,
    ensures
        e.0@ == variant(i as int).0,
        e.1@.map_values(|x: &'static str| x@) == variant(i as int).1,
{
    proof {
        reveal_strlit("yo");
        reveal_strlit("yeo");
        reveal_strlit("gg");
        reveal_strlit("kk");
        reveal_strlit("g");
        reveal_strlit("oi");
        reveal_strlit("oe");
        reveal_strlit("o");
        reveal_strlit("eo");
    }
    assert("yo"@ =~= seq!['y', 'o']);
    assert("yeo"@ =~= seq!['y', 'e', 'o']);
    assert("gg"@ =~= seq!['g', 'g']);
    assert("kk"@ =~= seq!['k', 'k']);
    assert("g"@ =~= seq!['g']);
    assert("oi"@ =~= seq!['o', 'i']);
    assert("oe"@ =~= seq!['o', 'e']);
    assert("o"@ =~= seq!['o']);
    assert("eo"@ =~= seq!['e', 'o']);
    let mut names: Vec<&'static str> = Vec::new();
    let key = if i == 0 {
        names.push("yo");
        names.push("yeo");
        "yo"
    } else if i == 1 {
        names.push("kk");
        names.push("g");
        "gg"
    } else if i == 2 {
        names.push("oe");
        "oi"
    } else {
        names.push("o");
        names.push("eo");
        "o"
    };
    assert(names@.map_values(|x: &'static str| x@) =~= variant(i as int).1);
    (key, names)
}

/// The canonical entry spelled `name`, if any.
pub fn canonical_by_name(name: &str) -> (r: Option<(&'static str, char)>)
    ensures
        match r {
            None => canonical_index(name@) is None,
            Some((k, j)) => canonical_index(name@) matches Some(i) && k@ == canonical_key(i) && j
                == canonical_jamo(i),
        },
{
    let mut i: usize = 0;
    while i < CANONICAL_LEN
        invariant
            i <= CANONICAL_LEN,
            canonical_index(name@) == canonical_index_from(name@, i as int),
        decreases CANONICAL_LEN - i,
    {
        let (k, j) = canonical_entry(i);
        if str_eq(k, name) {
            return Some((k, j));
        }
        i = i + 1;
    }
    None
}

/// A scanner that reads romaja into ranked jamo choices, one list per
/// position.
pub struct CharScanner {
    tokens: Vec<Vec<(&'static str, char)>>,
}

impl View for CharScanner {
    type V = Seq<Seq<(Seq<char>, char)>>;

    closed spec fn view(&self) -> Seq<Seq<(Seq<char>, char)>> {
        self.tokens@.map_values(|v: Vec<(&'static str, char)>| choices_view(v@))
    }
}

impl Default for CharScanner {
    fn default() -> (s: Self)
        ensures
            s@ == Seq::<Seq<(Seq<char>, char)>>::empty(),
    {
        let s = CharScanner { tokens: Vec::new() };
        assert(s@ =~= Seq::<Seq<(Seq<char>, char)>>::empty());
        s
    }
}

/// The choice lists that scanning `s` yields: a lookup at each position,
/// skipping one character where nothing matches.
pub open spec fn demo_scan(s: Seq<char>) -> Seq<Seq<(Seq<char>, char)>>
    decreases s.len(),
{
    if s.len() == 0 {
        seq![]
    } else {
        match demo_lookup(s) {
            Some((n, choices)) => {
                proof {
                    lemma_lookup_consumes(s);
                }
                seq![choices] + demo_scan(s.skip(n as int))
            },
            None => demo_scan(s.drop_first()),
        }
    }
}

impl CharScanner {
    /// The choice lists scanned so far.
    pub fn tokens(&self) -> (r: &[Vec<(&'static str, char)>])
        ensures
            r@.map_values(|v: Vec<(&'static str, char)>| choices_view(v@)) == self@,
    {
        self.tokens.as_slice()
    }

    /// Scans `input`, appending a choice list for each position. The input
    /// must be ASCII: romaja is, and the scan steps through the input one
    /// byte at a time where nothing matches.
    pub fn scan(&mut self, input: &str)
        requires
            is_ascii_chars(input@),
        ensures
            final(self)@ == old(self)@ + demo_scan(input@),
    {
        let n = input.unicode_len();
        let mut i: usize = 0;
        let ghost start = self@;
        assert(input@.skip(0) =~= input@);
        assert(start + demo_scan(input@) =~= self@ + demo_scan(input@.skip(0)));
        while i < n
            invariant
                n == input@.len(),
                i <= n,
                self@ + demo_scan(input@.skip(i as int)) == start + demo_scan(input@),
            decreases n - i,
        {
            let rest = input.substring_char(i, n);
            assert(rest@ =~= input@.skip(i as int));
            proof {
                lemma_lookup_consumes(rest@);
            }
            let ghost before = self@;
            match Self::lookup(rest) {
                Some((consumed, choices)) => {
                    self.tokens.push(choices);
                    assert(self@ =~= before.push(choices_view(choices@)));
                    assert(rest@.skip(consumed as int) =~= input@.skip(i + consumed));
                    assert(self@ + demo_scan(input@.skip(i + consumed)) =~= before + demo_scan(
                        rest@,
                    ));
                    i = i + consumed;
                },
                None => {
                    assert(rest@.drop_first() =~= input@.skip(i + 1));
                    i = i + 1;
                },
            }
        }
        assert(input@.skip(n as int) =~= Seq::<char>::empty());
        assert(self@ + Seq::<Seq<(Seq<char>, char)>>::empty() =~= self@);
    }

    /// The longest match at the start of `rest` across the variant and
    /// canonical tables: the characters consumed and the ranked choices,
    /// the default first.
    pub fn lookup(rest: &str) -> (r: Option<(usize, Vec<(&'static str, char)>)>)
        ensures
            match r {
                None => demo_lookup(rest@) is None,
                Some((n, v)) => demo_lookup(rest@) == Some((n as nat, choices_view(v@))),
            },
    {
        let v = Self::find_variant(rest);
        let c = Token::convert(rest);
        let v_len: usize = match &v {
            Some((s, _)) => s.unicode_len(),
            None => 0,
        };
        let c_len: usize = match &c {
            Some((s, _)) => s.unicode_len(),
            None => 0,
        };
        if v_len == 0 && c_len == 0 {
            return None;
        }
        if v_len >= c_len {
            match v {
                Some((input, canonicals)) => {
                    let choices = Self::resolve_choices(&canonicals);
                    if choices.len() == 0 {
                        return None;
                    }
                    Some((input.unicode_len(), choices))
                },
                None => None,
            }
        } else {
            match c {
                Some((canonical, jamo)) => {
                    let choices = vec![(canonical, jamo)];
                    assert(choices_view(choices@) =~= seq![(canonical@, jamo)]);
                    Some((canonical.unicode_len(), choices))
                },
                None => None,
            }
        }
    }

    fn find_variant(rest: &str) -> (r: Option<(&'static str, Vec<&'static str>)>)
        ensures
            match r {
                None => first_variant(rest@) is None,
                Some((k, names)) => first_variant(rest@) matches Some(i) && k@ == variant(i).0
                    && names@.map_values(|x: &'static str| x@) == variant(i).1,
            },
    {
        let mut i: usize = 0;
        while i < VARIANTS_LEN
            invariant
                i <= VARIANTS_LEN,
                first_variant(rest@) == first_variant_from(rest@, i as int),
            decreases VARIANTS_LEN - i,
        {
            let (k, names) = variant_entry(i);
            if starts_with(rest, k) {
                return Some((k, names));
            }
            i = i + 1;
        }
        None
    }

    fn resolve_choices(names: &Vec<&'static str>) -> (r: Vec<(&'static str, char)>)
        ensures
            choices_view(r@) == resolve(names@.map_values(|x: &'static str| x@)),
    {
        let ghost all = names@.map_values(|x: &'static str| x@);
        let mut out: Vec<(&'static str, char)> = Vec::new();
        let mut i: usize = 0;
        assert(all.skip(0) =~= all);
        assert(choices_view(out@) + resolve(all) =~= resolve(all));
        while i < names.len()
            invariant
                i <= names@.len(),
                all == names@.map_values(|x: &'static str| x@),
                choices_view(out@) + resolve(all.skip(i as int)) == resolve(all),
            decreases names@.len() - i,
        {
            let ghost before = choices_view(out@);
            let ghost rest = all.skip(i as int);
            assert(rest[0] == names@[i as int]@);
            assert(rest.drop_first() =~= all.skip(i + 1));
            match canonical_by_name(names[i]) {
                Some(entry) => {
                    out.push(entry);
                    assert(choices_view(out@) =~= before + seq![(entry.0@, entry.1)]);
                },
                None => {
                    assert(choices_view(out@) =~= before);
                },
            }
            assert(choices_view(out@) + resolve(all.skip(i + 1)) =~= before + resolve(rest));
            i = i + 1;
        }
        assert(all.skip(names@.len() as int) =~= Seq::<Seq<char>>::empty());
        assert(choices_view(out@) + Seq::<(Seq<char>, char)>::empty() =~= choices_view(out@));
        out
    }
}

/// How a choice list is shown: each choice as its spelling, an arrow and
/// its jamo, the choices separated by " | ".
pub open spec fn render(choices: Seq<(Seq<char>, char)>) -> Seq<char>
    decreases choices.len(),
{
    if choices.len() == 0 {
        seq![]
    } else if choices.len() == 1 {
        choices[0].0 + seq!['→', choices[0].1]
    } else {
        render(choices.drop_last()) + seq![' ', '|', ' '] + choices.last().0 + seq![
            '→',
            choices.last().1,
        ]
    }
}

/// Shows a choice list (see `render`).
pub fn render_choices(choices: &[(&'static str, char)]) -> (r: String)
    ensures
        r@ == render(choices_view(choices@)),
{
    let mut out = String::new();
    let mut i: usize = 0;
    let ghost all = choices_view(choices@);
    assert(all.take(0) =~= Seq::<(Seq<char>, char)>::empty());
    while i < choices.len()
        invariant
            i <= choices@.len(),
            all == choices_view(choices@),
            out@ == render(all.take(i as int)),
        decreases choices@.len() - i,
    {
        let (k, j) = choices[i];
        let ghost prev = all.take(i as int);
        assert(all.take(i + 1).drop_last() =~= prev);
        assert(all.take(i + 1).last() == (k@, j));
        if i > 0 {
            proof {
                reveal_strlit(" | ");
            }
            push_str(&mut out, " | ");
            assert(" | "@ =~= seq![' ', '|', ' ']);
        }
        push_str(&mut out, k);
        push_char(&mut out, '→');
        push_char(&mut out, j);
        proof {
            if i == 0 {
                assert(out@ =~= k@ + seq!['→', j]);
                assert(all.take(1)[0] == (k@, j));
            } else {
                assert(out@ =~= render(prev) + seq![' ', '|', ' '] + k@ + seq!['→', j]);
            }
        }
        i = i + 1;
    }
    assert(all.take(choices@.len() as int) =~= all);
    out
}

} // verus!
