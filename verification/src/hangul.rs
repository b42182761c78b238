use vstd::prelude::*;

verus! {

/// Whether `v` is the value of some `char`: a Unicode scalar value, at most
/// 0x10FFFF and outside the surrogate range 0xD800..=0xDFFF.
pub open spec fn is_char_value(v: int) -> bool {
    (0 <= v <= 0xD7FF) || (0xE000 <= v <= 0x10FFFF)
}

/// The `char` with value `v`, if there is one.
///
/// Trusted: calls `char::from_u32`, which std documents to return `None`
/// exactly when `v` is not a valid `char` (a surrogate or above 0x10FFFF),
/// and otherwise the `char` of that value.
#[verifier::external_body]
pub fn char_from_u32(v: u32) -> (r: Option<char>)
    ensures
        r is Some <==> is_char_value(v as int),
        r matches Some(c) ==> c as u32 == v,
{
    char::from_u32(v)
}

/// The code point of the precomposed syllable with the given initial,
/// vowel and final indices: 0xAC00 + initial * 588 + vowel * 28 + final.
pub open spec fn syllable_code(initial: int, vowel: int, final_: int) -> int {
    0xAC00 + initial * 588 + vowel * 28 + final_
}

/// The initial, vowel and final indices that `code` decomposes into,
/// counting from 0xAC00.
pub open spec fn syllable_parts(code: int) -> (int, int, int) {
    let s = code - 0xAC00;
    (s / 588, (s % 588) / 28, s % 28)
}

/// Whether the indices name one of the 11172 precomposed syllables.
pub open spec fn valid_parts(initial: int, vowel: int, final_: int) -> bool {
    0 <= initial < 19 && 0 <= vowel < 21 && 0 <= final_ < 28
}

/// Composes a syllable from initial, vowel and final indices. The code
/// point must be a `char`, which holds for all valid indices.
pub fn compose(initial: u32, vowel: u32, final_: u32) -> (c: char)
    requires
        is_char_value(syllable_code(initial as int, vowel as int, final_ as int)),
    ensures
        c as u32 == syllable_code(initial as int, vowel as int, final_ as int),
{
    let codepoint = 0xAC00 + initial * 588 + vowel * 28 + final_;
    match char_from_u32(codepoint) {
        Some(c) => c,
        None => '\0',
    }
}

/// Splits a syllable into its initial, vowel and final indices. The
/// character must not lie below 0xAC00.
pub fn decompose(syllable: char) -> (parts: (u32, u32, u32))
    requires
        syllable as u32 >= 0xAC00,
    ensures
        (parts.0 as int, parts.1 as int, parts.2 as int) == syllable_parts(syllable as u32 as int),
{
    let s = syllable as u32 - 0xAC00;
    let initial = s / 588;
    let vowel = (s % 588) / 28;
    let final_ = s % 28;
    (initial, vowel, final_)
}

/// Valid indices compose to a `char` (within the syllable block
/// 0xAC00..=0xD7A3), and decomposing it gives the indices back.
pub proof fn law_decompose_undoes_compose(initial: int, vowel: int, final_: int)
    requires
        valid_parts(initial, vowel, final_),
    ensures
        0xAC00 <= syllable_code(initial, vowel, final_) <= 0xD7A3,
        is_char_value(syllable_code(initial, vowel, final_)),
        syllable_parts(syllable_code(initial, vowel, final_)) == (initial, vowel, final_),
{
    let s = initial * 588 + vowel * 28 + final_;
    assert(0 <= vowel * 28 + final_ < 588) by (nonlinear_arith)
        requires
            0 <= vowel < 21,
            0 <= final_ < 28,
    ;
    assert(s / 588 == initial && s % 588 == vowel * 28 + final_) by (nonlinear_arith)
        requires
            s == initial * 588 + (vowel * 28 + final_),
            0 <= vowel * 28 + final_ < 588,
            0 <= initial,
    ;
    assert((vowel * 28 + final_) / 28 == vowel && (vowel * 28 + final_) % 28 == final_)
        by (nonlinear_arith)
        requires
            0 <= final_ < 28,
            0 <= vowel,
    ;
    assert(initial * 588 <= 18 * 588) by (nonlinear_arith)
        requires
            0 <= initial < 19,
    ;
}

/// The syllables are numbered from 0xAC00 in order of initial, then vowel,
/// then final: the first syllable is 0xAC00, the next final is the next code
/// point, after the last final comes the next vowel with no final, and
/// after the last vowel comes the next initial with the first vowel.
pub proof fn law_syllables_are_numbered_in_order(initial: int, vowel: int, final_: int)
    requires
        valid_parts(initial, vowel, final_),
    ensures
        syllable_code(0, 0, 0) == 0xAC00,
        final_ + 1 < 28 ==> syllable_code(initial, vowel, final_ + 1) == syllable_code(initial, vowel, final_) + 1,
        vowel + 1 < 21 ==> syllable_code(initial, vowel + 1, 0) == syllable_code(initial, vowel, 27) + 1,
        initial + 1 < 19 ==> syllable_code(initial + 1, 0, 0) == syllable_code(initial, 20, 27) + 1,
{
}

/// Any character from 0xAC00 on decomposes into indices that compose back
/// into it.
pub proof fn law_compose_undoes_decompose(code: int)
    requires
        code >= 0xAC00,
    ensures
        syllable_code(syllable_parts(code).0, syllable_parts(code).1, syllable_parts(code).2)
            == code,
{
    let s = code - 0xAC00;
    assert(s == (s / 588) * 588 + ((s % 588) / 28) * 28 + (s % 588) % 28) by (nonlinear_arith)
        requires
            s >= 0,
    ;
    assert((s % 588) % 28 == s % 28) by (nonlinear_arith)
        requires
            s >= 0,
    ;
}

} // verus!
