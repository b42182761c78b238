use bm_keyboard::hangul::{compose, decompose};

#[test]
fn compose_builds_syllables() {
    assert_eq!(compose(0, 0, 0), '가');
    assert_eq!(compose(18, 0, 4), '한');
    assert_eq!(compose(18, 20, 27), '힣');
}

#[test]
fn decompose_splits_syllables() {
    assert_eq!(decompose('한'), (18, 0, 4));
    assert_eq!(decompose('가'), (0, 0, 0));
    assert_eq!(decompose('힣'), (18, 20, 27));
}

#[test]
fn decompose_undoes_compose_for_every_syllable() {
    for i in 0..19 {
        for v in 0..21 {
            for f in 0..28 {
                assert_eq!(decompose(compose(i, v, f)), (i, v, f));
            }
        }
    }
}

#[test]
fn compose_undoes_decompose() {
    for c in ['가', '한', '글', '힣', '\u{AC01}'] {
        let (i, v, f) = decompose(c);
        assert_eq!(compose(i, v, f), c);
    }
}
