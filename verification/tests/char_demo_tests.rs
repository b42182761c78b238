use bm_keyboard::char_demo::CharScanner;

fn scan(input: &str) -> Vec<Vec<(&'static str, char)>> {
    let mut s = CharScanner::default();
    s.scan(input);
    s.tokens().to_vec()
}

#[test]
fn variants_offer_ranked_choices() {
    assert_eq!(scan("yo"), vec![vec![("yo", 'ㅛ'), ("yeo", 'ㅕ')]]);
    assert_eq!(scan("gg"), vec![vec![("kk", 'ㄲ'), ("g", 'ㄱ')]]);
    assert_eq!(scan("o"), vec![vec![("o", 'ㅗ'), ("eo", 'ㅓ')]]);
}

#[test]
fn canonical_spellings_offer_themselves() {
    assert_eq!(
        scan("babo"),
        vec![
            vec![("b", 'ㅂ')],
            vec![("a", 'ㅏ')],
            vec![("b", 'ㅂ')],
            vec![("o", 'ㅗ'), ("eo", 'ㅓ')],
        ]
    );
    assert_eq!(scan("choi"), vec![vec![("ch", 'ㅊ')], vec![("oe", 'ㅚ')]]);
    assert_eq!(
        scan("annyeong"),
        vec![
            vec![("a", 'ㅏ')],
            vec![("n", 'ㄴ')],
            vec![("n", 'ㄴ')],
            vec![("yeo", 'ㅕ')],
            vec![("n", 'ㄴ')],
            vec![("g", 'ㄱ')],
        ]
    );
}

#[test]
fn unknown_characters_are_skipped() {
    assert_eq!(scan("x-z"), Vec::<Vec<(&str, char)>>::new());
    assert_eq!(scan("xa"), vec![vec![("a", 'ㅏ')]]);
}

#[test]
fn lookup_reports_consumed_length() {
    assert_eq!(
        CharScanner::lookup("yeok"),
        Some((3, vec![("yeo", 'ㅕ')]))
    );
    assert_eq!(
        CharScanner::lookup("oiq"),
        Some((2, vec![("oe", 'ㅚ')]))
    );
    assert_eq!(CharScanner::lookup("q"), None);
    assert_eq!(CharScanner::lookup(""), None);
}

#[test]
fn scans_accumulate() {
    let mut s = CharScanner::default();
    s.scan("a");
    s.scan("yo");
    assert_eq!(s.tokens().len(), 2);
}
