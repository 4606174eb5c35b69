use ribbit::hallucinations::strip;

#[test]
fn whole_text_is_phantom() {
    assert_eq!(strip("Продолжение следует..."), "");
    assert_eq!(strip("  продолжение следует  "), "");
    assert_eq!(strip("Продолжение следует…"), "");
}

#[test]
fn trailing_phantom_after_real_text() {
    assert_eq!(strip("Давай начнём с аудита. Продолжение следует..."), "Давай начнём с аудита.");
    assert_eq!(strip("глянь что там с ribbit Продолжение следует..."), "глянь что там с ribbit");
}

#[test]
fn leaves_clean_text_untouched() {
    assert_eq!(strip("Обычный текст без артефакта."), "Обычный текст без артефакта.");
    assert_eq!(strip(""), "");
}

#[test]
fn a_phantom_in_the_middle_stays() {
    let t = "Продолжение следует, сказал он, и ушёл";
    assert_eq!(strip(t), t);
}

#[test]
fn strip_keeps_a_prefix_of_the_text() {
    let t = "Тест.   продолжение следует...";
    let s = strip(t);
    assert!(t.starts_with(&s));
    assert_eq!(s, "Тест.");
}

#[test]
fn other_trailing_punctuation_hides_the_phantom() {
    let t = "Тест. продолжение следует!!";
    assert_eq!(strip(t), t);
}
