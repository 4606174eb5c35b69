use ribbit::vocab::{add_alias, apply, build_lookup, match_case, remove_alias, remove_entry, VocabEntry};

fn entry(target: &str, aliases: &[&str]) -> VocabEntry {
    VocabEntry { target: target.to_string(), aliases: aliases.iter().map(|a| a.to_string()).collect() }
}

#[test]
fn test_match_case() {
    assert_eq!(match_case("деф", "dev"), "dev");
    assert_eq!(match_case("Деф", "dev"), "Dev");
    assert_eq!(match_case("ДЕФ", "dev"), "DEV");
    assert_eq!(match_case("hello", "world"), "world");
    assert_eq!(match_case("Hello", "world"), "World");
    assert_eq!(match_case("HELLO", "world"), "WORLD");
}

#[test]
fn test_apply_with_empty_vocab() {
    let text = "hello world";
    assert_eq!(apply(text, &[]), text);
}

#[test]
fn recorded_stt_text_maps_through_strict_vocab() {
    let vocab = [entry("merge", &["мёрж", "мерж"])];
    assert_eq!(apply("надо сделать мёрж этой ветки", &vocab), "надо сделать merge этой ветки");
}

#[test]
fn recorded_edit_maps_the_term_after_the_editor() {
    let vocab = [entry("merge", &["мёрж", "мерж"])];
    assert_eq!(apply("Надо сделать мёрж этой ветки.", &vocab), "Надо сделать merge этой ветки.");
}

#[test]
fn single_words_match_whole_words_only_and_keep_case() {
    let vocab = [entry("dev", &["деф"])];
    assert_eq!(apply("Деф и ДЕФ и деф", &vocab), "Dev и DEV и dev");
    assert_eq!(apply("дефолт остался", &vocab), "дефолт остался");
    assert_eq!(apply("деф_x", &vocab), "деф_x");
}

#[test]
fn phrases_are_replaced_longest_first() {
    let vocab = [entry("Kubernetes", &["куб нет"]), entry("K8s cluster", &["куб нет кластер"])];
    assert_eq!(apply("подними куб нет кластер и куб нет", &vocab), "подними K8s cluster и Kubernetes");
}

#[test]
fn a_phrase_glued_to_a_word_is_left_alone() {
    let vocab = [entry("Alrosa", &["ал роса"])];
    assert_eq!(apply("декал роса", &vocab), "декал роса");
    assert_eq!(apply("Ал роса.", &vocab), "Alrosa.");
}

#[test]
fn the_inverted_table_is_lowercase_and_the_later_entry_wins() {
    let vocab = [entry("A", &["Foo"]), entry("B", &["foo", "bar"])];
    let lookup = build_lookup(&vocab);
    assert_eq!(lookup.len(), 2);
    assert_eq!((lookup[0].key.as_str(), lookup[0].target.as_str()), ("foo", "B"));
    assert_eq!((lookup[1].key.as_str(), lookup[1].target.as_str()), ("bar", "B"));
}

#[test]
fn teaching_and_forgetting_aliases() {
    let mut v: Vec<VocabEntry> = Vec::new();
    add_alias(&mut v, "merge", "мёрж");
    add_alias(&mut v, "merge", "МЁРЖ");
    assert_eq!(v.len(), 1);
    assert_eq!(v[0].aliases, vec!["мёрж".to_string()]);
    add_alias(&mut v, "merge", "мерж");
    assert_eq!(v[0].aliases.len(), 2);
    remove_alias(&mut v, "merge", "МЕРЖ");
    assert_eq!(v[0].aliases, vec!["мёрж".to_string()]);
    remove_alias(&mut v, "merge", "мёрж");
    assert!(v.is_empty(), "an entry without aliases goes");
    add_alias(&mut v, "dev", "деф");
    remove_entry(&mut v, "dev");
    assert!(v.is_empty());
    remove_entry(&mut v, "nothing");
    assert!(v.is_empty());
}

#[test]
fn a_dotted_capital_i_elsewhere_does_not_stop_the_phrase_pass() {
    let vocab = [entry("Alrosa", &["ал роса"])];
    assert_eq!(apply("İzmir и Ал роса", &vocab), "İzmir и Alrosa");
}
