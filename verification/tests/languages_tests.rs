use lemon_tokei::languages::{
    counts_fit, ranking_language, select_languages, sort_by_code_desc, totals, LanguageStats,
};

fn lang(name: &str, code: usize, comments: usize, blanks: usize, files: usize) -> LanguageStats {
    LanguageStats { name: name.to_string(), code, comments, blanks, files }
}

fn names(v: &[LanguageStats]) -> Vec<String> {
    v.iter().map(|l| l.name.clone()).collect()
}

fn sample() -> Vec<LanguageStats> {
    vec![
        lang("JSON", 10, 0, 1, 2),
        lang("Markdown", 300, 0, 40, 3),
        lang("Rust", 1200, 150, 90, 12),
        lang("TOML", 10, 1, 2, 1),
        lang("YAML", 300, 5, 4, 2),
    ]
}

#[test]
fn sorted_by_code_most_first_and_stable() {
    let sorted = sort_by_code_desc(sample());
    assert_eq!(names(&sorted), vec!["Rust", "Markdown", "YAML", "JSON", "TOML"]);
    assert!(sort_by_code_desc(Vec::new()).is_empty());
}

#[test]
fn selection_by_language_type() {
    let sorted = sort_by_code_desc(sample());
    let sel = select_languages(sorted, "JSON,Rust,Markdown");
    assert_eq!(names(&sel), vec!["Rust", "Markdown", "JSON"]);
}

#[test]
fn selection_is_case_insensitive_and_ignores_unknown() {
    let sel = select_languages(sample(), "rust,NotALanguage");
    assert_eq!(names(&sel), vec!["Rust"]);
}

#[test]
fn selection_without_known_language_keeps_all() {
    assert_eq!(names(&select_languages(sample(), "")), names(&sample()));
    assert_eq!(names(&select_languages(sample(), "Nope,Neither")), names(&sample()));
}

#[test]
fn selection_with_spaces_does_not_match() {
    // The list is split on commas only; " Rust" names no language.
    let sel = select_languages(sample(), "JSON, Rust");
    assert_eq!(names(&sel), vec!["JSON"]);
}

#[test]
fn ranking_texts() {
    let sorted = sort_by_code_desc(sample());
    assert_eq!(ranking_language(false, &sorted, 1), "");
    assert_eq!(ranking_language(true, &sorted, 1), "Rust");
    assert_eq!(ranking_language(true, &sorted, 2), "Markdown");
    assert_eq!(ranking_language(true, &sorted, 5), "TOML");
    assert_eq!(ranking_language(true, &sorted, 0), "N/A");
    assert_eq!(ranking_language(true, &sorted, 6), "N/A");
    assert_eq!(ranking_language(true, &Vec::new(), 1), "No Languages");
}

#[test]
fn totals_add_up() {
    let v = sample();
    assert!(counts_fit(&v));
    let t = totals(&v);
    assert_eq!(t.code, 1820);
    assert_eq!(t.comments, 156);
    assert_eq!(t.blanks, 137);
    assert_eq!(t.files, 20);
    assert_eq!(t.lines(), 1820 + 156 + 137);
}

#[test]
fn totals_that_overflow_are_detected() {
    let v = vec![lang("A", usize::MAX, 0, 0, 0), lang("B", 1, 0, 0, 0)];
    assert!(!counts_fit(&v));
    let v = vec![lang("A", usize::MAX - 1, 1, 0, 0)];
    assert!(counts_fit(&v));
    let v = vec![lang("A", usize::MAX - 1, 1, 1, 0)];
    assert!(!counts_fit(&v));
}

#[test]
fn sorting_keeps_every_entry() {
    let mut before = names(&sample());
    let mut after = names(&sort_by_code_desc(sample()));
    before.sort();
    after.sort();
    assert_eq!(before, after);
    let sorted = sort_by_code_desc(sample());
    for w in sorted.windows(2) {
        assert!(w[0].code >= w[1].code);
    }
}

#[test]
fn most_used_language_has_most_code() {
    let sorted = sort_by_code_desc(sample());
    let top = ranking_language(true, &sorted, 1);
    let max = sample().iter().map(|l| l.code).max().unwrap();
    assert_eq!(sorted[0].code, max);
    assert_eq!(top, sorted[0].name);
}

#[test]
fn empty_pieces_name_no_language() {
    assert_eq!(names(&select_languages(sample(), ",,")), names(&sample()));
    assert_eq!(names(&select_languages(sample(), ",Rust,")), vec!["Rust"]);
}
