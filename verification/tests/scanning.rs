use translation_checker::extract::extract_keys;
use translation_checker::keys::KeySet;
use translation_checker::scan::{is_source_extension, visit, Visit};

#[test]
fn the_four_source_extensions_are_scanned() {
    assert!(is_source_extension("js"));
    assert!(is_source_extension("jsx"));
    assert!(is_source_extension("ts"));
    assert!(is_source_extension("tsx"));
}

#[test]
fn other_extensions_are_not_scanned() {
    assert!(!is_source_extension(""));
    assert!(!is_source_extension("css"));
    assert!(!is_source_extension("json"));
    assert!(!is_source_extension("TS"));
    assert!(!is_source_extension(".ts"));
    assert!(!is_source_extension("tsxx"));
    assert!(!is_source_extension("j"));
    assert!(!is_source_extension("mjs"));
}

#[test]
fn visit_descends_into_directories_whatever_their_name() {
    assert_eq!(visit(true, ""), Visit::Descend);
    assert_eq!(visit(true, "ts"), Visit::Descend);
    assert_eq!(visit(true, "css"), Visit::Descend);
}

#[test]
fn visit_extracts_from_source_files_and_skips_the_rest() {
    assert_eq!(visit(false, "ts"), Visit::Extract);
    assert_eq!(visit(false, "jsx"), Visit::Extract);
    assert_eq!(visit(false, "css"), Visit::Skip);
    assert_eq!(visit(false, ""), Visit::Skip);
}

#[test]
fn only_source_files_of_a_directory_contribute_keys() {
    let files = [
        ("app/page.ts", "ts", "t('title')"),
        ("app/page.css", "css", ".t('x') { content: t('ghost'); }"),
    ];
    let mut keys = KeySet::new();
    for (path, extension, content) in files {
        match visit(false, extension) {
            Visit::Extract => keys.extend(&extract_keys(path, content).expect("extraction succeeds")),
            Visit::Skip => {}
            Visit::Descend => panic!("a file is not descended into"),
        }
    }
    assert_eq!(keys.keys().clone(), vec!["title".to_string()]);
}
