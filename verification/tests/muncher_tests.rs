use stackmuncher::muncher::Muncher;
use stackmuncher::muncher::MuncherSources;

fn sources(language: &str) -> MuncherSources {
    MuncherSources {
        language: language.to_owned(),
        keywords: None,
        bracket_only: None,
        line_comments: None,
        inline_comments: None,
        doc_comments: None,
        block_comments_start: None,
        block_comments_end: None,
        refs: None,
        packages: None,
    }
}

fn rust_like_sources() -> MuncherSources {
    let mut s = sources("Rust");
    s.line_comments = Some(vec!["^\\s*//".to_owned()]);
    s.block_comments_start = Some(vec!["/\\*".to_owned()]);
    s.block_comments_end = Some(vec!["\\*/".to_owned()]);
    s.refs = Some(vec!["^\\s*use\\s+(\\w+)".to_owned()]);
    s
}

#[test]
fn loading_compiles_every_pattern() {
    let m = Muncher::new(rust_like_sources(), &"rust".to_owned()).unwrap();
    assert_eq!(m.muncher_name, "rust");
    assert_eq!(m.language, "Rust");
    assert!(m.brand_new);
}

#[test]
fn loading_fails_atomically_and_reports_every_bad_pattern() {
    let mut s = rust_like_sources();
    s.refs = Some(vec!["(".to_owned(), "^ok$".to_owned(), "[".to_owned()]);
    let errs = match Muncher::new(s, &"rust".to_owned()) {
        Err(errs) => errs,
        Ok(_) => panic!("a muncher with refused patterns must not load"),
    };
    assert_eq!(errs, vec!["(".to_owned(), "[".to_owned()]);
}

#[test]
fn identical_sources_give_identical_fingerprints() {
    let a = Muncher::new(rust_like_sources(), &"rust".to_owned()).unwrap();
    let b = Muncher::new(rust_like_sources(), &"rust".to_owned()).unwrap();
    assert_eq!(a.muncher_hash, b.muncher_hash);
}

#[test]
fn changing_a_rule_source_changes_the_fingerprint() {
    let a = Muncher::new(rust_like_sources(), &"rust".to_owned()).unwrap();
    let mut changed = rust_like_sources();
    changed.line_comments = Some(vec!["^\\s*#".to_owned()]);
    let b = Muncher::new(changed, &"rust".to_owned()).unwrap();
    assert!(a.muncher_hash != b.muncher_hash);
}

#[test]
fn changing_the_name_changes_the_fingerprint() {
    let a = Muncher::new(rust_like_sources(), &"rust".to_owned()).unwrap();
    let b = Muncher::new(rust_like_sources(), &"rust2".to_owned()).unwrap();
    assert!(a.muncher_hash != b.muncher_hash);
}

#[test]
fn an_absent_list_and_an_empty_list_fingerprint_apart() {
    let a = Muncher::new(sources("X"), &"x".to_owned()).unwrap();
    let mut with_empty = sources("X");
    with_empty.keywords = Some(Vec::new());
    let b = Muncher::new(with_empty, &"x".to_owned()).unwrap();
    assert!(a.muncher_hash != b.muncher_hash);
}

#[test]
fn add_regex_to_list_reports_compilation() {
    let mut list = None;
    assert!(Muncher::add_regex_to_list(&mut list, &"^a+$".to_owned()));
    assert!(!Muncher::add_regex_to_list(&mut list, &"(".to_owned()));
    assert!(Muncher::add_regex_to_list(&mut list, &"b".to_owned()));
    assert_eq!(list.unwrap().len(), 2);
}
