use stackmuncher::kwc::KwcEntry;
use stackmuncher::kwc::KwcSet;

fn entry(token: &str, count: usize) -> KwcEntry {
    KwcEntry { token: token.to_owned(), kind: None, count }
}

#[test]
fn increment_inserts_fresh_token() {
    let mut set = KwcSet::new();
    set.increment(entry("serde", 1));
    assert_eq!(set.lookup(&"serde".to_owned()), Some(1));
    assert_eq!(set.lookup(&"regex".to_owned()), None);
}

#[test]
fn increment_accumulates_counts() {
    let mut set = KwcSet::new();
    set.increment(entry("serde", 1));
    set.increment(entry("serde", 4));
    assert_eq!(set.lookup(&"serde".to_owned()), Some(5));
}

#[test]
fn increment_saturates_at_the_machine_limit() {
    let mut set = KwcSet::new();
    set.increment(entry("serde", usize::MAX - 1));
    set.increment(entry("serde", 7));
    assert_eq!(set.lookup(&"serde".to_owned()), Some(usize::MAX));
}

#[test]
fn merge_adds_counts_per_token() {
    let mut a = KwcSet::new();
    a.increment(entry("alpha", 2));
    a.increment(entry("beta", 1));
    let mut b = KwcSet::new();
    b.increment(entry("beta", 3));
    b.increment(entry("gamma", 5));
    a.merge(&b);
    assert_eq!(a.lookup(&"alpha".to_owned()), Some(2));
    assert_eq!(a.lookup(&"beta".to_owned()), Some(4));
    assert_eq!(a.lookup(&"gamma".to_owned()), Some(5));
}

#[test]
fn merge_is_commutative_on_counts() {
    let mut a = KwcSet::new();
    a.increment(entry("x", 2));
    a.increment(entry("y", 1));
    let mut b = KwcSet::new();
    b.increment(entry("y", 9));
    b.increment(entry("z", 4));
    let mut ab = a.duplicate();
    ab.merge(&b);
    let mut ba = b.duplicate();
    ba.merge(&a);
    for token in ["x", "y", "z"] {
        assert_eq!(ab.lookup(&token.to_owned()), ba.lookup(&token.to_owned()));
    }
}

#[test]
fn summarize_splits_tokens_into_identifier_runs() {
    let mut set = KwcSet::new();
    set.increment(entry("serde.json", 2));
    set.increment(entry("json", 1));
    let summary = set.summarize();
    assert_eq!(summary.lookup(&"serde".to_owned()), Some(2));
    assert_eq!(summary.lookup(&"json".to_owned()), Some(3));
    assert_eq!(summary.lookup(&"serde.json".to_owned()), None);
}

#[test]
fn summarize_of_empty_set_is_empty() {
    let set = KwcSet::new();
    assert!(set.summarize().is_empty());
}
