use stackmuncher::muncher::Muncher;
use stackmuncher::muncher::MuncherSources;
use stackmuncher::processor::process_file;
use stackmuncher::processor::split_into_lines;
use stackmuncher::strset::StrSet;
use stackmuncher::tech::Tech;

fn bare_sources(language: &str) -> MuncherSources {
    MuncherSources {
        language: language.to_owned(),
        keywords: None,
        bracket_only: None,
        line_comments: None,
        inline_comments: None,
        doc_comments: None,
        block_comments_start: None,
        block_comments_end: None,
        refs: None,
        packages: None,
    }
}

fn run(muncher: &Muncher, contents: &str, tree: Option<&StrSet>) -> Tech {
    process_file(
        &"main.x".to_owned(),
        muncher,
        &"0000".to_owned(),
        100,
        &"2020-01-01T00:00:00+00:00".to_owned(),
        &contents.as_bytes().to_vec(),
        tree,
    )
}

#[test]
fn single_file_c_repo() {
    let mut s = bare_sources("C");
    s.bracket_only = Some(vec!["^\\s*[{}();]+\\s*$".to_owned()]);
    let muncher = Muncher::new(s, &"c".to_owned()).unwrap();
    let t = run(&muncher, "int main(){return 0;}\n", None);
    assert_eq!(t.files, 1);
    assert_eq!(t.total_lines, 1);
    assert_eq!(t.code_lines, 1);
    assert_eq!(t.line_comments, 0);
    assert_eq!(t.block_comments, 0);
    assert_eq!(t.docs_comments, 0);
    assert_eq!(t.inline_comments, 0);
    assert_eq!(t.blank_lines, 0);
    assert_eq!(t.bracket_only_lines, 0);
}

#[test]
fn local_import_suppression() {
    let mut s = bare_sources("Python");
    s.refs = Some(vec!["^\\s*import\\s+(\\w+)".to_owned()]);
    let muncher = Muncher::new(s, &"python".to_owned()).unwrap();
    let mut tree = StrSet::new();
    tree.insert("foo.py".to_owned());
    tree.insert("bar.py".to_owned());
    let t = process_file(
        &"foo.py".to_owned(),
        &muncher,
        &"0000".to_owned(),
        100,
        &"2020-01-01T00:00:00+00:00".to_owned(),
        &"import bar\n".as_bytes().to_vec(),
        Some(&tree),
    );
    assert_eq!(t.total_lines, 1);
    assert_eq!(t.code_lines, 1);
    assert!(t.refs.is_empty(), "local imports must be suppressed");
}

#[test]
fn imports_of_outside_modules_are_kept() {
    let mut s = bare_sources("Python");
    s.refs = Some(vec!["^\\s*import\\s+(\\w+)".to_owned()]);
    let muncher = Muncher::new(s, &"python".to_owned()).unwrap();
    let mut tree = StrSet::new();
    tree.insert("foo.py".to_owned());
    let t = run(&muncher, "import requests\n", Some(&tree));
    assert_eq!(t.refs.lookup(&"requests".to_owned()), Some(1));
}

#[test]
fn block_comment_across_lines() {
    let mut s = bare_sources("C");
    s.block_comments_start = Some(vec!["/\\*".to_owned()]);
    s.block_comments_end = Some(vec!["\\*/".to_owned()]);
    let muncher = Muncher::new(s, &"c".to_owned()).unwrap();
    let t = run(&muncher, "/*\n x\n*/\n", None);
    assert_eq!(t.total_lines, 3);
    assert_eq!(t.block_comments, 3);
    assert_eq!(t.code_lines, 0);
}

#[test]
fn one_line_block_comment_does_not_open_a_block() {
    let mut s = bare_sources("C");
    s.block_comments_start = Some(vec!["/\\*".to_owned()]);
    s.block_comments_end = Some(vec!["\\*/".to_owned()]);
    let muncher = Muncher::new(s, &"c".to_owned()).unwrap();
    let t = run(&muncher, "/* x */\ncode here\n", None);
    assert_eq!(t.block_comments, 1);
    assert_eq!(t.code_lines, 1);
}

#[test]
fn empty_file_counts_nothing() {
    let muncher = Muncher::new(bare_sources("C"), &"c".to_owned()).unwrap();
    let t = run(&muncher, "", None);
    assert_eq!(t.files, 1);
    assert_eq!(t.total_lines, 0);
    assert_eq!(t.code_lines, 0);
    assert_eq!(t.blank_lines, 0);
}

#[test]
fn classification_order_prefers_comments_over_code() {
    let mut s = bare_sources("Rust");
    s.line_comments = Some(vec!["^\\s*//".to_owned()]);
    s.doc_comments = Some(vec!["^\\s*///".to_owned()]);
    let muncher = Muncher::new(s, &"rust".to_owned()).unwrap();
    let t = run(&muncher, "/// doc\n// plain\nlet x = 1;\n\n", None);
    assert_eq!(t.total_lines, 4);
    assert_eq!(t.docs_comments, 1);
    assert_eq!(t.line_comments, 1);
    assert_eq!(t.code_lines, 1);
    assert_eq!(t.blank_lines, 1);
}

#[test]
fn counters_always_sum_to_total_lines() {
    let mut s = bare_sources("Rust");
    s.line_comments = Some(vec!["^\\s*//".to_owned()]);
    s.block_comments_start = Some(vec!["/\\*".to_owned()]);
    s.block_comments_end = Some(vec!["\\*/".to_owned()]);
    s.bracket_only = Some(vec!["^\\s*[{}();]+\\s*$".to_owned()]);
    let muncher = Muncher::new(s, &"rust".to_owned()).unwrap();
    let t = run(
        &muncher,
        "fn main() {\n    // a comment\n    let x = 1;\n\n    /* block\n       still block */\n}\n",
        None,
    );
    let summed = t.code_lines + t.line_comments + t.block_comments + t.docs_comments
        + t.inline_comments + t.blank_lines + t.bracket_only_lines;
    assert_eq!(t.total_lines, summed);
    assert_eq!(t.total_lines, 7);
    assert_eq!(t.block_comments, 2);
    assert_eq!(t.blank_lines, 1);
    assert_eq!(t.bracket_only_lines, 1);
}

#[test]
fn binary_bytes_count_as_empty() {
    let muncher = Muncher::new(bare_sources("C"), &"c".to_owned()).unwrap();
    // invalid UTF-8; the WINDOWS-1252 fallback still decodes it
    let bytes: Vec<u8> = vec![0xff, 0xfe, 0x41, 0x0a, 0x42];
    let t = process_file(
        &"blob.bin".to_owned(),
        &muncher,
        &"0000".to_owned(),
        1,
        &"2020-01-01T00:00:00+00:00".to_owned(),
        &bytes,
        None,
    );
    let summed = t.code_lines + t.line_comments + t.block_comments + t.docs_comments
        + t.inline_comments + t.blank_lines + t.bracket_only_lines;
    assert_eq!(t.total_lines, summed);
}

#[test]
fn lines_split_on_every_break_convention() {
    let lines = split_into_lines(&"a\r\nb\rc\nd".to_owned());
    assert_eq!(lines, vec!["a".to_owned(), "b".to_owned(), "c".to_owned(), "d".to_owned()]);
}

#[test]
fn trailing_line_is_dropped_exactly_when_empty() {
    assert_eq!(split_into_lines(&"a\n".to_owned()), vec!["a".to_owned()]);
    assert_eq!(split_into_lines(&"a\n\n".to_owned()), vec!["a".to_owned(), "".to_owned()]);
    assert_eq!(split_into_lines(&"".to_owned()), Vec::<String>::new());
}

#[test]
fn keywords_are_harvested_from_code_lines_only() {
    let mut s = bare_sources("Rust");
    s.line_comments = Some(vec!["^\\s*//".to_owned()]);
    s.keywords = Some(vec!["unsafe".to_owned()]);
    let muncher = Muncher::new(s, &"rust".to_owned()).unwrap();
    let t = run(&muncher, "// unsafe in a comment\nunsafe { x() };\n", None);
    assert_eq!(t.keywords.lookup(&"unsafe".to_owned()), Some(1));
}
