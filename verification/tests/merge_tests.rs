use stackmuncher::kwc::KwcEntry;
use stackmuncher::kwc::KwcSet;
use stackmuncher::report::Report;
use stackmuncher::tech::Tech;

fn blank_tech(language: &str) -> Tech {
    Tech {
        language: language.to_owned(),
        muncher_name: String::new(),
        file_name: None,
        commit_sha1: None,
        commit_date_epoch: None,
        commit_date_iso: None,
        files: 0,
        total_lines: 0,
        code_lines: 0,
        line_comments: 0,
        block_comments: 0,
        docs_comments: 0,
        inline_comments: 0,
        blank_lines: 0,
        bracket_only_lines: 0,
        keywords: KwcSet::new(),
        refs: KwcSet::new(),
        refs_kw: None,
        pkgs: KwcSet::new(),
        pkgs_kw: None,
        history: None,
        muncher_hash: 0,
    }
}

fn counted(token: &str, count: usize) -> KwcEntry {
    KwcEntry { token: token.to_owned(), kind: None, count }
}

fn report_with_tech(rows: Vec<Tech>) -> Report {
    let mut r = Report::new();
    for row in rows {
        r.merge_tech_record(row);
    }
    r
}

fn files_of(report: &Report, language: &str) -> usize {
    let mut total = 0;
    for t in report.tech.iter() {
        if t.language == language {
            total += t.files;
        }
    }
    total
}

fn refs_count(report: &Report, language: &str, token: &str) -> Option<usize> {
    for t in report.tech.iter() {
        if t.language == language {
            return t.refs.lookup(&token.to_owned());
        }
    }
    None
}

#[test]
fn test_merge() {
    let mut a_row = blank_tech("C#");
    a_row.files = 2;
    a_row.code_lines = 10;
    a_row.refs.increment(counted("System", 3));
    let mut a_md = blank_tech("Markdown");
    a_md.files = 1;
    let a = report_with_tech(vec![a_row, a_md]);

    let mut b_row = blank_tech("C#");
    b_row.files = 3;
    b_row.code_lines = 7;
    b_row.refs.increment(counted("System", 2));
    b_row.refs.increment(counted("Xunit", 1));
    let b = report_with_tech(vec![b_row]);

    let merged = Report::merge(None, a).unwrap();
    let merged = Report::merge(Some(merged), b).unwrap();

    assert_eq!(files_of(&merged, "C#"), 5, "C# file count");
    assert_eq!(files_of(&merged, "Markdown"), 1, "Markdown file count");
    assert_eq!(refs_count(&merged, "C#", "System"), Some(5), "C# refs count");
    assert_eq!(refs_count(&merged, "C#", "Xunit"), Some(1), "C# pkgs count stand-in");
}

#[test]
fn merge_recomputes_reference_summaries() {
    let mut row = blank_tech("Rust");
    row.files = 1;
    row.refs.increment(counted("serde.json", 2));
    let r = report_with_tech(vec![row]);
    let merged = Report::merge(None, r).unwrap();
    let tech = &merged.tech[0];
    let summary = tech.refs_kw.as_ref().expect("the merge populates refs_kw");
    assert_eq!(summary.lookup(&"serde".to_owned()), Some(2));
    assert_eq!(summary.lookup(&"json".to_owned()), Some(2));
}

#[test]
fn merge_is_commutative_on_the_tech_section() {
    let build_a = || {
        let mut row = blank_tech("Go");
        row.files = 2;
        row.refs.increment(counted("fmt", 1));
        Report::merge(None, report_with_tech(vec![row])).unwrap()
    };
    let build_b = || {
        let mut row = blank_tech("Go");
        row.files = 5;
        row.refs.increment(counted("fmt", 3));
        Report::merge(None, report_with_tech(vec![row])).unwrap()
    };
    let ab = Report::merge(Some(build_a()), build_b()).unwrap();
    let ba = Report::merge(Some(build_b()), build_a()).unwrap();
    assert_eq!(files_of(&ab, "Go"), files_of(&ba, "Go"));
    assert_eq!(refs_count(&ab, "Go", "fmt"), refs_count(&ba, "Go", "fmt"));
}

#[test]
fn merge_without_a_master_clears_unprocessed_names() {
    let mut r = Report::new();
    r.add_unprocessed_file(&"mystery.bin".to_owned());
    let merged = Report::merge(None, r).unwrap();
    assert!(merged.unprocessed_file_names.is_empty());
}

#[test]
fn merge_takes_the_later_head_and_the_earlier_init() {
    let mut a = Report::new();
    a.date_head = Some("2021-05-01T00:00:00+00:00".to_owned());
    a.date_init = Some("2019-01-01T00:00:00+00:00".to_owned());
    let mut b = Report::new();
    b.date_head = Some("2022-01-01T00:00:00+00:00".to_owned());
    b.date_init = Some("2020-01-01T00:00:00+00:00".to_owned());
    let merged = Report::merge(Some(a), b).unwrap();
    assert_eq!(merged.date_head, Some("2022-01-01T00:00:00+00:00".to_owned()));
    assert_eq!(merged.date_init, Some("2019-01-01T00:00:00+00:00".to_owned()));
}

#[test]
fn contributor_merge_recency() {
    let mut older = blank_tech("Go");
    older.muncher_name = "go".to_owned();
    older.file_name = Some("a.go".to_owned());
    older.commit_date_epoch = Some(100);
    older.code_lines = 11;
    let mut report_a = Report::new();
    report_a.per_file_tech.push(older);

    let mut newer = blank_tech("Go");
    newer.muncher_name = "go".to_owned();
    newer.file_name = Some("a.go".to_owned());
    newer.commit_date_epoch = Some(200);
    newer.code_lines = 22;
    let mut report_b = Report::new();
    report_b.per_file_tech.push(newer);

    report_a.merge_contributor_reports(report_b, "u".to_owned());
    assert_eq!(report_a.per_file_tech.len(), 1);
    assert_eq!(report_a.per_file_tech[0].commit_date_epoch, Some(200));
    assert_eq!(report_a.per_file_tech[0].code_lines, 22);
    assert!(report_a.git_ids_included.contains(&"u".to_owned()));
}

#[test]
fn contributor_merge_keeps_the_newer_record_it_already_has() {
    let mut newer = blank_tech("Go");
    newer.file_name = Some("a.go".to_owned());
    newer.commit_date_epoch = Some(300);
    let mut report_a = Report::new();
    report_a.per_file_tech.push(newer);

    let mut older = blank_tech("Go");
    older.file_name = Some("a.go".to_owned());
    older.commit_date_epoch = Some(100);
    let mut report_b = Report::new();
    report_b.per_file_tech.push(older);

    report_a.merge_contributor_reports(report_b, "u".to_owned());
    assert_eq!(report_a.per_file_tech.len(), 1);
    assert_eq!(report_a.per_file_tech[0].commit_date_epoch, Some(300));
}

#[test]
fn recompute_tech_section_is_idempotent() {
    let mut per_file = blank_tech("Rust");
    per_file.muncher_name = "rust".to_owned();
    per_file.file_name = Some("main.rs".to_owned());
    per_file.files = 1;
    per_file.code_lines = 9;
    let mut r = Report::new();
    r.per_file_tech.push(per_file);
    r.recompute_tech_section();
    let first: Vec<(String, usize, usize)> =
        r.tech.iter().map(|t| (t.language.clone(), t.files, t.code_lines)).collect();
    r.recompute_tech_section();
    let second: Vec<(String, usize, usize)> =
        r.tech.iter().map(|t| (t.language.clone(), t.files, t.code_lines)).collect();
    assert_eq!(first, second);
    assert_eq!(first, vec![("Rust".to_owned(), 1, 9)]);
    assert_eq!(r.tech[0].muncher_name, "", "aggregated rows drop the muncher name");
}
