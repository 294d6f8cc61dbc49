use stackmuncher::report::Report;
use stackmuncher::strset::StrSet;

#[test]
fn a_fresh_report_is_blank() {
    let r = Report::new();
    assert_eq!(r.report_id.len(), 36);
    assert!(!r.timestamp.is_empty());
    assert!(r.tech.is_empty());
    assert!(r.per_file_tech.is_empty());
    assert!(r.date_head.is_none());
    assert!(!r.is_single_commit);
}

#[test]
fn s3_names_join_user_repo_and_suffix() {
    let name = Report::generate_report_s3_name(&"rimutaka".to_owned(), &"stm".to_owned(), None);
    assert_eq!(name, "rimutaka/stm.report");
    let contributor = Report::generate_report_s3_name(
        &"rimutaka".to_owned(),
        &"stm".to_owned(),
        Some("abc123".to_owned()),
    );
    assert_eq!(contributor, "rimutaka/stm/abc123.report");
}

#[test]
fn s3_names_need_both_parts() {
    assert_eq!(Report::generate_report_s3_name(&"".to_owned(), &"stm".to_owned(), None), "");
    assert_eq!(Report::generate_report_s3_name(&"user".to_owned(), &"".to_owned(), None), "");
}

#[test]
fn with_github_records_the_object_name() {
    let r = Report::new();
    let r = r.with_github(&"user".to_owned(), &"repo".to_owned(), None);
    assert_eq!(r.github_user_name, "user");
    assert_eq!(r.github_repo_name, "repo");
    assert_eq!(r.report_s3_name, "user/repo.report");
    assert!(r.reports_included.contains(&"user/repo.report".to_owned()));
}

#[test]
fn with_github_keeps_missing_names_out_of_the_object_name() {
    let r = Report::new();
    let r = r.with_github(&"user".to_owned(), &"".to_owned(), None);
    assert_eq!(r.github_user_name, "user");
    assert_eq!(r.report_s3_name, "");
    assert!(r.reports_included.is_empty());
}

#[test]
fn unknown_extensions_are_counted() {
    let mut r = Report::new();
    r.add_unprocessed_file(&"notes.txt".to_owned());
    r.add_unprocessed_file(&"other.txt".to_owned());
    r.add_unprocessed_file(&"README".to_owned());
    assert_eq!(r.unknown_file_types.lookup(&"txt".to_owned()), Some(2));
    assert!(r.unprocessed_file_names.contains(&"README".to_owned()));
    assert_eq!(r.unknown_file_types.lookup(&"README".to_owned()), None);
}

#[test]
fn dot_files_and_dotted_folders_count_no_extension() {
    let mut r = Report::new();
    r.add_unprocessed_file(&".bashrc".to_owned());
    r.add_unprocessed_file(&".bin/license".to_owned());
    r.add_unprocessed_file(&"file.".to_owned());
    assert!(r.unknown_file_types.is_empty());
    assert!(r.unprocessed_file_names.contains(&".bashrc".to_owned()));
}

#[test]
fn update_project_file_lists_splits_processed_from_unprocessed() {
    let mut tree = StrSet::new();
    tree.insert("src/main.rs".to_owned());
    tree.insert("logo.png".to_owned());
    let mut r = Report::new();
    let mut processed = stackmuncher::tech::Tech {
        language: "Rust".to_owned(),
        muncher_name: "rust".to_owned(),
        file_name: Some("src/main.rs".to_owned()),
        commit_sha1: None,
        commit_date_epoch: None,
        commit_date_iso: None,
        files: 1,
        total_lines: 0,
        code_lines: 0,
        line_comments: 0,
        block_comments: 0,
        docs_comments: 0,
        inline_comments: 0,
        blank_lines: 0,
        bracket_only_lines: 0,
        keywords: stackmuncher::kwc::KwcSet::new(),
        refs: stackmuncher::kwc::KwcSet::new(),
        refs_kw: None,
        pkgs: stackmuncher::kwc::KwcSet::new(),
        pkgs_kw: None,
        history: None,
        muncher_hash: 0,
    };
    processed.code_lines = 3;
    r.per_file_tech.push(processed);
    let r = r.update_project_file_lists(tree);
    assert!(r.unprocessed_file_names.contains(&"logo.png".to_owned()));
    assert!(!r.unprocessed_file_names.contains(&"src/main.rs".to_owned()));
    assert_eq!(r.unknown_file_types.lookup(&"png".to_owned()), Some(1));
    assert!(r.tree_files.is_some());
}

#[test]
fn abridge_drops_the_bulky_sections() {
    let mut r = Report::new();
    let mut touched = StrSet::new();
    touched.insert("a.rs".to_owned());
    r.contributors = Some(vec![stackmuncher::contributor::Contributor {
        git_id: "dev@example.com".to_owned(),
        name: "Dev".to_owned(),
        touched_files: touched,
        commit_first_epoch: 5,
        commit_last_epoch: 9,
    }]);
    r.add_unprocessed_file(&"x.bin".to_owned());
    let r = r.abridge();
    assert!(r.per_file_tech.is_empty());
    let contributors = r.contributors.unwrap();
    assert_eq!(contributors.len(), 1);
    assert_eq!(contributors[0].git_id, "dev@example.com");
    assert!(contributors[0].touched_files.is_empty());
}

#[test]
fn reset_combined_dev_report_nulls_project_sections() {
    let mut r = Report::new();
    let old_id = r.report_id.clone();
    r.date_head = Some("2022-01-01T00:00:00+00:00".to_owned());
    r.log_hash = Some("abc".to_owned());
    r.tree_files = Some(StrSet::new());
    r.report_commit_sha1 = Some("deadbeef".to_owned());
    r.reset_combined_dev_report();
    assert!(r.log_hash.is_none());
    assert!(r.tree_files.is_none());
    assert!(r.report_commit_sha1.is_none());
    assert!(r.contributors.is_none());
    assert_eq!(r.report_id.len(), 36, "a combined report gets a fresh identifier");
    assert!(r.report_id != old_id, "a fresh identifier is drawn");
    assert_eq!(r.report_s3_name, "");
    assert_eq!(r.date_head, Some("2022-01-01T00:00:00+00:00".to_owned()));
}

#[test]
fn reset_combined_contributor_report_stamps_a_fresh_identity() {
    let mut r = Report::new();
    let old_id = r.report_id.clone();
    r.report_s3_name = "user/repo.report".to_owned();
    r.reset_combined_contributor_report("dev@example.com".to_owned());
    assert_eq!(r.report_id.len(), 36);
    assert!(r.report_id != old_id, "a fresh identifier is drawn");
    assert_eq!(r.report_s3_name, "");
    assert!(r.git_ids_included.contains(&"dev@example.com".to_owned()));
}

#[test]
fn copy_commit_info_takes_the_old_dates() {
    let mut old_report = Report::new();
    old_report.date_head = Some("2022-02-02T00:00:00+00:00".to_owned());
    old_report.date_init = Some("2020-02-02T00:00:00+00:00".to_owned());
    let fresh = Report::new();
    let copied = fresh.copy_commit_info(&old_report);
    assert_eq!(copied.date_head, old_report.date_head);
    assert_eq!(copied.date_init, old_report.date_init);
}
