use stackmuncher::assemble::FileBlob;
use stackmuncher::assemble::build_report;
use stackmuncher::assemble::cached_report_is_current;
use stackmuncher::assemble::log_grew_by_one;
use stackmuncher::assemble::refresh_for_head_commit;
use stackmuncher::strset::StrSet;
use stackmuncher::assemble::pick_muncher;
use stackmuncher::contributor::Contributor;
use stackmuncher::muncher::Muncher;
use stackmuncher::muncher::MuncherSources;
use stackmuncher::vcs::GitLogEntry;
use stackmuncher::vcs::hash_commit_list;
use stackmuncher::vcs::hash_remote_urls;

fn log_entry(sha1: &str, date: &str, epoch: i64, author: &str, files: Vec<&str>) -> GitLogEntry {
    GitLogEntry {
        sha1: sha1.to_owned(),
        date: date.to_owned(),
        date_epoch: epoch,
        author_name_email: author.to_owned(),
        files: files.into_iter().map(|f| f.to_owned()).collect(),
    }
}

#[test]
fn log_hash_is_the_digest_of_the_concatenated_shas() {
    let log = vec![log_entry("abc", "2021-01-01T00:00:00+00:00", 1, "A <a@x>", vec![])];
    assert_eq!(hash_commit_list(&log), "a9993e364706816aba3e25717850c26c9cd0d89d");
    let split = vec![
        log_entry("ab", "2021-01-01T00:00:00+00:00", 1, "A <a@x>", vec![]),
        log_entry("c", "2020-01-01T00:00:00+00:00", 1, "A <a@x>", vec![]),
    ];
    assert_eq!(hash_commit_list(&split), "a9993e364706816aba3e25717850c26c9cd0d89d");
}

#[test]
fn an_empty_log_hashes_to_the_empty_digest() {
    assert_eq!(hash_commit_list(&Vec::new()), "da39a3ee5e6b4b0d3255bfef95601890afd80709");
}

#[test]
fn remote_urls_are_normalized_before_hashing() {
    let lines = vec![
        "origin\tHTTPS://Example.com/repo (fetch)".to_owned(),
        "upstream\tgit@elsewhere:repo.git (push)".to_owned(),
    ];
    let hashes = hash_remote_urls(&lines).unwrap();
    assert_eq!(hashes.len(), 1, "only http remotes are extracted");
    assert!(hashes.contains(&"1813ebe8ba90a3c138ee689cbd8a4d3ab207d51a".to_owned()));
}

#[test]
fn git_identity_prefers_the_address() {
    let id = Contributor::git_identity_from_name_email_pair(
        &"Jane Doe <Jane@Example.COM>".to_owned(),
    );
    assert_eq!(id, "jane@example.com");
    let name = Contributor::display_name_from_pair(&"Jane Doe <Jane@Example.COM>".to_owned());
    assert_eq!(name, "Jane Doe");
}

#[test]
fn git_identity_falls_back_to_the_whole_pair() {
    let id = Contributor::git_identity_from_name_email_pair(&"  Build Bot  ".to_owned());
    assert_eq!(id, "build bot");
    let empty_address = Contributor::git_identity_from_name_email_pair(&"Bot <>".to_owned());
    assert_eq!(empty_address, "bot <>");
}

#[test]
fn contributors_fold_by_identity() {
    let log = vec![
        log_entry("c2", "2021-01-02T00:00:00+00:00", 200, "Jane <j@x.com>", vec!["b.rs"]),
        log_entry("c1", "2021-01-01T00:00:00+00:00", 100, "JANE <J@X.com>", vec!["a.rs"]),
        log_entry("c0", "2020-01-01T00:00:00+00:00", 50, "Mark <m@x.com>", vec!["a.rs"]),
    ];
    let contributors = Contributor::from_commit_history(&log);
    assert_eq!(contributors.len(), 2);
    let jane = contributors.iter().find(|c| c.git_id == "j@x.com").unwrap();
    assert_eq!(jane.name, "Jane", "the display name comes from the newest commit");
    assert_eq!(jane.commit_first_epoch, 100);
    assert_eq!(jane.commit_last_epoch, 200);
    assert!(jane.touched_files.contains(&"a.rs".to_owned()));
    assert!(jane.touched_files.contains(&"b.rs".to_owned()));
    let mark = contributors.iter().find(|c| c.git_id == "m@x.com").unwrap();
    assert!(!mark.touched_files.contains(&"b.rs".to_owned()));
}

fn c_muncher() -> Muncher {
    let sources = MuncherSources {
        language: "C".to_owned(),
        keywords: None,
        bracket_only: Some(vec!["^\\s*[{}();]+\\s*$".to_owned()]),
        line_comments: Some(vec!["^\\s*//".to_owned()]),
        inline_comments: None,
        doc_comments: None,
        block_comments_start: None,
        block_comments_end: None,
        refs: None,
        packages: None,
    };
    Muncher::new(sources, &"c".to_owned()).unwrap()
}

fn sample_inputs() -> (Vec<Muncher>, Vec<(String, usize)>, Vec<FileBlob>, Vec<GitLogEntry>) {
    let munchers = vec![c_muncher()];
    let ext_map = vec![("c".to_owned(), 0usize)];
    let files = vec![
        FileBlob { name: "main.c".to_owned(), bytes: "int main(){return 0;}\n".as_bytes().to_vec() },
        FileBlob { name: "README.md".to_owned(), bytes: "hello\n".as_bytes().to_vec() },
    ];
    let log = vec![log_entry(
        "abc",
        "2021-01-01T00:00:00+00:00",
        1000,
        "Jane <j@x.com>",
        vec!["main.c"],
    )];
    (munchers, ext_map, files, log)
}

#[test]
fn pick_muncher_follows_the_extension_index() {
    let ext_map = vec![("c".to_owned(), 0usize), ("md".to_owned(), 9usize)];
    assert_eq!(pick_muncher(&ext_map, 1, &"main.c".to_owned()), Some(0));
    assert_eq!(pick_muncher(&ext_map, 1, &"README.md".to_owned()), None);
    assert_eq!(pick_muncher(&ext_map, 1, &"Makefile".to_owned()), None);
}

#[test]
fn the_assembler_builds_a_full_report() {
    let (munchers, ext_map, files, log) = sample_inputs();
    let r = build_report(
        &munchers,
        &ext_map,
        &files,
        &log,
        None,
        &"user".to_owned(),
        &"repo".to_owned(),
    );
    assert_eq!(r.per_file_tech.len(), 1);
    assert_eq!(r.per_file_tech[0].file_name, Some("main.c".to_owned()));
    assert_eq!(r.tech.len(), 1);
    assert_eq!(r.tech[0].language, "C");
    assert_eq!(r.tech[0].files, 1);
    assert_eq!(r.tech[0].code_lines, 1);
    assert!(r.unprocessed_file_names.contains(&"README.md".to_owned()));
    assert_eq!(r.unknown_file_types.lookup(&"md".to_owned()), Some(1));
    assert_eq!(r.date_head, Some("2021-01-01T00:00:00+00:00".to_owned()));
    assert_eq!(r.report_commit_sha1, Some("abc".to_owned()));
    assert_eq!(r.last_commit_author, Some("j@x.com".to_owned()));
    assert_eq!(r.log_hash, Some("a9993e364706816aba3e25717850c26c9cd0d89d".to_owned()));
    assert_eq!(r.report_s3_name, "user/repo.report");
    let ids = r.contributor_git_ids.as_ref().unwrap();
    assert!(ids.contains(&"j@x.com".to_owned()));
}

#[test]
fn a_second_run_with_no_new_commits_changes_nothing_observable() {
    let (munchers, ext_map, files, log) = sample_inputs();
    let first = build_report(
        &munchers,
        &ext_map,
        &files,
        &log,
        None,
        &"user".to_owned(),
        &"repo".to_owned(),
    );
    let second = build_report(
        &munchers,
        &ext_map,
        &files,
        &log,
        None,
        &"user".to_owned(),
        &"repo".to_owned(),
    );
    assert_eq!(first.log_hash, second.log_hash);
    assert!(cached_report_is_current(&first, &log));
    let tech_of = |r: &stackmuncher::report::Report| {
        r.tech
            .iter()
            .map(|t| (t.language.clone(), t.files, t.total_lines, t.code_lines))
            .collect::<Vec<_>>()
    };
    assert_eq!(tech_of(&first), tech_of(&second));
    assert!(first.report_id != second.report_id, "each run draws its own identifier");
}

#[test]
fn a_rewritten_history_invalidates_the_cache() {
    let (munchers, ext_map, files, log) = sample_inputs();
    let r = build_report(
        &munchers,
        &ext_map,
        &files,
        &log,
        None,
        &"user".to_owned(),
        &"repo".to_owned(),
    );
    let rewritten = vec![log_entry(
        "fff",
        "2021-01-01T00:00:00+00:00",
        1000,
        "Jane <j@x.com>",
        vec!["main.c"],
    )];
    assert!(!cached_report_is_current(&r, &rewritten));
}

#[test]
fn one_new_head_commit_is_recognized() {
    let (munchers, ext_map, files, log) = sample_inputs();
    let cached = build_report(
        &munchers,
        &ext_map,
        &files,
        &log,
        None,
        &"user".to_owned(),
        &"repo".to_owned(),
    );
    let mut grown = vec![log_entry(
        "def",
        "2021-02-01T00:00:00+00:00",
        2000,
        "Jane <j@x.com>",
        vec!["main.c"],
    )];
    grown.extend(
        log.iter().map(|e| log_entry(&e.sha1, &e.date, e.date_epoch, &e.author_name_email, vec![])),
    );
    assert!(log_grew_by_one(&cached, &grown));
    assert!(!log_grew_by_one(&cached, &log), "the unchanged log did not grow");
}

#[test]
fn a_single_commit_refresh_reprocesses_only_the_touched_files() {
    let (munchers, ext_map, files, log) = sample_inputs();
    let cached = build_report(
        &munchers,
        &ext_map,
        &files,
        &log,
        None,
        &"user".to_owned(),
        &"repo".to_owned(),
    );
    let mut grown = vec![log_entry(
        "def",
        "2021-02-01T00:00:00+00:00",
        2000,
        "Mark <m@x.com>",
        vec!["main.c"],
    )];
    grown.extend(
        log.iter().map(|e| log_entry(&e.sha1, &e.date, e.date_epoch, &e.author_name_email, vec![])),
    );
    let mut changed_paths = StrSet::new();
    changed_paths.insert("main.c".to_owned());
    let changed = vec![FileBlob {
        name: "main.c".to_owned(),
        bytes: "int main(){
return 1;
}
".as_bytes().to_vec(),
    }];
    let refreshed = refresh_for_head_commit(
        cached,
        &munchers,
        &ext_map,
        &changed,
        &changed_paths,
        &grown,
        None,
    );
    assert!(refreshed.is_single_commit);
    assert_eq!(refreshed.per_file_tech.len(), 1);
    assert_eq!(refreshed.per_file_tech[0].file_name, Some("main.c".to_owned()));
    assert_eq!(refreshed.per_file_tech[0].commit_sha1, Some("def".to_owned()));
    assert_eq!(refreshed.tech.len(), 1);
    assert_eq!(refreshed.tech[0].code_lines, 2);
    assert_eq!(refreshed.tech[0].bracket_only_lines, 1);
    assert_eq!(refreshed.date_head, Some("2021-02-01T00:00:00+00:00".to_owned()));
    assert_eq!(refreshed.last_commit_author, Some("m@x.com".to_owned()));
    assert!(
        refreshed.unprocessed_file_names.contains(&"README.md".to_owned()),
        "untouched bookkeeping survives the refresh"
    );
}
