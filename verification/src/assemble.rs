//! The report assembler: pick a muncher for every tracked file, process
//! the files, fold the results, and attach the history.

use vstd::prelude::*;

use crate::muncher::Muncher;
use crate::processor::process_file;
use crate::processor::processed_as;
use crate::report::Report;
use crate::tech::TechData;
use crate::report::tmap;
use crate::report::tech_fold;
use crate::report::tech_fold1;
use crate::report::reset_id;
use crate::report::fkeys_unique;
use crate::report::head_dates_attached;
use crate::report::log_attached;
use crate::report::name_of;
use crate::report::opt_lines_view;
use crate::report::processed_names;
use crate::report::s3_name_spec;
use crate::report::survivors;
use crate::report::lemma_survivors_sub;
use crate::report::uft_fold;
use crate::kwc::KwcVal;
use crate::strset::StrSet;
use crate::tech::Tech;
use crate::tech::TechId;
use crate::tech::fkey;
use crate::text::ext_of;
use crate::text::ext_of_exec;
use crate::vcs::GitLogEntry;
use crate::vcs::clone_log_entry;
use crate::vcs::concat_shas;
use crate::vcs::hash_commit_list;
use crate::vcs::lemma_concat_shas_congruent;
use crate::vcs::log_hash_of;

verus! {

/// One tracked file handed to the assembler: its path and its blob bytes.
pub struct FileBlob {
    pub name: String,
    pub bytes: Vec<u8>,
}

/// The muncher the extension index assigns, scanning from the front: the
/// first entry whose extension is the file's and whose muncher exists.
pub open spec fn pick_from(
    ext_map: Seq<(String, usize)>,
    muncher_count: int,
    ext: Seq<char>,
    j: int,
) -> Option<int>
    decreases ext_map.len() - j,
{
    if j < 0 || j >= ext_map.len() {
        None
    } else if ext_map[j].0@ == ext && (ext_map[j].1 as int) < muncher_count {
        Some(ext_map[j].1 as int)
    } else {
        pick_from(ext_map, muncher_count, ext, j + 1)
    }
}

/// The muncher assigned to a file name, through its counted extension.
pub open spec fn pick_spec(
    ext_map: Seq<(String, usize)>,
    muncher_count: int,
    name: Seq<char>,
) -> Option<int> {
    match ext_of(name) {
        None => None,
        Some(e) => pick_from(ext_map, muncher_count, e, 0),
    }
}

/// Pick the muncher for a file: the first index entry whose extension is
/// the file's, skipping entries that point past the loaded munchers.
pub fn pick_muncher(
    ext_map: &Vec<(String, usize)>,
    muncher_count: usize,
    file_name: &String,
) -> (r: Option<usize>)
    ensures
        match r {
            Some(mi) => pick_spec(ext_map@, muncher_count as int, file_name@) == Some(mi as int)
                && mi < muncher_count,
            None => pick_spec(ext_map@, muncher_count as int, file_name@) is None,
        },
{
    let ext = match ext_of_exec(file_name) {
        Some(e) => e,
        None => {
            return None;
        },
    };
    let n = ext_map.len();
    let mut j: usize = 0;
    while j < n
        invariant
            n == ext_map@.len(),
            j <= n,
            ext_of(file_name@) == Some(ext@),
            pick_from(ext_map@, muncher_count as int, ext@, 0) == pick_from(
                ext_map@,
                muncher_count as int,
                ext@,
                j as int,
            ),
        decreases n - j,
    {
        if ext_map[j].0 == ext && ext_map[j].1 < muncher_count {
            return Some(ext_map[j].1);
        }
        j += 1;
    }
    None
}

/// The newest commit's identifier, or nothing to say.
pub open spec fn head_sha(log: Seq<GitLogEntry>) -> Seq<char> {
    if log.len() > 0 {
        log[0].sha1@
    } else {
        Seq::empty()
    }
}

/// The newest commit's epoch, or zero.
pub open spec fn head_epoch(log: Seq<GitLogEntry>) -> i64 {
    if log.len() > 0 {
        log[0].date_epoch
    } else {
        0
    }
}

/// The newest commit's date, or nothing to say.
pub open spec fn head_date(log: Seq<GitLogEntry>) -> Seq<char> {
    if log.len() > 0 {
        log[0].date@
    } else {
        Seq::empty()
    }
}

/// What the assembler guarantees of one per-file record.
pub open spec fn per_file_ok(
    t: Tech,
    f: FileBlob,
    m: Muncher,
    log: Seq<GitLogEntry>,
    tree: Option<Set<Seq<char>>>,
) -> bool {
    &&& t.wf()
    &&& t.language@ == m.language@
    &&& t.muncher_name@ == m.muncher_name@
    &&& t.file_name matches Some(n) && n@ == f.name@
    &&& t.commit_sha1 matches Some(c) && c@ == head_sha(log)
    &&& t.commit_date_epoch == Some(head_epoch(log))
    &&& t.muncher_hash == m.muncher_hash
    &&& t.files == 1
    &&& t.refs_kw is None
    &&& t.pkgs_kw is None
    &&& crate::tech::data_kinds_none(t.data())
    &&& processed_as(m, f.bytes@, tree, t)
}

/// The positions of the files the extension index matches, in order.
pub open spec fn matched_idxs(
    ext_map: Seq<(String, usize)>,
    muncher_count: int,
    files: Seq<FileBlob>,
) -> Seq<int>
    decreases files.len(),
{
    if files.len() == 0 {
        Seq::empty()
    } else {
        let p = matched_idxs(ext_map, muncher_count, files.drop_last());
        if pick_spec(ext_map, muncher_count, files.last().name@) is Some {
            p.push(files.len() - 1)
        } else {
            p
        }
    }
}

/// The files' names, in order.
pub open spec fn names_seq(files: Seq<FileBlob>) -> Seq<Seq<char>> {
    files.map_values(|f: FileBlob| f.name@)
}

/// The set of the files' names.
pub open spec fn names_set(files: Seq<FileBlob>) -> Set<Seq<char>> {
    Set::new(|n: Seq<char>| exists|i: int| 0 <= i < files.len() && (#[trigger] files[i]).name@ == n)
}

/// The per-file records stand one for one, in order, for the matched
/// files.
pub open spec fn per_file_assembled(
    munchers: Seq<Muncher>,
    ext_map: Seq<(String, usize)>,
    files: Seq<FileBlob>,
    log: Seq<GitLogEntry>,
    tree: Option<Set<Seq<char>>>,
    per_file: Seq<Tech>,
) -> bool {
    let idxs = matched_idxs(ext_map, munchers.len() as int, files);
    &&& per_file.len() == idxs.len()
    &&& forall|k: int|
        0 <= k < idxs.len() ==> per_file_ok(
            #[trigger] per_file[k],
            files[idxs[k]],
            munchers[pick_spec(ext_map, munchers.len() as int, files[idxs[k]].name@).unwrap()],
            log,
            tree,
        )
}

/// Whether a cached report still describes the repository: its log hash is
/// the hash of the current commit list.
pub fn cached_report_is_current(cached: &Report, git_log: &Vec<GitLogEntry>) -> (r: bool)
    ensures
        r == (cached.log_hash matches Some(h) && h@ == log_hash_of(git_log@)),
{
    match &cached.log_hash {
        Some(h) => {
            let current = hash_commit_list(git_log);
            *h == current
        },
        None => false,
    }
}

/// Build a project report: process every file the extension index covers
/// under its muncher, fold the records per language, list the files no
/// muncher covers, and attach the commit history and the names.
pub fn build_report(
    munchers: &Vec<Muncher>,
    ext_map: &Vec<(String, usize)>,
    files: &Vec<FileBlob>,
    git_log: &Vec<GitLogEntry>,
    remote_lines: Option<&Vec<String>>,
    github_user_name: &String,
    github_repo_name: &String,
) -> (r: Report)
    requires
        forall|i: int, j: int| 0 <= i < j < files@.len() ==> (#[trigger] files@[i]).name@ != (
        #[trigger] files@[j]).name@,
    ensures
        r.wf(),
        per_file_assembled(
            munchers@,
            ext_map@,
            files@,
            git_log@,
            Some(names_set(files@)),
            r.per_file_tech@,
        ),
        fkeys_unique(r.per_file_tech@),
        tmap(r.tech@) == tech_fold(Map::<TechId, TechData>::empty(), r.per_file_tech@),
        r.tree_files matches Some(ts) && ts@ == names_set(files@) && ts.elems() == names_seq(
            files@,
        ),
        forall|x: Seq<char>| r.unprocessed_file_names@.contains(x) <==> (names_set(
            files@,
        ).contains(x) && !processed_names(r.per_file_tech@).contains(x)),
        r.unknown_file_types@ == uft_fold(
            Map::<Seq<char>, KwcVal>::empty(),
            names_seq(files@),
            processed_names(r.per_file_tech@),
        ),
        log_attached(git_log@, opt_lines_view(remote_lines), r),
        head_dates_attached(git_log@, r),
        !(git_log@.len() > 0 && git_log@[0].date_epoch > 0) ==> (r.date_head is None
            && r.report_commit_sha1 is None && r.last_commit_author is None),
        !(git_log@.len() > 0 && git_log@.last().date_epoch > 0) ==> r.date_init is None,
        r.github_user_name@ == github_user_name@,
        r.github_repo_name@ == github_repo_name@,
        (github_user_name@.len() > 0 && github_repo_name@.len() > 0) ==> (r.report_s3_name@
            == s3_name_spec(github_user_name@, github_repo_name@, None)
            && r.reports_included@ == Set::<Seq<char>>::empty().insert(r.report_s3_name@)),
        (github_user_name@.len() == 0 || github_repo_name@.len() == 0) ==> (r.report_s3_name@
            == Seq::<char>::empty() && r.reports_included@ == Set::<Seq<char>>::empty()),
        r.report_id@.len() == 36,
        r.timestamp@.len() > 0,
        !r.is_single_commit,
        crate::report::rows_untagged(r),
{
    let mut report = Report::new();
    let head_sha1: String = if git_log.len() > 0 {
        git_log[0].sha1.clone()
    } else {
        String::new()
    };
    let head_epoch_v: i64 = if git_log.len() > 0 {
        git_log[0].date_epoch
    } else {
        0
    };
    let head_date_v: String = if git_log.len() > 0 {
        git_log[0].date.clone()
    } else {
        String::new()
    };
    let mut names: Vec<String> = Vec::new();
    let nf = files.len();
    let mut i: usize = 0;
    while i < nf
        invariant
            nf == files@.len(),
            i <= nf,
            names@.len() == i as int,
            forall|k: int| 0 <= k < i as int ==> #[trigger] names@[k]@ == files@[k].name@,
        decreases nf - i,
    {
        names.push(files[i].name.clone());
        i += 1;
    }
    let tree = StrSet::from_vec(&names);
    proof {
        assert forall|n: Seq<char>| tree@.contains(n) <==> names_set(files@).contains(n) by {
            if tree@.contains(n) {
                let nseq = names@.map_values(|s: String| s@);
                let k = choose|k: int| 0 <= k < nseq.len() && #[trigger] nseq[k] == n;
                assert(files@[k].name@ == n);
            }
            if names_set(files@).contains(n) {
                let k = choose|k: int| 0 <= k < files@.len() && (#[trigger] files@[k]).name@ == n;
                assert(names@.map_values(|s: String| s@)[k] == n);
                assert(names@.map_values(|s: String| s@).contains(n));
            }
        }
        assert(tree@ =~= names_set(files@));
        assert(names@.map_values(|s: String| s@) =~= names_seq(files@));
        assert(names_seq(files@).no_duplicates());
        assert(files@.take(0) =~= Seq::<FileBlob>::empty());
    }
    let mut j: usize = 0;
    while j < nf
        invariant
            nf == files@.len(),
            j <= nf,
            forall|a: int, b: int| 0 <= a < b < files@.len() ==> (#[trigger] files@[a]).name@ != (
            #[trigger] files@[b]).name@,
            tree@ == names_set(files@),
            tree.wf(),
            head_sha1@ == head_sha(git_log@),
            head_epoch_v == head_epoch(git_log@),
            head_date_v@ == head_date(git_log@),
            report.wf(),
            report.tech@.len() == 0,
            per_file_assembled(
                munchers@,
                ext_map@,
                files@.take(j as int),
                git_log@,
                Some(names_set(files@)),
                report.per_file_tech@,
            ),
            forall|k: int| 0 <= k < report.per_file_tech@.len() ==> ((
            #[trigger] report.per_file_tech@[k]).file_name matches Some(nm)
                && names_set(files@.take(j as int)).contains(nm@)),
            fkeys_unique(report.per_file_tech@),
            report.unprocessed_file_names@ == Set::<Seq<char>>::empty(),
            report.unknown_file_types@ == Map::<Seq<char>, crate::kwc::KwcVal>::empty(),
            report.tree_files is None,
            report.remote_url_hashes is None,
            report.contributors is None,
            report.contributor_git_ids is None,
            report.log_hash is None,
            report.date_head is None,
            report.date_init is None,
            report.report_commit_sha1 is None,
            report.last_commit_author is None,
            report.github_user_name@ == Seq::<char>::empty(),
            report.github_repo_name@ == Seq::<char>::empty(),
            report.report_s3_name@ == Seq::<char>::empty(),
            report.reports_included@ == Set::<Seq<char>>::empty(),
            report.report_id@.len() == 36,
            report.timestamp@.len() > 0,
            !report.is_single_commit,
        decreases nf - j,
    {
        let ghost prev_files = files@.take(j as int);
        let ghost prev_records = report.per_file_tech@;
        proof {
            assert(files@.take(j + 1).drop_last() =~= prev_files);
            assert(files@.take(j + 1).last() == files@[j as int]);
        }
        match pick_muncher(ext_map, munchers.len(), &files[j].name) {
            Some(mi) => {
                let t = process_file(
                    &files[j].name,
                    &munchers[mi],
                    &head_sha1,
                    head_epoch_v,
                    &head_date_v,
                    &files[j].bytes,
                    Some(&tree),
                );
                proof {
                    assert(per_file_ok(
                        t,
                        files@[j as int],
                        munchers@[mi as int],
                        git_log@,
                        Some(names_set(files@)),
                    ));
                    // the new record's name is fresh among the processed ones
                    assert forall|k: int| 0 <= k < prev_records.len() implies fkey(
                        #[trigger] prev_records[k],
                    ) != fkey(t) by {
                        let nm = prev_records[k].file_name.unwrap();
                        let w = choose|w: int|
                            0 <= w < prev_files.len() && (#[trigger] prev_files[w]).name@ == nm@;
                        assert(files@[w].name@ == nm@);
                        assert(files@[w].name@ != files@[j as int].name@);
                    }
                }
                report.per_file_tech.push(t);
                proof {
                    let idxs = matched_idxs(ext_map@, munchers@.len() as int, files@.take(j + 1));
                    assert(idxs =~= matched_idxs(
                        ext_map@,
                        munchers@.len() as int,
                        prev_files,
                    ).push(j as int));
                    assert forall|k: int| 0 <= k < report.per_file_tech@.len() implies (
                    #[trigger] report.per_file_tech@[k]).file_name matches Some(nm) && names_set(
                        files@.take(j + 1),
                    ).contains(nm@) by {
                        if k < report.per_file_tech@.len() - 1 {
                            assert(report.per_file_tech@[k] == prev_records[k]);
                            let nm = prev_records[k].file_name.unwrap();
                            let w = choose|w: int|
                                0 <= w < prev_files.len() && (#[trigger] prev_files[w]).name@
                                    == nm@;
                            assert(files@.take(j + 1)[w].name@ == nm@);
                        } else {
                            assert(files@.take(j + 1)[j as int].name@ == files@[j as int].name@);
                        }
                    }
                    assert forall|k: int|
                        0 <= k < idxs.len() implies per_file_ok(
                        #[trigger] report.per_file_tech@[k],
                        files@.take(j + 1)[idxs[k]],
                        munchers@[pick_spec(
                            ext_map@,
                            munchers@.len() as int,
                            files@.take(j + 1)[idxs[k]].name@,
                        ).unwrap()],
                        git_log@,
                        Some(names_set(files@)),
                    ) by {
                        if k < idxs.len() - 1 {
                            let pidxs = matched_idxs(
                                ext_map@,
                                munchers@.len() as int,
                                prev_files,
                            );
                            assert(report.per_file_tech@[k] == prev_records[k]);
                            assert(idxs[k] == pidxs[k]);
                            lemma_matched_idxs_bounds(ext_map@, munchers@.len() as int, prev_files);
                            assert(files@.take(j + 1)[idxs[k]] == prev_files[pidxs[k]]);
                        } else {
                            assert(idxs[k] == j as int);
                            assert(files@.take(j + 1)[j as int] == files@[j as int]);
                        }
                    }
                }
            },
            None => {
                proof {
                    let idxs = matched_idxs(ext_map@, munchers@.len() as int, files@.take(j + 1));
                    assert(idxs =~= matched_idxs(ext_map@, munchers@.len() as int, prev_files));
                    assert forall|k: int|
                        0 <= k < idxs.len() implies per_file_ok(
                        #[trigger] report.per_file_tech@[k],
                        files@.take(j + 1)[idxs[k]],
                        munchers@[pick_spec(
                            ext_map@,
                            munchers@.len() as int,
                            files@.take(j + 1)[idxs[k]].name@,
                        ).unwrap()],
                        git_log@,
                        Some(names_set(files@)),
                    ) by {
                        let pidxs = matched_idxs(ext_map@, munchers@.len() as int, prev_files);
                        lemma_matched_idxs_bounds(ext_map@, munchers@.len() as int, prev_files);
                        assert(files@.take(j + 1)[idxs[k]] == prev_files[pidxs[k]]);
                    }
                    assert forall|k: int| 0 <= k < report.per_file_tech@.len() implies (
                    #[trigger] report.per_file_tech@[k]).file_name matches Some(nm) && names_set(
                        files@.take(j + 1),
                    ).contains(nm@) by {
                        let nm = prev_records[k].file_name.unwrap();
                        let w = choose|w: int|
                            0 <= w < prev_files.len() && (#[trigger] prev_files[w]).name@ == nm@;
                        assert(files@.take(j + 1)[w].name@ == nm@);
                    }
                }
            },
        }
        j += 1;
    }
    proof {
        assert(files@.take(nf as int) =~= files@);
        let idxs = matched_idxs(ext_map@, munchers@.len() as int, files@);
        assert forall|k: int| 0 <= k < report.per_file_tech@.len() implies crate::tech::data_kinds_none(
            (#[trigger] report.per_file_tech@[k]).data(),
        ) by {
            assert(per_file_ok(
                report.per_file_tech@[k],
                files@[idxs[k]],
                munchers@[pick_spec(
                    ext_map@,
                    munchers@.len() as int,
                    files@[idxs[k]].name@,
                ).unwrap()],
                git_log@,
                Some(names_set(files@)),
            ));
        }
    }
    report.recompute_tech_section();
    let report = report.update_project_file_lists(tree);
    proof {
        crate::report::lemma_uft_fold_kinds_none(
            Map::<Seq<char>, KwcVal>::empty(),
            report.tree_files.unwrap().elems(),
            processed_names(report.per_file_tech@),
        );
    }
    let report = report.add_commits_history(git_log, remote_lines);
    let report = report.with_github(github_user_name, github_repo_name, None);
    proof {
        assert(crate::report::rows_untagged(report));
    }
    report
}

proof fn lemma_matched_idxs_bounds(
    ext_map: Seq<(String, usize)>,
    muncher_count: int,
    files: Seq<FileBlob>,
)
    ensures
        forall|k: int| 0 <= k < matched_idxs(ext_map, muncher_count, files).len() ==> 0 <= (
        #[trigger] matched_idxs(ext_map, muncher_count, files)[k]) < files.len(),
    decreases files.len(),
{
    if files.len() > 0 {
        lemma_matched_idxs_bounds(ext_map, muncher_count, files.drop_last());
        let p = matched_idxs(ext_map, muncher_count, files.drop_last());
        let idxs = matched_idxs(ext_map, muncher_count, files);
        assert forall|k: int| 0 <= k < idxs.len() implies 0 <= #[trigger] idxs[k]
            < files.len() by {
            if pick_spec(ext_map, muncher_count, files.last().name@) is Some {
                if k < p.len() {
                    assert(idxs[k] == p[k]);
                } else {
                    assert(idxs[k] == files.len() - 1);
                }
            } else {
                assert(idxs[k] == p[k]);
            }
        }
    }
}

/// Running the assembler twice over the same inputs yields the same tech
/// section and the same log hash: nothing in the analysis depends on the
/// run.
pub proof fn lemma_assembly_deterministic(
    munchers: Seq<Muncher>,
    ext_map: Seq<(String, usize)>,
    files: Seq<FileBlob>,
    log: Seq<GitLogEntry>,
    r1: Report,
    r2: Report,
)
    requires
        per_file_assembled(
            munchers,
            ext_map,
            files,
            log,
            Some(names_set(files)),
            r1.per_file_tech@,
        ),
        per_file_assembled(
            munchers,
            ext_map,
            files,
            log,
            Some(names_set(files)),
            r2.per_file_tech@,
        ),
        tmap(r1.tech@) == tech_fold(Map::<TechId, TechData>::empty(), r1.per_file_tech@),
        tmap(r2.tech@) == tech_fold(Map::<TechId, TechData>::empty(), r2.per_file_tech@),
        r1.log_hash matches Some(h) && h@ == log_hash_of(log),
        r2.log_hash matches Some(h) && h@ == log_hash_of(log),
    ensures
        tmap(r1.tech@) == tmap(r2.tech@),
        r1.log_hash.unwrap()@ == r2.log_hash.unwrap()@,
{
    let s1 = r1.per_file_tech@;
    let s2 = r2.per_file_tech@;
    assert forall|k: int| 0 <= k < s1.len() implies (#[trigger] s1[k]).id() == s2[k].id() && s1[
        k
    ].data() == s2[k].data() by {
        let idxs = matched_idxs(ext_map, munchers.len() as int, files);
        assert(per_file_ok(
            s1[k],
            files[idxs[k]],
            munchers[pick_spec(ext_map, munchers.len() as int, files[idxs[k]].name@).unwrap()],
            log,
            Some(names_set(files)),
        ));
        assert(per_file_ok(
            s2[k],
            files[idxs[k]],
            munchers[pick_spec(ext_map, munchers.len() as int, files[idxs[k]].name@).unwrap()],
            log,
            Some(names_set(files)),
        ));
        assert(s1[k].id() =~= s2[k].id());
        assert(s1[k].data() =~= s2[k].data());
    }
    lemma_tech_fold_congruent(Map::<TechId, TechData>::empty(), s1, s2);
}

proof fn lemma_tech_fold_congruent(m: Map<TechId, TechData>, s1: Seq<Tech>, s2: Seq<Tech>)
    requires
        s1.len() == s2.len(),
        forall|k: int| 0 <= k < s1.len() ==> (#[trigger] s1[k]).id() == s2[k].id() && s1[k].data()
            == s2[k].data(),
    ensures
        tech_fold(m, s1) == tech_fold(m, s2),
    decreases s1.len(),
{
    if s1.len() > 0 {
        assert(forall|k: int| 0 <= k < s1.len() - 1 ==> #[trigger] s1.drop_last()[k] == s1[k]);
        assert(forall|k: int| 0 <= k < s2.len() - 1 ==> #[trigger] s2.drop_last()[k] == s2[k]);
        lemma_tech_fold_congruent(m, s1.drop_last(), s2.drop_last());
        assert(s1[s1.len() - 1].id() == s2[s2.len() - 1].id());
        assert(s1[s1.len() - 1].data() == s2[s2.len() - 1].data());
        assert(reset_id(s1.last()) == reset_id(s2.last()));
        assert(tech_fold1(tech_fold(m, s1.drop_last()), s1.last()) == tech_fold1(
            tech_fold(m, s2.drop_last()),
            s2.last(),
        ));
    }
}

/// Whether the current log is the cached one with exactly one new commit
/// at its head: the cached hash is the hash of everything after the
/// newest commit.
pub fn log_grew_by_one(cached: &Report, git_log: &Vec<GitLogEntry>) -> (r: bool)
    ensures
        r == (git_log@.len() > 0 && (cached.log_hash matches Some(h) && h@ == log_hash_of(
            git_log@.skip(1),
        ))),
{
    if git_log.len() == 0 {
        return false;
    }
    let cached_hash = match &cached.log_hash {
        Some(h) => h,
        None => {
            return false;
        },
    };
    let mut tail: Vec<GitLogEntry> = Vec::new();
    let n = git_log.len();
    let mut i: usize = 1;
    while i < n
        invariant
            n == git_log@.len(),
            1 <= i <= n,
            tail@.len() == i - 1,
            forall|k: int| 0 <= k < i - 1 ==> (#[trigger] tail@[k].sha1)@ == git_log@[k
                + 1].sha1@,
        decreases n - i,
    {
        tail.push(clone_log_entry(&git_log[i]));
        i += 1;
    }
    proof {
        assert(forall|k: int| 0 <= k < git_log@.skip(1).len() ==> #[trigger] git_log@.skip(
            1,
        )[k] == git_log@[k + 1]);
        lemma_concat_shas_congruent(tail@, git_log@.skip(1));
        assert(concat_shas(tail@) == concat_shas(git_log@.skip(1)));
    }
    let tail_hash = hash_commit_list(&tail);
    *cached_hash == tail_hash
}

/// Refresh a cached report for one new head commit: the records of the
/// files that commit touched are thrown out, the touched files still in
/// the tree are processed afresh under the cached tree hint, the tech
/// section is refolded, the new history is attached, and the report is
/// marked as a single-commit refresh.
pub fn refresh_for_head_commit(
    cached: Report,
    munchers: &Vec<Muncher>,
    ext_map: &Vec<(String, usize)>,
    changed: &Vec<FileBlob>,
    changed_paths: &StrSet,
    git_log: &Vec<GitLogEntry>,
    remote_lines: Option<&Vec<String>>,
) -> (r: Report)
    requires
        cached.wf(),
        fkeys_unique(cached.per_file_tech@),
        changed_paths.wf(),
        forall|i: int, j: int| 0 <= i < j < changed@.len() ==> (#[trigger] changed@[i]).name@
            != (#[trigger] changed@[j]).name@,
        forall|i: int| 0 <= i < changed@.len() ==> changed_paths@.contains(
            (#[trigger] changed@[i]).name@,
        ),
    ensures
        r.wf(),
        fkeys_unique(r.per_file_tech@),
        r.per_file_tech@.len() == survivors(cached.per_file_tech@, changed_paths@).len()
            + matched_idxs(ext_map@, munchers@.len() as int, changed@).len(),
        forall|k: int| 0 <= k < survivors(cached.per_file_tech@, changed_paths@).len()
            ==> #[trigger] r.per_file_tech@[k] == survivors(
            cached.per_file_tech@,
            changed_paths@,
        )[k],
        per_file_assembled(
            munchers@,
            ext_map@,
            changed@,
            git_log@,
            crate::report::opt_strset_view(cached.tree_files),
            r.per_file_tech@.skip(
                survivors(cached.per_file_tech@, changed_paths@).len() as int,
            ),
        ),
        tmap(r.tech@) == tech_fold(Map::<TechId, TechData>::empty(), r.per_file_tech@),
        r.is_single_commit,
        log_attached(git_log@, opt_lines_view(remote_lines), r),
        head_dates_attached(git_log@, r),
        !(git_log@.len() > 0 && git_log@[0].date_epoch > 0) ==> (r.date_head == cached.date_head
            && r.report_commit_sha1 == cached.report_commit_sha1 && r.last_commit_author
            == cached.last_commit_author),
        !(git_log@.len() > 0 && git_log@.last().date_epoch > 0) ==> r.date_init
            == cached.date_init,
        r.unprocessed_file_names == cached.unprocessed_file_names,
        r.unknown_file_types == cached.unknown_file_types,
        r.timestamp == cached.timestamp,
        r.report_id == cached.report_id,
        r.git_ids_included == cached.git_ids_included,
        r.github_user_name == cached.github_user_name,
        r.github_repo_name == cached.github_repo_name,
        r.report_s3_name == cached.report_s3_name,
        r.reports_included == cached.reports_included,
        r.tree_files == cached.tree_files,
{
    let hint: Option<StrSet> = match &cached.tree_files {
        Some(t) => Some(t.duplicate()),
        None => None,
    };
    let head_sha1: String = if git_log.len() > 0 {
        git_log[0].sha1.clone()
    } else {
        String::new()
    };
    let head_epoch_v: i64 = if git_log.len() > 0 {
        git_log[0].date_epoch
    } else {
        0
    };
    let head_date_v: String = if git_log.len() > 0 {
        git_log[0].date.clone()
    } else {
        String::new()
    };
    let mut r = cached;
    r.remove_per_file_records_for(changed_paths);
    let ghost surv = r.per_file_tech@;
    let ghost sl = surv.len() as int;
    proof {
        lemma_survivors_sub(cached.per_file_tech@, changed_paths@);
        assert(changed@.take(0) =~= Seq::<FileBlob>::empty());
        assert(r.per_file_tech@.skip(sl) =~= Seq::<Tech>::empty());
    }
    let nf = changed.len();
    let mut j: usize = 0;
    while j < nf
        invariant
            cached.wf(),
            nf == changed@.len(),
            j <= nf,
            forall|a: int, b: int| 0 <= a < b < changed@.len() ==> (#[trigger] changed@[a]).name@
                != (#[trigger] changed@[b]).name@,
            forall|a: int| 0 <= a < changed@.len() ==> changed_paths@.contains(
                (#[trigger] changed@[a]).name@,
            ),
            surv == survivors(cached.per_file_tech@, changed_paths@),
            sl == surv.len() as int,
            forall|k: int| 0 <= k < sl ==> !changed_paths@.contains(name_of(#[trigger] surv[k])),
            head_sha1@ == head_sha(git_log@),
            head_epoch_v == head_epoch(git_log@),
            head_date_v@ == head_date(git_log@),
            (match hint {
                Some(t) => cached.tree_files matches Some(c) && t@ == c@,
                None => cached.tree_files is None,
            }),
            r.wf(),
            fkeys_unique(r.per_file_tech@),
            r.per_file_tech@.len() >= sl,
            forall|k: int| 0 <= k < sl ==> #[trigger] r.per_file_tech@[k] == surv[k],
            per_file_assembled(
                munchers@,
                ext_map@,
                changed@.take(j as int),
                git_log@,
                crate::report::opt_strset_view(cached.tree_files),
                r.per_file_tech@.skip(sl),
            ),
            r.tech == cached.tech,
            r.timestamp == cached.timestamp,
            r.unprocessed_file_names == cached.unprocessed_file_names,
            r.unknown_file_types == cached.unknown_file_types,
            r.github_user_name == cached.github_user_name,
            r.github_repo_name == cached.github_repo_name,
            r.remote_url_hashes == cached.remote_url_hashes,
            r.report_id == cached.report_id,
            r.report_s3_name == cached.report_s3_name,
            r.report_commit_sha1 == cached.report_commit_sha1,
            r.log_hash == cached.log_hash,
            r.reports_included == cached.reports_included,
            r.git_ids_included == cached.git_ids_included,
            r.contributors == cached.contributors,
            r.contributor_git_ids == cached.contributor_git_ids,
            r.date_init == cached.date_init,
            r.date_head == cached.date_head,
            r.tree_files == cached.tree_files,
            r.is_single_commit == cached.is_single_commit,
            r.last_commit_author == cached.last_commit_author,
        decreases nf - j,
    {
        let ghost prev_changed = changed@.take(j as int);
        let ghost prev_records = r.per_file_tech@;
        proof {
            assert(changed@.take(j + 1).drop_last() =~= prev_changed);
            assert(changed@.take(j + 1).last() == changed@[j as int]);
        }
        match pick_muncher(ext_map, munchers.len(), &changed[j].name) {
            Some(mi) => {
                let hint_ref: Option<&StrSet> = match &hint {
                    Some(t) => Some(t),
                    None => None,
                };
                let t = process_file(
                    &changed[j].name,
                    &munchers[mi],
                    &head_sha1,
                    head_epoch_v,
                    &head_date_v,
                    &changed[j].bytes,
                    hint_ref,
                );
                proof {
                    assert(per_file_ok(
                        t,
                        changed@[j as int],
                        munchers@[mi as int],
                        git_log@,
                        crate::report::opt_strset_view(cached.tree_files),
                    ));
                    assert forall|k: int| 0 <= k < prev_records.len() implies fkey(
                        #[trigger] prev_records[k],
                    ) != fkey(t) by {
                        if k < sl {
                            assert(prev_records[k] == surv[k]);
                            assert(!changed_paths@.contains(name_of(surv[k])));
                        } else {
                            let pidxs = matched_idxs(
                                ext_map@,
                                munchers@.len() as int,
                                prev_changed,
                            );
                            lemma_matched_idxs_bounds(
                                ext_map@,
                                munchers@.len() as int,
                                prev_changed,
                            );
                            let kk = k - sl;
                            assert(per_file_ok(
                                prev_records.skip(sl)[kk],
                                prev_changed[pidxs[kk]],
                                munchers@[pick_spec(
                                    ext_map@,
                                    munchers@.len() as int,
                                    prev_changed[pidxs[kk]].name@,
                                ).unwrap()],
                                git_log@,
                                crate::report::opt_strset_view(cached.tree_files),
                            ));
                            assert(prev_records.skip(sl)[kk] == prev_records[k]);
                            assert(prev_changed[pidxs[kk]] == changed@[pidxs[kk]]);
                            assert(changed@[pidxs[kk]].name@ != changed@[j as int].name@);
                        }
                    }
                }
                r.per_file_tech.push(t);
                proof {
                    let idxs = matched_idxs(ext_map@, munchers@.len() as int, changed@.take(j + 1));
                    assert(idxs =~= matched_idxs(
                        ext_map@,
                        munchers@.len() as int,
                        prev_changed,
                    ).push(j as int));
                    assert(r.per_file_tech@.skip(sl) =~= prev_records.skip(sl).push(t));
                    assert forall|k: int|
                        0 <= k < idxs.len() implies per_file_ok(
                        #[trigger] r.per_file_tech@.skip(sl)[k],
                        changed@.take(j + 1)[idxs[k]],
                        munchers@[pick_spec(
                            ext_map@,
                            munchers@.len() as int,
                            changed@.take(j + 1)[idxs[k]].name@,
                        ).unwrap()],
                        git_log@,
                        crate::report::opt_strset_view(cached.tree_files),
                    ) by {
                        if k < idxs.len() - 1 {
                            let pidxs = matched_idxs(
                                ext_map@,
                                munchers@.len() as int,
                                prev_changed,
                            );
                            assert(r.per_file_tech@.skip(sl)[k] == prev_records.skip(sl)[k]);
                            assert(idxs[k] == pidxs[k]);
                            lemma_matched_idxs_bounds(
                                ext_map@,
                                munchers@.len() as int,
                                prev_changed,
                            );
                            assert(changed@.take(j + 1)[idxs[k]] == prev_changed[pidxs[k]]);
                        } else {
                            assert(idxs[k] == j as int);
                            assert(r.per_file_tech@.skip(sl)[k] == t);
                            assert(changed@.take(j + 1)[j as int] == changed@[j as int]);
                        }
                    }
                }
            },
            None => {
                proof {
                    let idxs = matched_idxs(ext_map@, munchers@.len() as int, changed@.take(j + 1));
                    assert(idxs =~= matched_idxs(ext_map@, munchers@.len() as int, prev_changed));
                    assert forall|k: int|
                        0 <= k < idxs.len() implies per_file_ok(
                        #[trigger] r.per_file_tech@.skip(sl)[k],
                        changed@.take(j + 1)[idxs[k]],
                        munchers@[pick_spec(
                            ext_map@,
                            munchers@.len() as int,
                            changed@.take(j + 1)[idxs[k]].name@,
                        ).unwrap()],
                        git_log@,
                        crate::report::opt_strset_view(cached.tree_files),
                    ) by {
                        let pidxs = matched_idxs(ext_map@, munchers@.len() as int, prev_changed);
                        lemma_matched_idxs_bounds(ext_map@, munchers@.len() as int, prev_changed);
                        assert(changed@.take(j + 1)[idxs[k]] == prev_changed[pidxs[k]]);
                    }
                }
            },
        }
        j += 1;
    }
    proof {
        assert(changed@.take(nf as int) =~= changed@);
    }
    r.recompute_tech_section();
    let mut r = r.add_commits_history(git_log, remote_lines);
    r.is_single_commit = true;
    r
}

} // verus!
