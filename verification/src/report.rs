//! The report: per-language and per-file analysis records with provenance,
//! and the algebra that merges reports.

use vstd::prelude::*;
use vstd::string::StrSliceExecFns;
use vstd::string::StringExecFns;

use crate::contributor::Contributor;
use crate::contributor::contributors_ok;
use crate::contributor::git_identity;
use crate::contributor::ids_cover;
use crate::contributor::log_has_author;
use crate::vcs::GitLogEntry;
use crate::vcs::hash_commit_list;
use crate::vcs::hash_remote_urls;
use crate::vcs::log_hash_of;
use crate::kwc::KwcEntry;
use crate::kwc::KwcSet;
use crate::kwc::KwcVal;
use crate::kwc::kwc_inc;
use crate::kwc::kwc_merge;
use crate::strset::StrSet;
use crate::tech::Tech;
use crate::tech::TechData;
use crate::tech::TechId;
use crate::tech::data_kinds_none;
use crate::tech::data_merge;
use crate::tech::fkey;
use crate::tech::FileKey;
use crate::tech::opt_kwc_view;
use crate::text::ext_of;
use crate::text::ext_of_exec;
use crate::text::lex_lt;
use crate::text::str_lt;

verus! {

/// The suffix of every report object name.
pub const REPORT_FILE_NAME_SUFFIX: &'static str = ".report";

/// The analysis of one project, or of one contributor across projects.
pub struct Report {
    /// One aggregated record per language.
    pub tech: Vec<Tech>,
    /// One record per analyzed file.
    pub per_file_tech: Vec<Tech>,
    pub timestamp: String,
    pub unprocessed_file_names: StrSet,
    pub unknown_file_types: KwcSet,
    pub github_user_name: String,
    pub github_repo_name: String,
    pub remote_url_hashes: Option<StrSet>,
    pub report_id: String,
    pub report_s3_name: String,
    pub report_commit_sha1: Option<String>,
    pub log_hash: Option<String>,
    pub reports_included: StrSet,
    pub git_ids_included: StrSet,
    pub contributors: Option<Vec<Contributor>>,
    pub contributor_git_ids: Option<StrSet>,
    pub date_init: Option<String>,
    pub date_head: Option<String>,
    pub tree_files: Option<StrSet>,
    pub is_single_commit: bool,
    pub last_commit_author: Option<String>,
}

/// The identity a record takes once its file and commit coordinates are
/// stripped: the language alone.
pub open spec fn reset_id(t: Tech) -> TechId {
    TechId {
        language: t.language@,
        muncher_name: Seq::<char>::empty(),
        file_name: None,
        commit_sha1: None,
    }
}

/// The map a sequence of records stands for: each identity to its counters.
pub open spec fn tmap(s: Seq<Tech>) -> Map<TechId, TechData>
    decreases s.len(),
{
    if s.len() == 0 {
        Map::empty()
    } else {
        tmap(s.drop_last()).insert(s.last().id(), s.last().data())
    }
}

/// No two records of the sequence share an identity.
pub open spec fn ids_unique(s: Seq<Tech>) -> bool {
    forall|i: int, j: int| 0 <= i < j < s.len() ==> (#[trigger] s[i]).id() != (#[trigger] s[j]).id()
}

/// What holds of every row of the aggregated tech section.
pub open spec fn tech_rows_ok(s: Seq<Tech>) -> bool {
    &&& ids_unique(s)
    &&& forall|i: int| 0 <= i < s.len() ==> (#[trigger] s[i]).wf()
    &&& forall|i: int| 0 <= i < s.len() ==> (#[trigger] s[i]).id() == reset_id(s[i])
}

/// Folding one record into the per-language map: its counters merge into
/// the record of its language, or open it.
pub open spec fn tech_fold1(m: Map<TechId, TechData>, t: Tech) -> Map<TechId, TechData> {
    let id = reset_id(t);
    if m.contains_key(id) {
        m.insert(id, data_merge(m[id], t.data()))
    } else {
        m.insert(id, t.data())
    }
}

/// Folding a whole sequence of records, first to last.
pub open spec fn tech_fold(m: Map<TechId, TechData>, s: Seq<Tech>) -> Map<TechId, TechData>
    decreases s.len(),
{
    if s.len() == 0 {
        m
    } else {
        tech_fold1(tech_fold(m, s.drop_last()), s.last())
    }
}

/// Pointwise merge of two per-language maps.
pub open spec fn tech_union(
    m1: Map<TechId, TechData>,
    m2: Map<TechId, TechData>,
) -> Map<TechId, TechData> {
    Map::new(
        |id: TechId| m1.contains_key(id) || m2.contains_key(id),
        |id: TechId|
            if m1.contains_key(id) && m2.contains_key(id) {
                data_merge(m1[id], m2[id])
            } else if m1.contains_key(id) {
                m1[id]
            } else {
                m2[id]
            },
    )
}

proof fn lemma_tmap_contains(s: Seq<Tech>, id: TechId)
    ensures
        tmap(s).contains_key(id) <==> exists|i: int| 0 <= i < s.len() && (#[trigger] s[i]).id()
            == id,
    decreases s.len(),
{
    if s.len() > 0 {
        lemma_tmap_contains(s.drop_last(), id);
        if s.last().id() == id {
            assert((s[s.len() - 1]).id() == id);
        } else if tmap(s).contains_key(id) {
            let i = choose|i: int|
                0 <= i < s.drop_last().len() && (#[trigger] s.drop_last()[i]).id() == id;
            assert(s[i].id() == id);
        } else if exists|i: int| 0 <= i < s.len() && (#[trigger] s[i]).id() == id {
            let i = choose|i: int| 0 <= i < s.len() && (#[trigger] s[i]).id() == id;
            assert(i < s.len() - 1);
            assert((s.drop_last()[i]).id() == id);
        }
    }
}

proof fn lemma_tmap_index(s: Seq<Tech>, i: int)
    requires
        ids_unique(s),
        0 <= i < s.len(),
    ensures
        tmap(s).contains_key(s[i].id()),
        tmap(s)[s[i].id()] == s[i].data(),
    decreases s.len(),
{
    lemma_tmap_contains(s, s[i].id());
    if i < s.len() - 1 {
        assert(s.drop_last()[i] == s[i]);
        lemma_tmap_index(s.drop_last(), i);
        assert(s[i].id() != s.last().id());
    }
}

proof fn lemma_tmap_remove(s: Seq<Tech>, i: int)
    requires
        ids_unique(s),
        0 <= i < s.len(),
    ensures
        tmap(s.remove(i)) =~= tmap(s).remove(s[i].id()),
        ids_unique(s.remove(i)),
        forall|k: int| 0 <= k < s.len() - 1 ==> #[trigger] s.remove(i)[k] == (if k < i {
            s[k]
        } else {
            s[k + 1]
        }),
    decreases s.len(),
{
    assert(forall|k: int| 0 <= k < s.len() - 1 ==> #[trigger] s.remove(i)[k] == (if k < i {
        s[k]
    } else {
        s[k + 1]
    }));
    if i == s.len() - 1 {
        assert(s.remove(i) =~= s.drop_last());
        lemma_tmap_contains(s.drop_last(), s[i].id());
        assert(!tmap(s.drop_last()).contains_key(s[i].id()));
        assert(tmap(s.drop_last()) =~= tmap(s).remove(s[i].id()));
    } else {
        assert(s.remove(i).drop_last() =~= s.drop_last().remove(i));
        assert(s.remove(i).last() == s.last());
        lemma_tmap_remove(s.drop_last(), i);
        assert(s.drop_last()[i] == s[i]);
        assert(s.last().id() != s[i].id());
    }
}

proof fn lemma_tmap_push(s: Seq<Tech>, t: Tech)
    ensures
        tmap(s.push(t)) =~= tmap(s).insert(t.id(), t.data()),
{
    assert(s.push(t).drop_last() =~= s);
    assert(s.push(t).last() == t);
}

/// Every value of the per-language map is the data of one of its rows.
proof fn lemma_tmap_values(s: Seq<Tech>)
    requires
        ids_unique(s),
    ensures
        forall|id: TechId| #[trigger] tmap(s).contains_key(id) ==> exists|i: int|
            0 <= i < s.len() && (#[trigger] s[i]).id() == id && tmap(s)[id] == s[i].data(),
{
    assert forall|id: TechId| #[trigger] tmap(s).contains_key(id) implies exists|i: int|
        0 <= i < s.len() && (#[trigger] s[i]).id() == id && tmap(s)[id] == s[i].data() by {
        lemma_tmap_contains(s, id);
        let i = choose|i: int| 0 <= i < s.len() && (#[trigger] s[i]).id() == id;
        lemma_tmap_index(s, i);
    }
}

/// Fold one record into a set of per-language rows.
pub fn fold_record(rows: &mut Vec<Tech>, tech: Tech)
    requires
        tech_rows_ok(old(rows)@),
        tech.wf(),
    ensures
        tech_rows_ok(final(rows)@),
        tmap(final(rows)@) == tech_fold1(tmap(old(rows)@), tech),
        (norm_counts(tech) && (forall|i: int|
            0 <= i < old(rows)@.len() ==> normalized_row(#[trigger] old(rows)@[i]))) ==> (
        forall|i: int| 0 <= i < final(rows)@.len() ==> normalized_row(#[trigger] final(rows)@[i])),
        (data_kinds_none(tech.data()) && (forall|i: int|
            0 <= i < old(rows)@.len() ==> data_kinds_none(
                (#[trigger] old(rows)@[i]).data(),
            ))) ==> (forall|i: int| 0 <= i < final(rows)@.len() ==> data_kinds_none(
            (#[trigger] final(rows)@[i]).data(),
        )),
{
    let t = tech.reset_file_and_commit_info();
    let n = rows.len();
    let mut i: usize = 0;
    while i < n
        invariant
            tech_rows_ok(rows@),
            *rows == *old(rows),
            t.id() == reset_id(tech),
            t.data() == tech.data(),
            t.wf(),
            norm_counts(tech) ==> normalized_row(t),
            n == rows@.len(),
            i <= n,
            forall|k: int| 0 <= k < i as int ==> (#[trigger] rows@[k]).id() != t.id(),
        decreases n - i,
    {
        if rows[i].same_identity(&t) {
            let row = rows.remove(i);
            proof {
                lemma_tmap_remove(old(rows)@, i as int);
                lemma_tmap_index(old(rows)@, i as int);
            }
            let merged = row.merged_with(&t);
            proof {
                if norm_counts(tech) && (forall|k: int|
                    0 <= k < old(rows)@.len() ==> normalized_row(#[trigger] old(rows)@[k])) {
                    assert(normalized_row(old(rows)@[i as int]));
                    lemma_data_merge_kinds_none(old(rows)@[i as int].data(), t.data());
                    assert(merged.id() =~= reset_id(merged));
                    assert(normalized_row(merged));
                }
            }
            rows.push(merged);
            proof {
                lemma_tmap_push(old(rows)@.remove(i as int), merged);
                assert forall|a: int, b: int| 0 <= a < b < rows@.len() implies (
                #[trigger] rows@[a]).id() != (#[trigger] rows@[b]).id() by {
                    if b < rows@.len() - 1 {
                        assert(rows@[a] == old(rows)@.remove(i as int)[a]);
                        assert(rows@[b] == old(rows)@.remove(i as int)[b]);
                    } else {
                        assert(rows@[a] == old(rows)@.remove(i as int)[a]);
                        lemma_tmap_contains(old(rows)@.remove(i as int), merged.id());
                    }
                }
                assert(tmap(rows@) =~= tech_fold1(tmap(old(rows)@), tech));
                if norm_counts(tech) && (forall|k: int|
                    0 <= k < old(rows)@.len() ==> normalized_row(#[trigger] old(rows)@[k])) {
                    assert forall|k: int| 0 <= k < rows@.len() implies normalized_row(
                        #[trigger] rows@[k],
                    ) by {
                        if k < rows@.len() - 1 {
                            assert(rows@[k] == old(rows)@.remove(i as int)[k]);
                        }
                    }
                }
            }
            return ;
        }
        i += 1;
    }
    proof {
        lemma_tmap_contains(rows@, t.id());
        lemma_tmap_push(rows@, t);
    }
    let ghost before = rows@;
    rows.push(t);
    proof {
        assert forall|a: int, b: int| 0 <= a < b < rows@.len() implies (#[trigger] rows@[a]).id()
            != (#[trigger] rows@[b]).id() by {
            if b < rows@.len() - 1 {
                assert(rows@[a] == before[a]);
                assert(rows@[b] == before[b]);
            } else {
                assert(rows@[a] == before[a]);
            }
        }
        assert(tmap(rows@) =~= tech_fold1(tmap(before), tech));
        if norm_counts(tech) && (forall|k: int|
            0 <= k < old(rows)@.len() ==> normalized_row(#[trigger] old(rows)@[k])) {
            assert forall|k: int| 0 <= k < rows@.len() implies normalized_row(
                #[trigger] rows@[k],
            ) by {
                if k < rows@.len() - 1 {
                    assert(rows@[k] == before[k]);
                }
            }
        }
    }
}

/// A fresh report identifier.
///
/// Relies on uuid's Uuid::new_v4 and its hyphenated rendering through
/// Display: a version-4 UUID printed as 36 characters. Nothing is promised
/// of which UUID comes back.
#[verifier::external_body]
fn fresh_report_id() -> (r: String)
    ensures
        r@.len() == 36,
{
    uuid::Uuid::new_v4().to_string()
}

/// The present moment, rendered for the report.
///
/// Relies on chrono's Utc::now and DateTime::to_rfc3339: an RFC 3339
/// rendering of the clock, never empty. Nothing is promised of the moment
/// read.
#[verifier::external_body]
fn utc_now_rfc3339() -> (r: String)
    ensures
        r@.len() > 0,
{
    chrono::Utc::now().to_rfc3339()
}

impl Report {
    /// Every collection inside is well formed.
    pub open spec fn wf(&self) -> bool {
        &&& tech_rows_ok(self.tech@)
        &&& forall|i: int| 0 <= i < self.per_file_tech@.len() ==> (
        #[trigger] self.per_file_tech@[i]).wf()
        &&& self.unprocessed_file_names.wf()
        &&& self.unknown_file_types.wf()
        &&& self.reports_included.wf()
        &&& self.git_ids_included.wf()
        &&& (self.remote_url_hashes matches Some(s) ==> s.wf())
        &&& (self.contributor_git_ids matches Some(s) ==> s.wf())
        &&& (self.tree_files matches Some(s) ==> s.wf())
    }

    /// A blank report: a fresh identifier, the present moment, and nothing
    /// else.
    pub fn new() -> (r: Report)
        ensures
            r.wf(),
            r.tech@.len() == 0,
            r.per_file_tech@.len() == 0,
            r.timestamp@.len() > 0,
            r.unprocessed_file_names@ == Set::<Seq<char>>::empty(),
            r.unknown_file_types@ == Map::<Seq<char>, KwcVal>::empty(),
            r.github_user_name@ == Seq::<char>::empty(),
            r.github_repo_name@ == Seq::<char>::empty(),
            r.remote_url_hashes is None,
            r.report_id@.len() == 36,
            r.report_s3_name@ == Seq::<char>::empty(),
            r.report_commit_sha1 is None,
            r.log_hash is None,
            r.reports_included@ == Set::<Seq<char>>::empty(),
            r.git_ids_included@ == Set::<Seq<char>>::empty(),
            r.contributors is None,
            r.contributor_git_ids is None,
            r.date_init is None,
            r.date_head is None,
            r.tree_files is None,
            !r.is_single_commit,
            r.last_commit_author is None,
    {
        Report {
            tech: Vec::new(),
            per_file_tech: Vec::new(),
            timestamp: utc_now_rfc3339(),
            unprocessed_file_names: StrSet::new(),
            unknown_file_types: KwcSet::new(),
            github_user_name: String::new(),
            github_repo_name: String::new(),
            remote_url_hashes: None,
            report_id: fresh_report_id(),
            report_s3_name: String::new(),
            report_commit_sha1: None,
            log_hash: None,
            reports_included: StrSet::new(),
            git_ids_included: StrSet::new(),
            contributors: None,
            contributor_git_ids: None,
            date_init: None,
            date_head: None,
            tree_files: None,
            is_single_commit: false,
            last_commit_author: None,
        }
    }
}

/// The counters of a record once its reference and package summaries are
/// recomputed from its references and packages.
pub open spec fn norm_data(t: Tech) -> TechData {
    TechData { refs_kw: Some(t.refs.summary()), pkgs_kw: Some(t.pkgs.summary()), ..t.data() }
}

/// Folding one record into the per-language map with its summaries
/// recomputed first.
pub open spec fn norm_fold1(m: Map<TechId, TechData>, t: Tech) -> Map<TechId, TechData> {
    let id = reset_id(t);
    if m.contains_key(id) {
        m.insert(id, data_merge(m[id], norm_data(t)))
    } else {
        m.insert(id, norm_data(t))
    }
}

/// Folding a whole sequence of records with recomputed summaries.
pub open spec fn norm_fold(m: Map<TechId, TechData>, s: Seq<Tech>) -> Map<TechId, TechData>
    decreases s.len(),
{
    if s.len() == 0 {
        m
    } else {
        norm_fold1(norm_fold(m, s.drop_last()), s.last())
    }
}

/// Rebuild a tech section from records, recomputing each record's
/// summaries on the way in.
fn normalized_rows(rows: &Vec<Tech>) -> (r: Vec<Tech>)
    requires
        forall|i: int| 0 <= i < rows@.len() ==> (#[trigger] rows@[i]).wf(),
    ensures
        tech_rows_ok(r@),
        tmap(r@) == norm_fold(Map::<TechId, TechData>::empty(), rows@),
        (forall|i: int| 0 <= i < rows@.len() ==> data_kinds_none(
            (#[trigger] rows@[i]).data(),
        )) ==> (forall|i: int| 0 <= i < r@.len() ==> normalized_row(#[trigger] r@[i])),
{
    let mut r: Vec<Tech> = Vec::new();
    let n = rows.len();
    let mut i: usize = 0;
    proof {
        assert(rows@.take(0) =~= Seq::<Tech>::empty());
    }
    while i < n
        invariant
            forall|k: int| 0 <= k < rows@.len() ==> (#[trigger] rows@[k]).wf(),
            n == rows@.len(),
            i <= n,
            tech_rows_ok(r@),
            tmap(r@) == norm_fold(Map::<TechId, TechData>::empty(), rows@.take(i as int)),
            (forall|k: int| 0 <= k < rows@.len() ==> data_kinds_none(
                (#[trigger] rows@[k]).data(),
            )) ==> (forall|k: int| 0 <= k < r@.len() ==> normalized_row(#[trigger] r@[k])),
        decreases n - i,
    {
        let mut t = rows[i].duplicate();
        let refs_kw = Tech::new_kw_summary(&t.refs);
        t.refs_kw = refs_kw;
        let pkgs_kw = Tech::new_kw_summary(&t.pkgs);
        t.pkgs_kw = pkgs_kw;
        proof {
            assert(t.data() =~= norm_data(rows@[i as int]));
            assert(reset_id(t) == reset_id(rows@[i as int]));
            assert(rows@.take(i + 1).drop_last() =~= rows@.take(i as int));
            assert(rows@.take(i + 1).last() == rows@[i as int]);
            if forall|k: int| 0 <= k < rows@.len() ==> data_kinds_none(
                (#[trigger] rows@[k]).data(),
            ) {
                crate::kwc::lemma_summary_kinds_none(t.refs);
                crate::kwc::lemma_summary_kinds_none(t.pkgs);
                assert(data_kinds_none(rows@[i as int].data()));
                assert(norm_counts(t));
            }
        }
        fold_record(&mut r, t);
        i += 1;
    }
    proof {
        assert(rows@.take(n as int) =~= rows@);
    }
    r
}

/// Folding a well-formed set of rows into a map is its pointwise union
/// with the map the rows stand for.
proof fn lemma_tech_fold_union(m: Map<TechId, TechData>, rows: Seq<Tech>)
    requires
        tech_rows_ok(rows),
    ensures
        tech_fold(m, rows) =~= tech_union(m, tmap(rows)),
    decreases rows.len(),
{
    if rows.len() == 0 {
        assert(tech_fold(m, rows) =~= tech_union(m, tmap(rows)));
    } else {
        let init = rows.drop_last();
        assert(tech_rows_ok(init)) by {
            assert(forall|i: int| 0 <= i < init.len() ==> init[i] == rows[i]);
        }
        lemma_tech_fold_union(m, init);
        let t = rows.last();
        let id = t.id();
        assert(id == reset_id(t));
        lemma_tmap_contains(init, id);
        assert(!tmap(init).contains_key(id)) by {
            if exists|i: int| 0 <= i < init.len() && (#[trigger] init[i]).id() == id {
                let i = choose|i: int| 0 <= i < init.len() && (#[trigger] init[i]).id() == id;
                assert(rows[i].id() == rows[rows.len() - 1].id());
                assert(false);
            }
        }
        assert(tech_fold(m, rows) =~= tech_union(m, tmap(rows)));
    }
}

/// The map from file keys to the records that hold them.
pub open spec fn pfmap(s: Seq<Tech>) -> Map<FileKey, Tech>
    decreases s.len(),
{
    if s.len() == 0 {
        Map::empty()
    } else {
        pfmap(s.drop_last()).insert(fkey(s.last()), s.last())
    }
}

/// No two per-file records share a file key.
pub open spec fn fkeys_unique(s: Seq<Tech>) -> bool {
    forall|i: int, j: int| 0 <= i < j < s.len() ==> fkey(#[trigger] s[i]) != fkey(#[trigger] s[j])
}

/// Whether the left epoch is strictly later; an absent epoch is earliest.
pub open spec fn epoch_gt(a: Option<i64>, b: Option<i64>) -> bool {
    match a {
        None => false,
        Some(x) => match b {
            None => true,
            Some(y) => x > y,
        },
    }
}

/// Most-recent-commit-wins union of two per-file maps: on a shared key the
/// record with the later commit survives, the incoming side on a tie.
pub open spec fn recency_union(m1: Map<FileKey, Tech>, m2: Map<FileKey, Tech>) -> Map<
    FileKey,
    Tech,
> {
    Map::new(
        |k: FileKey| m1.contains_key(k) || m2.contains_key(k),
        |k: FileKey|
            if m1.contains_key(k) && m2.contains_key(k) {
                if epoch_gt(m1[k].commit_date_epoch, m2[k].commit_date_epoch) {
                    m1[k]
                } else {
                    m2[k]
                }
            } else if m1.contains_key(k) {
                m1[k]
            } else {
                m2[k]
            },
    )
}

proof fn lemma_pfmap_contains(s: Seq<Tech>, k: FileKey)
    ensures
        pfmap(s).contains_key(k) <==> exists|i: int| 0 <= i < s.len() && fkey(#[trigger] s[i])
            == k,
    decreases s.len(),
{
    if s.len() > 0 {
        lemma_pfmap_contains(s.drop_last(), k);
        if fkey(s.last()) == k {
            assert(fkey(s[s.len() - 1]) == k);
        } else if pfmap(s).contains_key(k) {
            let i = choose|i: int|
                0 <= i < s.drop_last().len() && fkey(#[trigger] s.drop_last()[i]) == k;
            assert(fkey(s[i]) == k);
        } else if exists|i: int| 0 <= i < s.len() && fkey(#[trigger] s[i]) == k {
            let i = choose|i: int| 0 <= i < s.len() && fkey(#[trigger] s[i]) == k;
            assert(i < s.len() - 1);
            assert(fkey(s.drop_last()[i]) == k);
        }
    }
}

proof fn lemma_pfmap_index(s: Seq<Tech>, i: int)
    requires
        fkeys_unique(s),
        0 <= i < s.len(),
    ensures
        pfmap(s).contains_key(fkey(s[i])),
        pfmap(s)[fkey(s[i])] == s[i],
    decreases s.len(),
{
    lemma_pfmap_contains(s, fkey(s[i]));
    if i < s.len() - 1 {
        assert(s.drop_last()[i] == s[i]);
        lemma_pfmap_index(s.drop_last(), i);
        assert(fkey(s[i]) != fkey(s.last()));
    }
}

proof fn lemma_pfmap_remove(s: Seq<Tech>, i: int)
    requires
        fkeys_unique(s),
        0 <= i < s.len(),
    ensures
        pfmap(s.remove(i)) =~= pfmap(s).remove(fkey(s[i])),
        fkeys_unique(s.remove(i)),
        forall|k: int| 0 <= k < s.len() - 1 ==> #[trigger] s.remove(i)[k] == (if k < i {
            s[k]
        } else {
            s[k + 1]
        }),
    decreases s.len(),
{
    assert(forall|k: int| 0 <= k < s.len() - 1 ==> #[trigger] s.remove(i)[k] == (if k < i {
        s[k]
    } else {
        s[k + 1]
    }));
    if i == s.len() - 1 {
        assert(s.remove(i) =~= s.drop_last());
        lemma_pfmap_contains(s.drop_last(), fkey(s[i]));
        assert(!pfmap(s.drop_last()).contains_key(fkey(s[i])));
        assert(pfmap(s.drop_last()) =~= pfmap(s).remove(fkey(s[i])));
    } else {
        assert(s.remove(i).drop_last() =~= s.drop_last().remove(i));
        assert(s.remove(i).last() == s.last());
        lemma_pfmap_remove(s.drop_last(), i);
        assert(s.drop_last()[i] == s[i]);
        assert(fkey(s.last()) != fkey(s[i]));
    }
}

proof fn lemma_pfmap_push(s: Seq<Tech>, t: Tech)
    ensures
        pfmap(s.push(t)) =~= pfmap(s).insert(fkey(t), t),
{
    assert(s.push(t).drop_last() =~= s);
    assert(s.push(t).last() == t);
}

impl Report {
    /// Fold one record into the tech section, per language: counters of a
    /// language already present add up, a new language opens a record. The
    /// record's file and commit coordinates are stripped on the way in.
    pub fn merge_tech_record(&mut self, tech: Tech)
        requires
            old(self).wf(),
            tech.wf(),
        ensures
            final(self).wf(),
            tmap(final(self).tech@) == tech_fold1(tmap(old(self).tech@), tech),
            eq_but_tech(*final(self), *old(self)),
    {
        fold_record(&mut self.tech, tech);
    }

    /// Throw the tech section away and refold every per-file record.
    pub fn recompute_tech_section(&mut self)
        requires
            old(self).wf(),
        ensures
            final(self).wf(),
            tmap(final(self).tech@) == tech_fold(
                Map::<TechId, TechData>::empty(),
                old(self).per_file_tech@,
            ),
            eq_but_tech(*final(self), *old(self)),
            (forall|i: int| 0 <= i < old(self).per_file_tech@.len() ==> data_kinds_none(
                (#[trigger] old(self).per_file_tech@[i]).data(),
            )) ==> (forall|i: int| 0 <= i < final(self).tech@.len() ==> data_kinds_none(
                (#[trigger] final(self).tech@[i]).data(),
            )),
    {
        self.tech = Vec::new();
        let n = self.per_file_tech.len();
        let mut i: usize = 0;
        proof {
            assert(self.per_file_tech@.take(0) =~= Seq::<Tech>::empty());
        }
        while i < n
            invariant
                old(self).wf(),
                self.per_file_tech == old(self).per_file_tech,
                eq_but_tech(*self, *old(self)),
                n == self.per_file_tech@.len(),
                i <= n,
                tech_rows_ok(self.tech@),
                tmap(self.tech@) == tech_fold(
                    Map::<TechId, TechData>::empty(),
                    self.per_file_tech@.take(i as int),
                ),
                (forall|k: int| 0 <= k < self.per_file_tech@.len() ==> data_kinds_none(
                    (#[trigger] self.per_file_tech@[k]).data(),
                )) ==> (forall|k: int| 0 <= k < self.tech@.len() ==> data_kinds_none(
                    (#[trigger] self.tech@[k]).data(),
                )),
            decreases n - i,
        {
            let t = self.per_file_tech[i].duplicate();
            proof {
                assert(self.per_file_tech@.take(i + 1).drop_last() =~= self.per_file_tech@.take(
                    i as int,
                ));
                assert(self.per_file_tech@.take(i + 1).last() == self.per_file_tech@[i as int]);
                assert(reset_id(t) == reset_id(self.per_file_tech@[i as int]));
            }
            fold_record(&mut self.tech, t);
            i += 1;
        }
        proof {
            assert(self.per_file_tech@.take(n as int) =~= self.per_file_tech@);
        }
    }
}

/// The two reports agree on everything but the tech section.
pub open spec fn eq_but_tech(a: Report, b: Report) -> bool {
    &&& a.per_file_tech == b.per_file_tech
    &&& a.timestamp == b.timestamp
    &&& a.unprocessed_file_names == b.unprocessed_file_names
    &&& a.unknown_file_types == b.unknown_file_types
    &&& a.github_user_name == b.github_user_name
    &&& a.github_repo_name == b.github_repo_name
    &&& a.remote_url_hashes == b.remote_url_hashes
    &&& a.report_id == b.report_id
    &&& a.report_s3_name == b.report_s3_name
    &&& a.report_commit_sha1 == b.report_commit_sha1
    &&& a.log_hash == b.log_hash
    &&& a.reports_included == b.reports_included
    &&& a.git_ids_included == b.git_ids_included
    &&& a.contributors == b.contributors
    &&& a.contributor_git_ids == b.contributor_git_ids
    &&& a.date_init == b.date_init
    &&& a.date_head == b.date_head
    &&& a.tree_files == b.tree_files
    &&& a.is_single_commit == b.is_single_commit
    &&& a.last_commit_author == b.last_commit_author
}

/// The view of an optional string set.
pub open spec fn opt_strset_view(o: Option<StrSet>) -> Option<Set<Seq<char>>> {
    match o {
        Some(s) => Some(s@),
        None => None,
    }
}

/// The later of two optional dates, compared as RFC 3339 text; a master
/// date stands unless the other is strictly later or the master has none.
pub open spec fn merged_head(a: Option<Seq<char>>, b: Option<Seq<char>>) -> Option<Seq<char>> {
    match a {
        None => b,
        Some(x) => match b {
            Some(y) => if lex_lt(x, y) {
                Some(y)
            } else {
                Some(x)
            },
            None => Some(x),
        },
    }
}

/// The earlier of two optional dates, under the same convention.
pub open spec fn merged_init(a: Option<Seq<char>>, b: Option<Seq<char>>) -> Option<Seq<char>> {
    match a {
        None => b,
        Some(x) => match b {
            Some(y) => if lex_lt(y, x) {
                Some(y)
            } else {
                Some(x)
            },
            None => Some(x),
        },
    }
}

/// The union of contributor identities: nothing changes when the other
/// side brings none; otherwise the master side, empty when absent, grows.
pub open spec fn merged_ids(
    a: Option<Set<Seq<char>>>,
    b: Option<Set<Seq<char>>>,
) -> Option<Set<Seq<char>>> {
    match b {
        None => a,
        Some(bs) => match a {
            Some(aset) => Some(aset.union(bs)),
            None => Some(Set::<Seq<char>>::empty().union(bs)),
        },
    }
}

/// The later of two optional dates.
fn newer_date(a: Option<String>, b: &Option<String>) -> (r: Option<String>)
    ensures
        crate::kwc::view_opt_str(r) == merged_head(
            crate::kwc::view_opt_str(a),
            crate::kwc::view_opt_str(*b),
        ),
{
    match a {
        None => crate::kwc::clone_opt_string(b),
        Some(x) => match b {
            Some(y) => if str_lt(&x, y) {
                Some(y.clone())
            } else {
                Some(x)
            },
            None => Some(x),
        },
    }
}

/// The earlier of two optional dates.
fn older_date(a: Option<String>, b: &Option<String>) -> (r: Option<String>)
    ensures
        crate::kwc::view_opt_str(r) == merged_init(
            crate::kwc::view_opt_str(a),
            crate::kwc::view_opt_str(*b),
        ),
{
    match a {
        None => crate::kwc::clone_opt_string(b),
        Some(x) => match b {
            Some(y) => if str_lt(y, &x) {
                Some(y.clone())
            } else {
                Some(x)
            },
            None => Some(x),
        },
    }
}

/// What Report::merge promises of its result.
pub open spec fn merge_ensures(into: Option<Report>, other: Report, m: Report) -> bool {
    match into {
        None => {
            &&& tmap(m.tech@) == norm_fold(Map::<TechId, TechData>::empty(), other.tech@)
            &&& m.unprocessed_file_names@ == Set::<Seq<char>>::empty()
            &&& m.per_file_tech == other.per_file_tech
            &&& m.timestamp == other.timestamp
            &&& m.unknown_file_types == other.unknown_file_types
            &&& m.github_user_name == other.github_user_name
            &&& m.github_repo_name == other.github_repo_name
            &&& m.remote_url_hashes == other.remote_url_hashes
            &&& m.report_id == other.report_id
            &&& m.report_s3_name == other.report_s3_name
            &&& m.report_commit_sha1 == other.report_commit_sha1
            &&& m.log_hash == other.log_hash
            &&& m.reports_included == other.reports_included
            &&& m.git_ids_included == other.git_ids_included
            &&& m.contributors == other.contributors
            &&& m.contributor_git_ids == other.contributor_git_ids
            &&& m.date_init == other.date_init
            &&& m.date_head == other.date_head
            &&& m.tree_files == other.tree_files
            &&& m.is_single_commit == other.is_single_commit
            &&& m.last_commit_author == other.last_commit_author
            &&& rows_untagged(other) ==> tech_normalized(m)
        },
        Some(a) => {
            &&& tmap(m.tech@) == tech_union(
                tmap(a.tech@),
                norm_fold(Map::<TechId, TechData>::empty(), other.tech@),
            )
            &&& m.unknown_file_types@ == kwc_merge(a.unknown_file_types@, other.unknown_file_types@)
            &&& m.reports_included@ == if other.report_s3_name@.len() > 0 {
                a.reports_included@.insert(other.report_s3_name@)
            } else {
                a.reports_included@
            }
            &&& crate::kwc::view_opt_str(m.date_head) == merged_head(
                crate::kwc::view_opt_str(a.date_head),
                crate::kwc::view_opt_str(other.date_head),
            )
            &&& crate::kwc::view_opt_str(m.date_init) == merged_init(
                crate::kwc::view_opt_str(a.date_init),
                crate::kwc::view_opt_str(other.date_init),
            )
            &&& opt_strset_view(m.contributor_git_ids) == merged_ids(
                opt_strset_view(a.contributor_git_ids),
                opt_strset_view(other.contributor_git_ids),
            )
            &&& m.per_file_tech == a.per_file_tech
            &&& m.timestamp == a.timestamp
            &&& m.unprocessed_file_names == a.unprocessed_file_names
            &&& m.github_user_name == a.github_user_name
            &&& m.github_repo_name == a.github_repo_name
            &&& m.remote_url_hashes == a.remote_url_hashes
            &&& m.report_id == a.report_id
            &&& m.report_s3_name == a.report_s3_name
            &&& m.report_commit_sha1 == a.report_commit_sha1
            &&& m.log_hash == a.log_hash
            &&& m.git_ids_included == a.git_ids_included
            &&& m.contributors == a.contributors
            &&& m.tree_files == a.tree_files
            &&& m.is_single_commit == a.is_single_commit
            &&& m.last_commit_author == a.last_commit_author
            &&& (tech_normalized(a) && rows_untagged(other)) ==> tech_normalized(m)
        },
    }
}

impl Report {
    /// Merge one report into another, per language. The incoming report's
    /// tech section is first refolded with recomputed reference and package
    /// summaries and cleared muncher names. With no master, the incoming
    /// report itself is the result, its unprocessed names cleared; with
    /// one, the sections merge, the later head date and the earlier first
    /// date stand, and the contributor identities union.
    pub fn merge(merge_into: Option<Report>, other_report: Report) -> (r: Option<Report>)
        requires
            (merge_into matches Some(m) ==> m.wf()),
            other_report.wf(),
        ensures
            r matches Some(m) && m.wf() && merge_ensures(merge_into, other_report, m),
    {
        let ghost orig_other = other_report;
        let mut other = other_report;
        let rows = normalized_rows(&other.tech);
        other.tech = rows;
        proof {
            if rows_untagged(orig_other) {
                assert(forall|k: int| 0 <= k < orig_other.tech@.len() ==> data_kinds_none(
                    (#[trigger] orig_other.tech@[k]).data(),
                ));
            }
        }
        match merge_into {
            None => {
                other.unprocessed_file_names.clear();
                Some(other)
            },
            Some(master) => {
                let mut master = master;
                let ghost master0 = master;
                let ghost m0 = tmap(master.tech@);
                let n = other.tech.len();
                let mut i: usize = 0;
                proof {
                    assert(other.tech@.take(0) =~= Seq::<Tech>::empty());
                }
                while i < n
                    invariant
                        tech_rows_ok(other.tech@),
                        n == other.tech@.len(),
                        i <= n,
                        master.wf(),
                        eq_but_tech(master, master0),
                        m0 == tmap(master0.tech@),
                        tmap(master.tech@) == tech_fold(m0, other.tech@.take(i as int)),
                        (tech_normalized(master0) && rows_untagged(orig_other)) ==> ((forall|
                            k: int,
                        | 0 <= k < other.tech@.len() ==> normalized_row(#[trigger] other.tech@[k]))
                            && (forall|k: int| 0 <= k < master.tech@.len() ==> normalized_row(
                            #[trigger] master.tech@[k],
                        ))),
                    decreases n - i,
                {
                    let t = other.tech[i].duplicate();
                    proof {
                        assert(other.tech@.take(i + 1).drop_last() =~= other.tech@.take(i as int));
                        assert(other.tech@.take(i + 1).last() == other.tech@[i as int]);
                        assert(reset_id(t) == reset_id(other.tech@[i as int]));
                        if tech_normalized(master0) && rows_untagged(orig_other) {
                            assert(normalized_row(other.tech@[i as int]));
                            assert(norm_counts(t));
                        }
                    }
                    fold_record(&mut master.tech, t);
                    i += 1;
                }
                proof {
                    assert(other.tech@.take(n as int) =~= other.tech@);
                    lemma_tech_fold_union(m0, other.tech@);
                    if tech_normalized(master0) && rows_untagged(orig_other) {
                        crate::kwc::lemma_kwc_merge_kinds_none(
                            master.unknown_file_types@,
                            other.unknown_file_types@,
                        );
                    }
                }
                master.unknown_file_types.merge(&other.unknown_file_types);
                if !other.report_s3_name.as_str().is_empty() {
                    master.reports_included.insert(other.report_s3_name.clone());
                }
                let head = newer_date(master.date_head, &other.date_head);
                master.date_head = head;
                let init = older_date(master.date_init, &other.date_init);
                master.date_init = init;
                match &other.contributor_git_ids {
                    Some(ids) => {
                        let mut base = match &master.contributor_git_ids {
                            Some(s) => s.duplicate(),
                            None => StrSet::new(),
                        };
                        base.insert_all(ids);
                        master.contributor_git_ids = Some(base);
                    },
                    None => {},
                }
                Some(master)
            },
        }
    }

    /// Merge another report's per-file records into this one, for one
    /// contributor: on a shared file the record of the later commit
    /// survives, the incoming one on a tie. The identity is recorded.
    pub fn merge_contributor_reports(&mut self, other_report: Report, contributor_git_id: String)
        requires
            old(self).wf(),
            fkeys_unique(old(self).per_file_tech@),
            other_report.wf(),
            fkeys_unique(other_report.per_file_tech@),
        ensures
            final(self).wf(),
            fkeys_unique(final(self).per_file_tech@),
            pfmap(final(self).per_file_tech@) == recency_union(
                pfmap(old(self).per_file_tech@),
                pfmap(other_report.per_file_tech@),
            ),
            final(self).git_ids_included@ == old(self).git_ids_included@.insert(
                contributor_git_id@,
            ),
            eq_but_per_file_and_ids(*final(self), *old(self)),
    {
        let ghost a0 = pfmap(old(self).per_file_tech@);
        let ghost orig = other_report.per_file_tech@;
        let mut other = other_report;
        let n = other.per_file_tech.len();
        let mut i: usize = 0;
        proof {
            assert(orig.take(0) =~= Seq::<Tech>::empty());
            assert(orig.skip(0) =~= orig);
            assert(pfmap(self.per_file_tech@) =~= recency_union(a0, pfmap(orig.take(0))));
        }
        while i < n
            invariant
                old(self).wf(),
                fkeys_unique(orig),
                forall|k: int| 0 <= k < orig.len() ==> (#[trigger] orig[k]).wf(),
                n == orig.len(),
                i <= n,
                other.per_file_tech@ == orig.skip(i as int),
                self.wf(),
                fkeys_unique(self.per_file_tech@),
                pfmap(self.per_file_tech@) == recency_union(a0, pfmap(orig.take(i as int))),
                eq_but_per_file(*self, *old(self)),
            decreases n - i,
        {
            proof {
                assert(orig.skip(i as int)[0] == orig[i as int]);
            }
            let t = other.per_file_tech.remove(0);
            proof {
                assert(other.per_file_tech@ =~= orig.skip(i + 1));
                assert(orig.take(i + 1).drop_last() =~= orig.take(i as int));
                assert(orig.take(i + 1).last() == orig[i as int]);
                lemma_pfmap_contains(orig.take(i as int), fkey(orig[i as int]));
            }
            self.absorb_per_file_record(t);
            proof {
                let prev = orig.take(i as int);
                let cur = orig.take(i + 1);
                let t0 = orig[i as int];
                assert(pfmap(cur) =~= pfmap(prev).insert(fkey(t0), t0));
                assert(pfmap(self.per_file_tech@) =~= recency_union(a0, pfmap(cur)));
            }
            i += 1;
        }
        proof {
            assert(orig.take(n as int) =~= orig);
        }
        self.git_ids_included.insert(contributor_git_id);
    }

    /// Put one per-file record in, most recent commit winning on its key.
    pub fn absorb_per_file_record(&mut self, t: Tech)
        requires
            old(self).wf(),
            fkeys_unique(old(self).per_file_tech@),
            t.wf(),
        ensures
            final(self).wf(),
            fkeys_unique(final(self).per_file_tech@),
            pfmap(final(self).per_file_tech@) == (if pfmap(
                old(self).per_file_tech@,
            ).contains_key(fkey(t)) && epoch_gt(
                pfmap(old(self).per_file_tech@)[fkey(t)].commit_date_epoch,
                t.commit_date_epoch,
            ) {
                pfmap(old(self).per_file_tech@)
            } else {
                pfmap(old(self).per_file_tech@).insert(fkey(t), t)
            }),
            eq_but_per_file(*final(self), *old(self)),
    {
        let n = self.per_file_tech.len();
        let mut j: usize = 0;
        while j < n
            invariant
                old(self).wf(),
                fkeys_unique(old(self).per_file_tech@),
                *self == *old(self),
                t.wf(),
                n == self.per_file_tech@.len(),
                j <= n,
                forall|k: int| 0 <= k < j as int ==> fkey(#[trigger] self.per_file_tech@[k])
                    != fkey(t),
            decreases n - j,
        {
            if self.per_file_tech[j].same_file_key(&t) {
                proof {
                    lemma_pfmap_index(self.per_file_tech@, j as int);
                }
                if epoch_gt_exec(&self.per_file_tech[j].commit_date_epoch, &t.commit_date_epoch) {
                    proof {
                        assert(pfmap(self.per_file_tech@) =~= pfmap(old(self).per_file_tech@));
                    }
                    return ;
                }
                let ghost before = self.per_file_tech@;
                let removed = self.per_file_tech.remove(j);
                proof {
                    lemma_pfmap_remove(before, j as int);
                }
                let ghost mid = self.per_file_tech@;
                self.per_file_tech.push(t);
                proof {
                    lemma_pfmap_push(mid, t);
                    assert forall|a: int, b: int|
                        0 <= a < b < self.per_file_tech@.len() implies fkey(
                        #[trigger] self.per_file_tech@[a],
                    ) != fkey(#[trigger] self.per_file_tech@[b]) by {
                        if b < self.per_file_tech@.len() - 1 {
                            assert(self.per_file_tech@[a] == mid[a]);
                            assert(self.per_file_tech@[b] == mid[b]);
                        } else {
                            assert(self.per_file_tech@[a] == mid[a]);
                            lemma_pfmap_contains(mid, fkey(t));
                        }
                    }
                    assert(pfmap(self.per_file_tech@) =~= pfmap(old(self).per_file_tech@).insert(
                        fkey(t),
                        t,
                    ));
                }
                return ;
            }
            j += 1;
        }
        proof {
            lemma_pfmap_contains(self.per_file_tech@, fkey(t));
        }
        let ghost before = self.per_file_tech@;
        self.per_file_tech.push(t);
        proof {
            lemma_pfmap_push(before, t);
            assert forall|a: int, b: int| 0 <= a < b < self.per_file_tech@.len() implies fkey(
                #[trigger] self.per_file_tech@[a],
            ) != fkey(#[trigger] self.per_file_tech@[b]) by {
                if b < self.per_file_tech@.len() - 1 {
                    assert(self.per_file_tech@[a] == before[a]);
                    assert(self.per_file_tech@[b] == before[b]);
                } else {
                    assert(self.per_file_tech@[a] == before[a]);
                }
            }
            assert(pfmap(self.per_file_tech@) =~= pfmap(old(self).per_file_tech@).insert(
                fkey(t),
                t,
            ));
        }
    }
}

/// Whether the left commit is strictly later.
fn epoch_gt_exec(a: &Option<i64>, b: &Option<i64>) -> (r: bool)
    ensures
        r == epoch_gt(*a, *b),
{
    match (a, b) {
        (Some(x), Some(y)) => *x > *y,
        (Some(_), None) => true,
        _ => false,
    }
}

/// The per-file records that survive when one commit's files are thrown
/// out: those whose name the commit did not touch, in order.
pub open spec fn survivors(s: Seq<Tech>, paths: Set<Seq<char>>) -> Seq<Tech>
    decreases s.len(),
{
    if s.len() == 0 {
        Seq::empty()
    } else {
        let p = survivors(s.drop_last(), paths);
        if paths.contains(name_of(s.last())) {
            p
        } else {
            p.push(s.last())
        }
    }
}

pub proof fn lemma_survivors_sub(s: Seq<Tech>, paths: Set<Seq<char>>)
    ensures
        forall|k: int| 0 <= k < survivors(s, paths).len() ==> exists|j: int|
            0 <= j < s.len() && #[trigger] survivors(s, paths)[k] == s[j],
        fkeys_unique(s) ==> fkeys_unique(survivors(s, paths)),
        forall|k: int| 0 <= k < survivors(s, paths).len() ==> !paths.contains(
            name_of(#[trigger] survivors(s, paths)[k]),
        ),
    decreases s.len(),
{
    if s.len() > 0 {
        lemma_survivors_sub(s.drop_last(), paths);
        let p = survivors(s.drop_last(), paths);
        assert(forall|j: int| 0 <= j < s.len() - 1 ==> s.drop_last()[j] == s[j]);
        assert forall|k: int| 0 <= k < survivors(s, paths).len() implies (exists|j: int|
            0 <= j < s.len() && #[trigger] survivors(s, paths)[k] == s[j]) && !paths.contains(
            name_of(survivors(s, paths)[k]),
        ) by {
            if !paths.contains(name_of(s.last())) && k == survivors(s, paths).len() - 1 {
                assert(survivors(s, paths)[k] == s[s.len() - 1]);
            } else {
                assert(survivors(s, paths)[k] == p[k]);
                let j = choose|j: int| 0 <= j < s.drop_last().len() && #[trigger] p[k] == s.drop_last()[j];
                assert(survivors(s, paths)[k] == s[j]);
                assert(!paths.contains(name_of(p[k])));
            }
        }
        if fkeys_unique(s) {
            assert(fkeys_unique(s.drop_last()));
            if !paths.contains(name_of(s.last())) {
                assert forall|a: int, b: int|
                    0 <= a < b < survivors(s, paths).len() implies fkey(
                    #[trigger] survivors(s, paths)[a],
                ) != fkey(#[trigger] survivors(s, paths)[b]) by {
                    if b < survivors(s, paths).len() - 1 {
                        assert(survivors(s, paths)[a] == p[a]);
                        assert(survivors(s, paths)[b] == p[b]);
                    } else {
                        assert(survivors(s, paths)[a] == p[a]);
                        let j = choose|j: int|
                            0 <= j < s.drop_last().len() && #[trigger] p[a] == s.drop_last()[j];
                        assert(fkey(s[j]) != fkey(s[s.len() - 1]));
                    }
                }
            }
        }
    }
}

impl Report {
    /// Throw out every per-file record whose file one commit touched, so
    /// that those files can be processed afresh.
    pub fn remove_per_file_records_for(&mut self, paths: &StrSet)
        requires
            old(self).wf(),
            fkeys_unique(old(self).per_file_tech@),
        ensures
            final(self).wf(),
            fkeys_unique(final(self).per_file_tech@),
            final(self).per_file_tech@ == survivors(old(self).per_file_tech@, paths@),
            eq_but_per_file(*final(self), *old(self)),
    {
        let ghost orig = self.per_file_tech@;
        let mut kept: Vec<Tech> = Vec::new();
        let n = self.per_file_tech.len();
        let mut i: usize = 0;
        let empty_name = String::new();
        proof {
            assert(orig.take(0) =~= Seq::<Tech>::empty());
            assert(orig.skip(0) =~= orig);
        }
        while i < n
            invariant
                old(self).wf(),
                n == orig.len(),
                i <= n,
                self.per_file_tech@ == orig.skip(i as int),
                eq_but_per_file(*self, *old(self)),
                empty_name@ == Seq::<char>::empty(),
                kept@ == survivors(orig.take(i as int), paths@),
            decreases n - i,
        {
            proof {
                assert(orig.skip(i as int)[0] == orig[i as int]);
                assert(orig.take(i + 1).drop_last() =~= orig.take(i as int));
                assert(orig.take(i + 1).last() == orig[i as int]);
            }
            let t = self.per_file_tech.remove(0);
            proof {
                assert(self.per_file_tech@ =~= orig.skip(i + 1));
            }
            let touched = match &t.file_name {
                Some(nm) => paths.contains(nm),
                None => paths.contains(&empty_name),
            };
            if !touched {
                kept.push(t);
            }
            i += 1;
        }
        proof {
            assert(orig.take(n as int) =~= orig);
            lemma_survivors_sub(orig, paths@);
        }
        self.per_file_tech = kept;
        proof {
            assert forall|k: int| 0 <= k < self.per_file_tech@.len() implies (
            #[trigger] self.per_file_tech@[k]).wf() by {
                let j = choose|j: int|
                    0 <= j < orig.len() && #[trigger] survivors(orig, paths@)[k] == orig[j];
                assert(orig[j].wf());
            }
        }
    }
}

/// The two reports agree on everything but the per-file records.
pub open spec fn eq_but_per_file(a: Report, b: Report) -> bool {
    &&& a.tech == b.tech
    &&& a.timestamp == b.timestamp
    &&& a.unprocessed_file_names == b.unprocessed_file_names
    &&& a.unknown_file_types == b.unknown_file_types
    &&& a.github_user_name == b.github_user_name
    &&& a.github_repo_name == b.github_repo_name
    &&& a.remote_url_hashes == b.remote_url_hashes
    &&& a.report_id == b.report_id
    &&& a.report_s3_name == b.report_s3_name
    &&& a.report_commit_sha1 == b.report_commit_sha1
    &&& a.log_hash == b.log_hash
    &&& a.reports_included == b.reports_included
    &&& a.git_ids_included == b.git_ids_included
    &&& a.contributors == b.contributors
    &&& a.contributor_git_ids == b.contributor_git_ids
    &&& a.date_init == b.date_init
    &&& a.date_head == b.date_head
    &&& a.tree_files == b.tree_files
    &&& a.is_single_commit == b.is_single_commit
    &&& a.last_commit_author == b.last_commit_author
}

/// The two reports agree on everything but the per-file records and the
/// recorded contributor identities.
pub open spec fn eq_but_per_file_and_ids(a: Report, b: Report) -> bool {
    &&& a.tech == b.tech
    &&& a.timestamp == b.timestamp
    &&& a.unprocessed_file_names == b.unprocessed_file_names
    &&& a.unknown_file_types == b.unknown_file_types
    &&& a.github_user_name == b.github_user_name
    &&& a.github_repo_name == b.github_repo_name
    &&& a.remote_url_hashes == b.remote_url_hashes
    &&& a.report_id == b.report_id
    &&& a.report_s3_name == b.report_s3_name
    &&& a.report_commit_sha1 == b.report_commit_sha1
    &&& a.log_hash == b.log_hash
    &&& a.reports_included == b.reports_included
    &&& a.contributors == b.contributors
    &&& a.contributor_git_ids == b.contributor_git_ids
    &&& a.date_init == b.date_init
    &&& a.date_head == b.date_head
    &&& a.tree_files == b.tree_files
    &&& a.is_single_commit == b.is_single_commit
    &&& a.last_commit_author == b.last_commit_author
}

/// The name a record claims for its file; a record without one claims the
/// empty name.
pub open spec fn name_of(t: Tech) -> Seq<char> {
    match t.file_name {
        Some(n) => n@,
        None => Seq::empty(),
    }
}

/// The names the per-file records claim.
pub open spec fn processed_names(s: Seq<Tech>) -> Set<Seq<char>> {
    Set::new(|f: Seq<char>| exists|i: int| 0 <= i < s.len() && name_of(#[trigger] s[i]) == f)
}

/// Counting the extensions of the files not yet processed, in order.
pub open spec fn uft_fold(
    m: Map<Seq<char>, KwcVal>,
    files: Seq<Seq<char>>,
    skip: Set<Seq<char>>,
) -> Map<Seq<char>, KwcVal>
    decreases files.len(),
{
    if files.len() == 0 {
        m
    } else {
        let p = uft_fold(m, files.drop_last(), skip);
        if skip.contains(files.last()) {
            p
        } else {
            match ext_of(files.last()) {
                Some(e) => kwc_inc(p, e, None, 1),
                None => p,
            }
        }
    }
}

/// Counting extensions never tags a token.
pub proof fn lemma_uft_fold_kinds_none(
    m: Map<Seq<char>, KwcVal>,
    files: Seq<Seq<char>>,
    skip: Set<Seq<char>>,
)
    requires
        crate::kwc::kwc_kinds_none(m),
    ensures
        crate::kwc::kwc_kinds_none(uft_fold(m, files, skip)),
    decreases files.len(),
{
    if files.len() > 0 {
        lemma_uft_fold_kinds_none(m, files.drop_last(), skip);
    }
}

/// The dot-separated suffix of the object names.
pub open spec fn report_suffix() -> Seq<char> {
    seq!['.', 'r', 'e', 'p', 'o', 'r', 't']
}

/// The object name of a report: user, repository and an optional
/// contributor hash, separated by slashes, under the report suffix; empty
/// when either name is missing.
pub open spec fn s3_name_spec(user: Seq<char>, repo: Seq<char>, hash: Option<Seq<char>>) -> Seq<
    char,
> {
    if user.len() == 0 || repo.len() == 0 {
        Seq::empty()
    } else {
        user + seq!['/'] + repo + (match hash {
            Some(h) => seq!['/'] + h,
            None => Seq::<char>::empty(),
        }) + report_suffix()
    }
}

/// The contributor lists agree entry by entry, the second with its touched
/// files cleared when `cleared` is set.
pub open spec fn contributors_equiv(
    a: Option<Vec<Contributor>>,
    b: Option<Vec<Contributor>>,
    cleared: bool,
) -> bool {
    match (a, b) {
        (None, None) => true,
        (Some(v), Some(w)) => {
            &&& w@.len() == v@.len()
            &&& forall|i: int| 0 <= i < v@.len() ==> (#[trigger] w@[i]).git_id == v@[i].git_id
                && w@[i].name == v@[i].name && w@[i].commit_first_epoch
                == v@[i].commit_first_epoch && w@[i].commit_last_epoch == v@[i].commit_last_epoch
                && w@[i].touched_files@ == (if cleared {
                Set::<Seq<char>>::empty()
            } else {
                v@[i].touched_files@
            })
        },
        _ => false,
    }
}

/// Copy a contributor list, clearing each entry's touched files when asked.
fn rebuilt_contributors(c: Option<Vec<Contributor>>, clear: bool) -> (r: Option<Vec<Contributor>>)
    ensures
        contributors_equiv(c, r, clear),
{
    match c {
        None => None,
        Some(v) => {
            let mut out: Vec<Contributor> = Vec::new();
            let ghost orig = v@;
            let mut v = v;
            let n = v.len();
            let mut i: usize = 0;
            while i < n
                invariant
                    n == orig.len(),
                    i <= n,
                    v@ == orig.skip(i as int),
                    out@.len() == i as int,
                    forall|k: int| 0 <= k < i as int ==> (#[trigger] out@[k]).git_id
                        == orig[k].git_id && out@[k].name == orig[k].name
                        && out@[k].commit_first_epoch == orig[k].commit_first_epoch
                        && out@[k].commit_last_epoch == orig[k].commit_last_epoch
                        && out@[k].touched_files@ == (if clear {
                        Set::<Seq<char>>::empty()
                    } else {
                        orig[k].touched_files@
                    }),
                decreases n - i,
            {
                proof {
                    assert(orig.skip(i as int)[0] == orig[i as int]);
                }
                let mut c = v.remove(0);
                proof {
                    assert(v@ =~= orig.skip(i + 1));
                }
                if clear {
                    c.touched_files.clear();
                } else {
                    let kept = c.touched_files.duplicate();
                    c.touched_files = kept;
                }
                out.push(c);
                i += 1;
            }
            Some(out)
        },
    }
}

impl Report {
    /// Record a file that no muncher covers: its name is kept, and its
    /// extension, when one is counted, gains one.
    pub fn add_unprocessed_file(&mut self, file_name: &String)
        requires
            old(self).wf(),
        ensures
            final(self).wf(),
            final(self).unprocessed_file_names@ == old(self).unprocessed_file_names@.insert(
                file_name@,
            ),
            final(self).unknown_file_types@ == (match ext_of(file_name@) {
                Some(e) => kwc_inc(old(self).unknown_file_types@, e, None, 1),
                None => old(self).unknown_file_types@,
            }),
            final(self).tech == old(self).tech,
            final(self).per_file_tech == old(self).per_file_tech,
            final(self).tree_files == old(self).tree_files,
            final(self).timestamp == old(self).timestamp,
            final(self).reports_included == old(self).reports_included,
            final(self).git_ids_included == old(self).git_ids_included,
            final(self).github_user_name == old(self).github_user_name,
            final(self).github_repo_name == old(self).github_repo_name,
            final(self).remote_url_hashes == old(self).remote_url_hashes,
            final(self).report_id == old(self).report_id,
            final(self).report_s3_name == old(self).report_s3_name,
            final(self).report_commit_sha1 == old(self).report_commit_sha1,
            final(self).log_hash == old(self).log_hash,
            final(self).contributors == old(self).contributors,
            final(self).contributor_git_ids == old(self).contributor_git_ids,
            final(self).date_init == old(self).date_init,
            final(self).date_head == old(self).date_head,
            final(self).is_single_commit == old(self).is_single_commit,
            final(self).last_commit_author == old(self).last_commit_author,
    {
        self.unprocessed_file_names.insert(file_name.clone());
        if let Some(ext) = ext_of_exec(file_name) {
            self.unknown_file_types.increment(KwcEntry { token: ext, kind: None, count: 1 });
        }
    }

    /// Whether some per-file record claims this name.
    fn is_processed(&self, f: &String) -> (r: bool)
        ensures
            r == processed_names(self.per_file_tech@).contains(f@),
    {
        let n = self.per_file_tech.len();
        let mut i: usize = 0;
        while i < n
            invariant
                n == self.per_file_tech@.len(),
                i <= n,
                forall|k: int| 0 <= k < i as int ==> name_of(#[trigger] self.per_file_tech@[k])
                    != f@,
            decreases n - i,
        {
            let hit = match &self.per_file_tech[i].file_name {
                Some(nm) => *nm == *f,
                None => f.as_str().is_empty(),
            };
            if hit {
                proof {
                    assert(name_of(self.per_file_tech@[i as int]) == f@);
                }
                return true;
            }
            i += 1;
        }
        false
    }

    /// Record the whole file tree: names no record claims become
    /// unprocessed files with their extensions counted, and the tree itself
    /// is kept.
    pub fn update_project_file_lists(self, all_tree_files: StrSet) -> (r: Report)
        requires
            self.wf(),
            all_tree_files.wf(),
        ensures
            r.wf(),
            forall|x: Seq<char>| r.unprocessed_file_names@.contains(x) <==> (
            self.unprocessed_file_names@.contains(x) || (all_tree_files@.contains(x)
                && !processed_names(self.per_file_tech@).contains(x))),
            r.unknown_file_types@ == uft_fold(
                self.unknown_file_types@,
                all_tree_files.elems(),
                processed_names(self.per_file_tech@),
            ),
            r.tree_files matches Some(ts) && ts@ == all_tree_files@ && ts.wf() && ts.elems()
                == all_tree_files.elems(),
            r.tech == self.tech,
            r.per_file_tech == self.per_file_tech,
            r.timestamp == self.timestamp,
            r.github_user_name == self.github_user_name,
            r.github_repo_name == self.github_repo_name,
            r.remote_url_hashes == self.remote_url_hashes,
            r.report_id == self.report_id,
            r.report_s3_name == self.report_s3_name,
            r.report_commit_sha1 == self.report_commit_sha1,
            r.log_hash == self.log_hash,
            r.reports_included == self.reports_included,
            r.git_ids_included == self.git_ids_included,
            r.contributors == self.contributors,
            r.contributor_git_ids == self.contributor_git_ids,
            r.date_init == self.date_init,
            r.date_head == self.date_head,
            r.is_single_commit == self.is_single_commit,
            r.last_commit_author == self.last_commit_author,
    {
        let ghost skip = processed_names(self.per_file_tech@);
        let mut r = self;
        let n = all_tree_files.seq_len();
        let mut i: usize = 0;
        proof {
            assert(all_tree_files.elems().take(0) =~= Seq::<Seq<char>>::empty());
        }
        while i < n
            invariant
                self.wf(),
                all_tree_files.wf(),
                skip == processed_names(self.per_file_tech@),
                n == all_tree_files.elems().len(),
                i <= n,
                r.wf(),
                r.per_file_tech == self.per_file_tech,
                r.tech == self.tech,
                r.tree_files == self.tree_files,
                r.timestamp == self.timestamp,
                r.github_user_name == self.github_user_name,
                r.github_repo_name == self.github_repo_name,
                r.remote_url_hashes == self.remote_url_hashes,
                r.report_id == self.report_id,
                r.report_s3_name == self.report_s3_name,
                r.report_commit_sha1 == self.report_commit_sha1,
                r.log_hash == self.log_hash,
                r.reports_included == self.reports_included,
                r.git_ids_included == self.git_ids_included,
                r.contributors == self.contributors,
                r.contributor_git_ids == self.contributor_git_ids,
                r.date_init == self.date_init,
                r.date_head == self.date_head,
                r.is_single_commit == self.is_single_commit,
                r.last_commit_author == self.last_commit_author,
                forall|x: Seq<char>| r.unprocessed_file_names@.contains(x) <==> (
                self.unprocessed_file_names@.contains(x) || (exists|k: int|
                    0 <= k < i as int && all_tree_files.elems()[k] == x && !skip.contains(x))),
                r.unknown_file_types@ == uft_fold(
                    self.unknown_file_types@,
                    all_tree_files.elems().take(i as int),
                    skip,
                ),
            decreases n - i,
        {
            let f = all_tree_files.get(i).clone();
            proof {
                assert(all_tree_files.elems().take(i + 1).drop_last()
                    =~= all_tree_files.elems().take(i as int));
                assert(all_tree_files.elems().take(i + 1).last()
                    == all_tree_files.elems()[i as int]);
            }
            if !r.is_processed(&f) {
                r.add_unprocessed_file(&f);
            }
            i += 1;
        }
        proof {
            assert(all_tree_files.elems().take(n as int) =~= all_tree_files.elems());
            all_tree_files.lemma_elems();
        }
        r.tree_files = Some(all_tree_files);
        r
    }

    /// An abridged copy for indexing: the per-file records and each
    /// contributor's touched files are dropped.
    pub fn abridge(self) -> (r: Report)
        requires
            self.wf(),
        ensures
            r.wf(),
            r.per_file_tech@.len() == 0,
            contributors_equiv(self.contributors, r.contributors, true),
            r.tech == self.tech,
            r.timestamp == self.timestamp,
            r.unprocessed_file_names == self.unprocessed_file_names,
            r.unknown_file_types == self.unknown_file_types,
            r.github_user_name == self.github_user_name,
            r.github_repo_name == self.github_repo_name,
            r.remote_url_hashes == self.remote_url_hashes,
            r.report_id == self.report_id,
            r.report_s3_name == self.report_s3_name,
            r.report_commit_sha1 == self.report_commit_sha1,
            r.log_hash == self.log_hash,
            r.reports_included == self.reports_included,
            r.git_ids_included == self.git_ids_included,
            r.contributor_git_ids == self.contributor_git_ids,
            r.date_init == self.date_init,
            r.date_head == self.date_head,
            r.tree_files == self.tree_files,
            r.is_single_commit == self.is_single_commit,
            r.last_commit_author == self.last_commit_author,
    {
        let mut r = self;
        r.per_file_tech = Vec::new();
        let cleared = rebuilt_contributors(r.contributors, true);
        r.contributors = cleared;
        r
    }

    /// The object name under which a report is stored, when both names are
    /// known.
    pub fn generate_report_s3_name(
        github_user_name: &String,
        github_repo_name: &String,
        contributor_sha1_hash: Option<String>,
    ) -> (r: String)
        ensures
            r@ == s3_name_spec(
                github_user_name@,
                github_repo_name@,
                crate::kwc::view_opt_str(contributor_sha1_hash),
            ),
    {
        if github_user_name.as_str().is_empty() || github_repo_name.as_str().is_empty() {
            return String::new();
        }
        proof {
            reveal_strlit("/");
            reveal_strlit(".report");
            assert("/"@ =~= seq!['/']);
            assert(".report"@ =~= report_suffix());
        }
        let mut out = github_user_name.clone();
        out.append("/");
        out.append(github_repo_name.as_str());
        if let Some(h) = contributor_sha1_hash {
            out.append("/");
            out.append(h.as_str());
        }
        out.append(REPORT_FILE_NAME_SUFFIX);
        proof {
            assert(out@ =~= s3_name_spec(
                github_user_name@,
                github_repo_name@,
                crate::kwc::view_opt_str(contributor_sha1_hash),
            ));
        }
        out
    }

    /// Attach the repository's names, derive the object name when both are
    /// known, and record it among the included reports.
    pub fn with_github(
        self,
        github_user_name: &String,
        github_repo_name: &String,
        contributor_sha1_hash: Option<String>,
    ) -> (r: Report)
        requires
            self.wf(),
        ensures
            r.wf(),
            r.github_user_name@ == github_user_name@,
            r.github_repo_name@ == github_repo_name@,
            (github_user_name@.len() > 0 && github_repo_name@.len() > 0) ==> (r.report_s3_name@
                == s3_name_spec(
                github_user_name@,
                github_repo_name@,
                crate::kwc::view_opt_str(contributor_sha1_hash),
            ) && r.reports_included@ == self.reports_included@.insert(r.report_s3_name@)),
            (github_user_name@.len() == 0 || github_repo_name@.len() == 0) ==> (r.report_s3_name
                == self.report_s3_name && r.reports_included == self.reports_included),
            r.tech == self.tech,
            r.per_file_tech == self.per_file_tech,
            r.timestamp == self.timestamp,
            r.unprocessed_file_names == self.unprocessed_file_names,
            r.unknown_file_types == self.unknown_file_types,
            r.remote_url_hashes == self.remote_url_hashes,
            r.report_id == self.report_id,
            r.report_commit_sha1 == self.report_commit_sha1,
            r.log_hash == self.log_hash,
            r.git_ids_included == self.git_ids_included,
            r.contributors == self.contributors,
            r.contributor_git_ids == self.contributor_git_ids,
            r.date_init == self.date_init,
            r.date_head == self.date_head,
            r.tree_files == self.tree_files,
            r.is_single_commit == self.is_single_commit,
            r.last_commit_author == self.last_commit_author,
    {
        let mut r = self;
        if !(github_user_name.as_str().is_empty() || github_repo_name.as_str().is_empty()) {
            let name = Report::generate_report_s3_name(
                github_user_name,
                github_repo_name,
                contributor_sha1_hash,
            );
            r.report_s3_name = name;
            if !r.report_s3_name.as_str().is_empty() {
                r.reports_included.insert(r.report_s3_name.clone());
            }
            proof {
                assert(r.report_s3_name@.len() > 0);
            }
        }
        r.github_user_name = github_user_name.clone();
        r.github_repo_name = github_repo_name.clone();
        r
    }

    /// Take the commit information over from an older report.
    pub fn copy_commit_info(self, old_report: &Report) -> (r: Report)
        requires
            self.wf(),
            old_report.wf(),
        ensures
            r.wf(),
            contributors_equiv(old_report.contributors, r.contributors, false),
            r.date_head == old_report.date_head,
            r.date_init == old_report.date_init,
            opt_strset_view(r.remote_url_hashes) == opt_strset_view(old_report.remote_url_hashes),
            r.tech == self.tech,
            r.per_file_tech == self.per_file_tech,
            r.timestamp == self.timestamp,
            r.unprocessed_file_names == self.unprocessed_file_names,
            r.unknown_file_types == self.unknown_file_types,
            r.github_user_name == self.github_user_name,
            r.github_repo_name == self.github_repo_name,
            r.report_id == self.report_id,
            r.report_s3_name == self.report_s3_name,
            r.report_commit_sha1 == self.report_commit_sha1,
            r.log_hash == self.log_hash,
            r.reports_included == self.reports_included,
            r.git_ids_included == self.git_ids_included,
            r.contributor_git_ids == self.contributor_git_ids,
            r.tree_files == self.tree_files,
            r.is_single_commit == self.is_single_commit,
            r.last_commit_author == self.last_commit_author,
    {
        let mut r = self;
        let contributors = rebuilt_contributors_ref(&old_report.contributors);
        r.contributors = contributors;
        r.date_head = crate::kwc::clone_opt_string(&old_report.date_head);
        r.date_init = crate::kwc::clone_opt_string(&old_report.date_init);
        let remotes = match &old_report.remote_url_hashes {
            Some(s) => Some(s.duplicate()),
            None => None,
        };
        r.remote_url_hashes = remotes;
        r
    }

    /// Give a combined contributor report a fresh identity and moment,
    /// clear its object name, and record the contributor.
    pub fn reset_combined_contributor_report(&mut self, contributor_git_id: String)
        requires
            old(self).wf(),
        ensures
            final(self).wf(),
            final(self).report_id@.len() == 36,
            final(self).timestamp@.len() > 0,
            final(self).report_s3_name@ == Seq::<char>::empty(),
            final(self).git_ids_included@ == old(self).git_ids_included@.insert(
                contributor_git_id@,
            ),
            final(self).tech == old(self).tech,
            final(self).per_file_tech == old(self).per_file_tech,
            final(self).unprocessed_file_names == old(self).unprocessed_file_names,
            final(self).unknown_file_types == old(self).unknown_file_types,
            final(self).github_user_name == old(self).github_user_name,
            final(self).github_repo_name == old(self).github_repo_name,
            final(self).remote_url_hashes == old(self).remote_url_hashes,
            final(self).report_commit_sha1 == old(self).report_commit_sha1,
            final(self).log_hash == old(self).log_hash,
            final(self).reports_included == old(self).reports_included,
            final(self).contributors == old(self).contributors,
            final(self).contributor_git_ids == old(self).contributor_git_ids,
            final(self).date_init == old(self).date_init,
            final(self).date_head == old(self).date_head,
            final(self).tree_files == old(self).tree_files,
            final(self).is_single_commit == old(self).is_single_commit,
            final(self).last_commit_author == old(self).last_commit_author,
    {
        self.report_id = fresh_report_id();
        self.timestamp = utc_now_rfc3339();
        self.report_s3_name = String::new();
        self.git_ids_included.insert(contributor_git_id);
    }

    /// Null the sections that make no sense once reports are combined
    /// across projects, and stamp a fresh moment.
    pub fn reset_combined_dev_report(&mut self)
        requires
            old(self).wf(),
        ensures
            final(self).wf(),
            final(self).contributors is None,
            final(self).tree_files is None,
            final(self).remote_url_hashes is None,
            final(self).report_commit_sha1 is None,
            final(self).last_commit_author is None,
            final(self).log_hash is None,
            final(self).unprocessed_file_names@ == Set::<Seq<char>>::empty(),
            final(self).per_file_tech@.len() == 0,
            final(self).github_repo_name@ == Seq::<char>::empty(),
            final(self).github_user_name@ == Seq::<char>::empty(),
            final(self).report_id@.len() == 36,
            final(self).report_s3_name@ == Seq::<char>::empty(),
            final(self).timestamp@.len() > 0,
            final(self).tech == old(self).tech,
            final(self).unknown_file_types == old(self).unknown_file_types,
            final(self).reports_included == old(self).reports_included,
            final(self).git_ids_included == old(self).git_ids_included,
            final(self).contributor_git_ids == old(self).contributor_git_ids,
            final(self).date_init == old(self).date_init,
            final(self).date_head == old(self).date_head,
            final(self).is_single_commit == old(self).is_single_commit,
    {
        self.contributors = None;
        self.tree_files = None;
        self.remote_url_hashes = None;
        self.report_commit_sha1 = None;
        self.last_commit_author = None;
        self.log_hash = None;
        self.unprocessed_file_names.clear();
        self.per_file_tech = Vec::new();
        self.github_repo_name = String::new();
        self.github_user_name = String::new();
        self.report_id = fresh_report_id();
        self.report_s3_name = String::new();
        self.timestamp = utc_now_rfc3339();
    }
}

/// Copy a contributor list without consuming it.
fn rebuilt_contributors_ref(c: &Option<Vec<Contributor>>) -> (r: Option<Vec<Contributor>>)
    ensures
        contributors_equiv(*c, r, false),
{
    match c {
        None => None,
        Some(v) => {
            let mut out: Vec<Contributor> = Vec::new();
            let n = v.len();
            let mut i: usize = 0;
            while i < n
                invariant
                    n == v@.len(),
                    i <= n,
                    out@.len() == i as int,
                    forall|k: int| 0 <= k < i as int ==> (#[trigger] out@[k]).git_id
                        == v@[k].git_id && out@[k].name == v@[k].name && out@[k].commit_first_epoch
                        == v@[k].commit_first_epoch && out@[k].commit_last_epoch
                        == v@[k].commit_last_epoch && out@[k].touched_files@
                        == v@[k].touched_files@,
                decreases n - i,
            {
                let src = &v[i];
                out.push(
                    Contributor {
                        git_id: src.git_id.clone(),
                        name: src.name.clone(),
                        touched_files: src.touched_files.duplicate(),
                        commit_first_epoch: src.commit_first_epoch,
                        commit_last_epoch: src.commit_last_epoch,
                    },
                );
                i += 1;
            }
            Some(out)
        },
    }
}

/// The record's summaries are its own recomputed ones and no token
/// carries a tag.
pub open spec fn norm_counts(t: Tech) -> bool {
    &&& opt_kwc_view(t.refs_kw) == Some(t.refs.summary())
    &&& opt_kwc_view(t.pkgs_kw) == Some(t.pkgs.summary())
    &&& data_kinds_none(t.data())
}

/// A tech row as the merge leaves it: per-language identity, summaries
/// recomputed from its own references and packages, and no token tags.
pub open spec fn normalized_row(t: Tech) -> bool {
    &&& t.id() == reset_id(t)
    &&& norm_counts(t)
}

/// No token of the report's tech rows or extension counters carries a
/// tag, as with everything the assembler itself produces.
pub open spec fn rows_untagged(r: Report) -> bool {
    &&& forall|i: int| 0 <= i < r.tech@.len() ==> data_kinds_none((#[trigger] r.tech@[i]).data())
    &&& crate::kwc::kwc_kinds_none(r.unknown_file_types@)
}

/// Every tech row of the report is normalized and its extension counters
/// carry no tags.
pub open spec fn tech_normalized(r: Report) -> bool {
    &&& r.wf()
    &&& forall|i: int| 0 <= i < r.tech@.len() ==> normalized_row(#[trigger] r.tech@[i])
    &&& crate::kwc::kwc_kinds_none(r.unknown_file_types@)
}

/// Merging two untagged records leaves every token untagged.
pub proof fn lemma_data_merge_kinds_none(a: TechData, b: TechData)
    requires
        data_kinds_none(a),
        data_kinds_none(b),
    ensures
        data_kinds_none(data_merge(a, b)),
{
    crate::kwc::lemma_kwc_merge_kinds_none(a.keywords, b.keywords);
    crate::kwc::lemma_kwc_merge_kinds_none(a.refs, b.refs);
    crate::kwc::lemma_kwc_merge_kinds_none(a.pkgs, b.pkgs);
    crate::kwc::lemma_kwc_merge_kinds_none(
        crate::tech::opt_or_empty(a.refs_kw),
        crate::tech::opt_or_empty(b.refs_kw),
    );
    crate::kwc::lemma_kwc_merge_kinds_none(
        crate::tech::opt_or_empty(a.pkgs_kw),
        crate::tech::opt_or_empty(b.pkgs_kw),
    );
}

/// A report as one pass of the merge leaves it: its tech section
/// normalized, and its included-report names holding exactly its own
/// object name, when it has one.
pub open spec fn merged_form(r: Report) -> bool {
    &&& tech_normalized(r)
    &&& r.reports_included@ == if r.report_s3_name@.len() > 0 {
        Set::<Seq<char>>::empty().insert(r.report_s3_name@)
    } else {
        Set::<Seq<char>>::empty()
    }
}

/// On normalized rows, refolding with recomputed summaries changes
/// nothing: the fold is the map the rows already stand for.
proof fn lemma_norm_fold_noop(s: Seq<Tech>)
    requires
        tech_rows_ok(s),
        forall|i: int| 0 <= i < s.len() ==> normalized_row(#[trigger] s[i]),
    ensures
        norm_fold(Map::<TechId, TechData>::empty(), s) =~= tmap(s),
    decreases s.len(),
{
    if s.len() > 0 {
        let init = s.drop_last();
        assert(tech_rows_ok(init) && forall|i: int|
            0 <= i < init.len() ==> normalized_row(#[trigger] init[i])) by {
            assert(forall|i: int| 0 <= i < init.len() ==> init[i] == s[i]);
        }
        lemma_norm_fold_noop(init);
        let t = s.last();
        assert(norm_data(t) =~= t.data());
        lemma_tmap_contains(init, t.id());
        assert(!tmap(init).contains_key(t.id())) by {
            if exists|i: int| 0 <= i < init.len() && (#[trigger] init[i]).id() == t.id() {
                let i = choose|i: int| 0 <= i < init.len() && (#[trigger] init[i]).id() == t.id();
                assert(s[i].id() == s[s.len() - 1].id());
                assert(false);
            }
        }
    }
}

/// Merging optional summary counters is commutative when no tag stands on
/// either side.
proof fn lemma_opt_kw_merge_comm(
    a: Option<Map<Seq<char>, KwcVal>>,
    b: Option<Map<Seq<char>, KwcVal>>,
)
    requires
        crate::kwc::kwc_kinds_none(crate::tech::opt_or_empty(a)),
        crate::kwc::kwc_kinds_none(crate::tech::opt_or_empty(b)),
    ensures
        crate::tech::opt_kw_merge(a, b) == crate::tech::opt_kw_merge(b, a),
{
    match (a, b) {
        (None, None) => {},
        (Some(x), Some(y)) => {
            crate::kwc::lemma_kwc_merge_commutative(x, y);
        },
        (Some(x), None) => {
            crate::kwc::lemma_kwc_merge_empty_left(x);
        },
        (None, Some(y)) => {
            crate::kwc::lemma_kwc_merge_empty_left(y);
        },
    }
}

/// Merging two records' counters is commutative when no token tag stands
/// on either side.
proof fn lemma_data_merge_comm(a: TechData, b: TechData)
    requires
        data_kinds_none(a),
        data_kinds_none(b),
    ensures
        data_merge(a, b) == data_merge(b, a),
{
    crate::kwc::lemma_kwc_merge_commutative(a.keywords, b.keywords);
    crate::kwc::lemma_kwc_merge_commutative(a.refs, b.refs);
    crate::kwc::lemma_kwc_merge_commutative(a.pkgs, b.pkgs);
    lemma_opt_kw_merge_comm(a.refs_kw, b.refs_kw);
    lemma_opt_kw_merge_comm(a.pkgs_kw, b.pkgs_kw);
    assert(data_merge(a, b) =~= data_merge(b, a));
}

/// Merging optional summary counters is associative.
proof fn lemma_opt_kw_merge_assoc(
    a: Option<Map<Seq<char>, KwcVal>>,
    b: Option<Map<Seq<char>, KwcVal>>,
    c: Option<Map<Seq<char>, KwcVal>>,
)
    ensures
        crate::tech::opt_kw_merge(crate::tech::opt_kw_merge(a, b), c) == crate::tech::opt_kw_merge(
            a,
            crate::tech::opt_kw_merge(b, c),
        ),
{
    match c {
        None => {},
        Some(cz) => {
            match b {
                None => {
                    match a {
                        None => {
                            assert(kwc_merge(
                                Map::<Seq<char>, KwcVal>::empty(),
                                kwc_merge(Map::<Seq<char>, KwcVal>::empty(), cz),
                            ) =~= kwc_merge(Map::<Seq<char>, KwcVal>::empty(), cz));
                        },
                        Some(ax) => {
                            crate::kwc::lemma_kwc_merge_empty_left(cz);
                            assert(kwc_merge(ax, kwc_merge(Map::<Seq<char>, KwcVal>::empty(), cz))
                                =~= kwc_merge(ax, cz));
                        },
                    }
                },
                Some(by) => {
                    crate::kwc::lemma_kwc_merge_associative(
                        crate::tech::opt_or_empty(a),
                        by,
                        cz,
                    );
                },
            }
        },
    }
}

/// Merging two records' counters is associative.
proof fn lemma_data_merge_assoc(a: TechData, b: TechData, c: TechData)
    ensures
        data_merge(data_merge(a, b), c) == data_merge(a, data_merge(b, c)),
{
    crate::kwc::lemma_kwc_merge_associative(a.keywords, b.keywords, c.keywords);
    crate::kwc::lemma_kwc_merge_associative(a.refs, b.refs, c.refs);
    crate::kwc::lemma_kwc_merge_associative(a.pkgs, b.pkgs, c.pkgs);
    lemma_opt_kw_merge_assoc(a.refs_kw, b.refs_kw, c.refs_kw);
    lemma_opt_kw_merge_assoc(a.pkgs_kw, b.pkgs_kw, c.pkgs_kw);
    assert(data_merge(data_merge(a, b), c) =~= data_merge(a, data_merge(b, c)));
}

/// Merging per-language maps is commutative when no token tag stands in
/// either map's records.
pub proof fn lemma_tech_union_commutative(m1: Map<TechId, TechData>, m2: Map<TechId, TechData>)
    requires
        forall|id: TechId| #[trigger] m1.contains_key(id) ==> data_kinds_none(m1[id]),
        forall|id: TechId| #[trigger] m2.contains_key(id) ==> data_kinds_none(m2[id]),
    ensures
        tech_union(m1, m2) == tech_union(m2, m1),
{
    assert forall|id: TechId|
        tech_union(m1, m2).contains_key(id) == tech_union(m2, m1).contains_key(id) && (
        tech_union(m1, m2).contains_key(id) ==> tech_union(m1, m2)[id] == tech_union(
            m2,
            m1,
        )[id]) by {
        if m1.contains_key(id) && m2.contains_key(id) {
            lemma_data_merge_comm(m1[id], m2[id]);
        }
    }
    assert(tech_union(m1, m2) =~= tech_union(m2, m1));
}

/// Merging per-language maps is associative.
pub proof fn lemma_tech_union_associative(
    m1: Map<TechId, TechData>,
    m2: Map<TechId, TechData>,
    m3: Map<TechId, TechData>,
)
    ensures
        tech_union(tech_union(m1, m2), m3) == tech_union(m1, tech_union(m2, m3)),
{
    assert forall|id: TechId|
        tech_union(tech_union(m1, m2), m3).contains_key(id) == tech_union(
            m1,
            tech_union(m2, m3),
        ).contains_key(id) && (tech_union(tech_union(m1, m2), m3).contains_key(id) ==> tech_union(
            tech_union(m1, m2),
            m3,
        )[id] == tech_union(m1, tech_union(m2, m3))[id]) by {
        if m1.contains_key(id) && m2.contains_key(id) && m3.contains_key(id) {
            lemma_data_merge_assoc(m1[id], m2[id], m3[id]);
        }
    }
    assert(tech_union(tech_union(m1, m2), m3) =~= tech_union(m1, tech_union(m2, m3)));
}

/// Merging two reports is commutative: whichever of the two stands as the
/// master, the merged tech section, the merged unknown-extension counters,
/// and the merged included-report names are the same, provided each input
/// is in the form one pass of the merge leaves it in.
pub proof fn lemma_merge_commutative(a: Report, b: Report)
    requires
        merged_form(a),
        merged_form(b),
    ensures
        tech_union(tmap(a.tech@), norm_fold(Map::<TechId, TechData>::empty(), b.tech@))
            == tech_union(tmap(b.tech@), norm_fold(Map::<TechId, TechData>::empty(), a.tech@)),
        kwc_merge(a.unknown_file_types@, b.unknown_file_types@) == kwc_merge(
            b.unknown_file_types@,
            a.unknown_file_types@,
        ),
        (if b.report_s3_name@.len() > 0 {
            a.reports_included@.insert(b.report_s3_name@)
        } else {
            a.reports_included@
        }) == (if a.report_s3_name@.len() > 0 {
            b.reports_included@.insert(a.report_s3_name@)
        } else {
            b.reports_included@
        }),
{
    lemma_norm_fold_noop(a.tech@);
    lemma_norm_fold_noop(b.tech@);
    assert forall|id: TechId| #[trigger] tmap(a.tech@).contains_key(id) implies data_kinds_none(
        tmap(a.tech@)[id],
    ) by {
        lemma_tmap_values(a.tech@);
        let i = choose|i: int|
            0 <= i < a.tech@.len() && (#[trigger] a.tech@[i]).id() == id && tmap(a.tech@)[id]
                == a.tech@[i].data();
        assert(normalized_row(a.tech@[i]));
    }
    assert forall|id: TechId| #[trigger] tmap(b.tech@).contains_key(id) implies data_kinds_none(
        tmap(b.tech@)[id],
    ) by {
        lemma_tmap_values(b.tech@);
        let i = choose|i: int|
            0 <= i < b.tech@.len() && (#[trigger] b.tech@[i]).id() == id && tmap(b.tech@)[id]
                == b.tech@[i].data();
        assert(normalized_row(b.tech@[i]));
    }
    lemma_tech_union_commutative(tmap(a.tech@), tmap(b.tech@));
    crate::kwc::lemma_kwc_merge_commutative(a.unknown_file_types@, b.unknown_file_types@);
    let left = if b.report_s3_name@.len() > 0 {
        a.reports_included@.insert(b.report_s3_name@)
    } else {
        a.reports_included@
    };
    let right = if a.report_s3_name@.len() > 0 {
        b.reports_included@.insert(a.report_s3_name@)
    } else {
        b.reports_included@
    };
    assert(left =~= right);
}

/// Merging three reports is associative on the tech section and on the
/// unknown-extension counters: merging the third into the merge of the
/// first two comes to the same as merging the merge of the last two into
/// the first, for reports whose tech sections the merge has normalized.
pub proof fn lemma_merge_associative(
    a: Report,
    b: Report,
    c: Report,
    ab: Report,
    bc: Report,
    left: Report,
    right: Report,
)
    requires
        tech_normalized(a),
        tech_normalized(b),
        tech_normalized(c),
        merge_ensures(Some(a), b, ab),
        merge_ensures(Some(b), c, bc),
        merge_ensures(Some(ab), c, left),
        merge_ensures(Some(a), bc, right),
    ensures
        tmap(left.tech@) == tmap(right.tech@),
        left.unknown_file_types@ == right.unknown_file_types@,
{
    let am = tmap(a.tech@);
    let bm = tmap(b.tech@);
    let cm = tmap(c.tech@);
    assert forall|i: int| 0 <= i < b.tech@.len() implies normalized_row(
        #[trigger] b.tech@[i],
    ) by {}
    lemma_norm_fold_noop(b.tech@);
    lemma_norm_fold_noop(c.tech@);
    assert(tech_normalized(bc));
    lemma_norm_fold_noop(bc.tech@);
    assert(tmap(ab.tech@) == tech_union(am, bm));
    assert(tmap(left.tech@) == tech_union(tech_union(am, bm), cm));
    assert(tmap(bc.tech@) == tech_union(bm, cm));
    assert(tmap(right.tech@) == tech_union(am, tech_union(bm, cm)));
    lemma_tech_union_associative(am, bm, cm);
    crate::kwc::lemma_kwc_merge_associative(
        a.unknown_file_types@,
        b.unknown_file_types@,
        c.unknown_file_types@,
    );
}

/// The merge law reaches the assembler's own output: a report whose token
/// counters carry no tags and whose included names hold exactly its own
/// object name is in merged form after one master-less merge, so two such
/// reports merge the same whichever stands as the master.
pub proof fn lemma_assembled_merge_commutative(a: Report, b: Report, a1: Report, b1: Report)
    requires
        rows_untagged(a),
        rows_untagged(b),
        a.reports_included@ == (if a.report_s3_name@.len() > 0 {
            Set::<Seq<char>>::empty().insert(a.report_s3_name@)
        } else {
            Set::<Seq<char>>::empty()
        }),
        b.reports_included@ == (if b.report_s3_name@.len() > 0 {
            Set::<Seq<char>>::empty().insert(b.report_s3_name@)
        } else {
            Set::<Seq<char>>::empty()
        }),
        a1.wf(),
        b1.wf(),
        merge_ensures(None, a, a1),
        merge_ensures(None, b, b1),
    ensures
        tech_union(tmap(a1.tech@), norm_fold(Map::<TechId, TechData>::empty(), b1.tech@))
            == tech_union(tmap(b1.tech@), norm_fold(Map::<TechId, TechData>::empty(), a1.tech@)),
        kwc_merge(a1.unknown_file_types@, b1.unknown_file_types@) == kwc_merge(
            b1.unknown_file_types@,
            a1.unknown_file_types@,
        ),
        (if b1.report_s3_name@.len() > 0 {
            a1.reports_included@.insert(b1.report_s3_name@)
        } else {
            a1.reports_included@
        }) == (if a1.report_s3_name@.len() > 0 {
            b1.reports_included@.insert(a1.report_s3_name@)
        } else {
            b1.reports_included@
        }),
{
    assert(tech_normalized(a1));
    assert(tech_normalized(b1));
    assert(merged_form(a1));
    assert(merged_form(b1));
    lemma_merge_commutative(a1, b1);
}

/// Recomputing the tech section is idempotent: a second pass, over the
/// unchanged per-file records, rebuilds the same section.
pub proof fn lemma_recompute_idempotent(r1: Report, r2: Report, r3: Report)
    requires
        tmap(r2.tech@) == tech_fold(Map::<TechId, TechData>::empty(), r1.per_file_tech@),
        r2.per_file_tech == r1.per_file_tech,
        tmap(r3.tech@) == tech_fold(Map::<TechId, TechData>::empty(), r2.per_file_tech@),
        r3.per_file_tech == r2.per_file_tech,
    ensures
        tmap(r3.tech@) == tmap(r2.tech@),
{
}

/// After a contributor merge, the record standing under every file key of
/// either side is one of the two candidates, and no candidate's commit is
/// later than the survivor's.
pub proof fn lemma_contributor_recency(m1: Map<FileKey, Tech>, m2: Map<FileKey, Tech>)
    ensures
        forall|k: FileKey| #[trigger] recency_union(m1, m2).contains_key(k) <==> (m1.contains_key(
            k,
        ) || m2.contains_key(k)),
        forall|k: FileKey| #[trigger] recency_union(m1, m2).contains_key(k) ==> {
            let v = recency_union(m1, m2)[k];
            &&& (v == m1[k] && m1.contains_key(k)) || (v == m2[k] && m2.contains_key(k))
            &&& m1.contains_key(k) ==> !epoch_gt(m1[k].commit_date_epoch, v.commit_date_epoch)
            &&& m2.contains_key(k) ==> !epoch_gt(m2[k].commit_date_epoch, v.commit_date_epoch)
        },
{
}


/// The view of the optional remote listing.
pub open spec fn opt_lines_view(o: Option<&Vec<String>>) -> Option<Seq<String>> {
    match o {
        Some(l) => Some(l@),
        None => None,
    }
}

/// The log-derived sections of a report: the hash of the commit list, the
/// contributors with their identities, and the hashed remote URLs when the
/// remote listing was given.
pub open spec fn log_attached(
    git_log: Seq<GitLogEntry>,
    remotes: Option<Seq<String>>,
    r: Report,
) -> bool {
    &&& r.log_hash matches Some(h) && h@ == log_hash_of(git_log)
    &&& r.contributors matches Some(v) && contributors_ok(git_log, git_log.len() as int, v@)
    &&& r.contributor_git_ids matches Some(ids) && ids.wf() && ids@ == Set::new(
        |id: Seq<char>| log_has_author(git_log, git_log.len() as int, id),
    )
    &&& match remotes {
        None => r.remote_url_hashes is None,
        Some(lines) => (r.remote_url_hashes is Some == crate::muncher::regex_ok(
            crate::vcs::remote_url_pattern(),
        )) && (r.remote_url_hashes matches Some(s) ==> s.wf() && s@ == Set::new(
            |h: Seq<char>|
                exists|i: int|
                    0 <= i < lines.len() && crate::muncher::regex_match(
                        crate::vcs::remote_url_pattern(),
                        #[trigger] lines[i]@,
                    ) && h == crate::vcs::remote_line_hash(lines[i]@),
        )),
    }
}

/// The commit coordinates a report takes from the log's two ends, where
/// the entries carry dates.
pub open spec fn head_dates_attached(git_log: Seq<GitLogEntry>, r: Report) -> bool {
    &&& (git_log.len() > 0 && git_log[0].date_epoch > 0) ==> ((r.date_head matches Some(d) && d@
        == git_log[0].date@) && (r.report_commit_sha1 matches Some(c) && c@
        == git_log[0].sha1@) && (r.last_commit_author matches Some(a) && a@ == git_identity(
        git_log[0].author_name_email@,
    )))
    &&& (git_log.len() > 0 && git_log.last().date_epoch > 0) ==> (r.date_init matches Some(d)
        && d@ == git_log.last().date@)
}

impl Report {
    /// Attach the commit history: the newest commit's date, identifier and
    /// author, the oldest commit's date, the hash of the whole commit
    /// list, the contributors with their identities, and the hashed remote
    /// URLs when the remote listing is given.
    pub fn add_commits_history(
        self,
        git_log: &Vec<GitLogEntry>,
        remote_lines: Option<&Vec<String>>,
    ) -> (r: Report)
        requires
            self.wf(),
        ensures
            r.wf(),
            head_dates_attached(git_log@, r),
            !(git_log@.len() > 0 && git_log@[0].date_epoch > 0) ==> (r.date_head == self.date_head
                && r.report_commit_sha1 == self.report_commit_sha1 && r.last_commit_author
                == self.last_commit_author),
            !(git_log@.len() > 0 && git_log@.last().date_epoch > 0) ==> r.date_init
                == self.date_init,
            log_attached(git_log@, opt_lines_view(remote_lines), r),
            r.tech == self.tech,
            r.per_file_tech == self.per_file_tech,
            r.timestamp == self.timestamp,
            r.unprocessed_file_names == self.unprocessed_file_names,
            r.unknown_file_types == self.unknown_file_types,
            r.github_user_name == self.github_user_name,
            r.github_repo_name == self.github_repo_name,
            r.report_id == self.report_id,
            r.report_s3_name == self.report_s3_name,
            r.reports_included == self.reports_included,
            r.git_ids_included == self.git_ids_included,
            r.tree_files == self.tree_files,
            r.is_single_commit == self.is_single_commit,
    {
        let mut r = self;
        if git_log.len() > 0 {
            let newest = &git_log[0];
            if newest.date_epoch > 0 {
                r.date_head = Some(newest.date.clone());
                r.report_commit_sha1 = Some(newest.sha1.clone());
                r.last_commit_author = Some(
                    Contributor::git_identity_from_name_email_pair(&newest.author_name_email),
                );
            }
            let oldest = &git_log[git_log.len() - 1];
            if oldest.date_epoch > 0 {
                r.date_init = Some(oldest.date.clone());
            }
        }
        r.log_hash = Some(hash_commit_list(git_log));
        let contributors = Contributor::from_commit_history(git_log);
        let mut ids = StrSet::new();
        let m = contributors.len();
        let mut a: usize = 0;
        while a < m
            invariant
                m == contributors@.len(),
                a <= m,
                ids.wf(),
                forall|h: Seq<char>| ids@.contains(h) <==> exists|k: int|
                    0 <= k < a as int && (#[trigger] contributors@[k].git_id)@ == h,
            decreases m - a,
        {
            ids.insert(contributors[a].git_id.clone());
            a += 1;
        }
        proof {
            let log = git_log@;
            let hi = log.len() as int;
            assert forall|h: Seq<char>| ids@.contains(h) <==> log_has_author(
                log,
                hi,
                h,
            ) by {
                if ids@.contains(h) {
                    let k = choose|k: int|
                        0 <= k < contributors@.len() && (#[trigger] contributors@[k].git_id)@
                            == h;
                    assert(log_has_author(log, hi, contributors@[k].git_id@));
                }
                if log_has_author(log, hi, h) {
                    let k = choose|k: int|
                        0 <= k < hi <= log.len() && git_identity(
                            #[trigger] log[k].author_name_email@,
                        ) == h;
                    assert(ids_cover(log, contributors@, k));
                    let b = choose|b: int|
                        0 <= b < contributors@.len() && (#[trigger] contributors@[b].git_id)@
                            == git_identity(log[k].author_name_email@);
                    assert(ids@.contains(contributors@[b].git_id@));
                }
            }
            assert(ids@ =~= Set::new(
                |id: Seq<char>| log_has_author(git_log@, git_log@.len() as int, id),
            ));
        }
        r.contributors = Some(contributors);
        r.contributor_git_ids = Some(ids);
        r.remote_url_hashes = match remote_lines {
            Some(lines) => hash_remote_urls(lines),
            None => None,
        };
        r
    }
}

} // verus!
