//! The unit of analysis: one `Tech` record per (file, muncher) pair, or per
//! language once aggregated.

use vstd::prelude::*;

use crate::kwc::KwcSet;
use crate::kwc::KwcVal;
use crate::kwc::kwc_merge;
use crate::kwc::sat_add;
use crate::kwc::sat_add_usize;
use crate::kwc::view_opt_str;
use crate::kwc::clone_opt_string;
use crate::strset::StrSet;
use crate::text::stem;
use crate::text::stem_exec;
use crate::vcs::GitLogEntry;
use crate::vcs::clone_log_entry;

verus! {

/// One analysis record.
pub struct Tech {
    pub language: String,
    pub muncher_name: String,
    pub file_name: Option<String>,
    pub commit_sha1: Option<String>,
    pub commit_date_epoch: Option<i64>,
    pub commit_date_iso: Option<String>,
    pub files: usize,
    pub total_lines: usize,
    pub code_lines: usize,
    pub line_comments: usize,
    pub block_comments: usize,
    pub docs_comments: usize,
    pub inline_comments: usize,
    pub blank_lines: usize,
    pub bracket_only_lines: usize,
    pub keywords: KwcSet,
    pub refs: KwcSet,
    pub refs_kw: Option<KwcSet>,
    pub pkgs: KwcSet,
    pub pkgs_kw: Option<KwcSet>,
    /// The commits behind this record, when a caller attaches them; the
    /// processor itself leaves them out.
    pub history: Option<Vec<GitLogEntry>>,
    pub muncher_hash: u64,
}

/// The identity of a record: two records merge when these agree.
#[verifier::ext_equal]
pub struct TechId {
    pub language: Seq<char>,
    pub muncher_name: Seq<char>,
    pub file_name: Option<Seq<char>>,
    pub commit_sha1: Option<Seq<char>>,
}

/// The ghost image of a record's counters and token sets.
#[verifier::ext_equal]
pub struct TechData {
    pub files: nat,
    pub total_lines: nat,
    pub code_lines: nat,
    pub line_comments: nat,
    pub block_comments: nat,
    pub docs_comments: nat,
    pub inline_comments: nat,
    pub blank_lines: nat,
    pub bracket_only_lines: nat,
    pub keywords: Map<Seq<char>, KwcVal>,
    pub refs: Map<Seq<char>, KwcVal>,
    pub pkgs: Map<Seq<char>, KwcVal>,
    pub refs_kw: Option<Map<Seq<char>, KwcVal>>,
    pub pkgs_kw: Option<Map<Seq<char>, KwcVal>>,
}

/// The view of an optional counter set.
pub open spec fn opt_kwc_view(o: Option<KwcSet>) -> Option<Map<Seq<char>, KwcVal>> {
    match o {
        Some(k) => Some(k@),
        None => None,
    }
}

/// The map an optional counter stands for; absent means empty.
pub open spec fn opt_or_empty(o: Option<Map<Seq<char>, KwcVal>>) -> Map<Seq<char>, KwcVal> {
    match o {
        Some(m) => m,
        None => Map::empty(),
    }
}

/// Merge of optional counters: an absent right side changes nothing; a
/// present right side makes the result present, over an empty left default.
pub open spec fn opt_kw_merge(
    a: Option<Map<Seq<char>, KwcVal>>,
    b: Option<Map<Seq<char>, KwcVal>>,
) -> Option<Map<Seq<char>, KwcVal>> {
    match b {
        None => a,
        Some(bm) => Some(kwc_merge(opt_or_empty(a), bm)),
    }
}

/// Merging two records' counters: numbers add (capped), token counters
/// merge pointwise.
pub open spec fn data_merge(a: TechData, b: TechData) -> TechData {
    TechData {
        files: sat_add(a.files, b.files),
        total_lines: sat_add(a.total_lines, b.total_lines),
        code_lines: sat_add(a.code_lines, b.code_lines),
        line_comments: sat_add(a.line_comments, b.line_comments),
        block_comments: sat_add(a.block_comments, b.block_comments),
        docs_comments: sat_add(a.docs_comments, b.docs_comments),
        inline_comments: sat_add(a.inline_comments, b.inline_comments),
        blank_lines: sat_add(a.blank_lines, b.blank_lines),
        bracket_only_lines: sat_add(a.bracket_only_lines, b.bracket_only_lines),
        keywords: kwc_merge(a.keywords, b.keywords),
        refs: kwc_merge(a.refs, b.refs),
        pkgs: kwc_merge(a.pkgs, b.pkgs),
        refs_kw: opt_kw_merge(a.refs_kw, b.refs_kw),
        pkgs_kw: opt_kw_merge(a.pkgs_kw, b.pkgs_kw),
    }
}

/// No token of any counter of the record carries a tag.
pub open spec fn data_kinds_none(d: TechData) -> bool {
    &&& crate::kwc::kwc_kinds_none(d.keywords)
    &&& crate::kwc::kwc_kinds_none(d.refs)
    &&& crate::kwc::kwc_kinds_none(d.pkgs)
    &&& crate::kwc::kwc_kinds_none(opt_or_empty(d.refs_kw))
    &&& crate::kwc::kwc_kinds_none(opt_or_empty(d.pkgs_kw))
}

/// A token suppressed as a local import: it names a tree file outright, or
/// the stem of one.
pub open spec fn banned_token(tok: Seq<char>, tree: Set<Seq<char>>) -> bool {
    tree.contains(tok) || exists|m: Seq<char>| tree.contains(m) && stem(m) == tok
}

/// The counter map with the banned tokens removed.
pub open spec fn kwc_restrict(
    m: Map<Seq<char>, KwcVal>,
    tree: Set<Seq<char>>,
) -> Map<Seq<char>, KwcVal> {
    Map::new(|k: Seq<char>| m.contains_key(k) && !banned_token(k, tree), |k: Seq<char>| m[k])
}


/// The identity two per-file records share when they describe the same
/// file under the same rules, whatever the commit.
#[verifier::ext_equal]
pub struct FileKey {
    pub language: Seq<char>,
    pub muncher_name: Seq<char>,
    pub file_name: Option<Seq<char>>,
}

/// The file key of a record.
pub open spec fn fkey(t: Tech) -> FileKey {
    FileKey {
        language: t.language@,
        muncher_name: t.muncher_name@,
        file_name: view_opt_str(t.file_name),
    }
}

impl Tech {
    /// The identity of this record.
    pub open spec fn id(&self) -> TechId {
        TechId {
            language: self.language@,
            muncher_name: self.muncher_name@,
            file_name: view_opt_str(self.file_name),
            commit_sha1: view_opt_str(self.commit_sha1),
        }
    }

    /// The counters and token maps of this record.
    pub open spec fn data(&self) -> TechData {
        TechData {
            files: self.files as nat,
            total_lines: self.total_lines as nat,
            code_lines: self.code_lines as nat,
            line_comments: self.line_comments as nat,
            block_comments: self.block_comments as nat,
            docs_comments: self.docs_comments as nat,
            inline_comments: self.inline_comments as nat,
            blank_lines: self.blank_lines as nat,
            bracket_only_lines: self.bracket_only_lines as nat,
            keywords: self.keywords@,
            refs: self.refs@,
            pkgs: self.pkgs@,
            refs_kw: opt_kwc_view(self.refs_kw),
            pkgs_kw: opt_kwc_view(self.pkgs_kw),
        }
    }

    /// Every token counter inside is well formed.
    pub open spec fn wf(&self) -> bool {
        &&& self.keywords.wf()
        &&& self.refs.wf()
        &&& self.pkgs.wf()
        &&& (self.refs_kw matches Some(k) ==> k.wf())
        &&& (self.pkgs_kw matches Some(k) ==> k.wf())
    }

    /// Whether the two records merge: their identities agree.
    pub fn same_identity(&self, other: &Tech) -> (r: bool)
        ensures
            r == (self.id() == other.id()),
    {
        let r = self.language == other.language && self.muncher_name == other.muncher_name
            && eq_opt_string(&self.file_name, &other.file_name) && eq_opt_string(
            &self.commit_sha1,
            &other.commit_sha1,
        );
        proof {
            if r {
                assert(self.id() =~= other.id());
            }
        }
        r
    }


    /// Whether the two records describe the same file under the same rules.
    pub fn same_file_key(&self, other: &Tech) -> (r: bool)
        ensures
            r == (fkey(*self) == fkey(*other)),
    {
        let r = self.language == other.language && self.muncher_name == other.muncher_name
            && eq_opt_string(&self.file_name, &other.file_name);
        proof {
            if r {
                assert(fkey(*self) =~= fkey(*other));
            }
        }
        r
    }

    /// A full copy.
    pub fn duplicate(&self) -> (r: Tech)
        ensures
            r.id() == self.id(),
            r.data() == self.data(),
            r.wf() == self.wf(),
            r.muncher_hash == self.muncher_hash,
            r.commit_date_epoch == self.commit_date_epoch,
            r.commit_date_iso == self.commit_date_iso,
            r.refs.summary() == self.refs.summary(),
            r.pkgs.summary() == self.pkgs.summary(),
            r.language == self.language,
            r.history is Some == self.history is Some,
    {
        let history = clone_opt_history(&self.history);
        let r = Tech {
            language: self.language.clone(),
            muncher_name: self.muncher_name.clone(),
            file_name: clone_opt_string(&self.file_name),
            commit_sha1: clone_opt_string(&self.commit_sha1),
            commit_date_epoch: self.commit_date_epoch,
            commit_date_iso: clone_opt_string(&self.commit_date_iso),
            files: self.files,
            total_lines: self.total_lines,
            code_lines: self.code_lines,
            line_comments: self.line_comments,
            block_comments: self.block_comments,
            docs_comments: self.docs_comments,
            inline_comments: self.inline_comments,
            blank_lines: self.blank_lines,
            bracket_only_lines: self.bracket_only_lines,
            keywords: self.keywords.duplicate(),
            refs: self.refs.duplicate(),
            refs_kw: dup_opt_kwc(&self.refs_kw),
            pkgs: self.pkgs.duplicate(),
            pkgs_kw: dup_opt_kwc(&self.pkgs_kw),
            history,
            muncher_hash: self.muncher_hash,
        };
        proof {
            assert(r.id() =~= self.id());
            assert(r.data() =~= self.data());
        }
        r
    }

    /// Strip the file name, the commit coordinates, and the muncher name, so
    /// that the record merges per language.
    pub fn reset_file_and_commit_info(self) -> (r: Tech)
        ensures
            r.id() == (TechId {
                language: self.language@,
                muncher_name: Seq::<char>::empty(),
                file_name: None,
                commit_sha1: None,
            }),
            r.data() == self.data(),
            r.wf() == self.wf(),
            r.muncher_hash == self.muncher_hash,
            r.commit_date_epoch is None,
            r.commit_date_iso is None,
            r.history is None,
            r.keywords == self.keywords,
            r.refs == self.refs,
            r.pkgs == self.pkgs,
            r.refs_kw == self.refs_kw,
            r.pkgs_kw == self.pkgs_kw,
            r.language == self.language,
    {
        let r = Tech {
            muncher_name: String::new(),
            file_name: None,
            commit_sha1: None,
            commit_date_epoch: None,
            commit_date_iso: None,
            history: None,
            ..self
        };
        proof {
            assert(r.data() =~= self.data());
        }
        r
    }

    /// Fold the other record's counters in; identities must agree for this
    /// to be meaningful, but the fields of `self` other than the counters
    /// stand as they are.
    pub fn merged_with(self, other: &Tech) -> (r: Tech)
        requires
            self.wf(),
            other.wf(),
        ensures
            r.id() == self.id(),
            r.data() == data_merge(self.data(), other.data()),
            r.wf(),
            r.muncher_hash == self.muncher_hash,
            r.commit_date_epoch == self.commit_date_epoch,
            view_opt_str(r.commit_date_iso) == view_opt_str(self.commit_date_iso),
            r.refs.summary() == crate::kwc::kwc_merge(self.refs.summary(), other.refs.summary()),
            r.pkgs.summary() == crate::kwc::kwc_merge(self.pkgs.summary(), other.pkgs.summary()),
    {
        let mut r = self;
        r.files = sat_add_usize(r.files, other.files);
        r.total_lines = sat_add_usize(r.total_lines, other.total_lines);
        r.code_lines = sat_add_usize(r.code_lines, other.code_lines);
        r.line_comments = sat_add_usize(r.line_comments, other.line_comments);
        r.block_comments = sat_add_usize(r.block_comments, other.block_comments);
        r.docs_comments = sat_add_usize(r.docs_comments, other.docs_comments);
        r.inline_comments = sat_add_usize(r.inline_comments, other.inline_comments);
        r.blank_lines = sat_add_usize(r.blank_lines, other.blank_lines);
        r.bracket_only_lines = sat_add_usize(r.bracket_only_lines, other.bracket_only_lines);
        r.keywords.merge(&other.keywords);
        r.refs.merge(&other.refs);
        r.pkgs.merge(&other.pkgs);
        let refs_kw = merged_opt_kw(r.refs_kw, &other.refs_kw);
        r.refs_kw = refs_kw;
        let pkgs_kw = merged_opt_kw(r.pkgs_kw, &other.pkgs_kw);
        r.pkgs_kw = pkgs_kw;
        proof {
            assert(r.data() =~= data_merge(self.data(), other.data()));
        }
        r
    }

    /// Derive the summary counter of the given counter set: each token is
    /// split into identifier runs and the runs are recounted.
    pub fn new_kw_summary(kwc: &KwcSet) -> (r: Option<KwcSet>)
        ensures
            r matches Some(k) && k.wf() && k@ == kwc.summary(),
    {
        Some(kwc.summarize())
    }

    /// Suppress references that name files of the tree itself, by full name
    /// or by stem.
    pub fn remove_local_imports(self, tree_files: Option<&StrSet>) -> (r: Tech)
        requires
            self.wf(),
        ensures
            r.id() == self.id(),
            r.wf(),
            r.muncher_hash == self.muncher_hash,
            r.commit_date_epoch == self.commit_date_epoch,
            r.commit_date_iso == self.commit_date_iso,
            r.file_name == self.file_name,
            r.commit_sha1 == self.commit_sha1,
            r.refs_kw is Some == self.refs_kw is Some,
            r.pkgs_kw is Some == self.pkgs_kw is Some,
            r.history is Some == self.history is Some,
            match tree_files {
                Some(t) => r.data() == (TechData { refs: kwc_restrict(self.data().refs, t@), ..self.data() }),
                None => r.data() == self.data(),
            },
    {
        match tree_files {
            None => self,
            Some(tree) => {
                let mut r = self;
                let n = r.refs.entry_count();
                let mut keep: Vec<bool> = Vec::new();
                let mut i: usize = 0;
                while i < n
                    invariant
                        r.refs.wf(),
                        n == r.refs.entry_seq().len(),
                        i <= n,
                        keep@.len() == i as int,
                        forall|k: int| 0 <= k < i as int ==> keep@[k] == !banned_token(
                            r.refs.entry_seq()[k].token@,
                            tree@,
                        ),
                    decreases n - i,
                {
                    let token = &r.refs.entry_at(i).token;
                    let banned = tree.contains(token) || stem_matches(tree, token);
                    keep.push(!banned);
                    i += 1;
                }
                let ghost before = r.refs@;
                let ghost before_entries = r.refs.entry_seq();
                proof {
                    r.refs.lemma_entry_tokens();
                }
                r.refs.remove_flagged(&keep);
                proof {
                    assert forall|t: Seq<char>| r.refs@.contains_key(t) <==> (
                    before.contains_key(t) && !banned_token(t, tree@)) by {
                        if before.contains_key(t) && !banned_token(t, tree@) {
                            let i = choose|i: int|
                                0 <= i < before_entries.len() && before_entries[i].token@ == t;
                            assert(keep@[i] && before_entries[i].token@ == t);
                        }
                    }
                    assert(r.refs@ =~= kwc_restrict(before, tree@));
                    assert(r.data() =~= (TechData {
                        refs: kwc_restrict(self.data().refs, tree@),
                        ..self.data()
                    }));
                }
                r
            },
        }
    }
}


/// Copy an optional commit list.
pub fn clone_opt_history(o: &Option<Vec<GitLogEntry>>) -> (r: Option<Vec<GitLogEntry>>)
    ensures
        r is Some == o is Some,
{
    match o {
        None => None,
        Some(v) => {
            let mut out: Vec<GitLogEntry> = Vec::new();
            let n = v.len();
            let mut i: usize = 0;
            while i < n
                invariant
                    n == v@.len(),
                    i <= n,
                decreases n - i,
            {
                out.push(clone_log_entry(&v[i]));
                i += 1;
            }
            Some(out)
        },
    }
}

/// Whether the two optional strings hold the same text.
pub fn eq_opt_string(a: &Option<String>, b: &Option<String>) -> (r: bool)
    ensures
        r == (view_opt_str(*a) == view_opt_str(*b)),
{
    match (a, b) {
        (None, None) => true,
        (Some(x), Some(y)) => *x == *y,
        _ => false,
    }
}

/// Copy an optional counter set.
pub fn dup_opt_kwc(o: &Option<KwcSet>) -> (r: Option<KwcSet>)
    ensures
        opt_kwc_view(r) == opt_kwc_view(*o),
        (r matches Some(k) ==> (o matches Some(k0) && k.wf() == k0.wf())),
        (r is Some <==> o is Some),
{
    match o {
        Some(k) => Some(k.duplicate()),
        None => None,
    }
}

/// Merge an optional counter into an optional counter.
pub fn merged_opt_kw(a: Option<KwcSet>, b: &Option<KwcSet>) -> (r: Option<KwcSet>)
    requires
        (a matches Some(k) ==> k.wf()),
        (*b matches Some(k) ==> k.wf()),
    ensures
        opt_kwc_view(r) == opt_kw_merge(opt_kwc_view(a), opt_kwc_view(*b)),
        (r matches Some(k) ==> k.wf()),
{
    match b {
        None => a,
        Some(bset) => {
            let mut base = match a {
                Some(aset) => aset,
                None => KwcSet::new(),
            };
            base.merge(bset);
            Some(base)
        },
    }
}

/// Whether some member of the tree has the given token as its stem.
pub fn stem_matches(tree: &StrSet, token: &String) -> (r: bool)
    ensures
        r == exists|m: Seq<char>| tree@.contains(m) && stem(m) == token@,
{
    let n = tree.seq_len();
    let mut i: usize = 0;
    while i < n
        invariant
            n == tree.elems().len(),
            i <= n,
            forall|k: int| 0 <= k < i as int ==> stem(#[trigger] tree.elems()[k]) != token@,
        decreases n - i,
    {
        let s = stem_exec(tree.get(i));
        if s == *token {
            proof {
                assert(tree@.contains(tree.elems()[i as int]));
            }
            return true;
        }
        i += 1;
    }
    proof {
        tree.lemma_elems();
        if exists|m: Seq<char>| tree@.contains(m) && stem(m) == token@ {
            let m = choose|m: Seq<char>| tree@.contains(m) && stem(m) == token@;
            let k = choose|k: int| 0 <= k < tree.elems().len() && tree.elems()[k] == m;
            assert(stem(tree.elems()[k]) != token@);
            assert(false);
        }
    }
    false
}

} // verus!
