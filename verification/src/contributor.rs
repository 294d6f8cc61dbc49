//! Contributors: commit authors folded into canonical identities.

use vstd::prelude::*;
use vstd::string::StrSliceExecFns;

use crate::strset::StrSet;
use crate::text::first_idx;
use crate::text::lemma_first_idx_bounds;
use crate::text::lowered;
use crate::text::to_lower;
use crate::text::trim;
use crate::text::trimmed;
use crate::vcs::GitLogEntry;

verus! {

/// One commit author, folded across all the commits that carry the same
/// canonical identity.
pub struct Contributor {
    pub git_id: String,
    pub name: String,
    pub touched_files: StrSet,
    pub commit_first_epoch: i64,
    pub commit_last_epoch: i64,
}

/// The canonical identity behind a raw `Name <email>` pair: the address
/// between the angle brackets, trimmed and folded to lower case; the whole
/// pair trimmed and folded when no address stands there.
pub open spec fn git_identity(s: Seq<char>) -> Seq<char> {
    let a = first_idx(s, '<');
    let b = first_idx(s, '>');
    if 0 <= a && a < b && trimmed(s.subrange(a + 1, b)).len() > 0 {
        lowered(trimmed(s.subrange(a + 1, b)))
    } else {
        lowered(trimmed(s))
    }
}

/// The display name of a raw pair: what stands before the angle bracket,
/// trimmed; the whole pair trimmed when no bracket stands there.
pub open spec fn display_name(s: Seq<char>) -> Seq<char> {
    let a = first_idx(s, '<');
    if a >= 0 {
        trimmed(s.take(a))
    } else {
        trimmed(s)
    }
}

/// The files one entry touched.
pub open spec fn entry_files(e: GitLogEntry) -> Set<Seq<char>> {
    e.files@.map_values(|s: String| s@).to_set()
}

/// The files an identity touched in the first `hi` entries of the log.
pub open spec fn author_files(log: Seq<GitLogEntry>, hi: int, id: Seq<char>) -> Set<Seq<char>> {
    Set::new(
        |f: Seq<char>|
            exists|i: int|
                0 <= i < hi <= log.len() && git_identity(#[trigger] log[i].author_name_email@)
                    == id && entry_files(log[i]).contains(f),
    )
}

/// Whether the identity authors one of the first `hi` entries of the log.
pub open spec fn log_has_author(log: Seq<GitLogEntry>, hi: int, id: Seq<char>) -> bool {
    exists|i: int|
        0 <= i < hi <= log.len() && git_identity(#[trigger] log[i].author_name_email@) == id
}

/// Whether the identity of entry `k` stands in the list.
pub open spec fn ids_cover(log: Seq<GitLogEntry>, r: Seq<Contributor>, k: int) -> bool {
    exists|a: int|
        0 <= a < r.len() && (#[trigger] r[a].git_id)@ == git_identity(log[k].author_name_email@)
}

/// The contributor's epoch range spans exactly its commits among the first
/// `hi` entries, and both bounds are attained.
pub open spec fn epoch_span(log: Seq<GitLogEntry>, hi: int, c: Contributor) -> bool {
    &&& exists|k: int|
        0 <= k < hi <= log.len() && git_identity(#[trigger] log[k].author_name_email@) == c.git_id@
            && log[k].date_epoch == c.commit_last_epoch
    &&& exists|k: int|
        0 <= k < hi <= log.len() && git_identity(#[trigger] log[k].author_name_email@) == c.git_id@
            && log[k].date_epoch == c.commit_first_epoch
    &&& forall|k: int|
        0 <= k < hi && git_identity(#[trigger] log[k].author_name_email@) == c.git_id@
            ==> c.commit_first_epoch <= log[k].date_epoch <= c.commit_last_epoch
}

/// Entry `k` is the newest commit of the identity among the first `hi`
/// entries of the log, which stands newest first.
pub open spec fn is_first_author(log: Seq<GitLogEntry>, hi: int, k: int, id: Seq<char>) -> bool {
    &&& 0 <= k < hi <= log.len()
    &&& git_identity(log[k].author_name_email@) == id
    &&& forall|j: int| 0 <= j < k ==> git_identity(#[trigger] log[j].author_name_email@) != id
}

/// The contributor's display name is the one its newest commit carries.
pub open spec fn name_pinned(log: Seq<GitLogEntry>, hi: int, c: Contributor) -> bool {
    exists|k: int|
        is_first_author(log, hi, k, c.git_id@) && c.name@ == display_name(
            #[trigger] log[k].author_name_email@,
        )
}

/// Everything the invariant of the fold maintains about one contributor.
pub open spec fn contributors_ok(log: Seq<GitLogEntry>, hi: int, r: Seq<Contributor>) -> bool {
    &&& forall|a: int, b: int| 0 <= a < b < r.len() ==> (#[trigger] r[a].git_id)@ != (
    #[trigger] r[b].git_id)@
    &&& forall|a: int| 0 <= a < r.len() ==> log_has_author(log, hi, (#[trigger] r[a].git_id)@)
    &&& forall|k: int| 0 <= k < hi ==> #[trigger] ids_cover(log, r, k)
    &&& forall|a: int| 0 <= a < r.len() ==> (#[trigger] r[a]).touched_files@ == author_files(
        log,
        hi,
        r[a].git_id@,
    ) && r[a].touched_files.wf()
    &&& forall|a: int| 0 <= a < r.len() ==> epoch_span(log, hi, #[trigger] r[a])
    &&& forall|a: int| 0 <= a < r.len() ==> name_pinned(log, hi, #[trigger] r[a])
}

impl Contributor {
    /// The canonical identity behind a raw `Name <email>` author pair.
    pub fn git_identity_from_name_email_pair(s: &String) -> (r: String)
        ensures
            r@ == git_identity(s@),
    {
        let text = s.as_str();
        proof {
            lemma_first_idx_bounds(s@, '<');
            lemma_first_idx_bounds(s@, '>');
        }
        if let Some(a) = crate::text::find_first_of(text, '<') {
            if let Some(b) = crate::text::find_first_of(text, '>') {
                if a < b {
                    let inner = text.substring_char(a + 1, b).to_owned();
                    let inner = trim(&inner);
                    if inner.as_str().unicode_len() > 0 {
                        return to_lower(&inner);
                    }
                }
            }
        }
        to_lower(&trim(s))
    }

    /// The display name of a raw author pair.
    pub fn display_name_from_pair(s: &String) -> (r: String)
        ensures
            r@ == display_name(s@),
    {
        let text = s.as_str();
        proof {
            lemma_first_idx_bounds(s@, '<');
        }
        if let Some(a) = crate::text::find_first_of(text, '<') {
            let head = text.substring_char(0, a).to_owned();
            proof {
                assert(s@.take(a as int) =~= s@.subrange(0, a as int));
            }
            trim(&head)
        } else {
            trim(s)
        }
    }

    /// Fold a commit log into its contributors: one per canonical identity,
    /// with the union of the touched files and the span of the commit dates.
    pub fn from_commit_history(log: &Vec<GitLogEntry>) -> (r: Vec<Contributor>)
        ensures
            contributors_ok(log@, log@.len() as int, r@),
    {
        let mut r: Vec<Contributor> = Vec::new();
        let n = log.len();
        let mut i: usize = 0;
        while i < n
            invariant
                n == log@.len(),
                i <= n,
                contributors_ok(log@, i as int, r@),
            decreases n - i,
        {
            let entry = &log[i];
            let id = Contributor::git_identity_from_name_email_pair(&entry.author_name_email);
            let m = r.len();
            let mut found: Option<usize> = None;
            let mut a: usize = 0;
            while a < m && found.is_none()
                invariant
                    m == r@.len(),
                    a <= m,
                    i < n == log@.len(),
                    id@ == git_identity(log@[i as int].author_name_email@),
                    found is None ==> forall|k: int| 0 <= k < a as int ==> (
                    #[trigger] r@[k].git_id)@ != id@,
                    found matches Some(f) ==> f < m && r@[f as int].git_id@ == id@,
                decreases m - a + (if found is None {
                    1int
                } else {
                    0int
                }),
            {
                if r[a].git_id == id {
                    found = Some(a);
                } else {
                    a += 1;
                }
            }
            let ghost pre = r@;
            match found {
                Some(f) => {
                    let mut c = r.remove(f);
                    let fs = StrSet::from_vec(&entry.files);
                    c.touched_files.insert_all(&fs);
                    if entry.date_epoch > c.commit_last_epoch {
                        c.commit_last_epoch = entry.date_epoch;
                    }
                    if entry.date_epoch < c.commit_first_epoch {
                        c.commit_first_epoch = entry.date_epoch;
                    }
                    r.push(c);
                    proof {
                        lemma_step_merge(log@, i as int, pre, r@, f as int, id@);
                    }
                },
                None => {
                    proof {
                        assert forall|k: int| 0 <= k < pre.len() implies (
                        #[trigger] pre[k].git_id)@ != id@ by {}
                    }
                    let name = Contributor::display_name_from_pair(&entry.author_name_email);
                    let c = Contributor {
                        git_id: id,
                        name,
                        touched_files: StrSet::from_vec(&entry.files),
                        commit_first_epoch: entry.date_epoch,
                        commit_last_epoch: entry.date_epoch,
                    };
                    r.push(c);
                    proof {
                        lemma_step_new(log@, i as int, pre, r@);
                    }
                },
            }
            i += 1;
        }
        r
    }
}

proof fn lemma_author_files_step(log: Seq<GitLogEntry>, i: int, id: Seq<char>)
    requires
        0 <= i < log.len(),
    ensures
        author_files(log, i + 1, id) =~= if git_identity(log[i].author_name_email@) == id {
            author_files(log, i, id).union(entry_files(log[i]))
        } else {
            author_files(log, i, id)
        },
{
}

proof fn lemma_step_merge(
    log: Seq<GitLogEntry>,
    i: int,
    pre: Seq<Contributor>,
    post: Seq<Contributor>,
    f: int,
    id: Seq<char>,
)
    requires
        0 <= i < log.len(),
        0 <= f < pre.len(),
        post.len() == pre.len(),
        id == git_identity(log[i].author_name_email@),
        pre[f].git_id@ == id,
        contributors_ok(log, i, pre),
        forall|a: int| 0 <= a < f ==> post[a] == pre[a],
        forall|a: int| f <= a < pre.len() - 1 ==> post[a] == pre[a + 1],
        post.last().git_id@ == id,
        post.last().touched_files@ == pre[f].touched_files@.union(entry_files(log[i])),
        post.last().touched_files.wf(),
        post.last().commit_last_epoch == if log[i].date_epoch > pre[f].commit_last_epoch {
            log[i].date_epoch
        } else {
            pre[f].commit_last_epoch
        },
        post.last().commit_first_epoch == if log[i].date_epoch < pre[f].commit_first_epoch {
            log[i].date_epoch
        } else {
            pre[f].commit_first_epoch
        },
        post.last().name == pre[f].name,
    ensures
        contributors_ok(log, i + 1, post),
{
    let last = post.len() - 1;
    assert forall|a: int, b: int| 0 <= a < b < post.len() implies (#[trigger] post[a].git_id)@ != (
    #[trigger] post[b].git_id)@ by {
        let pa = if a < f {
            a
        } else if a < last {
            a + 1
        } else {
            f
        };
        let pb = if b < f {
            b
        } else if b < last {
            b + 1
        } else {
            f
        };
        assert(post[a].git_id@ == pre[pa].git_id@);
        assert(post[b].git_id@ == pre[pb].git_id@);
        assert(pa != pb);
    }
    assert forall|a: int| 0 <= a < post.len() implies log_has_author(
        log,
        i + 1,
        (#[trigger] post[a].git_id)@,
    ) by {
        if a == last {
            assert(git_identity(log[i].author_name_email@) == post[a].git_id@);
        } else {
            let pa = if a < f {
                a
            } else {
                a + 1
            };
            assert(post[a] == pre[pa]);
            assert(log_has_author(log, i, pre[pa].git_id@));
        }
    }
    assert forall|k: int| 0 <= k < i + 1 implies #[trigger] ids_cover(log, post, k) by {
        if k == i {
            assert(0 <= last < post.len() && post[last].git_id@ == git_identity(
                log[k].author_name_email@,
            ));
        } else {
            assert(ids_cover(log, pre, k));
            let b = choose|b: int|
                0 <= b < pre.len() && (#[trigger] pre[b].git_id)@ == git_identity(
                    log[k].author_name_email@,
                );
            let a = if b < f {
                b
            } else if b == f {
                last
            } else {
                b - 1
            };
            assert(post[a].git_id@ == pre[b].git_id@);
        }
    }
    assert forall|a: int| 0 <= a < post.len() implies (#[trigger] post[a]).touched_files@
        == author_files(log, i + 1, post[a].git_id@) && post[a].touched_files.wf() by {
        lemma_author_files_step(log, i, post[a].git_id@);
        if a == last {
            assert(post[a].touched_files@ == pre[f].touched_files@.union(entry_files(log[i])));
            assert(pre[f].touched_files@ == author_files(log, i, pre[f].git_id@));
        } else {
            let pa = if a < f {
                a
            } else {
                a + 1
            };
            assert(post[a] == pre[pa]);
            assert(pre[pa].git_id@ != id);
            assert(pre[pa].touched_files@ == author_files(log, i, pre[pa].git_id@));
        }
    }
    assert forall|a: int| 0 <= a < post.len() implies epoch_span(log, i + 1, #[trigger] post[a]) by {
        if a == last {
            assert(epoch_span(log, i, pre[f]));
            if log[i].date_epoch > pre[f].commit_last_epoch {
                assert(git_identity(log[i].author_name_email@) == post[a].git_id@
                    && log[i].date_epoch == post[a].commit_last_epoch);
            } else {
                let k = choose|k: int|
                    0 <= k < i <= log.len() && git_identity(#[trigger] log[k].author_name_email@)
                        == pre[f].git_id@ && log[k].date_epoch == pre[f].commit_last_epoch;
                assert(git_identity(log[k].author_name_email@) == post[a].git_id@
                    && log[k].date_epoch == post[a].commit_last_epoch);
            }
            if log[i].date_epoch < pre[f].commit_first_epoch {
                assert(git_identity(log[i].author_name_email@) == post[a].git_id@
                    && log[i].date_epoch == post[a].commit_first_epoch);
            } else {
                let k = choose|k: int|
                    0 <= k < i <= log.len() && git_identity(#[trigger] log[k].author_name_email@)
                        == pre[f].git_id@ && log[k].date_epoch == pre[f].commit_first_epoch;
                assert(git_identity(log[k].author_name_email@) == post[a].git_id@
                    && log[k].date_epoch == post[a].commit_first_epoch);
            }
        } else {
            let pa = if a < f {
                a
            } else {
                a + 1
            };
            assert(post[a] == pre[pa]);
            assert(pre[pa].git_id@ != id);
            assert(epoch_span(log, i, pre[pa]));
        }
    }
    assert forall|a: int| 0 <= a < post.len() implies name_pinned(log, i + 1, #[trigger] post[a]) by {
        let pa = if a < f {
            a
        } else if a < last {
            a + 1
        } else {
            f
        };
        assert(post[a].git_id@ == pre[pa].git_id@);
        assert(post[a].name == pre[pa].name);
        assert(name_pinned(log, i, pre[pa]));
        let k = choose|k: int|
            is_first_author(log, i, k, pre[pa].git_id@) && pre[pa].name@ == display_name(
                #[trigger] log[k].author_name_email@,
            );
        assert(is_first_author(log, i + 1, k, post[a].git_id@) && post[a].name@ == display_name(
            log[k].author_name_email@,
        ));
    }
}

proof fn lemma_step_new(log: Seq<GitLogEntry>, i: int, pre: Seq<Contributor>, post: Seq<Contributor>)
    requires
        0 <= i < log.len(),
        post.len() == pre.len() + 1,
        forall|a: int| 0 <= a < pre.len() ==> post[a] == pre[a],
        post.last().git_id@ == git_identity(log[i].author_name_email@),
        forall|a: int| 0 <= a < pre.len() ==> (#[trigger] pre[a].git_id)@ != post.last().git_id@,
        contributors_ok(log, i, pre),
        post.last().touched_files@ == entry_files(log[i]),
        post.last().touched_files.wf(),
        post.last().commit_first_epoch == log[i].date_epoch,
        post.last().commit_last_epoch == log[i].date_epoch,
        post.last().name@ == display_name(log[i].author_name_email@),
    ensures
        contributors_ok(log, i + 1, post),
{
    let last = post.len() - 1;
    let id = post.last().git_id@;
    assert forall|a: int| 0 <= a < post.len() implies log_has_author(
        log,
        i + 1,
        (#[trigger] post[a].git_id)@,
    ) by {
        if a == last {
            assert(git_identity(log[i].author_name_email@) == post[a].git_id@);
        } else {
            assert(post[a] == pre[a]);
            assert(log_has_author(log, i, pre[a].git_id@));
        }
    }
    assert forall|k: int| 0 <= k < i + 1 implies #[trigger] ids_cover(log, post, k) by {
        if k == i {
            assert(0 <= last < post.len() && post[last].git_id@ == git_identity(
                log[k].author_name_email@,
            ));
        } else {
            assert(ids_cover(log, pre, k));
            let b = choose|b: int|
                0 <= b < pre.len() && (#[trigger] pre[b].git_id)@ == git_identity(
                    log[k].author_name_email@,
                );
            assert(post[b].git_id@ == git_identity(log[k].author_name_email@));
        }
    }
    assert forall|a: int| 0 <= a < post.len() implies (#[trigger] post[a]).touched_files@
        == author_files(log, i + 1, post[a].git_id@) && post[a].touched_files.wf() by {
        lemma_author_files_step(log, i, post[a].git_id@);
        if a == last {
            assert(author_files(log, i, id) =~= Set::<Seq<char>>::empty()) by {
                if exists|f: Seq<char>| author_files(log, i, id).contains(f) {
                    let f = choose|f: Seq<char>| author_files(log, i, id).contains(f);
                    let k = choose|k: int|
                        0 <= k < i <= log.len() && git_identity(
                            #[trigger] log[k].author_name_email@,
                        ) == id && entry_files(log[k]).contains(f);
                    assert(ids_cover(log, pre, k));
                    let b = choose|b: int|
                        0 <= b < pre.len() && (#[trigger] pre[b].git_id)@ == git_identity(
                            log[k].author_name_email@,
                        );
                    assert(false);
                }
            }
            assert(post[a].touched_files@ =~= author_files(log, i, id).union(
                entry_files(log[i]),
            ));
        } else {
            assert(post[a] == pre[a]);
            assert(pre[a].git_id@ != id);
            assert(pre[a].touched_files@ == author_files(log, i, pre[a].git_id@));
        }
    }
    assert forall|a: int| 0 <= a < post.len() implies epoch_span(log, i + 1, #[trigger] post[a]) by {
        if a == last {
            assert(git_identity(log[i].author_name_email@) == post[a].git_id@
                && log[i].date_epoch == post[a].commit_last_epoch);
            assert(git_identity(log[i].author_name_email@) == post[a].git_id@
                && log[i].date_epoch == post[a].commit_first_epoch);
            assert forall|k: int|
                0 <= k < i + 1 && git_identity(#[trigger] log[k].author_name_email@)
                    == post[a].git_id@ implies post[a].commit_first_epoch <= log[k].date_epoch
                <= post[a].commit_last_epoch by {
                if k < i {
                    assert(ids_cover(log, pre, k));
                    let b = choose|b: int|
                        0 <= b < pre.len() && (#[trigger] pre[b].git_id)@ == git_identity(
                            log[k].author_name_email@,
                        );
                    assert(false);
                }
            }
        } else {
            assert(post[a] == pre[a]);
            assert(pre[a].git_id@ != id);
            assert(epoch_span(log, i, pre[a]));
        }
    }
    assert forall|a: int| 0 <= a < post.len() implies name_pinned(log, i + 1, #[trigger] post[a]) by {
        if a == last {
            assert forall|j: int| 0 <= j < i implies git_identity(
                #[trigger] log[j].author_name_email@,
            ) != id by {
                if git_identity(log[j].author_name_email@) == id {
                    assert(ids_cover(log, pre, j));
                    let b = choose|b: int|
                        0 <= b < pre.len() && (#[trigger] pre[b].git_id)@ == git_identity(
                            log[j].author_name_email@,
                        );
                    assert(false);
                }
            }
            assert(is_first_author(log, i + 1, i, post[a].git_id@) && post[a].name@
                == display_name(log[i].author_name_email@));
        } else {
            assert(post[a] == pre[a]);
            assert(name_pinned(log, i, pre[a]));
            let k = choose|k: int|
                is_first_author(log, i, k, pre[a].git_id@) && pre[a].name@ == display_name(
                    #[trigger] log[k].author_name_email@,
                );
            assert(is_first_author(log, i + 1, k, post[a].git_id@) && post[a].name@
                == display_name(log[k].author_name_email@));
        }
    }
}

} // verus!
