//! Keyword counters: multisets of counted tokens.
//!
//! A counter set holds at most one entry per token; incrementing an entry
//! whose token is already present adds the counts together, capped at the
//! machine limit. Merging two sets is repeated increment.

use vstd::prelude::*;

use crate::text::ident_parts;
use crate::text::split_ident_parts;

verus! {

/// One counted token. The `token` alone is the identity; `kind` is an
/// optional tag carried along with it.
pub struct KwcEntry {
    pub token: String,
    pub kind: Option<String>,
    pub count: usize,
}

/// The ghost image of one entry: its tag and its accumulated count.
pub struct KwcVal {
    pub kind: Option<Seq<char>>,
    pub count: nat,
}

/// Addition of counts, capped at the machine limit.
pub open spec fn sat_add(a: nat, b: nat) -> nat {
    if a + b > usize::MAX as nat {
        usize::MAX as nat
    } else {
        (a + b) as nat
    }
}

/// Capped addition on machine words.
pub fn sat_add_usize(a: usize, b: usize) -> (r: usize)
    ensures
        r as nat == sat_add(a as nat, b as nat),
{
    if a > usize::MAX - b {
        usize::MAX
    } else {
        a + b
    }
}

/// The view of an optional string.
pub open spec fn view_opt_str(o: Option<String>) -> Option<Seq<char>> {
    match o {
        Some(s) => Some(s@),
        None => None,
    }
}

/// The ghost value an entry stands for.
pub open spec fn entry_val(e: KwcEntry) -> KwcVal {
    KwcVal { kind: view_opt_str(e.kind), count: e.count as nat }
}

/// Incrementing a counter map by `c` under `token`: an existing entry keeps
/// its tag and gains `c`; a fresh token is inserted with the given tag.
pub open spec fn kwc_inc(
    m: Map<Seq<char>, KwcVal>,
    token: Seq<char>,
    kind: Option<Seq<char>>,
    c: nat,
) -> Map<Seq<char>, KwcVal> {
    if m.contains_key(token) {
        m.insert(token, KwcVal { kind: m[token].kind, count: sat_add(m[token].count, c) })
    } else {
        m.insert(token, KwcVal { kind, count: c })
    }
}

/// Pointwise merge of two counter maps: counts add (capped); on a token both
/// sides hold, the left side's tag survives.
pub open spec fn kwc_merge(
    m1: Map<Seq<char>, KwcVal>,
    m2: Map<Seq<char>, KwcVal>,
) -> Map<Seq<char>, KwcVal> {
    Map::new(
        |k: Seq<char>| m1.contains_key(k) || m2.contains_key(k),
        |k: Seq<char>|
            if m1.contains_key(k) && m2.contains_key(k) {
                KwcVal { kind: m1[k].kind, count: sat_add(m1[k].count, m2[k].count) }
            } else if m1.contains_key(k) {
                m1[k]
            } else {
                m2[k]
            },
    )
}

/// All tags in the map are absent, as everything the analysis pipeline
/// itself produces.
pub open spec fn kwc_kinds_none(m: Map<Seq<char>, KwcVal>) -> bool {
    forall|k: Seq<char>| #[trigger] m.contains_key(k) ==> m[k].kind is None
}

spec fn tokens_unique(s: Seq<KwcEntry>) -> bool {
    forall|i: int, j: int| 0 <= i < j < s.len() ==> s[i].token@ != s[j].token@
}

spec fn kwc_map(s: Seq<KwcEntry>) -> Map<Seq<char>, KwcVal>
    decreases s.len(),
{
    if s.len() == 0 {
        Map::empty()
    } else {
        kwc_map(s.drop_last()).insert(s.last().token@, entry_val(s.last()))
    }
}

proof fn lemma_kwc_map_contains(s: Seq<KwcEntry>, token: Seq<char>)
    ensures
        kwc_map(s).contains_key(token) <==> exists|i: int|
            0 <= i < s.len() && s[i].token@ == token,
    decreases s.len(),
{
    if s.len() > 0 {
        lemma_kwc_map_contains(s.drop_last(), token);
        if s.last().token@ == token {
            assert(s[s.len() - 1].token@ == token);
        } else if kwc_map(s).contains_key(token) {
            let i = choose|i: int| 0 <= i < s.drop_last().len() && s.drop_last()[i].token@ == token;
            assert(s[i].token@ == token);
        } else if exists|i: int| 0 <= i < s.len() && s[i].token@ == token {
            let i = choose|i: int| 0 <= i < s.len() && s[i].token@ == token;
            assert(i < s.len() - 1);
            assert(s.drop_last()[i].token@ == token);
        }
    }
}

proof fn lemma_kwc_map_index(s: Seq<KwcEntry>, i: int)
    requires
        tokens_unique(s),
        0 <= i < s.len(),
    ensures
        kwc_map(s).contains_key(s[i].token@),
        kwc_map(s)[s[i].token@] == entry_val(s[i]),
    decreases s.len(),
{
    lemma_kwc_map_contains(s, s[i].token@);
    if i < s.len() - 1 {
        assert(s.drop_last()[i] == s[i]);
        lemma_kwc_map_index(s.drop_last(), i);
        assert(s[i].token@ != s.last().token@);
    }
}

proof fn lemma_kwc_map_update(s: Seq<KwcEntry>, i: int, e: KwcEntry)
    requires
        tokens_unique(s),
        0 <= i < s.len(),
        s[i].token@ == e.token@,
    ensures
        kwc_map(s.update(i, e)) =~= kwc_map(s).insert(e.token@, entry_val(e)),
    decreases s.len(),
{
    let t = s.update(i, e);
    if i == s.len() - 1 {
        assert(t.drop_last() =~= s.drop_last());
        assert(t.last() == e);
    } else {
        assert(t.drop_last() =~= s.drop_last().update(i, e));
        assert(s.drop_last()[i] == s[i]);
        lemma_kwc_map_update(s.drop_last(), i, e);
        assert(t.last() == s.last());
        assert(s.last().token@ != e.token@);
    }
}

/// The set of counted tokens: a counter map in executable form, with at most
/// one entry per token.
pub struct KwcSet {
    entries: Vec<KwcEntry>,
}

impl View for KwcSet {
    type V = Map<Seq<char>, KwcVal>;

    closed spec fn view(&self) -> Map<Seq<char>, KwcVal> {
        kwc_map(self.entries@)
    }
}

/// Copy an optional string.
pub fn clone_opt_string(o: &Option<String>) -> (r: Option<String>)
    ensures
        r == *o,
{
    match o {
        Some(s) => Some(s.clone()),
        None => None,
    }
}

/// Copy one entry.
pub fn clone_entry(e: &KwcEntry) -> (r: KwcEntry)
    ensures
        r == *e,
{
    KwcEntry { token: e.token.clone(), kind: clone_opt_string(&e.kind), count: e.count }
}

impl KwcSet {
    /// No entry's token repeats.
    pub closed spec fn wf(&self) -> bool {
        tokens_unique(self.entries@)
    }

    /// The empty counter set.
    pub fn new() -> (r: KwcSet)
        ensures
            r.wf(),
            r@ == Map::<Seq<char>, KwcVal>::empty(),
    {
        KwcSet { entries: Vec::new() }
    }

    /// Copy the whole set.
    pub fn duplicate(&self) -> (r: KwcSet)
        ensures
            r.wf() == self.wf(),
            r@ == self@,
            r.entry_seq() == self.entry_seq(),
            r.summary() == self.summary(),
    {
        let mut entries: Vec<KwcEntry> = Vec::new();
        let n = self.entries.len();
        let mut i: usize = 0;
        while i < n
            invariant
                n == self.entries@.len(),
                i <= n,
                entries@.len() == i as int,
                forall|k: int| 0 <= k < i as int ==> #[trigger] entries@[k] == self.entries@[k],
            decreases n - i,
        {
            entries.push(clone_entry(&self.entries[i]));
            i += 1;
        }
        let r = KwcSet { entries };
        proof {
            assert(r.entries@ =~= self.entries@);
        }
        r
    }

    /// Add one entry: an existing token gains the count, a fresh token is
    /// inserted as given.
    pub fn increment(&mut self, entry: KwcEntry)
        requires
            old(self).wf(),
        ensures
            final(self).wf(),
            final(self)@ == kwc_inc(
                old(self)@,
                entry.token@,
                view_opt_str(entry.kind),
                entry.count as nat,
            ),
            final(self).summary() == inc_parts(
                old(self).summary(),
                ident_parts(entry.token@),
                entry.count as nat,
            ),
    {
        let n = self.entries.len();
        let mut i: usize = 0;
        while i < n
            invariant
                old(self).wf(),
                *self == *old(self),
                n == self.entries@.len(),
                i <= n,
                forall|k: int| 0 <= k < i as int ==> self.entries@[k].token@ != entry.token@,
            decreases n - i,
        {
            if self.entries[i].token == entry.token {
                let newc = sat_add_usize(self.entries[i].count, entry.count);
                let token = self.entries[i].token.clone();
                let kind = clone_opt_string(&self.entries[i].kind);
                let updated = KwcEntry { token, kind, count: newc };
                proof {
                    lemma_kwc_map_index(self.entries@, i as int);
                    lemma_kwc_map_update(self.entries@, i as int, updated);
                    lemma_summary_bump(self.entries@, i as int, updated, entry.count as nat);
                }
                self.entries.set(i, updated);
                return ;
            }
            i += 1;
        }
        proof {
            lemma_kwc_map_contains(self.entries@, entry.token@);
            assert(self.entries@.push(entry).drop_last() =~= self.entries@);
        }
        self.entries.push(entry);
    }

    /// Fold the other set in, entry by entry.
    pub fn merge(&mut self, other: &KwcSet)
        requires
            old(self).wf(),
            other.wf(),
        ensures
            final(self).wf(),
            final(self)@ == kwc_merge(old(self)@, other@),
            final(self).summary() == kwc_merge(old(self).summary(), other.summary()),
    {
        let ghost m0 = self@;
        let ghost s0 = self.summary();
        let n = other.entries.len();
        let mut j: usize = 0;
        proof {
            lemma_kwc_merge_empty_right(m0);
            lemma_kwc_merge_empty_right(s0);
            assert(other.entries@.take(0) =~= Seq::<KwcEntry>::empty());
        }
        while j < n
            invariant
                other.wf(),
                n == other.entries@.len(),
                j <= n,
                self.wf(),
                self@ == kwc_merge(m0, kwc_map(other.entries@.take(j as int))),
                self.summary() == kwc_merge(s0, summary_fold(other.entries@.take(j as int))),
            decreases n - j,
        {
            let e = clone_entry(&other.entries[j]);
            proof {
                let prefix = other.entries@.take(j as int);
                lemma_kwc_map_contains(prefix, e.token@);
                assert(forall|i: int| 0 <= i < prefix.len() ==> prefix[i] == other.entries@[i]);
                lemma_inc_merge_commute(
                    m0,
                    prefix,
                    e.token@,
                    view_opt_str(e.kind),
                    e.count as nat,
                );
                lemma_inc_parts_under_merge(
                    s0,
                    summary_fold(prefix),
                    ident_parts(e.token@),
                    e.count as nat,
                );
                assert(other.entries@.take(j + 1).drop_last() =~= prefix);
                assert(other.entries@.take(j + 1).last() == other.entries@[j as int]);
                assert(entry_val(other.entries@[j as int]) == entry_val(e));
            }
            self.increment(e);
            j += 1;
        }
        proof {
            assert(other.entries@.take(n as int) =~= other.entries@);
        }
    }

    /// Look a token up; the accumulated count when it is present.
    pub fn lookup(&self, token: &String) -> (r: Option<usize>)
        requires
            self.wf(),
        ensures
            match r {
                Some(c) => self@.contains_key(token@) && self@[token@].count == c as nat,
                None => !self@.contains_key(token@),
            },
    {
        let n = self.entries.len();
        let mut i: usize = 0;
        while i < n
            invariant
                self.wf(),
                n == self.entries@.len(),
                i <= n,
                forall|k: int| 0 <= k < i as int ==> self.entries@[k].token@ != token@,
            decreases n - i,
        {
            if self.entries[i].token == *token {
                proof {
                    lemma_kwc_map_index(self.entries@, i as int);
                }
                return Some(self.entries[i].count);
            }
            i += 1;
        }
        proof {
            lemma_kwc_map_contains(self.entries@, token@);
        }
        None
    }

    /// Whether nothing has been counted.
    pub fn is_empty(&self) -> (r: bool)
        ensures
            r <==> self@ == Map::<Seq<char>, KwcVal>::empty(),
    {
        proof {
            if self.entries@.len() > 0 {
                lemma_kwc_map_contains(self.entries@, self.entries@[0].token@);
                assert(self@.contains_key(self.entries@[0].token@));
            } else {
                assert(self@ =~= Map::<Seq<char>, KwcVal>::empty());
            }
        }
        self.entries.len() == 0
    }

    /// Drop every entry.
    pub fn clear(&mut self)
        ensures
            final(self).wf(),
            final(self)@ == Map::<Seq<char>, KwcVal>::empty(),
    {
        self.entries = Vec::new();
    }
}

/// One increment per part, each with the same count and no tag.
pub open spec fn inc_parts(
    m: Map<Seq<char>, KwcVal>,
    parts: Seq<Seq<char>>,
    c: nat,
) -> Map<Seq<char>, KwcVal>
    decreases parts.len(),
{
    if parts.len() == 0 {
        m
    } else {
        kwc_inc(inc_parts(m, parts.drop_last(), c), parts.last(), None, c)
    }
}

spec fn summary_fold(s: Seq<KwcEntry>) -> Map<Seq<char>, KwcVal>
    decreases s.len(),
{
    if s.len() == 0 {
        Map::empty()
    } else {
        inc_parts(summary_fold(s.drop_last()), ident_parts(s.last().token@), s.last().count as nat)
    }
}

impl KwcSet {
    /// The entries in insertion order.
    pub closed spec fn entry_seq(&self) -> Seq<KwcEntry> {
        self.entries@
    }

    /// The counter set that counts, for every entry, each maximal
    /// identifier run of its token, weighted by the entry's count.
    pub closed spec fn summary(&self) -> Map<Seq<char>, KwcVal> {
        summary_fold(self.entries@)
    }

    /// Each entry's token is a key of the view, with the entry's value.
    pub proof fn lemma_entry_tokens(&self)
        requires
            self.wf(),
        ensures
            forall|i: int| 0 <= i < self.entry_seq().len() ==> self@.contains_key(
                #[trigger] self.entry_seq()[i].token@,
            ) && self@[self.entry_seq()[i].token@] == entry_val(self.entry_seq()[i]),
            forall|t: Seq<char>| #[trigger] self@.contains_key(t) ==> exists|i: int|
                0 <= i < self.entry_seq().len() && self.entry_seq()[i].token@ == t,
    {
        assert forall|i: int| 0 <= i < self.entry_seq().len() implies self@.contains_key(
            #[trigger] self.entry_seq()[i].token@,
        ) && self@[self.entry_seq()[i].token@] == entry_val(self.entry_seq()[i]) by {
            lemma_kwc_map_index(self.entries@, i);
        }
        assert forall|t: Seq<char>| #[trigger] self@.contains_key(t) implies exists|i: int|
            0 <= i < self.entry_seq().len() && self.entry_seq()[i].token@ == t by {
            lemma_kwc_map_contains(self.entries@, t);
        }
    }

    /// How many entries the set holds.
    pub fn entry_count(&self) -> (r: usize)
        ensures
            r as nat == self.entry_seq().len(),
    {
        self.entries.len()
    }

    /// The entry at one position.
    pub fn entry_at(&self, i: usize) -> (r: &KwcEntry)
        requires
            i < self.entry_seq().len(),
        ensures
            *r == self.entry_seq()[i as int],
    {
        &self.entries[i]
    }

    /// Count, for every entry, each maximal identifier run of its token.
    pub fn summarize(&self) -> (r: KwcSet)
        ensures
            r.wf(),
            r@ == self.summary(),
    {
        let mut r = KwcSet::new();
        let n = self.entries.len();
        let mut i: usize = 0;
        proof {
            assert(self.entries@.take(0) =~= Seq::<KwcEntry>::empty());
        }
        while i < n
            invariant
                n == self.entries@.len(),
                i <= n,
                r.wf(),
                r@ == summary_fold(self.entries@.take(i as int)),
            decreases n - i,
        {
            let parts = split_ident_parts(&self.entries[i].token);
            let c = self.entries[i].count;
            let ghost pseq = ident_parts(self.entries@[i as int].token@);
            let m = parts.len();
            let mut j: usize = 0;
            proof {
                assert(pseq.take(0) =~= Seq::<Seq<char>>::empty());
            }
            while j < m
                invariant
                    m == parts@.len(),
                    j <= m,
                    parts@.map_values(|p: String| p@) == pseq,
                    c == self.entries@[i as int].count,
                    i < n == self.entries@.len(),
                    r.wf(),
                    r@ == inc_parts(
                        summary_fold(self.entries@.take(i as int)),
                        pseq.take(j as int),
                        c as nat,
                    ),
                decreases m - j,
            {
                proof {
                    assert(pseq.take(j + 1).drop_last() =~= pseq.take(j as int));
                    assert(pseq.take(j + 1).last() == pseq[j as int]);
                    assert(parts@.map_values(|p: String| p@)[j as int] == parts@[j as int]@);
                }
                r.increment(KwcEntry { token: parts[j].clone(), kind: None, count: c });
                j += 1;
            }
            proof {
                assert(pseq.take(m as int) =~= pseq);
                assert(self.entries@.take(i + 1).drop_last() =~= self.entries@.take(i as int));
                assert(self.entries@.take(i + 1).last() == self.entries@[i as int]);
            }
            i += 1;
        }
        proof {
            assert(self.entries@.take(n as int) =~= self.entries@);
        }
        r
    }

    /// Keep the entries the flags mark, drop the rest.
    pub fn remove_flagged(&mut self, keep: &Vec<bool>)
        requires
            old(self).wf(),
            keep@.len() == old(self).entry_seq().len(),
        ensures
            final(self).wf(),
            forall|t: Seq<char>| final(self)@.contains_key(t) <==> (exists|i: int|
                0 <= i < keep@.len() && keep@[i] && old(self).entry_seq()[i].token@ == t),
            forall|t: Seq<char>| #[trigger] final(self)@.contains_key(t) ==> final(self)@[t]
                == old(self)@[t],
    {
        let mut kept: Vec<KwcEntry> = Vec::new();
        let n = self.entries.len();
        let mut i: usize = 0;
        while i < n
            invariant
                old(self).wf(),
                *self == *old(self),
                n == self.entries@.len(),
                keep@.len() == n,
                i <= n,
                tokens_unique(kept@),
                forall|t: Seq<char>| kwc_map(kept@).contains_key(t) <==> (exists|k: int|
                    0 <= k < i as int && keep@[k] && self.entries@[k].token@ == t),
                forall|t: Seq<char>| #[trigger] kwc_map(kept@).contains_key(t) ==> kwc_map(
                    kept@,
                )[t] == kwc_map(self.entries@)[t],
            decreases n - i,
        {
            if keep[i] {
                let e = clone_entry(&self.entries[i]);
                proof {
                    let ghost t0 = self.entries@[i as int].token@;
                    if kwc_map(kept@).contains_key(t0) {
                        let k = choose|k: int|
                            0 <= k < i as int && keep@[k] && self.entries@[k].token@ == t0;
                        assert(false);
                    }
                    lemma_kwc_map_contains(kept@, t0);
                    assert(kept@.push(e).drop_last() =~= kept@);
                    lemma_kwc_map_index(self.entries@, i as int);
                }
                kept.push(e);
            }
            i += 1;
        }
        self.entries = kept;
    }
}

/// Untagged increments of the same token fuse: adding `x` and then `c`
/// is adding their capped sum.
proof fn lemma_kwc_inc_fuse(m: Map<Seq<char>, KwcVal>, t: Seq<char>, x: nat, c: nat)
    ensures
        kwc_inc(kwc_inc(m, t, None, x), t, None, c) =~= kwc_inc(m, t, None, sat_add(x, c)),
{
}

/// Untagged increments commute, whatever their tokens.
proof fn lemma_kwc_inc_commute(
    m: Map<Seq<char>, KwcVal>,
    t1: Seq<char>,
    c1: nat,
    t2: Seq<char>,
    c2: nat,
)
    ensures
        kwc_inc(kwc_inc(m, t1, None, c1), t2, None, c2) =~= kwc_inc(
            kwc_inc(m, t2, None, c2),
            t1,
            None,
            c1,
        ),
{
}

/// One untagged increment commutes past a whole chain of them.
proof fn lemma_inc_parts_commute_single(
    m: Map<Seq<char>, KwcVal>,
    t: Seq<char>,
    x: nat,
    parts: Seq<Seq<char>>,
    c: nat,
)
    ensures
        inc_parts(kwc_inc(m, t, None, x), parts, c) =~= kwc_inc(
            inc_parts(m, parts, c),
            t,
            None,
            x,
        ),
    decreases parts.len(),
{
    if parts.len() > 0 {
        lemma_inc_parts_commute_single(m, t, x, parts.drop_last(), c);
        lemma_kwc_inc_commute(inc_parts(m, parts.drop_last(), c), t, x, parts.last(), c);
    }
}

/// Two chains of untagged increments commute.
proof fn lemma_inc_parts_commute(
    m: Map<Seq<char>, KwcVal>,
    p: Seq<Seq<char>>,
    x: nat,
    q: Seq<Seq<char>>,
    c: nat,
)
    ensures
        inc_parts(inc_parts(m, p, x), q, c) =~= inc_parts(inc_parts(m, q, c), p, x),
    decreases p.len(),
{
    if p.len() > 0 {
        lemma_inc_parts_commute(m, p.drop_last(), x, q, c);
        lemma_inc_parts_commute_single(inc_parts(m, p.drop_last(), x), p.last(), x, q, c);
        assert(inc_parts(inc_parts(m, p, x), q, c) =~= kwc_inc(
            inc_parts(inc_parts(m, p.drop_last(), x), q, c),
            p.last(),
            None,
            x,
        ));
    }
}

/// Running the same chain with `x` and then with `c` is running it once
/// with their capped sum.
proof fn lemma_inc_parts_fuse(m: Map<Seq<char>, KwcVal>, parts: Seq<Seq<char>>, x: nat, c: nat)
    ensures
        inc_parts(inc_parts(m, parts, x), parts, c) =~= inc_parts(m, parts, sat_add(x, c)),
    decreases parts.len(),
{
    if parts.len() > 0 {
        let p = parts.drop_last();
        let t = parts.last();
        lemma_inc_parts_commute_single(inc_parts(m, p, x), t, x, p, c);
        lemma_inc_parts_fuse(m, p, x, c);
        lemma_kwc_inc_fuse(inc_parts(m, p, sat_add(x, c)), t, x, c);
        assert(inc_parts(inc_parts(m, parts, x), parts, c) =~= kwc_inc(
            inc_parts(inc_parts(m, parts, x), p, c),
            t,
            None,
            c,
        ));
    }
}

/// An untagged increment moves inside a pointwise merge's right side.
proof fn lemma_kwc_inc_under_merge(
    m: Map<Seq<char>, KwcVal>,
    p: Map<Seq<char>, KwcVal>,
    t: Seq<char>,
    c: nat,
)
    ensures
        kwc_inc(kwc_merge(m, p), t, None, c) =~= kwc_merge(m, kwc_inc(p, t, None, c)),
{
}

/// A chain of untagged increments moves inside a pointwise merge's right
/// side.
proof fn lemma_inc_parts_under_merge(
    m: Map<Seq<char>, KwcVal>,
    p: Map<Seq<char>, KwcVal>,
    parts: Seq<Seq<char>>,
    c: nat,
)
    ensures
        inc_parts(kwc_merge(m, p), parts, c) =~= kwc_merge(m, inc_parts(p, parts, c)),
    decreases parts.len(),
{
    if parts.len() > 0 {
        lemma_inc_parts_under_merge(m, p, parts.drop_last(), c);
        lemma_kwc_inc_under_merge(m, inc_parts(p, parts.drop_last(), c), parts.last(), c);
    }
}

/// Bumping one entry's count adds that entry's run chain at the end of
/// the summary.
proof fn lemma_summary_bump(s: Seq<KwcEntry>, i: int, e: KwcEntry, c: nat)
    requires
        0 <= i < s.len(),
        e.token@ == s[i].token@,
        e.count as nat == sat_add(s[i].count as nat, c),
    ensures
        summary_fold(s.update(i, e)) =~= inc_parts(
            summary_fold(s),
            ident_parts(s[i].token@),
            c,
        ),
    decreases s.len(),
{
    let t = s.update(i, e);
    if i == s.len() - 1 {
        assert(t.drop_last() =~= s.drop_last());
        assert(t.last() == e);
        lemma_inc_parts_fuse(
            summary_fold(s.drop_last()),
            ident_parts(s[i].token@),
            s[i].count as nat,
            c,
        );
    } else {
        assert(t.drop_last() =~= s.drop_last().update(i, e));
        assert(t.last() == s.last());
        assert(s.drop_last()[i] == s[i]);
        lemma_summary_bump(s.drop_last(), i, e, c);
        lemma_inc_parts_commute(
            summary_fold(s.drop_last()),
            ident_parts(s[i].token@),
            c,
            ident_parts(s.last().token@),
            s.last().count as nat,
        );
    }
}

proof fn lemma_inc_parts_kinds_none(m: Map<Seq<char>, KwcVal>, parts: Seq<Seq<char>>, c: nat)
    requires
        kwc_kinds_none(m),
    ensures
        kwc_kinds_none(inc_parts(m, parts, c)),
    decreases parts.len(),
{
    if parts.len() > 0 {
        lemma_inc_parts_kinds_none(m, parts.drop_last(), c);
    }
}

/// A summary carries no tags: every part is counted untagged.
pub proof fn lemma_summary_kinds_none(k: KwcSet)
    ensures
        kwc_kinds_none(k.summary()),
{
    lemma_summary_fold_kinds_none(k.entry_seq());
}

proof fn lemma_summary_fold_kinds_none(s: Seq<KwcEntry>)
    ensures
        kwc_kinds_none(summary_fold(s)),
    decreases s.len(),
{
    if s.len() > 0 {
        lemma_summary_fold_kinds_none(s.drop_last());
        lemma_inc_parts_kinds_none(
            summary_fold(s.drop_last()),
            ident_parts(s.last().token@),
            s.last().count as nat,
        );
    }
}

proof fn lemma_kwc_map_congruence(s1: Seq<KwcEntry>, s2: Seq<KwcEntry>)
    requires
        s1.len() == s2.len(),
        forall|k: int| 0 <= k < s1.len() ==> s1[k].token@ == s2[k].token@ && entry_val(
            #[trigger] s1[k],
        ) == entry_val(s2[k]),
    ensures
        kwc_map(s1) == kwc_map(s2),
        tokens_unique(s1) == tokens_unique(s2),
    decreases s1.len(),
{
    if s1.len() > 0 {
        assert(forall|k: int| 0 <= k < s1.len() - 1 ==> s1.drop_last()[k] == s1[k]);
        assert(forall|k: int| 0 <= k < s2.len() - 1 ==> s2.drop_last()[k] == s2[k]);
        lemma_kwc_map_congruence(s1.drop_last(), s2.drop_last());
        assert(s1[s1.len() - 1] == s1.last());
        assert(s2[s2.len() - 1] == s2.last());
    }
    if tokens_unique(s1) != tokens_unique(s2) {
        if tokens_unique(s1) {
            let (i, j) = choose|i: int, j: int|
                0 <= i < j < s2.len() && s2[i].token@ == s2[j].token@;
            assert(s1[i].token@ != s1[j].token@);
        } else {
            let (i, j) = choose|i: int, j: int|
                0 <= i < j < s1.len() && s1[i].token@ == s1[j].token@;
            assert(s2[i].token@ != s2[j].token@);
        }
    }
}

proof fn lemma_kwc_merge_empty_right(m: Map<Seq<char>, KwcVal>)
    ensures
        kwc_merge(m, Map::empty()) =~= m,
{
}

proof fn lemma_inc_merge_commute(
    m1: Map<Seq<char>, KwcVal>,
    prefix: Seq<KwcEntry>,
    token: Seq<char>,
    kind: Option<Seq<char>>,
    c: nat,
)
    requires
        !kwc_map(prefix).contains_key(token),
    ensures
        kwc_inc(kwc_merge(m1, kwc_map(prefix)), token, kind, c) =~= kwc_merge(
            m1,
            kwc_inc(kwc_map(prefix), token, kind, c),
        ),
{
}

/// Merging the empty map on the left changes nothing.
pub proof fn lemma_kwc_merge_empty_left(m: Map<Seq<char>, KwcVal>)
    ensures
        kwc_merge(Map::empty(), m) =~= m,
{
}

/// Merging counter maps is commutative wherever the two sides agree on the
/// tags of their common tokens, as they do throughout the pipeline, where no
/// entry carries a tag.
pub proof fn lemma_kwc_merge_commutative(m1: Map<Seq<char>, KwcVal>, m2: Map<Seq<char>, KwcVal>)
    requires
        forall|k: Seq<char>| #[trigger] m1.contains_key(k) && m2.contains_key(k)
            ==> m1[k].kind == m2[k].kind,
    ensures
        kwc_merge(m1, m2) =~= kwc_merge(m2, m1),
{
}

/// Merging counter maps is associative.
pub proof fn lemma_kwc_merge_associative(
    m1: Map<Seq<char>, KwcVal>,
    m2: Map<Seq<char>, KwcVal>,
    m3: Map<Seq<char>, KwcVal>,
)
    ensures
        kwc_merge(kwc_merge(m1, m2), m3) =~= kwc_merge(m1, kwc_merge(m2, m3)),
{
}

/// Merging maps without tags yields a map without tags.
pub proof fn lemma_kwc_merge_kinds_none(m1: Map<Seq<char>, KwcVal>, m2: Map<Seq<char>, KwcVal>)
    requires
        kwc_kinds_none(m1),
        kwc_kinds_none(m2),
    ensures
        kwc_kinds_none(kwc_merge(m1, m2)),
{
}

} // verus!
