//! Sets of strings in executable form: a vector that holds each string once.

use vstd::prelude::*;
use vstd::seq_lib::lemma_seq_contains_after_push;

verus! {

/// A set of strings; no member repeats.
pub struct StrSet {
    items: Vec<String>,
}

impl View for StrSet {
    type V = Set<Seq<char>>;

    closed spec fn view(&self) -> Set<Seq<char>> {
        self.elems().to_set()
    }
}

impl StrSet {
    /// The members in insertion order.
    pub closed spec fn elems(&self) -> Seq<Seq<char>> {
        self.items@.map_values(|s: String| s@)
    }

    /// No member repeats.
    pub closed spec fn wf(&self) -> bool {
        self.elems().no_duplicates()
    }

    /// A member stands in the set exactly when some position holds it.
    pub proof fn lemma_elems(&self)
        ensures
            forall|x: Seq<char>| self@.contains(x) <==> exists|i: int|
                0 <= i < self.elems().len() && self.elems()[i] == x,
    {
    }

    /// The empty set.
    pub fn new() -> (r: StrSet)
        ensures
            r.wf(),
            r@ == Set::<Seq<char>>::empty(),
            r.elems() == Seq::<Seq<char>>::empty(),
    {
        let r = StrSet { items: Vec::new() };
        proof {
            assert(r.elems() =~= Seq::<Seq<char>>::empty());
            assert(r@ =~= Set::<Seq<char>>::empty());
        }
        r
    }

    /// How many distinct members the set holds.
    pub fn len(&self) -> (r: usize)
        requires
            self.wf(),
        ensures
            r as nat == self@.len(),
            r as nat == self.elems().len(),
    {
        proof {
            self.elems().unique_seq_to_set();
        }
        self.items.len()
    }

    /// How many positions the backing vector holds.
    pub fn seq_len(&self) -> (r: usize)
        ensures
            r as nat == self.elems().len(),
    {
        self.items.len()
    }

    /// The member at one position.
    pub fn get(&self, i: usize) -> (r: &String)
        requires
            i < self.elems().len(),
        ensures
            r@ == self.elems()[i as int],
            self@.contains(r@),
    {
        proof {
            assert(self.elems().contains(self.elems()[i as int]));
        }
        &self.items[i]
    }

    /// Whether the string is a member.
    pub fn contains(&self, s: &String) -> (r: bool)
        ensures
            r == self@.contains(s@),
    {
        let n = self.items.len();
        let mut i: usize = 0;
        while i < n
            invariant
                n == self.items@.len(),
                i <= n,
                forall|k: int| 0 <= k < i as int ==> self.elems()[k] != s@,
            decreases n - i,
        {
            if self.items[i] == *s {
                assert(self.elems()[i as int] == s@);
                return true;
            }
            i += 1;
        }
        proof {
            self.lemma_elems();
        }
        false
    }

    /// Put a string in; a member already present stays single.
    pub fn insert(&mut self, s: String)
        requires
            old(self).wf(),
        ensures
            final(self).wf(),
            final(self)@ == old(self)@.insert(s@),
            final(self).elems() == if old(self)@.contains(s@) {
                old(self).elems()
            } else {
                old(self).elems().push(s@)
            },
    {
        if !self.contains(&s) {
            let ghost before = self.elems();
            self.items.push(s);
            proof {
                assert(self.elems() =~= before.push(s@));
                assert forall|x: Seq<char>| self.elems().contains(x) <==> before.contains(x) || x
                    == s@ by {
                    lemma_seq_contains_after_push(before, s@, x);
                }
                assert(self@ =~= old(self)@.insert(s@));
            }
        } else {
            proof {
                assert(self@ =~= old(self)@.insert(s@));
            }
        }
    }

    /// Put every member of the other set in.
    pub fn insert_all(&mut self, other: &StrSet)
        requires
            old(self).wf(),
        ensures
            final(self).wf(),
            final(self)@ == old(self)@.union(other@),
    {
        let ghost s0 = self@;
        let n = other.items.len();
        let mut j: usize = 0;
        while j < n
            invariant
                n == other.elems().len(),
                j <= n,
                self.wf(),
                self@ == s0.union(other.elems().take(j as int).to_set()),
            decreases n - j,
        {
            proof {
                assert(other.elems().take(j + 1).drop_last() =~= other.elems().take(j as int));
                assert(other.elems().take(j + 1).last() == other.elems()[j as int]);
                lemma_take_push_to_set(other.elems(), j as int);
            }
            self.insert(other.items[j].clone());
            proof {
                assert(self@ =~= s0.union(other.elems().take(j + 1).to_set()));
            }
            j += 1;
        }
        proof {
            assert(other.elems().take(n as int) =~= other.elems());
        }
    }

    /// Whether the set is empty.
    pub fn is_empty(&self) -> (r: bool)
        ensures
            r <==> self@ == Set::<Seq<char>>::empty(),
    {
        proof {
            if self.elems().len() > 0 {
                assert(self.elems().contains(self.elems()[0]));
                assert(self@.contains(self.elems()[0]));
            } else {
                assert(self.elems() =~= Seq::<Seq<char>>::empty());
                assert(self@ =~= Set::<Seq<char>>::empty());
            }
        }
        self.items.len() == 0
    }

    /// Drop every member.
    pub fn clear(&mut self)
        ensures
            final(self).wf(),
            final(self)@ == Set::<Seq<char>>::empty(),
    {
        self.items = Vec::new();
        proof {
            assert(self.elems() =~= Seq::<Seq<char>>::empty());
            assert(self@ =~= Set::<Seq<char>>::empty());
        }
    }

    /// Copy the whole set.
    pub fn duplicate(&self) -> (r: StrSet)
        ensures
            r.wf() == self.wf(),
            r@ == self@,
            r.elems() == self.elems(),
    {
        let mut items: Vec<String> = Vec::new();
        let n = self.items.len();
        let mut i: usize = 0;
        while i < n
            invariant
                n == self.items@.len(),
                i <= n,
                items@.len() == i as int,
                forall|k: int| 0 <= k < i as int ==> #[trigger] items@[k] == self.items@[k],
            decreases n - i,
        {
            items.push(self.items[i].clone());
            i += 1;
        }
        let r = StrSet { items };
        proof {
            assert(r.elems() =~= self.elems());
        }
        r
    }

    /// Gather the members from a vector; a string that repeats is kept once,
    /// and distinct members keep their order.
    pub fn from_vec(v: &Vec<String>) -> (r: StrSet)
        ensures
            r.wf(),
            r@ == v@.map_values(|s: String| s@).to_set(),
            v@.map_values(|s: String| s@).no_duplicates() ==> r.elems() == v@.map_values(
                |s: String| s@,
            ),
    {
        let mut r = StrSet::new();
        let n = v.len();
        let mut i: usize = 0;
        proof {
            assert(v@.map_values(|s: String| s@).take(0) =~= Seq::<Seq<char>>::empty());
        }
        while i < n
            invariant
                n == v@.len(),
                i <= n,
                r.wf(),
                r@ == v@.map_values(|s: String| s@).take(i as int).to_set(),
                v@.map_values(|s: String| s@).no_duplicates() ==> r.elems() == v@.map_values(
                    |s: String| s@,
                ).take(i as int),
            decreases n - i,
        {
            proof {
                let views = v@.map_values(|s: String| s@);
                lemma_take_push_to_set(views, i as int);
                if views.no_duplicates() {
                    assert(!r@.contains(views[i as int])) by {
                        if views.take(i as int).to_set().contains(views[i as int]) {
                            let w = choose|w: int|
                                0 <= w < i as int && #[trigger] views.take(i as int)[w]
                                    == views[i as int];
                            assert(views[w] == views[i as int]);
                            assert(false);
                        }
                    }
                    assert(views.take(i + 1) =~= views.take(i as int).push(views[i as int]));
                }
            }
            r.insert(v[i].clone());
            i += 1;
        }
        proof {
            assert(v@.map_values(|s: String| s@).take(n as int) =~= v@.map_values(
                |s: String| s@,
            ));
        }
        r
    }
}

proof fn lemma_take_push_to_set(s: Seq<Seq<char>>, j: int)
    requires
        0 <= j < s.len(),
    ensures
        s.take(j + 1).to_set() =~= s.take(j).to_set().insert(s[j]),
{
    assert(s.take(j + 1) =~= s.take(j).push(s[j]));
    assert forall|x: Seq<char>|
        s.take(j + 1).to_set().contains(x) <==> s.take(j).to_set().insert(s[j]).contains(x) by {
        lemma_seq_contains_after_push(s.take(j), s[j], x);
        assert(s.take(j + 1).contains(x) <==> s.take(j).contains(x) || x == s[j]);
    }
}

} // verus!
