//! A small token-to-name map kept in insertion order.
//!
//! Connection tokens are plain integers; names are UTF-8 byte strings.
//! The map is backed by a vector of pairs whose keys are pairwise
//! distinct, which keeps both membership and the broadcast order easy
//! to state.

use vstd::prelude::*;
use vstd::pervasive::VecAdditionalExecFns;
use crate::bytes::{bytes_eq, copy_bytes};

verus! {

/// A token-to-name map with pairwise distinct tokens.
#[derive(Debug)]
pub struct Roster {
    entries: Vec<(usize, Vec<u8>)>,
}

/// The token of the first entry carrying `name`, scanning front to back.
pub open spec fn first_with_name(s: Seq<(usize, Seq<u8>)>, name: Seq<u8>) -> Option<usize>
    decreases s.len(),
{
    if s.len() == 0 {
        None
    } else if s[0].1 == name {
        Some(s[0].0)
    } else {
        first_with_name(s.drop_first(), name)
    }
}

/// A token found by name is a member of the roster, under that name.
pub proof fn lemma_first_with_name_member(s: Seq<(usize, Seq<u8>)>, name: Seq<u8>)
    ensures
        first_with_name(s, name) matches Some(t) ==> exists|i: int|
            0 <= i < s.len() && (#[trigger] s[i]).0 == t && s[i].1 == name,
    decreases s.len(),
{
    if s.len() > 0 && s[0].1 != name {
        lemma_first_with_name_member(s.drop_first(), name);
        if first_with_name(s, name) is Some {
            let t = first_with_name(s, name)->Some_0;
            let d = s.drop_first();
            let i = choose|i: int| 0 <= i < d.len() && (#[trigger] d[i]).0 == t && d[i].1 == name;
            assert(s[i + 1] == d[i]);
        }
    }
}

impl View for Roster {
    type V = Seq<(usize, Seq<u8>)>;

    closed spec fn view(&self) -> Seq<(usize, Seq<u8>)> {
        self.entries@.map_values(|e: (usize, Vec<u8>)| (e.0, e.1@))
    }
}

impl Roster {
    /// Tokens are pairwise distinct.
    pub open spec fn wf(self) -> bool {
        forall|i: int, j: int|
            0 <= i < j < self@.len() ==> (#[trigger] self@[i]).0 != (#[trigger] self@[j]).0
    }

    pub open spec fn contains_token(self, t: usize) -> bool {
        exists|i: int| 0 <= i < self@.len() && (#[trigger] self@[i]).0 == t
    }

    /// The position of token `t`; meaningful only when `contains_token(t)`.
    pub open spec fn index_of(self, t: usize) -> int {
        choose|i: int| 0 <= i < self@.len() && (#[trigger] self@[i]).0 == t
    }

    pub open spec fn spec_get(self, t: usize) -> Option<Seq<u8>> {
        if self.contains_token(t) {
            Some(self@[self.index_of(t)].1)
        } else {
            None
        }
    }

    pub open spec fn spec_tokens(self) -> Seq<usize> {
        self@.map_values(|e: (usize, Seq<u8>)| e.0)
    }

    pub open spec fn spec_names(self) -> Seq<Seq<u8>> {
        self@.map_values(|e: (usize, Seq<u8>)| e.1)
    }

    /// An index that holds token `t` is the only one that does.
    proof fn lemma_index_unique(self, t: usize, i: int)
        requires
            self.wf(),
            0 <= i < self@.len(),
            self@[i].0 == t,
        ensures
            self.contains_token(t),
            self.index_of(t) == i,
    {
        assert(self.contains_token(t));
        let j = self.index_of(t);
        if i < j {
            assert(self@[i].0 != self@[j].0);
        } else if j < i {
            assert(self@[j].0 != self@[i].0);
        }
    }

    pub fn new() -> (r: Roster)
        ensures
            r@ =~= Seq::<(usize, Seq<u8>)>::empty(),
            r.wf(),
    {
        Roster { entries: Vec::new() }
    }

    pub fn len(&self) -> (r: usize)
        ensures
            r == self@.len(),
    {
        self.entries.len()
    }

    /// The position of token `t` in the backing vector, if present.
    fn position(&self, t: usize) -> (r: Option<usize>)
        requires
            self.wf(),
        ensures
            match r {
                Some(i) => self.contains_token(t) && self.index_of(t) == i && i < self@.len(),
                None => !self.contains_token(t),
            },
    {
        let n: usize = self.entries.len();
        let mut i: usize = 0;
        while i < n
            invariant
                self.wf(),
                n == self@.len(),
                i <= n,
                forall|k: int| 0 <= k < i ==> (#[trigger] self@[k]).0 != t,
            decreases n - i,
        {
            if self.entries[i].0 == t {
                proof {
                    self.lemma_index_unique(t, i as int);
                }
                return Some(i);
            }
            i += 1;
        }
        None
    }

    pub fn contains(&self, t: usize) -> (r: bool)
        requires
            self.wf(),
        ensures
            r == self.contains_token(t),
    {
        self.position(t).is_some()
    }

    /// The name stored under token `t`, if any.
    pub fn get(&self, t: usize) -> (r: Option<Vec<u8>>)
        requires
            self.wf(),
        ensures
            match r {
                Some(n) => self.spec_get(t) == Some(n@),
                None => self.spec_get(t) is None,
            },
    {
        match self.position(t) {
            Some(i) => Some(copy_bytes(self.entries[i].1.as_slice())),
            None => None,
        }
    }

    /// Adds `name` under token `t`, replacing any earlier entry for `t`.
    pub fn insert(&mut self, t: usize, name: Vec<u8>)
        requires
            old(self).wf(),
        ensures
            final(self).wf(),
            final(self)@ == (if old(self).contains_token(t) {
                old(self)@.update(old(self).index_of(t), (t, name@))
            } else {
                old(self)@.push((t, name@))
            }),
    {
        match self.position(t) {
            Some(i) => {
                self.entries.set(i, (t, name));
                assert(self@ =~= old(self)@.update(old(self).index_of(t), (t, name@)));
                assert forall|a: int, b: int|
                    0 <= a < b < self@.len() implies (#[trigger] self@[a]).0 != (
                #[trigger] self@[b]).0 by {
                    assert(old(self)@[a].0 != old(self)@[b].0);
                }
            },
            None => {
                self.entries.push((t, name));
                assert(self@ =~= old(self)@.push((t, name@)));
                assert forall|a: int, b: int|
                    0 <= a < b < self@.len() implies (#[trigger] self@[a]).0 != (
                #[trigger] self@[b]).0 by {
                    if b < old(self)@.len() {
                        assert(old(self)@[a].0 != old(self)@[b].0);
                    } else {
                        assert(self@[b].0 == t);
                        assert(old(self)@[a].0 != t);
                    }
                }
            },
        }
    }

    /// Removes token `t`, returning the name it carried.
    pub fn remove(&mut self, t: usize) -> (r: Option<Vec<u8>>)
        requires
            old(self).wf(),
        ensures
            final(self).wf(),
            match r {
                Some(n) => {
                    &&& old(self).spec_get(t) == Some(n@)
                    &&& final(self)@ == old(self)@.remove(old(self).index_of(t))
                },
                None => {
                    &&& !old(self).contains_token(t)
                    &&& *final(self) == *old(self)
                },
            },
    {
        match self.position(t) {
            Some(i) => {
                let (_, name) = self.entries.remove(i);
                assert(self@ =~= old(self)@.remove(i as int));
                proof {
                    let new = self@;
                    let oldv = old(self)@;
                    assert forall|a: int, b: int|
                        0 <= a < b < new.len() implies (#[trigger] new[a]).0 != (
                    #[trigger] new[b]).0 by {
                        let a0 = if a < i { a } else { a + 1 };
                        let b0 = if b < i { b } else { b + 1 };
                        assert(new[a] == oldv[a0]);
                        assert(new[b] == oldv[b0]);
                        assert(oldv[a0].0 != oldv[b0].0);
                    }
                }
                Some(name)
            },
            None => None,
        }
    }

    /// Every token in insertion order.
    pub fn tokens(&self) -> (r: Vec<usize>)
        ensures
            r@ == self.spec_tokens(),
    {
        let n: usize = self.entries.len();
        let mut r: Vec<usize> = Vec::new();
        let mut i: usize = 0;
        while i < n
            invariant
                n == self@.len(),
                i <= n,
                r@ =~= self@.subrange(0, i as int).map_values(|e: (usize, Seq<u8>)| e.0),
            decreases n - i,
        {
            r.push(self.entries[i].0);
            assert(r@ =~= self@.subrange(0, i + 1 as int).map_values(
                |e: (usize, Seq<u8>)| e.0));
            i += 1;
        }
        assert(self@.subrange(0, n as int) =~= self@);
        r
    }

    /// Every name in insertion order.
    pub fn names(&self) -> (r: Vec<Vec<u8>>)
        ensures
            r.deep_view() == self.spec_names(),
    {
        let n: usize = self.entries.len();
        let mut r: Vec<Vec<u8>> = Vec::new();
        let mut i: usize = 0;
        while i < n
            invariant
                n == self@.len(),
                i <= n,
                r@.len() == i,
                forall|k: int| 0 <= k < i ==> #[trigger] r.deep_view()[k] == self@[k].1,
            decreases n - i,
        {
            let name = copy_bytes(self.entries[i].1.as_slice());
            assert(name.deep_view() =~= self@[i as int].1);
            let ghost prev = r@;
            let ghost prevd = r.deep_view();
            r.push(name);
            proof {
                assert forall|k: int| 0 <= k < i + 1 implies #[trigger] r.deep_view()[k]
                    == self@[k].1 by {
                    assert(r.deep_view()[k] == r@[k].deep_view());
                    if k < i {
                        assert(r@[k] == prev[k]);
                        assert(prevd[k] == prev[k].deep_view());
                    } else {
                        assert(r@[k] == name);
                    }
                }
            }
            i += 1;
        }
        assert(r.deep_view() =~= self.spec_names());
        r
    }

    /// The token of the first entry named `name`, front to back.
    pub fn find_token_by_name(&self, name: &[u8]) -> (r: Option<usize>)
        ensures
            r == first_with_name(self@, name@),
    {
        let n: usize = self.entries.len();
        let mut i: usize = 0;
        assert(self@.subrange(0, n as int) =~= self@);
        while i < n
            invariant
                n == self@.len(),
                i <= n,
                first_with_name(self@, name@) == first_with_name(
                    self@.subrange(i as int, n as int),
                    name@,
                ),
            decreases n - i,
        {
            let ghost pre = self@.subrange(i as int, n as int);
            if bytes_eq(self.entries[i].1.as_slice(), name) {
                assert(pre[0].1 == name@);
                return Some(self.entries[i].0);
            }
            proof {
                assert(pre[0].1 != name@);
                assert(pre.drop_first() =~= self@.subrange(i + 1, n as int));
            }
            i += 1;
        }
        assert(self@.subrange(n as int, n as int).len() == 0);
        None
    }
}

} // verus!
