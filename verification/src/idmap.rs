//! A small map from identifiers to values.

use vstd::prelude::*;

use crate::text::{same_text, texts};

verus! {

/// A map from identifiers to values. Each identifier has one entry.
pub struct IdMap<V> {
    entries: Vec<(String, V)>,
}

/// The map that a list of entries stands for.
pub open spec fn entries_map<V>(s: Seq<(String, V)>) -> Map<Seq<char>, V>
    decreases s.len(),
{
    if s.len() == 0 {
        Map::empty()
    } else {
        entries_map(s.drop_last()).insert(s.last().0@, s.last().1)
    }
}

/// Whether no identifier has two entries.
pub open spec fn one_each<V>(s: Seq<(String, V)>) -> bool {
    forall|i: int, j: int|
        0 <= i < j < s.len() ==> (#[trigger] s[i]).0@ != (#[trigger] s[j]).0@
}

proof fn lemma_entries<V>(s: Seq<(String, V)>)
    requires
        one_each(s),
    ensures
        forall|k: Seq<char>|
            #[trigger] entries_map(s).dom().contains(k) <==> exists|i: int|
                0 <= i < s.len() && (#[trigger] s[i]).0@ == k,
        forall|i: int| 0 <= i < s.len() ==> entries_map(s)[(#[trigger] s[i]).0@] == s[i].1,
    decreases s.len(),
{
    if s.len() > 0 {
        let rest = s.drop_last();
        assert(one_each(rest)) by {
            assert forall|i: int, j: int| 0 <= i < j < rest.len() implies (#[trigger] rest[i]).0@
                != (#[trigger] rest[j]).0@ by {
                assert(s[i].0@ != s[j].0@);
            }
        }
        lemma_entries(rest);
        let last = s.len() - 1;
        assert forall|k: Seq<char>| #[trigger] entries_map(s).dom().contains(k) <==> exists|i: int|
            0 <= i < s.len() && (#[trigger] s[i]).0@ == k by {
            if entries_map(s).dom().contains(k) {
                if k == s.last().0@ {
                    assert(s[last].0@ == k);
                } else {
                    assert(entries_map(rest).dom().contains(k));
                    let i = choose|i: int| 0 <= i < rest.len() && (#[trigger] rest[i]).0@ == k;
                    assert(s[i].0@ == k);
                }
            }
            if exists|i: int| 0 <= i < s.len() && (#[trigger] s[i]).0@ == k {
                let i = choose|i: int| 0 <= i < s.len() && (#[trigger] s[i]).0@ == k;
                if i < last {
                    assert(rest[i].0@ == k);
                    assert(entries_map(rest).dom().contains(k));
                }
            }
        }
        assert forall|i: int| 0 <= i < s.len() implies entries_map(s)[(#[trigger] s[i]).0@]
            == s[i].1 by {
            if i < last {
                assert(rest[i].0@ == s[i].0@);
                assert(s[i].0@ != s[last].0@);
            }
        }
    }
}

impl<V> View for IdMap<V> {
    type V = Map<Seq<char>, V>;

    closed spec fn view(&self) -> Map<Seq<char>, V> {
        entries_map(self.entries@)
    }
}

impl<V: Copy> IdMap<V> {
    /// Whether each identifier has one entry.
    pub closed spec fn wf(self) -> bool {
        one_each(self.entries@)
    }

    /// A map without entries.
    pub fn new() -> (r: Self)
        ensures
            r.wf(),
            r@ == Map::<Seq<char>, V>::empty(),
    {
        IdMap { entries: Vec::new() }
    }

    /// The position of an identifier's entry, or the number of entries.
    fn position(&self, id: &str) -> (r: usize)
        requires
            self.wf(),
        ensures
            r <= self.entries@.len(),
            r < self.entries@.len() ==> {
                &&& self.entries@[r as int].0@ == id@
                &&& self@.dom().contains(id@)
                &&& self@[id@] == self.entries@[r as int].1
            },
            r == self.entries@.len() ==> !self@.dom().contains(id@) && forall|i: int|
                0 <= i < self.entries@.len() ==> (#[trigger] self.entries@[i]).0@ != id@,
    {
        proof {
            lemma_entries(self.entries@);
        }
        let n: usize = self.entries.len();
        for i in 0..n
            invariant
                n == self.entries@.len(),
                forall|k: int| 0 <= k < i ==> (#[trigger] self.entries@[k]).0@ != id@,
                forall|i: int|
                    0 <= i < n ==> self@[(#[trigger] self.entries@[i]).0@] == self.entries@[i].1,
                forall|k: Seq<char>|
                    #[trigger] self@.dom().contains(k) <==> exists|i: int|
                        0 <= i < n && (#[trigger] self.entries@[i]).0@ == k,
        {
            if same_text(self.entries[i].0.as_str(), id) {
                return i;
            }
        }
        n
    }

    /// The value under an identifier.
    pub fn get(&self, id: &str) -> (r: Option<V>)
        requires
            self.wf(),
        ensures
            r == (if self@.dom().contains(id@) {
                Some(self@[id@])
            } else {
                None
            }),
    {
        let i = self.position(id);
        if i < self.entries.len() {
            Some(self.entries[i].1)
        } else {
            None
        }
    }

    /// Sets the value under an identifier.
    pub fn insert(&mut self, id: &str, value: V)
        requires
            old(self).wf(),
        ensures
            final(self).wf(),
            final(self)@ == old(self)@.insert(id@, value),
    {
        let i = self.position(id);
        let ghost before = self.entries@;
        proof {
            lemma_entries(before);
        }
        if i < self.entries.len() {
            self.entries.set(i, (id.to_string(), value));
        } else {
            self.entries.push((id.to_string(), value));
        }
        proof {
            let after = self.entries@;
            assert forall|a: int, b: int| 0 <= a < b < after.len() implies (#[trigger] after[a]).0@
                != (#[trigger] after[b]).0@ by {
                if b < before.len() {
                    assert(before[a].0@ != before[b].0@);
                } else {
                    assert(before[a].0@ != id@);
                }
            }
            lemma_entries(after);
            assert(after[i as int].0@ == id@);
            let wanted = entries_map(before).insert(id@, value);
            assert forall|k: Seq<char>| #[trigger] entries_map(after).dom().contains(k)
                <==> wanted.dom().contains(k) by {
                if entries_map(after).dom().contains(k) {
                    let a = choose|a: int| 0 <= a < after.len() && (#[trigger] after[a]).0@ == k;
                    if a != i {
                        assert(before[a].0@ == k);
                    }
                }
                if wanted.dom().contains(k) && k != id@ {
                    let a = choose|a: int| 0 <= a < before.len() && (#[trigger] before[a]).0@ == k;
                    assert(after[a].0@ == k);
                }
            }
            assert forall|k: Seq<char>| #[trigger] wanted.dom().contains(k) implies entries_map(
                after,
            )[k] == wanted[k] by {
                if k != id@ {
                    let a = choose|a: int| 0 <= a < before.len() && (#[trigger] before[a]).0@ == k;
                    assert(after[a].0@ == k);
                    assert(after[a] == before[a]);
                }
            }
            assert(entries_map(after) =~= wanted);
        }
    }

    /// Takes an identifier out.
    pub fn remove(&mut self, id: &str) -> (r: Option<V>)
        requires
            old(self).wf(),
        ensures
            final(self).wf(),
            final(self)@ == old(self)@.remove(id@),
            r == (if old(self)@.dom().contains(id@) {
                Some(old(self)@[id@])
            } else {
                None
            }),
    {
        let i = self.position(id);
        let ghost before = self.entries@;
        if i == self.entries.len() {
            assert(self@.remove(id@) =~= self@);
            return None;
        }
        let (_, value) = self.entries.remove(i);
        proof {
            let after = self.entries@;
            lemma_entries(before);
            assert forall|a: int, b: int| 0 <= a < b < after.len() implies (#[trigger] after[a]).0@
                != (#[trigger] after[b]).0@ by {
                let a2 = if a < i { a } else { a + 1 };
                let b2 = if b < i { b } else { b + 1 };
                assert(before[a2].0@ != before[b2].0@);
            }
            lemma_entries(after);
            let wanted = entries_map(before).remove(id@);
            assert forall|k: Seq<char>| #[trigger] entries_map(after).dom().contains(k)
                <==> wanted.dom().contains(k) by {
                if entries_map(after).dom().contains(k) {
                    let a = choose|a: int| 0 <= a < after.len() && (#[trigger] after[a]).0@ == k;
                    let a2 = if a < i { a } else { a + 1 };
                    assert(before[a2].0@ == k);
                    if a2 < i {
                        assert(before[a2].0@ != before[i as int].0@);
                    } else {
                        assert(before[i as int].0@ != before[a2].0@);
                    }
                }
                if wanted.dom().contains(k) {
                    let a = choose|a: int| 0 <= a < before.len() && (#[trigger] before[a]).0@ == k;
                    assert(a != i);
                    let a2 = if a < i { a } else { a - 1 };
                    assert(after[a2].0@ == k);
                }
            }
            assert forall|k: Seq<char>| #[trigger] wanted.dom().contains(k) implies entries_map(
                after,
            )[k] == wanted[k] by {
                let a = choose|a: int| 0 <= a < before.len() && (#[trigger] before[a]).0@ == k;
                let a2 = if a < i { a } else { a - 1 };
                assert(after[a2] == before[a]);
            }
            assert(entries_map(after) =~= wanted);
        }
        Some(value)
    }

    /// Whether there is no identifier.
    pub fn is_empty(&self) -> (r: bool)
        requires
            self.wf(),
        ensures
            r <==> self@.dom() == Set::<Seq<char>>::empty(),
    {
        proof {
            lemma_entries(self.entries@);
            if self.entries@.len() > 0 {
                assert(self@.dom().contains(self.entries@[0].0@));
            } else {
                assert(self@.dom() =~= Set::<Seq<char>>::empty());
            }
        }
        self.entries.len() == 0
    }

    /// All identifiers, each once.
    pub fn ids(&self) -> (r: Vec<String>)
        requires
            self.wf(),
        ensures
            texts(r@).no_duplicates(),
            forall|k: Seq<char>| #[trigger] texts(r@).contains(k) <==> self@.dom().contains(k),
    {
        let mut out: Vec<String> = Vec::new();
        for i in 0..self.entries.len()
            invariant
                out@.len() == i,
                forall|j: int| 0 <= j < i ==> (#[trigger] out@[j])@ == self.entries@[j].0@,
        {
            out.push(self.entries[i].0.clone());
        }
        proof {
            lemma_entries(self.entries@);
            let all = texts(out@);
            assert forall|a: int, b: int| 0 <= a < all.len() && 0 <= b < all.len() && a
                != b implies all[a] != all[b] by {
                assert(out@[a]@ == self.entries@[a].0@);
                assert(out@[b]@ == self.entries@[b].0@);
                if a < b {
                    assert(self.entries@[a].0@ != self.entries@[b].0@);
                } else {
                    assert(self.entries@[b].0@ != self.entries@[a].0@);
                }
            }
            assert forall|k: Seq<char>| #[trigger] all.contains(k) <==> self@.dom().contains(k) by {
                if all.contains(k) {
                    let a = choose|a: int| 0 <= a < all.len() && all[a] == k;
                    assert(out@[a]@ == self.entries@[a].0@);
                }
                if self@.dom().contains(k) {
                    let a = choose|a: int|
                        0 <= a < self.entries@.len() && (#[trigger] self.entries@[a]).0@ == k;
                    assert(out@[a]@ == self.entries@[a].0@);
                    assert(all[a] == k);
                }
            }
        }
        out
    }
}

} // verus!
