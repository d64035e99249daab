//! Tables keyed by opaque handle strings.

use vstd::prelude::*;

use crate::text;

verus! {

/// Whether some entry has the key.
pub open spec fn bound<T>(entries: Seq<(Seq<char>, T)>, key: Seq<char>) -> bool {
    exists|i: int| 0 <= i < entries.len() && (#[trigger] entries[i]).0 == key
}

/// Whether no key occurs twice.
pub open spec fn distinct<T>(entries: Seq<(Seq<char>, T)>) -> bool {
    forall|i: int, j: int|
        0 <= i < j < entries.len() ==> (#[trigger] entries[i]).0 != (#[trigger] entries[j]).0
}

/// The entries as a map.
pub open spec fn map_of<T>(entries: Seq<(Seq<char>, T)>) -> Map<Seq<char>, T> {
    Map::new(
        |key: Seq<char>| bound(entries, key),
        |key: Seq<char>|
            entries[choose|i: int| 0 <= i < entries.len() && (#[trigger] entries[i]).0 == key].1,
    )
}

proof fn lemma_entry<T>(entries: Seq<(Seq<char>, T)>, i: int)
    requires
        distinct(entries),
        0 <= i < entries.len(),
    ensures
        map_of(entries).dom().contains(entries[i].0),
        map_of(entries)[entries[i].0] == entries[i].1,
{
    let key = entries[i].0;
    assert(bound(entries, key));
    let j = choose|j: int| 0 <= j < entries.len() && (#[trigger] entries[j]).0 == key;
    assert(entries[j].0 == key);
    if i < j {
        assert(entries[i].0 != entries[j].0);
    } else if j < i {
        assert(entries[j].0 != entries[i].0);
    }
}

proof fn lemma_push<T>(entries: Seq<(Seq<char>, T)>, key: Seq<char>, value: T)
    requires
        distinct(entries),
        !bound(entries, key),
    ensures
        distinct(entries.push((key, value))),
        map_of(entries.push((key, value))) == map_of(entries).insert(key, value),
{
    let next = entries.push((key, value));
    assert forall|i: int, j: int| 0 <= i < j < next.len() implies (#[trigger] next[i]).0 != (
    #[trigger] next[j]).0 by {
        assert(next[i] == entries[i]);
        assert(entries[i].0 != key);
        if j < entries.len() {
            assert(next[j] == entries[j]);
        }
    }
    assert forall|k: Seq<char>| #[trigger] bound(next, k) == (bound(entries, k) || k == key) by {
        if bound(entries, k) {
            let i = choose|i: int| 0 <= i < entries.len() && (#[trigger] entries[i]).0 == k;
            assert(next[i].0 == k);
        }
        assert(next[entries.len() as int].0 == key);
        if bound(next, k) {
            let i = choose|i: int| 0 <= i < next.len() && (#[trigger] next[i]).0 == k;
            if i < entries.len() {
                assert(entries[i].0 == k);
            }
        }
    }
    assert forall|k: Seq<char>| #[trigger] bound(next, k) implies map_of(next)[k] == map_of(
        entries,
    ).insert(key, value)[k] by {
        let i = choose|i: int| 0 <= i < next.len() && (#[trigger] next[i]).0 == k;
        lemma_entry(next, i);
        if i < entries.len() {
            assert(next[i] == entries[i]);
            lemma_entry(entries, i);
        }
    }
    assert(map_of(next) =~= map_of(entries).insert(key, value));
}

proof fn lemma_update<T>(entries: Seq<(Seq<char>, T)>, at: int, value: T)
    requires
        distinct(entries),
        0 <= at < entries.len(),
    ensures
        distinct(entries.update(at, (entries[at].0, value))),
        map_of(entries.update(at, (entries[at].0, value))) == map_of(entries).insert(
            entries[at].0,
            value,
        ),
{
    let key = entries[at].0;
    let next = entries.update(at, (key, value));
    assert forall|i: int| 0 <= i < next.len() implies (#[trigger] next[i]).0 == entries[i].0 by {}
    assert forall|i: int, j: int| 0 <= i < j < next.len() implies (#[trigger] next[i]).0 != (
    #[trigger] next[j]).0 by {
        assert(entries[i].0 != entries[j].0);
    }
    assert forall|k: Seq<char>| #[trigger] bound(next, k) == bound(entries, k) by {
        if bound(entries, k) {
            let i = choose|i: int| 0 <= i < entries.len() && (#[trigger] entries[i]).0 == k;
            assert(next[i].0 == k);
        }
        if bound(next, k) {
            let i = choose|i: int| 0 <= i < next.len() && (#[trigger] next[i]).0 == k;
            assert(entries[i].0 == k);
        }
    }
    lemma_entry(entries, at);
    assert forall|k: Seq<char>| #[trigger] bound(next, k) implies map_of(next)[k] == map_of(
        entries,
    ).insert(key, value)[k] by {
        let i = choose|i: int| 0 <= i < next.len() && (#[trigger] next[i]).0 == k;
        lemma_entry(next, i);
        lemma_entry(entries, i);
        if i != at {
            if i < at {
                assert(entries[i].0 != entries[at].0);
            } else {
                assert(entries[at].0 != entries[i].0);
            }
        }
    }
    assert(map_of(next) =~= map_of(entries).insert(key, value));
}

proof fn lemma_remove<T>(entries: Seq<(Seq<char>, T)>, at: int)
    requires
        distinct(entries),
        0 <= at < entries.len(),
    ensures
        distinct(entries.remove(at)),
        map_of(entries.remove(at)) == map_of(entries).remove(entries[at].0),
{
    let key = entries[at].0;
    let next = entries.remove(at);
    assert forall|i: int| 0 <= i < next.len() implies #[trigger] next[i] == entries[if i < at {
        i
    } else {
        i + 1
    }] by {}
    assert forall|i: int, j: int| 0 <= i < j < next.len() implies (#[trigger] next[i]).0 != (
    #[trigger] next[j]).0 by {
        let a = if i < at { i } else { i + 1 };
        let b = if j < at { j } else { j + 1 };
        assert(entries[a].0 != entries[b].0);
    }
    assert forall|k: Seq<char>| #[trigger] bound(next, k) == (bound(entries, k) && k != key) by {
        if bound(entries, k) && k != key {
            let i = choose|i: int| 0 <= i < entries.len() && (#[trigger] entries[i]).0 == k;
            let a = if i < at { i } else { i - 1 };
            assert(next[a].0 == k);
        }
        if bound(next, k) {
            let i = choose|i: int| 0 <= i < next.len() && (#[trigger] next[i]).0 == k;
            let a = if i < at { i } else { i + 1 };
            assert(entries[a].0 == k);
            if a < at {
                assert(entries[a].0 != entries[at].0);
            } else {
                assert(entries[at].0 != entries[a].0);
            }
        }
    }
    assert forall|k: Seq<char>| #[trigger] bound(next, k) implies map_of(next)[k] == map_of(
        entries,
    )[k] by {
        let i = choose|i: int| 0 <= i < next.len() && (#[trigger] next[i]).0 == k;
        let a = if i < at { i } else { i + 1 };
        lemma_entry(next, i);
        lemma_entry(entries, a);
    }
    assert(map_of(next) =~= map_of(entries).remove(key));
}

/// A table from handle strings to bindings.
#[derive(Debug)]
pub struct Handles<V> {
    entries: Vec<(String, V)>,
}

impl<V: DeepView> View for Handles<V> {
    type V = Map<Seq<char>, V::V>;

    closed spec fn view(&self) -> Map<Seq<char>, V::V> {
        map_of(self.entries.deep_view())
    }
}

impl<V: DeepView> Handles<V> {
    /// Whether no handle is bound twice.
    pub closed spec fn wf(&self) -> bool {
        distinct(self.entries.deep_view())
    }

    /// Empty table.
    pub fn new() -> (h: Self)
        ensures
            h.wf(),
            h@ == Map::<Seq<char>, V::V>::empty(),
    {
        let h = Handles { entries: Vec::new() };
        assert(h@ =~= Map::<Seq<char>, V::V>::empty());
        h
    }

    fn position(&self, key: &str) -> (r: Option<usize>)
        ensures
            match r {
                Some(i) => i < self.entries@.len() && self.entries.deep_view()[i as int].0 == key@,
                None => !bound(self.entries.deep_view(), key@),
            },
    {
        let ghost all = self.entries.deep_view();
        let mut i: usize = 0;
        while i < self.entries.len()
            invariant
                all == self.entries.deep_view(),
                i <= self.entries@.len(),
                forall|k: int| 0 <= k < i ==> (#[trigger] all[k]).0 != key@,
            decreases self.entries.len() - i,
        {
            assert(all[i as int] == self.entries@[i as int].deep_view());
            if text::eq(self.entries[i].0.as_str(), key) {
                return Some(i);
            }
            i = i + 1;
        }
        None
    }

    /// The binding of a handle.
    pub fn get(&self, key: &str) -> (r: Option<&V>)
        requires
            self.wf(),
        ensures
            match r {
                Some(v) => self@.dom().contains(key@) && v.deep_view() == self@[key@],
                None => !self@.dom().contains(key@),
            },
    {
        match self.position(key) {
            Some(i) => {
                proof {
                    lemma_entry(self.entries.deep_view(), i as int);
                    assert(self.entries.deep_view()[i as int] == self.entries@[i as int].deep_view());
                }
                Some(&self.entries[i].1)
            },
            None => None,
        }
    }

    /// Binds a handle, replacing any binding it had.
    pub fn insert(&mut self, key: &str, value: V)
        requires
            old(self).wf(),
        ensures
            final(self).wf(),
            final(self)@ == old(self)@.insert(key@, value.deep_view()),
    {
        let ghost before = self.entries.deep_view();
        let ghost v = value.deep_view();
        match self.position(key) {
            Some(i) => {
                proof {
                    lemma_update(before, i as int, v);
                }
                self.entries.set(i, (key.to_owned(), value));
                assert(self.entries.deep_view() =~= before.update(i as int, (key@, v)));
            },
            None => {
                proof {
                    lemma_push(before, key@, v);
                }
                self.entries.push((key.to_owned(), value));
                assert(self.entries.deep_view() =~= before.push((key@, v)));
            },
        }
    }

    /// Drops a handle's binding and hands it back.
    pub fn remove(&mut self, key: &str) -> (r: Option<V>)
        requires
            old(self).wf(),
        ensures
            final(self).wf(),
            final(self)@ == old(self)@.remove(key@),
            match r {
                Some(v) => old(self)@.dom().contains(key@) && v.deep_view() == old(self)@[key@],
                None => !old(self)@.dom().contains(key@),
            },
    {
        let ghost before = self.entries.deep_view();
        match self.position(key) {
            Some(i) => {
                proof {
                    lemma_remove(before, i as int);
                    lemma_entry(before, i as int);
                    assert(before[i as int] == self.entries@[i as int].deep_view());
                }
                let entry = self.entries.remove(i);
                assert(self.entries.deep_view() =~= before.remove(i as int));
                Some(entry.1)
            },
            None => {
                assert(self@ =~= old(self)@.remove(key@));
                None
            },
        }
    }

    /// The bound handles, each once.
    pub fn keys(&self) -> (out: Vec<String>)
        requires
            self.wf(),
        ensures
            out.deep_view().no_duplicates(),
            forall|k: Seq<char>| #[trigger] out.deep_view().contains(k) <==> self@.dom().contains(k),
    {
        let ghost all = self.entries.deep_view();
        let mut out: Vec<String> = Vec::new();
        let mut i: usize = 0;
        while i < self.entries.len()
            invariant
                all == self.entries.deep_view(),
                i <= self.entries@.len(),
                out.deep_view() =~= Seq::new(i as nat, |k: int| all[k].0),
            decreases self.entries.len() - i,
        {
            let ghost before = out.deep_view();
            assert(all[i as int] == self.entries@[i as int].deep_view());
            out.push(self.entries[i].0.clone());
            assert(out.deep_view() =~= before.push(all[i as int].0));
            i = i + 1;
        }
        let ghost names = out.deep_view();
        proof {
            assert forall|k: Seq<char>| #[trigger] names.contains(k) <==> self@.dom().contains(k) by {
                if names.contains(k) {
                    let j = choose|j: int| 0 <= j < names.len() && names[j] == k;
                    assert(all[j].0 == k);
                    assert(bound(all, k));
                }
                if bound(all, k) {
                    let j = choose|j: int| 0 <= j < all.len() && (#[trigger] all[j]).0 == k;
                    assert(names[j] == k);
                }
            }
        }
        out
    }
}

} // verus!
