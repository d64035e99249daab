//! Stable sorting by key.

use vstd::prelude::*;

verus! {

/// A key that entries are ordered by.
pub trait SortKey: DeepView + Sized {
    /// Whether `a` stands before or at `b`.
    spec fn key_le(a: Self::V, b: Self::V) -> bool;

    /// Whether `self` stands before or at `other`.
    fn le_key(&self, other: &Self) -> (r: bool)
        ensures
            r == Self::key_le(self.deep_view(), other.deep_view()),
    ;
}

/// A number that entries are ordered by.
pub struct Weight {
    /// The number.
    pub value: u64,
}

impl DeepView for Weight {
    type V = nat;

    open spec fn deep_view(&self) -> nat {
        self.value as nat
    }
}

impl SortKey for Weight {
    open spec fn key_le(a: nat, b: nat) -> bool {
        a <= b
    }

    fn le_key(&self, other: &Self) -> (r: bool) {
        self.value <= other.value
    }
}

/// `s` with `x` put behind the last element that stands before or at it.
pub open spec fn stable_insert<A>(s: Seq<A>, x: A, le: spec_fn(A, A) -> bool) -> Seq<A>
    decreases s.len(),
{
    if s.len() == 0 {
        seq![x]
    } else if le(s.last(), x) {
        s.push(x)
    } else {
        stable_insert(s.drop_last(), x, le).push(s.last())
    }
}

/// `s` in ascending order; equal elements keep their order.
pub open spec fn stable_sort<A>(s: Seq<A>, le: spec_fn(A, A) -> bool) -> Seq<A>
    decreases s.len(),
{
    if s.len() == 0 {
        Seq::empty()
    } else {
        stable_insert(stable_sort(s.drop_last(), le), s.last(), le)
    }
}

/// Order of keyed entries: by key alone.
pub open spec fn by_key<K: SortKey>() -> spec_fn((K::V, int), (K::V, int)) -> bool {
    |a: (K::V, int), b: (K::V, int)| K::key_le(a.0, b.0)
}

/// Keyed entries as the model sees them.
pub open spec fn entries_view<K: SortKey>(s: Seq<(K, usize)>) -> Seq<(K::V, int)> {
    s.map_values(|e: (K, usize)| (e.0.deep_view(), e.1 as int))
}

/// Total preorder.
pub open spec fn total_preorder<A>(le: spec_fn(A, A) -> bool) -> bool {
    &&& forall|a: A, b: A| #![trigger le(a, b)] le(a, b) || le(b, a)
    &&& forall|a: A, b: A, c: A| #![trigger le(a, b), le(b, c)] le(a, b) && le(b, c) ==> le(a, c)
}

pub proof fn lemma_stable_insert<A>(s: Seq<A>, x: A, le: spec_fn(A, A) -> bool)
    requires
        total_preorder(le),
        forall|i: int, j: int| 0 <= i < j < s.len() ==> le(s[i], s[j]),
    ensures
        stable_insert(s, x, le).len() == s.len() + 1,
        forall|i: int, j: int|
            0 <= i < j < s.len() + 1 ==> le(
                stable_insert(s, x, le)[i],
                stable_insert(s, x, le)[j],
            ),
    decreases s.len(),
{
    lemma_stable_insert_members(s, x, le);
    if s.len() > 0 {
        let r = stable_insert(s, x, le);
        if le(s.last(), x) {
            assert forall|i: int, j: int| 0 <= i < j < r.len() implies le(r[i], r[j]) by {
                if j == s.len() && i < s.len() - 1 {
                    assert(le(s[i], s[s.len() - 1]));
                }
            }
        } else {
            let t = s.drop_last();
            assert forall|i: int, j: int| 0 <= i < j < t.len() implies le(t[i], t[j]) by {
                assert(t[i] == s[i] && t[j] == s[j]);
            }
            lemma_stable_insert(t, x, le);
            lemma_stable_insert_members(t, x, le);
            let rt = stable_insert(t, x, le);
            assert forall|i: int, j: int| 0 <= i < j < r.len() implies le(r[i], r[j]) by {
                if j == rt.len() {
                    assert(r[j] == s.last());
                    assert(rt.contains(rt[i]));
                    assert(le(x, s.last()));
                    if rt[i] != x {
                        assert(t.contains(rt[i]));
                        let k = choose|k: int| 0 <= k < t.len() && t[k] == rt[i];
                        assert(le(s[k], s[s.len() - 1]));
                    }
                } else {
                    assert(r[i] == rt[i] && r[j] == rt[j]);
                }
            }
        }
    }
}

/// Insertion adds `x` and nothing else.
pub proof fn lemma_stable_insert_members<A>(s: Seq<A>, x: A, le: spec_fn(A, A) -> bool)
    ensures
        stable_insert(s, x, le).to_multiset() == s.to_multiset().insert(x),
        stable_insert(s, x, le).len() == s.len() + 1,
        forall|y: A|
            #![trigger stable_insert(s, x, le).contains(y)]
            stable_insert(s, x, le).contains(y) <==> (s.contains(y) || y == x),
    decreases s.len(),
{
    broadcast use vstd::seq_lib::group_to_multiset_ensures;

    if s.len() == 0 {
        assert(seq![x] =~= Seq::<A>::empty().push(x));
        assert(s =~= Seq::<A>::empty());
    } else if le(s.last(), x) {
    } else {
        lemma_stable_insert_members(s.drop_last(), x, le);
        assert(s =~= s.drop_last().push(s.last()));
        assert(stable_insert(s, x, le).to_multiset() =~= s.to_multiset().insert(x));
    }
    let r = stable_insert(s, x, le);
    assert forall|y: A| #![trigger r.contains(y)] r.contains(y) <==> (s.contains(y) || y == x) by {
        s.to_multiset_ensures();
        r.to_multiset_ensures();
        assert(r.contains(y) <==> r.to_multiset().count(y) > 0);
        assert(s.contains(y) <==> s.to_multiset().count(y) > 0);
    }
}

/// Sorting keeps every element.
pub proof fn lemma_stable_sort_members<A>(s: Seq<A>, le: spec_fn(A, A) -> bool)
    ensures
        stable_sort(s, le).to_multiset() == s.to_multiset(),
        stable_sort(s, le).len() == s.len(),
        forall|y: A|
            #![trigger stable_sort(s, le).contains(y)]
            stable_sort(s, le).contains(y) <==> s.contains(y),
    decreases s.len(),
{
    broadcast use vstd::seq_lib::group_to_multiset_ensures;

    if s.len() > 0 {
        lemma_stable_sort_members(s.drop_last(), le);
        lemma_stable_insert_members(stable_sort(s.drop_last(), le), s.last(), le);
        assert(s =~= s.drop_last().push(s.last()));
    } else {
        assert(s =~= Seq::<A>::empty());
    }
    let r = stable_sort(s, le);
    assert forall|y: A| #![trigger r.contains(y)] r.contains(y) <==> s.contains(y) by {
        s.to_multiset_ensures();
        r.to_multiset_ensures();
        assert(r.contains(y) <==> r.to_multiset().count(y) > 0);
        assert(s.contains(y) <==> s.to_multiset().count(y) > 0);
    }
}

/// Sorting keeps every element and orders them.
pub proof fn lemma_stable_sort<A>(s: Seq<A>, le: spec_fn(A, A) -> bool)
    requires
        total_preorder(le),
    ensures
        stable_sort(s, le).to_multiset() == s.to_multiset(),
        stable_sort(s, le).len() == s.len(),
        forall|i: int, j: int|
            0 <= i < j < s.len() ==> le(stable_sort(s, le)[i], stable_sort(s, le)[j]),
    decreases s.len(),
{
    broadcast use vstd::seq_lib::group_to_multiset_ensures;

    if s.len() > 0 {
        lemma_stable_sort(s.drop_last(), le);
        lemma_stable_insert(stable_sort(s.drop_last(), le), s.last(), le);
        lemma_stable_insert_members(stable_sort(s.drop_last(), le), s.last(), le);
        assert(s =~= s.drop_last().push(s.last()));
    } else {
        assert(s =~= Seq::<A>::empty());
    }
}

/// Sorts keyed entries in ascending key order, keeping the order of equal
/// keys.
pub fn sort_entries<K: SortKey>(entries: Vec<(K, usize)>) -> (out: Vec<(K, usize)>)
    ensures
        entries_view(out@) == stable_sort(entries_view(entries@), by_key::<K>()),
{
    let ghost model = entries_view(entries@);
    let ghost le = by_key::<K>();
    let mut rest = entries;
    let mut taken: Vec<(K, usize)> = Vec::new();
    let mut out: Vec<(K, usize)> = Vec::new();
    // Reverse first, so that elements come off in their original order.
    while rest.len() > 0
        invariant
            rest@ + taken@.reverse() =~= entries@,
        decreases rest.len(),
    {
        let ghost r0 = rest@;
        let ghost t0 = taken@;
        match rest.pop() {
            Some(e) => {
                taken.push(e);
                assert(r0 =~= rest@.push(e));
                assert(taken@.reverse() =~= seq![e] + t0.reverse());
            },
            None => {},
        }
    }
    assert(taken@.reverse() =~= entries@);
    let ghost n = entries@.len();
    let ghost mut k: int = 0;
    assert(model.take(0) =~= Seq::empty());
    assert(entries_view(out@) =~= stable_sort(model.take(0), le));
    while taken.len() > 0
        invariant
            n == entries@.len(),
            0 <= k,
            k + taken@.len() == n,
            model == entries_view(entries@),
            le == by_key::<K>(),
            taken@.reverse() =~= entries@.skip(k),
            entries_view(out@) == stable_sort(model.take(k), le),
        decreases taken.len(),
    {
        let ghost t0 = taken@;
        match taken.pop() {
            Some(e) => {
                assert(t0.reverse()[0] == e);
                assert(entries@.skip(k)[0] == entries@[k]);
                assert(e == entries@[k]);
                assert(taken@.reverse() =~= t0.reverse().skip(1));
                assert(entries@.skip(k).skip(1) =~= entries@.skip(k + 1));
                assert(model.take(k + 1).drop_last() =~= model.take(k));
                assert(model.take(k + 1).last() == (e.0.deep_view(), e.1 as int));
                insert_entry(&mut out, e);
                proof {
                    k = k + 1;
                }
            },
            None => {},
        }
    }
    assert(model.take(k) =~= model);
    out
}

/// Puts one entry behind the last entry that stands before or at it.
fn insert_entry<K: SortKey>(out: &mut Vec<(K, usize)>, e: (K, usize))
    ensures
        entries_view(final(out)@) == stable_insert(
            entries_view(old(out)@),
            (e.0.deep_view(), e.1 as int),
            by_key::<K>(),
        ),
{
    let ghost start = out@;
    let ghost le = by_key::<K>();
    let ghost x = (e.0.deep_view(), e.1 as int);
    let mut at: usize = out.len();
    let ghost all = entries_view(start);
    assert(all.take(at as int) =~= all);
    assert(stable_insert(all.take(at as int), x, le) + all.skip(at as int) =~= stable_insert(
        all,
        x,
        le,
    ));
    while at > 0 && !out[at - 1].0.le_key(&e.0)
        invariant
            out@ == start,
            at <= out@.len(),
            all == entries_view(start),
            le == by_key::<K>(),
            x == (e.0.deep_view(), e.1 as int),
            stable_insert(all.take(at as int), x, le) + all.skip(at as int) == stable_insert(
                all,
                x,
                le,
            ),
        decreases at,
    {
        let ghost head = all.take(at as int);
        assert(head.last() == all[at - 1]);
        assert(head.drop_last() =~= all.take(at - 1));
        assert(stable_insert(head, x, le) == stable_insert(all.take(at - 1), x, le).push(
            all[at - 1],
        ));
        assert(all.skip(at - 1) =~= seq![all[at - 1]] + all.skip(at as int));
        assert(stable_insert(all.take(at - 1), x, le).push(all[at - 1]) + all.skip(at as int)
            =~= stable_insert(all.take(at - 1), x, le) + all.skip(at - 1));
        at = at - 1;
    }
    proof {
        let head = all.take(at as int);
        if at > 0 {
            assert(head.last() == all[at - 1]);
            assert(stable_insert(head, x, le) == head.push(x));
        } else {
            assert(head =~= Seq::empty());
            assert(stable_insert(head, x, le) =~= head.push(x));
        }
    }
    out.insert(at, e);
    assert(entries_view(out@) =~= all.take(at as int).push(x) + all.skip(at as int));
}

/// Elements that sort alike keep the order that they came in.
pub proof fn law_sorting_is_stable<A>(s: Seq<A>, le: spec_fn(A, A) -> bool, alike: spec_fn(A) -> bool)
    requires
        forall|a: A, b: A| #![trigger le(a, b)] alike(a) && alike(b) ==> le(a, b),
    ensures
        stable_sort(s, le).filter(alike) == s.filter(alike),
    decreases s.len(),
{
    reveal(Seq::filter);
    if s.len() == 0 {
        assert(s =~= Seq::<A>::empty());
    } else {
        law_sorting_is_stable(s.drop_last(), le, alike);
        lemma_insert_is_stable(stable_sort(s.drop_last(), le), s.last(), le, alike);
    }
}

proof fn lemma_insert_is_stable<A>(
    s: Seq<A>,
    x: A,
    le: spec_fn(A, A) -> bool,
    alike: spec_fn(A) -> bool,
)
    requires
        forall|a: A, b: A| #![trigger le(a, b)] alike(a) && alike(b) ==> le(a, b),
    ensures
        stable_insert(s, x, le).filter(alike) == if alike(x) {
            s.filter(alike).push(x)
        } else {
            s.filter(alike)
        },
    decreases s.len(),
{
    reveal(Seq::filter);
    let r = stable_insert(s, x, le);
    if s.len() == 0 {
        assert(s =~= Seq::<A>::empty());
        assert(r.drop_last() =~= Seq::<A>::empty());
        assert(Seq::<A>::empty().filter(alike) =~= Seq::<A>::empty());
        assert(r.last() == x);
    } else if le(s.last(), x) {
        assert(r.drop_last() =~= s);
    } else {
        lemma_insert_is_stable(s.drop_last(), x, le, alike);
        assert(r.drop_last() =~= stable_insert(s.drop_last(), x, le));
    }
}

} // verus!
