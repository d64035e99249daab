//! Small key/value tables kept in order.

use vstd::prelude::*;

use crate::text;

verus! {

/// Value of the first entry with the key at or after `k`.
pub open spec fn lookup(entries: Seq<(Seq<char>, Seq<char>)>, key: Seq<char>, k: int) -> Option<
    Seq<char>,
>
    decreases entries.len() - k,
{
    if k < 0 || k >= entries.len() {
        None
    } else if entries[k].0 == key {
        Some(entries[k].1)
    } else {
        lookup(entries, key, k + 1)
    }
}

/// Index of the first entry with the key at or after `k`, or -1.
pub open spec fn position(entries: Seq<(Seq<char>, Seq<char>)>, key: Seq<char>, k: int) -> int
    decreases entries.len() - k,
{
    if k < 0 || k >= entries.len() {
        -1
    } else if entries[k].0 == key {
        k
    } else {
        position(entries, key, k + 1)
    }
}

/// The table with the key set to the value: in its place, or at the end.
pub open spec fn set_entry(
    entries: Seq<(Seq<char>, Seq<char>)>,
    key: Seq<char>,
    value: Seq<char>,
) -> Seq<(Seq<char>, Seq<char>)> {
    let at = position(entries, key, 0);
    if at >= 0 {
        entries.update(at, (key, value))
    } else {
        entries.push((key, value))
    }
}

/// The table of pairs given in order: a later pair wins over an earlier one
/// with the same key, which keeps its place.
pub open spec fn latest(pairs: Seq<(Seq<char>, Seq<char>)>) -> Seq<(Seq<char>, Seq<char>)>
    decreases pairs.len(),
{
    if pairs.len() == 0 {
        Seq::empty()
    } else {
        set_entry(latest(pairs.drop_last()), pairs.last().0, pairs.last().1)
    }
}

/// Value of the last pair with the key.
pub open spec fn last_value(pairs: Seq<(Seq<char>, Seq<char>)>, key: Seq<char>) -> Option<Seq<char>>
    decreases pairs.len(),
{
    if pairs.len() == 0 {
        None
    } else if pairs.last().0 == key {
        Some(pairs.last().1)
    } else {
        last_value(pairs.drop_last(), key)
    }
}

/// Whether a key is present.
pub open spec fn has_key(entries: Seq<(Seq<char>, Seq<char>)>, key: Seq<char>) -> bool {
    lookup(entries, key, 0) is Some
}

/// Keys of a table, in order.
pub open spec fn keys(entries: Seq<(Seq<char>, Seq<char>)>) -> Seq<Seq<char>> {
    entries.map_values(|e: (Seq<char>, Seq<char>)| e.0)
}

pub proof fn lemma_position(entries: Seq<(Seq<char>, Seq<char>)>, key: Seq<char>, k: int)
    requires
        0 <= k,
    ensures
        ({
            let at = position(entries, key, k);
            &&& at == -1 ==> forall|i: int|
                k <= i < entries.len() ==> (#[trigger] entries[i]).0 != key
            &&& at == -1 <==> lookup(entries, key, k) is None
            &&& at != -1 ==> k <= at < entries.len() && entries[at].0 == key && lookup(
                entries,
                key,
                k,
            ) == Some(entries[at].1)
            &&& at != -1 ==> forall|i: int| k <= i < at ==> (#[trigger] entries[i]).0 != key
        }),
    decreases entries.len() - k,
{
    if k < entries.len() && entries[k].0 != key {
        lemma_position(entries, key, k + 1);
    }
}

/// `lookup` finds the entry with no earlier one of its key.
pub proof fn lemma_lookup_is(
    entries: Seq<(Seq<char>, Seq<char>)>,
    key: Seq<char>,
    k: int,
    at: int,
)
    requires
        0 <= k <= at < entries.len(),
        entries[at].0 == key,
        forall|i: int| k <= i < at ==> (#[trigger] entries[i]).0 != key,
    ensures
        lookup(entries, key, k) == Some(entries[at].1),
    decreases at - k,
{
    if k < at {
        lemma_lookup_is(entries, key, k + 1, at);
    }
}

/// What setting an entry does to every lookup.
pub proof fn lemma_set_entry(
    entries: Seq<(Seq<char>, Seq<char>)>,
    key: Seq<char>,
    value: Seq<char>,
    other: Seq<char>,
)
    ensures
        lookup(set_entry(entries, key, value), other, 0) == if other == key {
            Some(value)
        } else {
            lookup(entries, other, 0)
        },
{
    lemma_position(entries, key, 0);
    lemma_position(entries, other, 0);
    let at = position(entries, key, 0);
    let next = set_entry(entries, key, value);
    lemma_position(next, other, 0);
    if other == key {
        if at >= 0 {
            lemma_lookup_is(next, key, 0, at);
        } else {
            lemma_lookup_is(next, key, 0, entries.len() as int);
        }
    } else {
        let was = position(entries, other, 0);
        if was >= 0 {
            assert(next[was] == entries[was]);
            assert forall|i: int| 0 <= i < was implies (#[trigger] next[i]).0 != other by {
                if i != at {
                    assert(next[i] == entries[i]);
                }
            }
            lemma_lookup_is(next, other, 0, was);
        } else {
            let now = position(next, other, 0);
            if now >= 0 {
                if now < entries.len() && now != at {
                    assert(next[now] == entries[now]);
                }
            }
        }
    }
}

/// A table built from pairs answers every key with its last value.
pub proof fn law_latest_wins(pairs: Seq<(Seq<char>, Seq<char>)>, key: Seq<char>)
    ensures
        lookup(latest(pairs), key, 0) == last_value(pairs, key),
    decreases pairs.len(),
{
    if pairs.len() > 0 {
        law_latest_wins(pairs.drop_last(), key);
        lemma_set_entry(latest(pairs.drop_last()), pairs.last().0, pairs.last().1, key);
    }
}

/// Index of the first entry with the key.
pub fn position_of(entries: &[(String, String)], key: &str) -> (r: Option<usize>)
    ensures
        match r {
            Some(i) => i == position(entries.deep_view(), key@, 0) && i < entries@.len(),
            None => position(entries.deep_view(), key@, 0) == -1,
        },
{
    let ghost all = entries.deep_view();
    let mut k: usize = 0;
    while k < entries.len()
        invariant
            all == entries.deep_view(),
            k <= entries@.len(),
            position(all, key@, 0) == position(all, key@, k as int),
        decreases entries.len() - k,
    {
        assert(all[k as int] == entries@[k as int].deep_view());
        if text::eq(entries[k].0.as_str(), key) {
            return Some(k);
        }
        k = k + 1;
    }
    None
}

/// Value of the first entry with the key.
pub fn lookup_text<'a>(entries: &'a [(String, String)], key: &str) -> (r: Option<&'a str>)
    ensures
        match r {
            Some(v) => lookup(entries.deep_view(), key@, 0) == Some(v@),
            None => lookup(entries.deep_view(), key@, 0) is None,
        },
{
    proof {
        lemma_position(entries.deep_view(), key@, 0);
    }
    match position_of(entries, key) {
        Some(i) => {
            assert(entries.deep_view()[i as int] == entries@[i as int].deep_view());
            Some(entries[i].1.as_str())
        },
        None => None,
    }
}

/// Sets a key in place, or appends it.
pub fn set(entries: &mut Vec<(String, String)>, key: &str, value: &str)
    ensures
        final(entries).deep_view() == set_entry(old(entries).deep_view(), key@, value@),
{
    let ghost before = entries.deep_view();
    match position_of(entries, key) {
        Some(i) => {
            entries.set(i, (key.to_owned(), value.to_owned()));
            assert(entries.deep_view() =~= before.update(i as int, (key@, value@)));
        },
        None => {
            entries.push((key.to_owned(), value.to_owned()));
            assert(entries.deep_view() =~= before.push((key@, value@)));
        },
    }
}

/// A copy of a table.
pub fn copy(entries: &Vec<(String, String)>) -> (out: Vec<(String, String)>)
    ensures
        out.deep_view() == entries.deep_view(),
{
    let ghost all = entries.deep_view();
    let mut out: Vec<(String, String)> = Vec::new();
    let mut i: usize = 0;
    while i < entries.len()
        invariant
            all == entries.deep_view(),
            i <= entries@.len(),
            out.deep_view() =~= all.take(i as int),
        decreases entries.len() - i,
    {
        let ghost before = out.deep_view();
        out.push((entries[i].0.clone(), entries[i].1.clone()));
        assert(out.deep_view() =~= before.push(all[i as int]));
        i = i + 1;
    }
    out
}

/// The last value of a key is that of the last pair with the key.
pub proof fn law_last_values_are_last(
    pairs: Seq<(Seq<char>, Seq<char>)>,
    key: Seq<char>,
    at: int,
)
    ensures
        0 <= at < pairs.len() && pairs[at].0 == key && (forall|i: int|
            at < i < pairs.len() ==> (#[trigger] pairs[i]).0 != key) ==> last_value(pairs, key)
            == Some(pairs[at].1),
        (forall|i: int| 0 <= i < pairs.len() ==> (#[trigger] pairs[i]).0 != key) ==> last_value(
            pairs,
            key,
        ) is None,
    decreases pairs.len(),
{
    if pairs.len() > 0 {
        law_last_values_are_last(pairs.drop_last(), key, at);
        assert(forall|i: int| 0 <= i < pairs.len() - 1 ==> pairs.drop_last()[i] == pairs[i]);
    }
}

/// A key that is there keeps its place when it is set, and a new one goes last.
pub proof fn law_set_keys_keep_their_places(
    entries: Seq<(Seq<char>, Seq<char>)>,
    key: Seq<char>,
    value: Seq<char>,
)
    ensures
        (exists|i: int| 0 <= i < entries.len() && (#[trigger] entries[i]).0 == key) ==> keys(
            set_entry(entries, key, value),
        ) == keys(entries),
        (forall|i: int| 0 <= i < entries.len() ==> (#[trigger] entries[i]).0 != key) ==> set_entry(
            entries,
            key,
            value,
        ) == entries.push((key, value)),
        keys(entries).len() == entries.len(),
        forall|i: int| 0 <= i < entries.len() ==> #[trigger] keys(entries)[i] == entries[i].0,
{
    lemma_position(entries, key, 0);
    if exists|i: int| 0 <= i < entries.len() && (#[trigger] entries[i]).0 == key {
        assert(keys(set_entry(entries, key, value)) =~= keys(entries));
    }
}

} // verus!
