//! Mountpoint preparation: seat-owned parents for bind targets.
//!
//! Pure candidate computation plus the sequence of bounded in-container
//! setup execs, one decision per step.

use vstd::prelude::*;

use crate::error::{CistellaError, ErrorView, Result};
use crate::table;
use crate::text;
use crate::transport;

verus! {

/// Whether `path` lies strictly beneath `ancestor` (`/a/b` under `/a`;
/// `/a` itself and `/a-b` do not).
pub open spec fn beneath(path: Seq<char>, ancestor: Seq<char>) -> bool {
    (ancestor + "/"@).is_prefix_of(path)
}

fn is_beneath(path: &str, ancestor: &str) -> (b: bool)
    ensures
        b == beneath(path@, ancestor@),
{
    text::starts_with(path, text::cat(ancestor, "/").as_str())
}

/// Whether a path equals a target or lies beneath one.
pub open spec fn dominated(path: Seq<char>, targets: Seq<Seq<char>>) -> bool {
    exists|i: int|
        0 <= i < targets.len() && (path == #[trigger] targets[i] || beneath(path, targets[i]))
}

fn is_dominated(path: &str, targets: &[String]) -> (b: bool)
    ensures
        b == dominated(path@, targets.deep_view()),
{
    let ghost all = targets.deep_view();
    let mut i: usize = 0;
    while i < targets.len()
        invariant
            all == targets.deep_view(),
            i <= targets@.len(),
            forall|k: int|
                0 <= k < i ==> path@ != #[trigger] all[k] && !beneath(path@, all[k]),
        decreases targets.len() - i,
    {
        assert(all[i as int] == targets@[i as int]@);
        if text::eq(path, targets[i].as_str()) || is_beneath(path, targets[i].as_str()) {
            return true;
        }
        i = i + 1;
    }
    false
}

/// Index of the last `/`, or -1.
pub open spec fn last_slash(s: Seq<char>) -> int
    decreases s.len(),
{
    if s.len() == 0 {
        -1
    } else if s.last() == '/' {
        s.len() - 1
    } else {
        last_slash(s.drop_last())
    }
}

pub proof fn lemma_last_slash(s: Seq<char>)
    ensures
        -1 <= last_slash(s) < s.len() || (s.len() == 0 && last_slash(s) == -1),
        last_slash(s) >= 0 ==> s[last_slash(s)] == '/',
    decreases s.len(),
{
    if s.len() > 0 && s.last() != '/' {
        lemma_last_slash(s.drop_last());
    }
}

/// Ancestors of a target, nearest first, up to the home or the root, that
/// no target dominates.
pub open spec fn ancestor_chain(rest: Seq<char>, targets: Seq<Seq<char>>, home: Seq<char>) -> Seq<
    Seq<char>,
>
    decreases rest.len(),
{
    let at = last_slash(rest);
    if at < 0 || at >= rest.len() {
        Seq::empty()
    } else {
        let parent = rest.take(at);
        if parent.len() == 0 || parent == home {
            Seq::empty()
        } else if dominated(parent, targets) {
            ancestor_chain(parent, targets, home)
        } else {
            seq![parent] + ancestor_chain(parent, targets, home)
        }
    }
}

/// Ancestors of every absolute target, in target order.
pub open spec fn collected(
    todo: Seq<Seq<char>>,
    targets: Seq<Seq<char>>,
    home: Seq<char>,
) -> Seq<Seq<char>>
    decreases todo.len(),
{
    if todo.len() == 0 {
        Seq::empty()
    } else if crate::path::is_absolute(todo.last()) {
        collected(todo.drop_last(), targets, home) + ancestor_chain(todo.last(), targets, home)
    } else {
        collected(todo.drop_last(), targets, home)
    }
}

/// An ascending list with one more text, unless it is already there.
pub open spec fn insert_unique(s: Seq<Seq<char>>, x: Seq<char>) -> Seq<Seq<char>>
    decreases s.len(),
{
    if s.len() == 0 {
        seq![x]
    } else if s.last() == x {
        s
    } else if text::lex_le(s.last(), x) {
        s.push(x)
    } else {
        insert_unique(s.drop_last(), x).push(s.last())
    }
}

/// The texts in ascending order, each once.
pub open spec fn ascending(s: Seq<Seq<char>>) -> Seq<Seq<char>>
    decreases s.len(),
{
    if s.len() == 0 {
        Seq::empty()
    } else {
        insert_unique(ascending(s.drop_last()), s.last())
    }
}

/// Candidate parents for preparation.
pub open spec fn candidates(targets: Seq<Seq<char>>, home: Seq<char>) -> Seq<Seq<char>> {
    ascending(collected(targets, targets, home))
}

fn insert_sorted(out: &mut Vec<String>, x: String)
    ensures
        final(out).deep_view() == insert_unique(old(out).deep_view(), x@),
{
    let ghost all = out.deep_view();
    let mut at: usize = out.len();
    assert(all.take(at as int) =~= all);
    assert(all.skip(at as int) =~= Seq::<Seq<char>>::empty());
    assert(insert_unique(all, x@) + Seq::<Seq<char>>::empty() =~= insert_unique(all, x@));
    while at > 0 && !text::eq(out[at - 1].as_str(), x.as_str()) && !text::lex_le_text(
        out[at - 1].as_str(),
        x.as_str(),
    )
        invariant
            out.deep_view() == all,
            at <= out@.len(),
            insert_unique(all.take(at as int), x@) + all.skip(at as int) == insert_unique(all, x@),
        decreases at,
    {
        let ghost head = all.take(at as int);
        assert(head.last() == all[at - 1]);
        assert(head.drop_last() =~= all.take(at - 1));
        assert(all.skip(at - 1) =~= seq![all[at - 1]] + all.skip(at as int));
        assert(insert_unique(all.take(at - 1), x@).push(all[at - 1]) + all.skip(at as int)
            =~= insert_unique(all.take(at - 1), x@) + all.skip(at - 1));
        at = at - 1;
    }
    let ghost head = all.take(at as int);
    if at > 0 && text::eq(out[at - 1].as_str(), x.as_str()) {
        assert(head.last() == all[at - 1]);
        assert(insert_unique(head, x@) == head);
        assert(head + all.skip(at as int) =~= all);
    } else {
        proof {
            if at > 0 {
                assert(head.last() == all[at - 1]);
            } else {
                assert(head =~= Seq::<Seq<char>>::empty());
            }
            assert(insert_unique(head, x@) =~= head.push(x@));
        }
        let ghost xv = x@;
        out.insert(at, x);
        assert(out.deep_view() =~= head.push(xv) + all.skip(at as int));
    }
}

fn collect_chain(
    out: &mut Vec<String>,
    target: &str,
    targets: &[String],
    container_home: &str,
    Ghost(done): Ghost<Seq<Seq<char>>>,
)
    requires
        old(out).deep_view() == ascending(done),
    ensures
        final(out).deep_view() == ascending(
            done + ancestor_chain(target@, targets.deep_view(), container_home@),
        ),
{
    let ghost tv = targets.deep_view();
    let ghost chain = ancestor_chain(target@, tv, container_home@);
    let ghost mut seen = done;
    let v = text::chars_of(target);
    let mut n: usize = v.len();
    assert(target@.take(n as int) =~= target@);
    assert(seen + chain =~= done + chain);
    loop
        invariant
            v@ == target@,
            n <= v@.len(),
            tv == targets.deep_view(),
            chain == ancestor_chain(target@, tv, container_home@),
            out.deep_view() == ascending(seen),
            seen + ancestor_chain(target@.take(n as int), tv, container_home@) == done + chain,
        decreases n,
    {
        let ghost rest = target@.take(n as int);
        let mut at: usize = n;
        assert(target@.take(at as int) =~= rest);
        while at > 0 && v[at - 1] != '/'
            invariant
                v@ == target@,
                at <= n <= v@.len(),
                rest == target@.take(n as int),
                last_slash(rest) == last_slash(target@.take(at as int)),
            decreases at,
        {
            let ghost t = target@.take(at as int);
            assert(t.last() == target@[at - 1]);
            assert(t.drop_last() =~= target@.take(at - 1));
            at = at - 1;
        }
        proof {
            let t = target@.take(at as int);
            if at > 0 {
                assert(t.last() == target@[at - 1]);
            }
        }
        if at == 0 {
            assert(seen + Seq::<Seq<char>>::empty() =~= seen);
            return;
        }
        let cut: usize = at - 1;
        let parent = text::slice_of(&v, 0, cut);
        assert(parent@ =~= rest.take(cut as int));
        assert(parent@ =~= target@.take(cut as int));
        if parent.as_str().is_empty() || text::eq(parent.as_str(), container_home) {
            assert(seen + Seq::<Seq<char>>::empty() =~= seen);
            return;
        }
        if !is_dominated(parent.as_str(), targets) {
            let ghost pv = parent@;
            insert_sorted(out, parent);
            proof {
                let tail = ancestor_chain(pv, tv, container_home@);
                assert(seen + (seq![pv] + tail) =~= seen.push(pv) + tail);
                assert(seen.push(pv).drop_last() =~= seen);
                seen = seen.push(pv);
            }
        }
        n = cut;
    }
}

/// Lexical ancestor candidates for mountpoint preparation
/// (non-authoritative).
///
/// Unions every target's ancestor chain, stopping at the tmpfs home or `/`
/// (whichever comes first): the walk never ascends above the home for
/// under-home targets. Drops paths equal to any bind target or beneath one;
/// subtrees of the tmpfs home stay eligible, as container-ephemeral, where no
/// bind target dominates them.
/// Sorted and de-duplicated for stable exec argv. Authority is decided per
/// candidate at runtime (see [`preparation_authorized`]).
#[must_use]
pub fn preparation_candidates(targets: &[String], container_home: &str) -> (out: Vec<String>)
    ensures
        out.deep_view() == candidates(targets.deep_view(), container_home@),
{
    let ghost tv = targets.deep_view();
    let mut out: Vec<String> = Vec::new();
    let mut k: usize = 0;
    assert(tv.take(0) =~= Seq::<Seq<char>>::empty());
    assert(out.deep_view() =~= ascending(collected(tv.take(0), tv, container_home@)));
    while k < targets.len()
        invariant
            tv == targets.deep_view(),
            k <= targets@.len(),
            out.deep_view() == ascending(collected(tv.take(k as int), tv, container_home@)),
        decreases targets.len() - k,
    {
        assert(tv.take(k + 1).drop_last() =~= tv.take(k as int));
        assert(tv.take(k + 1).last() == targets@[k as int]@);
        if crate::path::absolute(targets[k].as_str()) {
            collect_chain(
                &mut out,
                targets[k].as_str(),
                targets,
                container_home,
                Ghost(collected(tv.take(k as int), tv, container_home@)),
            );
        }
        k = k + 1;
    }
    assert(tv.take(k as int) =~= tv);
    out
}

/// Whether a resolved path may be prepared: not the root, and neither equal
/// to a bind target nor beneath one.
pub open spec fn authorized(resolved: Seq<char>, binds: Seq<Seq<char>>) -> bool {
    resolved != "/"@ && !dominated(resolved, binds)
}

/// Authorization predicate for one fully-resolved candidate.
///
/// Denies `/`, anything equal to a bind target, and anything beneath a bind
/// target, which overrides tmpfs-home eligibility, so a home-lexical path
/// resolving into a bind mount is refused. Everything else is eligible.
#[must_use]
pub fn preparation_authorized(resolved: &str, bind_targets: &[String]) -> (b: bool)
    ensures
        b == authorized(resolved@, bind_targets.deep_view()),
{
    !text::eq(resolved, "/") && !is_dominated(resolved, bind_targets)
}

// ---------------------------------------------------------------------
// Laws of candidates
// ---------------------------------------------------------------------

/// Whether the texts ascend, none twice.
pub open spec fn strictly_ascending(s: Seq<Seq<char>>) -> bool {
    forall|i: int, j: int|
        #![trigger s[i], s[j]]
        0 <= i < j < s.len() ==> text::lex_le(s[i], s[j]) && s[i] != s[j]
}

proof fn lemma_insert_unique(s: Seq<Seq<char>>, x: Seq<char>)
    requires
        strictly_ascending(s),
    ensures
        strictly_ascending(insert_unique(s, x)),
        forall|y: Seq<char>|
            #![trigger insert_unique(s, x).contains(y)]
            insert_unique(s, x).contains(y) <==> (s.contains(y) || y == x),
    decreases s.len(),
{
    let r = insert_unique(s, x);
    if s.len() == 0 {
        assert forall|y: Seq<char>|
            #![trigger r.contains(y)]
            r.contains(y) <==> (s.contains(y) || y == x) by {
            assert(r[0] == x);
        }
    } else if s.last() == x {
        assert(s[s.len() - 1] == x);
    } else if text::lex_le(s.last(), x) {
        assert forall|i: int, j: int|
            #![trigger r[i], r[j]]
            0 <= i < j < r.len() implies text::lex_le(r[i], r[j]) && r[i] != r[j] by {
            if j < s.len() {
                assert(r[i] == s[i] && r[j] == s[j]);
            } else {
                assert(r[i] == s[i] && r[j] == x);
                assert(s.last() == s[s.len() - 1]);
                if i < s.len() - 1 {
                    text::lemma_lex_le_trans(s[i], s[s.len() - 1], x);
                    if s[i] == x {
                        text::lemma_lex_le_antisym(s[i], s[s.len() - 1]);
                    }
                }
            }
        }
        assert forall|y: Seq<char>|
            #![trigger r.contains(y)]
            r.contains(y) <==> (s.contains(y) || y == x) by {
            if s.contains(y) {
                let k = choose|k: int| 0 <= k < s.len() && s[k] == y;
                assert(r[k] == y);
            }
            if y == x {
                assert(r[s.len() as int] == x);
            }
            if r.contains(y) {
                let k = choose|k: int| 0 <= k < r.len() && r[k] == y;
                if k < s.len() {
                    assert(s[k] == y);
                }
            }
        }
    } else {
        let t = s.drop_last();
        assert forall|i: int, j: int|
            #![trigger t[i], t[j]]
            0 <= i < j < t.len() implies text::lex_le(t[i], t[j]) && t[i] != t[j] by {
            assert(t[i] == s[i] && t[j] == s[j]);
        }
        lemma_insert_unique(t, x);
        let q = insert_unique(t, x);
        text::lemma_lex_le_total(s.last(), x);
        assert forall|i: int, j: int|
            #![trigger r[i], r[j]]
            0 <= i < j < r.len() implies text::lex_le(r[i], r[j]) && r[i] != r[j] by {
            if j == q.len() {
                assert(r[i] == q[i] && r[j] == s[s.len() - 1]);
                assert(q.contains(q[i]));
                if q[i] == x {
                    assert(text::lex_le(x, s[s.len() - 1]) && x != s[s.len() - 1]);
                } else {
                    assert(t.contains(q[i]));
                    let k = choose|k: int| 0 <= k < t.len() && t[k] == q[i];
                    let last = s.len() - 1;
                    assert(0 <= k < last < s.len());
                    assert(text::lex_le(s[k], s[last]));
                    assert(s[k] != s[last]);
                    assert(s[k] == t[k]);
                }
            } else {
                assert(text::lex_le(q[i], q[j]) && q[i] != q[j]);
                assert(r[i] == q[i] && r[j] == q[j]);
            }
        }
        assert forall|y: Seq<char>|
            #![trigger r.contains(y)]
            r.contains(y) <==> (s.contains(y) || y == x) by {
            if r.contains(y) {
                let k = choose|k: int| 0 <= k < r.len() && r[k] == y;
                if k < q.len() {
                    assert(q.contains(y)) by {
                        assert(q[k] == y);
                    }
                    if t.contains(y) {
                        let m = choose|m: int| 0 <= m < t.len() && t[m] == y;
                        assert(s[m] == y);
                    }
                } else {
                    assert(s[s.len() - 1] == y);
                }
            }
            if s.contains(y) || y == x {
                if y == s.last() {
                    assert(r[q.len() as int] == y);
                } else {
                    if s.contains(y) {
                        let m = choose|m: int| 0 <= m < s.len() && s[m] == y;
                        assert(t[m] == y);
                    }
                    assert(q.contains(y));
                    let k = choose|k: int| 0 <= k < q.len() && q[k] == y;
                    assert(r[k] == y);
                }
            }
        }
    }
}

proof fn lemma_ascending(s: Seq<Seq<char>>)
    ensures
        strictly_ascending(ascending(s)),
        forall|y: Seq<char>|
            #![trigger ascending(s).contains(y)]
            ascending(s).contains(y) <==> s.contains(y),
    decreases s.len(),
{
    if s.len() > 0 {
        let t = s.drop_last();
        lemma_ascending(t);
        lemma_insert_unique(ascending(t), s.last());
        assert forall|y: Seq<char>|
            #![trigger ascending(s).contains(y)]
            ascending(s).contains(y) <==> s.contains(y) by {
            assert(ascending(s).contains(y) <==> (ascending(t).contains(y) || y == s.last()));
            if s.contains(y) {
                let k = choose|k: int| 0 <= k < s.len() && s[k] == y;
                if k < t.len() {
                    assert(t[k] == y);
                }
            }
            if t.contains(y) {
                let k = choose|k: int| 0 <= k < t.len() && t[k] == y;
                assert(s[k] == y);
            }
            if y == s.last() {
                assert(s[s.len() - 1] == y);
            }
        }
    }
}

/// What holds of every member of an ancestor chain.
proof fn lemma_chain(rest: Seq<char>, targets: Seq<Seq<char>>, home: Seq<char>, i: int)
    requires
        0 <= i < ancestor_chain(rest, targets, home).len(),
    ensures
        ({
            let c = ancestor_chain(rest, targets, home)[i];
            &&& c.len() > 0
            &&& c != home
            &&& !dominated(c, targets)
            &&& beneath(rest, c)
            &&& beneath(rest, home) ==> beneath(c, home)
        }),
    decreases rest.len(),
{
    crate::path::lemma_slash();
    lemma_last_slash(rest);
    let at = last_slash(rest);
    let parent = rest.take(at);
    assert(rest[at] == '/');
    assert((parent + "/"@) =~= rest.subrange(0, at + 1));
    assert(beneath(rest, parent));
    if beneath(rest, home) {
        let n = home.len() as int;
        let hs = home + "/"@;
        assert(hs =~= rest.subrange(0, n + 1));
        assert(rest[n] == hs[n]);
        lemma_last_slash_is_last(rest, n);
        if at == n {
            assert(parent =~= home) by {
                assert(home =~= hs.take(n));
            }
        }
        assert(hs =~= parent.subrange(0, n + 1));
        assert(beneath(parent, home));
    }
    let tail = ancestor_chain(parent, targets, home);
    let c = ancestor_chain(rest, targets, home)[i];
    if dominated(parent, targets) {
        lemma_chain(parent, targets, home, i);
        lemma_beneath_trans(rest, parent, c);
    } else if i > 0 {
        assert(c == tail[i - 1]);
        lemma_chain(parent, targets, home, i - 1);
        lemma_beneath_trans(rest, parent, c);
    } else {
        assert(c == parent);
    }
}

proof fn lemma_beneath_trans(a: Seq<char>, b: Seq<char>, c: Seq<char>)
    requires
        beneath(a, b),
        beneath(b, c),
    ensures
        beneath(a, c),
{
    let bs = b + "/"@;
    let cs = c + "/"@;
    assert(cs =~= a.subrange(0, cs.len() as int)) by {
        assert(bs =~= a.subrange(0, bs.len() as int));
        assert(cs =~= b.subrange(0, cs.len() as int));
        assert forall|i: int| 0 <= i < cs.len() implies cs[i] == a[i] by {
            assert(b.subrange(0, cs.len() as int)[i] == b[i]);
            assert(a.subrange(0, bs.len() as int)[i] == a[i]);
            assert(bs[i] == b[i]);
        }
    }
}

proof fn lemma_collected(
    todo: Seq<Seq<char>>,
    targets: Seq<Seq<char>>,
    home: Seq<char>,
    c: Seq<char>,
)
    requires
        collected(todo, targets, home).contains(c),
    ensures
        c.len() > 0,
        c != home,
        !dominated(c, targets),
        exists|k: int| 0 <= k < todo.len() && offers(#[trigger] todo[k], home, c),
    decreases todo.len(),
{
    let all = collected(todo, targets, home);
    let i = choose|i: int| 0 <= i < all.len() && all[i] == c;
    let t = todo.drop_last();
    let before = collected(t, targets, home);
    if i < before.len() {
        assert(before[i] == c);
        lemma_collected(t, targets, home, c);
        let k = choose|k: int| 0 <= k < t.len() && offers(#[trigger] t[k], home, c);
        assert(todo[k] == t[k]);
    } else {
        let chain = ancestor_chain(todo.last(), targets, home);
        assert(chain[i - before.len()] == c);
        lemma_chain(todo.last(), targets, home, i - before.len());
        assert(offers(todo[todo.len() - 1], home, c));
    }
}

/// Candidates stand in ascending order, each once.
pub proof fn law_candidates_ascend(targets: Seq<Seq<char>>, home: Seq<char>, i: int, j: int)
    requires
        0 <= i < j < candidates(targets, home).len(),
    ensures
        text::lex_le(candidates(targets, home)[i], candidates(targets, home)[j]),
        candidates(targets, home)[i] != candidates(targets, home)[j],
{
    lemma_ascending(collected(targets, targets, home));
}

/// Whether a path is an ancestor of an absolute target, and below the home
/// where the target is.
pub open spec fn offers(target: Seq<char>, home: Seq<char>, c: Seq<char>) -> bool {
    &&& crate::path::is_absolute(target)
    &&& beneath(target, c)
    &&& beneath(target, home) ==> beneath(c, home)
}

/// No candidate is empty, the home, a bind target or beneath one, and each
/// is an ancestor of some absolute target, below the home where that target
/// is.
pub proof fn law_candidates_are_free_ancestors(targets: Seq<Seq<char>>, home: Seq<char>, i: int)
    requires
        0 <= i < candidates(targets, home).len(),
    ensures
        ({
            let c = candidates(targets, home)[i];
            &&& c.len() > 0
            &&& c != home
            &&& !dominated(c, targets)
            &&& exists|k: int| 0 <= k < targets.len() && offers(#[trigger] targets[k], home, c)
        }),
{
    let all = collected(targets, targets, home);
    lemma_ascending(all);
    let c = candidates(targets, home)[i];
    assert(ascending(all).contains(c));
    lemma_collected(targets, targets, home, c);
}

proof fn lemma_last_slash_is_last(s: Seq<char>, i: int)
    requires
        0 <= i < s.len(),
        s[i] == '/',
    ensures
        last_slash(s) >= i,
    decreases s.len(),
{
    if s.last() != '/' {
        lemma_last_slash_is_last(s.drop_last(), i);
    }
}

proof fn lemma_chain_holds(
    rest: Seq<char>,
    targets: Seq<Seq<char>>,
    home: Seq<char>,
    c: Seq<char>,
)
    requires
        c.len() > 0,
        beneath(rest, c),
        !dominated(c, targets),
        beneath(rest, home) ==> beneath(c, home),
    ensures
        ancestor_chain(rest, targets, home).contains(c),
    decreases rest.len(),
{
    crate::path::lemma_slash();
    lemma_last_slash(rest);
    let n = c.len() as int;
    let cs = c + "/"@;
    assert(cs =~= rest.subrange(0, n + 1));
    assert(rest[n] == cs[n]);
    lemma_last_slash_is_last(rest, n);
    let at = last_slash(rest);
    let parent = rest.take(at);
    assert((parent + "/"@) =~= rest.subrange(0, at + 1));
    assert(beneath(rest, parent));
    assert(c =~= rest.take(n)) by {
        assert(c =~= cs.take(n));
    }
    if parent == home {
        assert(beneath(c, home));
        assert(c.len() > home.len());
    }
    let tail = ancestor_chain(parent, targets, home);
    let chain = ancestor_chain(rest, targets, home);
    if n == at {
        assert(chain[0] == c);
    } else {
        assert(cs =~= parent.subrange(0, n + 1));
        if beneath(parent, home) {
            lemma_beneath_trans(rest, parent, home);
        }
        lemma_chain_holds(parent, targets, home, c);
        let i = choose|i: int| 0 <= i < tail.len() && tail[i] == c;
        if dominated(parent, targets) {
            assert(chain[i] == c);
        } else {
            assert(chain[i + 1] == c);
        }
    }
}

proof fn lemma_collects(
    todo: Seq<Seq<char>>,
    targets: Seq<Seq<char>>,
    home: Seq<char>,
    k: int,
    c: Seq<char>,
)
    requires
        0 <= k < todo.len(),
        crate::path::is_absolute(todo[k]),
        ancestor_chain(todo[k], targets, home).contains(c),
    ensures
        collected(todo, targets, home).contains(c),
    decreases todo.len(),
{
    let t = todo.drop_last();
    let before = collected(t, targets, home);
    let all = collected(todo, targets, home);
    if k < t.len() {
        assert(t[k] == todo[k]);
        lemma_collects(t, targets, home, k, c);
        let i = choose|i: int| 0 <= i < before.len() && before[i] == c;
        assert(all[i] == c);
    } else {
        let chain = ancestor_chain(todo.last(), targets, home);
        let i = choose|i: int| 0 <= i < chain.len() && chain[i] == c;
        assert(all[before.len() + i] == c);
    }
}

/// Every ancestor of an absolute target that no target dominates is a
/// candidate; of a target under the home, every one below the home.
pub proof fn law_free_ancestors_are_candidates(
    targets: Seq<Seq<char>>,
    home: Seq<char>,
    k: int,
    c: Seq<char>,
)
    requires
        0 <= k < targets.len(),
        c.len() > 0,
        offers(targets[k], home, c),
        !dominated(c, targets),
    ensures
        candidates(targets, home).contains(c),
{
    lemma_chain_holds(targets[k], targets, home, c);
    lemma_collects(targets, targets, home, k, c);
    lemma_ascending(collected(targets, targets, home));
    assert(ascending(collected(targets, targets, home)).contains(c));
}

// ---------------------------------------------------------------------
// Steps
// ---------------------------------------------------------------------

/// Pairs of `uid name` lines: name to uid.
pub open spec fn stat_pairs(lines: Seq<Seq<char>>) -> Seq<(Seq<char>, Seq<char>)>
    decreases lines.len(),
{
    if lines.len() == 0 {
        Seq::empty()
    } else {
        let line = lines.last();
        let at = text::first_index(line, ' ');
        if line.contains(' ') {
            stat_pairs(lines.drop_last()).push((line.skip(at + 1), line.take(at)))
        } else {
            stat_pairs(lines.drop_last())
        }
    }
}

/// Parses `stat -c '%u %n'` output into name to uid: uid first so names
/// with spaces survive. Missing paths simply have no entry; of two lines
/// with the same name the later one counts.
#[must_use]
pub fn parse_stat_map(output: &str) -> (map: Vec<(String, String)>)
    ensures
        map.deep_view() == table::latest(stat_pairs(text::lines_of(output@))),
{
    let lines = text::lines(output);
    let ghost all = text::lines_of(output@);
    let mut map: Vec<(String, String)> = Vec::new();
    let mut k: usize = 0;
    assert(all.take(0) =~= Seq::<Seq<char>>::empty());
    assert(map.deep_view() =~= table::latest(stat_pairs(all.take(0))));
    while k < lines.len()
        invariant
            lines.deep_view() == all,
            k <= lines@.len(),
            map.deep_view() == table::latest(stat_pairs(all.take(k as int))),
        decreases lines.len() - k,
    {
        let ghost before = stat_pairs(all.take(k as int));
        assert(all.take(k + 1).drop_last() =~= all.take(k as int));
        assert(all.take(k + 1).last() == lines@[k as int]@);
        match text::split_once(lines[k].as_str(), ' ') {
            Some(p) => {
                assert(before.push((p.1@, p.0@)).drop_last() =~= before);
                table::set(&mut map, p.1.as_str(), p.0.as_str());
            },
            None => {},
        }
        k = k + 1;
    }
    assert(all.take(k as int) =~= all);
    map
}

/// `podman exec` argv: `user` pins `--user`; the paths among `args` follow
/// `--`, never through a shell.
pub open spec fn exec_argv(
    container: Seq<char>,
    user: Option<Seq<char>>,
    cmd: Seq<char>,
    args: Seq<Seq<char>>,
) -> Seq<Seq<char>> {
    (match user {
        Some(u) => seq!["exec"@, "--user"@, u],
        None => seq!["exec"@],
    }) + seq![container, cmd] + args
}

/// Builds the `podman exec` argv: `user` pins `--user` (setup mutations run
/// as root; probes run as the default seat user so they observe exactly
/// what the seat observes).
pub fn podman_exec_argv(
    container: &str,
    user: Option<&str>,
    cmd: &str,
    args: &[String],
) -> (argv: Vec<String>)
    ensures
        argv.deep_view() == exec_argv(container@, user.deep_view(), cmd@, args.deep_view()),
{
    let mut argv: Vec<String> = Vec::new();
    argv.push("exec".to_owned());
    match user {
        Some(u) => {
            argv.push("--user".to_owned());
            argv.push(u.to_owned());
            assert(argv.deep_view() =~= seq!["exec"@, "--user"@, u@]);
        },
        None => {
            assert(argv.deep_view() =~= seq!["exec"@]);
        },
    }
    let ghost head = argv.deep_view();
    argv.push(container.to_owned());
    argv.push(cmd.to_owned());
    assert(argv.deep_view() =~= head + seq![container@, cmd@]);
    transport::push_all(&mut argv, args);
    argv
}

/// The refusal of a preparation exec that exited nonzero, with its trimmed
/// diagnostics.
pub fn exec_failure(cmd: &str, stderr: &str) -> (e: CistellaError)
    ensures
        e@ == ErrorView::Runtime(
            "podman exec "@ + cmd@ + " failed: "@ + text::trimmed(stderr@),
        ),
{
    CistellaError::Runtime(
        text::cat4("podman exec ", cmd, " failed: ", text::trim(stderr).as_str()),
    )
}

/// Which exec a preparation waits for.
#[derive(Debug)]
pub enum Stage {
    /// `id -u`, as the seat user.
    SeatUid,
    /// `realpath -m` of candidates and binds, as the seat user.
    Resolve {
        /// The seat's uid.
        uid: u32,
    },
    /// `mkdir -p` of the authorized paths, as root.
    Make {
        /// The seat's uid.
        uid: u32,
        /// Authorized paths.
        authorized: Vec<String>,
    },
    /// `stat` of the authorized paths, as root.
    Owners {
        /// The seat's uid.
        uid: u32,
        /// Authorized paths.
        authorized: Vec<String>,
    },
    /// `chown` of the root-owned paths, as root.
    Converge,
}

/// What a stage says.
pub enum StageView {
    SeatUid,
    Resolve(u32),
    Make(u32, Seq<Seq<char>>),
    Owners(u32, Seq<Seq<char>>),
    Converge,
}

impl DeepView for Stage {
    type V = StageView;

    open spec fn deep_view(&self) -> StageView {
        match *self {
            Stage::SeatUid => StageView::SeatUid,
            Stage::Resolve { uid } => StageView::Resolve(uid),
            Stage::Make { uid, authorized } => StageView::Make(uid, authorized.deep_view()),
            Stage::Owners { uid, authorized } => StageView::Owners(uid, authorized.deep_view()),
            Stage::Converge => StageView::Converge,
        }
    }
}

/// One bounded exec that a preparation asks for, with the stage it belongs
/// to.
#[derive(Debug)]
pub struct ExecStep {
    /// Stage that the exec's output settles.
    pub stage: Stage,
    /// Command name, for the refusal of a failed exec.
    pub cmd: &'static str,
    /// Full `podman` argv.
    pub argv: Vec<String>,
}

/// What an exec step says.
pub struct StepView {
    pub stage: StageView,
    pub cmd: Seq<char>,
    pub argv: Seq<Seq<char>>,
}

impl DeepView for ExecStep {
    type V = StepView;

    open spec fn deep_view(&self) -> StepView {
        StepView {
            stage: self.stage.deep_view(),
            cmd: self.cmd@,
            argv: self.argv.deep_view(),
        }
    }
}

/// First step of a preparation; none when nothing is to be prepared.
pub open spec fn first_step(container: Seq<char>, sources: Seq<Seq<char>>, home: Seq<char>) -> Option<
    StepView,
> {
    if candidates(sources, home).len() == 0 {
        None
    } else {
        Some(
            StepView {
                stage: StageView::SeatUid,
                cmd: "id"@,
                argv: exec_argv(container, None, "id"@, seq!["-u"@]),
            },
        )
    }
}

/// Value of decimal digits, or none when a character is no digit.
pub open spec fn digits_value(s: Seq<char>) -> Option<nat>
    decreases s.len(),
{
    if s.len() == 0 {
        Some(0)
    } else if !('0' <= s.last() <= '9') {
        None
    } else {
        match digits_value(s.drop_last()) {
            None => None,
            Some(n) => Some((n * 10 + (s.last() as int - '0' as int)) as nat),
        }
    }
}

/// A decimal number of at most `max`, with an optional leading `+`.
pub open spec fn parsed_decimal(s: Seq<char>, max: nat) -> Option<nat> {
    let digits = if s.len() > 0 && s[0] == '+' {
        s.skip(1)
    } else {
        s
    };
    if digits.len() == 0 {
        None
    } else {
        match digits_value(digits) {
            Some(n) => if n <= max {
                Some(n)
            } else {
                None
            },
            None => None,
        }
    }
}

proof fn lemma_digits_prefix(s: Seq<char>, k: int)
    requires
        0 <= k <= s.len(),
        digits_value(s) is Some,
    ensures
        digits_value(s.take(k)) is Some,
        digits_value(s.take(k))->0 <= digits_value(s)->0,
    decreases s.len(),
{
    if k < s.len() {
        lemma_digits_prefix(s.drop_last(), k);
        assert(s.drop_last().take(k) =~= s.take(k));
    } else {
        assert(s.take(k) =~= s);
    }
}

/// Parses a decimal number of at most `max`.
pub fn parse_decimal(s: &str, max: u64) -> (r: Option<u64>)
    ensures
        match r {
            Some(n) => parsed_decimal(s@, max as nat) == Some(n as nat),
            None => parsed_decimal(s@, max as nat) is None,
        },
{
    let v = text::chars_of(s);
    let start: usize = if v.len() > 0 && v[0] == '+' {
        1
    } else {
        0
    };
    let ghost digits = if s@.len() > 0 && s@[0] == '+' {
        s@.skip(1)
    } else {
        s@
    };
    assert(digits =~= s@.skip(start as int));
    if start == v.len() {
        return None;
    }
    let mut n: u128 = 0;
    let mut i: usize = start;
    assert(digits.take(0) =~= Seq::<char>::empty());
    while i < v.len()
        invariant
            v@ == s@,
            start <= i <= v@.len(),
            start < v@.len(),
            digits == s@.skip(start as int),
            parsed_decimal(s@, max as nat) == (match digits_value(digits) {
                Some(m) => if m <= max {
                    Some(m)
                } else {
                    None
                },
                None => None,
            }),
            digits_value(digits.take(i - start)) == Some(n as nat),
            n <= max,
        decreases v.len() - i,
    {
        let c = v[i];
        let ghost k = i - start;
        assert(digits.take(k + 1).drop_last() =~= digits.take(k));
        assert(digits.take(k + 1).last() == c);
        if !('0' <= c && c <= '9') {
            proof {
                if digits_value(digits) is Some {
                    lemma_digits_prefix(digits, k + 1);
                }
            }
            return None;
        }
        n = n * 10 + (c as u128 - '0' as u128);
        if n > max as u128 {
            proof {
                if digits_value(digits) is Some {
                    lemma_digits_prefix(digits, k + 1);
                }
            }
            return None;
        }
        i = i + 1;
    }
    assert(digits.take(i - start) =~= digits);
    Some(n as u64)
}

/// The refusal of an exec that outlived its bound.
pub fn deadline_error(program: &str, ms: u64) -> (e: CistellaError)
    ensures
        e@ == ErrorView::Runtime(
            program@ + " exceeded "@ + text::dec(ms as nat) + "ms deadline"@,
        ),
{
    CistellaError::Runtime(
        text::cat4(program, " exceeded ", text::dec_u64(ms).as_str(), "ms deadline"),
    )
}

/// Bound of each preparation exec, in milliseconds: an override that is a
/// number, else 30 seconds.
pub fn prepare_timeout(over: Option<&str>) -> (ms: u64)
    ensures
        ms == (match over {
            Some(s) => match parsed_decimal(s@, u64::MAX as nat) {
                Some(n) => n as int,
                None => 30_000,
            },
            None => 30_000,
        }),
{
    match over {
        Some(s) => match parse_decimal(s, u64::MAX) {
            Some(n) => n,
            None => 30_000,
        },
        None => 30_000,
    }
}

/// A text as `format!("{:?}")` renders it: quoted and escaped.
pub uninterp spec fn debug_text(s: Seq<char>) -> Seq<char>;

/// The `Debug` rendering of a text by std's `format!`.
#[verifier::external_body]
fn debug_of(s: &str) -> (r: String)
    ensures
        r@ == debug_text(s@),
{
    format!("{s:?}")
}

/// Resolve step for a seat uid.
pub open spec fn resolve_step(
    container: Seq<char>,
    uid: u32,
    cands: Seq<Seq<char>>,
    binds: Seq<Seq<char>>,
) -> StepView {
    StepView {
        stage: StageView::Resolve(uid),
        cmd: "realpath"@,
        argv: exec_argv(container, None, "realpath"@, seq!["-m"@, "--"@] + cands + binds),
    }
}

/// First resolved bind that a path equals or lies beneath, at or after `k`.
pub open spec fn offender(path: Seq<char>, binds: Seq<Seq<char>>, k: int) -> Seq<char>
    decreases binds.len() - k,
{
    if k < 0 || k >= binds.len() {
        "<unresolvable>"@
    } else if path == binds[k] || beneath(path, binds[k]) {
        binds[k]
    } else {
        offender(path, binds, k + 1)
    }
}

/// First resolved candidate at or after `k` that may not be prepared.
pub open spec fn first_refused(cands: Seq<Seq<char>>, binds: Seq<Seq<char>>, k: int) -> Option<
    ErrorView,
>
    decreases cands.len() - k,
{
    if k < 0 || k >= cands.len() {
        None
    } else if authorized(cands[k], binds) {
        first_refused(cands, binds, k + 1)
    } else {
        Some(
            ErrorView::Runtime(
                "preparation refused: "@ + cands[k] + " resolves beneath bind mount "@ + offender(
                    cands[k],
                    binds,
                    0,
                ),
            ),
        )
    }
}

/// Paths that root owns, of those stated.
pub open spec fn root_owned(
    authorized: Seq<Seq<char>>,
    owners: Seq<(Seq<char>, Seq<char>)>,
) -> Seq<Seq<char>>
    decreases authorized.len(),
{
    if authorized.len() == 0 {
        Seq::empty()
    } else {
        let head = root_owned(authorized.drop_last(), owners);
        if table::lookup(owners, authorized.last(), 0) == Some("0"@) {
            head.push(authorized.last())
        } else {
            head
        }
    }
}

/// What follows a stage whose exec printed `stdout`: the next step, the end
/// of the preparation, or a refusal.
pub open spec fn next_step(
    stage: StageView,
    stdout: Seq<char>,
    container: Seq<char>,
    cands: Seq<Seq<char>>,
    binds: Seq<Seq<char>>,
) -> std::result::Result<Option<StepView>, ErrorView> {
    match stage {
        StageView::SeatUid => match parsed_decimal(text::trimmed(stdout), u32::MAX as nat) {
            None => Err(
                ErrorView::Runtime("seat uid not a single integer: "@ + debug_text(stdout)),
            ),
            Some(uid) => Ok(Some(resolve_step(container, uid as u32, cands, binds))),
        },
        StageView::Resolve(uid) => {
            let resolved = text::lines_of(stdout);
            if resolved.len() != cands.len() + binds.len() {
                Err(
                    ErrorView::Runtime(
                        "realpath returned "@ + text::dec(resolved.len()) + " lines for "@
                            + text::dec(cands.len() + binds.len()) + " paths"@,
                    ),
                )
            } else {
                let rc = resolved.take(cands.len() as int);
                let rb = resolved.skip(cands.len() as int);
                match first_refused(rc, rb, 0) {
                    Some(e) => Err(e),
                    None => if rc.len() == 0 {
                        Ok(None)
                    } else {
                        Ok(
                            Some(
                                StepView {
                                    stage: StageView::Make(uid, rc),
                                    cmd: "mkdir"@,
                                    argv: exec_argv(
                                        container,
                                        Some("root"@),
                                        "mkdir"@,
                                        seq!["-p"@, "--"@] + rc,
                                    ),
                                },
                            ),
                        )
                    },
                }
            }
        },
        StageView::Make(uid, authorized) => Ok(
            Some(
                StepView {
                    stage: StageView::Owners(uid, authorized),
                    cmd: "stat"@,
                    argv: exec_argv(
                        container,
                        Some("root"@),
                        "stat"@,
                        seq!["-c"@, "%u %n"@, "--"@] + authorized,
                    ),
                },
            ),
        ),
        StageView::Owners(uid, authorized) => {
            let owners = table::latest(stat_pairs(text::lines_of(stdout)));
            let owned = root_owned(authorized, owners);
            if owned.len() == 0 {
                Ok(None)
            } else {
                Ok(
                    Some(
                        StepView {
                            stage: StageView::Converge,
                            cmd: "chown"@,
                            argv: exec_argv(
                                container,
                                Some("root"@),
                                "chown"@,
                                seq![text::dec(uid as nat), "--"@] + owned,
                            ),
                        },
                    ),
                )
            }
        },
        StageView::Converge => Ok(None),
    }
}

/// One preparation of mountpoint parents after start, before harness
/// attach.
#[derive(Debug)]
pub struct Preparation {
    container: String,
    candidates: Vec<String>,
    binds: Vec<String>,
}

impl Preparation {
    /// Container that is prepared.
    pub closed spec fn container(&self) -> Seq<char> {
        self.container@
    }

    /// Lexical candidates.
    pub closed spec fn cands(&self) -> Seq<Seq<char>> {
        self.candidates.deep_view()
    }

    /// The complete emitted bind set.
    pub closed spec fn bind_set(&self) -> Seq<Seq<char>> {
        self.binds.deep_view()
    }
}

/// Begins the preparation of mountpoint parents.
///
/// `sources` seeds lexical candidates (user mounts only); `binds` is the
/// complete emitted bind set authorizing them. Each step is one bounded
/// `podman exec` (worst case five: uid, resolve, mkdir, stat, conditional
/// chown); its output goes to [`Preparation::resume`]. Without candidates
/// there is nothing to do.
pub fn prepare_mountpoints(
    container: &str,
    sources: &[String],
    binds: &[String],
    container_home: &str,
) -> (r: (Preparation, Option<ExecStep>))
    ensures
        r.0.container() == container@,
        r.0.cands() == candidates(sources.deep_view(), container_home@),
        r.0.bind_set() == binds.deep_view(),
        r.1.deep_view() == first_step(container@, sources.deep_view(), container_home@),
{
    let cands = preparation_candidates(sources, container_home);
    let mut bind_list: Vec<String> = Vec::new();
    let ghost e = bind_list.deep_view();
    transport::push_all(&mut bind_list, binds);
    assert(e + binds.deep_view() =~= binds.deep_view());
    let step = if cands.len() == 0 {
        None
    } else {
        let mut args: Vec<String> = Vec::new();
        args.push("-u".to_owned());
        assert(args.deep_view() =~= seq!["-u"@]);
        Some(
            ExecStep {
                stage: Stage::SeatUid,
                cmd: "id",
                argv: podman_exec_argv(container, None, "id", &args),
            },
        )
    };
    (
        Preparation { container: container.to_owned(), candidates: cands, binds: bind_list },
        step,
    )
}

fn find_offender(path: &str, binds: &[String]) -> (s: String)
    ensures
        s@ == offender(path@, binds.deep_view(), 0),
{
    let ghost all = binds.deep_view();
    let mut k: usize = 0;
    while k < binds.len()
        invariant
            all == binds.deep_view(),
            k <= binds@.len(),
            offender(path@, all, 0) == offender(path@, all, k as int),
        decreases binds.len() - k,
    {
        assert(all[k as int] == binds@[k as int]@);
        if text::eq(path, binds[k].as_str()) || is_beneath(path, binds[k].as_str()) {
            return binds[k].clone();
        }
        k = k + 1;
    }
    "<unresolvable>".to_owned()
}

fn check_authorized(cands: &[String], binds: &[String]) -> (r: Result<()>)
    ensures
        match first_refused(cands.deep_view(), binds.deep_view(), 0) {
            Some(e) => r matches Err(x) && x@ == e,
            None => r is Ok,
        },
{
    let ghost all = cands.deep_view();
    let ghost bv = binds.deep_view();
    let mut k: usize = 0;
    while k < cands.len()
        invariant
            all == cands.deep_view(),
            bv == binds.deep_view(),
            k <= cands@.len(),
            first_refused(all, bv, 0) == first_refused(all, bv, k as int),
        decreases cands.len() - k,
    {
        assert(all[k as int] == cands@[k as int]@);
        let c = cands[k].as_str();
        if !preparation_authorized(c, binds) {
            return Err(
                CistellaError::Runtime(
                    text::cat4(
                        "preparation refused: ",
                        c,
                        " resolves beneath bind mount ",
                        find_offender(c, binds).as_str(),
                    ),
                ),
            );
        }
        k = k + 1;
    }
    Ok(())
}

fn copy_range(list: &Vec<String>, from: usize, to: usize) -> (out: Vec<String>)
    requires
        from <= to <= list@.len(),
    ensures
        out.deep_view() == list.deep_view().subrange(from as int, to as int),
{
    let ghost all = list.deep_view();
    let mut out: Vec<String> = Vec::new();
    let mut i: usize = from;
    while i < to
        invariant
            all == list.deep_view(),
            from <= i <= to <= list@.len(),
            out.deep_view() =~= all.subrange(from as int, i as int),
        decreases to - i,
    {
        let ghost before = out.deep_view();
        out.push(list[i].clone());
        assert(out.deep_view() =~= before.push(all[i as int]));
        i = i + 1;
    }
    out
}

fn pick_root_owned(authorized: &Vec<String>, owners: &Vec<(String, String)>) -> (out: Vec<String>)
    ensures
        out.deep_view() == root_owned(authorized.deep_view(), owners.deep_view()),
{
    let ghost all = authorized.deep_view();
    let ghost ov = owners.deep_view();
    let mut out: Vec<String> = Vec::new();
    let mut k: usize = 0;
    assert(all.take(0) =~= Seq::<Seq<char>>::empty());
    assert(out.deep_view() =~= root_owned(all.take(0), ov));
    while k < authorized.len()
        invariant
            all == authorized.deep_view(),
            ov == owners.deep_view(),
            k <= authorized@.len(),
            out.deep_view() == root_owned(all.take(k as int), ov),
        decreases authorized.len() - k,
    {
        let ghost before = out.deep_view();
        assert(all.take(k + 1).drop_last() =~= all.take(k as int));
        assert(all.take(k + 1).last() == authorized@[k as int]@);
        let owned = match table::lookup_text(owners, authorized[k].as_str()) {
            Some(uid) => text::eq(uid, "0"),
            None => false,
        };
        if owned {
            out.push(authorized[k].clone());
            assert(out.deep_view() =~= before.push(all[k as int]));
        }
        k = k + 1;
    }
    assert(all.take(k as int) =~= all);
    out
}

/// Arguments `a`, `b`, then the paths.
fn args_then(a: &str, b: &str, paths: &Vec<String>) -> (args: Vec<String>)
    ensures
        args.deep_view() == seq![a@, b@] + paths.deep_view(),
{
    let mut args: Vec<String> = Vec::new();
    args.push(a.to_owned());
    args.push(b.to_owned());
    assert(args.deep_view() =~= seq![a@, b@]);
    transport::push_all(&mut args, paths);
    args
}

impl Preparation {
    /// Settles the output of one exec and decides what follows.
    ///
    /// Candidates and binds resolve in one batch and are authorized
    /// resolved-against-resolved, so image-baked symlink components in bind
    /// targets cannot hide a host-backed path; a candidate that resolves
    /// beneath a bind fails closed before any `mkdir` or `chown`. Only the
    /// root-owned subset is chowned.
    pub fn resume(&self, stage: Stage, stdout: &str) -> (r: Result<Option<ExecStep>>)
        ensures
            crate::error::agrees(
                r,
                next_step(
                    stage.deep_view(),
                    stdout@,
                    self.container(),
                    self.cands(),
                    self.bind_set(),
                ),
            ),
    {
        let container = self.container.as_str();
        match stage {
            Stage::SeatUid => {
                let trimmed = text::trim(stdout);
                match parse_decimal(trimmed.as_str(), u32::MAX as u64) {
                    None => Err(
                        CistellaError::Runtime(
                            text::cat("seat uid not a single integer: ", debug_of(stdout).as_str()),
                        ),
                    ),
                    Some(n) => {
                        let uid = n as u32;
                        let mut args = args_then("-m", "--", &self.candidates);
                        transport::push_all(&mut args, &self.binds);
                        Ok(
                            Some(
                                ExecStep {
                                    stage: Stage::Resolve { uid },
                                    cmd: "realpath",
                                    argv: podman_exec_argv(container, None, "realpath", &args),
                                },
                            ),
                        )
                    },
                }
            },
            Stage::Resolve { uid } => {
                let resolved = text::lines(stdout);
                let n: usize = self.candidates.len();
                let total: u128 = n as u128 + self.binds.len() as u128;
                assert(resolved@.len() == text::lines_of(stdout@).len());
                assert(self.candidates@.len() == self.cands().len());
                assert(self.binds@.len() == self.bind_set().len());
                if resolved.len() as u128 != total {
                    return Err(
                        CistellaError::Runtime(
                            text::cat5(
                                "realpath returned ",
                                text::dec_u64(resolved.len() as u64).as_str(),
                                " lines for ",
                                dec_sum(n, self.binds.len()).as_str(),
                                " paths",
                            ),
                        ),
                    );
                }
                let cands = copy_range(&resolved, 0, n);
                let binds = copy_range(&resolved, n, resolved.len());
                assert(cands.deep_view() =~= text::lines_of(stdout@).take(n as int));
                assert(binds.deep_view() =~= text::lines_of(stdout@).skip(n as int));
                match check_authorized(&cands, &binds) {
                    Ok(_) => {},
                    Err(e) => {
                        return Err(e);
                    },
                }
                if cands.len() == 0 {
                    return Ok(None);
                }
                let args = args_then("-p", "--", &cands);
                Ok(
                    Some(
                        ExecStep {
                            stage: Stage::Make { uid, authorized: cands },
                            cmd: "mkdir",
                            argv: podman_exec_argv(container, Some("root"), "mkdir", &args),
                        },
                    ),
                )
            },
            Stage::Make { uid, authorized } => {
                let mut args: Vec<String> = Vec::new();
                args.push("-c".to_owned());
                args.push("%u %n".to_owned());
                args.push("--".to_owned());
                assert(args.deep_view() =~= seq!["-c"@, "%u %n"@, "--"@]);
                transport::push_all(&mut args, &authorized);
                Ok(
                    Some(
                        ExecStep {
                            stage: Stage::Owners { uid, authorized },
                            cmd: "stat",
                            argv: podman_exec_argv(container, Some("root"), "stat", &args),
                        },
                    ),
                )
            },
            Stage::Owners { uid, authorized } => {
                let owners = parse_stat_map(stdout);
                let owned = pick_root_owned(&authorized, &owners);
                if owned.len() == 0 {
                    return Ok(None);
                }
                let args = args_then(text::dec_u64(uid as u64).as_str(), "--", &owned);
                Ok(
                    Some(
                        ExecStep {
                            stage: Stage::Converge,
                            cmd: "chown",
                            argv: podman_exec_argv(container, Some("root"), "chown", &args),
                        },
                    ),
                )
            },
            Stage::Converge => Ok(None),
        }
    }
}

/// Decimal rendering of a sum of two lengths.
fn dec_sum(a: usize, b: usize) -> (s: String)
    ensures
        s@ == text::dec((a + b) as nat),
{
    match a.checked_add(b) {
        Some(n) => text::dec_u64(n as u64),
        None => {
            // Beyond the machine's range: split off the last digit.
            let x: u128 = a as u128 + b as u128;
            let mut s = text::dec_u64((x / 10) as u64);
            let d: u64 = (x % 10) as u64;
            let last = text::dec_u64(d);
            assert(text::dec((a + b) as nat) == text::dec(((a + b) / 10) as nat).push(
                text::digit_char(((a + b) % 10) as nat),
            ));
            assert(last@ =~= seq![text::digit_char(d as nat)]);
            s = text::cat(s.as_str(), last.as_str());
            s
        },
    }
}

proof fn lemma_first_refused(cands: Seq<Seq<char>>, binds: Seq<Seq<char>>, k: int, i: int)
    requires
        first_refused(cands, binds, k) is None,
        0 <= k <= i < cands.len(),
    ensures
        authorized(cands[i], binds),
    decreases cands.len() - k,
{
    if k < i {
        lemma_first_refused(cands, binds, k + 1, i);
    }
}

/// Nothing inside a bind mount is ever made or chowned: when a preparation
/// goes on past resolution, every path it makes is authorized against the
/// resolved binds.
pub proof fn law_prepared_paths_are_authorized(
    uid: u32,
    stdout: Seq<char>,
    container: Seq<char>,
    cands: Seq<Seq<char>>,
    binds: Seq<Seq<char>>,
    i: int,
)
    requires
        next_step(StageView::Resolve(uid), stdout, container, cands, binds) is Ok,
        0 <= i < cands.len(),
    ensures
        ({
            let resolved = text::lines_of(stdout);
            let binds_resolved = resolved.skip(cands.len() as int);
            &&& resolved.len() == cands.len() + binds.len()
            &&& authorized(resolved[i], binds_resolved)
        }),
{
    let resolved = text::lines_of(stdout);
    lemma_first_refused(
        resolved.take(cands.len() as int),
        resolved.skip(cands.len() as int),
        0,
        i,
    );
}

/// Only paths that root owns, of those made, are chowned.
pub proof fn law_only_root_owned_is_chowned(
    authorized: Seq<Seq<char>>,
    owners: Seq<(Seq<char>, Seq<char>)>,
    i: int,
)
    requires
        0 <= i < root_owned(authorized, owners).len(),
    ensures
        authorized.contains(root_owned(authorized, owners)[i]),
        table::lookup(owners, root_owned(authorized, owners)[i], 0) == Some("0"@),
    decreases authorized.len(),
{
    let t = authorized.drop_last();
    let before = root_owned(t, owners);
    let p = root_owned(authorized, owners)[i];
    if i < before.len() {
        law_only_root_owned_is_chowned(t, owners, i);
        assert(before[i] == p);
        let k = choose|k: int| 0 <= k < t.len() && t[k] == p;
        assert(authorized[k] == p);
    } else {
        assert(authorized[authorized.len() - 1] == p);
    }
}

// ---------------------------------------------------------------------
// What preparation touches and runs
// ---------------------------------------------------------------------

/// A candidate is no target, lies under none, is not the home, and leads to
/// an absolute target; where that target is under the home, so is the
/// candidate.
pub proof fn law_candidates_lead_to_targets(targets: Seq<Seq<char>>, home: Seq<char>, i: int)
    requires
        0 <= i < candidates(targets, home).len(),
    ensures
        ({
            let c = candidates(targets, home)[i];
            &&& c.len() > 0 && c != home
            &&& forall|k: int|
                0 <= k < targets.len() ==> c != #[trigger] targets[k] && !(targets[k]
                    + "/"@).is_prefix_of(c)
            &&& exists|k: int|
                0 <= k < targets.len() && (#[trigger] targets[k]).len() > 0 && targets[k][0] == '/'
                    && (c + "/"@).is_prefix_of(targets[k]) && ((home + "/"@).is_prefix_of(
                    targets[k],
                ) ==> (home + "/"@).is_prefix_of(c))
        }),
{
    law_candidates_are_free_ancestors(targets, home, i);
    let c = candidates(targets, home)[i];
    let k = choose|k: int| 0 <= k < targets.len() && offers(#[trigger] targets[k], home, c);
    assert(crate::path::is_absolute(targets[k]));
}

/// Every path that leads to an absolute target, lies at or under none, and
/// for a target under the home is under it too, is a candidate.
pub proof fn law_paths_to_targets_are_candidates(
    targets: Seq<Seq<char>>,
    home: Seq<char>,
    k: int,
    c: Seq<char>,
)
    requires
        0 <= k < targets.len(),
        targets[k].len() > 0 && targets[k][0] == '/',
        c.len() > 0,
        (c + "/"@).is_prefix_of(targets[k]),
        (home + "/"@).is_prefix_of(targets[k]) ==> (home + "/"@).is_prefix_of(c),
        forall|j: int|
            0 <= j < targets.len() ==> c != #[trigger] targets[j] && !(targets[j]
                + "/"@).is_prefix_of(c),
    ensures
        candidates(targets, home).contains(c),
{
    law_free_ancestors_are_candidates(targets, home, k, c);
}

/// A path may be prepared exactly when it is not the root, no bind target and
/// under none.
pub proof fn law_authorized_paths_avoid_binds(resolved: Seq<char>, binds: Seq<Seq<char>>)
    ensures
        authorized(resolved, binds) <==> resolved != "/"@ && forall|k: int|
            0 <= k < binds.len() ==> resolved != #[trigger] binds[k] && !(binds[k]
                + "/"@).is_prefix_of(resolved),
{
}

/// Preparation asks the container for its user, resolves every candidate and
/// bind, makes the candidates as root, reads their owners, and hands those of
/// root to the user.
pub proof fn law_preparation_runs_these_commands(
    container: Seq<char>,
    sources: Seq<Seq<char>>,
    home: Seq<char>,
    stdout: Seq<char>,
    cands: Seq<Seq<char>>,
    binds: Seq<Seq<char>>,
    uid: u32,
    paths: Seq<Seq<char>>,
)
    ensures
        first_step(container, sources, home) is Some <==> candidates(sources, home).len() > 0,
        first_step(container, sources, home) matches Some(s) ==> s.stage is SeatUid && s.argv
            == seq!["exec"@, container, "id"@, "-u"@],
        next_step(StageView::SeatUid, stdout, container, cands, binds) matches Ok(Some(s))
            ==> s.stage is Resolve && parsed_decimal(text::trimmed(stdout), 0xffff_ffff) == Some(
            s.stage->Resolve_0 as nat,
        ) && s.argv == seq!["exec"@, container, "realpath"@, "-m"@, "--"@] + cands + binds,
        next_step(StageView::SeatUid, stdout, container, cands, binds) is Err <==> parsed_decimal(
            text::trimmed(stdout),
            0xffff_ffff,
        ) is None,
        next_step(StageView::Resolve(uid), stdout, container, cands, binds) matches Ok(Some(s))
            ==> text::lines_of(stdout).len() == cands.len() + binds.len() && s.stage
            == StageView::Make(uid, text::lines_of(stdout).take(cands.len() as int)) && s.argv
            == seq!["exec"@, "--user"@, "root"@, container, "mkdir"@, "-p"@, "--"@]
            + text::lines_of(stdout).take(cands.len() as int),
        next_step(StageView::Make(uid, paths), stdout, container, cands, binds) matches Ok(Some(s))
            && s.stage == StageView::Owners(uid, paths) && s.argv == seq![
            "exec"@,
            "--user"@,
            "root"@,
            container,
            "stat"@,
            "-c"@,
            "%u %n"@,
            "--"@,
        ] + paths,
        next_step(StageView::Converge, stdout, container, cands, binds) == Ok::<
            Option<StepView>,
            ErrorView,
        >(None),
{
    let r = text::lines_of(stdout);
    assert(seq!["exec"@] + seq![container, "id"@] + seq!["-u"@] =~= seq![
        "exec"@,
        container,
        "id"@,
        "-u"@,
    ]);
    assert(seq!["exec"@] + seq![container, "realpath"@] + (seq!["-m"@, "--"@] + cands + binds) =~= seq![
        "exec"@,
        container,
        "realpath"@,
        "-m"@,
        "--"@,
    ] + cands + binds);
    assert(u32::MAX as nat == 0xffff_ffff);
    let rc = r.take(cands.len() as int);
    assert(seq!["exec"@, "--user"@, "root"@] + seq![container, "mkdir"@] + (seq!["-p"@, "--"@]
        + rc) =~= seq!["exec"@, "--user"@, "root"@, container, "mkdir"@, "-p"@, "--"@] + rc);
    assert(seq!["exec"@, "--user"@, "root"@] + seq![container, "stat"@] + (seq![
        "-c"@,
        "%u %n"@,
        "--"@,
    ] + paths) =~= seq![
        "exec"@,
        "--user"@,
        "root"@,
        container,
        "stat"@,
        "-c"@,
        "%u %n"@,
        "--"@,
    ] + paths);
}

/// Preparation stops at a path that resolves to the root, a bind target or
/// under one, and goes on where none does.
pub proof fn law_resolved_paths_go_on(
    uid: u32,
    stdout: Seq<char>,
    container: Seq<char>,
    cands: Seq<Seq<char>>,
    binds: Seq<Seq<char>>,
)
    requires
        text::lines_of(stdout).len() == cands.len() + binds.len(),
        cands.len() > 0,
    ensures
        next_step(StageView::Resolve(uid), stdout, container, cands, binds) matches Ok(Some(_))
            <==> forall|i: int|
            0 <= i < cands.len() ==> authorized(
                #[trigger] text::lines_of(stdout)[i],
                text::lines_of(stdout).skip(cands.len() as int),
            ),
{
    let r = text::lines_of(stdout);
    let rc = r.take(cands.len() as int);
    let rb = r.skip(cands.len() as int);
    if first_refused(rc, rb, 0) is None {
        assert forall|i: int| 0 <= i < cands.len() implies authorized(#[trigger] r[i], rb) by {
            lemma_first_refused(rc, rb, 0, i);
            assert(rc[i] == r[i]);
        }
    }
    if forall|i: int| 0 <= i < cands.len() ==> authorized(#[trigger] r[i], rb) {
        assert forall|i: int| 0 <= i < rc.len() implies authorized(#[trigger] rc[i], rb) by {
            assert(rc[i] == r[i]);
        }
        lemma_none_refused(rc, rb, 0);
    }
}

proof fn lemma_none_refused(cands: Seq<Seq<char>>, binds: Seq<Seq<char>>, k: int)
    requires
        0 <= k,
        forall|i: int| 0 <= i < cands.len() ==> authorized(#[trigger] cands[i], binds),
    ensures
        first_refused(cands, binds, k) is None,
    decreases cands.len() - k,
{
    if k < cands.len() {
        assert(authorized(cands[k], binds));
        lemma_none_refused(cands, binds, k + 1);
    }
}

/// Exactly the prepared paths that root owns are handed over.
pub proof fn law_root_owned_paths_are_handed_over(
    paths: Seq<Seq<char>>,
    owners: Seq<(Seq<char>, Seq<char>)>,
    p: Seq<char>,
)
    ensures
        root_owned(paths, owners).contains(p) <==> paths.contains(p) && table::lookup(owners, p, 0)
            == Some("0"@),
    decreases paths.len(),
{
    let all = root_owned(paths, owners);
    if paths.len() > 0 {
        let t = paths.drop_last();
        let before = root_owned(t, owners);
        law_root_owned_paths_are_handed_over(t, owners, p);
        if all.contains(p) {
            let k = choose|k: int| 0 <= k < all.len() && all[k] == p;
            if k < before.len() {
                assert(before[k] == p);
                let m = choose|m: int| 0 <= m < t.len() && t[m] == p;
                assert(paths[m] == p);
            } else {
                assert(paths[paths.len() - 1] == p);
            }
        }
        if paths.contains(p) && table::lookup(owners, p, 0) == Some("0"@) {
            let m = choose|m: int| 0 <= m < paths.len() && paths[m] == p;
            if m < t.len() {
                assert(t[m] == p);
                let k = choose|k: int| 0 <= k < before.len() && before[k] == p;
                assert(all[k] == p);
            } else {
                assert(all[all.len() - 1] == p);
            }
        }
    }
}

/// The hand-over makes the user the owner: `chown` runs as root with the
/// user's number and those paths, and not at all where there are none.
pub proof fn law_hand_over_names_the_user(
    uid: u32,
    paths: Seq<Seq<char>>,
    stdout: Seq<char>,
    container: Seq<char>,
    cands: Seq<Seq<char>>,
    binds: Seq<Seq<char>>,
)
    ensures
        ({
            let owned = root_owned(paths, table::latest(stat_pairs(text::lines_of(stdout))));
            let step = next_step(StageView::Owners(uid, paths), stdout, container, cands, binds);
            &&& owned.len() == 0 ==> step == Ok::<Option<StepView>, ErrorView>(None)
            &&& owned.len() > 0 ==> (step matches Ok(Some(s)) && s.argv == seq![
                "exec"@,
                "--user"@,
                "root"@,
                container,
                "chown"@,
                text::dec(uid as nat),
                "--"@,
            ] + owned)
        }),
{
    let owned = root_owned(paths, table::latest(stat_pairs(text::lines_of(stdout))));
    assert(seq!["exec"@, "--user"@, "root"@] + seq![container, "chown"@] + (seq![
        text::dec(uid as nat),
        "--"@,
    ] + owned) =~= seq![
        "exec"@,
        "--user"@,
        "root"@,
        container,
        "chown"@,
        text::dec(uid as nat),
        "--"@,
    ] + owned);
}

/// A line of owners is a number, a blank and a path, which may hold blanks.
pub proof fn law_owner_lines_are_read(lines: Seq<Seq<char>>, uid: Seq<char>, name: Seq<char>)
    requires
        !uid.contains(' '),
    ensures
        stat_pairs(lines.push(uid + " "@ + name)) == stat_pairs(lines).push((name, uid)),
{
    reveal_strlit(" ");
    let line = uid + " "@ + name;
    let n = uid.len() as int;
    assert(lines.push(line).drop_last() =~= lines);
    assert(line[n] == ' ');
    assert(line.contains(' '));
    assert forall|j: int| 0 <= j < n implies line[j] != ' ' by {
        assert(line[j] == uid[j]);
        assert(uid.contains(uid[j]));
    }
    text::lemma_first_index_is(line, ' ', n);
    assert(line.take(n) =~= uid);
    assert(line.skip(n + 1) =~= name);
}

proof fn lemma_dec_value(n: nat)
    ensures
        digits_value(text::dec(n)) == Some(n),
        text::dec(n).len() > 0,
        '0' <= text::dec(n)[0] <= '9',
    decreases n,
{
    let d = text::dec(n);
    if n < 10 {
        assert(d.drop_last() =~= Seq::<char>::empty());
        assert(digits_value(d.drop_last()) == Some(0nat));
        assert(d.last() == text::digit_char(n));
    } else {
        lemma_dec_value(n / 10);
        assert(d.drop_last() =~= text::dec(n / 10));
        assert(d.last() == text::digit_char(n % 10));
    }
}

/// A number in decimal is read as that number, within its bound.
pub proof fn law_decimals_are_read(n: nat, max: nat)
    ensures
        parsed_decimal(text::dec(n), max) == if n <= max {
            Some(n)
        } else {
            None
        },
{
    lemma_dec_value(n);
}

/// What is read as a number is digits, after one plus sign at most, and one
/// more digit makes the number ten times as large and adds the digit.
pub proof fn law_decimals_are_digits(s: Seq<char>, c: char, max: nat)
    ensures
        parsed_decimal(s, max) is Some ==> s.len() > 0 && forall|i: int|
            1 <= i < s.len() ==> '0' <= #[trigger] s[i] <= '9',
        digits_value(s) matches Some(n) ==> ('0' <= c <= '9' ==> digits_value(s.push(c)) == Some(
            (n * 10 + (c as int - '0' as int)) as nat,
        )),
{
    assert(s.push(c).drop_last() =~= s);
    if parsed_decimal(s, max) is Some {
        if s[0] == '+' {
            lemma_all_digits(s.skip(1));
            assert forall|i: int| 1 <= i < s.len() implies '0' <= #[trigger] s[i] <= '9' by {
                assert(s.skip(1)[i - 1] == s[i]);
            }
        } else {
            lemma_all_digits(s);
        }
    }
}

proof fn lemma_all_digits(s: Seq<char>)
    requires
        digits_value(s) is Some,
    ensures
        forall|i: int| 0 <= i < s.len() ==> '0' <= #[trigger] s[i] <= '9',
    decreases s.len(),
{
    if s.len() > 0 {
        let t = s.drop_last();
        lemma_all_digits(t);
        assert forall|i: int| 0 <= i < s.len() implies '0' <= #[trigger] s[i] <= '9' by {
            if i < t.len() {
                assert(t[i] == s[i]);
            }
        }
    }
}

/// A view says what the fields hold, each under its own name.
pub proof fn law_views_say_the_fields(
    stage: Stage,
    exec_step: ExecStep,
)
    ensures
        stage matches Stage::SeatUid ==> stage.deep_view() == StageView::SeatUid,
        stage matches Stage::Resolve { uid } ==> stage.deep_view() == StageView::Resolve(uid),
        stage matches Stage::Make { uid, authorized } ==> stage.deep_view() == StageView::Make(uid, authorized.deep_view()),
        stage matches Stage::Owners { uid, authorized } ==> stage.deep_view() == StageView::Owners(uid, authorized.deep_view()),
        stage matches Stage::Converge ==> stage.deep_view() == StageView::Converge,
        exec_step.deep_view().stage == exec_step.stage.deep_view(),
        exec_step.deep_view().cmd == exec_step.cmd@,
        exec_step.deep_view().argv == exec_step.argv.deep_view(),
{
}

} // verus!
