//! Lexical paths: components, canonical form, ancestry.
//!
//! Nothing here touches the filesystem. A path is text; its components are
//! the pieces between slashes, with empty and `.` pieces dropped.

use vstd::prelude::*;

use crate::order::SortKey;
use crate::text;

verus! {

/// Whether a path begins at the root.
pub open spec fn is_absolute(s: Seq<char>) -> bool {
    s.len() > 0 && s[0] == '/'
}

/// Pieces with `.` and empty pieces dropped and each `..` taking the piece
/// before it (none above the top).
pub open spec fn resolve_parts(parts: Seq<Seq<char>>) -> Seq<Seq<char>>
    decreases parts.len(),
{
    if parts.len() == 0 {
        Seq::empty()
    } else {
        let before = resolve_parts(parts.drop_last());
        let p = parts.last();
        if p.len() == 0 || p == "."@ {
            before
        } else if p == ".."@ {
            if before.len() > 0 {
                before.drop_last()
            } else {
                before
            }
        } else {
            before.push(p)
        }
    }
}

/// Text of a path from its resolved pieces; an empty path is the root.
pub open spec fn path_text(absolute: bool, parts: Seq<Seq<char>>) -> Seq<char> {
    if absolute || parts.len() == 0 {
        "/"@ + text::join(parts, "/"@)
    } else {
        text::join(parts, "/"@)
    }
}

/// Canonical form of a container path: `.`, `..` and duplicate slashes
/// cleaned, no trailing slash, the root for an empty path.
pub open spec fn canonical(s: Seq<char>) -> Seq<char> {
    path_text(is_absolute(s), resolve_parts(text::split(s, '/')))
}

/// Whether `a` is `d` or one of its ancestors (trailing slashes aside).
pub open spec fn ancestor_or_equal(a: Seq<char>, d: Seq<char>) -> bool {
    let anc = text::trim_end_char(a, '/');
    let desc = text::trim_end_char(d, '/');
    ||| a == d
    ||| anc.len() == 0
    ||| desc == anc
    ||| (anc + "/"@).is_prefix_of(desc)
}

/// Depth of a canonical path: the slashes before its components.
pub open spec fn depth(canon: Seq<char>) -> nat {
    text::count(text::trim_end_char(canon, '/'), '/')
}

/// Pieces that are components: not empty, and no `.` but at the front of a
/// relative path.
pub open spec fn component_pieces(pieces: Seq<Seq<char>>) -> Seq<Seq<char>>
    decreases pieces.len(),
{
    if pieces.len() == 0 {
        Seq::empty()
    } else {
        let before = component_pieces(pieces.drop_last());
        let p = pieces.last();
        if p.len() == 0 || (p == "."@ && pieces.len() > 1) {
            before
        } else {
            before.push(p)
        }
    }
}

/// Components of a path, `/` first when it is absolute.
pub open spec fn components(s: Seq<char>) -> Seq<Seq<char>> {
    let names = component_pieces(text::split(s, '/'));
    if is_absolute(s) {
        seq!["/"@] + names
    } else {
        names
    }
}

/// Rank of a component among others: the root, the current directory, the
/// parent, then names.
pub open spec fn component_rank(c: Seq<char>) -> int {
    if c == "/"@ {
        0
    } else if c == "."@ {
        1
    } else if c == ".."@ {
        2
    } else {
        3
    }
}

/// Order of two components: by rank, names by text.
pub open spec fn component_le(a: Seq<char>, b: Seq<char>) -> bool {
    ||| component_rank(a) < component_rank(b)
    ||| component_rank(a) == component_rank(b) && text::lex_le(a, b)
}

/// Order of two paths: by their components, left to right.
pub open spec fn path_le(a: Seq<Seq<char>>, b: Seq<Seq<char>>) -> bool
    decreases a.len(),
{
    if a.len() == 0 {
        true
    } else if b.len() == 0 {
        false
    } else if a[0] != b[0] {
        component_le(a[0], b[0])
    } else {
        path_le(a.skip(1), b.skip(1))
    }
}

/// Name of the last component; none for the root, `.` and `..`.
pub open spec fn file_name(s: Seq<char>) -> Option<Seq<char>> {
    let c = components(s);
    if c.len() > 0 && component_rank(c.last()) == 3 {
        Some(c.last())
    } else {
        None
    }
}

/// `base` with one name below it.
pub open spec fn joined(base: Seq<char>, name: Seq<char>) -> Seq<char> {
    if base.len() == 0 || base.last() == '/' {
        base + name
    } else {
        base + "/"@ + name
    }
}

/// `base` with every name of `names` below it, in order.
pub open spec fn joined_all(base: Seq<char>, names: Seq<Seq<char>>) -> Seq<char>
    decreases names.len(),
{
    if names.len() == 0 {
        base
    } else {
        joined(joined_all(base, names.drop_last()), names.last())
    }
}

/// Whether a piece may stand in a canonical path.
pub open spec fn clean_piece(p: Seq<char>) -> bool {
    p.len() > 0 && p != "."@ && p != ".."@ && !p.contains('/')
}

// ---------------------------------------------------------------------
// Laws
// ---------------------------------------------------------------------

pub proof fn lemma_resolve_parts_clean(parts: Seq<Seq<char>>)
    requires
        forall|i: int| 0 <= i < parts.len() ==> !(#[trigger] parts[i]).contains('/'),
    ensures
        forall|i: int|
            0 <= i < resolve_parts(parts).len() ==> clean_piece(#[trigger] resolve_parts(parts)[i]),
    decreases parts.len(),
{
    if parts.len() > 0 {
        let t = parts.drop_last();
        assert forall|i: int| 0 <= i < t.len() implies !(#[trigger] t[i]).contains('/') by {
            assert(t[i] == parts[i]);
        }
        lemma_resolve_parts_clean(t);
        let before = resolve_parts(t);
        let r = resolve_parts(parts);
        assert(!parts[parts.len() - 1].contains('/'));
        assert forall|i: int| 0 <= i < r.len() implies clean_piece(#[trigger] r[i]) by {
            if i < before.len() {
                assert(clean_piece(before[i]));
                assert(r[i] == before[i]);
            } else {
                assert(r[i] == parts.last());
            }
        }
    }
}

/// Clean pieces resolve to themselves.
pub proof fn lemma_resolve_parts_fixed(parts: Seq<Seq<char>>)
    requires
        forall|i: int| 0 <= i < parts.len() ==> clean_piece(#[trigger] parts[i]),
    ensures
        resolve_parts(parts) == parts,
    decreases parts.len(),
{
    if parts.len() > 0 {
        let t = parts.drop_last();
        assert forall|i: int| 0 <= i < t.len() implies clean_piece(#[trigger] t[i]) by {
            assert(t[i] == parts[i]);
        }
        lemma_resolve_parts_fixed(t);
        assert(clean_piece(parts[parts.len() - 1]));
        assert(parts.drop_last().push(parts.last()) =~= parts);
    }
}

/// Resolving pieces in front of which empty pieces stand.
pub proof fn lemma_resolve_parts_leading_empty(parts: Seq<Seq<char>>)
    ensures
        resolve_parts(seq![Seq::<char>::empty()] + parts) == resolve_parts(parts),
    decreases parts.len(),
{
    let e = seq![Seq::<char>::empty()];
    if parts.len() == 0 {
        assert(e + parts =~= e);
        assert(e.drop_last() =~= Seq::<Seq<char>>::empty());
        assert(resolve_parts(e.drop_last()) =~= Seq::<Seq<char>>::empty());
        assert(e.last().len() == 0);
    } else {
        lemma_resolve_parts_leading_empty(parts.drop_last());
        assert((e + parts).drop_last() =~= e + parts.drop_last());
        assert((e + parts).last() == parts.last());
    }
}

pub proof fn lemma_split_without(s: Seq<char>, c: char)
    requires
        !s.contains(c),
    ensures
        text::split(s, c) == seq![s],
    decreases s.len(),
{
    if s.len() == 0 {
        assert(s =~= Seq::<char>::empty());
    } else {
        let t = s.drop_last();
        assert(!t.contains(c)) by {
            if t.contains(c) {
                let k = choose|k: int| 0 <= k < t.len() && t[k] == c;
                assert(s[k] == c);
            }
        }
        lemma_split_without(t, c);
        assert(s.last() != c) by {
            if s.last() == c {
                assert(s[s.len() - 1] == c);
            }
        }
        assert(text::split(s, c) =~= seq![t.push(s.last())]);
        assert(t.push(s.last()) =~= s);
    }
}

/// Splitting at a separator splits both sides.
pub proof fn lemma_split_concat(a: Seq<char>, b: Seq<char>, c: char)
    ensures
        text::split(a + seq![c] + b, c) == text::split(a, c) + text::split(b, c),
    decreases b.len(),
{
    let s = a + seq![c] + b;
    text::lemma_split_nonempty(a, c);
    text::lemma_split_nonempty(b, c);
    if b.len() == 0 {
        assert(s.drop_last() =~= a);
        assert(s.last() == c);
        assert(b =~= Seq::<char>::empty());
        assert(text::split(s, c) =~= text::split(a, c) + text::split(b, c));
    } else {
        lemma_split_concat(a, b.drop_last(), c);
        text::lemma_split_nonempty(b.drop_last(), c);
        assert(s.drop_last() =~= a + seq![c] + b.drop_last());
        assert(s.last() == b.last());
        let sa = text::split(a, c);
        let sb = text::split(b.drop_last(), c);
        assert((sa + sb).last() == sb.last());
        assert((sa + sb).drop_last() =~= sa + sb.drop_last());
        assert(text::split(s, c) =~= sa + text::split(b, c));
    }
}

/// Splitting a join gives the pieces back.
pub proof fn lemma_split_join(parts: Seq<Seq<char>>, c: char)
    requires
        parts.len() > 0,
        forall|i: int| 0 <= i < parts.len() ==> !(#[trigger] parts[i]).contains(c),
    ensures
        text::split(text::join(parts, seq![c]), c) == parts,
    decreases parts.len(),
{
    if parts.len() == 1 {
        lemma_split_without(parts[0], c);
        assert(parts =~= seq![parts[0]]);
    } else {
        let t = parts.drop_last();
        assert forall|i: int| 0 <= i < t.len() implies !(#[trigger] t[i]).contains(c) by {
            assert(t[i] == parts[i]);
        }
        lemma_split_join(t, c);
        assert(!parts[parts.len() - 1].contains(c));
        lemma_split_without(parts.last(), c);
        lemma_split_concat(text::join(t, seq![c]), parts.last(), c);
        assert(t + seq![parts.last()] =~= parts);
    }
}

/// Joining the pieces of a split gives the text back.
pub proof fn lemma_join_split(s: Seq<char>, c: char)
    ensures
        text::join(text::split(s, c), seq![c]) == s,
    decreases s.len(),
{
    if s.len() > 0 {
        let t = s.drop_last();
        let before = text::split(t, c);
        text::lemma_split_nonempty(t, c);
        lemma_join_split(t, c);
        let after = text::split(s, c);
        if s.last() == c {
            assert(after.drop_last() =~= before);
            assert(after.len() > 1);
            assert(t + seq![c] + Seq::<char>::empty() =~= s);
        } else {
            assert(after.drop_last() =~= before.drop_last());
            if before.len() == 1 {
                assert(after[0] =~= before[0].push(s.last()));
                assert(before.last() == before[0]);
                assert(t.push(s.last()) =~= s);
            } else {
                let head = text::join(before.drop_last(), seq![c]) + seq![c];
                assert(t == head + before.last());
                assert(head + before.last().push(s.last()) =~= t.push(s.last()));
                assert(t.push(s.last()) =~= s);
            }
        }
    }
}

pub proof fn lemma_slash()
    ensures
        "/"@ == seq!['/'],
{
    reveal_strlit("/");
    assert("/"@ =~= seq!['/']);
}

/// Text of clean pieces splits back into them.
pub proof fn lemma_path_text_parts(absolute: bool, parts: Seq<Seq<char>>)
    requires
        forall|i: int| 0 <= i < parts.len() ==> clean_piece(#[trigger] parts[i]),
    ensures
        is_absolute(path_text(absolute, parts)) == (absolute || parts.len() == 0),
        resolve_parts(text::split(path_text(absolute, parts), '/')) == parts,
{
    lemma_slash();
    let t = path_text(absolute, parts);
    let j = text::join(parts, "/"@);
    let e = Seq::<char>::empty();
    if absolute || parts.len() == 0 {
        assert(t[0] == '/');
        assert(t =~= e + seq!['/'] + j);
        lemma_split_concat(e, j, '/');
        assert(text::split(e, '/') == seq![e]);
        lemma_resolve_parts_leading_empty(text::split(j, '/'));
        if parts.len() == 0 {
            assert(j =~= e);
            assert(resolve_parts(text::split(j, '/')) =~= parts) by {
                assert(seq![e].drop_last() =~= Seq::<Seq<char>>::empty());
                assert(resolve_parts(Seq::<Seq<char>>::empty()) =~= Seq::<Seq<char>>::empty());
                assert(seq![e].last().len() == 0);
            }
        } else {
            lemma_split_join(parts, '/');
            lemma_resolve_parts_fixed(parts);
        }
    } else {
        lemma_split_join(parts, '/');
        lemma_resolve_parts_fixed(parts);
        lemma_join_first(parts);
    }
}

/// A join of clean pieces begins with a character of its first piece.
proof fn lemma_join_first(parts: Seq<Seq<char>>)
    requires
        parts.len() > 0,
        forall|i: int| 0 <= i < parts.len() ==> clean_piece(#[trigger] parts[i]),
    ensures
        text::join(parts, "/"@).len() > 0,
        text::join(parts, "/"@)[0] == parts[0][0],
        parts[0][0] != '/',
    decreases parts.len(),
{
    assert(clean_piece(parts[0]));
    assert(parts[0][0] != '/') by {
        if parts[0][0] == '/' {
            assert(parts[0].contains('/'));
        }
    }
    if parts.len() > 1 {
        let t = parts.drop_last();
        assert forall|i: int| 0 <= i < t.len() implies clean_piece(#[trigger] t[i]) by {
            assert(t[i] == parts[i]);
        }
        lemma_join_first(t);
        assert(t[0] == parts[0]);
    }
}

/// Canonicalization is idempotent: a canonical path is its own canonical
/// form.
pub proof fn law_canonical_idempotent(s: Seq<char>)
    ensures
        canonical(canonical(s)) == canonical(s),
{
    let parts = resolve_parts(text::split(s, '/'));
    text::lemma_split_pieces(s, '/');
    lemma_resolve_parts_clean(text::split(s, '/'));
    lemma_path_text_parts(is_absolute(s), parts);
}

/// Every component of a canonical path is a plain name: no empty piece, no
/// `.`, no `..`.
pub proof fn law_canonical_clean(s: Seq<char>)
    ensures
        ({
            let parts = resolve_parts(text::split(s, '/'));
            &&& canonical(s) == path_text(is_absolute(s), parts)
            &&& resolve_parts(text::split(canonical(s), '/')) == parts
            &&& forall|i: int| 0 <= i < parts.len() ==> clean_piece(#[trigger] parts[i])
        }),
{
    let parts = resolve_parts(text::split(s, '/'));
    text::lemma_split_pieces(s, '/');
    lemma_resolve_parts_clean(text::split(s, '/'));
    lemma_path_text_parts(is_absolute(s), parts);
}

/// Resolving more pieces, none of which is `..`, appends what they resolve
/// to.
pub proof fn lemma_resolve_parts_append(a: Seq<Seq<char>>, b: Seq<Seq<char>>)
    requires
        forall|i: int| 0 <= i < b.len() ==> #[trigger] b[i] != ".."@,
    ensures
        resolve_parts(a + b) == resolve_parts(a) + resolve_parts(b),
    decreases b.len(),
{
    if b.len() == 0 {
        assert(a + b =~= a);
        assert(resolve_parts(a) + resolve_parts(b) =~= resolve_parts(a));
    } else {
        let t = b.drop_last();
        assert forall|i: int| 0 <= i < t.len() implies #[trigger] t[i] != ".."@ by {
            assert(t[i] == b[i]);
        }
        lemma_resolve_parts_append(a, t);
        assert((a + b).drop_last() =~= a + t);
        assert((a + b).last() == b.last());
        assert(b[b.len() - 1] != ".."@);
        assert(resolve_parts(a + b) =~= resolve_parts(a) + resolve_parts(b));
    }
}

/// Where a piece of a split stands in the text.
pub proof fn lemma_piece_context(s: Seq<char>, c: char, i: int) -> (r: (Seq<char>, Seq<char>))
    requires
        0 <= i < text::split(s, c).len(),
    ensures
        s == r.0 + text::split(s, c)[i] + r.1,
        r.0.len() == 0 <==> i == 0,
        r.0.len() > 0 ==> r.0.last() == c,
        r.1.len() == 0 <==> i == text::split(s, c).len() - 1,
        r.1.len() > 0 ==> r.1[0] == c,
    decreases s.len(),
{
    let e = Seq::<char>::empty();
    if s.len() == 0 {
        assert(s =~= e + text::split(s, c)[i] + e);
        (e, e)
    } else {
        let t = s.drop_last();
        let x = s.last();
        let before = text::split(t, c);
        text::lemma_split_nonempty(t, c);
        assert(s =~= t.push(x));
        if x == c {
            if i < before.len() {
                let (a, b) = lemma_piece_context(t, c, i);
                assert(text::split(s, c)[i] == before[i]);
                assert(s =~= a + before[i] + b.push(x));
                (a, b.push(x))
            } else {
                assert(s =~= s + text::split(s, c)[i] + e);
                (s, e)
            }
        } else if i < before.len() - 1 {
            let (a, b) = lemma_piece_context(t, c, i);
            assert(text::split(s, c)[i] == before[i]);
            assert(s =~= a + before[i] + b.push(x));
            (a, b.push(x))
        } else {
            let (a, b) = lemma_piece_context(t, c, i);
            assert(text::split(s, c)[i] == before[i].push(x));
            assert(b =~= e);
            assert(s =~= a + before[i].push(x) + e);
            (a, e)
        }
    }
}

/// Joining two lists of pieces puts one separator between them.
pub proof fn lemma_join_append(a: Seq<Seq<char>>, b: Seq<Seq<char>>, sep: Seq<char>)
    requires
        a.len() > 0,
        b.len() > 0,
    ensures
        text::join(a + b, sep) == text::join(a, sep) + sep + text::join(b, sep),
    decreases b.len(),
{
    assert((a + b).last() == b.last());
    if b.len() == 1 {
        assert((a + b).drop_last() =~= a);
    } else {
        lemma_join_append(a, b.drop_last(), sep);
        assert((a + b).drop_last() =~= a + b.drop_last());
        assert(text::join(a + b, sep) =~= text::join(a, sep) + sep + text::join(b, sep));
    }
}

/// A strict ancestor is less deep than what lies below it.
pub proof fn law_ancestor_depth(a: Seq<char>, d: Seq<char>)
    requires
        ancestor_or_equal(a, d),
        text::trim_end_char(a, '/') != text::trim_end_char(d, '/'),
        is_absolute(d),
    ensures
        depth(a) < depth(d),
{
    lemma_slash();
    let anc = text::trim_end_char(a, '/');
    let desc = text::trim_end_char(d, '/');
    lemma_trim_is_prefix(d, '/');
    if anc.len() == 0 {
        assert(anc =~= Seq::<char>::empty());
        assert(desc.len() > 0) by {
            if desc.len() == 0 {
                assert(desc =~= anc);
            }
        }
        assert(desc[0] == '/');
        let rest = desc.skip(1);
        assert(desc =~= seq!['/'] + rest);
        text::lemma_count_add(seq!['/'], rest, '/');
        assert(seq!['/'].drop_last() =~= Seq::<char>::empty());
        assert(text::count(seq!['/'], '/') == 1) by {
            assert(text::count(seq!['/'].drop_last(), '/') == 0);
        }
    } else {
        let head = anc + "/"@;
        let rest = desc.skip(head.len() as int);
        assert(desc =~= head + rest);
        text::lemma_count_add(head, rest, '/');
        assert(head =~= anc.push('/'));
        text::lemma_count_push(anc, '/', '/');
    }
}

pub proof fn lemma_trim_is_prefix(s: Seq<char>, c: char)
    ensures
        text::trim_end_char(s, c).len() <= s.len(),
        text::trim_end_char(s, c) == s.take(text::trim_end_char(s, c).len() as int),
    decreases s.len(),
{
    if s.len() > 0 && s.last() == c {
        lemma_trim_is_prefix(s.drop_last(), c);
        let n = text::trim_end_char(s, c).len() as int;
        assert(s.drop_last().take(n) =~= s.take(n));
    } else {
        assert(s.take(s.len() as int) =~= s);
    }
}

pub proof fn lemma_path_le_total(a: Seq<Seq<char>>, b: Seq<Seq<char>>)
    ensures
        path_le(a, b) || path_le(b, a),
    decreases a.len(),
{
    if a.len() > 0 && b.len() > 0 {
        if a[0] == b[0] {
            lemma_path_le_total(a.skip(1), b.skip(1));
        } else {
            text::lemma_lex_le_total(a[0], b[0]);
        }
    }
}

pub proof fn lemma_path_le_trans(a: Seq<Seq<char>>, b: Seq<Seq<char>>, c: Seq<Seq<char>>)
    requires
        path_le(a, b),
        path_le(b, c),
    ensures
        path_le(a, c),
    decreases a.len(),
{
    if a.len() > 0 && b.len() > 0 && c.len() > 0 {
        if a[0] == b[0] && b[0] == c[0] {
            lemma_path_le_trans(a.skip(1), b.skip(1), c.skip(1));
        } else if a[0] != b[0] && b[0] != c[0] {
            if component_rank(a[0]) == component_rank(b[0]) && component_rank(b[0])
                == component_rank(c[0]) {
                text::lemma_lex_le_trans(a[0], b[0], c[0]);
                if a[0] == c[0] {
                    text::lemma_lex_le_antisym(a[0], b[0]);
                }
            }
        }
    }
}

// ---------------------------------------------------------------------
// Executable
// ---------------------------------------------------------------------

/// Whether a path begins at the root.
pub fn absolute(s: &str) -> (b: bool)
    ensures
        b == is_absolute(s@),
{
    let v = text::chars_of(s);
    v.len() > 0 && v[0] == '/'
}

/// Pieces resolved lexically (see [`resolve_parts`]).
fn resolve(pieces: &Vec<String>) -> (out: Vec<String>)
    ensures
        out.deep_view() == resolve_parts(pieces.deep_view()),
{
    let mut out: Vec<String> = Vec::new();
    let ghost all = pieces.deep_view();
    let mut i: usize = 0;
    assert(all.take(0) =~= Seq::<Seq<char>>::empty());
    assert(out.deep_view() =~= resolve_parts(all.take(0)));
    while i < pieces.len()
        invariant
            all == pieces.deep_view(),
            i <= pieces@.len(),
            out.deep_view() == resolve_parts(all.take(i as int)),
        decreases pieces.len() - i,
    {
        let ghost before = out.deep_view();
        assert(all.take(i + 1).drop_last() =~= all.take(i as int));
        assert(all.take(i + 1).last() == pieces@[i as int]@);
        let p = pieces[i].as_str();
        if p.is_empty() || text::eq(p, ".") {
        } else if text::eq(p, "..") {
            if out.len() > 0 {
                out.pop();
                assert(out.deep_view() =~= before.drop_last());
            }
        } else {
            out.push(p.to_owned());
            assert(out.deep_view() =~= before.push(all[i as int]));
        }
        i = i + 1;
    }
    assert(all.take(i as int) =~= all);
    out
}

/// Canonicalizes a container path without touching the filesystem.
pub fn canonicalize(path: &str) -> (s: String)
    ensures
        s@ == canonical(path@),
{
    let pieces = text::split_on(path, '/');
    let parts = resolve(&pieces);
    let tail = text::join_with(&parts, "/");
    if absolute(path) || parts.len() == 0 {
        text::cat("/", tail.as_str())
    } else {
        tail
    }
}

/// Whether `ancestor` is `descendant` or lies above it.
pub fn is_ancestor_or_equal(ancestor: &str, descendant: &str) -> (b: bool)
    ensures
        b == ancestor_or_equal(ancestor@, descendant@),
{
    if text::eq(ancestor, descendant) {
        return true;
    }
    let anc = text::trim_end_matches(ancestor, '/');
    let desc = text::trim_end_matches(descendant, '/');
    if anc.as_str().is_empty() {
        return true;
    }
    text::eq(desc.as_str(), anc.as_str()) || text::starts_with(
        desc.as_str(),
        text::cat(anc.as_str(), "/").as_str(),
    )
}

/// Number of slashes before the components of a canonical path.
pub fn depth_of(canon: &str) -> (n: usize)
    ensures
        n == depth(canon@),
{
    let t = text::trim_end_matches(canon, '/');
    let v = text::chars_of(t.as_str());
    let mut n: usize = 0;
    let mut i: usize = 0;
    assert(v@.take(0) =~= Seq::<char>::empty());
    while i < v.len()
        invariant
            n <= i <= v@.len(),
            n == text::count(v@.take(i as int), '/'),
        decreases v.len() - i,
    {
        assert(v@.take(i + 1).drop_last() =~= v@.take(i as int));
        if v[i] == '/' {
            n = n + 1;
        }
        i = i + 1;
    }
    assert(v@.take(i as int) =~= v@);
    n
}

/// Components of a path.
pub fn components_of(path: &str) -> (out: Vec<String>)
    ensures
        out.deep_view() == components(path@),
{
    let pieces = text::split_on(path, '/');
    let ghost all = pieces.deep_view();
    let mut out: Vec<String> = Vec::new();
    let ghost mut head = Seq::<Seq<char>>::empty();
    if absolute(path) {
        out.push("/".to_owned());
        proof {
            head = seq!["/"@];
        }
    }
    let mut i: usize = 0;
    assert(all.take(0) =~= Seq::<Seq<char>>::empty());
    assert(out.deep_view() =~= head + component_pieces(all.take(0)));
    while i < pieces.len()
        invariant
            all == pieces.deep_view(),
            i <= pieces@.len(),
            out.deep_view() == head + component_pieces(all.take(i as int)),
        decreases pieces.len() - i,
    {
        let ghost before = out.deep_view();
        assert(all.take(i + 1).drop_last() =~= all.take(i as int));
        assert(all.take(i + 1).last() == pieces@[i as int]@);
        let p = pieces[i].as_str();
        if p.is_empty() || (i > 0 && text::eq(p, ".")) {
        } else {
            out.push(p.to_owned());
            assert(out.deep_view() =~= before.push(all[i as int]));
            assert(head + component_pieces(all.take(i as int)).push(all[i as int]) =~= (head
                + component_pieces(all.take(i as int))).push(all[i as int]));
        }
        i = i + 1;
    }
    assert(all.take(i as int) =~= all);
    assert(head.len() == 0 ==> head + component_pieces(all) =~= component_pieces(all));
    out
}

/// Rank of a component.
fn rank(c: &str) -> (r: u8)
    ensures
        r == component_rank(c@),
{
    if text::eq(c, "/") {
        0
    } else if text::eq(c, ".") {
        1
    } else if text::eq(c, "..") {
        2
    } else {
        3
    }
}

/// Name of the last component, if it is a plain name.
pub fn file_name_of(path: &str) -> (r: Option<String>)
    ensures
        r.deep_view() == file_name(path@),
{
    let c = components_of(path);
    if c.len() == 0 {
        return None;
    }
    let last = c[c.len() - 1].as_str();
    assert(components(path@).last() == last@);
    if rank(last) == 3 {
        Some(last.to_owned())
    } else {
        None
    }
}

/// `base` with one name below it.
pub fn join(base: &str, name: &str) -> (s: String)
    ensures
        s@ == joined(base@, name@),
{
    let v = text::chars_of(base);
    if v.len() == 0 || v[v.len() - 1] == '/' {
        text::cat(base, name)
    } else {
        text::cat3(base, "/", name)
    }
}

/// Whether the components `a` are those of a path at or above `b`.
pub fn is_component_prefix(a: &Vec<String>, b: &Vec<String>) -> (r: bool)
    ensures
        r == a.deep_view().is_prefix_of(b.deep_view()),
{
    if a.len() > b.len() {
        return false;
    }
    let ghost da = a.deep_view();
    let ghost db = b.deep_view();
    let mut i: usize = 0;
    while i < a.len()
        invariant
            da == a.deep_view(),
            db == b.deep_view(),
            a@.len() <= b@.len(),
            i <= a@.len(),
            forall|k: int| 0 <= k < i ==> da[k] == db[k],
        decreases a.len() - i,
    {
        assert(da[i as int] == a@[i as int]@ && db[i as int] == b@[i as int]@);
        if !text::eq(a[i].as_str(), b[i].as_str()) {
            assert(db.subrange(0, da.len() as int)[i as int] != da[i as int]);
            return false;
        }
        i = i + 1;
    }
    assert(da =~= db.subrange(0, da.len() as int));
    true
}

impl SortKey for String {
    open spec fn key_le(a: Seq<char>, b: Seq<char>) -> bool {
        text::lex_le(a, b)
    }

    fn le_key(&self, other: &Self) -> (r: bool) {
        text::lex_le_text(self.as_str(), other.as_str())
    }
}

impl SortKey for Vec<String> {
    open spec fn key_le(a: Seq<Seq<char>>, b: Seq<Seq<char>>) -> bool {
        path_le(a, b)
    }

    fn le_key(&self, other: &Self) -> (r: bool) {
        let ghost a = self.deep_view();
        let ghost b = other.deep_view();
        let mut i: usize = 0;
        assert(a.skip(0) =~= a && b.skip(0) =~= b);
        while i < self.len()
            invariant
                a == self.deep_view(),
                b == other.deep_view(),
                i <= self@.len(),
                i <= other@.len(),
                path_le(a, b) == path_le(a.skip(i as int), b.skip(i as int)),
            decreases self.len() - i,
        {
            let ghost p = a.skip(i as int);
            let ghost q = b.skip(i as int);
            assert(p[0] == self@[i as int]@);
            if i == other.len() {
                return false;
            }
            assert(q[0] == other@[i as int]@);
            let x = self[i].as_str();
            let y = other[i].as_str();
            if !text::eq(x, y) {
                let rx: u8 = rank(x);
                let ry: u8 = rank(y);
                return rx < ry || (rx == ry && text::lex_le_text(x, y));
            }
            assert(p.skip(1) =~= a.skip(i + 1));
            assert(q.skip(1) =~= b.skip(i + 1));
            i = i + 1;
        }
        true
    }
}

// ---------------------------------------------------------------------
// Laws of resolution and ancestry
// ---------------------------------------------------------------------

proof fn lemma_one_more_piece(s: Seq<char>, name: Seq<char>)
    requires
        s.len() > 0,
        !name.contains('/'),
    ensures
        text::split(s + "/"@ + name, '/') == text::split(s, '/').push(name),
        is_absolute(s + "/"@ + name) == is_absolute(s),
{
    lemma_slash();
    lemma_split_concat(s, name, '/');
    lemma_split_without(name, '/');
    assert(text::split(s, '/') + seq![name] =~= text::split(s, '/').push(name));
    assert((s + "/"@ + name)[0] == s[0]);
}

/// A name after a path goes one step down, an empty name and `.` stay, and a
/// name followed by `..` comes back.
pub proof fn law_canonical_steps(s: Seq<char>, name: Seq<char>)
    requires
        s.len() > 0,
        s[0] == '/',
        name.len() > 0,
        !name.contains('/'),
        name != "."@,
        name != ".."@,
    ensures
        canonical("/"@) == "/"@,
        canonical(s + "/"@) == canonical(s),
        canonical(s + "/."@) == canonical(s),
        canonical(s + "/"@ + name) == if canonical(s) == "/"@ {
            "/"@ + name
        } else {
            canonical(s) + "/"@ + name
        },
        canonical(s + "/"@ + name + "/.."@) == canonical(s),
        canonical(s)[0] == '/',
{
    lemma_slash();
    reveal_strlit("/.");
    reveal_strlit("/..");
    reveal_strlit(".");
    reveal_strlit("..");
    let e = Seq::<char>::empty();
    let parts = text::split(s, '/');
    let r = resolve_parts(parts);
    law_canonical_clean(s);
    assert(canonical("/"@) == "/"@) by {
        assert("/"@ =~= e + seq!['/'] + e);
        lemma_split_concat(e, e, '/');
        assert(text::split(e, '/') == seq![e]);
        let two = seq![e] + seq![e];
        assert(two.drop_last() =~= seq![e]);
        assert(seq![e].drop_last() =~= Seq::<Seq<char>>::empty());
        assert(resolve_parts(Seq::<Seq<char>>::empty()) =~= Seq::<Seq<char>>::empty());
        assert(resolve_parts(seq![e]) =~= Seq::<Seq<char>>::empty());
        assert(two.last() == e);
        assert(resolve_parts(two) =~= Seq::<Seq<char>>::empty());
        assert("/"@ + text::join(Seq::<Seq<char>>::empty(), "/"@) =~= "/"@);
    }
    assert(canonical(s + "/"@) == canonical(s)) by {
        lemma_one_more_piece(s, e);
        assert(s + "/"@ + e =~= s + "/"@);
        assert(parts.push(e).drop_last() =~= parts);
    }
    assert(canonical(s + "/."@) == canonical(s)) by {
        lemma_one_more_piece(s, "."@);
        assert(s + "/"@ + "."@ =~= s + "/."@);
        assert(parts.push("."@).drop_last() =~= parts);
    }
    lemma_one_more_piece(s, name);
    assert(parts.push(name).drop_last() =~= parts);
    assert(resolve_parts(parts.push(name)) == r.push(name));
    assert(r.push(name).drop_last() =~= r);
    if r.len() == 0 {
        assert(text::join(r, "/"@) =~= e);
        assert(canonical(s) =~= "/"@);
        assert(r.push(name)[0] == name);
    } else {
        let j = text::join(r, "/"@);
        lemma_join_first(r);
        assert(canonical(s).len() > 1);
        assert(canonical(s) != "/"@);
        assert("/"@ + (j + "/"@ + name) =~= ("/"@ + j) + "/"@ + name);
    }
    assert(canonical(s + "/"@ + name + "/.."@) == canonical(s)) by {
        let down = s + "/"@ + name;
        lemma_one_more_piece(down, ".."@);
        assert(down + "/"@ + ".."@ =~= down + "/.."@);
        assert(parts.push(name).push(".."@).drop_last() =~= parts.push(name));
        assert(".."@.len() == 2);
    }
}

/// A canonical path is the root, or does not end in a slash.
pub proof fn lemma_canonical_end(s: Seq<char>)
    ensures
        canonical(s).len() > 0,
        canonical(s) == "/"@ || canonical(s).last() != '/',
{
    lemma_slash();
    law_canonical_clean(s);
    let parts = resolve_parts(text::split(s, '/'));
    if parts.len() == 0 {
        assert(text::join(parts, "/"@) =~= Seq::<char>::empty());
        assert(canonical(s) =~= "/"@);
    } else {
        assert(clean_piece(parts[parts.len() - 1]));
        let p = parts.last();
        assert(p.last() != '/') by {
            if p.last() == '/' {
                assert(p[p.len() - 1] == '/');
            }
        }
        assert(text::join(parts, "/"@).len() >= p.len());
        assert(text::join(parts, "/"@).last() == p.last());
    }
}

proof fn lemma_trim_clean(s: Seq<char>)
    requires
        s.len() > 0,
        s == "/"@ || s.last() != '/',
    ensures
        text::trim_end_char(s, '/') == if s == "/"@ {
            Seq::<char>::empty()
        } else {
            s
        },
{
    lemma_slash();
    if s == "/"@ {
        text::lemma_trim_end_char(s, '/', 0);
        assert(s.take(0) =~= Seq::<char>::empty());
    }
}

/// Of canonical paths, one is at or above another exactly when it is the
/// root, the same path, or the other begins with it and a slash.
pub proof fn law_ancestors_lead_their_paths(x: Seq<char>, y: Seq<char>)
    ensures
        ancestor_or_equal(canonical(x), canonical(y)) <==> (canonical(x) == "/"@ || canonical(x)
            == canonical(y) || (canonical(x) + "/"@).is_prefix_of(canonical(y))),
        (canonical(x) + "/"@).is_prefix_of(canonical(y)) ==> !ancestor_or_equal(
            canonical(y),
            canonical(x),
        ),
{
    lemma_slash();
    lemma_canonical_end(x);
    lemma_canonical_end(y);
    let a = canonical(x);
    let d = canonical(y);
    lemma_trim_clean(a);
    lemma_trim_clean(d);
    if (a + "/"@).is_prefix_of(d) {
        assert(d.len() > a.len());
        if (d + "/"@).is_prefix_of(a) {
            assert(a.len() > d.len());
        }
        if d == "/"@ {
            assert(a.len() == 0);
        }
    }
}

proof fn lemma_component_pieces_append(a: Seq<Seq<char>>, b: Seq<Seq<char>>)
    ensures
        component_pieces(a).is_prefix_of(component_pieces(a + b)),
    decreases b.len(),
{
    let c = component_pieces(a);
    if b.len() == 0 {
        assert(a + b =~= a);
        assert(c.subrange(0, c.len() as int) =~= c);
    } else {
        lemma_component_pieces_append(a, b.drop_last());
        assert((a + b).drop_last() =~= a + b.drop_last());
        let before = component_pieces(a + b.drop_last());
        let all = component_pieces(a + b);
        assert(c =~= before.subrange(0, c.len() as int));
        assert(c =~= all.subrange(0, c.len() as int));
    }
}

/// A path that begins with another one and a slash has the components of the
/// other in front.
pub proof fn law_components_follow_prefixes(a: Seq<char>, d: Seq<char>)
    requires
        a.len() > 0,
        a == d || (a + "/"@).is_prefix_of(d),
    ensures
        components(a).is_prefix_of(components(d)),
{
    lemma_slash();
    let ca = components(a);
    if a == d {
        assert(ca.subrange(0, ca.len() as int) =~= ca);
    } else {
        let b = d.skip(a.len() as int + 1);
        let head = a + "/"@;
        assert(head =~= d.subrange(0, head.len() as int));
        assert(d =~= a + seq!['/'] + b);
        lemma_split_concat(a, b, '/');
        lemma_component_pieces_append(text::split(a, '/'), text::split(b, '/'));
        assert(d[0] == a[0]);
        let cd = components(d);
        let pa = component_pieces(text::split(a, '/'));
        let pd = component_pieces(text::split(d, '/'));
        assert(pa =~= pd.subrange(0, pa.len() as int));
        assert(ca =~= cd.subrange(0, ca.len() as int));
    }
}

/// The file name of a path is the name after its last slash.
pub proof fn law_file_names_end_paths(base: Seq<char>, name: Seq<char>)
    requires
        base.len() > 0,
        name.len() > 0,
        !name.contains('/'),
        name != "."@,
        name != ".."@,
    ensures
        file_name(base + "/"@ + name) == Some(name),
        file_name(joined(base, name)) == Some(name),
{
    lemma_slash();
    lemma_one_more_piece(base, name);
    let pieces = text::split(base, '/').push(name);
    text::lemma_split_nonempty(base, '/');
    assert(pieces.drop_last() =~= text::split(base, '/'));
    assert(component_pieces(pieces).last() == name);
    assert(name != "/"@) by {
        if name == "/"@ {
            assert(name[0] == '/');
        }
    }
    if base.last() == '/' {
        let b = base.drop_last();
        assert(base + name =~= b + seq!['/'] + name);
        lemma_split_concat(b, name, '/');
        lemma_split_without(name, '/');
        let sb = text::split(b, '/');
        text::lemma_split_nonempty(b, '/');
        assert(sb + seq![name] =~= sb.push(name));
        assert(sb.push(name).drop_last() =~= sb);
        assert(component_pieces(sb.push(name)).last() == name);
    }
}

/// Every component of a path but its root is a name: not empty, and with no
/// slash. The root comes first.
pub proof fn law_components_are_names(s: Seq<char>, i: int)
    ensures
        is_absolute(s) ==> components(s).len() > 0 && components(s)[0] == "/"@,
        0 <= i < components(s).len() && (i > 0 || !is_absolute(s)) ==> components(s)[i].len() > 0
            && !components(s)[i].contains('/'),
{
    text::lemma_split_pieces(s, '/');
    lemma_pieces_are_names(text::split(s, '/'));
    let names = component_pieces(text::split(s, '/'));
    if is_absolute(s) && 0 < i < components(s).len() {
        assert(components(s)[i] == names[i - 1]);
    }
}

proof fn lemma_pieces_are_names(pieces: Seq<Seq<char>>)
    requires
        forall|i: int| 0 <= i < pieces.len() ==> !(#[trigger] pieces[i]).contains('/'),
    ensures
        forall|i: int|
            0 <= i < component_pieces(pieces).len() ==> (#[trigger] component_pieces(
                pieces,
            )[i]).len() > 0 && !component_pieces(pieces)[i].contains('/'),
    decreases pieces.len(),
{
    if pieces.len() > 0 {
        assert forall|i: int| 0 <= i < pieces.len() - 1 implies !(
        #[trigger] pieces.drop_last()[i]).contains('/') by {
            assert(pieces.drop_last()[i] == pieces[i]);
        }
        lemma_pieces_are_names(pieces.drop_last());
        let before = component_pieces(pieces.drop_last());
        let now = component_pieces(pieces);
        let p = pieces.last();
        assert(!p.contains('/'));
        assert forall|i: int| 0 <= i < now.len() implies (#[trigger] now[i]).len() > 0
            && !now[i].contains('/') by {
            if i < before.len() {
                assert(now[i] == before[i]);
            } else {
                assert(now[i] == p);
            }
        }
    }
}

} // verus!
