//! Text helpers: character sequences, searching, splitting and joining.
//!
//! A text is modelled by its sequence of characters. Every helper is
//! stated over that sequence; byte lengths go through the UTF-8 encoding.

use vstd::prelude::*;
use vstd::string::*;

verus! {

/// `String::push` appends the given character to the end of the string.
pub assume_specification[ String::push ](s: &mut String, c: char)
    ensures
        final(s)@ == old(s)@.push(c),
;

// ---------------------------------------------------------------------
// Models
// ---------------------------------------------------------------------

/// Length of a text in UTF-8 bytes.
pub open spec fn byte_len(s: Seq<char>) -> nat {
    vstd::utf8::encode_utf8(s).len()
}

/// Index of the first occurrence of `p` at or after `i`, or -1.
pub open spec fn find_from(s: Seq<char>, p: Seq<char>, i: int) -> int
    decreases s.len() + 1 - i,
{
    if i < 0 || i + p.len() > s.len() {
        -1
    } else if s.subrange(i, i + p.len()) == p {
        i
    } else {
        find_from(s, p, i + 1)
    }
}

/// Whether `p` occurs in `s`.
pub open spec fn occurs(p: Seq<char>, s: Seq<char>) -> bool {
    exists|i: int| #[trigger] occurs_at(p, s, i)
}

/// Whether `p` occurs in `s` at index `i`.
pub open spec fn occurs_at(p: Seq<char>, s: Seq<char>, i: int) -> bool {
    0 <= i && i + p.len() <= s.len() && s.subrange(i, i + p.len()) == p
}

/// Index of the first `c` in `s`, or the length of `s`.
pub open spec fn first_index(s: Seq<char>, c: char) -> int
    decreases s.len(),
{
    if s.len() == 0 || s[0] == c {
        0
    } else {
        1 + first_index(s.skip(1), c)
    }
}

/// Pieces of `s` between occurrences of `c` (one more than there are).
pub open spec fn split(s: Seq<char>, c: char) -> Seq<Seq<char>>
    decreases s.len(),
{
    if s.len() == 0 {
        seq![Seq::<char>::empty()]
    } else {
        let before = split(s.drop_last(), c);
        if s.last() == c {
            before.push(Seq::<char>::empty())
        } else {
            before.drop_last().push(before.last().push(s.last()))
        }
    }
}

/// Pieces joined by a separator between neighbours.
pub open spec fn join(parts: Seq<Seq<char>>, sep: Seq<char>) -> Seq<char>
    decreases parts.len(),
{
    if parts.len() == 0 {
        Seq::<char>::empty()
    } else if parts.len() == 1 {
        parts[0]
    } else {
        join(parts.drop_last(), sep) + sep + parts.last()
    }
}

/// Unicode `White_Space`.
pub open spec fn is_space(c: char) -> bool {
    ||| '\u{9}' <= c <= '\u{d}'
    ||| c == ' '
    ||| c == '\u{85}'
    ||| c == '\u{a0}'
    ||| c == '\u{1680}'
    ||| '\u{2000}' <= c <= '\u{200a}'
    ||| c == '\u{2028}'
    ||| c == '\u{2029}'
    ||| c == '\u{202f}'
    ||| c == '\u{205f}'
    ||| c == '\u{3000}'
}

/// `s` without leading white space.
pub open spec fn trim_start(s: Seq<char>) -> Seq<char>
    decreases s.len(),
{
    if s.len() > 0 && is_space(s[0]) {
        trim_start(s.skip(1))
    } else {
        s
    }
}

/// `s` without trailing white space.
pub open spec fn trim_end(s: Seq<char>) -> Seq<char>
    decreases s.len(),
{
    if s.len() > 0 && is_space(s.last()) {
        trim_end(s.drop_last())
    } else {
        s
    }
}

/// `s` without surrounding white space.
pub open spec fn trimmed(s: Seq<char>) -> Seq<char> {
    trim_end(trim_start(s))
}

/// `s` without trailing occurrences of `c`.
pub open spec fn trim_end_char(s: Seq<char>, c: char) -> Seq<char>
    decreases s.len(),
{
    if s.len() > 0 && s.last() == c {
        trim_end_char(s.drop_last(), c)
    } else {
        s
    }
}

/// One line without a carriage return before its line feed.
pub open spec fn strip_return(s: Seq<char>) -> Seq<char> {
    if s.len() > 0 && s.last() == '\r' {
        s.drop_last()
    } else {
        s
    }
}

/// Lines of a text: terminated by a line feed, with an optional carriage
/// return before it; a last line without terminator counts when it is not
/// empty.
pub open spec fn lines_of(s: Seq<char>) -> Seq<Seq<char>> {
    let pieces = split(s, '\n');
    let ended = pieces.drop_last().map_values(|p: Seq<char>| strip_return(p));
    if pieces.last().len() == 0 {
        ended
    } else {
        ended.push(pieces.last())
    }
}

/// ASCII letter, digit, or character of `extra`, as selected.
pub open spec fn in_class(c: char, upper: bool, lower: bool, digit: bool, extra: Seq<char>) -> bool {
    ||| upper && 'A' <= c <= 'Z'
    ||| lower && 'a' <= c <= 'z'
    ||| digit && '0' <= c <= '9'
    ||| extra.contains(c)
}

/// Whether every character of `s` is in the class.
pub open spec fn all_in_class(
    s: Seq<char>,
    upper: bool,
    lower: bool,
    digit: bool,
    extra: Seq<char>,
) -> bool {
    forall|i: int| 0 <= i < s.len() ==> in_class(#[trigger] s[i], upper, lower, digit, extra)
}

/// Whether a text holds a line feed, a carriage return, or a NUL.
pub open spec fn has_control(s: Seq<char>) -> bool {
    s.contains('\n') || s.contains('\r') || s.contains('\0')
}

/// Lexicographic order by code point (which is the order of the UTF-8
/// bytes).
pub open spec fn lex_le(a: Seq<char>, b: Seq<char>) -> bool
    decreases a.len(),
{
    if a.len() == 0 {
        true
    } else if b.len() == 0 {
        false
    } else if a[0] != b[0] {
        a[0] < b[0]
    } else {
        lex_le(a.skip(1), b.skip(1))
    }
}

/// Decimal digit.
pub open spec fn digit_char(d: nat) -> char {
    (('0' as u32) + d) as char
}

/// Decimal rendering of a natural number.
pub open spec fn dec(n: nat) -> Seq<char>
    decreases n,
{
    if n < 10 {
        seq![digit_char(n)]
    } else {
        dec(n / 10).push(digit_char(n % 10))
    }
}

/// Decimal rendering of an integer.
pub open spec fn dec_int(n: int) -> Seq<char> {
    if n < 0 {
        "-"@ + dec((-n) as nat)
    } else {
        dec(n as nat)
    }
}

/// Number of occurrences of `c` in `s`.
pub open spec fn count(s: Seq<char>, c: char) -> nat
    decreases s.len(),
{
    if s.len() == 0 {
        0
    } else {
        count(s.drop_last(), c) + if s.last() == c {
            1nat
        } else {
            0nat
        }
    }
}

// ---------------------------------------------------------------------
// Lemmas
// ---------------------------------------------------------------------

pub proof fn lemma_first_index(s: Seq<char>, c: char)
    ensures
        0 <= first_index(s, c) <= s.len(),
        forall|j: int| 0 <= j < first_index(s, c) ==> s[j] != c,
        first_index(s, c) < s.len() ==> s[first_index(s, c)] == c,
        s.contains(c) <==> first_index(s, c) < s.len(),
    decreases s.len(),
{
    if s.len() == 0 || s[0] == c {
        if s.len() > 0 {
            assert(s.contains(c));
        }
    } else {
        lemma_first_index(s.skip(1), c);
        assert forall|j: int| 0 <= j < first_index(s, c) implies s[j] != c by {
            if j > 0 {
                assert(s[j] == s.skip(1)[j - 1]);
            }
        }
        if first_index(s, c) < s.len() {
            assert(s[first_index(s, c)] == s.skip(1)[first_index(s.skip(1), c)]);
        }
    }
}

/// `first_index` is the index with no earlier occurrence.
pub proof fn lemma_first_index_is(s: Seq<char>, c: char, i: int)
    requires
        0 <= i <= s.len(),
        forall|j: int| 0 <= j < i ==> s[j] != c,
        i < s.len() ==> s[i] == c,
    ensures
        first_index(s, c) == i,
{
    lemma_first_index(s, c);
    let f = first_index(s, c);
    if f < i {
        assert(s[f] != c);
    } else if i < f {
        assert(s[i] != c);
    }
}

pub proof fn lemma_find_from(s: Seq<char>, p: Seq<char>, i: int)
    requires
        0 <= i,
    ensures
        find_from(s, p, i) == -1 ==> forall|k: int| i <= k ==> !occurs_at(p, s, k),
        find_from(s, p, i) != -1 ==> find_from(s, p, i) >= i && occurs_at(
            p,
            s,
            find_from(s, p, i),
        ) && forall|k: int| i <= k < find_from(s, p, i) ==> !occurs_at(p, s, k),
    decreases s.len() + 1 - i,
{
    if i + p.len() <= s.len() && s.subrange(i, i + p.len()) != p {
        lemma_find_from(s, p, i + 1);
    }
}

pub proof fn lemma_split_nonempty(s: Seq<char>, c: char)
    ensures
        split(s, c).len() >= 1,
    decreases s.len(),
{
    if s.len() > 0 {
        lemma_split_nonempty(s.drop_last(), c);
    }
}

/// No piece holds the separator.
pub proof fn lemma_split_pieces(s: Seq<char>, c: char)
    ensures
        split(s, c).len() >= 1,
        forall|i: int| 0 <= i < split(s, c).len() ==> !(#[trigger] split(s, c)[i]).contains(c),
    decreases s.len(),
{
    if s.len() > 0 {
        lemma_split_pieces(s.drop_last(), c);
        let before = split(s.drop_last(), c);
        assert forall|i: int| 0 <= i < split(s, c).len() implies !(#[trigger] split(
            s,
            c,
        )[i]).contains(c) by {
            if i < before.len() - 1 {
                assert(split(s, c)[i] == before[i]);
            } else if s.last() == c {
                if i == before.len() - 1 {
                    assert(split(s, c)[i] == before[i]);
                }
            } else {
                assert(split(s, c)[i] == before.last().push(s.last()));
                assert(before.last() == before[before.len() - 1]);
                let piece = before.last().push(s.last());
                if piece.contains(c) {
                    let k = choose|k: int| 0 <= k < piece.len() && piece[k] == c;
                    if k < before.last().len() {
                        assert(before.last()[k] == c);
                    }
                }
            }
        }
    }
}

pub proof fn lemma_lex_le_refl(a: Seq<char>)
    ensures
        lex_le(a, a),
    decreases a.len(),
{
    if a.len() > 0 {
        lemma_lex_le_refl(a.skip(1));
    }
}

pub proof fn lemma_lex_le_total(a: Seq<char>, b: Seq<char>)
    ensures
        lex_le(a, b) || lex_le(b, a),
    decreases a.len(),
{
    if a.len() > 0 && b.len() > 0 && a[0] == b[0] {
        lemma_lex_le_total(a.skip(1), b.skip(1));
    }
}

pub proof fn lemma_lex_le_trans(a: Seq<char>, b: Seq<char>, c: Seq<char>)
    requires
        lex_le(a, b),
        lex_le(b, c),
    ensures
        lex_le(a, c),
    decreases a.len(),
{
    if a.len() > 0 && b.len() > 0 && c.len() > 0 && a[0] == b[0] && b[0] == c[0] {
        lemma_lex_le_trans(a.skip(1), b.skip(1), c.skip(1));
    }
}

pub proof fn lemma_lex_le_antisym(a: Seq<char>, b: Seq<char>)
    requires
        lex_le(a, b),
        lex_le(b, a),
    ensures
        a == b,
    decreases a.len(),
{
    if a.len() > 0 && b.len() > 0 && a[0] == b[0] {
        lemma_lex_le_antisym(a.skip(1), b.skip(1));
        assert(a =~= seq![a[0]] + a.skip(1));
        assert(b =~= seq![b[0]] + b.skip(1));
    } else {
        assert(a =~= b);
    }
}

pub proof fn lemma_dec_injective(a: nat, b: nat)
    requires
        dec(a) == dec(b),
    ensures
        a == b,
    decreases a + b,
{
    assert(digit_char(a % 10) as int == 48 + a % 10);
    assert(digit_char(b % 10) as int == 48 + b % 10);
    if a < 10 && b < 10 {
        assert(dec(a)[0] == dec(b)[0]);
        assert(dec(a) == seq![digit_char(a)] && dec(b) == seq![digit_char(b)]);
        assert(dec(a)[0] == digit_char(a) && dec(b)[0] == digit_char(b));
        assert(a % 10 == a && b % 10 == b);
        assert(a == b);
    } else if a < 10 {
        lemma_dec_nonempty(b / 10);
        assert(dec(a).len() == 1 && dec(b).len() >= 2);
    } else if b < 10 {
        lemma_dec_nonempty(a / 10);
        assert(dec(b).len() == 1 && dec(a).len() >= 2);
    } else {
        assert(dec(a).last() == digit_char(a % 10));
        assert(dec(b).last() == digit_char(b % 10));
        assert(dec(a).drop_last() =~= dec(a / 10));
        assert(dec(b).drop_last() =~= dec(b / 10));
        lemma_dec_injective(a / 10, b / 10);
        assert(a % 10 == b % 10);
        assert(a == 10 * (a / 10) + a % 10);
        assert(b == 10 * (b / 10) + b % 10);
        assert(a == b);
    }
}

pub proof fn lemma_dec_nonempty(n: nat)
    ensures
        dec(n).len() >= 1,
    decreases n,
{
    if n >= 10 {
        lemma_dec_nonempty(n / 10);
    }
}

pub proof fn lemma_count_push(s: Seq<char>, x: char, c: char)
    ensures
        count(s.push(x), c) == count(s, c) + if x == c {
            1nat
        } else {
            0nat
        },
{
    assert(s.push(x).drop_last() =~= s);
}

pub proof fn lemma_count_add(a: Seq<char>, b: Seq<char>, c: char)
    ensures
        count(a + b, c) == count(a, c) + count(b, c),
    decreases b.len(),
{
    if b.len() == 0 {
        assert(a + b =~= a);
    } else {
        lemma_count_add(a, b.drop_last(), c);
        assert((a + b).drop_last() =~= a + b.drop_last());
    }
}

pub proof fn lemma_trim_start(s: Seq<char>, i: int)
    requires
        0 <= i <= s.len(),
        forall|j: int| 0 <= j < i ==> is_space(s[j]),
        i < s.len() ==> !is_space(s[i]),
    ensures
        trim_start(s) == s.skip(i),
    decreases i,
{
    if i > 0 {
        assert(is_space(s[0]));
        let t = s.skip(1);
        assert forall|j: int| 0 <= j < i - 1 implies is_space(t[j]) by {
            assert(t[j] == s[j + 1]);
        }
        lemma_trim_start(t, i - 1);
        assert(t.skip(i - 1) =~= s.skip(i));
    } else {
        assert(s.skip(0) =~= s);
    }
}

pub proof fn lemma_trim_end(s: Seq<char>, n: int)
    requires
        0 <= n <= s.len(),
        forall|j: int| n <= j < s.len() ==> is_space(s[j]),
        n > 0 ==> !is_space(s[n - 1]),
    ensures
        trim_end(s) == s.take(n),
    decreases s.len() - n,
{
    if n < s.len() {
        let t = s.drop_last();
        assert forall|j: int| n <= j < t.len() implies is_space(t[j]) by {
            assert(t[j] == s[j]);
        }
        lemma_trim_end(t, n);
        assert(t.take(n) =~= s.take(n));
    } else {
        assert(s.take(n) =~= s);
    }
}

pub proof fn lemma_trim_end_char(s: Seq<char>, c: char, n: int)
    requires
        0 <= n <= s.len(),
        forall|j: int| n <= j < s.len() ==> s[j] == c,
        n > 0 ==> s[n - 1] != c,
    ensures
        trim_end_char(s, c) == s.take(n),
    decreases s.len() - n,
{
    if n < s.len() {
        let t = s.drop_last();
        assert forall|j: int| n <= j < t.len() implies t[j] == c by {
            assert(t[j] == s[j]);
        }
        lemma_trim_end_char(t, c, n);
        assert(t.take(n) =~= s.take(n));
    } else {
        assert(s.take(n) =~= s);
    }
}

// ---------------------------------------------------------------------
// Executable helpers
// ---------------------------------------------------------------------

/// The characters of a text, in order.
pub fn chars_of(s: &str) -> (v: Vec<char>)
    ensures
        v@ == s@,
{
    let mut v: Vec<char> = Vec::new();
    for c in it: s.chars()
        invariant
            it.seq() == s@,
            v@ == s@.take(it.index() as int),
    {
        v.push(c);
    }
    v
}

/// The text made of the characters of `v` from `from` up to `to`.
pub fn slice_of(v: &[char], from: usize, to: usize) -> (s: String)
    requires
        from <= to <= v@.len(),
    ensures
        s@ == v@.subrange(from as int, to as int),
{
    let mut s = String::new();
    let mut i: usize = from;
    while i < to
        invariant
            from <= i <= to <= v@.len(),
            s@ == v@.subrange(from as int, i as int),
        decreases to - i,
    {
        s.push(v[i]);
        i = i + 1;
        assert(v@.subrange(from as int, i as int) =~= v@.subrange(from as int, i - 1).push(
            v@[i - 1],
        ));
    }
    s
}

/// The text made of the given characters.
pub fn string_of(v: &[char]) -> (s: String)
    ensures
        s@ == v@,
{
    assert(v@.subrange(0, v@.len() as int) =~= v@);
    slice_of(v, 0, v.len())
}

/// Whether two texts hold the same characters.
pub fn eq(a: &str, b: &str) -> (same: bool)
    ensures
        same == (a@ == b@),
{
    a.to_owned() == b.to_owned()
}

/// Length in UTF-8 bytes.
pub fn len_bytes(s: &str) -> (n: usize)
    ensures
        n == byte_len(s@),
{
    s.as_bytes().len()
}

/// Two texts, one after the other.
pub fn cat(a: &str, b: &str) -> (s: String)
    ensures
        s@ == a@ + b@,
{
    let mut s = a.to_owned();
    s.append(b);
    s
}

/// Three texts, one after the other.
pub fn cat3(a: &str, b: &str, c: &str) -> (s: String)
    ensures
        s@ == a@ + b@ + c@,
{
    let mut s = a.to_owned();
    s.append(b);
    s.append(c);
    s
}

/// Four texts, one after the other.
pub fn cat4(a: &str, b: &str, c: &str, d: &str) -> (s: String)
    ensures
        s@ == a@ + b@ + c@ + d@,
{
    let mut s = a.to_owned();
    s.append(b);
    s.append(c);
    s.append(d);
    s
}

/// Five texts, one after the other.
pub fn cat5(a: &str, b: &str, c: &str, d: &str, e: &str) -> (s: String)
    ensures
        s@ == a@ + b@ + c@ + d@ + e@,
{
    let mut s = a.to_owned();
    s.append(b);
    s.append(c);
    s.append(d);
    s.append(e);
    s
}

/// Six texts, one after the other.
pub fn cat6(a: &str, b: &str, c: &str, d: &str, e: &str, f: &str) -> (s: String)
    ensures
        s@ == a@ + b@ + c@ + d@ + e@ + f@,
{
    let mut s = a.to_owned();
    s.append(b);
    s.append(c);
    s.append(d);
    s.append(e);
    s.append(f);
    s
}

/// Whether the characters of `p` stand in `s` at index `i`.
fn stands_at(s: &[char], p: &[char], i: usize) -> (b: bool)
    requires
        i + p@.len() <= s@.len(),
    ensures
        b == (s@.subrange(i as int, i + p@.len()) == p@),
{
    let total: usize = s.len();
    let mut k: usize = 0;
    while k < p.len()
        invariant
            total == s@.len(),
            i + p@.len() <= s@.len(),
            k <= p@.len(),
            s@.subrange(i as int, i + k) == p@.take(k as int),
        decreases p.len() - k,
    {
        if s[i + k] != p[k] {
            assert(s@.subrange(i as int, i + p@.len())[k as int] == s@[i + k]);
            return false;
        }
        assert(s@.subrange(i as int, i + k + 1) =~= s@.subrange(i as int, i + k).push(s@[i + k]));
        assert(p@.take(k + 1) =~= p@.take(k as int).push(p@[k as int]));
        k = k + 1;
    }
    assert(p@.take(k as int) =~= p@);
    true
}

/// Index of the first occurrence of `p` in `s` at or after `from`.
pub fn find(s: &[char], p: &[char], from: usize) -> (r: Option<usize>)
    ensures
        match r {
            Some(i) => i == find_from(s@, p@, from as int) && from <= i && i + p@.len() <= s@.len(),
            None => find_from(s@, p@, from as int) == -1,
        },
{
    if p.len() > s.len() {
        return None;
    }
    let last: usize = s.len() - p.len();
    let mut i: usize = from;
    while i <= last
        invariant
            last == s@.len() - p@.len(),
            from <= i,
            i <= last + 1 || i == from,
            find_from(s@, p@, from as int) == find_from(s@, p@, i as int),
        decreases last + 1 - i,
    {
        if stands_at(s, p, i) {
            return Some(i);
        }
        if i == last {
            assert(find_from(s@, p@, i + 1) == -1);
            return None;
        }
        i = i + 1;
    }
    None
}

/// Whether `p` occurs in `s`.
pub fn contains(s: &str, p: &str) -> (b: bool)
    ensures
        b == occurs(p@, s@),
{
    let sv = chars_of(s);
    let pv = chars_of(p);
    proof {
        lemma_find_from(s@, p@, 0);
    }
    match find(&sv, &pv, 0) {
        Some(i) => {
            assert(occurs_at(p@, s@, i as int));
            true
        },
        None => {
            assert forall|i: int| !(#[trigger] occurs_at(p@, s@, i)) by {
                if i >= 0 {
                }
            }
            false
        },
    }
}

/// Whether `s` begins with `p`.
pub fn starts_with(s: &str, p: &str) -> (b: bool)
    ensures
        b == p@.is_prefix_of(s@),
{
    let sv = chars_of(s);
    let pv = chars_of(p);
    if pv.len() > sv.len() {
        false
    } else {
        stands_at(&sv, &pv, 0)
    }
}

/// Whether `s` ends with `p`.
pub fn ends_with(s: &str, p: &str) -> (b: bool)
    ensures
        b == p@.is_suffix_of(s@),
{
    let sv = chars_of(s);
    let pv = chars_of(p);
    if pv.len() > sv.len() {
        false
    } else {
        stands_at(&sv, &pv, sv.len() - pv.len())
    }
}

/// Index of the first `c` in `s`, or its length.
pub fn first_index_of(s: &[char], c: char) -> (i: usize)
    ensures
        i == first_index(s@, c),
        i <= s@.len(),
        i < s@.len() <==> s@.contains(c),
{
    proof {
        lemma_first_index(s@, c);
    }
    let mut i: usize = 0;
    while i < s.len()
        invariant
            i <= s@.len(),
            forall|j: int| 0 <= j < i ==> s@[j] != c,
            s@.contains(c) <==> first_index(s@, c) < s@.len(),
        decreases s.len() - i,
    {
        if s[i] == c {
            proof {
                lemma_first_index_is(s@, c, i as int);
            }
            return i;
        }
        i = i + 1;
    }
    proof {
        lemma_first_index_is(s@, c, i as int);
    }
    i
}

/// Whether `s` holds the character `c`.
pub fn has_char(s: &str, c: char) -> (b: bool)
    ensures
        b == s@.contains(c),
{
    let v = chars_of(s);
    first_index_of(&v, c) < v.len()
}

/// Whether `s` holds a line feed, a carriage return, or a NUL.
pub fn has_control_char(s: &str) -> (b: bool)
    ensures
        b == has_control(s@),
{
    has_char(s, '\n') || has_char(s, '\r') || has_char(s, '\0')
}

/// Text before and after the first `c`, when there is one.
pub fn split_once(s: &str, c: char) -> (r: Option<(String, String)>)
    ensures
        match r {
            Some(p) => s@.contains(c) && p.0@ == s@.take(first_index(s@, c)) && p.1@ == s@.skip(
                first_index(s@, c) + 1,
            ),
            None => !s@.contains(c),
        },
{
    let v = chars_of(s);
    let i: usize = first_index_of(&v, c);
    if i < v.len() {
        let a = slice_of(&v, 0, i);
        let b = slice_of(&v, i + 1, v.len());
        assert(v@.subrange(0, i as int) =~= s@.take(i as int));
        assert(v@.subrange(i + 1, v@.len() as int) =~= s@.skip(i + 1));
        Some((a, b))
    } else {
        None
    }
}

/// Pieces of `s` between occurrences of `c`.
pub fn split_on(s: &str, c: char) -> (parts: Vec<String>)
    ensures
        parts.deep_view() == split(s@, c),
{
    let v = chars_of(s);
    let mut parts: Vec<String> = Vec::new();
    let mut cur = String::new();
    let mut i: usize = 0;
    assert(s@.take(0) =~= Seq::<char>::empty());
    assert(parts.deep_view().push(cur@) =~= seq![Seq::<char>::empty()]);
    while i < v.len()
        invariant
            v@ == s@,
            i <= v@.len(),
            parts.deep_view().push(cur@) == split(s@.take(i as int), c),
        decreases v.len() - i,
    {
        let ghost before = split(s@.take(i as int), c);
        let ghost seen = parts.deep_view();
        assert(s@.take(i + 1).drop_last() =~= s@.take(i as int));
        assert(before.drop_last() =~= seen);
        if v[i] == c {
            parts.push(cur);
            assert(parts.deep_view() =~= before);
            cur = String::new();
        } else {
            cur.push(v[i]);
        }
        i = i + 1;
    }
    assert(s@.take(i as int) =~= s@);
    let ghost seen = parts.deep_view();
    let ghost last = cur@;
    parts.push(cur);
    assert(parts.deep_view() =~= seen.push(last));
    parts
}

/// Pieces joined by `sep`.
pub fn join_with(parts: &Vec<String>, sep: &str) -> (s: String)
    ensures
        s@ == join(parts.deep_view(), sep@),
{
    let mut s = String::new();
    let mut i: usize = 0;
    assert(parts.deep_view().take(0) =~= Seq::<Seq<char>>::empty());
    while i < parts.len()
        invariant
            i <= parts@.len(),
            s@ == join(parts.deep_view().take(i as int), sep@),
        decreases parts.len() - i,
    {
        let ghost all = parts.deep_view();
        assert(all.take(i + 1).drop_last() =~= all.take(i as int));
        if i > 0 {
            s.append(sep);
        } else {
            assert(s@ + all[0] =~= all[0]);
        }
        s.append(parts[i].as_str());
        i = i + 1;
    }
    assert(parts.deep_view().take(i as int) =~= parts.deep_view());
    s
}

/// Whether the list holds the text.
pub fn has_text(list: &Vec<String>, s: &str) -> (b: bool)
    ensures
        b == list.deep_view().contains(s@),
{
    let ghost all = list.deep_view();
    let mut i: usize = 0;
    while i < list.len()
        invariant
            all == list.deep_view(),
            i <= list@.len(),
            forall|k: int| 0 <= k < i ==> all[k] != s@,
        decreases list.len() - i,
    {
        assert(all[i as int] == list@[i as int]@);
        if eq(list[i].as_str(), s) {
            return true;
        }
        i = i + 1;
    }
    false
}

/// A copy of a list of texts.
pub fn copy_texts(list: &Vec<String>) -> (out: Vec<String>)
    ensures
        out.deep_view() == list.deep_view(),
{
    let ghost all = list.deep_view();
    let mut out: Vec<String> = Vec::new();
    let mut i: usize = 0;
    while i < list.len()
        invariant
            all == list.deep_view(),
            i <= list@.len(),
            out.deep_view() =~= all.take(i as int),
        decreases list.len() - i,
    {
        let ghost before = out.deep_view();
        out.push(list[i].clone());
        assert(out.deep_view() =~= before.push(all[i as int]));
        i = i + 1;
    }
    out
}

/// Whether a character is Unicode white space.
pub fn is_space_char(c: char) -> (b: bool)
    ensures
        b == is_space(c),
{
    ('\u{9}' <= c && c <= '\u{d}') || c == ' ' || c == '\u{85}' || c == '\u{a0}' || c == '\u{1680}'
        || ('\u{2000}' <= c && c <= '\u{200a}') || c == '\u{2028}' || c == '\u{2029}' || c
        == '\u{202f}' || c == '\u{205f}' || c == '\u{3000}'
}

/// `s` without surrounding white space.
pub fn trim(s: &str) -> (t: String)
    ensures
        t@ == trimmed(s@),
{
    let v = chars_of(s);
    let mut i: usize = 0;
    while i < v.len() && is_space_char(v[i])
        invariant
            v@ == s@,
            i <= v@.len(),
            forall|j: int| 0 <= j < i ==> is_space(v@[j]),
        decreases v.len() - i,
    {
        i = i + 1;
    }
    proof {
        lemma_trim_start(s@, i as int);
    }
    let mut n: usize = v.len();
    while i < n && is_space_char(v[n - 1])
        invariant
            v@ == s@,
            i <= n <= v@.len(),
            forall|j: int| n <= j < v@.len() ==> is_space(v@[j]),
        decreases n,
    {
        n = n - 1;
    }
    proof {
        let t = s@.skip(i as int);
        assert forall|j: int| n - i <= j < t.len() implies is_space(t[j]) by {
            assert(t[j] == s@[j + i]);
        }
        lemma_trim_end(t, n - i);
        assert(t.take(n - i) =~= v@.subrange(i as int, n as int));
    }
    slice_of(&v, i, n)
}

/// `s` without trailing occurrences of `c`.
pub fn trim_end_matches(s: &str, c: char) -> (t: String)
    ensures
        t@ == trim_end_char(s@, c),
{
    let v = chars_of(s);
    let mut n: usize = v.len();
    while 0 < n && v[n - 1] == c
        invariant
            v@ == s@,
            n <= v@.len(),
            forall|j: int| n <= j < v@.len() ==> v@[j] == c,
        decreases n,
    {
        n = n - 1;
    }
    proof {
        lemma_trim_end_char(s@, c, n as int);
        assert(s@.take(n as int) =~= v@.subrange(0, n as int));
    }
    slice_of(&v, 0, n)
}

/// Lines of a text.
pub fn lines(s: &str) -> (out: Vec<String>)
    ensures
        out.deep_view() == lines_of(s@),
{
    let pieces = split_on(s, '\n');
    proof {
        lemma_split_nonempty(s@, '\n');
    }
    let ghost model = split(s@, '\n');
    let ghost strip = |p: Seq<char>| strip_return(p);
    let last: usize = pieces.len() - 1;
    let mut out: Vec<String> = Vec::new();
    let mut i: usize = 0;
    while i < last
        invariant
            pieces.deep_view() == model,
            last == model.len() - 1,
            i <= last,
            strip == (|p: Seq<char>| strip_return(p)),
            out.deep_view() =~= model.take(i as int).map_values(strip),
        decreases last - i,
    {
        let ghost seen = out.deep_view();
        assert(model[i as int] == pieces@[i as int]@);
        let v = chars_of(pieces[i].as_str());
        let line = if v.len() > 0 && v[v.len() - 1] == '\r' {
            assert(v@.subrange(0, v@.len() - 1) =~= v@.drop_last());
            slice_of(&v, 0, v.len() - 1)
        } else {
            string_of(&v)
        };
        out.push(line);
        assert(out.deep_view() =~= seen.push(strip_return(model[i as int])));
        assert(model.take(i + 1).map_values(strip) =~= model.take(i as int).map_values(strip).push(
            strip(model[i as int]),
        ));
        i = i + 1;
    }
    assert(model.take(last as int) =~= model.drop_last());
    let ghost ended = out.deep_view();
    assert(model.last() == pieces@[last as int]@);
    let tail = pieces[last].as_str().to_owned();
    if !tail.as_str().is_empty() {
        out.push(tail);
        assert(out.deep_view() =~= ended.push(model.last()));
    }
    out
}

/// Whether every character of `s` is in the class.
pub fn all_in(s: &str, upper: bool, lower: bool, digit: bool, extra: &str) -> (b: bool)
    ensures
        b == all_in_class(s@, upper, lower, digit, extra@),
{
    let v = chars_of(s);
    let e = chars_of(extra);
    let mut i: usize = 0;
    while i < v.len()
        invariant
            v@ == s@,
            e@ == extra@,
            i <= v@.len(),
            forall|j: int|
                0 <= j < i ==> in_class(#[trigger] s@[j], upper, lower, digit, extra@),
        decreases v.len() - i,
    {
        let c = v[i];
        if !((upper && 'A' <= c && c <= 'Z') || (lower && 'a' <= c && c <= 'z') || (digit && '0'
            <= c && c <= '9') || first_index_of(&e, c) < e.len()) {
            assert(!in_class(s@[i as int], upper, lower, digit, extra@));
            return false;
        }
        i = i + 1;
    }
    true
}

/// Whether `a` stands before or at `b` in code point order.
pub fn lex_le_text(a: &str, b: &str) -> (r: bool)
    ensures
        r == lex_le(a@, b@),
{
    let x = chars_of(a);
    let y = chars_of(b);
    let mut i: usize = 0;
    assert(a@.skip(0) =~= a@ && b@.skip(0) =~= b@);
    while i < x.len()
        invariant
            x@ == a@,
            y@ == b@,
            i <= x@.len(),
            i <= y@.len(),
            lex_le(a@, b@) == lex_le(a@.skip(i as int), b@.skip(i as int)),
        decreases x.len() - i,
    {
        let ghost p = a@.skip(i as int);
        let ghost q = b@.skip(i as int);
        assert(p[0] == a@[i as int]);
        if i == y.len() {
            return false;
        }
        assert(q[0] == b@[i as int]);
        if x[i] != y[i] {
            return x[i] < y[i];
        }
        assert(p.skip(1) =~= a@.skip(i + 1));
        assert(q.skip(1) =~= b@.skip(i + 1));
        i = i + 1;
    }
    true
}

/// Decimal digit.
fn digit(d: u64) -> (c: char)
    requires
        d < 10,
    ensures
        c == digit_char(d as nat),
{
    if d == 0 {
        '0'
    } else if d == 1 {
        '1'
    } else if d == 2 {
        '2'
    } else if d == 3 {
        '3'
    } else if d == 4 {
        '4'
    } else if d == 5 {
        '5'
    } else if d == 6 {
        '6'
    } else if d == 7 {
        '7'
    } else if d == 8 {
        '8'
    } else {
        '9'
    }
}

/// Decimal rendering of an unsigned number.
pub fn dec_u64(n: u64) -> (s: String)
    ensures
        s@ == dec(n as nat),
    decreases n,
{
    if n < 10 {
        let mut s = String::new();
        s.push(digit(n));
        assert(s@ =~= seq![digit_char(n as nat)]);
        s
    } else {
        let mut s = dec_u64(n / 10);
        s.push(digit(n % 10));
        s
    }
}

/// Decimal rendering of a signed number.
pub fn dec_i64(n: i64) -> (s: String)
    ensures
        s@ == dec_int(n as int),
{
    if n >= 0 {
        dec_u64(n as u64)
    } else if n == i64::MIN {
        proof {
            lemma_dec_min();
        }
        cat("-", "9223372036854775808")
    } else {
        let m: i64 = -n;
        cat("-", dec_u64(m as u64).as_str())
    }
}

proof fn lemma_dec_min()
    ensures
        dec(9223372036854775808nat) == "9223372036854775808"@,
{
    reveal_strlit("9223372036854775808");
    reveal_with_fuel(dec, 20);
    assert(dec(9223372036854775808nat) =~= "9223372036854775808"@);
}

// ---------------------------------------------------------------------
// Laws
// ---------------------------------------------------------------------

/// Splitting two texts with the separator between them splits each.
pub proof fn law_splits_add_up(a: Seq<char>, b: Seq<char>, c: char)
    ensures
        split(a + seq![c] + b, c) == split(a, c) + split(b, c),
        !b.contains(c) ==> split(b, c) == seq![b],
    decreases b.len(),
{
    lemma_split_nonempty(a, c);
    let whole = a + seq![c] + b;
    if b.len() == 0 {
        assert(whole.drop_last() =~= a);
        assert(split(whole, c) =~= split(a, c) + split(b, c));
        assert(b =~= Seq::<char>::empty());
    } else {
        law_splits_add_up(a, b.drop_last(), c);
        lemma_split_nonempty(b.drop_last(), c);
        assert(whole.drop_last() =~= a + seq![c] + b.drop_last());
        assert(split(whole, c) =~= split(a, c) + split(b, c));
        if !b.contains(c) {
            assert(b.last() != c);
            assert(!b.drop_last().contains(c)) by {
                if b.drop_last().contains(c) {
                    let i = choose|i: int| 0 <= i < b.len() - 1 && b.drop_last()[i] == c;
                    assert(b[i] == c);
                }
            }
            assert(split(b, c) =~= seq![b.drop_last().push(b.last())]);
            assert(b.drop_last().push(b.last()) =~= b);
        }
    }
}

/// What a text is split into joins to that text again.
pub proof fn law_splits_join_again(s: Seq<char>, c: char)
    ensures
        join(split(s, c), seq![c]) == s,
    decreases s.len(),
{
    if s.len() == 0 {
        assert(s =~= Seq::<char>::empty());
    } else {
        let before = split(s.drop_last(), c);
        lemma_split_nonempty(s.drop_last(), c);
        law_splits_join_again(s.drop_last(), c);
        let now = split(s, c);
        if s.last() == c {
            assert(now.drop_last() =~= before);
            assert(join(now, seq![c]) =~= s.drop_last().push(c));
        } else {
            assert(now.drop_last() =~= before.drop_last());
            assert(before.last().push(s.last()) == now.last());
            assert(join(now, seq![c]) =~= join(before, seq![c]).push(s.last()));
        }
        assert(s.drop_last().push(s.last()) =~= s);
    }
}

/// Texts are joined with the separator between each two and nowhere else.
pub proof fn law_joins_put_the_separator_between(
    parts: Seq<Seq<char>>,
    more: Seq<Seq<char>>,
    sep: Seq<char>,
)
    ensures
        parts.len() > 0 && more.len() > 0 ==> join(parts + more, sep) == join(parts, sep) + sep
            + join(more, sep),
        more.len() == 0 ==> join(parts + more, sep) == join(parts, sep),
        parts.len() == 1 ==> join(parts, sep) == parts[0],
    decreases more.len(),
{
    if more.len() == 0 {
        assert(parts + more =~= parts);
    } else if parts.len() > 0 {
        let whole = parts + more;
        assert(whole.drop_last() =~= parts + more.drop_last());
        law_joins_put_the_separator_between(parts, more.drop_last(), sep);
        assert(join(whole, sep) == join(parts + more.drop_last(), sep) + sep + more.last());
        if more.len() == 1 {
            assert(parts + more.drop_last() =~= parts);
        } else {
            assert(join(whole, sep) =~= join(parts, sep) + sep + join(more, sep));
        }
    }
}

/// A trimmed text is what is left of the text when the spaces around it are
/// gone: spaces before, spaces after, and no space at either end.
pub proof fn law_trimming_drops_the_spaces_around(s: Seq<char>)
    ensures
        exists|i: int, j: int|
            0 <= i <= j <= s.len() && trimmed(s) == #[trigger] s.subrange(i, j) && (forall|k: int|
                0 <= k < s.len() && (k < i || j <= k) ==> is_space(#[trigger] s[k])),
        trimmed(s).len() > 0 ==> !is_space(trimmed(s)[0]) && !is_space(trimmed(s).last()),
{
    let i = lemma_leading(s);
    lemma_trim_start(s, i);
    let t = s.skip(i);
    let n = lemma_trailing(t);
    lemma_trim_end(t, n);
    assert(trimmed(s) =~= s.subrange(i, i + n));
    assert forall|k: int| 0 <= k < s.len() && (k < i || i + n <= k) implies is_space(
        #[trigger] s[k],
    ) by {
        if i + n <= k {
            assert(t[k - i] == s[k]);
        }
    }
    if n > 0 {
        assert(trimmed(s)[0] == s[i]);
        assert(trimmed(s).last() == t[n - 1]);
    }
}

proof fn lemma_leading(s: Seq<char>) -> (i: int)
    ensures
        0 <= i <= s.len(),
        forall|j: int| 0 <= j < i ==> is_space(s[j]),
        i < s.len() ==> !is_space(s[i]),
    decreases s.len(),
{
    if s.len() > 0 && is_space(s[0]) {
        let r = lemma_leading(s.skip(1));
        assert forall|j: int| 0 <= j < r + 1 implies is_space(s[j]) by {
            if j > 0 {
                assert(s[j] == s.skip(1)[j - 1]);
            }
        }
        if r + 1 < s.len() {
            assert(s[r + 1] == s.skip(1)[r]);
        }
        r + 1
    } else {
        0
    }
}

proof fn lemma_trailing(s: Seq<char>) -> (n: int)
    ensures
        0 <= n <= s.len(),
        forall|j: int| n <= j < s.len() ==> is_space(s[j]),
        n > 0 ==> !is_space(s[n - 1]),
    decreases s.len(),
{
    if s.len() > 0 && is_space(s.last()) {
        let n = lemma_trailing(s.drop_last());
        assert forall|j: int| n <= j < s.len() implies is_space(s[j]) by {
            if j < s.len() - 1 {
                assert(s[j] == s.drop_last()[j]);
            }
        }
        n
    } else {
        s.len() as int
    }
}

/// Of the plain characters, the blank and the five from the tab to the carriage
/// return are spaces, and no other.
pub proof fn law_plain_spaces(c: char)
    requires
        (c as u32) < 0x80,
    ensures
        is_space(c) <==> c == ' ' || c == '\t' || c == '\n' || c == '\u{b}' || c == '\u{c}' || c
            == '\r',
{
}

/// A line ends at its line feed, without it and without one carriage return
/// before it, and the lines of what follows come after; a text without a line
/// feed is one line as it stands, and an empty one is none.
pub proof fn law_lines_end_at_the_line_feed(a: Seq<char>, b: Seq<char>)
    requires
        !a.contains('\n'),
    ensures
        a.len() == 0 || a.last() != '\r' ==> lines_of(a + seq!['\n'] + b) == seq![a] + lines_of(b),
        lines_of(a + seq!['\r'] + seq!['\n'] + b) == seq![a] + lines_of(b),
        a.len() > 0 ==> lines_of(a) == seq![a],
        a.len() == 0 ==> lines_of(a).len() == 0,
{
    law_splits_add_up(a, b, '\n');
    law_splits_add_up(Seq::empty(), a, '\n');
    lemma_split_nonempty(b, '\n');
    let pb = split(b, '\n');
    let w = a + seq!['\n'] + b;
    let strip = |p: Seq<char>| strip_return(p);
    assert(split(a, '\n') == seq![a]);
    assert((seq![a] + pb).drop_last() =~= seq![a] + pb.drop_last());
    assert((seq![a] + pb).drop_last().map_values(strip) =~= seq![strip_return(a)]
        + pb.drop_last().map_values(strip));
    assert((seq![a] + pb).last() == pb.last());
    assert(lines_of(w) =~= seq![strip_return(a)] + lines_of(b));
    let r = a + seq!['\r'];
    assert(!r.contains('\n')) by {
        if r.contains('\n') {
            let i = choose|i: int| 0 <= i < r.len() && r[i] == '\n';
            assert(i < a.len() && a[i] == '\n');
        }
    }
    law_splits_add_up(r, b, '\n');
    law_splits_add_up(Seq::empty(), r, '\n');
    assert(split(r, '\n') == seq![r]);
    assert(r.drop_last() =~= a);
    assert((seq![r] + pb).drop_last() =~= seq![r] + pb.drop_last());
    assert((seq![r] + pb).drop_last().map_values(strip) =~= seq![a] + pb.drop_last().map_values(
        strip,
    ));
    assert((seq![r] + pb).last() == pb.last());
    assert(lines_of(r + seq!['\n'] + b) =~= seq![a] + lines_of(b));
    assert(seq![a].drop_last().map_values(strip) =~= Seq::empty());
    if a.len() > 0 {
        assert(lines_of(a) =~= seq![a]);
    } else {
        assert(lines_of(a) =~= Seq::empty());
    }
}

/// Texts are ordered by their first difference, and a text comes before what it
/// begins.
pub proof fn law_texts_are_ordered_by_the_first_difference(
    common: Seq<char>,
    x: char,
    y: char,
    a: Seq<char>,
    b: Seq<char>,
)
    ensures
        x < y ==> lex_le(common + seq![x] + a, common + seq![y] + b) && !lex_le(
            common + seq![y] + b,
            common + seq![x] + a,
        ),
        lex_le(common, common + a),
        a.len() > 0 ==> !lex_le(common + a, common),
    decreases common.len(),
{
    let p = common + seq![x] + a;
    let q = common + seq![y] + b;
    if common.len() > 0 {
        let rest = common.skip(1);
        law_texts_are_ordered_by_the_first_difference(rest, x, y, a, b);
        assert(p.skip(1) =~= rest + seq![x] + a);
        assert(q.skip(1) =~= rest + seq![y] + b);
        assert((common + a).skip(1) =~= rest + a);
        assert(p[0] == q[0] && p[0] == common[0] && (common + a)[0] == common[0]);
    } else {
        assert(p[0] == x && q[0] == y);
    }
}

/// A number below zero is written as a minus sign and the number above it.
pub proof fn law_negatives_carry_a_sign(n: nat)
    requires
        n > 0,
    ensures
        dec_int(-n) == "-"@ + dec(n),
        dec_int(n as int) == dec(n),
{
}

} // verus!
