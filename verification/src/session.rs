//! Session identity: minted ids, driver labels, and harness argv.
//!
//! `conduct` mints the id (invocation identity, not a config digest) so two
//! concurrent invocations on the same directory never collide. Only the
//! driver emits `cistella.*` labels; generic `--label` keys share one
//! validation rule and are refused the reserved prefix.

use vstd::arithmetic::power::pow;
use vstd::prelude::*;

use crate::error::{CistellaError, ErrorView, Result};
use crate::text;

verus! {

/// Label keys emitted only by the driver.
pub const LABEL_ID: &'static str = "cistella.id";

pub const LABEL_DIRECTORY: &'static str = "cistella.directory";

pub const LABEL_PROFILE: &'static str = "cistella.profile";

pub const LABEL_PROFILE_DIGEST: &'static str = "cistella.profile-digest";

pub const LABEL_IDENTITY: &'static str = "cistella.identity";

pub const LABEL_COMMAND: &'static str = "cistella.command";

pub const LABEL_IMAGE: &'static str = "cistella.image";

/// Reconciliation key label: replacement-peer recovery.
pub const LABEL_RECONCILIATION_KEY: &'static str = "cistella.reconciliation-key";

/// Reserved prefix: only the driver emits `cistella.*` labels.
pub const RESERVED_PREFIX: &'static str = "cistella.";

/// Fixed length of a minted session id (9 time chars + 8 entropy chars).
pub const MINTED_ID_LEN: usize = 17;

/// Lowercase Crockford base32 alphabet (`[a-z0-9]`, no `i`/`l`/`o`/`u`).
pub open spec fn crockford() -> Seq<char> {
    "0123456789abcdefghjkmnpqrstvwxyz"@
}

/// Base32 rendering of `n` in exactly `width` characters, most significant
/// first; what does not fit is cut off at the front.
pub open spec fn base32(n: nat, width: nat) -> Seq<char>
    decreases width,
{
    if width == 0 {
        Seq::empty()
    } else {
        base32(n / 32, (width - 1) as nat).push(crockford()[(n % 32) as int])
    }
}

/// Number whose base-256 digits are the bytes, most significant first.
pub open spec fn big_endian(bytes: Seq<u8>) -> nat
    decreases bytes.len(),
{
    if bytes.len() == 0 {
        0
    } else {
        big_endian(bytes.drop_last()) * 256 + bytes.last() as nat
    }
}

/// The id minted at a millisecond timestamp with five bytes of entropy.
pub open spec fn minted_id(ms: nat, entropy: Seq<u8>) -> Seq<char> {
    base32(ms, 9) + base32(big_endian(entropy), 8)
}

/// Appends the base32 rendering of `n`.
fn push_base32(out: &mut String, n: u64, width: usize)
    ensures
        final(out)@ == old(out)@ + base32(n as nat, width as nat),
    decreases width,
{
    if width > 0 {
        push_base32(out, n / 32, width - 1);
        let alphabet = text::chars_of("0123456789abcdefghjkmnpqrstvwxyz");
        proof {
            lemma_alphabet_len();
        }
        let ghost before = out@;
        let d: usize = (n % 32) as usize;
        out.push(alphabet[d]);
        assert(out@ =~= old(out)@ + base32(n as nat, width as nat));
    } else {
        assert(out@ =~= old(out)@ + base32(n as nat, 0));
    }
}

/// Mints a time-sortable session id: ms timestamp plus 40 random bits in
/// lowercase Crockford base32, fixed length, `[a-z0-9]`.
#[must_use]
pub fn mint_session_id(ms: u64, entropy: &[u8; 5]) -> (id: String)
    ensures
        id@ == minted_id(ms as nat, entropy@),
{
    let mut out = String::new();
    push_base32(&mut out, ms, 9);
    let mut rand: u64 = 0;
    let mut i: usize = 0;
    assert(entropy@.take(0) =~= Seq::<u8>::empty());
    while i < 5
        invariant
            i <= 5,
            entropy@.len() == 5,
            rand == big_endian(entropy@.take(i as int)),
            i == 0 ==> rand < 1,
            i == 1 ==> rand < 0x100,
            i == 2 ==> rand < 0x1_0000,
            i == 3 ==> rand < 0x100_0000,
            i == 4 ==> rand < 0x1_0000_0000,
        decreases 5 - i,
    {
        assert(entropy@.take(i + 1).drop_last() =~= entropy@.take(i as int));
        rand = rand * 256 + entropy[i] as u64;
        i = i + 1;
    }
    assert(entropy@.take(5) =~= entropy@);
    push_base32(&mut out, rand, 8);
    assert(out@ =~= minted_id(ms as nat, entropy@));
    out
}

/// One xorshift round.
pub open spec fn xorshift(x: u64) -> u64 {
    let a = x ^ (x << 13);
    let b = a ^ (a >> 7);
    b ^ (b << 17)
}

/// State after `n` rounds.
pub open spec fn xorshift_rounds(x: u64, n: nat) -> u64
    decreases n,
{
    if n == 0 {
        x
    } else {
        xorshift(xorshift_rounds(x, (n - 1) as nat))
    }
}

/// Seed of the entropy fallback.
pub open spec fn fallback_seed(ms: u64, pid: u32, address: u64) -> u64 {
    ms ^ vstd::wrapping::u64_specs::wrapping_mul(pid as u64, 0x9E37_79B9_7F4A_7C15) ^ (address
        << 17)
}

/// Entropy when the system has no source of its own: xorshift over time,
/// process id, and an address.
#[must_use]
pub fn fallback_entropy(ms: u64, pid: u32, address: u64) -> (entropy: [u8; 5])
    ensures
        forall|i: int|
            0 <= i < 5 ==> #[trigger] entropy@[i] == (xorshift_rounds(
                fallback_seed(ms, pid, address),
                (i + 1) as nat,
            ) & 0xFF) as u8,
{
    let seed: u64 = ms ^ (pid as u64).wrapping_mul(0x9E37_79B9_7F4A_7C15) ^ (address << 17);
    let a: u64 = round(seed);
    let b: u64 = round(a);
    let c: u64 = round(b);
    let d: u64 = round(c);
    let e: u64 = round(d);
    proof {
        reveal_with_fuel(xorshift_rounds, 6);
    }
    [(a & 0xFF) as u8, (b & 0xFF) as u8, (c & 0xFF) as u8, (d & 0xFF) as u8, (e & 0xFF) as u8]
}

fn round(x: u64) -> (y: u64)
    ensures
        y == xorshift(x),
{
    let a: u64 = x ^ (x << 13);
    let b: u64 = a ^ (a >> 7);
    b ^ (b << 17)
}

// ---------------------------------------------------------------------
// Laws of minted ids
// ---------------------------------------------------------------------

pub proof fn lemma_alphabet_len()
    ensures
        crockford().len() == 32,
{
    reveal_strlit("0123456789abcdefghjkmnpqrstvwxyz");
}

/// The alphabet is lowercase alphanumeric and strictly ascending.
proof fn lemma_alphabet()
    ensures
        crockford().len() == 32,
        forall|i: int|
            0 <= i < 32 ==> text::in_class(#[trigger] crockford()[i], false, true, true, ""@),
        forall|i: int, j: int| 0 <= i < j < 32 ==> crockford()[i] < crockford()[j],
{
    reveal_strlit("0123456789abcdefghjkmnpqrstvwxyz");
    let a = crockford();
    assert(a[0] == '0' && a[1] == '1' && a[2] == '2' && a[3] == '3' && a[4] == '4' && a[5] == '5'
        && a[6] == '6' && a[7] == '7' && a[8] == '8' && a[9] == '9');
    assert(a[10] == 'a' && a[11] == 'b' && a[12] == 'c' && a[13] == 'd' && a[14] == 'e' && a[15]
        == 'f' && a[16] == 'g' && a[17] == 'h' && a[18] == 'j' && a[19] == 'k');
    assert(a[20] == 'm' && a[21] == 'n' && a[22] == 'p' && a[23] == 'q' && a[24] == 'r' && a[25]
        == 's' && a[26] == 't' && a[27] == 'v' && a[28] == 'w' && a[29] == 'x' && a[30] == 'y'
        && a[31] == 'z');
}

proof fn lemma_base32_shape(n: nat, width: nat)
    ensures
        base32(n, width).len() == width,
        text::all_in_class(base32(n, width), false, true, true, ""@),
    decreases width,
{
    if width > 0 {
        lemma_base32_shape(n / 32, (width - 1) as nat);
        lemma_alphabet();
        let head = base32(n / 32, (width - 1) as nat);
        let all = base32(n, width);
        assert forall|i: int| 0 <= i < all.len() implies text::in_class(
            #[trigger] all[i],
            false,
            true,
            true,
            ""@,
        ) by {
            if i < head.len() {
                assert(all[i] == head[i]);
            } else {
                assert(all[i] == crockford()[(n % 32) as int]);
            }
        }
    }
}

/// Every minted id has the fixed length and lies in `[a-z0-9]`.
pub proof fn law_minted_id_shape(ms: nat, entropy: Seq<u8>)
    ensures
        minted_id(ms, entropy).len() == MINTED_ID_LEN,
        text::all_in_class(minted_id(ms, entropy), false, true, true, ""@),
{
    lemma_base32_shape(ms, 9);
    lemma_base32_shape(big_endian(entropy), 8);
    let a = base32(ms, 9);
    let id = minted_id(ms, entropy);
    assert forall|i: int| 0 <= i < id.len() implies text::in_class(
        #[trigger] id[i],
        false,
        true,
        true,
        ""@,
    ) by {
        if i < 9 {
            assert(id[i] == a[i]);
        } else {
            assert(id[i] == base32(big_endian(entropy), 8)[i - 9]);
        }
    }
}

/// Values below this many fit in `width` base32 characters.
pub open spec fn pow32(width: nat) -> nat
    decreases width,
{
    if width == 0 {
        1
    } else {
        32 * pow32((width - 1) as nat)
    }
}

/// A smaller number renders strictly before a larger one.
proof fn lemma_base32_order(n: nat, m: nat, width: nat)
    requires
        n < m,
        m < pow32(width),
    ensures
        exists|k: int|
            0 <= k < width && base32(n, width).take(k) == base32(m, width).take(k) && (
            #[trigger] base32(n, width)[k]) < base32(m, width)[k],
    decreases width,
{
    let w = (width - 1) as nat;
    lemma_base32_shape(n / 32, w);
    lemma_base32_shape(m / 32, w);
    lemma_base32_shape(n, width);
    lemma_base32_shape(m, width);
    let a = base32(n / 32, w);
    let b = base32(m / 32, w);
    let fa = base32(n, width);
    let fb = base32(m, width);
    if n / 32 < m / 32 {
        lemma_base32_order(n / 32, m / 32, w);
        let k = choose|k: int| 0 <= k < w && a.take(k) == b.take(k) && (#[trigger] a[k]) < b[k];
        assert(fa.take(k) =~= a.take(k));
        assert(fb.take(k) =~= b.take(k));
        assert(fa[k] == a[k] && fb[k] == b[k]);
    } else {
        assert(n / 32 == m / 32);
        assert(n % 32 < m % 32);
        lemma_alphabet();
        assert(fa.take(w as int) =~= a);
        assert(fb.take(w as int) =~= b);
        assert(fa[w as int] == crockford()[(n % 32) as int]);
        assert(fb[w as int] == crockford()[(m % 32) as int]);
    }
}

/// Sequences that part at `k`, with the smaller character first.
proof fn lemma_parted_order(a: Seq<char>, b: Seq<char>, k: int)
    requires
        0 <= k < a.len(),
        k < b.len(),
        a.take(k) == b.take(k),
        a[k] < b[k],
    ensures
        text::lex_le(a, b),
        a != b,
    decreases k,
{
    if k > 0 {
        assert(a[0] == a.take(k)[0]);
        assert(b[0] == b.take(k)[0]);
        let x = a.skip(1);
        let y = b.skip(1);
        assert(x.take(k - 1) =~= a.take(k).skip(1));
        assert(y.take(k - 1) =~= b.take(k).skip(1));
        lemma_parted_order(x, y, k - 1);
    }
}

/// Minted ids sort by time: an id minted at an earlier millisecond stands
/// strictly before every id minted at a later one, whatever the entropy, as
/// long as the timestamps fit in 45 bits.
pub proof fn law_minted_ids_sort_by_time(ms: nat, entropy: Seq<u8>, later: nat, other: Seq<u8>)
    requires
        ms < later,
        later < 0x2000_0000_0000,
    ensures
        text::lex_le(minted_id(ms, entropy), minted_id(later, other)),
        minted_id(ms, entropy) != minted_id(later, other),
{
    assert(pow32(9) == 0x2000_0000_0000) by {
        reveal_with_fuel(pow32, 10);
    }
    lemma_base32_order(ms, later, 9);
    lemma_base32_shape(ms, 9);
    lemma_base32_shape(later, 9);
    let a = base32(ms, 9);
    let b = base32(later, 9);
    let k = choose|k: int| 0 <= k < 9 && a.take(k) == b.take(k) && (#[trigger] a[k]) < b[k];
    let x = minted_id(ms, entropy);
    let y = minted_id(later, other);
    assert(x.take(k) =~= a.take(k));
    assert(y.take(k) =~= b.take(k));
    assert(x[k] == a[k] && y[k] == b[k]);
    lemma_parted_order(x, y, k);
}

proof fn lemma_big_endian_bound(bytes: Seq<u8>)
    requires
        bytes.len() == 5,
    ensures
        big_endian(bytes) < 0x100_0000_0000,
{
    reveal_with_fuel(big_endian, 6);
}

proof fn lemma_big_endian_injective(a: Seq<u8>, b: Seq<u8>)
    requires
        a.len() == b.len(),
        big_endian(a) == big_endian(b),
    ensures
        a == b,
    decreases a.len(),
{
    if a.len() > 0 {
        lemma_big_endian_injective(a.drop_last(), b.drop_last());
        assert(a =~= a.drop_last().push(a.last()));
        assert(b =~= b.drop_last().push(b.last()));
    } else {
        assert(a =~= b);
    }
}

/// Distinct entropy gives distinct ids within the same millisecond.
pub proof fn law_minted_ids_differ_by_entropy(ms: nat, entropy: Seq<u8>, other: Seq<u8>)
    requires
        entropy.len() == 5,
        other.len() == 5,
        entropy != other,
    ensures
        minted_id(ms, entropy) != minted_id(ms, other),
{
    lemma_big_endian_bound(entropy);
    lemma_big_endian_bound(other);
    let n = big_endian(entropy);
    let m = big_endian(other);
    if n == m {
        lemma_big_endian_injective(entropy, other);
    }
    assert(pow32(8) == 0x100_0000_0000) by {
        reveal_with_fuel(pow32, 9);
    }
    lemma_base32_shape(ms, 9);
    lemma_base32_shape(n, 8);
    lemma_base32_shape(m, 8);
    let (lo, hi) = if n < m {
        (n, m)
    } else {
        (m, n)
    };
    lemma_base32_order(lo, hi, 8);
    let k = choose|k: int|
        0 <= k < 8 && base32(lo, 8).take(k) == base32(hi, 8).take(k) && (#[trigger] base32(
            lo,
            8,
        )[k]) < base32(hi, 8)[k];
    assert(base32(n, 8)[k] != base32(m, 8)[k]);
    assert(minted_id(ms, entropy)[9 + k] == base32(n, 8)[k]);
    assert(minted_id(ms, other)[9 + k] == base32(m, 8)[k]);
}

// ---------------------------------------------------------------------
// Command labels
// ---------------------------------------------------------------------

/// Text of a JSON array of strings, as `serde_json::to_string` writes it.
pub uninterp spec fn json_strings_text(argv: Seq<Seq<char>>) -> Seq<char>;

/// What `serde_json::from_str` reads from a text that should be a JSON
/// array of strings: the strings, or the parser's message.
pub uninterp spec fn json_strings_parsed(label: Seq<char>) -> std::result::Result<
    Seq<Seq<char>>,
    Seq<char>,
>;

/// A reading that gave the strings.
pub open spec fn well_read(argv: Seq<Seq<char>>) -> std::result::Result<Seq<Seq<char>>, Seq<char>> {
    Ok(argv)
}

/// What a reading says.
pub open spec fn reading_view(
    r: std::result::Result<Vec<String>, String>,
) -> std::result::Result<Seq<Seq<char>>, Seq<char>> {
    match r {
        Ok(v) => Ok(v.deep_view()),
        Err(m) => Err(m@),
    }
}

/// `serde_json::to_string` on a slice of strings. It fails only for values
/// whose serialization fails or for maps with other than string keys;
/// neither occurs here, so it succeeds. The text it writes parses back to
/// the same strings.
#[verifier::external_body]
fn write_json_strings(argv: &[String]) -> (r: std::result::Result<String, String>)
    ensures
        r is Ok,
        r->Ok_0@ == json_strings_text(argv.deep_view()),
        json_strings_parsed(r->Ok_0@) == well_read(argv.deep_view()),
{
    match serde_json::to_string(argv) {
        Ok(s) => Ok(s),
        Err(e) => Err(e.to_string()),
    }
}

/// `serde_json::from_str` into a vector of strings; an error is given by
/// its message.
#[verifier::external_body]
fn read_json_strings(label: &str) -> (r: std::result::Result<Vec<String>, String>)
    ensures
        json_strings_parsed(label@) == reading_view(r),
{
    match serde_json::from_str::<Vec<String>>(label) {
        Ok(v) => Ok(v),
        Err(e) => Err(e.to_string()),
    }
}

/// Serializes harness argv as a JSON array string for `cistella.command`.
///
/// JSON is lossless (spaces, quotes, `=` survive): the label parses back to
/// the same argv.
#[must_use]
pub fn command_label(argv: &[String]) -> (label: String)
    ensures
        label@ == json_strings_text(argv.deep_view()),
        json_strings_parsed(label@) == well_read(argv.deep_view()),
{
    match write_json_strings(argv) {
        Ok(s) => s,
        Err(_) => "[]".to_owned(),
    }
}

/// What a command label stands for, given the parser's reading of it.
pub open spec fn command_of(
    parsed: std::result::Result<Seq<Seq<char>>, Seq<char>>,
) -> std::result::Result<Seq<Seq<char>>, ErrorView> {
    match parsed {
        Ok(argv) => Ok(argv),
        Err(m) => Err(ErrorView::Runtime("cistella.command label: "@ + m)),
    }
}

/// Argv, or the runtime error for a label that is no JSON string array,
/// from the parser's reading of it.
pub fn settle_command_label(parsed: std::result::Result<Vec<String>, String>) -> (r: Result<
    Vec<String>,
>)
    ensures
        match parsed {
            Ok(v) => r matches Ok(x) && x == v,
            Err(m) => r matches Err(e) && e@ == ErrorView::Runtime(
                "cistella.command label: "@ + m@,
            ),
        },
{
    match parsed {
        Ok(v) => Ok(v),
        Err(m) => Err(CistellaError::Runtime(text::cat("cistella.command label: ", m.as_str()))),
    }
}

/// Parses a `cistella.command` JSON array string back into argv.
pub fn parse_command_label(label: &str) -> (r: Result<Vec<String>>)
    ensures
        crate::error::agrees(r, command_of(json_strings_parsed(label@))),
{
    settle_command_label(read_json_strings(label))
}

// ---------------------------------------------------------------------
// Generic labels
// ---------------------------------------------------------------------

/// Whether every character is an ASCII letter or digit, `.`, `_` or `-`.
pub open spec fn name_chars(s: Seq<char>) -> bool {
    text::all_in_class(s, true, true, true, "._-"@)
}

/// Whether a text begins with `-`.
pub open spec fn leading_dash(s: Seq<char>) -> bool {
    s.len() > 0 && s[0] == '-'
}

/// What is wrong with a generic label, if anything.
pub open spec fn label_fault(key: Seq<char>, value: Seq<char>) -> Option<Seq<char>> {
    if key.len() == 0 || text::byte_len(key) > 128 {
        Some("label key must be 1-128 chars: "@ + key)
    } else if !name_chars(key) || leading_dash(key) {
        Some("label key must match [A-Za-z0-9._-]+: "@ + key)
    } else if RESERVED_PREFIX@.is_prefix_of(key) {
        Some("label key reserves prefix "@ + RESERVED_PREFIX@ + ": "@ + key)
    } else if value.contains('=') || text::has_control(value) {
        Some("label value must not contain '=' or control: "@ + key)
    } else {
        None
    }
}

/// Whether a text begins with `-`.
pub fn starts_with_dash(s: &str) -> (b: bool)
    ensures
        b == leading_dash(s@),
{
    let v = text::chars_of(s);
    v.len() > 0 && v[0] == '-'
}

/// Validates one generic label (`--label k=v` or profile `labels` table).
///
/// Keys match `[A-Za-z0-9._-]+`, values reject Quadlet-invalid `=`, line
/// breaks and NUL, and keys beginning with `cistella.` are refused (only
/// the driver emits `cistella.*`, last).
pub fn validate_generic_label(key: &str, value: &str) -> (r: std::result::Result<(), String>)
    ensures
        match r {
            Ok(_) => label_fault(key@, value@) is None,
            Err(m) => label_fault(key@, value@) == Some(m@),
        },
{
    if key.is_empty() || text::len_bytes(key) > 128 {
        return Err(text::cat("label key must be 1-128 chars: ", key));
    }
    if !text::all_in(key, true, true, true, "._-") || starts_with_dash(key) {
        return Err(text::cat("label key must match [A-Za-z0-9._-]+: ", key));
    }
    if text::starts_with(key, RESERVED_PREFIX) {
        return Err(text::cat4("label key reserves prefix ", RESERVED_PREFIX, ": ", key));
    }
    if text::has_char(value, '=') || text::has_control_char(value) {
        return Err(text::cat("label value must not contain '=' or control: ", key));
    }
    Ok(())
}

/// What a `--label` argument parses to.
pub open spec fn parsed_label(arg: Seq<char>) -> std::result::Result<
    (Seq<char>, Seq<char>),
    ErrorView,
> {
    if !arg.contains('=') {
        Err(ErrorView::Runtime("--label must be k=v: "@ + arg))
    } else {
        let key = arg.take(text::first_index(arg, '='));
        let value = arg.skip(text::first_index(arg, '=') + 1);
        match label_fault(key, value) {
            Some(m) => Err(ErrorView::Runtime(m)),
            None => Ok((key, value)),
        }
    }
}

/// Splits a CLI `--label k=v` argument on the first `=` and validates it.
pub fn parse_cli_label(arg: &str) -> (r: Result<(String, String)>)
    ensures
        crate::error::agrees(r, parsed_label(arg@)),
{
    match text::split_once(arg, '=') {
        None => Err(CistellaError::Runtime(text::cat("--label must be k=v: ", arg))),
        Some(p) => match validate_generic_label(p.0.as_str(), p.1.as_str()) {
            Ok(_) => Ok(p),
            Err(m) => Err(CistellaError::Runtime(m)),
        },
    }
}

/// No accepted label key carries the driver's prefix, so the driver's own
/// labels cannot be set from outside.
pub proof fn law_labels_leave_driver_prefix(arg: Seq<char>, key: Seq<char>, value: Seq<char>)
    requires
        parsed_label(arg) == std::result::Result::<(Seq<char>, Seq<char>), ErrorView>::Ok(
            (key, value),
        ),
    ensures
        !RESERVED_PREFIX@.is_prefix_of(key),
        key.len() > 0,
        name_chars(key),
        arg == key + "="@ + value,
{
    reveal_strlit("=");
    text::lemma_first_index(arg, '=');
    assert(arg =~= key + "="@ + value);
}

// ---------------------------------------------------------------------
// Sessions
// ---------------------------------------------------------------------

/// Session identity minted by `conduct`.
#[derive(Debug)]
pub struct Session {
    /// Minted id (`[a-z0-9]`, fixed length, time-sortable).
    pub id: String,
    /// Canonical host directory mounted at `/work`.
    pub directory: String,
    /// Profile name.
    pub profile: String,
    /// Sha256 hex digest of the profile TOML.
    pub profile_digest: String,
    /// Identity label (not a credential selector).
    pub identity: String,
    /// Harness argv actually executed.
    pub command: Vec<String>,
    /// Resolved image digest.
    pub image: String,
    /// Canonical container home (for `Tmpfs=`).
    pub container_home: String,
}

/// What a session says.
pub struct SessionView {
    pub id: Seq<char>,
    pub directory: Seq<char>,
    pub profile: Seq<char>,
    pub profile_digest: Seq<char>,
    pub identity: Seq<char>,
    pub command: Seq<Seq<char>>,
    pub image: Seq<char>,
    pub container_home: Seq<char>,
}

impl DeepView for Session {
    type V = SessionView;

    open spec fn deep_view(&self) -> SessionView {
        SessionView {
            id: self.id@,
            directory: self.directory@,
            profile: self.profile@,
            profile_digest: self.profile_digest@,
            identity: self.identity@,
            command: self.command.deep_view(),
            image: self.image@,
            container_home: self.container_home@,
        }
    }
}

impl Clone for Session {
    fn clone(&self) -> (r: Self)
        ensures
            r.deep_view() == self.deep_view(),
    {
        Session {
            id: self.id.clone(),
            directory: self.directory.clone(),
            profile: self.profile.clone(),
            profile_digest: self.profile_digest.clone(),
            identity: self.identity.clone(),
            command: text::copy_texts(&self.command),
            image: self.image.clone(),
            container_home: self.container_home.clone(),
        }
    }
}

impl Session {
    /// Returns the container name (`cistella-<id>`, no harness).
    #[must_use]
    pub fn container_name(&self) -> (s: String)
        ensures
            s@ == "cistella-"@ + self.id@,
    {
        text::cat("cistella-", self.id.as_str())
    }

    /// Returns the Quadlet unit name (`cistella-<id>.container`).
    #[must_use]
    pub fn quadlet_unit_name(&self) -> (s: String)
        ensures
            s@ == "cistella-"@ + self.id@ + ".container"@,
    {
        text::cat3("cistella-", self.id.as_str(), ".container")
    }
}

/// Rejects Quadlet directive injection via control characters.
pub fn ensure_no_injection(val: &str, field: &str) -> (r: Result<()>)
    ensures
        if text::has_control(val@) {
            r matches Err(e) && e@ == ErrorView::Runtime(
                field@ + " must not contain control characters"@,
            )
        } else {
            r is Ok
        },
{
    if text::has_control_char(val) {
        return Err(
            CistellaError::Runtime(text::cat(field, " must not contain control characters")),
        );
    }
    Ok(())
}

/// Whether a text has the shape of a minted id.
pub open spec fn minted_shape(val: Seq<char>) -> bool {
    text::byte_len(val) == MINTED_ID_LEN && text::all_in_class(val, false, true, true, ""@)
}

/// Validates a minted id (`[a-z0-9]`, fixed length).
pub fn ensure_minted_id(val: &str) -> (r: Result<()>)
    ensures
        if minted_shape(val@) {
            r is Ok
        } else {
            r matches Err(e) && e@ == ErrorView::Runtime(
                "session id must be 17 lowercase [a-z0-9] chars"@,
            )
        },
{
    if text::len_bytes(val) != MINTED_ID_LEN || !text::all_in(val, false, true, true, "") {
        return Err(
            CistellaError::Runtime("session id must be 17 lowercase [a-z0-9] chars".to_owned()),
        );
    }
    Ok(())
}

/// A minted id passes its own validation.
pub proof fn law_minted_ids_validate(ms: nat, entropy: Seq<u8>)
    ensures
        minted_shape(minted_id(ms, entropy)),
{
    law_minted_id_shape(ms, entropy);
    let id = minted_id(ms, entropy);
    reveal_strlit("");
    assert(vstd::utf8::is_ascii_chars(id)) by {
        assert forall|i: int| 0 <= i < id.len() implies '\0' <= #[trigger] id[i] <= '\u{7f}' by {
            assert(text::in_class(id[i], false, true, true, ""@));
        }
    }
    vstd::utf8::is_ascii_chars_encode_utf8(id);
}

/// What is wrong with a session text field, if anything.
pub open spec fn session_field_fault(val: Seq<char>, field: Seq<char>) -> Option<Seq<char>> {
    if text::has_control(val) {
        Some(field + " must not contain control characters"@)
    } else if val.len() == 0 || text::byte_len(val) > 64 {
        Some(field + " must be 1-64 chars"@)
    } else if !name_chars(val) {
        Some(field + " must match [A-Za-z0-9._-]+: "@ + val)
    } else if leading_dash(val) {
        Some(field + " must not start with '-': "@ + val)
    } else {
        None
    }
}

/// Validates a session text field (`profile`, `identity`).
pub fn ensure_session_field(val: &str, field: &str) -> (r: Result<()>)
    ensures
        match session_field_fault(val@, field@) {
            Some(m) => r matches Err(e) && e@ == ErrorView::Runtime(m),
            None => r is Ok,
        },
{
    if text::has_control_char(val) {
        return Err(
            CistellaError::Runtime(text::cat(field, " must not contain control characters")),
        );
    }
    if val.is_empty() || text::len_bytes(val) > 64 {
        return Err(CistellaError::Runtime(text::cat(field, " must be 1-64 chars")));
    }
    if !text::all_in(val, true, true, true, "._-") {
        return Err(
            CistellaError::Runtime(text::cat3(field, " must match [A-Za-z0-9._-]+: ", val)),
        );
    }
    if starts_with_dash(val) {
        return Err(CistellaError::Runtime(text::cat3(field, " must not start with '-': ", val)));
    }
    Ok(())
}

// ---------------------------------------------------------------------
// What names and labels may hold
// ---------------------------------------------------------------------

/// Whether every character is a letter, a digit, a dot, an underscore or a
/// dash.
pub open spec fn plain_name(s: Seq<char>) -> bool {
    forall|i: int|
        0 <= i < s.len() ==> 'A' <= #[trigger] s[i] <= 'Z' || 'a' <= s[i] <= 'z' || '0' <= s[i]
            <= '9' || s[i] == '.' || s[i] == '_' || s[i] == '-'
}

proof fn lemma_plain_name(s: Seq<char>)
    ensures
        name_chars(s) <==> plain_name(s),
        plain_name(s) ==> !text::has_control(s),
{
    reveal_strlit("._-");
    let x = "._-"@;
    assert(x =~= seq!['.', '_', '-']);
    assert forall|c: char| #[trigger] x.contains(c) <==> c == '.' || c == '_' || c == '-' by {
        if c == '.' {
            assert(x[0] == c);
        } else if c == '_' {
            assert(x[1] == c);
        } else if c == '-' {
            assert(x[2] == c);
        }
    }
    if name_chars(s) {
        assert forall|i: int| 0 <= i < s.len() implies 'A' <= #[trigger] s[i] <= 'Z' || 'a' <= s[i]
            <= 'z' || '0' <= s[i] <= '9' || s[i] == '.' || s[i] == '_' || s[i] == '-' by {
            assert(text::in_class(s[i], true, true, true, x));
        }
    }
    if plain_name(s) {
        assert forall|i: int| 0 <= i < s.len() implies text::in_class(
            #[trigger] s[i],
            true,
            true,
            true,
            x,
        ) by {}
        assert(!s.contains('\n') && !s.contains('\r') && !s.contains('\0'));
    }
}

/// A `--label` argument parses exactly when it is a plain key, an equals sign
/// and a value without another one: the key at most 128 bytes, without a dash
/// in front and outside the driver's prefix, the value without control
/// characters.
pub proof fn law_label_arguments_say_key_and_value(
    arg: Seq<char>,
    key: Seq<char>,
    value: Seq<char>,
)
    ensures
        parsed_label(arg) == std::result::Result::<(Seq<char>, Seq<char>), ErrorView>::Ok(
            (key, value),
        ) <==> {
            &&& arg == key + "="@ + value
            &&& 0 < key.len() && text::byte_len(key) <= 128
            &&& plain_name(key) && key[0] != '-'
            &&& !"cistella."@.is_prefix_of(key)
            &&& !value.contains('=') && !value.contains('\n') && !value.contains('\r')
                && !value.contains('\0')
        },
{
    reveal_strlit("=");
    lemma_plain_name(key);
    let n = key.len() as int;
    if arg == key + "="@ + value && plain_name(key) {
        assert(arg[n] == '=');
        assert(arg.contains('='));
        assert forall|j: int| 0 <= j < n implies arg[j] != '=' by {
            assert(arg[j] == key[j]);
        }
        text::lemma_first_index_is(arg, '=', n);
        assert(arg.take(n) =~= key);
        assert(arg.skip(n + 1) =~= value);
    }
    if arg.contains('=') {
        text::lemma_first_index(arg, '=');
        let at = text::first_index(arg, '=');
        assert(arg =~= arg.take(at) + "="@ + arg.skip(at + 1));
    }
}

/// A session field is a plain name of at most 64 bytes without a dash in
/// front.
pub proof fn law_session_fields_are_plain(val: Seq<char>, field: Seq<char>)
    ensures
        session_field_fault(val, field) is None <==> 0 < val.len() && text::byte_len(val) <= 64
            && plain_name(val) && val[0] != '-',
{
    lemma_plain_name(val);
}

/// A minted id is 17 bytes of lower-case letters and digits.
pub proof fn law_ids_are_lower_case(val: Seq<char>)
    ensures
        minted_shape(val) <==> text::byte_len(val) == 17 && forall|i: int|
            0 <= i < val.len() ==> 'a' <= #[trigger] val[i] <= 'z' || '0' <= val[i] <= '9',
{
    reveal_strlit("");
    assert(""@ =~= Seq::<char>::empty());
    if minted_shape(val) {
        assert forall|i: int| 0 <= i < val.len() implies 'a' <= #[trigger] val[i] <= 'z' || '0'
            <= val[i] <= '9' by {
            assert(text::in_class(val[i], false, true, true, ""@));
        }
    }
}

/// The first nine characters of a minted id are its time, and the other eight
/// its entropy: two ids of one time agree on the first nine, and two ids of
/// one entropy on the last eight.
pub proof fn law_ids_hold_time_then_entropy(ms: nat, later: nat, entropy: Seq<u8>, other: Seq<u8>)
    ensures
        minted_id(ms, entropy).take(9) == minted_id(ms, other).take(9),
        minted_id(ms, entropy).skip(9) == minted_id(later, entropy).skip(9),
{
    lemma_base32_shape(ms, 9);
    lemma_base32_shape(later, 9);
    assert(minted_id(ms, entropy).take(9) =~= base32(ms, 9));
    assert(minted_id(ms, other).take(9) =~= base32(ms, 9));
    assert(minted_id(ms, entropy).skip(9) =~= base32(big_endian(entropy), 8));
    assert(minted_id(later, entropy).skip(9) =~= base32(big_endian(entropy), 8));
}

/// A faultless key holds no equals sign, so an argument splits at its end.
pub proof fn lemma_label_split(key: Seq<char>, value: Seq<char>)
    ensures
        label_fault(key, value) is None ==> parsed_label(key + "="@ + value)
            == std::result::Result::<(Seq<char>, Seq<char>), ErrorView>::Ok((key, value)),
        parsed_label(key + "="@ + value) == std::result::Result::<
            (Seq<char>, Seq<char>),
            ErrorView,
        >::Ok((key, value)) ==> label_fault(key, value) is None,
{
    reveal_strlit("=");
    lemma_plain_name(key);
    let arg = key + "="@ + value;
    let n = key.len() as int;
    if label_fault(key, value) is None {
        assert(arg[n] == '=');
        assert(arg.contains('='));
        assert forall|j: int| 0 <= j < n implies arg[j] != '=' by {
            assert(arg[j] == key[j]);
        }
        text::lemma_first_index_is(arg, '=', n);
        assert(arg.take(n) =~= key);
        assert(arg.skip(n + 1) =~= value);
    }
}

/// A minted id writes its time and its entropy in base 32, nine digits and eight,
/// with the digits and the lower-case letters but `i`, `l`, `o` and `u`.
pub proof fn law_ids_are_written_in_base_32(ms: nat, entropy: Seq<u8>, k: nat)
    ensures
        k < 9 ==> minted_id(ms, entropy)[8 - k] == "0123456789abcdefghjkmnpqrstvwxyz"@[(ms as int
            / pow(32, k)) % 32],
        k < 8 ==> minted_id(ms, entropy)[16 - k] == "0123456789abcdefghjkmnpqrstvwxyz"@[(big_endian(
            entropy,
        ) as int / pow(32, k)) % 32],
        minted_id(ms, entropy).len() == 17,
{
    lemma_base32_shape(ms, 9);
    lemma_base32_shape(big_endian(entropy), 8);
    if k < 9 {
        lemma_base32_digit(ms, 9, k);
    }
    if k < 8 {
        lemma_base32_digit(big_endian(entropy), 8, k);
    }
}

proof fn lemma_base32_digit(n: nat, width: nat, k: nat)
    requires
        k < width,
    ensures
        base32(n, width).len() == width,
        base32(n, width)[width - 1 - k] == crockford()[(n as int / pow(32, k)) % 32],
    decreases width,
{
    lemma_base32_shape(n, width);
    lemma_base32_shape(n / 32, (width - 1) as nat);
    if k == 0 {
        vstd::arithmetic::power::lemma_pow0(32);
    } else {
        let j = (k - 1) as nat;
        lemma_base32_digit(n / 32, (width - 1) as nat, j);
        vstd::arithmetic::power::lemma_pow_positive(32, j);
        vstd::arithmetic::power::lemma_pow_adds(32, 1, j);
        vstd::arithmetic::power::lemma_pow1(32);
        vstd::arithmetic::div_mod::lemma_div_denominator(n as int, 32, pow(32, j));
        assert(base32(n, width)[width - 1 - k] == base32(n / 32, (width - 1) as nat)[width - 1 - 1
            - j]);
    }
}

/// Bytes are digits of base 256, the first the most significant.
pub proof fn law_entropy_is_read_big_endian(a: Seq<u8>, b: Seq<u8>, x: u8)
    ensures
        big_endian(a + b) == big_endian(a) * pow(256, b.len()) + big_endian(b),
        big_endian(seq![x]) == x,
    decreases b.len(),
{
    assert(seq![x].drop_last() =~= Seq::<u8>::empty());
    assert(big_endian(Seq::<u8>::empty()) == 0);
    assert(big_endian(seq![x]) == big_endian(seq![x].drop_last()) * 256 + x as nat);
    if b.len() == 0 {
        assert(a + b =~= a);
        vstd::arithmetic::power::lemma_pow0(256);
    } else {
        let c = b.drop_last();
        law_entropy_is_read_big_endian(a, c, x);
        assert((a + b).drop_last() =~= a + c);
        vstd::arithmetic::power::lemma_pow_adds(256, c.len(), 1);
        vstd::arithmetic::power::lemma_pow1(256);
        let p = pow(256, c.len());
        let q = big_endian(a) as int;
        assert((q * p) * 256 == q * (p * 256)) by (nonlinear_arith);
    }
}

/// The rounds of the fallback run one after another, and no two states meet.
pub proof fn law_fallback_rounds_follow_each_other(x: u64, y: u64, a: nat, b: nat)
    ensures
        xorshift_rounds(xorshift_rounds(x, a), b) == xorshift_rounds(x, a + b),
        xorshift(x) == xorshift(y) ==> x == y,
    decreases b,
{
    if b > 0 {
        law_fallback_rounds_follow_each_other(x, y, a, (b - 1) as nat);
    }
    let x1 = x ^ (x << 13);
    let y1 = y ^ (y << 13);
    let x2 = x1 ^ (x1 >> 7);
    let y2 = y1 ^ (y1 >> 7);
    assert(x2 ^ (x2 << 17) == y2 ^ (y2 << 17) ==> x2 == y2) by (bit_vector);
    assert(x1 ^ (x1 >> 7) == y1 ^ (y1 >> 7) ==> x1 == y1) by (bit_vector);
    assert(x ^ (x << 13) == y ^ (y << 13) ==> x == y) by (bit_vector);
}

/// A label that parses stands for the strings that it holds, and one that does
/// not is a runtime failure that says why.
pub proof fn law_command_labels_stand_for_their_strings(argv: Seq<Seq<char>>, m: Seq<char>)
    ensures
        command_of(Ok(argv)) == Ok::<Seq<Seq<char>>, ErrorView>(argv),
        command_of(Err(m)) == Err::<Seq<Seq<char>>, ErrorView>(
            ErrorView::Runtime("cistella.command label: "@ + m),
        ),
{
}

/// A view says what the fields hold, each under its own name.
pub proof fn law_views_say_the_fields(
    session: Session,
)
    ensures
        session.deep_view().id == session.id@,
        session.deep_view().directory == session.directory@,
        session.deep_view().profile == session.profile@,
        session.deep_view().profile_digest == session.profile_digest@,
        session.deep_view().identity == session.identity@,
        session.deep_view().command == session.command.deep_view(),
        session.deep_view().image == session.image@,
        session.deep_view().container_home == session.container_home@,
{
}

} // verus!
