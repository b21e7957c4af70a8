//! The enveloped text codec of the container family.
//!
//! The text form is a JSON object `{"data": <value>}` whose value renders
//! every field in declaration order: integers as quoted decimal, byte strings
//! as quoted `0x`-prefixed lowercase hex, sidecar lists as arrays. The
//! decoder accepts exactly the canonical form the encoder emits — no extra
//! whitespace, reordered keys or uppercase hex — and checks the same capacity
//! bounds as the binary codec; everything else fails as malformed text.

use vstd::prelude::*;

use vstd::string::StringSliceAdditionalSpecFns;

use crate::Error;

use crate::hexstr::dec_bytes_of;
use crate::hexstr::hex_bytes_of;
use crate::hexstr::hex_decoded;
use crate::hexstr::is_dec_digit;
use crate::hexstr::is_lower_hex_digit;
use crate::hexstr::lemma_dec_bytes_digits;
use crate::hexstr::lemma_hex_bytes_round_trip;
use crate::hexstr::lemma_lower_hex_identity;
use crate::hexstr::lower_hex;
use crate::hexstr::push_decimal;
use crate::hexstr::push_hex;
use crate::ssz::extend_bytes;

use crate::container::BeaconBlock;
use crate::container::BeaconBlockV;
use crate::container::BlindedBeaconBlock;
use crate::container::BlindedBeaconBlockV;
use crate::container::BlindedBlockBody;
use crate::container::BlindedBlockBodyV;
use crate::container::BlockBody;
use crate::container::BlockBodyV;
use crate::container::BeaconBlockContents;
use crate::container::BeaconBlockContentsV;
use crate::container::Blob;
use crate::container::KzgProof;
use crate::container::SignedBeaconBlockContents;
use crate::container::SignedBeaconBlockContentsV;
use crate::container::seq_views;
use crate::container::wf_contents_v;
use crate::container::wf_signed_contents_v;
use crate::preset::spec_bytes_per_blob;
use crate::preset::spec_max_blob_commitments;
use crate::container::Root;
use crate::container::Signature;
use crate::container::SignedBeaconBlock;
use crate::container::SignedBeaconBlockV;
use crate::container::SignedBlindedBeaconBlock;
use crate::container::SignedBlindedBeaconBlockV;
use crate::container::wf_blinded_block_v;
use crate::container::wf_blinded_body_v;
use crate::container::wf_block_v;
use crate::container::wf_body_v;
use crate::container::wf_signed_block_v;
use crate::container::wf_signed_blinded_block_v;
use crate::preset::PresetKind;
use crate::preset::spec_max_payload_bytes;

verus! {

/// `{"name":`, the opening key of an object.
pub open spec fn jkey_first(name: Seq<u8>) -> Seq<u8> {
    seq![123u8, 34u8] + name + seq![34u8, 58u8]
}

/// `,"name":`, every later key of an object.
pub open spec fn jkey_next(name: Seq<u8>) -> Seq<u8> {
    seq![44u8, 34u8] + name + seq![34u8, 58u8]
}

/// A quoted decimal integer.
pub open spec fn jdec(n: nat) -> Seq<u8> {
    seq![34u8] + dec_bytes_of(n) + seq![34u8]
}

/// A quoted `0x`-prefixed lowercase hex byte string.
pub open spec fn jhex(b: Seq<u8>) -> Seq<u8> {
    seq![34u8, 48u8, 120u8] + hex_bytes_of(b) + seq![34u8]
}

// ---------------------------------------------------------------------------
// Spec parsers. Each consumes from a position and returns the value and the
// position after it, or nothing where the text is not canonical.
// ---------------------------------------------------------------------------

/// Expects the exact bytes of `lit` at `i`.
pub open spec fn p_lit(b: Seq<u8>, i: int, lit: Seq<u8>) -> Option<int> {
    if 0 <= i && i + lit.len() <= b.len() && b.subrange(i, i + lit.len() as int) == lit {
        Some(i + lit.len() as int)
    } else {
        None
    }
}

/// A quoted `0x` hex string of exactly `n` denoted bytes.
pub open spec fn p_jhex_fixed(b: Seq<u8>, i: int, n: nat) -> Option<(Seq<u8>, int)> {
    if 0 <= i && i + 2 * n + 4 <= b.len() && b[i] == 34 && b[i + 1] == 48 && b[i + 2] == 120 && (
    forall|k: int| i + 3 <= k < i + 3 + 2 * n ==> is_lower_hex_digit(#[trigger] b[k])) && b[i + 3
        + 2 * n] == 34 {
        Some((hex_decoded(b.subrange(i + 3, i + 3 + 2 * n)), i + 2 * n + 4))
    } else {
        None
    }
}

/// The first position at or after `i` that does not hold a lowercase hex
/// digit.
pub open spec fn hex_digits_end(b: Seq<u8>, i: int) -> int
    decreases b.len() - i,
{
    if 0 <= i && i < b.len() && is_lower_hex_digit(b[i]) {
        hex_digits_end(b, i + 1)
    } else {
        i
    }
}

/// The first position at or after `i` that does not hold a decimal digit.
pub open spec fn dec_digits_end(b: Seq<u8>, i: int) -> int
    decreases b.len() - i,
{
    if 0 <= i && i < b.len() && is_dec_digit(b[i]) {
        dec_digits_end(b, i + 1)
    } else {
        i
    }
}

/// A quoted `0x` hex string of any even digit count.
pub open spec fn p_jhex_var(b: Seq<u8>, i: int) -> Option<(Seq<u8>, int)> {
    if 0 <= i && i + 3 <= b.len() && b[i] == 34 && b[i + 1] == 48 && b[i + 2] == 120 {
        let e = hex_digits_end(b, i + 3);
        if e < b.len() && b[e] == 34 && (e - (i + 3)) % 2 == 0 {
            Some((hex_decoded(b.subrange(i + 3, e)), e + 1))
        } else {
            None
        }
    } else {
        None
    }
}

/// The number a span of decimal digits denotes.
pub open spec fn dec_val(b: Seq<u8>, i: int, e: int) -> int
    decreases e - i,
{
    if e <= i {
        0
    } else {
        dec_val(b, i, e - 1) * 10 + (b[e - 1] - 48)
    }
}

/// A quoted decimal integer without leading zeros, within `u64`.
pub open spec fn p_jdec(b: Seq<u8>, i: int) -> Option<(u64, int)> {
    if 0 <= i && i < b.len() && b[i] == 34 {
        let e = dec_digits_end(b, i + 1);
        if e < b.len() && b[e] == 34 && e > i + 1 && (b[i + 1] != 48 || e == i + 2) && dec_val(
            b,
            i + 1,
            e,
        ) <= u64::MAX {
            Some((dec_val(b, i + 1, e) as u64, e + 1))
        } else {
            None
        }
    } else {
        None
    }
}

// ---------------------------------------------------------------------------
// Inversion: each parser accepts what the matching renderer wrote.
// ---------------------------------------------------------------------------

pub proof fn lemma_p_lit_at(b: Seq<u8>, i: int, lit: Seq<u8>)
    requires
        0 <= i,
        i + lit.len() <= b.len(),
        b.subrange(i, i + lit.len() as int) == lit,
    ensures
        p_lit(b, i, lit) == Some(i + lit.len() as int),
{
}

#[verifier::rlimit(50)]
pub proof fn lemma_p_jhex_fixed_at(b: Seq<u8>, i: int, v: Seq<u8>)
    requires
        0 <= i,
        i + jhex(v).len() <= b.len(),
        b.subrange(i, i + jhex(v).len() as int) == jhex(v),
    ensures
        jhex(v).len() == 2 * v.len() + 4,
        p_jhex_fixed(b, i, v.len()) == Some((v, i + 2 * v.len() + 4)),
{
    lemma_hex_bytes_round_trip(v);
    let n = v.len();
    assert forall|k: int| 0 <= k < 2 * n + 4 implies #[trigger] b[i + k] == jhex(v)[k] by {
        assert(b.subrange(i, i + jhex(v).len() as int)[k] == jhex(v)[k]);
    }
    assert forall|k: int| i + 3 <= k < i + 3 + 2 * n implies is_lower_hex_digit(
        #[trigger] b[k],
    ) by {
        let m = k - i - 3;
        assert(b[i + (m + 3)] == jhex(v)[m + 3]);
        assert(jhex(v)[m + 3] == hex_bytes_of(v)[m]);
        if m % 2 == 0 {
            assert(hex_bytes_of(v)[m] == crate::hexstr::lower_hex_digit(v[m / 2] / 16));
        } else {
            assert(hex_bytes_of(v)[m] == crate::hexstr::lower_hex_digit(v[m / 2] % 16));
        }
    }
    assert(b[i + 0] == jhex(v)[0] && b[i + 1] == jhex(v)[1] && b[i + 2] == jhex(v)[2]);
    assert(b[i + (3 + 2 * n)] == jhex(v)[3 + 2 * n as int]);
    assert forall|k: int| 0 <= k < 2 * n implies #[trigger] b.subrange(i + 3, i + 3 + 2 * n)[k]
        == hex_bytes_of(v)[k] by {
        assert(b[i + (k + 3)] == jhex(v)[k + 3]);
        assert(jhex(v)[k + 3] == hex_bytes_of(v)[k]);
    }
    assert(b.subrange(i + 3, i + 3 + 2 * n) =~= hex_bytes_of(v));
}

pub proof fn lemma_hex_digits_end_at(b: Seq<u8>, i: int, j: int)
    requires
        0 <= i <= j <= b.len(),
        forall|k: int| i <= k < j ==> is_lower_hex_digit(#[trigger] b[k]),
        j == b.len() || !is_lower_hex_digit(b[j]),
    ensures
        hex_digits_end(b, i) == j,
    decreases j - i,
{
    if i < j {
        lemma_hex_digits_end_at(b, i + 1, j);
    }
}

pub proof fn lemma_dec_digits_end_at(b: Seq<u8>, i: int, j: int)
    requires
        0 <= i <= j <= b.len(),
        forall|k: int| i <= k < j ==> is_dec_digit(#[trigger] b[k]),
        j == b.len() || !is_dec_digit(b[j]),
    ensures
        dec_digits_end(b, i) == j,
    decreases j - i,
{
    if i < j {
        lemma_dec_digits_end_at(b, i + 1, j);
    }
}

#[verifier::rlimit(50)]
pub proof fn lemma_p_jhex_var_at(b: Seq<u8>, i: int, v: Seq<u8>)
    requires
        0 <= i,
        i + jhex(v).len() <= b.len(),
        b.subrange(i, i + jhex(v).len() as int) == jhex(v),
    ensures
        jhex(v).len() == 2 * v.len() + 4,
        p_jhex_var(b, i) == Some((v, i + 2 * v.len() + 4)),
{
    lemma_p_jhex_fixed_at(b, i, v);
    let n = v.len();
    assert forall|k: int| i + 3 <= k < i + 3 + 2 * n implies is_lower_hex_digit(
        #[trigger] b[k],
    ) by {
        assert(p_jhex_fixed(b, i, n) is Some);
    }
    assert(!is_lower_hex_digit(34));
    assert(b[i + (3 + 2 * n)] == jhex(v)[3 + 2 * n as int]) by {
        assert(b.subrange(i, i + jhex(v).len() as int)[3 + 2 * n as int] == jhex(v)[3 + 2
            * n as int]);
    }
    lemma_hex_digits_end_at(b, i + 3, i + 3 + 2 * n);
    assert(b.subrange(i + 3, i + 3 + 2 * n) =~= hex_bytes_of(v)) by {
        assert(p_jhex_fixed(b, i, n) == Some((v, i + 2 * n + 4)));
        lemma_lower_hex_identity(b.subrange(i + 3, i + 3 + 2 * n));
    }
}

/// The denoted number of a rendered decimal, read back digit by digit.
pub proof fn lemma_dec_val_of_bytes(n: nat, b: Seq<u8>, i: int)
    requires
        0 <= i,
        i + dec_bytes_of(n).len() <= b.len(),
        b.subrange(i, i + dec_bytes_of(n).len() as int) == dec_bytes_of(n),
    ensures
        dec_val(b, i, i + dec_bytes_of(n).len() as int) == n,
    decreases n,
{
    let l = dec_bytes_of(n).len() as int;
    if n < 10 {
        assert(b[i] == dec_bytes_of(n)[0]);
        assert(dec_val(b, i, i + 1) == dec_val(b, i, i) * 10 + (b[i] - 48));
    } else {
        let pre = dec_bytes_of(n / 10);
        assert(dec_bytes_of(n) == pre.push((48 + n % 10) as u8));
        assert(b.subrange(i, i + pre.len() as int) =~= pre);
        lemma_dec_val_of_bytes(n / 10, b, i);
        assert(b[i + l - 1] == dec_bytes_of(n)[l - 1]);
        assert(dec_bytes_of(n)[l - 1] == (48 + n % 10) as u8);
        assert(dec_val(b, i, i + l) == dec_val(b, i, i + l - 1) * 10 + (b[i + l - 1] - 48));
    }
}

pub proof fn lemma_p_jdec_at(b: Seq<u8>, i: int, n: u64)
    requires
        0 <= i,
        i + jdec(n as nat).len() <= b.len(),
        b.subrange(i, i + jdec(n as nat).len() as int) == jdec(n as nat),
    ensures
        jdec(n as nat).len() == dec_bytes_of(n as nat).len() + 2,
        p_jdec(b, i) == Some((n, i + jdec(n as nat).len() as int)),
{
    lemma_dec_bytes_digits(n as nat);
    let d = dec_bytes_of(n as nat);
    let l = d.len() as int;
    assert forall|k: int| 0 <= k < l + 2 implies #[trigger] b[i + k] == jdec(n as nat)[k] by {
        assert(b.subrange(i, i + jdec(n as nat).len() as int)[k] == jdec(n as nat)[k]);
    }
    assert(b[i + 0] == jdec(n as nat)[0]);
    assert(b[i + (1 + l)] == jdec(n as nat)[1 + l]);
    assert forall|k: int| i + 1 <= k < i + 1 + l implies is_dec_digit(#[trigger] b[k]) by {
        let m = k - i;
        assert(b[i + m] == jdec(n as nat)[m]);
        assert(jdec(n as nat)[m] == d[m - 1]);
    }
    assert(!is_dec_digit(34));
    lemma_dec_digits_end_at(b, i + 1, i + 1 + l);
    assert forall|k: int| 0 <= k < l implies #[trigger] b.subrange(i + 1, i + 1 + l)[k]
        == d[k] by {
        assert(b[i + (k + 1)] == jdec(n as nat)[k + 1]);
        assert(jdec(n as nat)[k + 1] == d[k]);
    }
    assert(b.subrange(i + 1, i + 1 + l) =~= d);
    lemma_dec_val_of_bytes(n as nat, b, i + 1);
    assert(b[i + 1] == d[0]);
    if n >= 10 {
        assert(d[0] != 48);
    } else {
        assert(l == 1);
    }
}

// ---------------------------------------------------------------------------
// Exactness: whatever a parser accepts is the renderer's output.
// ---------------------------------------------------------------------------

#[verifier::rlimit(50)]
pub proof fn lemma_p_jhex_fixed_exact(b: Seq<u8>, i: int, n: nat, v: Seq<u8>, j: int)
    requires
        p_jhex_fixed(b, i, n) == Some((v, j)),
    ensures
        v.len() == n,
        0 <= i,
        j == i + 2 * n + 4,
        j <= b.len(),
        b.subrange(i, j) == jhex(v),
{
    let digits = b.subrange(i + 3, i + 3 + 2 * n);
    assert forall|k: int| 0 <= k < digits.len() implies is_lower_hex_digit(
        #[trigger] digits[k],
    ) by {
        assert(is_lower_hex_digit(b[i + 3 + k]));
    }
    assert(lower_hex(digits));
    lemma_lower_hex_identity(digits);
    assert(hex_bytes_of(v) == digits);
    assert(b.subrange(i, j) =~= jhex(v));
}

pub proof fn lemma_hex_digits_end_bounds(b: Seq<u8>, i: int)
    requires
        0 <= i <= b.len(),
    ensures
        i <= hex_digits_end(b, i) <= b.len(),
        forall|k: int| i <= k < hex_digits_end(b, i) ==> is_lower_hex_digit(#[trigger] b[k]),
    decreases b.len() - i,
{
    if i < b.len() && is_lower_hex_digit(b[i]) {
        lemma_hex_digits_end_bounds(b, i + 1);
    }
}

pub proof fn lemma_dec_digits_end_bounds(b: Seq<u8>, i: int)
    requires
        0 <= i <= b.len(),
    ensures
        i <= dec_digits_end(b, i) <= b.len(),
        forall|k: int| i <= k < dec_digits_end(b, i) ==> is_dec_digit(#[trigger] b[k]),
    decreases b.len() - i,
{
    if i < b.len() && is_dec_digit(b[i]) {
        lemma_dec_digits_end_bounds(b, i + 1);
    }
}

#[verifier::rlimit(100)]
pub proof fn lemma_p_jhex_var_exact(b: Seq<u8>, i: int, v: Seq<u8>, j: int)
    requires
        0 <= i <= b.len(),
        p_jhex_var(b, i) == Some((v, j)),
    ensures
        j == i + 2 * v.len() + 4,
        j <= b.len(),
        b.subrange(i, j) == jhex(v),
{
    lemma_hex_digits_end_bounds(b, i + 3);
    let e = hex_digits_end(b, i + 3);
    let digits = b.subrange(i + 3, e);
    assert forall|k: int| 0 <= k < digits.len() implies is_lower_hex_digit(
        #[trigger] digits[k],
    ) by {
        assert(is_lower_hex_digit(b[i + 3 + k]));
    }
    assert(lower_hex(digits));
    lemma_lower_hex_identity(digits);
    assert(hex_bytes_of(v) == digits);
    assert(v.len() == digits.len() / 2);
    assert(jhex(v).len() == j - i);
    assert forall|k: int| 0 <= k < j - i implies #[trigger] b.subrange(i, j)[k] == jhex(v)[k] by {
        if k == 0 || k == 1 || k == 2 {
        } else if k < 3 + digits.len() {
            assert(digits[k - 3] == b[i + 3 + (k - 3)]);
        } else {
            assert(b[e] == 34);
        }
    }
    assert(b.subrange(i, j) =~= jhex(v));
}

/// A nonempty digit span without a leading zero renders back to itself.
pub proof fn lemma_dec_bytes_of_val(b: Seq<u8>, i: int, e: int)
    requires
        0 <= i < e <= b.len(),
        forall|k: int| i <= k < e ==> is_dec_digit(#[trigger] b[k]),
        b[i] != 48 || e == i + 1,
    ensures
        dec_val(b, i, e) >= 0,
        e > i + 1 ==> dec_val(b, i, e) >= 10,
        dec_bytes_of(dec_val(b, i, e) as nat) == b.subrange(i, e),
    decreases e - i,
{
    if e == i + 1 {
        assert(dec_val(b, i, i) == 0);
        assert(dec_val(b, i, e) == dec_val(b, i, i) * 10 + (b[i] - 48));
        assert(dec_bytes_of((b[i] - 48) as nat) =~= b.subrange(i, e));
    } else {
        lemma_dec_bytes_of_val(b, i, e - 1);
        let m = dec_val(b, i, e - 1);
        let n = dec_val(b, i, e);
        assert(n == m * 10 + (b[e - 1] - 48));
        assert(b[i] != 48);
        assert(m >= 1) by {
            if e - 1 == i + 1 {
                assert(dec_val(b, i, i) == 0);
                assert(dec_val(b, i, i + 1) == dec_val(b, i, i) * 10 + (b[i] - 48));
            }
        }
        assert(n >= 10) by (nonlinear_arith)
            requires
                m >= 1 && n == m * 10 + (b[e - 1] - 48) && b[e - 1] >= 48,
        ;
        assert(n / 10 == m && n % 10 == b[e - 1] - 48) by (nonlinear_arith)
            requires
                n == m * 10 + (b[e - 1] - 48) && 48 <= b[e - 1] <= 57 && m >= 0,
        ;
        assert(dec_bytes_of(n as nat) == dec_bytes_of(m as nat).push((48 + n as nat % 10) as u8));
        assert(dec_bytes_of(n as nat) =~= b.subrange(i, e));
    }
}

pub proof fn lemma_p_jdec_exact(b: Seq<u8>, i: int, n: u64, j: int)
    requires
        0 <= i <= b.len(),
        p_jdec(b, i) == Some((n, j)),
    ensures
        j == i + jdec(n as nat).len(),
        j <= b.len(),
        b.subrange(i, j) == jdec(n as nat),
{
    lemma_dec_digits_end_bounds(b, i + 1);
    let e = dec_digits_end(b, i + 1);
    lemma_dec_bytes_of_val(b, i + 1, e);
    assert(b.subrange(i, j) =~= jdec(n as nat));
}

// ---------------------------------------------------------------------------
// Executable rendering and parsing primitives.
// ---------------------------------------------------------------------------

/// Appends `{"name":`.
pub(crate) fn push_key_first(out: &mut Vec<u8>, name: &str)
    ensures
        final(out)@ == old(out)@ + jkey_first(name.spec_bytes()),
{
    out.push(123);
    out.push(34);
    extend_bytes(out, name.as_bytes());
    out.push(34);
    out.push(58);
    assert(final(out)@ =~= old(out)@ + jkey_first(name.spec_bytes()));
}

/// Appends `,"name":`.
pub(crate) fn push_key_next(out: &mut Vec<u8>, name: &str)
    ensures
        final(out)@ == old(out)@ + jkey_next(name.spec_bytes()),
{
    out.push(44);
    out.push(34);
    extend_bytes(out, name.as_bytes());
    out.push(34);
    out.push(58);
    assert(final(out)@ =~= old(out)@ + jkey_next(name.spec_bytes()));
}

/// Appends a quoted decimal integer.
pub(crate) fn push_jdec(out: &mut Vec<u8>, n: u64)
    ensures
        final(out)@ == old(out)@ + jdec(n as nat),
{
    out.push(34);
    push_decimal(out, n);
    out.push(34);
    assert(final(out)@ =~= old(out)@ + jdec(n as nat));
}

/// Appends a quoted `0x` hex byte string.
pub(crate) fn push_jhex(out: &mut Vec<u8>, data: &[u8])
    ensures
        final(out)@ == old(out)@ + jhex(data@),
{
    out.push(34);
    out.push(48);
    out.push(120);
    push_hex(out, data);
    out.push(34);
    assert(final(out)@ =~= old(out)@ + jhex(data@));
}

/// Expects the exact bytes of `lit` at `i`; returns the position after them.
pub(crate) fn expect_bytes(b: &[u8], i: usize, lit: &[u8]) -> (r: Option<usize>)
    requires
        i <= b@.len(),
    ensures
        r is Some <==> p_lit(b@, i as int, lit@) is Some,
        r matches Some(j) ==> Some(j as int) == p_lit(b@, i as int, lit@) && i <= j <= b@.len(),
{
    let n = b.len();
    let ll = lit.len();
    if ll > n - i {
        return None;
    }
    let mut k: usize = 0;
    while k < ll
        invariant
            0 <= k <= lit@.len(),
            ll == lit@.len(),
            n == b@.len(),
            i + ll <= n,
            forall|m: int| 0 <= m < k ==> b@[i + m] == lit@[m],
        decreases lit@.len() - k,
    {
        if b[i + k] != lit[k] {
            assert(b@.subrange(i as int, i as int + lit@.len() as int)[k as int] == b@[i + k]);
            assert(b@.subrange(i as int, i as int + lit@.len() as int) != lit@);
            return None;
        }
        k += 1;
    }
    assert(b@.subrange(i as int, i as int + lit@.len() as int) =~= lit@);
    Some(i + ll)
}

/// Expects one byte at `i`.
pub(crate) fn expect_byte(b: &[u8], i: usize, c: u8) -> (r: Option<usize>)
    requires
        i <= b@.len(),
    ensures
        r is Some <==> p_lit(b@, i as int, seq![c]) is Some,
        r matches Some(j) ==> Some(j as int) == p_lit(b@, i as int, seq![c]) && i <= j <= b@.len(),
{
    let n = b.len();
    if i < n && b[i] == c {
        assert(b@.subrange(i as int, i as int + 1) =~= seq![c]);
        Some(i + 1)
    } else {
        if i < n {
            assert(b@.subrange(i as int, i as int + 1)[0] == b@[i as int]);
        }
        None
    }
}

fn key_bytes(name: &str, first: bool) -> (k: Vec<u8>)
    ensures
        first ==> k@ == jkey_first(name.spec_bytes()),
        !first ==> k@ == jkey_next(name.spec_bytes()),
{
    let mut k: Vec<u8> = Vec::new();
    if first {
        k.push(123);
    } else {
        k.push(44);
    }
    k.push(34);
    extend_bytes(&mut k, name.as_bytes());
    k.push(34);
    k.push(58);
    proof {
        if first {
            assert(k@ =~= jkey_first(name.spec_bytes()));
        } else {
            assert(k@ =~= jkey_next(name.spec_bytes()));
        }
    }
    k
}

/// Expects `{"name":` at `i`.
pub(crate) fn expect_key_first(b: &[u8], i: usize, name: &str) -> (r: Option<usize>)
    requires
        i <= b@.len(),
    ensures
        r is Some <==> p_lit(b@, i as int, jkey_first(name.spec_bytes())) is Some,
        r matches Some(j) ==> Some(j as int) == p_lit(b@, i as int, jkey_first(name.spec_bytes()))
            && i <= j <= b@.len(),
{
    let k = key_bytes(name, true);
    expect_bytes(b, i, k.as_slice())
}

/// Expects `,"name":` at `i`.
pub(crate) fn expect_key_next(b: &[u8], i: usize, name: &str) -> (r: Option<usize>)
    requires
        i <= b@.len(),
    ensures
        r is Some <==> p_lit(b@, i as int, jkey_next(name.spec_bytes())) is Some,
        r matches Some(j) ==> Some(j as int) == p_lit(b@, i as int, jkey_next(name.spec_bytes()))
            && i <= j <= b@.len(),
{
    let k = key_bytes(name, false);
    expect_bytes(b, i, k.as_slice())
}

/// Expects a quoted `0x` hex string denoting exactly `n` bytes.
pub(crate) fn parse_jhex_fixed(b: &[u8], i: usize, n: usize) -> (r: Option<(Vec<u8>, usize)>)
    requires
        i <= b@.len(),
    ensures
        r is Some <==> p_jhex_fixed(b@, i as int, n as nat) is Some,
        r matches Some(p) ==> Some((p.0@, p.1 as int)) == p_jhex_fixed(b@, i as int, n as nat)
            && i <= p.1 <= b@.len(),
{
    let len = b.len();
    assert(b@.len() <= usize::MAX);
    let avail = len - i;
    if avail < 4 || (avail - 4) / 2 < n {
        assert(i + 2 * n + 4 > b@.len());
        return None;
    }
    assert(i + 2 * n + 4 <= b@.len());
    if b[i] != 34 || b[i + 1] != 48 || b[i + 2] != 120 {
        return None;
    }
    if b[i + 3 + 2 * n] != 34 {
        return None;
    }
    let mut out: Vec<u8> = Vec::new();
    let mut k: usize = 0;
    while k < n
        invariant
            0 <= k <= n,
            b@.len() <= usize::MAX,
            i + 2 * n + 4 <= b@.len(),
            out@.len() == k,
            forall|m: int| i + 3 <= m < i + 3 + 2 * k ==> is_lower_hex_digit(#[trigger] b@[m]),
            forall|m: int| 0 <= m < k ==> out@[m] == hex_decoded(
                b@.subrange(i + 3, i + 3 + 2 * n as int),
            )[m],
        decreases n - k,
    {
        let hi = b[i + 3 + 2 * k];
        let lo = b[i + 4 + 2 * k];
        let hv = if 48 <= hi && hi <= 57 {
            hi - 48
        } else if 97 <= hi && hi <= 102 {
            hi - 87
        } else {
            return None;
        };
        let lv = if 48 <= lo && lo <= 57 {
            lo - 48
        } else if 97 <= lo && lo <= 102 {
            lo - 87
        } else {
            return None;
        };
        out.push(hv * 16 + lv);
        proof {
            let digits = b@.subrange(i + 3, i + 3 + 2 * n as int);
            assert(digits[2 * k as int] == b@[i + 3 + 2 * k as int]);
            assert(digits[2 * k as int + 1] == b@[i + 4 + 2 * k as int]);
            assert(out@[k as int] == hex_decoded(digits)[k as int]);
        }
        k += 1;
    }
    proof {
        assert(out@ =~= hex_decoded(b@.subrange(i + 3, i + 3 + 2 * n as int)));
    }
    Some((out, i + 2 * n + 4))
}

/// Expects a quoted `0x` hex string of any even digit count.
pub(crate) fn parse_jhex_var(b: &[u8], i: usize) -> (r: Option<(Vec<u8>, usize)>)
    requires
        i <= b@.len(),
    ensures
        r is Some <==> p_jhex_var(b@, i as int) is Some,
        r matches Some(p) ==> Some((p.0@, p.1 as int)) == p_jhex_var(b@, i as int) && i <= p.1
            <= b@.len(),
{
    let len = b.len();
    if len - i < 3 {
        return None;
    }
    if b[i] != 34 || b[i + 1] != 48 || b[i + 2] != 120 {
        return None;
    }
    let mut e: usize = i + 3;
    while e < len && ((48 <= b[e] && b[e] <= 57) || (97 <= b[e] && b[e] <= 102))
        invariant
            i + 3 <= e <= len,
            len == b@.len(),
            forall|m: int| i + 3 <= m < e ==> is_lower_hex_digit(#[trigger] b@[m]),
        decreases len - e,
    {
        e += 1;
    }
    proof {
        lemma_hex_digits_end_at(b@, i as int + 3, e as int);
    }
    if e >= len || b[e] != 34 {
        return None;
    }
    if (e - (i + 3)) % 2 != 0 {
        return None;
    }
    let n = (e - (i + 3)) / 2;
    match parse_jhex_fixed(b, i, n) {
        Some(p) => {
            proof {
                assert(i + 3 + 2 * n as int == e);
                assert(p_jhex_fixed(b@, i as int, n as nat) is Some);
            }
            Some(p)
        },
        None => {
            proof {
                assert(p_jhex_fixed(b@, i as int, n as nat) is Some);
            }
            None
        },
    }
}

/// Expects a quoted decimal integer without leading zeros, within `u64`.
pub(crate) fn parse_jdec(b: &[u8], i: usize) -> (r: Option<(u64, usize)>)
    requires
        i <= b@.len(),
    ensures
        r is Some <==> p_jdec(b@, i as int) is Some,
        r matches Some(p) ==> Some((p.0, p.1 as int)) == p_jdec(b@, i as int) && i <= p.1
            <= b@.len(),
{
    let len = b.len();
    if i >= len || b[i] != 34 {
        return None;
    }
    let mut e: usize = i + 1;
    let mut val: u64 = 0;
    let mut overflow: bool = false;
    while e < len && 48 <= b[e] && b[e] <= 57
        invariant
            i + 1 <= e <= len,
            len == b@.len(),
            forall|m: int| i + 1 <= m < e ==> is_dec_digit(#[trigger] b@[m]),
            !overflow ==> val == dec_val(b@, i as int + 1, e as int),
            overflow ==> dec_val(b@, i as int + 1, e as int) > u64::MAX,
        decreases len - e,
    {
        let d = b[e] - 48;
        proof {
            assert(dec_val(b@, i as int + 1, e as int + 1) == dec_val(b@, i as int + 1, e as int)
                * 10 + d);
            if !overflow {
                assert(dec_val(b@, i as int + 1, e as int) == val);
            } else {
                assert(dec_val(b@, i as int + 1, e as int) > u64::MAX);
                assert(dec_val(b@, i as int + 1, e as int + 1) > u64::MAX) by (nonlinear_arith)
                    requires
                        dec_val(b@, i as int + 1, e as int) > u64::MAX && dec_val(
                            b@,
                            i as int + 1,
                            e as int + 1,
                        ) == dec_val(b@, i as int + 1, e as int) * 10 + d && d >= 0,
                ;
            }
        }
        if !overflow {
            if val > (u64::MAX - d as u64) / 10 {
                proof {
                    assert(val * 10 + d > u64::MAX) by (nonlinear_arith)
                        requires
                            val > (u64::MAX - d as u64) / 10 && 0 <= d <= 9 && val
                                <= u64::MAX,
                    ;
                }
                overflow = true;
            } else {
                proof {
                    assert(val * 10 + d <= u64::MAX) by (nonlinear_arith)
                        requires
                            val <= (u64::MAX - d as u64) / 10 && 0 <= d <= 9,
                    ;
                }
                val = val * 10 + d as u64;
            }
        }
        e += 1;
    }
    proof {
        lemma_dec_digits_end_at(b@, i as int + 1, e as int);
    }
    if e >= len || b[e] != 34 {
        return None;
    }
    if e == i + 1 {
        return None;
    }
    if b[i + 1] == 48 && e != i + 2 {
        return None;
    }
    if overflow {
        return None;
    }
    Some((val, e + 1))
}

// ---------------------------------------------------------------------------
// Arrays of hex strings.
// ---------------------------------------------------------------------------

/// The items of a hex array, comma separated, without the brackets.
pub open spec fn jhex_items_enc(items: Seq<Seq<u8>>) -> Seq<u8>
    decreases items.len(),
{
    if items.len() == 0 {
        Seq::empty()
    } else if items.len() == 1 {
        jhex(items[0])
    } else {
        jhex(items[0]) + seq![44u8] + jhex_items_enc(items.drop_first())
    }
}

/// A hex array with its brackets.
pub open spec fn jlist(items: Seq<Seq<u8>>) -> Seq<u8> {
    seq![91u8] + jhex_items_enc(items) + seq![93u8]
}

/// One or more items followed by `]`; consumes the closing bracket.
pub open spec fn p_jhex_items(b: Seq<u8>, i: int, n: nat) -> Option<(Seq<Seq<u8>>, int)>
    decreases b.len() - i,
{
    match p_jhex_fixed(b, i, n) {
        None => None,
        Some((v, j)) => {
            if j < b.len() && b[j] == 44 {
                if j + 1 > i {
                    match p_jhex_items(b, j + 1, n) {
                        None => None,
                        Some((rest, e)) => Some((seq![v] + rest, e)),
                    }
                } else {
                    None
                }
            } else if j < b.len() && b[j] == 93 {
                Some((seq![v], j + 1))
            } else {
                None
            }
        },
    }
}

/// A possibly empty hex array of items denoting `n` bytes each.
pub open spec fn p_jlist(b: Seq<u8>, i: int, n: nat) -> Option<(Seq<Seq<u8>>, int)> {
    if 0 <= i && i + 2 <= b.len() && b[i] == 91 && b[i + 1] == 93 {
        Some((Seq::empty(), i + 2))
    } else if 0 <= i && i < b.len() && b[i] == 91 {
        p_jhex_items(b, i + 1, n)
    } else {
        None
    }
}

/// Splits a parsed region into its first piece and the rest.
pub proof fn lemma_peel(b: Seq<u8>, i: int, x: Seq<u8>, y: Seq<u8>)
    requires
        0 <= i,
        i + x.len() + y.len() <= b.len(),
        b.subrange(i, i + x.len() + y.len() as int) == x + y,
    ensures
        b.subrange(i, i + x.len() as int) == x,
        b.subrange(i + x.len() as int, i + x.len() + y.len() as int) == y,
{
    let xl = x.len() as int;
    let yl = y.len() as int;
    let whole = b.subrange(i, i + xl + yl);
    assert forall|k: int| 0 <= k < xl implies #[trigger] b.subrange(i, i + xl)[k] == x[k] by {
        assert(whole[k] == (x + y)[k]);
        assert(whole[k] == b[i + k]);
        assert(b.subrange(i, i + xl)[k] == b[i + k]);
    }
    assert(b.subrange(i, i + xl) =~= x);
    assert forall|k: int| 0 <= k < yl implies #[trigger] b.subrange(i + xl, i + xl + yl)[k]
        == y[k] by {
        assert(whole[xl + k] == (x + y)[xl + k]);
        assert((x + y)[xl + k] == y[k]);
        assert(whole[xl + k] == b[i + xl + k]);
        assert(b.subrange(i + xl, i + xl + yl)[k] == b[i + xl + k]);
    }
    assert(b.subrange(i + xl, i + xl + yl) =~= y);
}

/// Joins two adjacent parsed regions into one.
pub proof fn lemma_join(b: Seq<u8>, i: int, m: int, j: int, x: Seq<u8>, y: Seq<u8>)
    requires
        0 <= i <= m <= j <= b.len(),
        b.subrange(i, m) == x,
        b.subrange(m, j) == y,
    ensures
        b.subrange(i, j) == x + y,
{
    assert forall|k: int| 0 <= k < j - i implies #[trigger] b.subrange(i, j)[k] == (x + y)[k] by {
        if k < m - i {
            assert(b.subrange(i, m)[k] == b[i + k]);
        } else {
            assert(b.subrange(m, j)[k - (m - i)] == b[m + (k - (m - i))]);
        }
    }
    assert(b.subrange(i, j) =~= x + y);
}

pub proof fn lemma_p_jhex_items_at(b: Seq<u8>, i: int, items: Seq<Seq<u8>>, n: nat)
    requires
        0 <= i,
        items.len() >= 1,
        forall|k: int| 0 <= k < items.len() ==> (#[trigger] items[k]).len() == n,
        i + jhex_items_enc(items).len() + 1 <= b.len(),
        b.subrange(i, i + jhex_items_enc(items).len() + 1) == jhex_items_enc(items) + seq![93u8],
    ensures
        p_jhex_items(b, i, n) == Some((items, i + jhex_items_enc(items).len() + 1)),
    decreases items.len(),
{
    let first = items[0];
    if items.len() == 1 {
        lemma_peel(b, i, jhex(first), seq![93u8]);
        lemma_p_jhex_fixed_at(b, i, first);
        let j = i + 2 * n + 4;
        assert(b.subrange(j, j + 1)[0] == b[j]);
        assert(b[j] == 34 || b[j] == 93);
        assert(b.subrange(j, j + 1) =~= seq![93u8]);
        assert(b[j] == 93);
        assert(!(b[j] == 44));
        assert(seq![first] =~= items);
    } else {
        let rest = items.drop_first();
        assert(jhex_items_enc(items) == jhex(first) + seq![44u8] + jhex_items_enc(rest));
        assert(jhex_items_enc(items) + seq![93u8] =~= jhex(first) + (seq![44u8] + (
        jhex_items_enc(rest) + seq![93u8])));
        lemma_peel(b, i, jhex(first), seq![44u8] + (jhex_items_enc(rest) + seq![93u8]));
        lemma_p_jhex_fixed_at(b, i, first);
        let j = i + 2 * n + 4;
        lemma_peel(b, j, seq![44u8], jhex_items_enc(rest) + seq![93u8]);
        assert(b.subrange(j, j + 1)[0] == b[j]);
        assert(b[j] == 44);
        lemma_p_jhex_items_at(b, j + 1, rest, n);
        assert(seq![first] + rest =~= items);
    }
}

pub proof fn lemma_p_jlist_at(b: Seq<u8>, i: int, items: Seq<Seq<u8>>, n: nat)
    requires
        0 <= i,
        forall|k: int| 0 <= k < items.len() ==> (#[trigger] items[k]).len() == n,
        i + jlist(items).len() <= b.len(),
        b.subrange(i, i + jlist(items).len() as int) == jlist(items),
    ensures
        p_jlist(b, i, n) == Some((items, i + jlist(items).len() as int)),
{
    assert(jlist(items) =~= seq![91u8] + (jhex_items_enc(items) + seq![93u8]));
    lemma_peel(b, i, seq![91u8], jhex_items_enc(items) + seq![93u8]);
    assert(b.subrange(i, i + 1)[0] == b[i]);
    assert(b[i] == 91);
    if items.len() == 0 {
        assert(b.subrange(i + 1, i + 2)[0] == b[i + 1]);
        assert(b[i + 1] == 93);
    } else {
        lemma_p_jhex_items_at(b, i + 1, items, n);
        assert(b.subrange(i + 1, i + 2)[0] == b[i + 1]);
        assert(jhex_items_enc(items).len() >= 1);
        assert(b[i + 1] == 34);
    }
}

pub proof fn lemma_p_jhex_items_exact(b: Seq<u8>, i: int, n: nat, items: Seq<Seq<u8>>, j: int)
    requires
        0 <= i <= b.len(),
        p_jhex_items(b, i, n) == Some((items, j)),
    ensures
        items.len() >= 1,
        forall|k: int| 0 <= k < items.len() ==> (#[trigger] items[k]).len() == n,
        i <= j <= b.len(),
        j == i + jhex_items_enc(items).len() + 1,
        b.subrange(i, j) == jhex_items_enc(items) + seq![93u8],
    decreases b.len() - i,
{
    let (v, m) = p_jhex_fixed(b, i, n)->Some_0;
    lemma_p_jhex_fixed_exact(b, i, n, v, m);
    if m < b.len() && b[i + 2 * n + 4] == 44 {
        let (rest, e) = p_jhex_items(b, m + 1, n)->Some_0;
        lemma_p_jhex_items_exact(b, m + 1, n, rest, e);
        assert(items == seq![v] + rest);
        assert(items[0] == v);
        assert(items.len() >= 2);
        assert(items.drop_first() =~= rest);
        assert(jhex_items_enc(items) == jhex(v) + seq![44u8] + jhex_items_enc(rest));
        assert(b.subrange(i, j) =~= b.subrange(i, m) + b.subrange(m, m + 1) + b.subrange(
            m + 1,
            j,
        ));
        assert(b.subrange(m, m + 1) =~= seq![44u8]);
        assert(b.subrange(m + 1, j) == jhex_items_enc(rest) + seq![93u8]);
        assert(jhex_items_enc(items) + seq![93u8] =~= jhex(v) + seq![44u8] + (jhex_items_enc(
            rest,
        ) + seq![93u8]));
        assert(b.subrange(i, j) =~= jhex_items_enc(items) + seq![93u8]);
    } else {
        assert(b[i + 2 * n + 4] == 93);
        assert(items =~= seq![v]);
        assert(jhex_items_enc(items) == jhex(v));
        assert(b.subrange(i, j) =~= b.subrange(i, m) + b.subrange(m, j));
        assert(b.subrange(m, j) =~= seq![93u8]);
        assert(b.subrange(i, j) =~= jhex_items_enc(items) + seq![93u8]);
    }
}

pub proof fn lemma_p_jlist_exact(b: Seq<u8>, i: int, n: nat, items: Seq<Seq<u8>>, j: int)
    requires
        0 <= i <= b.len(),
        p_jlist(b, i, n) == Some((items, j)),
    ensures
        forall|k: int| 0 <= k < items.len() ==> (#[trigger] items[k]).len() == n,
        i <= j <= b.len(),
        j == i + jlist(items).len(),
        b.subrange(i, j) == jlist(items),
{
    if i + 2 <= b.len() && b[i] == 91 && b[i + 1] == 93 {
        assert(jlist(items) =~= seq![91u8, 93u8]);
        assert(b.subrange(i, j) =~= jlist(items));
    } else {
        let (v, e) = p_jhex_items(b, i + 1, n)->Some_0;
        lemma_p_jhex_items_exact(b, i + 1, n, v, e);
        assert(b.subrange(i, j) =~= b.subrange(i, i + 1) + b.subrange(i + 1, j));
        assert(b.subrange(i, i + 1) =~= seq![91u8]);
        assert(b.subrange(i + 1, j) == jhex_items_enc(items) + seq![93u8]);
        assert(jlist(items) =~= seq![91u8] + (jhex_items_enc(items) + seq![93u8]));
        assert(b.subrange(i, j) =~= jlist(items));
    }
}

// ---------------------------------------------------------------------------
// Shapes.
// ---------------------------------------------------------------------------

/// Canonical text of this shape, fields in declaration order.
pub open spec fn json_body_v(v: BlockBodyV) -> Seq<u8> {
    jkey_first("randao_reveal".spec_bytes()) + jhex(v.randao_reveal) + jkey_next("graffiti".spec_bytes()) + jhex(v.graffiti) + jkey_next("payload".spec_bytes()) + jhex(v.payload) + seq![125u8]
}

pub open spec fn t_body(kind: PresetKind, b: Seq<u8>, i: int) -> Option<(BlockBodyV, int)> {
    let r0 = p_lit(b, i, jkey_first("randao_reveal".spec_bytes()));
    let i0 = r0->Some_0;
    let r1 = p_jhex_fixed(b, i0, 96);
    let i1 = r1->Some_0.1;
    let r2 = p_lit(b, i1, jkey_next("graffiti".spec_bytes()));
    let i2 = r2->Some_0;
    let r3 = p_jhex_fixed(b, i2, 32);
    let i3 = r3->Some_0.1;
    let r4 = p_lit(b, i3, jkey_next("payload".spec_bytes()));
    let i4 = r4->Some_0;
    let r5 = p_jhex_var(b, i4);
    let i5 = r5->Some_0.1;
    let r6 = p_lit(b, i5, seq![125u8]);
    let i6 = r6->Some_0;
    if r0 is Some && r1 is Some && r2 is Some && r3 is Some && r4 is Some && r5 is Some && r5->Some_0.0.len() <= spec_max_payload_bytes(kind) && r6 is Some {
        Some((BlockBodyV { randao_reveal: r1->Some_0.0, graffiti: r3->Some_0.0, payload: r5->Some_0.0 }, i6))
    } else {
        None
    }
}

#[verifier::rlimit(100)]
pub proof fn lemma_t_body_at(kind: PresetKind, b: Seq<u8>, i: int, v: BlockBodyV)
    requires
        wf_body_v(v, kind),
        0 <= i,
        i + json_body_v(v).len() <= b.len(),
        b.subrange(i, i + json_body_v(v).len() as int) == json_body_v(v),
    ensures
        t_body(kind, b, i) == Some((v, i + json_body_v(v).len() as int)),
{
    let p0 = jkey_first("randao_reveal".spec_bytes());
    let p1 = jhex(v.randao_reveal);
    let p2 = jkey_next("graffiti".spec_bytes());
    let p3 = jhex(v.graffiti);
    let p4 = jkey_next("payload".spec_bytes());
    let p5 = jhex(v.payload);
    let p6 = seq![125u8];
    let q0 = p0 + (p1 + (p2 + (p3 + (p4 + (p5 + (p6))))));
    let q1 = p1 + (p2 + (p3 + (p4 + (p5 + (p6)))));
    let q2 = p2 + (p3 + (p4 + (p5 + (p6))));
    let q3 = p3 + (p4 + (p5 + (p6)));
    let q4 = p4 + (p5 + (p6));
    let q5 = p5 + (p6);
    let q6 = p6;
    assert(json_body_v(v) =~= q0);
    let j0 = i;
    assert(q0 == p0 + q1);
    lemma_peel(b, j0, p0, q1);
    let j1 = j0 + p0.len() as int;
    assert(q1 == p1 + q2);
    lemma_peel(b, j1, p1, q2);
    let j2 = j1 + p1.len() as int;
    assert(q2 == p2 + q3);
    lemma_peel(b, j2, p2, q3);
    let j3 = j2 + p2.len() as int;
    assert(q3 == p3 + q4);
    lemma_peel(b, j3, p3, q4);
    let j4 = j3 + p3.len() as int;
    assert(q4 == p4 + q5);
    lemma_peel(b, j4, p4, q5);
    let j5 = j4 + p4.len() as int;
    assert(q5 == p5 + q6);
    lemma_peel(b, j5, p5, q6);
    let j6 = j5 + p5.len() as int;
    lemma_p_lit_at(b, j0, jkey_first("randao_reveal".spec_bytes()));
    lemma_p_jhex_fixed_at(b, j1, v.randao_reveal);
    lemma_p_lit_at(b, j2, jkey_next("graffiti".spec_bytes()));
    lemma_p_jhex_fixed_at(b, j3, v.graffiti);
    lemma_p_lit_at(b, j4, jkey_next("payload".spec_bytes()));
    lemma_p_jhex_var_at(b, j5, v.payload);
    lemma_p_lit_at(b, j6, seq![125u8]);
    assert(t_body(kind, b, i) == Some((v, i + json_body_v(v).len() as int)));
}

#[verifier::rlimit(100)]
pub proof fn lemma_t_body_exact(kind: PresetKind, b: Seq<u8>, i: int, v: BlockBodyV, j: int)
    requires
        0 <= i <= b.len(),
        t_body(kind, b, i) == Some((v, j)),
    ensures
        wf_body_v(v, kind),
        i <= j <= b.len(),
        j == i + json_body_v(v).len(),
        b.subrange(i, j) == json_body_v(v),
{
    let p0 = jkey_first("randao_reveal".spec_bytes());
    let p1 = jhex(v.randao_reveal);
    let p2 = jkey_next("graffiti".spec_bytes());
    let p3 = jhex(v.graffiti);
    let p4 = jkey_next("payload".spec_bytes());
    let p5 = jhex(v.payload);
    let p6 = seq![125u8];
    let q0 = p0 + (p1 + (p2 + (p3 + (p4 + (p5 + (p6))))));
    let q1 = p1 + (p2 + (p3 + (p4 + (p5 + (p6)))));
    let q2 = p2 + (p3 + (p4 + (p5 + (p6))));
    let q3 = p3 + (p4 + (p5 + (p6)));
    let q4 = p4 + (p5 + (p6));
    let q5 = p5 + (p6);
    let q6 = p6;
    let i0 = p_lit(b, i, jkey_first("randao_reveal".spec_bytes()))->Some_0;
    assert(b.subrange(i, i0) == jkey_first("randao_reveal".spec_bytes()));
    let (x1, i1) = p_jhex_fixed(b, i0, 96)->Some_0;
    lemma_p_jhex_fixed_exact(b, i0, 96, x1, i1);
    assert(x1 == v.randao_reveal);
    let i2 = p_lit(b, i1, jkey_next("graffiti".spec_bytes()))->Some_0;
    assert(b.subrange(i1, i2) == jkey_next("graffiti".spec_bytes()));
    let (x3, i3) = p_jhex_fixed(b, i2, 32)->Some_0;
    lemma_p_jhex_fixed_exact(b, i2, 32, x3, i3);
    assert(x3 == v.graffiti);
    let i4 = p_lit(b, i3, jkey_next("payload".spec_bytes()))->Some_0;
    assert(b.subrange(i3, i4) == jkey_next("payload".spec_bytes()));
    let (x5, i5) = p_jhex_var(b, i4)->Some_0;
    lemma_p_jhex_var_exact(b, i4, x5, i5);
    assert(x5 == v.payload);
    let i6 = p_lit(b, i5, seq![125u8])->Some_0;
    assert(b.subrange(i5, i6) == seq![125u8]);
    assert(b.subrange(i5, j) == q6);
    assert(b.subrange(i4, j) =~= b.subrange(i4, i5) + b.subrange(i5, j));
    assert(b.subrange(i4, j) == q5);
    assert(b.subrange(i3, j) =~= b.subrange(i3, i4) + b.subrange(i4, j));
    assert(b.subrange(i3, j) == q4);
    assert(b.subrange(i2, j) =~= b.subrange(i2, i3) + b.subrange(i3, j));
    assert(b.subrange(i2, j) == q3);
    assert(b.subrange(i1, j) =~= b.subrange(i1, i2) + b.subrange(i2, j));
    assert(b.subrange(i1, j) == q2);
    assert(b.subrange(i0, j) =~= b.subrange(i0, i1) + b.subrange(i1, j));
    assert(b.subrange(i0, j) == q1);
    assert(b.subrange(i, j) =~= b.subrange(i, i0) + b.subrange(i0, j));
    assert(b.subrange(i, j) == q0);
    assert(json_body_v(v) =~= q0);
}

/// Canonical text of this shape, fields in declaration order.
pub open spec fn json_blinded_body_v(v: BlindedBlockBodyV) -> Seq<u8> {
    jkey_first("randao_reveal".spec_bytes()) + jhex(v.randao_reveal) + jkey_next("graffiti".spec_bytes()) + jhex(v.graffiti) + jkey_next("payload_root".spec_bytes()) + jhex(v.payload_root) + seq![125u8]
}

pub open spec fn t_blinded_body(kind: PresetKind, b: Seq<u8>, i: int) -> Option<(BlindedBlockBodyV, int)> {
    let r0 = p_lit(b, i, jkey_first("randao_reveal".spec_bytes()));
    let i0 = r0->Some_0;
    let r1 = p_jhex_fixed(b, i0, 96);
    let i1 = r1->Some_0.1;
    let r2 = p_lit(b, i1, jkey_next("graffiti".spec_bytes()));
    let i2 = r2->Some_0;
    let r3 = p_jhex_fixed(b, i2, 32);
    let i3 = r3->Some_0.1;
    let r4 = p_lit(b, i3, jkey_next("payload_root".spec_bytes()));
    let i4 = r4->Some_0;
    let r5 = p_jhex_fixed(b, i4, 32);
    let i5 = r5->Some_0.1;
    let r6 = p_lit(b, i5, seq![125u8]);
    let i6 = r6->Some_0;
    if r0 is Some && r1 is Some && r2 is Some && r3 is Some && r4 is Some && r5 is Some && r6 is Some {
        Some((BlindedBlockBodyV { randao_reveal: r1->Some_0.0, graffiti: r3->Some_0.0, payload_root: r5->Some_0.0 }, i6))
    } else {
        None
    }
}

#[verifier::rlimit(100)]
pub proof fn lemma_t_blinded_body_at(kind: PresetKind, b: Seq<u8>, i: int, v: BlindedBlockBodyV)
    requires
        wf_blinded_body_v(v),
        0 <= i,
        i + json_blinded_body_v(v).len() <= b.len(),
        b.subrange(i, i + json_blinded_body_v(v).len() as int) == json_blinded_body_v(v),
    ensures
        t_blinded_body(kind, b, i) == Some((v, i + json_blinded_body_v(v).len() as int)),
{
    let p0 = jkey_first("randao_reveal".spec_bytes());
    let p1 = jhex(v.randao_reveal);
    let p2 = jkey_next("graffiti".spec_bytes());
    let p3 = jhex(v.graffiti);
    let p4 = jkey_next("payload_root".spec_bytes());
    let p5 = jhex(v.payload_root);
    let p6 = seq![125u8];
    let q0 = p0 + (p1 + (p2 + (p3 + (p4 + (p5 + (p6))))));
    let q1 = p1 + (p2 + (p3 + (p4 + (p5 + (p6)))));
    let q2 = p2 + (p3 + (p4 + (p5 + (p6))));
    let q3 = p3 + (p4 + (p5 + (p6)));
    let q4 = p4 + (p5 + (p6));
    let q5 = p5 + (p6);
    let q6 = p6;
    assert(json_blinded_body_v(v) =~= q0);
    let j0 = i;
    assert(q0 == p0 + q1);
    lemma_peel(b, j0, p0, q1);
    let j1 = j0 + p0.len() as int;
    assert(q1 == p1 + q2);
    lemma_peel(b, j1, p1, q2);
    let j2 = j1 + p1.len() as int;
    assert(q2 == p2 + q3);
    lemma_peel(b, j2, p2, q3);
    let j3 = j2 + p2.len() as int;
    assert(q3 == p3 + q4);
    lemma_peel(b, j3, p3, q4);
    let j4 = j3 + p3.len() as int;
    assert(q4 == p4 + q5);
    lemma_peel(b, j4, p4, q5);
    let j5 = j4 + p4.len() as int;
    assert(q5 == p5 + q6);
    lemma_peel(b, j5, p5, q6);
    let j6 = j5 + p5.len() as int;
    lemma_p_lit_at(b, j0, jkey_first("randao_reveal".spec_bytes()));
    lemma_p_jhex_fixed_at(b, j1, v.randao_reveal);
    lemma_p_lit_at(b, j2, jkey_next("graffiti".spec_bytes()));
    lemma_p_jhex_fixed_at(b, j3, v.graffiti);
    lemma_p_lit_at(b, j4, jkey_next("payload_root".spec_bytes()));
    lemma_p_jhex_fixed_at(b, j5, v.payload_root);
    lemma_p_lit_at(b, j6, seq![125u8]);
    assert(t_blinded_body(kind, b, i) == Some((v, i + json_blinded_body_v(v).len() as int)));
}

#[verifier::rlimit(100)]
pub proof fn lemma_t_blinded_body_exact(kind: PresetKind, b: Seq<u8>, i: int, v: BlindedBlockBodyV, j: int)
    requires
        0 <= i <= b.len(),
        t_blinded_body(kind, b, i) == Some((v, j)),
    ensures
        wf_blinded_body_v(v),
        i <= j <= b.len(),
        j == i + json_blinded_body_v(v).len(),
        b.subrange(i, j) == json_blinded_body_v(v),
{
    let p0 = jkey_first("randao_reveal".spec_bytes());
    let p1 = jhex(v.randao_reveal);
    let p2 = jkey_next("graffiti".spec_bytes());
    let p3 = jhex(v.graffiti);
    let p4 = jkey_next("payload_root".spec_bytes());
    let p5 = jhex(v.payload_root);
    let p6 = seq![125u8];
    let q0 = p0 + (p1 + (p2 + (p3 + (p4 + (p5 + (p6))))));
    let q1 = p1 + (p2 + (p3 + (p4 + (p5 + (p6)))));
    let q2 = p2 + (p3 + (p4 + (p5 + (p6))));
    let q3 = p3 + (p4 + (p5 + (p6)));
    let q4 = p4 + (p5 + (p6));
    let q5 = p5 + (p6);
    let q6 = p6;
    let i0 = p_lit(b, i, jkey_first("randao_reveal".spec_bytes()))->Some_0;
    assert(b.subrange(i, i0) == jkey_first("randao_reveal".spec_bytes()));
    let (x1, i1) = p_jhex_fixed(b, i0, 96)->Some_0;
    lemma_p_jhex_fixed_exact(b, i0, 96, x1, i1);
    assert(x1 == v.randao_reveal);
    let i2 = p_lit(b, i1, jkey_next("graffiti".spec_bytes()))->Some_0;
    assert(b.subrange(i1, i2) == jkey_next("graffiti".spec_bytes()));
    let (x3, i3) = p_jhex_fixed(b, i2, 32)->Some_0;
    lemma_p_jhex_fixed_exact(b, i2, 32, x3, i3);
    assert(x3 == v.graffiti);
    let i4 = p_lit(b, i3, jkey_next("payload_root".spec_bytes()))->Some_0;
    assert(b.subrange(i3, i4) == jkey_next("payload_root".spec_bytes()));
    let (x5, i5) = p_jhex_fixed(b, i4, 32)->Some_0;
    lemma_p_jhex_fixed_exact(b, i4, 32, x5, i5);
    assert(x5 == v.payload_root);
    let i6 = p_lit(b, i5, seq![125u8])->Some_0;
    assert(b.subrange(i5, i6) == seq![125u8]);
    assert(b.subrange(i5, j) == q6);
    assert(b.subrange(i4, j) =~= b.subrange(i4, i5) + b.subrange(i5, j));
    assert(b.subrange(i4, j) == q5);
    assert(b.subrange(i3, j) =~= b.subrange(i3, i4) + b.subrange(i4, j));
    assert(b.subrange(i3, j) == q4);
    assert(b.subrange(i2, j) =~= b.subrange(i2, i3) + b.subrange(i3, j));
    assert(b.subrange(i2, j) == q3);
    assert(b.subrange(i1, j) =~= b.subrange(i1, i2) + b.subrange(i2, j));
    assert(b.subrange(i1, j) == q2);
    assert(b.subrange(i0, j) =~= b.subrange(i0, i1) + b.subrange(i1, j));
    assert(b.subrange(i0, j) == q1);
    assert(b.subrange(i, j) =~= b.subrange(i, i0) + b.subrange(i0, j));
    assert(b.subrange(i, j) == q0);
    assert(json_blinded_body_v(v) =~= q0);
}

/// Canonical text of this shape, fields in declaration order.
pub open spec fn json_block_v(v: BeaconBlockV) -> Seq<u8> {
    jkey_first("slot".spec_bytes()) + jdec(v.slot as nat) + jkey_next("proposer_index".spec_bytes()) + jdec(v.proposer_index as nat) + jkey_next("parent_root".spec_bytes()) + jhex(v.parent_root) + jkey_next("state_root".spec_bytes()) + jhex(v.state_root) + jkey_next("body".spec_bytes()) + json_body_v(v.body) + seq![125u8]
}

pub open spec fn t_block(kind: PresetKind, b: Seq<u8>, i: int) -> Option<(BeaconBlockV, int)> {
    let r0 = p_lit(b, i, jkey_first("slot".spec_bytes()));
    let i0 = r0->Some_0;
    let r1 = p_jdec(b, i0);
    let i1 = r1->Some_0.1;
    let r2 = p_lit(b, i1, jkey_next("proposer_index".spec_bytes()));
    let i2 = r2->Some_0;
    let r3 = p_jdec(b, i2);
    let i3 = r3->Some_0.1;
    let r4 = p_lit(b, i3, jkey_next("parent_root".spec_bytes()));
    let i4 = r4->Some_0;
    let r5 = p_jhex_fixed(b, i4, 32);
    let i5 = r5->Some_0.1;
    let r6 = p_lit(b, i5, jkey_next("state_root".spec_bytes()));
    let i6 = r6->Some_0;
    let r7 = p_jhex_fixed(b, i6, 32);
    let i7 = r7->Some_0.1;
    let r8 = p_lit(b, i7, jkey_next("body".spec_bytes()));
    let i8 = r8->Some_0;
    let r9 = t_body(kind, b, i8);
    let i9 = r9->Some_0.1;
    let r10 = p_lit(b, i9, seq![125u8]);
    let i10 = r10->Some_0;
    if r0 is Some && r1 is Some && r2 is Some && r3 is Some && r4 is Some && r5 is Some && r6 is Some && r7 is Some && r8 is Some && r9 is Some && r10 is Some {
        Some((BeaconBlockV { preset: kind, slot: r1->Some_0.0, proposer_index: r3->Some_0.0, parent_root: r5->Some_0.0, state_root: r7->Some_0.0, body: r9->Some_0.0 }, i10))
    } else {
        None
    }
}

#[verifier::rlimit(100)]
pub proof fn lemma_t_block_at(kind: PresetKind, b: Seq<u8>, i: int, v: BeaconBlockV)
    requires
        wf_block_v(v),
        kind == v.preset,
        0 <= i,
        i + json_block_v(v).len() <= b.len(),
        b.subrange(i, i + json_block_v(v).len() as int) == json_block_v(v),
    ensures
        t_block(kind, b, i) == Some((v, i + json_block_v(v).len() as int)),
{
    let p0 = jkey_first("slot".spec_bytes());
    let p1 = jdec(v.slot as nat);
    let p2 = jkey_next("proposer_index".spec_bytes());
    let p3 = jdec(v.proposer_index as nat);
    let p4 = jkey_next("parent_root".spec_bytes());
    let p5 = jhex(v.parent_root);
    let p6 = jkey_next("state_root".spec_bytes());
    let p7 = jhex(v.state_root);
    let p8 = jkey_next("body".spec_bytes());
    let p9 = json_body_v(v.body);
    let p10 = seq![125u8];
    let q0 = p0 + (p1 + (p2 + (p3 + (p4 + (p5 + (p6 + (p7 + (p8 + (p9 + (p10))))))))));
    let q1 = p1 + (p2 + (p3 + (p4 + (p5 + (p6 + (p7 + (p8 + (p9 + (p10)))))))));
    let q2 = p2 + (p3 + (p4 + (p5 + (p6 + (p7 + (p8 + (p9 + (p10))))))));
    let q3 = p3 + (p4 + (p5 + (p6 + (p7 + (p8 + (p9 + (p10)))))));
    let q4 = p4 + (p5 + (p6 + (p7 + (p8 + (p9 + (p10))))));
    let q5 = p5 + (p6 + (p7 + (p8 + (p9 + (p10)))));
    let q6 = p6 + (p7 + (p8 + (p9 + (p10))));
    let q7 = p7 + (p8 + (p9 + (p10)));
    let q8 = p8 + (p9 + (p10));
    let q9 = p9 + (p10);
    let q10 = p10;
    assert(json_block_v(v) =~= q0);
    let j0 = i;
    assert(q0 == p0 + q1);
    lemma_peel(b, j0, p0, q1);
    let j1 = j0 + p0.len() as int;
    assert(q1 == p1 + q2);
    lemma_peel(b, j1, p1, q2);
    let j2 = j1 + p1.len() as int;
    assert(q2 == p2 + q3);
    lemma_peel(b, j2, p2, q3);
    let j3 = j2 + p2.len() as int;
    assert(q3 == p3 + q4);
    lemma_peel(b, j3, p3, q4);
    let j4 = j3 + p3.len() as int;
    assert(q4 == p4 + q5);
    lemma_peel(b, j4, p4, q5);
    let j5 = j4 + p4.len() as int;
    assert(q5 == p5 + q6);
    lemma_peel(b, j5, p5, q6);
    let j6 = j5 + p5.len() as int;
    assert(q6 == p6 + q7);
    lemma_peel(b, j6, p6, q7);
    let j7 = j6 + p6.len() as int;
    assert(q7 == p7 + q8);
    lemma_peel(b, j7, p7, q8);
    let j8 = j7 + p7.len() as int;
    assert(q8 == p8 + q9);
    lemma_peel(b, j8, p8, q9);
    let j9 = j8 + p8.len() as int;
    assert(q9 == p9 + q10);
    lemma_peel(b, j9, p9, q10);
    let j10 = j9 + p9.len() as int;
    lemma_p_lit_at(b, j0, jkey_first("slot".spec_bytes()));
    lemma_p_jdec_at(b, j1, v.slot);
    lemma_p_lit_at(b, j2, jkey_next("proposer_index".spec_bytes()));
    lemma_p_jdec_at(b, j3, v.proposer_index);
    lemma_p_lit_at(b, j4, jkey_next("parent_root".spec_bytes()));
    lemma_p_jhex_fixed_at(b, j5, v.parent_root);
    lemma_p_lit_at(b, j6, jkey_next("state_root".spec_bytes()));
    lemma_p_jhex_fixed_at(b, j7, v.state_root);
    lemma_p_lit_at(b, j8, jkey_next("body".spec_bytes()));
    lemma_t_body_at(kind, b, j9, v.body);
    lemma_p_lit_at(b, j10, seq![125u8]);
    assert(t_block(kind, b, i) == Some((v, i + json_block_v(v).len() as int)));
}

#[verifier::rlimit(100)]
pub proof fn lemma_t_block_exact(kind: PresetKind, b: Seq<u8>, i: int, v: BeaconBlockV, j: int)
    requires
        0 <= i <= b.len(),
        t_block(kind, b, i) == Some((v, j)),
    ensures
        wf_block_v(v),
        v.preset == kind,
        i <= j <= b.len(),
        j == i + json_block_v(v).len(),
        b.subrange(i, j) == json_block_v(v),
{
    let p0 = jkey_first("slot".spec_bytes());
    let p1 = jdec(v.slot as nat);
    let p2 = jkey_next("proposer_index".spec_bytes());
    let p3 = jdec(v.proposer_index as nat);
    let p4 = jkey_next("parent_root".spec_bytes());
    let p5 = jhex(v.parent_root);
    let p6 = jkey_next("state_root".spec_bytes());
    let p7 = jhex(v.state_root);
    let p8 = jkey_next("body".spec_bytes());
    let p9 = json_body_v(v.body);
    let p10 = seq![125u8];
    let q0 = p0 + (p1 + (p2 + (p3 + (p4 + (p5 + (p6 + (p7 + (p8 + (p9 + (p10))))))))));
    let q1 = p1 + (p2 + (p3 + (p4 + (p5 + (p6 + (p7 + (p8 + (p9 + (p10)))))))));
    let q2 = p2 + (p3 + (p4 + (p5 + (p6 + (p7 + (p8 + (p9 + (p10))))))));
    let q3 = p3 + (p4 + (p5 + (p6 + (p7 + (p8 + (p9 + (p10)))))));
    let q4 = p4 + (p5 + (p6 + (p7 + (p8 + (p9 + (p10))))));
    let q5 = p5 + (p6 + (p7 + (p8 + (p9 + (p10)))));
    let q6 = p6 + (p7 + (p8 + (p9 + (p10))));
    let q7 = p7 + (p8 + (p9 + (p10)));
    let q8 = p8 + (p9 + (p10));
    let q9 = p9 + (p10);
    let q10 = p10;
    let i0 = p_lit(b, i, jkey_first("slot".spec_bytes()))->Some_0;
    assert(b.subrange(i, i0) == jkey_first("slot".spec_bytes()));
    let (x1, i1) = p_jdec(b, i0)->Some_0;
    lemma_p_jdec_exact(b, i0, x1, i1);
    assert(x1 == v.slot);
    let i2 = p_lit(b, i1, jkey_next("proposer_index".spec_bytes()))->Some_0;
    assert(b.subrange(i1, i2) == jkey_next("proposer_index".spec_bytes()));
    let (x3, i3) = p_jdec(b, i2)->Some_0;
    lemma_p_jdec_exact(b, i2, x3, i3);
    assert(x3 == v.proposer_index);
    let i4 = p_lit(b, i3, jkey_next("parent_root".spec_bytes()))->Some_0;
    assert(b.subrange(i3, i4) == jkey_next("parent_root".spec_bytes()));
    let (x5, i5) = p_jhex_fixed(b, i4, 32)->Some_0;
    lemma_p_jhex_fixed_exact(b, i4, 32, x5, i5);
    assert(x5 == v.parent_root);
    let i6 = p_lit(b, i5, jkey_next("state_root".spec_bytes()))->Some_0;
    assert(b.subrange(i5, i6) == jkey_next("state_root".spec_bytes()));
    let (x7, i7) = p_jhex_fixed(b, i6, 32)->Some_0;
    lemma_p_jhex_fixed_exact(b, i6, 32, x7, i7);
    assert(x7 == v.state_root);
    let i8 = p_lit(b, i7, jkey_next("body".spec_bytes()))->Some_0;
    assert(b.subrange(i7, i8) == jkey_next("body".spec_bytes()));
    let (x9, i9) = t_body(kind, b, i8)->Some_0;
    lemma_t_body_exact(kind, b, i8, x9, i9);
    assert(x9 == v.body);
    let i10 = p_lit(b, i9, seq![125u8])->Some_0;
    assert(b.subrange(i9, i10) == seq![125u8]);
    assert(b.subrange(i9, j) == q10);
    assert(b.subrange(i8, j) =~= b.subrange(i8, i9) + b.subrange(i9, j));
    assert(b.subrange(i8, j) == q9);
    assert(b.subrange(i7, j) =~= b.subrange(i7, i8) + b.subrange(i8, j));
    assert(b.subrange(i7, j) == q8);
    assert(b.subrange(i6, j) =~= b.subrange(i6, i7) + b.subrange(i7, j));
    assert(b.subrange(i6, j) == q7);
    assert(b.subrange(i5, j) =~= b.subrange(i5, i6) + b.subrange(i6, j));
    assert(b.subrange(i5, j) == q6);
    assert(b.subrange(i4, j) =~= b.subrange(i4, i5) + b.subrange(i5, j));
    assert(b.subrange(i4, j) == q5);
    assert(b.subrange(i3, j) =~= b.subrange(i3, i4) + b.subrange(i4, j));
    assert(b.subrange(i3, j) == q4);
    assert(b.subrange(i2, j) =~= b.subrange(i2, i3) + b.subrange(i3, j));
    assert(b.subrange(i2, j) == q3);
    assert(b.subrange(i1, j) =~= b.subrange(i1, i2) + b.subrange(i2, j));
    assert(b.subrange(i1, j) == q2);
    assert(b.subrange(i0, j) =~= b.subrange(i0, i1) + b.subrange(i1, j));
    assert(b.subrange(i0, j) == q1);
    assert(b.subrange(i, j) =~= b.subrange(i, i0) + b.subrange(i0, j));
    assert(b.subrange(i, j) == q0);
    assert(json_block_v(v) =~= q0);
}

/// Canonical text of this shape, fields in declaration order.
pub open spec fn json_blinded_block_v(v: BlindedBeaconBlockV) -> Seq<u8> {
    jkey_first("slot".spec_bytes()) + jdec(v.slot as nat) + jkey_next("proposer_index".spec_bytes()) + jdec(v.proposer_index as nat) + jkey_next("parent_root".spec_bytes()) + jhex(v.parent_root) + jkey_next("state_root".spec_bytes()) + jhex(v.state_root) + jkey_next("body".spec_bytes()) + json_blinded_body_v(v.body) + seq![125u8]
}

pub open spec fn t_blinded_block(kind: PresetKind, b: Seq<u8>, i: int) -> Option<(BlindedBeaconBlockV, int)> {
    let r0 = p_lit(b, i, jkey_first("slot".spec_bytes()));
    let i0 = r0->Some_0;
    let r1 = p_jdec(b, i0);
    let i1 = r1->Some_0.1;
    let r2 = p_lit(b, i1, jkey_next("proposer_index".spec_bytes()));
    let i2 = r2->Some_0;
    let r3 = p_jdec(b, i2);
    let i3 = r3->Some_0.1;
    let r4 = p_lit(b, i3, jkey_next("parent_root".spec_bytes()));
    let i4 = r4->Some_0;
    let r5 = p_jhex_fixed(b, i4, 32);
    let i5 = r5->Some_0.1;
    let r6 = p_lit(b, i5, jkey_next("state_root".spec_bytes()));
    let i6 = r6->Some_0;
    let r7 = p_jhex_fixed(b, i6, 32);
    let i7 = r7->Some_0.1;
    let r8 = p_lit(b, i7, jkey_next("body".spec_bytes()));
    let i8 = r8->Some_0;
    let r9 = t_blinded_body(kind, b, i8);
    let i9 = r9->Some_0.1;
    let r10 = p_lit(b, i9, seq![125u8]);
    let i10 = r10->Some_0;
    if r0 is Some && r1 is Some && r2 is Some && r3 is Some && r4 is Some && r5 is Some && r6 is Some && r7 is Some && r8 is Some && r9 is Some && r10 is Some {
        Some((BlindedBeaconBlockV { preset: kind, slot: r1->Some_0.0, proposer_index: r3->Some_0.0, parent_root: r5->Some_0.0, state_root: r7->Some_0.0, body: r9->Some_0.0 }, i10))
    } else {
        None
    }
}

#[verifier::rlimit(100)]
pub proof fn lemma_t_blinded_block_at(kind: PresetKind, b: Seq<u8>, i: int, v: BlindedBeaconBlockV)
    requires
        wf_blinded_block_v(v),
        kind == v.preset,
        0 <= i,
        i + json_blinded_block_v(v).len() <= b.len(),
        b.subrange(i, i + json_blinded_block_v(v).len() as int) == json_blinded_block_v(v),
    ensures
        t_blinded_block(kind, b, i) == Some((v, i + json_blinded_block_v(v).len() as int)),
{
    let p0 = jkey_first("slot".spec_bytes());
    let p1 = jdec(v.slot as nat);
    let p2 = jkey_next("proposer_index".spec_bytes());
    let p3 = jdec(v.proposer_index as nat);
    let p4 = jkey_next("parent_root".spec_bytes());
    let p5 = jhex(v.parent_root);
    let p6 = jkey_next("state_root".spec_bytes());
    let p7 = jhex(v.state_root);
    let p8 = jkey_next("body".spec_bytes());
    let p9 = json_blinded_body_v(v.body);
    let p10 = seq![125u8];
    let q0 = p0 + (p1 + (p2 + (p3 + (p4 + (p5 + (p6 + (p7 + (p8 + (p9 + (p10))))))))));
    let q1 = p1 + (p2 + (p3 + (p4 + (p5 + (p6 + (p7 + (p8 + (p9 + (p10)))))))));
    let q2 = p2 + (p3 + (p4 + (p5 + (p6 + (p7 + (p8 + (p9 + (p10))))))));
    let q3 = p3 + (p4 + (p5 + (p6 + (p7 + (p8 + (p9 + (p10)))))));
    let q4 = p4 + (p5 + (p6 + (p7 + (p8 + (p9 + (p10))))));
    let q5 = p5 + (p6 + (p7 + (p8 + (p9 + (p10)))));
    let q6 = p6 + (p7 + (p8 + (p9 + (p10))));
    let q7 = p7 + (p8 + (p9 + (p10)));
    let q8 = p8 + (p9 + (p10));
    let q9 = p9 + (p10);
    let q10 = p10;
    assert(json_blinded_block_v(v) =~= q0);
    let j0 = i;
    assert(q0 == p0 + q1);
    lemma_peel(b, j0, p0, q1);
    let j1 = j0 + p0.len() as int;
    assert(q1 == p1 + q2);
    lemma_peel(b, j1, p1, q2);
    let j2 = j1 + p1.len() as int;
    assert(q2 == p2 + q3);
    lemma_peel(b, j2, p2, q3);
    let j3 = j2 + p2.len() as int;
    assert(q3 == p3 + q4);
    lemma_peel(b, j3, p3, q4);
    let j4 = j3 + p3.len() as int;
    assert(q4 == p4 + q5);
    lemma_peel(b, j4, p4, q5);
    let j5 = j4 + p4.len() as int;
    assert(q5 == p5 + q6);
    lemma_peel(b, j5, p5, q6);
    let j6 = j5 + p5.len() as int;
    assert(q6 == p6 + q7);
    lemma_peel(b, j6, p6, q7);
    let j7 = j6 + p6.len() as int;
    assert(q7 == p7 + q8);
    lemma_peel(b, j7, p7, q8);
    let j8 = j7 + p7.len() as int;
    assert(q8 == p8 + q9);
    lemma_peel(b, j8, p8, q9);
    let j9 = j8 + p8.len() as int;
    assert(q9 == p9 + q10);
    lemma_peel(b, j9, p9, q10);
    let j10 = j9 + p9.len() as int;
    lemma_p_lit_at(b, j0, jkey_first("slot".spec_bytes()));
    lemma_p_jdec_at(b, j1, v.slot);
    lemma_p_lit_at(b, j2, jkey_next("proposer_index".spec_bytes()));
    lemma_p_jdec_at(b, j3, v.proposer_index);
    lemma_p_lit_at(b, j4, jkey_next("parent_root".spec_bytes()));
    lemma_p_jhex_fixed_at(b, j5, v.parent_root);
    lemma_p_lit_at(b, j6, jkey_next("state_root".spec_bytes()));
    lemma_p_jhex_fixed_at(b, j7, v.state_root);
    lemma_p_lit_at(b, j8, jkey_next("body".spec_bytes()));
    lemma_t_blinded_body_at(kind, b, j9, v.body);
    lemma_p_lit_at(b, j10, seq![125u8]);
    assert(t_blinded_block(kind, b, i) == Some((v, i + json_blinded_block_v(v).len() as int)));
}

#[verifier::rlimit(100)]
pub proof fn lemma_t_blinded_block_exact(kind: PresetKind, b: Seq<u8>, i: int, v: BlindedBeaconBlockV, j: int)
    requires
        0 <= i <= b.len(),
        t_blinded_block(kind, b, i) == Some((v, j)),
    ensures
        wf_blinded_block_v(v),
        v.preset == kind,
        i <= j <= b.len(),
        j == i + json_blinded_block_v(v).len(),
        b.subrange(i, j) == json_blinded_block_v(v),
{
    let p0 = jkey_first("slot".spec_bytes());
    let p1 = jdec(v.slot as nat);
    let p2 = jkey_next("proposer_index".spec_bytes());
    let p3 = jdec(v.proposer_index as nat);
    let p4 = jkey_next("parent_root".spec_bytes());
    let p5 = jhex(v.parent_root);
    let p6 = jkey_next("state_root".spec_bytes());
    let p7 = jhex(v.state_root);
    let p8 = jkey_next("body".spec_bytes());
    let p9 = json_blinded_body_v(v.body);
    let p10 = seq![125u8];
    let q0 = p0 + (p1 + (p2 + (p3 + (p4 + (p5 + (p6 + (p7 + (p8 + (p9 + (p10))))))))));
    let q1 = p1 + (p2 + (p3 + (p4 + (p5 + (p6 + (p7 + (p8 + (p9 + (p10)))))))));
    let q2 = p2 + (p3 + (p4 + (p5 + (p6 + (p7 + (p8 + (p9 + (p10))))))));
    let q3 = p3 + (p4 + (p5 + (p6 + (p7 + (p8 + (p9 + (p10)))))));
    let q4 = p4 + (p5 + (p6 + (p7 + (p8 + (p9 + (p10))))));
    let q5 = p5 + (p6 + (p7 + (p8 + (p9 + (p10)))));
    let q6 = p6 + (p7 + (p8 + (p9 + (p10))));
    let q7 = p7 + (p8 + (p9 + (p10)));
    let q8 = p8 + (p9 + (p10));
    let q9 = p9 + (p10);
    let q10 = p10;
    let i0 = p_lit(b, i, jkey_first("slot".spec_bytes()))->Some_0;
    assert(b.subrange(i, i0) == jkey_first("slot".spec_bytes()));
    let (x1, i1) = p_jdec(b, i0)->Some_0;
    lemma_p_jdec_exact(b, i0, x1, i1);
    assert(x1 == v.slot);
    let i2 = p_lit(b, i1, jkey_next("proposer_index".spec_bytes()))->Some_0;
    assert(b.subrange(i1, i2) == jkey_next("proposer_index".spec_bytes()));
    let (x3, i3) = p_jdec(b, i2)->Some_0;
    lemma_p_jdec_exact(b, i2, x3, i3);
    assert(x3 == v.proposer_index);
    let i4 = p_lit(b, i3, jkey_next("parent_root".spec_bytes()))->Some_0;
    assert(b.subrange(i3, i4) == jkey_next("parent_root".spec_bytes()));
    let (x5, i5) = p_jhex_fixed(b, i4, 32)->Some_0;
    lemma_p_jhex_fixed_exact(b, i4, 32, x5, i5);
    assert(x5 == v.parent_root);
    let i6 = p_lit(b, i5, jkey_next("state_root".spec_bytes()))->Some_0;
    assert(b.subrange(i5, i6) == jkey_next("state_root".spec_bytes()));
    let (x7, i7) = p_jhex_fixed(b, i6, 32)->Some_0;
    lemma_p_jhex_fixed_exact(b, i6, 32, x7, i7);
    assert(x7 == v.state_root);
    let i8 = p_lit(b, i7, jkey_next("body".spec_bytes()))->Some_0;
    assert(b.subrange(i7, i8) == jkey_next("body".spec_bytes()));
    let (x9, i9) = t_blinded_body(kind, b, i8)->Some_0;
    lemma_t_blinded_body_exact(kind, b, i8, x9, i9);
    assert(x9 == v.body);
    let i10 = p_lit(b, i9, seq![125u8])->Some_0;
    assert(b.subrange(i9, i10) == seq![125u8]);
    assert(b.subrange(i9, j) == q10);
    assert(b.subrange(i8, j) =~= b.subrange(i8, i9) + b.subrange(i9, j));
    assert(b.subrange(i8, j) == q9);
    assert(b.subrange(i7, j) =~= b.subrange(i7, i8) + b.subrange(i8, j));
    assert(b.subrange(i7, j) == q8);
    assert(b.subrange(i6, j) =~= b.subrange(i6, i7) + b.subrange(i7, j));
    assert(b.subrange(i6, j) == q7);
    assert(b.subrange(i5, j) =~= b.subrange(i5, i6) + b.subrange(i6, j));
    assert(b.subrange(i5, j) == q6);
    assert(b.subrange(i4, j) =~= b.subrange(i4, i5) + b.subrange(i5, j));
    assert(b.subrange(i4, j) == q5);
    assert(b.subrange(i3, j) =~= b.subrange(i3, i4) + b.subrange(i4, j));
    assert(b.subrange(i3, j) == q4);
    assert(b.subrange(i2, j) =~= b.subrange(i2, i3) + b.subrange(i3, j));
    assert(b.subrange(i2, j) == q3);
    assert(b.subrange(i1, j) =~= b.subrange(i1, i2) + b.subrange(i2, j));
    assert(b.subrange(i1, j) == q2);
    assert(b.subrange(i0, j) =~= b.subrange(i0, i1) + b.subrange(i1, j));
    assert(b.subrange(i0, j) == q1);
    assert(b.subrange(i, j) =~= b.subrange(i, i0) + b.subrange(i0, j));
    assert(b.subrange(i, j) == q0);
    assert(json_blinded_block_v(v) =~= q0);
}

/// Canonical text of this shape, fields in declaration order.
pub open spec fn json_signed_block_v(v: SignedBeaconBlockV) -> Seq<u8> {
    jkey_first("message".spec_bytes()) + json_block_v(v.message) + jkey_next("signature".spec_bytes()) + jhex(v.signature) + seq![125u8]
}

pub open spec fn t_signed_block(kind: PresetKind, b: Seq<u8>, i: int) -> Option<(SignedBeaconBlockV, int)> {
    let r0 = p_lit(b, i, jkey_first("message".spec_bytes()));
    let i0 = r0->Some_0;
    let r1 = t_block(kind, b, i0);
    let i1 = r1->Some_0.1;
    let r2 = p_lit(b, i1, jkey_next("signature".spec_bytes()));
    let i2 = r2->Some_0;
    let r3 = p_jhex_fixed(b, i2, 96);
    let i3 = r3->Some_0.1;
    let r4 = p_lit(b, i3, seq![125u8]);
    let i4 = r4->Some_0;
    if r0 is Some && r1 is Some && r2 is Some && r3 is Some && r4 is Some {
        Some((SignedBeaconBlockV { message: r1->Some_0.0, signature: r3->Some_0.0 }, i4))
    } else {
        None
    }
}

#[verifier::rlimit(100)]
pub proof fn lemma_t_signed_block_at(kind: PresetKind, b: Seq<u8>, i: int, v: SignedBeaconBlockV)
    requires
        wf_signed_block_v(v),
        kind == v.message.preset,
        0 <= i,
        i + json_signed_block_v(v).len() <= b.len(),
        b.subrange(i, i + json_signed_block_v(v).len() as int) == json_signed_block_v(v),
    ensures
        t_signed_block(kind, b, i) == Some((v, i + json_signed_block_v(v).len() as int)),
{
    let p0 = jkey_first("message".spec_bytes());
    let p1 = json_block_v(v.message);
    let p2 = jkey_next("signature".spec_bytes());
    let p3 = jhex(v.signature);
    let p4 = seq![125u8];
    let q0 = p0 + (p1 + (p2 + (p3 + (p4))));
    let q1 = p1 + (p2 + (p3 + (p4)));
    let q2 = p2 + (p3 + (p4));
    let q3 = p3 + (p4);
    let q4 = p4;
    assert(json_signed_block_v(v) =~= q0);
    let j0 = i;
    assert(q0 == p0 + q1);
    lemma_peel(b, j0, p0, q1);
    let j1 = j0 + p0.len() as int;
    assert(q1 == p1 + q2);
    lemma_peel(b, j1, p1, q2);
    let j2 = j1 + p1.len() as int;
    assert(q2 == p2 + q3);
    lemma_peel(b, j2, p2, q3);
    let j3 = j2 + p2.len() as int;
    assert(q3 == p3 + q4);
    lemma_peel(b, j3, p3, q4);
    let j4 = j3 + p3.len() as int;
    lemma_p_lit_at(b, j0, jkey_first("message".spec_bytes()));
    lemma_t_block_at(kind, b, j1, v.message);
    lemma_p_lit_at(b, j2, jkey_next("signature".spec_bytes()));
    lemma_p_jhex_fixed_at(b, j3, v.signature);
    lemma_p_lit_at(b, j4, seq![125u8]);
    assert(t_signed_block(kind, b, i) == Some((v, i + json_signed_block_v(v).len() as int)));
}

#[verifier::rlimit(100)]
pub proof fn lemma_t_signed_block_exact(kind: PresetKind, b: Seq<u8>, i: int, v: SignedBeaconBlockV, j: int)
    requires
        0 <= i <= b.len(),
        t_signed_block(kind, b, i) == Some((v, j)),
    ensures
        wf_signed_block_v(v),
        v.message.preset == kind,
        i <= j <= b.len(),
        j == i + json_signed_block_v(v).len(),
        b.subrange(i, j) == json_signed_block_v(v),
{
    let p0 = jkey_first("message".spec_bytes());
    let p1 = json_block_v(v.message);
    let p2 = jkey_next("signature".spec_bytes());
    let p3 = jhex(v.signature);
    let p4 = seq![125u8];
    let q0 = p0 + (p1 + (p2 + (p3 + (p4))));
    let q1 = p1 + (p2 + (p3 + (p4)));
    let q2 = p2 + (p3 + (p4));
    let q3 = p3 + (p4);
    let q4 = p4;
    let i0 = p_lit(b, i, jkey_first("message".spec_bytes()))->Some_0;
    assert(b.subrange(i, i0) == jkey_first("message".spec_bytes()));
    let (x1, i1) = t_block(kind, b, i0)->Some_0;
    lemma_t_block_exact(kind, b, i0, x1, i1);
    assert(x1 == v.message);
    let i2 = p_lit(b, i1, jkey_next("signature".spec_bytes()))->Some_0;
    assert(b.subrange(i1, i2) == jkey_next("signature".spec_bytes()));
    let (x3, i3) = p_jhex_fixed(b, i2, 96)->Some_0;
    lemma_p_jhex_fixed_exact(b, i2, 96, x3, i3);
    assert(x3 == v.signature);
    let i4 = p_lit(b, i3, seq![125u8])->Some_0;
    assert(b.subrange(i3, i4) == seq![125u8]);
    assert(b.subrange(i3, j) == q4);
    assert(b.subrange(i2, j) =~= b.subrange(i2, i3) + b.subrange(i3, j));
    assert(b.subrange(i2, j) == q3);
    assert(b.subrange(i1, j) =~= b.subrange(i1, i2) + b.subrange(i2, j));
    assert(b.subrange(i1, j) == q2);
    assert(b.subrange(i0, j) =~= b.subrange(i0, i1) + b.subrange(i1, j));
    assert(b.subrange(i0, j) == q1);
    assert(b.subrange(i, j) =~= b.subrange(i, i0) + b.subrange(i0, j));
    assert(b.subrange(i, j) == q0);
    assert(json_signed_block_v(v) =~= q0);
}

/// Canonical text of this shape, fields in declaration order.
pub open spec fn json_signed_blinded_block_v(v: SignedBlindedBeaconBlockV) -> Seq<u8> {
    jkey_first("message".spec_bytes()) + json_blinded_block_v(v.message) + jkey_next("signature".spec_bytes()) + jhex(v.signature) + seq![125u8]
}

pub open spec fn t_signed_blinded_block(kind: PresetKind, b: Seq<u8>, i: int) -> Option<(SignedBlindedBeaconBlockV, int)> {
    let r0 = p_lit(b, i, jkey_first("message".spec_bytes()));
    let i0 = r0->Some_0;
    let r1 = t_blinded_block(kind, b, i0);
    let i1 = r1->Some_0.1;
    let r2 = p_lit(b, i1, jkey_next("signature".spec_bytes()));
    let i2 = r2->Some_0;
    let r3 = p_jhex_fixed(b, i2, 96);
    let i3 = r3->Some_0.1;
    let r4 = p_lit(b, i3, seq![125u8]);
    let i4 = r4->Some_0;
    if r0 is Some && r1 is Some && r2 is Some && r3 is Some && r4 is Some {
        Some((SignedBlindedBeaconBlockV { message: r1->Some_0.0, signature: r3->Some_0.0 }, i4))
    } else {
        None
    }
}

#[verifier::rlimit(100)]
pub proof fn lemma_t_signed_blinded_block_at(kind: PresetKind, b: Seq<u8>, i: int, v: SignedBlindedBeaconBlockV)
    requires
        wf_signed_blinded_block_v(v),
        kind == v.message.preset,
        0 <= i,
        i + json_signed_blinded_block_v(v).len() <= b.len(),
        b.subrange(i, i + json_signed_blinded_block_v(v).len() as int) == json_signed_blinded_block_v(v),
    ensures
        t_signed_blinded_block(kind, b, i) == Some((v, i + json_signed_blinded_block_v(v).len() as int)),
{
    let p0 = jkey_first("message".spec_bytes());
    let p1 = json_blinded_block_v(v.message);
    let p2 = jkey_next("signature".spec_bytes());
    let p3 = jhex(v.signature);
    let p4 = seq![125u8];
    let q0 = p0 + (p1 + (p2 + (p3 + (p4))));
    let q1 = p1 + (p2 + (p3 + (p4)));
    let q2 = p2 + (p3 + (p4));
    let q3 = p3 + (p4);
    let q4 = p4;
    assert(json_signed_blinded_block_v(v) =~= q0);
    let j0 = i;
    assert(q0 == p0 + q1);
    lemma_peel(b, j0, p0, q1);
    let j1 = j0 + p0.len() as int;
    assert(q1 == p1 + q2);
    lemma_peel(b, j1, p1, q2);
    let j2 = j1 + p1.len() as int;
    assert(q2 == p2 + q3);
    lemma_peel(b, j2, p2, q3);
    let j3 = j2 + p2.len() as int;
    assert(q3 == p3 + q4);
    lemma_peel(b, j3, p3, q4);
    let j4 = j3 + p3.len() as int;
    lemma_p_lit_at(b, j0, jkey_first("message".spec_bytes()));
    lemma_t_blinded_block_at(kind, b, j1, v.message);
    lemma_p_lit_at(b, j2, jkey_next("signature".spec_bytes()));
    lemma_p_jhex_fixed_at(b, j3, v.signature);
    lemma_p_lit_at(b, j4, seq![125u8]);
    assert(t_signed_blinded_block(kind, b, i) == Some((v, i + json_signed_blinded_block_v(v).len() as int)));
}

#[verifier::rlimit(100)]
pub proof fn lemma_t_signed_blinded_block_exact(kind: PresetKind, b: Seq<u8>, i: int, v: SignedBlindedBeaconBlockV, j: int)
    requires
        0 <= i <= b.len(),
        t_signed_blinded_block(kind, b, i) == Some((v, j)),
    ensures
        wf_signed_blinded_block_v(v),
        v.message.preset == kind,
        i <= j <= b.len(),
        j == i + json_signed_blinded_block_v(v).len(),
        b.subrange(i, j) == json_signed_blinded_block_v(v),
{
    let p0 = jkey_first("message".spec_bytes());
    let p1 = json_blinded_block_v(v.message);
    let p2 = jkey_next("signature".spec_bytes());
    let p3 = jhex(v.signature);
    let p4 = seq![125u8];
    let q0 = p0 + (p1 + (p2 + (p3 + (p4))));
    let q1 = p1 + (p2 + (p3 + (p4)));
    let q2 = p2 + (p3 + (p4));
    let q3 = p3 + (p4);
    let q4 = p4;
    let i0 = p_lit(b, i, jkey_first("message".spec_bytes()))->Some_0;
    assert(b.subrange(i, i0) == jkey_first("message".spec_bytes()));
    let (x1, i1) = t_blinded_block(kind, b, i0)->Some_0;
    lemma_t_blinded_block_exact(kind, b, i0, x1, i1);
    assert(x1 == v.message);
    let i2 = p_lit(b, i1, jkey_next("signature".spec_bytes()))->Some_0;
    assert(b.subrange(i1, i2) == jkey_next("signature".spec_bytes()));
    let (x3, i3) = p_jhex_fixed(b, i2, 96)->Some_0;
    lemma_p_jhex_fixed_exact(b, i2, 96, x3, i3);
    assert(x3 == v.signature);
    let i4 = p_lit(b, i3, seq![125u8])->Some_0;
    assert(b.subrange(i3, i4) == seq![125u8]);
    assert(b.subrange(i3, j) == q4);
    assert(b.subrange(i2, j) =~= b.subrange(i2, i3) + b.subrange(i3, j));
    assert(b.subrange(i2, j) == q3);
    assert(b.subrange(i1, j) =~= b.subrange(i1, i2) + b.subrange(i2, j));
    assert(b.subrange(i1, j) == q2);
    assert(b.subrange(i0, j) =~= b.subrange(i0, i1) + b.subrange(i1, j));
    assert(b.subrange(i0, j) == q1);
    assert(b.subrange(i, j) =~= b.subrange(i, i0) + b.subrange(i0, j));
    assert(b.subrange(i, j) == q0);
    assert(json_signed_blinded_block_v(v) =~= q0);
}


pub(crate) fn emit_body(x: &BlockBody, out: &mut Vec<u8>)
    ensures
        final(out)@ == old(out)@ + json_body_v(x@),
{
    push_key_first(out, "randao_reveal");
    push_jhex(out, x.randao_reveal.bytes.as_slice());
    push_key_next(out, "graffiti");
    push_jhex(out, x.graffiti.bytes.as_slice());
    push_key_next(out, "payload");
    push_jhex(out, x.payload.as_slice());
    out.push(125);
    assert(final(out)@ =~= old(out)@ + json_body_v(x@));
}

pub(crate) fn parse_body(kind: PresetKind, b: &[u8], i: usize) -> (r: Option<(BlockBody, usize)>)
    requires
        i <= b@.len(),
    ensures
        r is Some <==> t_body(kind, b@, i as int) is Some,
        r matches Some(p) ==> Some((p.0@, p.1 as int)) == t_body(kind, b@, i as int) && i
            <= p.1 <= b@.len(),
{
    let i0 = match expect_key_first(b, i, "randao_reveal") {
        Some(j) => j,
        None => { return None; },
    };
    let (f1, i1) = match parse_jhex_fixed(b, i0, 96) {
        Some(p) => p,
        None => { return None; },
    };
    let i2 = match expect_key_next(b, i1, "graffiti") {
        Some(j) => j,
        None => { return None; },
    };
    let (f3, i3) = match parse_jhex_fixed(b, i2, 32) {
        Some(p) => p,
        None => { return None; },
    };
    let i4 = match expect_key_next(b, i3, "payload") {
        Some(j) => j,
        None => { return None; },
    };
    let (f5, i5) = match parse_jhex_var(b, i4) {
        Some(p) => p,
        None => { return None; },
    };
    let cap = crate::preset::preset_table(kind).max_bytes_per_transaction;
    if f5.len() as u64 > cap {
        return None;
    }
    let i6 = match expect_byte(b, i5, 125) {
        Some(j) => j,
        None => { return None; },
    };
    let x = BlockBody { randao_reveal: Signature { bytes: f1 }, graffiti: Root { bytes: f3 }, payload: f5 };
    assert(Some((x@, i6 as int)) == t_body(kind, b@, i as int));
    Some((x, i6))
}

pub(crate) fn emit_blinded_body(x: &BlindedBlockBody, out: &mut Vec<u8>)
    ensures
        final(out)@ == old(out)@ + json_blinded_body_v(x@),
{
    push_key_first(out, "randao_reveal");
    push_jhex(out, x.randao_reveal.bytes.as_slice());
    push_key_next(out, "graffiti");
    push_jhex(out, x.graffiti.bytes.as_slice());
    push_key_next(out, "payload_root");
    push_jhex(out, x.payload_root.bytes.as_slice());
    out.push(125);
    assert(final(out)@ =~= old(out)@ + json_blinded_body_v(x@));
}

pub(crate) fn parse_blinded_body(kind: PresetKind, b: &[u8], i: usize) -> (r: Option<(BlindedBlockBody, usize)>)
    requires
        i <= b@.len(),
    ensures
        r is Some <==> t_blinded_body(kind, b@, i as int) is Some,
        r matches Some(p) ==> Some((p.0@, p.1 as int)) == t_blinded_body(kind, b@, i as int) && i
            <= p.1 <= b@.len(),
{
    let i0 = match expect_key_first(b, i, "randao_reveal") {
        Some(j) => j,
        None => { return None; },
    };
    let (f1, i1) = match parse_jhex_fixed(b, i0, 96) {
        Some(p) => p,
        None => { return None; },
    };
    let i2 = match expect_key_next(b, i1, "graffiti") {
        Some(j) => j,
        None => { return None; },
    };
    let (f3, i3) = match parse_jhex_fixed(b, i2, 32) {
        Some(p) => p,
        None => { return None; },
    };
    let i4 = match expect_key_next(b, i3, "payload_root") {
        Some(j) => j,
        None => { return None; },
    };
    let (f5, i5) = match parse_jhex_fixed(b, i4, 32) {
        Some(p) => p,
        None => { return None; },
    };
    let i6 = match expect_byte(b, i5, 125) {
        Some(j) => j,
        None => { return None; },
    };
    let x = BlindedBlockBody { randao_reveal: Signature { bytes: f1 }, graffiti: Root { bytes: f3 }, payload_root: Root { bytes: f5 } };
    assert(Some((x@, i6 as int)) == t_blinded_body(kind, b@, i as int));
    Some((x, i6))
}

pub(crate) fn emit_block(x: &BeaconBlock, out: &mut Vec<u8>)
    ensures
        final(out)@ == old(out)@ + json_block_v(x@),
{
    push_key_first(out, "slot");
    push_jdec(out, x.slot);
    push_key_next(out, "proposer_index");
    push_jdec(out, x.proposer_index);
    push_key_next(out, "parent_root");
    push_jhex(out, x.parent_root.bytes.as_slice());
    push_key_next(out, "state_root");
    push_jhex(out, x.state_root.bytes.as_slice());
    push_key_next(out, "body");
    emit_body(&x.body, out);
    out.push(125);
    assert(final(out)@ =~= old(out)@ + json_block_v(x@));
}

pub(crate) fn parse_block(kind: PresetKind, b: &[u8], i: usize) -> (r: Option<(BeaconBlock, usize)>)
    requires
        i <= b@.len(),
    ensures
        r is Some <==> t_block(kind, b@, i as int) is Some,
        r matches Some(p) ==> Some((p.0@, p.1 as int)) == t_block(kind, b@, i as int) && i
            <= p.1 <= b@.len(),
{
    let i0 = match expect_key_first(b, i, "slot") {
        Some(j) => j,
        None => { return None; },
    };
    let (f1, i1) = match parse_jdec(b, i0) {
        Some(p) => p,
        None => { return None; },
    };
    let i2 = match expect_key_next(b, i1, "proposer_index") {
        Some(j) => j,
        None => { return None; },
    };
    let (f3, i3) = match parse_jdec(b, i2) {
        Some(p) => p,
        None => { return None; },
    };
    let i4 = match expect_key_next(b, i3, "parent_root") {
        Some(j) => j,
        None => { return None; },
    };
    let (f5, i5) = match parse_jhex_fixed(b, i4, 32) {
        Some(p) => p,
        None => { return None; },
    };
    let i6 = match expect_key_next(b, i5, "state_root") {
        Some(j) => j,
        None => { return None; },
    };
    let (f7, i7) = match parse_jhex_fixed(b, i6, 32) {
        Some(p) => p,
        None => { return None; },
    };
    let i8 = match expect_key_next(b, i7, "body") {
        Some(j) => j,
        None => { return None; },
    };
    let (f9, i9) = match parse_body(kind, b, i8) {
        Some(p) => p,
        None => { return None; },
    };
    let i10 = match expect_byte(b, i9, 125) {
        Some(j) => j,
        None => { return None; },
    };
    let x = BeaconBlock { preset: kind, slot: f1, proposer_index: f3, parent_root: Root { bytes: f5 }, state_root: Root { bytes: f7 }, body: f9 };
    assert(Some((x@, i10 as int)) == t_block(kind, b@, i as int));
    Some((x, i10))
}

pub(crate) fn emit_blinded_block(x: &BlindedBeaconBlock, out: &mut Vec<u8>)
    ensures
        final(out)@ == old(out)@ + json_blinded_block_v(x@),
{
    push_key_first(out, "slot");
    push_jdec(out, x.slot);
    push_key_next(out, "proposer_index");
    push_jdec(out, x.proposer_index);
    push_key_next(out, "parent_root");
    push_jhex(out, x.parent_root.bytes.as_slice());
    push_key_next(out, "state_root");
    push_jhex(out, x.state_root.bytes.as_slice());
    push_key_next(out, "body");
    emit_blinded_body(&x.body, out);
    out.push(125);
    assert(final(out)@ =~= old(out)@ + json_blinded_block_v(x@));
}

pub(crate) fn parse_blinded_block(kind: PresetKind, b: &[u8], i: usize) -> (r: Option<(BlindedBeaconBlock, usize)>)
    requires
        i <= b@.len(),
    ensures
        r is Some <==> t_blinded_block(kind, b@, i as int) is Some,
        r matches Some(p) ==> Some((p.0@, p.1 as int)) == t_blinded_block(kind, b@, i as int) && i
            <= p.1 <= b@.len(),
{
    let i0 = match expect_key_first(b, i, "slot") {
        Some(j) => j,
        None => { return None; },
    };
    let (f1, i1) = match parse_jdec(b, i0) {
        Some(p) => p,
        None => { return None; },
    };
    let i2 = match expect_key_next(b, i1, "proposer_index") {
        Some(j) => j,
        None => { return None; },
    };
    let (f3, i3) = match parse_jdec(b, i2) {
        Some(p) => p,
        None => { return None; },
    };
    let i4 = match expect_key_next(b, i3, "parent_root") {
        Some(j) => j,
        None => { return None; },
    };
    let (f5, i5) = match parse_jhex_fixed(b, i4, 32) {
        Some(p) => p,
        None => { return None; },
    };
    let i6 = match expect_key_next(b, i5, "state_root") {
        Some(j) => j,
        None => { return None; },
    };
    let (f7, i7) = match parse_jhex_fixed(b, i6, 32) {
        Some(p) => p,
        None => { return None; },
    };
    let i8 = match expect_key_next(b, i7, "body") {
        Some(j) => j,
        None => { return None; },
    };
    let (f9, i9) = match parse_blinded_body(kind, b, i8) {
        Some(p) => p,
        None => { return None; },
    };
    let i10 = match expect_byte(b, i9, 125) {
        Some(j) => j,
        None => { return None; },
    };
    let x = BlindedBeaconBlock { preset: kind, slot: f1, proposer_index: f3, parent_root: Root { bytes: f5 }, state_root: Root { bytes: f7 }, body: f9 };
    assert(Some((x@, i10 as int)) == t_blinded_block(kind, b@, i as int));
    Some((x, i10))
}

pub(crate) fn emit_signed_block(x: &SignedBeaconBlock, out: &mut Vec<u8>)
    ensures
        final(out)@ == old(out)@ + json_signed_block_v(x@),
{
    push_key_first(out, "message");
    emit_block(&x.message, out);
    push_key_next(out, "signature");
    push_jhex(out, x.signature.bytes.as_slice());
    out.push(125);
    assert(final(out)@ =~= old(out)@ + json_signed_block_v(x@));
}

pub(crate) fn parse_signed_block(kind: PresetKind, b: &[u8], i: usize) -> (r: Option<(SignedBeaconBlock, usize)>)
    requires
        i <= b@.len(),
    ensures
        r is Some <==> t_signed_block(kind, b@, i as int) is Some,
        r matches Some(p) ==> Some((p.0@, p.1 as int)) == t_signed_block(kind, b@, i as int) && i
            <= p.1 <= b@.len(),
{
    let i0 = match expect_key_first(b, i, "message") {
        Some(j) => j,
        None => { return None; },
    };
    let (f1, i1) = match parse_block(kind, b, i0) {
        Some(p) => p,
        None => { return None; },
    };
    let i2 = match expect_key_next(b, i1, "signature") {
        Some(j) => j,
        None => { return None; },
    };
    let (f3, i3) = match parse_jhex_fixed(b, i2, 96) {
        Some(p) => p,
        None => { return None; },
    };
    let i4 = match expect_byte(b, i3, 125) {
        Some(j) => j,
        None => { return None; },
    };
    let x = SignedBeaconBlock { message: f1, signature: Signature { bytes: f3 } };
    assert(Some((x@, i4 as int)) == t_signed_block(kind, b@, i as int));
    Some((x, i4))
}

pub(crate) fn emit_signed_blinded_block(x: &SignedBlindedBeaconBlock, out: &mut Vec<u8>)
    ensures
        final(out)@ == old(out)@ + json_signed_blinded_block_v(x@),
{
    push_key_first(out, "message");
    emit_blinded_block(&x.message, out);
    push_key_next(out, "signature");
    push_jhex(out, x.signature.bytes.as_slice());
    out.push(125);
    assert(final(out)@ =~= old(out)@ + json_signed_blinded_block_v(x@));
}

pub(crate) fn parse_signed_blinded_block(kind: PresetKind, b: &[u8], i: usize) -> (r: Option<(SignedBlindedBeaconBlock, usize)>)
    requires
        i <= b@.len(),
    ensures
        r is Some <==> t_signed_blinded_block(kind, b@, i as int) is Some,
        r matches Some(p) ==> Some((p.0@, p.1 as int)) == t_signed_blinded_block(kind, b@, i as int) && i
            <= p.1 <= b@.len(),
{
    let i0 = match expect_key_first(b, i, "message") {
        Some(j) => j,
        None => { return None; },
    };
    let (f1, i1) = match parse_blinded_block(kind, b, i0) {
        Some(p) => p,
        None => { return None; },
    };
    let i2 = match expect_key_next(b, i1, "signature") {
        Some(j) => j,
        None => { return None; },
    };
    let (f3, i3) = match parse_jhex_fixed(b, i2, 96) {
        Some(p) => p,
        None => { return None; },
    };
    let i4 = match expect_byte(b, i3, 125) {
        Some(j) => j,
        None => { return None; },
    };
    let x = SignedBlindedBeaconBlock { message: f1, signature: Signature { bytes: f3 } };
    assert(Some((x@, i4 as int)) == t_signed_blinded_block(kind, b@, i as int));
    Some((x, i4))
}


pub proof fn lemma_jhex_items_push(s: Seq<Seq<u8>>, x: Seq<u8>)
    ensures
        s.len() == 0 ==> jhex_items_enc(s.push(x)) == jhex(x),
        s.len() >= 1 ==> jhex_items_enc(s.push(x)) == jhex_items_enc(s) + seq![44u8] + jhex(x),
    decreases s.len(),
{
    let t = s.push(x);
    if s.len() == 0 {
        assert(t[0] == x);
        assert(jhex_items_enc(t) == jhex(x));
    } else if s.len() == 1 {
        assert(t.drop_first() =~= seq![x]);
        assert(jhex_items_enc(t.drop_first()) == jhex(x));
        assert(jhex_items_enc(t) == jhex(t[0]) + seq![44u8] + jhex_items_enc(t.drop_first()));
        assert(t[0] == s[0]);
        assert(jhex_items_enc(s) == jhex(s[0]));
    } else {
        lemma_jhex_items_push(s.drop_first(), x);
        assert(t.drop_first() =~= s.drop_first().push(x));
        assert(jhex_items_enc(t) == jhex(t[0]) + seq![44u8] + jhex_items_enc(t.drop_first()));
        assert(jhex_items_enc(s.push(x)) =~= jhex_items_enc(s) + seq![44u8] + jhex(x));
    }
}

pub(crate) fn emit_jlist_proofs(items: &Vec<KzgProof>, out: &mut Vec<u8>)
    ensures
        final(out)@ == old(out)@ + jlist(seq_views(items@)),
{
    let ghost base = out@;
    out.push(91);
    let mut i: usize = 0;
    while i < items.len()
        invariant
            0 <= i <= items@.len(),
            i == 0 ==> out@ == base + seq![91u8],
            i >= 1 ==> out@ == base + seq![91u8] + jhex_items_enc(seq_views(items@).take(i as int)),
        decreases items@.len() - i,
    {
        if i > 0 {
            out.push(44);
        }
        push_jhex(out, items[i].bytes.as_slice());
        proof {
            let vs = seq_views(items@);
            lemma_jhex_items_push(vs.take(i as int), items@[i as int]@);
            assert(vs.take(i as int + 1) =~= vs.take(i as int).push(items@[i as int]@));
            if i == 0 {
                assert(jhex_items_enc(vs.take(1)) == jhex(items@[0]@));
                assert(out@ =~= base + seq![91u8] + jhex_items_enc(vs.take(i as int + 1)));
            } else {
                assert(out@ =~= base + seq![91u8] + jhex_items_enc(vs.take(i as int + 1)));
            }
        }
        i += 1;
    }
    out.push(93);
    proof {
        let vs = seq_views(items@);
        assert(vs.take(vs.len() as int) =~= vs);
        if items@.len() == 0 {
            assert(jhex_items_enc(vs) == Seq::<u8>::empty());
            assert(final(out)@ =~= old(out)@ + jlist(vs));
        } else {
            assert(final(out)@ =~= old(out)@ + jlist(vs));
        }
    }
}

pub(crate) fn emit_jlist_blobs(items: &Vec<Blob>, out: &mut Vec<u8>)
    ensures
        final(out)@ == old(out)@ + jlist(seq_views(items@)),
{
    let ghost base = out@;
    out.push(91);
    let mut i: usize = 0;
    while i < items.len()
        invariant
            0 <= i <= items@.len(),
            i == 0 ==> out@ == base + seq![91u8],
            i >= 1 ==> out@ == base + seq![91u8] + jhex_items_enc(seq_views(items@).take(i as int)),
        decreases items@.len() - i,
    {
        if i > 0 {
            out.push(44);
        }
        push_jhex(out, items[i].bytes.as_slice());
        proof {
            let vs = seq_views(items@);
            lemma_jhex_items_push(vs.take(i as int), items@[i as int]@);
            assert(vs.take(i as int + 1) =~= vs.take(i as int).push(items@[i as int]@));
            if i == 0 {
                assert(jhex_items_enc(vs.take(1)) == jhex(items@[0]@));
                assert(out@ =~= base + seq![91u8] + jhex_items_enc(vs.take(i as int + 1)));
            } else {
                assert(out@ =~= base + seq![91u8] + jhex_items_enc(vs.take(i as int + 1)));
            }
        }
        i += 1;
    }
    out.push(93);
    proof {
        let vs = seq_views(items@);
        assert(vs.take(vs.len() as int) =~= vs);
        if items@.len() == 0 {
            assert(jhex_items_enc(vs) == Seq::<u8>::empty());
            assert(final(out)@ =~= old(out)@ + jlist(vs));
        } else {
            assert(final(out)@ =~= old(out)@ + jlist(vs));
        }
    }
}

pub(crate) fn parse_jhex_items_rec(b: &[u8], i: usize, n: usize) -> (r: Option<
    (Vec<Vec<u8>>, usize),
>)
    requires
        i <= b@.len(),
    ensures
        r is Some <==> p_jhex_items(b@, i as int, n as nat) is Some,
        r matches Some(p) ==> Some((seq_views(p.0@), p.1 as int)) == p_jhex_items(
            b@,
            i as int,
            n as nat,
        ) && i <= p.1 <= b@.len(),
    decreases b@.len() - i,
{
    let len = b.len();
    let (v, j) = match parse_jhex_fixed(b, i, n) {
        Some(p) => p,
        None => {
            return None;
        },
    };
    if j < len && b[j] == 44 {
        match parse_jhex_items_rec(b, j + 1, n) {
            Some((mut rest, e)) => {
                rest.insert(0, v);
                proof {
                    assert(seq_views(rest@) =~= seq![rest@[0]@] + seq_views(rest@.drop_first()));
                    assert(seq_views(rest@.drop_first()) =~= seq_views(rest@).drop_first());
                }
                Some((rest, e))
            },
            None => None,
        }
    } else if j < len && b[j] == 93 {
        let mut out: Vec<Vec<u8>> = Vec::new();
        out.push(v);
        proof {
            assert(seq_views(out@) =~= seq![out@[0]@]);
        }
        Some((out, j + 1))
    } else {
        None
    }
}

pub(crate) fn parse_jlist_exec(b: &[u8], i: usize, n: usize) -> (r: Option<(Vec<Vec<u8>>, usize)>)
    requires
        i <= b@.len(),
    ensures
        r is Some <==> p_jlist(b@, i as int, n as nat) is Some,
        r matches Some(p) ==> Some((seq_views(p.0@), p.1 as int)) == p_jlist(
            b@,
            i as int,
            n as nat,
        ) && i <= p.1 <= b@.len(),
{
    let len = b.len();
    if len >= 2 && i <= len - 2 && b[i] == 91 && b[i + 1] == 93 {
        let out: Vec<Vec<u8>> = Vec::new();
        proof {
            assert(seq_views(out@) =~= Seq::<Seq<u8>>::empty());
        }
        Some((out, i + 2))
    } else if i < len && b[i] == 91 {
        parse_jhex_items_rec(b, i + 1, n)
    } else {
        None
    }
}

fn to_proofs(items: Vec<Vec<u8>>) -> (r: Vec<KzgProof>)
    ensures
        seq_views(r@) == seq_views(items@),
{
    let mut r: Vec<KzgProof> = Vec::new();
    let mut i: usize = 0;
    while i < items.len()
        invariant
            0 <= i <= items@.len(),
            r@.len() == i,
            forall|k: int| 0 <= k < i ==> (#[trigger] r@[k])@ == items@[k]@,
        decreases items@.len() - i,
    {
        r.push(KzgProof { bytes: vstd::slice::slice_to_vec(items[i].as_slice()) });
        i += 1;
    }
    assert(seq_views(r@) =~= seq_views(items@));
    r
}

fn to_blobs(items: Vec<Vec<u8>>) -> (r: Vec<Blob>)
    ensures
        seq_views(r@) == seq_views(items@),
{
    let mut r: Vec<Blob> = Vec::new();
    let mut i: usize = 0;
    while i < items.len()
        invariant
            0 <= i <= items@.len(),
            r@.len() == i,
            forall|k: int| 0 <= k < i ==> (#[trigger] r@[k])@ == items@[k]@,
        decreases items@.len() - i,
    {
        r.push(Blob { bytes: vstd::slice::slice_to_vec(items[i].as_slice()) });
        i += 1;
    }
    assert(seq_views(r@) =~= seq_views(items@));
    r
}


/// Canonical text of this shape, fields in declaration order.
pub open spec fn json_contents_v(v: BeaconBlockContentsV) -> Seq<u8> {
    jkey_first("block".spec_bytes()) + json_block_v(v.block) + jkey_next("kzg_proofs".spec_bytes())
        + jlist(v.kzg_proofs) + jkey_next("blobs".spec_bytes()) + jlist(v.blobs)
        + seq![125u8]
}

pub open spec fn t_contents(kind: PresetKind, b: Seq<u8>, i: int) -> Option<(BeaconBlockContentsV, int)> {
    let r0 = p_lit(b, i, jkey_first("block".spec_bytes()));
    let i0 = r0->Some_0;
    let r1 = t_block(kind, b, i0);
    let i1 = r1->Some_0.1;
    let r2 = p_lit(b, i1, jkey_next("kzg_proofs".spec_bytes()));
    let i2 = r2->Some_0;
    let r3 = p_jlist(b, i2, 48);
    let i3 = r3->Some_0.1;
    let r4 = p_lit(b, i3, jkey_next("blobs".spec_bytes()));
    let i4 = r4->Some_0;
    let r5 = p_jlist(b, i4, spec_bytes_per_blob(kind) as nat);
    let i5 = r5->Some_0.1;
    let r6 = p_lit(b, i5, seq![125u8]);
    let i6 = r6->Some_0;
    if r0 is Some && r1 is Some && r2 is Some && r3 is Some && r4 is Some && r5 is Some
        && r6 is Some && r3->Some_0.0.len() == r5->Some_0.0.len() && r3->Some_0.0.len()
        <= spec_max_blob_commitments(kind) {
        Some((BeaconBlockContentsV { block: r1->Some_0.0, kzg_proofs: r3->Some_0.0, blobs: r5->Some_0.0 }, i6))
    } else {
        None
    }
}

#[verifier::rlimit(100)]
pub proof fn lemma_t_contents_at(kind: PresetKind, b: Seq<u8>, i: int, v: BeaconBlockContentsV)
    requires
        wf_contents_v(v),
        kind == v.block.preset,
        0 <= i,
        i + json_contents_v(v).len() <= b.len(),
        b.subrange(i, i + json_contents_v(v).len() as int) == json_contents_v(v),
    ensures
        t_contents(kind, b, i) == Some((v, i + json_contents_v(v).len() as int)),
{
    let p0 = jkey_first("block".spec_bytes());
    let p1 = json_block_v(v.block);
    let p2 = jkey_next("kzg_proofs".spec_bytes());
    let p3 = jlist(v.kzg_proofs);
    let p4 = jkey_next("blobs".spec_bytes());
    let p5 = jlist(v.blobs);
    let p6 = seq![125u8];
    let q0 = p0 + (p1 + (p2 + (p3 + (p4 + (p5 + (p6))))));
    let q1 = p1 + (p2 + (p3 + (p4 + (p5 + (p6)))));
    let q2 = p2 + (p3 + (p4 + (p5 + (p6))));
    let q3 = p3 + (p4 + (p5 + (p6)));
    let q4 = p4 + (p5 + (p6));
    let q5 = p5 + (p6);
    let q6 = p6;
    assert(json_contents_v(v) =~= q0);
    let j0 = i;
    assert(q0 == p0 + q1);
    lemma_peel(b, j0, p0, q1);
    let j1 = j0 + p0.len() as int;
    assert(q1 == p1 + q2);
    lemma_peel(b, j1, p1, q2);
    let j2 = j1 + p1.len() as int;
    assert(q2 == p2 + q3);
    lemma_peel(b, j2, p2, q3);
    let j3 = j2 + p2.len() as int;
    assert(q3 == p3 + q4);
    lemma_peel(b, j3, p3, q4);
    let j4 = j3 + p3.len() as int;
    assert(q4 == p4 + q5);
    lemma_peel(b, j4, p4, q5);
    let j5 = j4 + p4.len() as int;
    assert(q5 == p5 + q6);
    lemma_peel(b, j5, p5, q6);
    let j6 = j5 + p5.len() as int;
    lemma_p_lit_at(b, j0, jkey_first("block".spec_bytes()));
    lemma_t_block_at(kind, b, j1, v.block);
    lemma_p_lit_at(b, j2, jkey_next("kzg_proofs".spec_bytes()));
    lemma_p_jlist_at(b, j3, v.kzg_proofs, 48);
    lemma_p_lit_at(b, j4, jkey_next("blobs".spec_bytes()));
    lemma_p_jlist_at(b, j5, v.blobs, spec_bytes_per_blob(kind) as nat);
    lemma_p_lit_at(b, j6, seq![125u8]);
    assert(t_contents(kind, b, i) == Some((v, i + json_contents_v(v).len() as int)));
}

#[verifier::rlimit(100)]
pub proof fn lemma_t_contents_exact(kind: PresetKind, b: Seq<u8>, i: int, v: BeaconBlockContentsV, j: int)
    requires
        0 <= i <= b.len(),
        t_contents(kind, b, i) == Some((v, j)),
    ensures
        wf_contents_v(v),
        v.block.preset == kind,
        i <= j <= b.len(),
        j == i + json_contents_v(v).len(),
        b.subrange(i, j) == json_contents_v(v),
{
    let p0 = jkey_first("block".spec_bytes());
    let p1 = json_block_v(v.block);
    let p2 = jkey_next("kzg_proofs".spec_bytes());
    let p3 = jlist(v.kzg_proofs);
    let p4 = jkey_next("blobs".spec_bytes());
    let p5 = jlist(v.blobs);
    let p6 = seq![125u8];
    let q0 = p0 + (p1 + (p2 + (p3 + (p4 + (p5 + (p6))))));
    let q1 = p1 + (p2 + (p3 + (p4 + (p5 + (p6)))));
    let q2 = p2 + (p3 + (p4 + (p5 + (p6))));
    let q3 = p3 + (p4 + (p5 + (p6)));
    let q4 = p4 + (p5 + (p6));
    let q5 = p5 + (p6);
    let q6 = p6;
    let i0 = p_lit(b, i, jkey_first("block".spec_bytes()))->Some_0;
    assert(b.subrange(i, i0) == p0);
    let (x1, i1) = t_block(kind, b, i0)->Some_0;
    lemma_t_block_exact(kind, b, i0, x1, i1);
    assert(x1 == v.block);
    let i2 = p_lit(b, i1, jkey_next("kzg_proofs".spec_bytes()))->Some_0;
    assert(b.subrange(i1, i2) == p2);
    let (x3, i3) = p_jlist(b, i2, 48)->Some_0;
    lemma_p_jlist_exact(b, i2, 48, x3, i3);
    assert(x3 == v.kzg_proofs);
    let i4 = p_lit(b, i3, jkey_next("blobs".spec_bytes()))->Some_0;
    assert(b.subrange(i3, i4) == p4);
    let (x5, i5) = p_jlist(b, i4, spec_bytes_per_blob(kind) as nat)->Some_0;
    lemma_p_jlist_exact(b, i4, spec_bytes_per_blob(kind) as nat, x5, i5);
    assert(x5 == v.blobs);
    let i6 = p_lit(b, i5, seq![125u8])->Some_0;
    assert(b.subrange(i5, i6) == p6);
    assert(b.subrange(i5, j) == q6);
    assert(b.subrange(i4, j) =~= b.subrange(i4, i5) + b.subrange(i5, j));
    assert(b.subrange(i4, j) == q5);
    assert(b.subrange(i3, j) =~= b.subrange(i3, i4) + b.subrange(i4, j));
    assert(b.subrange(i3, j) == q4);
    assert(b.subrange(i2, j) =~= b.subrange(i2, i3) + b.subrange(i3, j));
    assert(b.subrange(i2, j) == q3);
    assert(b.subrange(i1, j) =~= b.subrange(i1, i2) + b.subrange(i2, j));
    assert(b.subrange(i1, j) == q2);
    assert(b.subrange(i0, j) =~= b.subrange(i0, i1) + b.subrange(i1, j));
    assert(b.subrange(i0, j) == q1);
    assert(b.subrange(i, j) =~= b.subrange(i, i0) + b.subrange(i0, j));
    assert(b.subrange(i, j) == q0);
    assert(json_contents_v(v) =~= q0);
}

pub(crate) fn emit_contents(x: &BeaconBlockContents, out: &mut Vec<u8>)
    ensures
        final(out)@ == old(out)@ + json_contents_v(x@),
{
    push_key_first(out, "block");
    emit_block(&x.block, out);
    push_key_next(out, "kzg_proofs");
    emit_jlist_proofs(&x.kzg_proofs, out);
    push_key_next(out, "blobs");
    emit_jlist_blobs(&x.blobs, out);
    out.push(125);
    assert(final(out)@ =~= old(out)@ + json_contents_v(x@));
}

pub(crate) fn parse_contents(kind: PresetKind, b: &[u8], i: usize) -> (r: Option<(BeaconBlockContents, usize)>)
    requires
        i <= b@.len(),
    ensures
        r is Some <==> t_contents(kind, b@, i as int) is Some,
        r matches Some(p) ==> Some((p.0@, p.1 as int)) == t_contents(kind, b@, i as int) && i
            <= p.1 <= b@.len(),
{
    let i0 = match expect_key_first(b, i, "block") {
        Some(j) => j,
        None => { return None; },
    };
    let (f1, i1) = match parse_block(kind, b, i0) {
        Some(p) => p,
        None => { return None; },
    };
    let i2 = match expect_key_next(b, i1, "kzg_proofs") {
        Some(j) => j,
        None => { return None; },
    };
    let (f3, i3) = match parse_jlist_exec(b, i2, 48) {
        Some(p) => p,
        None => { return None; },
    };
    let i4 = match expect_key_next(b, i3, "blobs") {
        Some(j) => j,
        None => { return None; },
    };
    let bls: usize = crate::preset::bytes_per_blob(kind) as usize;
    let (f5, i5) = match parse_jlist_exec(b, i4, bls) {
        Some(p) => p,
        None => { return None; },
    };
    let i6 = match expect_byte(b, i5, 125) {
        Some(j) => j,
        None => { return None; },
    };
    let cap = crate::preset::preset_table(kind).max_blob_commitments_per_block;
    if f3.len() != f5.len() || f3.len() as u64 > cap {
        return None;
    }
    let x = BeaconBlockContents { block: f1, kzg_proofs: to_proofs(f3), blobs: to_blobs(f5) };
    assert(Some((x@, i6 as int)) == t_contents(kind, b@, i as int));
    Some((x, i6))
}

/// Canonical text of this shape, fields in declaration order.
pub open spec fn json_signed_contents_v(v: SignedBeaconBlockContentsV) -> Seq<u8> {
    jkey_first("signed_block".spec_bytes()) + json_signed_block_v(v.signed_block) + jkey_next("kzg_proofs".spec_bytes())
        + jlist(v.kzg_proofs) + jkey_next("blobs".spec_bytes()) + jlist(v.blobs)
        + seq![125u8]
}

pub open spec fn t_signed_contents(kind: PresetKind, b: Seq<u8>, i: int) -> Option<(SignedBeaconBlockContentsV, int)> {
    let r0 = p_lit(b, i, jkey_first("signed_block".spec_bytes()));
    let i0 = r0->Some_0;
    let r1 = t_signed_block(kind, b, i0);
    let i1 = r1->Some_0.1;
    let r2 = p_lit(b, i1, jkey_next("kzg_proofs".spec_bytes()));
    let i2 = r2->Some_0;
    let r3 = p_jlist(b, i2, 48);
    let i3 = r3->Some_0.1;
    let r4 = p_lit(b, i3, jkey_next("blobs".spec_bytes()));
    let i4 = r4->Some_0;
    let r5 = p_jlist(b, i4, spec_bytes_per_blob(kind) as nat);
    let i5 = r5->Some_0.1;
    let r6 = p_lit(b, i5, seq![125u8]);
    let i6 = r6->Some_0;
    if r0 is Some && r1 is Some && r2 is Some && r3 is Some && r4 is Some && r5 is Some
        && r6 is Some && r3->Some_0.0.len() == r5->Some_0.0.len() && r3->Some_0.0.len()
        <= spec_max_blob_commitments(kind) {
        Some((SignedBeaconBlockContentsV { signed_block: r1->Some_0.0, kzg_proofs: r3->Some_0.0, blobs: r5->Some_0.0 }, i6))
    } else {
        None
    }
}

#[verifier::rlimit(100)]
pub proof fn lemma_t_signed_contents_at(kind: PresetKind, b: Seq<u8>, i: int, v: SignedBeaconBlockContentsV)
    requires
        wf_signed_contents_v(v),
        kind == v.signed_block.message.preset,
        0 <= i,
        i + json_signed_contents_v(v).len() <= b.len(),
        b.subrange(i, i + json_signed_contents_v(v).len() as int) == json_signed_contents_v(v),
    ensures
        t_signed_contents(kind, b, i) == Some((v, i + json_signed_contents_v(v).len() as int)),
{
    let p0 = jkey_first("signed_block".spec_bytes());
    let p1 = json_signed_block_v(v.signed_block);
    let p2 = jkey_next("kzg_proofs".spec_bytes());
    let p3 = jlist(v.kzg_proofs);
    let p4 = jkey_next("blobs".spec_bytes());
    let p5 = jlist(v.blobs);
    let p6 = seq![125u8];
    let q0 = p0 + (p1 + (p2 + (p3 + (p4 + (p5 + (p6))))));
    let q1 = p1 + (p2 + (p3 + (p4 + (p5 + (p6)))));
    let q2 = p2 + (p3 + (p4 + (p5 + (p6))));
    let q3 = p3 + (p4 + (p5 + (p6)));
    let q4 = p4 + (p5 + (p6));
    let q5 = p5 + (p6);
    let q6 = p6;
    assert(json_signed_contents_v(v) =~= q0);
    let j0 = i;
    assert(q0 == p0 + q1);
    lemma_peel(b, j0, p0, q1);
    let j1 = j0 + p0.len() as int;
    assert(q1 == p1 + q2);
    lemma_peel(b, j1, p1, q2);
    let j2 = j1 + p1.len() as int;
    assert(q2 == p2 + q3);
    lemma_peel(b, j2, p2, q3);
    let j3 = j2 + p2.len() as int;
    assert(q3 == p3 + q4);
    lemma_peel(b, j3, p3, q4);
    let j4 = j3 + p3.len() as int;
    assert(q4 == p4 + q5);
    lemma_peel(b, j4, p4, q5);
    let j5 = j4 + p4.len() as int;
    assert(q5 == p5 + q6);
    lemma_peel(b, j5, p5, q6);
    let j6 = j5 + p5.len() as int;
    lemma_p_lit_at(b, j0, jkey_first("signed_block".spec_bytes()));
    lemma_t_signed_block_at(kind, b, j1, v.signed_block);
    lemma_p_lit_at(b, j2, jkey_next("kzg_proofs".spec_bytes()));
    lemma_p_jlist_at(b, j3, v.kzg_proofs, 48);
    lemma_p_lit_at(b, j4, jkey_next("blobs".spec_bytes()));
    lemma_p_jlist_at(b, j5, v.blobs, spec_bytes_per_blob(kind) as nat);
    lemma_p_lit_at(b, j6, seq![125u8]);
    assert(t_signed_contents(kind, b, i) == Some((v, i + json_signed_contents_v(v).len() as int)));
}

#[verifier::rlimit(100)]
pub proof fn lemma_t_signed_contents_exact(kind: PresetKind, b: Seq<u8>, i: int, v: SignedBeaconBlockContentsV, j: int)
    requires
        0 <= i <= b.len(),
        t_signed_contents(kind, b, i) == Some((v, j)),
    ensures
        wf_signed_contents_v(v),
        v.signed_block.message.preset == kind,
        i <= j <= b.len(),
        j == i + json_signed_contents_v(v).len(),
        b.subrange(i, j) == json_signed_contents_v(v),
{
    let p0 = jkey_first("signed_block".spec_bytes());
    let p1 = json_signed_block_v(v.signed_block);
    let p2 = jkey_next("kzg_proofs".spec_bytes());
    let p3 = jlist(v.kzg_proofs);
    let p4 = jkey_next("blobs".spec_bytes());
    let p5 = jlist(v.blobs);
    let p6 = seq![125u8];
    let q0 = p0 + (p1 + (p2 + (p3 + (p4 + (p5 + (p6))))));
    let q1 = p1 + (p2 + (p3 + (p4 + (p5 + (p6)))));
    let q2 = p2 + (p3 + (p4 + (p5 + (p6))));
    let q3 = p3 + (p4 + (p5 + (p6)));
    let q4 = p4 + (p5 + (p6));
    let q5 = p5 + (p6);
    let q6 = p6;
    let i0 = p_lit(b, i, jkey_first("signed_block".spec_bytes()))->Some_0;
    assert(b.subrange(i, i0) == p0);
    let (x1, i1) = t_signed_block(kind, b, i0)->Some_0;
    lemma_t_signed_block_exact(kind, b, i0, x1, i1);
    assert(x1 == v.signed_block);
    let i2 = p_lit(b, i1, jkey_next("kzg_proofs".spec_bytes()))->Some_0;
    assert(b.subrange(i1, i2) == p2);
    let (x3, i3) = p_jlist(b, i2, 48)->Some_0;
    lemma_p_jlist_exact(b, i2, 48, x3, i3);
    assert(x3 == v.kzg_proofs);
    let i4 = p_lit(b, i3, jkey_next("blobs".spec_bytes()))->Some_0;
    assert(b.subrange(i3, i4) == p4);
    let (x5, i5) = p_jlist(b, i4, spec_bytes_per_blob(kind) as nat)->Some_0;
    lemma_p_jlist_exact(b, i4, spec_bytes_per_blob(kind) as nat, x5, i5);
    assert(x5 == v.blobs);
    let i6 = p_lit(b, i5, seq![125u8])->Some_0;
    assert(b.subrange(i5, i6) == p6);
    assert(b.subrange(i5, j) == q6);
    lemma_join(b, i4, i5, j, p5, q6);
    assert(b.subrange(i4, j) == q5);
    lemma_join(b, i3, i4, j, p4, q5);
    assert(b.subrange(i3, j) == q4);
    lemma_join(b, i2, i3, j, p3, q4);
    assert(b.subrange(i2, j) == q3);
    lemma_join(b, i1, i2, j, p2, q3);
    assert(b.subrange(i1, j) == q2);
    lemma_join(b, i0, i1, j, p1, q2);
    assert(b.subrange(i0, j) == q1);
    lemma_join(b, i, i0, j, p0, q1);
    assert(b.subrange(i, j) == q0);
    assert(json_signed_contents_v(v) =~= q0);
}

pub(crate) fn emit_signed_contents(x: &SignedBeaconBlockContents, out: &mut Vec<u8>)
    ensures
        final(out)@ == old(out)@ + json_signed_contents_v(x@),
{
    push_key_first(out, "signed_block");
    emit_signed_block(&x.signed_block, out);
    push_key_next(out, "kzg_proofs");
    emit_jlist_proofs(&x.kzg_proofs, out);
    push_key_next(out, "blobs");
    emit_jlist_blobs(&x.blobs, out);
    out.push(125);
    assert(final(out)@ =~= old(out)@ + json_signed_contents_v(x@));
}

pub(crate) fn parse_signed_contents(kind: PresetKind, b: &[u8], i: usize) -> (r: Option<(SignedBeaconBlockContents, usize)>)
    requires
        i <= b@.len(),
    ensures
        r is Some <==> t_signed_contents(kind, b@, i as int) is Some,
        r matches Some(p) ==> Some((p.0@, p.1 as int)) == t_signed_contents(kind, b@, i as int) && i
            <= p.1 <= b@.len(),
{
    let i0 = match expect_key_first(b, i, "signed_block") {
        Some(j) => j,
        None => { return None; },
    };
    let (f1, i1) = match parse_signed_block(kind, b, i0) {
        Some(p) => p,
        None => { return None; },
    };
    let i2 = match expect_key_next(b, i1, "kzg_proofs") {
        Some(j) => j,
        None => { return None; },
    };
    let (f3, i3) = match parse_jlist_exec(b, i2, 48) {
        Some(p) => p,
        None => { return None; },
    };
    let i4 = match expect_key_next(b, i3, "blobs") {
        Some(j) => j,
        None => { return None; },
    };
    let bls: usize = crate::preset::bytes_per_blob(kind) as usize;
    let (f5, i5) = match parse_jlist_exec(b, i4, bls) {
        Some(p) => p,
        None => { return None; },
    };
    let i6 = match expect_byte(b, i5, 125) {
        Some(j) => j,
        None => { return None; },
    };
    let cap = crate::preset::preset_table(kind).max_blob_commitments_per_block;
    if f3.len() != f5.len() || f3.len() as u64 > cap {
        return None;
    }
    let x = SignedBeaconBlockContents { signed_block: f1, kzg_proofs: to_proofs(f3), blobs: to_blobs(f5) };
    assert(Some((x@, i6 as int)) == t_signed_contents(kind, b@, i as int));
    Some((x, i6))
}

/// The full text form: the shape inside the `{"data": ...}` envelope.
pub open spec fn text_block_v(v: BeaconBlockV) -> Seq<u8> {
    jkey_first("data".spec_bytes()) + json_block_v(v) + seq![125u8]
}

pub open spec fn t_text_block(kind: PresetKind, b: Seq<u8>) -> Option<BeaconBlockV> {
    let r0 = p_lit(b, 0, jkey_first("data".spec_bytes()));
    let i0 = r0->Some_0;
    let r1 = t_block(kind, b, i0);
    let i1 = r1->Some_0.1;
    let r2 = p_lit(b, i1, seq![125u8]);
    let i2 = r2->Some_0;
    if r0 is Some && r1 is Some && r2 is Some && i2 == b.len() {
        Some(r1->Some_0.0)
    } else {
        None
    }
}

/// Round trip of the text codec: decoding an encoded well-formed instance
/// under its own preset gives back exactly that instance.
#[verifier::rlimit(100)]
pub proof fn lemma_text_block_round_trip(v: BeaconBlockV)
    requires
        wf_block_v(v),
    ensures
        t_text_block(v.preset, text_block_v(v)) == Some(v),
{
    let b = text_block_v(v);
    let p0 = jkey_first("data".spec_bytes());
    let p1 = json_block_v(v);
    let p2 = seq![125u8];
    assert(b =~= p0 + (p1 + (p2)));
    assert(b.subrange(0, p0.len() + (p1 + (p2)).len() as int) =~= b);
    lemma_peel(b, 0, p0, p1 + (p2));
    let j1 = p0.len() as int;
    lemma_peel(b, j1, p1, p2);
    let j2 = j1 + p1.len() as int;
    lemma_p_lit_at(b, 0, p0);
    lemma_t_block_at(v.preset, b, j1, v);
    lemma_p_lit_at(b, j2, p2);
}

#[verifier::rlimit(100)]
pub proof fn lemma_text_block_exact(kind: PresetKind, b: Seq<u8>, v: BeaconBlockV)
    requires
        t_text_block(kind, b) == Some(v),
    ensures
        wf_block_v(v),
        v.preset == kind,
        b == text_block_v(v),
{
    let i0 = p_lit(b, 0, jkey_first("data".spec_bytes()))->Some_0;
    assert(b.subrange(0, i0) == jkey_first("data".spec_bytes()));
    let (x1, i1) = t_block(kind, b, i0)->Some_0;
    lemma_t_block_exact(kind, b, i0, x1, i1);
    let i2 = p_lit(b, i1, seq![125u8])->Some_0;
    assert(b.subrange(i1, i2) == seq![125u8]);
    assert(b =~= b.subrange(0, i0) + b.subrange(i0, i1) + b.subrange(i1, i2));
    assert(b =~= text_block_v(v));
}

impl BeaconBlock {
    /// Encodes to the `{"data": ...}` text form; total on well-formed
    /// instances.
    pub fn to_json(&self) -> (out: Vec<u8>)
        requires
            self.wf(),
        ensures
            out@ == text_block_v(self@),
    {
        let mut out: Vec<u8> = Vec::new();
        push_key_first(&mut out, "data");
        emit_block(self, &mut out);
        out.push(125);
        assert(out@ =~= text_block_v(self@));
        out
    }

    /// Decodes the `{"data": ...}` text form under the given preset;
    /// fails exactly when the bytes are not the canonical text of a
    /// well-formed instance of that preset.
    pub fn from_json(kind: PresetKind, bytes: &[u8]) -> (r: Result<BeaconBlock, Error>)
        ensures
            r is Ok <==> t_text_block(kind, bytes@) is Some,
            r matches Ok(x) ==> Some(x@) == t_text_block(kind, bytes@) && x.wf() && bytes@
                == text_block_v(x@),
            r matches Err(e) ==> e matches Error::MalformedTextEncoding(_),
    {
        let i0 = match expect_key_first(bytes, 0, "data") {
            Some(j) => j,
            None => { return Err(malformed_text()); },
        };
        let (x, i1) = match parse_block(kind, bytes, i0) {
            Some(p) => p,
            None => { return Err(malformed_text()); },
        };
        let i2 = match expect_byte(bytes, i1, 125) {
            Some(j) => j,
            None => { return Err(malformed_text()); },
        };
        if i2 != bytes.len() {
            return Err(malformed_text());
        }
        proof {
            lemma_text_block_exact(kind, bytes@, x@);
        }
        Ok(x)
    }
}

/// The full text form: the shape inside the `{"data": ...}` envelope.
pub open spec fn text_blinded_block_v(v: BlindedBeaconBlockV) -> Seq<u8> {
    jkey_first("data".spec_bytes()) + json_blinded_block_v(v) + seq![125u8]
}

pub open spec fn t_text_blinded_block(kind: PresetKind, b: Seq<u8>) -> Option<BlindedBeaconBlockV> {
    let r0 = p_lit(b, 0, jkey_first("data".spec_bytes()));
    let i0 = r0->Some_0;
    let r1 = t_blinded_block(kind, b, i0);
    let i1 = r1->Some_0.1;
    let r2 = p_lit(b, i1, seq![125u8]);
    let i2 = r2->Some_0;
    if r0 is Some && r1 is Some && r2 is Some && i2 == b.len() {
        Some(r1->Some_0.0)
    } else {
        None
    }
}

/// Round trip of the text codec: decoding an encoded well-formed instance
/// under its own preset gives back exactly that instance.
#[verifier::rlimit(100)]
pub proof fn lemma_text_blinded_block_round_trip(v: BlindedBeaconBlockV)
    requires
        wf_blinded_block_v(v),
    ensures
        t_text_blinded_block(v.preset, text_blinded_block_v(v)) == Some(v),
{
    let b = text_blinded_block_v(v);
    let p0 = jkey_first("data".spec_bytes());
    let p1 = json_blinded_block_v(v);
    let p2 = seq![125u8];
    assert(b =~= p0 + (p1 + (p2)));
    assert(b.subrange(0, p0.len() + (p1 + (p2)).len() as int) =~= b);
    lemma_peel(b, 0, p0, p1 + (p2));
    let j1 = p0.len() as int;
    lemma_peel(b, j1, p1, p2);
    let j2 = j1 + p1.len() as int;
    lemma_p_lit_at(b, 0, p0);
    lemma_t_blinded_block_at(v.preset, b, j1, v);
    lemma_p_lit_at(b, j2, p2);
}

#[verifier::rlimit(100)]
pub proof fn lemma_text_blinded_block_exact(kind: PresetKind, b: Seq<u8>, v: BlindedBeaconBlockV)
    requires
        t_text_blinded_block(kind, b) == Some(v),
    ensures
        wf_blinded_block_v(v),
        v.preset == kind,
        b == text_blinded_block_v(v),
{
    let i0 = p_lit(b, 0, jkey_first("data".spec_bytes()))->Some_0;
    assert(b.subrange(0, i0) == jkey_first("data".spec_bytes()));
    let (x1, i1) = t_blinded_block(kind, b, i0)->Some_0;
    lemma_t_blinded_block_exact(kind, b, i0, x1, i1);
    let i2 = p_lit(b, i1, seq![125u8])->Some_0;
    assert(b.subrange(i1, i2) == seq![125u8]);
    assert(b =~= b.subrange(0, i0) + b.subrange(i0, i1) + b.subrange(i1, i2));
    assert(b =~= text_blinded_block_v(v));
}

impl BlindedBeaconBlock {
    /// Encodes to the `{"data": ...}` text form; total on well-formed
    /// instances.
    pub fn to_json(&self) -> (out: Vec<u8>)
        requires
            self.wf(),
        ensures
            out@ == text_blinded_block_v(self@),
    {
        let mut out: Vec<u8> = Vec::new();
        push_key_first(&mut out, "data");
        emit_blinded_block(self, &mut out);
        out.push(125);
        assert(out@ =~= text_blinded_block_v(self@));
        out
    }

    /// Decodes the `{"data": ...}` text form under the given preset;
    /// fails exactly when the bytes are not the canonical text of a
    /// well-formed instance of that preset.
    pub fn from_json(kind: PresetKind, bytes: &[u8]) -> (r: Result<BlindedBeaconBlock, Error>)
        ensures
            r is Ok <==> t_text_blinded_block(kind, bytes@) is Some,
            r matches Ok(x) ==> Some(x@) == t_text_blinded_block(kind, bytes@) && x.wf() && bytes@
                == text_blinded_block_v(x@),
            r matches Err(e) ==> e matches Error::MalformedTextEncoding(_),
    {
        let i0 = match expect_key_first(bytes, 0, "data") {
            Some(j) => j,
            None => { return Err(malformed_text()); },
        };
        let (x, i1) = match parse_blinded_block(kind, bytes, i0) {
            Some(p) => p,
            None => { return Err(malformed_text()); },
        };
        let i2 = match expect_byte(bytes, i1, 125) {
            Some(j) => j,
            None => { return Err(malformed_text()); },
        };
        if i2 != bytes.len() {
            return Err(malformed_text());
        }
        proof {
            lemma_text_blinded_block_exact(kind, bytes@, x@);
        }
        Ok(x)
    }
}

/// The full text form: the shape inside the `{"data": ...}` envelope.
pub open spec fn text_signed_block_v(v: SignedBeaconBlockV) -> Seq<u8> {
    jkey_first("data".spec_bytes()) + json_signed_block_v(v) + seq![125u8]
}

pub open spec fn t_text_signed_block(kind: PresetKind, b: Seq<u8>) -> Option<SignedBeaconBlockV> {
    let r0 = p_lit(b, 0, jkey_first("data".spec_bytes()));
    let i0 = r0->Some_0;
    let r1 = t_signed_block(kind, b, i0);
    let i1 = r1->Some_0.1;
    let r2 = p_lit(b, i1, seq![125u8]);
    let i2 = r2->Some_0;
    if r0 is Some && r1 is Some && r2 is Some && i2 == b.len() {
        Some(r1->Some_0.0)
    } else {
        None
    }
}

/// Round trip of the text codec: decoding an encoded well-formed instance
/// under its own preset gives back exactly that instance.
#[verifier::rlimit(100)]
pub proof fn lemma_text_signed_block_round_trip(v: SignedBeaconBlockV)
    requires
        wf_signed_block_v(v),
    ensures
        t_text_signed_block(v.message.preset, text_signed_block_v(v)) == Some(v),
{
    let b = text_signed_block_v(v);
    let p0 = jkey_first("data".spec_bytes());
    let p1 = json_signed_block_v(v);
    let p2 = seq![125u8];
    assert(b =~= p0 + (p1 + (p2)));
    assert(b.subrange(0, p0.len() + (p1 + (p2)).len() as int) =~= b);
    lemma_peel(b, 0, p0, p1 + (p2));
    let j1 = p0.len() as int;
    lemma_peel(b, j1, p1, p2);
    let j2 = j1 + p1.len() as int;
    lemma_p_lit_at(b, 0, p0);
    lemma_t_signed_block_at(v.message.preset, b, j1, v);
    lemma_p_lit_at(b, j2, p2);
}

#[verifier::rlimit(100)]
pub proof fn lemma_text_signed_block_exact(kind: PresetKind, b: Seq<u8>, v: SignedBeaconBlockV)
    requires
        t_text_signed_block(kind, b) == Some(v),
    ensures
        wf_signed_block_v(v),
        v.message.preset == kind,
        b == text_signed_block_v(v),
{
    let i0 = p_lit(b, 0, jkey_first("data".spec_bytes()))->Some_0;
    assert(b.subrange(0, i0) == jkey_first("data".spec_bytes()));
    let (x1, i1) = t_signed_block(kind, b, i0)->Some_0;
    lemma_t_signed_block_exact(kind, b, i0, x1, i1);
    let i2 = p_lit(b, i1, seq![125u8])->Some_0;
    assert(b.subrange(i1, i2) == seq![125u8]);
    assert(b =~= b.subrange(0, i0) + b.subrange(i0, i1) + b.subrange(i1, i2));
    assert(b =~= text_signed_block_v(v));
}

impl SignedBeaconBlock {
    /// Encodes to the `{"data": ...}` text form; total on well-formed
    /// instances.
    pub fn to_json(&self) -> (out: Vec<u8>)
        requires
            self.wf(),
        ensures
            out@ == text_signed_block_v(self@),
    {
        let mut out: Vec<u8> = Vec::new();
        push_key_first(&mut out, "data");
        emit_signed_block(self, &mut out);
        out.push(125);
        assert(out@ =~= text_signed_block_v(self@));
        out
    }

    /// Decodes the `{"data": ...}` text form under the given preset;
    /// fails exactly when the bytes are not the canonical text of a
    /// well-formed instance of that preset.
    pub fn from_json(kind: PresetKind, bytes: &[u8]) -> (r: Result<SignedBeaconBlock, Error>)
        ensures
            r is Ok <==> t_text_signed_block(kind, bytes@) is Some,
            r matches Ok(x) ==> Some(x@) == t_text_signed_block(kind, bytes@) && x.wf() && bytes@
                == text_signed_block_v(x@),
            r matches Err(e) ==> e matches Error::MalformedTextEncoding(_),
    {
        let i0 = match expect_key_first(bytes, 0, "data") {
            Some(j) => j,
            None => { return Err(malformed_text()); },
        };
        let (x, i1) = match parse_signed_block(kind, bytes, i0) {
            Some(p) => p,
            None => { return Err(malformed_text()); },
        };
        let i2 = match expect_byte(bytes, i1, 125) {
            Some(j) => j,
            None => { return Err(malformed_text()); },
        };
        if i2 != bytes.len() {
            return Err(malformed_text());
        }
        proof {
            lemma_text_signed_block_exact(kind, bytes@, x@);
        }
        Ok(x)
    }
}

/// The full text form: the shape inside the `{"data": ...}` envelope.
pub open spec fn text_signed_blinded_block_v(v: SignedBlindedBeaconBlockV) -> Seq<u8> {
    jkey_first("data".spec_bytes()) + json_signed_blinded_block_v(v) + seq![125u8]
}

pub open spec fn t_text_signed_blinded_block(kind: PresetKind, b: Seq<u8>) -> Option<SignedBlindedBeaconBlockV> {
    let r0 = p_lit(b, 0, jkey_first("data".spec_bytes()));
    let i0 = r0->Some_0;
    let r1 = t_signed_blinded_block(kind, b, i0);
    let i1 = r1->Some_0.1;
    let r2 = p_lit(b, i1, seq![125u8]);
    let i2 = r2->Some_0;
    if r0 is Some && r1 is Some && r2 is Some && i2 == b.len() {
        Some(r1->Some_0.0)
    } else {
        None
    }
}

/// Round trip of the text codec: decoding an encoded well-formed instance
/// under its own preset gives back exactly that instance.
#[verifier::rlimit(100)]
pub proof fn lemma_text_signed_blinded_block_round_trip(v: SignedBlindedBeaconBlockV)
    requires
        wf_signed_blinded_block_v(v),
    ensures
        t_text_signed_blinded_block(v.message.preset, text_signed_blinded_block_v(v)) == Some(v),
{
    let b = text_signed_blinded_block_v(v);
    let p0 = jkey_first("data".spec_bytes());
    let p1 = json_signed_blinded_block_v(v);
    let p2 = seq![125u8];
    assert(b =~= p0 + (p1 + (p2)));
    assert(b.subrange(0, p0.len() + (p1 + (p2)).len() as int) =~= b);
    lemma_peel(b, 0, p0, p1 + (p2));
    let j1 = p0.len() as int;
    lemma_peel(b, j1, p1, p2);
    let j2 = j1 + p1.len() as int;
    lemma_p_lit_at(b, 0, p0);
    lemma_t_signed_blinded_block_at(v.message.preset, b, j1, v);
    lemma_p_lit_at(b, j2, p2);
}

#[verifier::rlimit(100)]
pub proof fn lemma_text_signed_blinded_block_exact(kind: PresetKind, b: Seq<u8>, v: SignedBlindedBeaconBlockV)
    requires
        t_text_signed_blinded_block(kind, b) == Some(v),
    ensures
        wf_signed_blinded_block_v(v),
        v.message.preset == kind,
        b == text_signed_blinded_block_v(v),
{
    let i0 = p_lit(b, 0, jkey_first("data".spec_bytes()))->Some_0;
    assert(b.subrange(0, i0) == jkey_first("data".spec_bytes()));
    let (x1, i1) = t_signed_blinded_block(kind, b, i0)->Some_0;
    lemma_t_signed_blinded_block_exact(kind, b, i0, x1, i1);
    let i2 = p_lit(b, i1, seq![125u8])->Some_0;
    assert(b.subrange(i1, i2) == seq![125u8]);
    assert(b =~= b.subrange(0, i0) + b.subrange(i0, i1) + b.subrange(i1, i2));
    assert(b =~= text_signed_blinded_block_v(v));
}

impl SignedBlindedBeaconBlock {
    /// Encodes to the `{"data": ...}` text form; total on well-formed
    /// instances.
    pub fn to_json(&self) -> (out: Vec<u8>)
        requires
            self.wf(),
        ensures
            out@ == text_signed_blinded_block_v(self@),
    {
        let mut out: Vec<u8> = Vec::new();
        push_key_first(&mut out, "data");
        emit_signed_blinded_block(self, &mut out);
        out.push(125);
        assert(out@ =~= text_signed_blinded_block_v(self@));
        out
    }

    /// Decodes the `{"data": ...}` text form under the given preset;
    /// fails exactly when the bytes are not the canonical text of a
    /// well-formed instance of that preset.
    pub fn from_json(kind: PresetKind, bytes: &[u8]) -> (r: Result<SignedBlindedBeaconBlock, Error>)
        ensures
            r is Ok <==> t_text_signed_blinded_block(kind, bytes@) is Some,
            r matches Ok(x) ==> Some(x@) == t_text_signed_blinded_block(kind, bytes@) && x.wf() && bytes@
                == text_signed_blinded_block_v(x@),
            r matches Err(e) ==> e matches Error::MalformedTextEncoding(_),
    {
        let i0 = match expect_key_first(bytes, 0, "data") {
            Some(j) => j,
            None => { return Err(malformed_text()); },
        };
        let (x, i1) = match parse_signed_blinded_block(kind, bytes, i0) {
            Some(p) => p,
            None => { return Err(malformed_text()); },
        };
        let i2 = match expect_byte(bytes, i1, 125) {
            Some(j) => j,
            None => { return Err(malformed_text()); },
        };
        if i2 != bytes.len() {
            return Err(malformed_text());
        }
        proof {
            lemma_text_signed_blinded_block_exact(kind, bytes@, x@);
        }
        Ok(x)
    }
}

/// The full text form: the shape inside the `{"data": ...}` envelope.
pub open spec fn text_contents_v(v: BeaconBlockContentsV) -> Seq<u8> {
    jkey_first("data".spec_bytes()) + json_contents_v(v) + seq![125u8]
}

pub open spec fn t_text_contents(kind: PresetKind, b: Seq<u8>) -> Option<BeaconBlockContentsV> {
    let r0 = p_lit(b, 0, jkey_first("data".spec_bytes()));
    let i0 = r0->Some_0;
    let r1 = t_contents(kind, b, i0);
    let i1 = r1->Some_0.1;
    let r2 = p_lit(b, i1, seq![125u8]);
    let i2 = r2->Some_0;
    if r0 is Some && r1 is Some && r2 is Some && i2 == b.len() {
        Some(r1->Some_0.0)
    } else {
        None
    }
}

/// Round trip of the text codec: decoding an encoded well-formed instance
/// under its own preset gives back exactly that instance.
#[verifier::rlimit(100)]
pub proof fn lemma_text_contents_round_trip(v: BeaconBlockContentsV)
    requires
        wf_contents_v(v),
    ensures
        t_text_contents(v.block.preset, text_contents_v(v)) == Some(v),
{
    let b = text_contents_v(v);
    let p0 = jkey_first("data".spec_bytes());
    let p1 = json_contents_v(v);
    let p2 = seq![125u8];
    assert(b =~= p0 + (p1 + (p2)));
    assert(b.subrange(0, p0.len() + (p1 + (p2)).len() as int) =~= b);
    lemma_peel(b, 0, p0, p1 + (p2));
    let j1 = p0.len() as int;
    lemma_peel(b, j1, p1, p2);
    let j2 = j1 + p1.len() as int;
    lemma_p_lit_at(b, 0, p0);
    lemma_t_contents_at(v.block.preset, b, j1, v);
    lemma_p_lit_at(b, j2, p2);
}

#[verifier::rlimit(100)]
pub proof fn lemma_text_contents_exact(kind: PresetKind, b: Seq<u8>, v: BeaconBlockContentsV)
    requires
        t_text_contents(kind, b) == Some(v),
    ensures
        wf_contents_v(v),
        v.block.preset == kind,
        b == text_contents_v(v),
{
    let i0 = p_lit(b, 0, jkey_first("data".spec_bytes()))->Some_0;
    assert(b.subrange(0, i0) == jkey_first("data".spec_bytes()));
    let (x1, i1) = t_contents(kind, b, i0)->Some_0;
    lemma_t_contents_exact(kind, b, i0, x1, i1);
    let i2 = p_lit(b, i1, seq![125u8])->Some_0;
    assert(b.subrange(i1, i2) == seq![125u8]);
    assert(b =~= b.subrange(0, i0) + b.subrange(i0, i1) + b.subrange(i1, i2));
    assert(b =~= text_contents_v(v));
}

impl BeaconBlockContents {
    /// Encodes to the `{"data": ...}` text form; total on well-formed
    /// instances.
    pub fn to_json(&self) -> (out: Vec<u8>)
        requires
            self.wf(),
        ensures
            out@ == text_contents_v(self@),
    {
        let mut out: Vec<u8> = Vec::new();
        push_key_first(&mut out, "data");
        emit_contents(self, &mut out);
        out.push(125);
        assert(out@ =~= text_contents_v(self@));
        out
    }

    /// Decodes the `{"data": ...}` text form under the given preset;
    /// fails exactly when the bytes are not the canonical text of a
    /// well-formed instance of that preset.
    pub fn from_json(kind: PresetKind, bytes: &[u8]) -> (r: Result<BeaconBlockContents, Error>)
        ensures
            r is Ok <==> t_text_contents(kind, bytes@) is Some,
            r matches Ok(x) ==> Some(x@) == t_text_contents(kind, bytes@) && x.wf() && bytes@
                == text_contents_v(x@),
            r matches Err(e) ==> e matches Error::MalformedTextEncoding(_),
    {
        let i0 = match expect_key_first(bytes, 0, "data") {
            Some(j) => j,
            None => { return Err(malformed_text()); },
        };
        let (x, i1) = match parse_contents(kind, bytes, i0) {
            Some(p) => p,
            None => { return Err(malformed_text()); },
        };
        let i2 = match expect_byte(bytes, i1, 125) {
            Some(j) => j,
            None => { return Err(malformed_text()); },
        };
        if i2 != bytes.len() {
            return Err(malformed_text());
        }
        proof {
            lemma_text_contents_exact(kind, bytes@, x@);
        }
        Ok(x)
    }
}

/// The full text form: the shape inside the `{"data": ...}` envelope.
pub open spec fn text_signed_contents_v(v: SignedBeaconBlockContentsV) -> Seq<u8> {
    jkey_first("data".spec_bytes()) + json_signed_contents_v(v) + seq![125u8]
}

pub open spec fn t_text_signed_contents(kind: PresetKind, b: Seq<u8>) -> Option<SignedBeaconBlockContentsV> {
    let r0 = p_lit(b, 0, jkey_first("data".spec_bytes()));
    let i0 = r0->Some_0;
    let r1 = t_signed_contents(kind, b, i0);
    let i1 = r1->Some_0.1;
    let r2 = p_lit(b, i1, seq![125u8]);
    let i2 = r2->Some_0;
    if r0 is Some && r1 is Some && r2 is Some && i2 == b.len() {
        Some(r1->Some_0.0)
    } else {
        None
    }
}

/// Round trip of the text codec: decoding an encoded well-formed instance
/// under its own preset gives back exactly that instance.
#[verifier::rlimit(100)]
pub proof fn lemma_text_signed_contents_round_trip(v: SignedBeaconBlockContentsV)
    requires
        wf_signed_contents_v(v),
    ensures
        t_text_signed_contents(v.signed_block.message.preset, text_signed_contents_v(v)) == Some(v),
{
    let b = text_signed_contents_v(v);
    let p0 = jkey_first("data".spec_bytes());
    let p1 = json_signed_contents_v(v);
    let p2 = seq![125u8];
    assert(b =~= p0 + (p1 + (p2)));
    assert(b.subrange(0, p0.len() + (p1 + (p2)).len() as int) =~= b);
    lemma_peel(b, 0, p0, p1 + (p2));
    let j1 = p0.len() as int;
    lemma_peel(b, j1, p1, p2);
    let j2 = j1 + p1.len() as int;
    lemma_p_lit_at(b, 0, p0);
    lemma_t_signed_contents_at(v.signed_block.message.preset, b, j1, v);
    lemma_p_lit_at(b, j2, p2);
}

#[verifier::rlimit(100)]
pub proof fn lemma_text_signed_contents_exact(kind: PresetKind, b: Seq<u8>, v: SignedBeaconBlockContentsV)
    requires
        t_text_signed_contents(kind, b) == Some(v),
    ensures
        wf_signed_contents_v(v),
        v.signed_block.message.preset == kind,
        b == text_signed_contents_v(v),
{
    let i0 = p_lit(b, 0, jkey_first("data".spec_bytes()))->Some_0;
    assert(b.subrange(0, i0) == jkey_first("data".spec_bytes()));
    let (x1, i1) = t_signed_contents(kind, b, i0)->Some_0;
    lemma_t_signed_contents_exact(kind, b, i0, x1, i1);
    let i2 = p_lit(b, i1, seq![125u8])->Some_0;
    assert(b.subrange(i1, i2) == seq![125u8]);
    assert(b =~= b.subrange(0, i0) + b.subrange(i0, i1) + b.subrange(i1, i2));
    assert(b =~= text_signed_contents_v(v));
}

impl SignedBeaconBlockContents {
    /// Encodes to the `{"data": ...}` text form; total on well-formed
    /// instances.
    pub fn to_json(&self) -> (out: Vec<u8>)
        requires
            self.wf(),
        ensures
            out@ == text_signed_contents_v(self@),
    {
        let mut out: Vec<u8> = Vec::new();
        push_key_first(&mut out, "data");
        emit_signed_contents(self, &mut out);
        out.push(125);
        assert(out@ =~= text_signed_contents_v(self@));
        out
    }

    /// Decodes the `{"data": ...}` text form under the given preset;
    /// fails exactly when the bytes are not the canonical text of a
    /// well-formed instance of that preset.
    pub fn from_json(kind: PresetKind, bytes: &[u8]) -> (r: Result<SignedBeaconBlockContents, Error>)
        ensures
            r is Ok <==> t_text_signed_contents(kind, bytes@) is Some,
            r matches Ok(x) ==> Some(x@) == t_text_signed_contents(kind, bytes@) && x.wf() && bytes@
                == text_signed_contents_v(x@),
            r matches Err(e) ==> e matches Error::MalformedTextEncoding(_),
    {
        let i0 = match expect_key_first(bytes, 0, "data") {
            Some(j) => j,
            None => { return Err(malformed_text()); },
        };
        let (x, i1) = match parse_signed_contents(kind, bytes, i0) {
            Some(p) => p,
            None => { return Err(malformed_text()); },
        };
        let i2 = match expect_byte(bytes, i1, 125) {
            Some(j) => j,
            None => { return Err(malformed_text()); },
        };
        if i2 != bytes.len() {
            return Err(malformed_text());
        }
        proof {
            lemma_text_signed_contents_exact(kind, bytes@, x@);
        }
        Ok(x)
    }
}

fn malformed_text() -> (e: Error)
    ensures
        e matches Error::MalformedTextEncoding(_),
{
    Error::MalformedTextEncoding("text input is not the canonical envelope of this shape".to_owned())
}


} // verus!
