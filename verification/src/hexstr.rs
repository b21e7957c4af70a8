//! Hex and decimal text forms of byte strings and integers.
//!
//! Byte strings are rendered as lowercase hex, two digits per byte; hex input
//! accepts both cases. Integers are rendered as plain decimal. The spec
//! functions here give the exact correspondence, and the executable paths are
//! either verified against them or rely on the `hex` crate where the original
//! representation work is done there.

use vstd::prelude::*;

verus! {

/// Decimal digit bytes: `'0'` to `'9'`.
pub open spec fn is_dec_digit(c: u8) -> bool {
    48 <= c <= 57
}

/// Hex digit bytes of either case.
pub open spec fn is_hex_digit(c: u8) -> bool {
    (48 <= c <= 57) || (97 <= c <= 102) || (65 <= c <= 70)
}

/// The value of one hex digit byte.
pub open spec fn hex_val(c: u8) -> u8
    recommends
        is_hex_digit(c),
{
    if 48 <= c <= 57 {
        (c - 48) as u8
    } else if 97 <= c <= 102 {
        (c - 87) as u8
    } else {
        (c - 55) as u8
    }
}

/// A byte string is valid hex text when its length is even and every byte is
/// a hex digit of either case.
pub open spec fn valid_hex(s: Seq<u8>) -> bool {
    &&& s.len() % 2 == 0
    &&& forall|i: int| 0 <= i < s.len() ==> is_hex_digit(#[trigger] s[i])
}

/// The bytes a valid hex text denotes, two digits a byte.
pub open spec fn hex_decoded(s: Seq<u8>) -> Seq<u8>
    recommends
        valid_hex(s),
{
    Seq::new(
        s.len() / 2,
        |i: int| ((hex_val(s[2 * i]) as int) * 16 + hex_val(s[2 * i + 1]) as int) as u8,
    )
}

/// The lowercase hex digit byte of a value below 16.
pub open spec fn lower_hex_digit(n: u8) -> u8
    recommends
        n < 16,
{
    if n < 10 {
        (48 + n) as u8
    } else {
        (87 + n) as u8
    }
}

/// The lowercase hex text of a byte string, two digits a byte.
pub open spec fn hex_bytes_of(b: Seq<u8>) -> Seq<u8> {
    Seq::new(
        2 * b.len(),
        |i: int|
            if i % 2 == 0 {
                lower_hex_digit(b[i / 2] / 16)
            } else {
                lower_hex_digit(b[i / 2] % 16)
            },
    )
}

/// The characters of an ASCII byte string.
pub open spec fn chars_of_bytes(b: Seq<u8>) -> Seq<char> {
    Seq::new(b.len(), |i: int| b[i] as char)
}

/// Lowercase hex text is valid hex and denotes the bytes it was made from.
pub proof fn lemma_hex_bytes_round_trip(b: Seq<u8>)
    ensures
        valid_hex(hex_bytes_of(b)),
        hex_decoded(hex_bytes_of(b)) == b,
{
    let h = hex_bytes_of(b);
    assert forall|i: int| 0 <= i < h.len() implies is_hex_digit(#[trigger] h[i]) by {
        if i % 2 == 0 {
            assert(b[i / 2] / 16 < 16);
        } else {
            assert(b[i / 2] % 16 < 16);
        }
    }
    assert forall|i: int| 0 <= i < b.len() implies #[trigger] hex_decoded(h)[i] == b[i] by {
        assert((2 * i) % 2 == 0 && (2 * i + 1) % 2 == 1 && (2 * i) / 2 == i && (2 * i + 1) / 2
            == i);
        assert(h[2 * i] == lower_hex_digit(b[i] / 16));
        assert(h[2 * i + 1] == lower_hex_digit(b[i] % 16));
        assert(hex_val(lower_hex_digit(b[i] / 16)) == b[i] / 16);
        assert(hex_val(lower_hex_digit(b[i] % 16)) == b[i] % 16);
        assert((b[i] / 16) as int * 16 + (b[i] % 16) as int == b[i] as int);
    }
    assert(hex_decoded(h) =~= b);
}

/// Lowercase hex digit bytes: the canonical text form this crate emits.
pub open spec fn is_lower_hex_digit(c: u8) -> bool {
    (48 <= c <= 57) || (97 <= c <= 102)
}

/// A byte string is canonical hex text when its length is even and every
/// byte is a lowercase hex digit.
pub open spec fn lower_hex(s: Seq<u8>) -> bool {
    &&& s.len() % 2 == 0
    &&& forall|i: int| 0 <= i < s.len() ==> is_lower_hex_digit(#[trigger] s[i])
}

/// Canonical hex text is exactly the lowercase rendering of what it denotes.
pub proof fn lemma_lower_hex_identity(s: Seq<u8>)
    requires
        lower_hex(s),
    ensures
        hex_bytes_of(hex_decoded(s)) == s,
{
    let b = hex_decoded(s);
    assert forall|i: int| 0 <= i < s.len() implies #[trigger] hex_bytes_of(b)[i] == s[i] by {
        let j = i / 2;
        assert(is_lower_hex_digit(s[2 * j]) && is_lower_hex_digit(s[2 * j + 1]));
        assert(b[j] == ((hex_val(s[2 * j]) as int) * 16 + hex_val(s[2 * j + 1]) as int) as u8);
        assert(hex_val(s[2 * j]) < 16 && hex_val(s[2 * j + 1]) < 16);
        assert(b[j] / 16 == hex_val(s[2 * j]) && b[j] % 16 == hex_val(s[2 * j + 1]));
        assert(lower_hex_digit(hex_val(s[2 * j])) == s[2 * j]);
        assert(lower_hex_digit(hex_val(s[2 * j + 1])) == s[2 * j + 1]);
        if i % 2 == 0 {
            assert(i == 2 * j);
        } else {
            assert(i == 2 * j + 1);
        }
    }
    assert(hex_bytes_of(b) =~= s);
}

/// The decimal digit bytes of a number, most significant first.
pub open spec fn dec_bytes_of(n: nat) -> Seq<u8>
    decreases n,
{
    if n < 10 {
        seq![(48 + n) as u8]
    } else {
        dec_bytes_of(n / 10).push((48 + n % 10) as u8)
    }
}

/// Every byte of a decimal rendering is a decimal digit, and the first is not
/// `'0'` unless the number is below ten.
pub proof fn lemma_dec_bytes_digits(n: nat)
    ensures
        dec_bytes_of(n).len() >= 1,
        forall|i: int| 0 <= i < dec_bytes_of(n).len() ==> is_dec_digit(#[trigger] dec_bytes_of(n)[i]),
        n >= 10 ==> dec_bytes_of(n)[0] != 48,
        n < 10 ==> dec_bytes_of(n) == seq![(48 + n) as u8],
    decreases n,
{
    if n >= 10 {
        lemma_dec_bytes_digits(n / 10);
        assert(n / 10 >= 1);
    }
}

/// Appends the decimal digits of `n`.
pub fn push_decimal(out: &mut Vec<u8>, n: u64)
    ensures
        final(out)@ == old(out)@ + dec_bytes_of(n as nat),
    decreases n,
{
    if n < 10 {
        out.push(48 + n as u8);
        assert(final(out)@ =~= old(out)@ + dec_bytes_of(n as nat));
    } else {
        push_decimal(out, n / 10);
        out.push(48 + (n % 10) as u8);
        assert(final(out)@ =~= old(out)@ + dec_bytes_of(n as nat));
    }
}

/// Appends the lowercase hex digits of `data`.
pub fn push_hex(out: &mut Vec<u8>, data: &[u8])
    ensures
        final(out)@ == old(out)@ + hex_bytes_of(data@),
{
    let ghost base = out@;
    let len = data.len();
    let mut i: usize = 0;
    while i < len
        invariant
            0 <= i <= len,
            len == data@.len(),
            out@ == base + hex_bytes_of(data@).take(2 * i as int),
        decreases len - i,
    {
        let b = data[i];
        let hi = b / 16;
        let lo = b % 16;
        out.push(if hi < 10 { 48 + hi } else { 87 + hi });
        out.push(if lo < 10 { 48 + lo } else { 87 + lo });
        proof {
            assert((2 * i as int) % 2 == 0 && (2 * i as int + 1) % 2 == 1 && (2 * i as int) / 2
                == i && (2 * i as int + 1) / 2 == i);
            assert(out@ =~= base + hex_bytes_of(data@).take(2 * (i + 1) as int));
        }
        i += 1;
    }
    assert(hex_bytes_of(data@).take(2 * len as int) =~= hex_bytes_of(data@));
}

/// Relies on `hex::encode`: the lowercase hex string of the input, two digits
/// for each byte.
#[verifier::external_body]
pub(crate) fn hex_encode(data: &[u8]) -> (r: String)
    ensures
        r@ == chars_of_bytes(hex_bytes_of(data@)),
{
    hex::encode(data)
}

/// Relies on `hex::decode`: succeeds exactly on even-length text made of hex
/// digits of either case, and then returns the denoted bytes.
#[verifier::external_body]
pub(crate) fn hex_decode(data: &[u8]) -> (r: Option<Vec<u8>>)
    ensures
        r is Some <==> valid_hex(data@),
        r matches Some(v) ==> v@ == hex_decoded(data@),
{
    hex::decode(data).ok()
}

/// Relies on `String::from_utf8`: ASCII bytes are valid UTF-8 and give the
/// string of exactly those characters.
#[verifier::external_body]
pub(crate) fn ascii_to_string(bytes: Vec<u8>) -> (r: String)
    requires
        forall|i: int| 0 <= i < bytes@.len() ==> bytes@[i] < 128,
    ensures
        r@ == chars_of_bytes(bytes@),
{
    String::from_utf8(bytes).unwrap_or_default()
}

} // verus!
