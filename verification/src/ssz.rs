//! The binary codec of the container family.
//!
//! The wire format is a length-prefixed, fixed/variable-field binary encoding:
//! fixed-size fields lie at fixed offsets in declaration order; every
//! variable-length field is introduced by a little-endian 32-bit length or
//! element count. Decoding checks each count against the capacity table of
//! the preset the caller binds the bytes to, and rejects trailing bytes.
//! Encoding is total on well-formed instances, and decoding is its exact
//! inverse; the round-trip and exactness lemmas at the end of the module
//! state both directions.

use vstd::prelude::*;

use vstd::bytes::lemma_auto_spec_u32_to_from_le_bytes;
use vstd::bytes::lemma_auto_spec_u64_to_from_le_bytes;
use vstd::bytes::spec_u32_from_le_bytes;
use vstd::bytes::spec_u32_to_le_bytes;
use vstd::bytes::spec_u64_from_le_bytes;
use vstd::bytes::spec_u64_to_le_bytes;
use vstd::bytes::u32_from_le_bytes;
use vstd::bytes::u32_to_le_bytes;
use vstd::bytes::u64_from_le_bytes;
use vstd::bytes::u64_to_le_bytes;
use vstd::slice::slice_subrange;
use vstd::slice::slice_to_vec;

use crate::Error;
use crate::container::BeaconBlock;
use crate::container::BeaconBlockContents;
use crate::container::BeaconBlockContentsV;
use crate::container::BeaconBlockV;
use crate::container::Blob;
use crate::container::BlindedBeaconBlock;
use crate::container::BlindedBeaconBlockV;
use crate::container::BlindedBlockBody;
use crate::container::BlindedBlockBodyV;
use crate::container::BlockBody;
use crate::container::BlockBodyV;
use crate::container::KzgProof;
use crate::container::Root;
use crate::container::Signature;
use crate::container::SignedBeaconBlock;
use crate::container::SignedBeaconBlockContents;
use crate::container::SignedBeaconBlockContentsV;
use crate::container::SignedBeaconBlockV;
use crate::container::SignedBlindedBeaconBlock;
use crate::container::SignedBlindedBeaconBlockV;
use crate::container::seq_views;
use crate::container::wf_blinded_block_v;
use crate::container::wf_block_v;
use crate::container::wf_body_v;
use crate::container::wf_contents_v;
use crate::container::wf_sidecars_v;
use crate::container::wf_signed_block_v;
use crate::container::wf_signed_blinded_block_v;
use crate::container::wf_signed_contents_v;
use crate::preset::spec_bytes_per_blob;
use crate::preset::spec_max_blob_commitments;
use crate::preset::PresetKind;
use crate::preset::preset_table;
use crate::preset::spec_max_payload_bytes;

verus! {

/// Concatenation of a sequence of byte strings, in order.
pub open spec fn cat(s: Seq<Seq<u8>>) -> Seq<u8>
    decreases s.len(),
{
    if s.len() == 0 {
        Seq::empty()
    } else {
        s[0] + cat(s.drop_first())
    }
}

pub proof fn lemma_cat_push(s: Seq<Seq<u8>>, x: Seq<u8>)
    ensures
        cat(s.push(x)) == cat(s) + x,
    decreases s.len(),
{
    if s.len() == 0 {
        let t = s.push(x);
        assert(t.drop_first() =~= Seq::<Seq<u8>>::empty());
        assert(cat(t.drop_first()) =~= Seq::<u8>::empty());
        assert(cat(t) == t[0] + cat(t.drop_first()));
        assert(cat(s.push(x)) =~= cat(s) + x);
    } else {
        lemma_cat_push(s.drop_first(), x);
        assert(s.push(x).drop_first() =~= s.drop_first().push(x));
        assert(cat(s.push(x)) =~= cat(s) + x);
    }
}

pub proof fn lemma_cat_len(s: Seq<Seq<u8>>, l: nat)
    requires
        forall|i: int| 0 <= i < s.len() ==> (#[trigger] s[i]).len() == l,
    ensures
        cat(s).len() == s.len() * l,
    decreases s.len(),
{
    if s.len() == 0 {
    } else {
        lemma_cat_len(s.drop_first(), l);
        let m = s.len();
        assert((m - 1) * l == m * l - l) by (nonlinear_arith)
            requires
                m >= 1,
        ;
    }
}

pub proof fn lemma_cat_index(s: Seq<Seq<u8>>, l: nat, i: int)
    requires
        l > 0,
        forall|j: int| 0 <= j < s.len() ==> (#[trigger] s[j]).len() == l,
        0 <= i < s.len(),
    ensures
        cat(s).subrange(l * i, l * i + l as int) == s[i],
    decreases i,
{
    lemma_cat_len(s, l);
    assert(cat(s).len() == s.len() * l);
    let m = s.len();
    assert(l * m == m * l && l * (i + 1) <= l * m) by (nonlinear_arith)
        requires
            l > 0 && 0 <= i < m,
    ;
    if i == 0 {
        assert(l as int * i == 0) by (nonlinear_arith)
            requires
                i == 0,
        ;
        assert(cat(s).subrange(0, l as int) =~= s[0]);
    } else {
        lemma_cat_index(s.drop_first(), l, i - 1);
        lemma_cat_len(s.drop_first(), l);
        assert(l * (i - 1) == l * i - l && l * (i - 1) + l <= (m - 1) * l) by (nonlinear_arith)
            requires
                l > 0 && 1 <= i < m,
        ;
        assert(cat(s) == s[0] + cat(s.drop_first()));
        assert(cat(s).subrange(l * i, l * i + l as int) =~= cat(s.drop_first()).subrange(
            l * (i - 1),
            l * (i - 1) + l as int,
        ));
        assert(s.drop_first()[i - 1] == s[i]);
    }
}

/// The byte string `b` cut into `n` pieces of `l` bytes each.
pub open spec fn dec_chunks(b: Seq<u8>, l: nat, n: nat) -> Seq<Seq<u8>> {
    Seq::new(n, |i: int| b.subrange(l * i, l * i + l as int))
}

pub proof fn lemma_cat_of_chunks(b: Seq<u8>, l: nat, n: nat)
    requires
        l > 0,
        b.len() == n * l,
    ensures
        cat(dec_chunks(b, l, n)) == b,
    decreases n,
{
    if n == 0 {
        assert(n * l == 0) by (nonlinear_arith)
            requires
                n == 0,
        ;
        assert(cat(dec_chunks(b, l, n)) =~= b);
    } else {
        assert(l <= n * l && (n - 1) * l == n * l - l) by (nonlinear_arith)
            requires
                l > 0 && n >= 1,
        ;
        let rest = b.subrange(l as int, b.len() as int);
        lemma_cat_of_chunks(rest, l, (n - 1) as nat);
        assert forall|i: int| 0 <= i < n - 1 implies #[trigger] dec_chunks(b, l, n).drop_first()[i]
            == dec_chunks(rest, l, (n - 1) as nat)[i] by {
            assert(l * (i + 1) == l * i + l && l * (i + 1) + l <= n * l) by (nonlinear_arith)
                requires
                    l > 0 && 0 <= i < n - 1,
            ;
            assert(dec_chunks(b, l, n).drop_first()[i] == b.subrange(
                l * (i + 1),
                l * (i + 1) + l as int,
            ));
            assert(rest.subrange(l * i, l * i + l as int) =~= b.subrange(
                l * (i + 1),
                l * (i + 1) + l as int,
            ));
        }
        assert(dec_chunks(b, l, n).drop_first() =~= dec_chunks(rest, l, (n - 1) as nat));
        assert(dec_chunks(b, l, n)[0] == b.subrange(l as int * 0, l as int * 0 + l as int));
        assert(b.subrange(0, l as int) + rest =~= b);
        assert(cat(dec_chunks(b, l, n)) =~= b);
    }
}

pub proof fn lemma_chunks_of_cat(s: Seq<Seq<u8>>, l: nat)
    requires
        l > 0,
        forall|i: int| 0 <= i < s.len() ==> (#[trigger] s[i]).len() == l,
    ensures
        dec_chunks(cat(s), l, s.len()) == s,
{
    lemma_cat_len(s, l);
    assert forall|i: int| 0 <= i < s.len() implies #[trigger] dec_chunks(cat(s), l, s.len())[i]
        == s[i] by {
        lemma_cat_index(s, l, i);
    }
    assert(dec_chunks(cat(s), l, s.len()) =~~= s);
}

// ---------------------------------------------------------------------------
// Shape encodings, at the level of views.
// ---------------------------------------------------------------------------

/// Full body: signature bytes, graffiti, then the length-prefixed payload.
pub open spec fn enc_body_v(v: BlockBodyV) -> Seq<u8> {
    v.randao_reveal + v.graffiti + spec_u32_to_le_bytes(v.payload.len() as u32) + v.payload
}

/// Full block: slot, proposer index, parent root, state root, body.
pub open spec fn enc_block_v(v: BeaconBlockV) -> Seq<u8> {
    spec_u64_to_le_bytes(v.slot) + spec_u64_to_le_bytes(v.proposer_index) + v.parent_root
        + v.state_root + enc_body_v(v.body)
}

/// Byte offset of the body inside an encoded full block.
pub open spec fn block_body_offset() -> int {
    80
}

/// Number of bytes of a full body before its payload: 96 + 32 + 4.
pub open spec fn body_fixed_len() -> int {
    132
}

pub open spec fn dec_body_v(kind: PresetKind, b: Seq<u8>) -> Option<BlockBodyV> {
    if b.len() < body_fixed_len() {
        None
    } else {
        let n = spec_u32_from_le_bytes(b.subrange(128, 132));
        if n <= spec_max_payload_bytes(kind) && b.len() == body_fixed_len() + n {
            Some(
                BlockBodyV {
                    randao_reveal: b.subrange(0, 96),
                    graffiti: b.subrange(96, 128),
                    payload: b.subrange(body_fixed_len(), b.len() as int),
                },
            )
        } else {
            None
        }
    }
}

pub open spec fn dec_block_v(kind: PresetKind, b: Seq<u8>) -> Option<BeaconBlockV> {
    if b.len() < block_body_offset() {
        None
    } else {
        match dec_body_v(kind, b.subrange(block_body_offset(), b.len() as int)) {
            None => None,
            Some(body) => Some(
                BeaconBlockV {
                    preset: kind,
                    slot: spec_u64_from_le_bytes(b.subrange(0, 8)),
                    proposer_index: spec_u64_from_le_bytes(b.subrange(8, 16)),
                    parent_root: b.subrange(16, 48),
                    state_root: b.subrange(48, 80),
                    body,
                },
            ),
        }
    }
}

/// Decoding an encoded well-formed body gives back exactly that body.
pub proof fn lemma_body_round_trip(kind: PresetKind, v: BlockBodyV)
    requires
        wf_body_v(v, kind),
    ensures
        dec_body_v(kind, enc_body_v(v)) == Some(v),
{
    lemma_auto_spec_u32_to_from_le_bytes();
    let b = enc_body_v(v);
    assert(b.subrange(128, 132) =~= spec_u32_to_le_bytes(v.payload.len() as u32));
    assert(b.subrange(0, 96) =~= v.randao_reveal);
    assert(b.subrange(96, 128) =~= v.graffiti);
    assert(b.subrange(body_fixed_len(), b.len() as int) =~= v.payload);
}

/// A body only decodes from its exact encoding, and is then well formed.
pub proof fn lemma_body_exact(kind: PresetKind, b: Seq<u8>, v: BlockBodyV)
    requires
        dec_body_v(kind, b) == Some(v),
    ensures
        wf_body_v(v, kind),
        enc_body_v(v) == b,
{
    lemma_auto_spec_u32_to_from_le_bytes();
    assert(enc_body_v(v) =~= b);
}

/// Decoding an encoded well-formed block under its own preset gives it back.
pub proof fn lemma_block_round_trip(v: BeaconBlockV)
    requires
        wf_block_v(v),
    ensures
        dec_block_v(v.preset, enc_block_v(v)) == Some(v),
{
    lemma_auto_spec_u64_to_from_le_bytes();
    let b = enc_block_v(v);
    lemma_body_round_trip(v.preset, v.body);
    assert(b.subrange(0, 8) =~= spec_u64_to_le_bytes(v.slot));
    assert(b.subrange(8, 16) =~= spec_u64_to_le_bytes(v.proposer_index));
    assert(b.subrange(16, 48) =~= v.parent_root);
    assert(b.subrange(48, 80) =~= v.state_root);
    assert(b.subrange(block_body_offset(), b.len() as int) =~= enc_body_v(v.body));
}

/// A block only decodes from its exact encoding, and is then well formed and
/// bound to the preset the bytes were decoded under.
pub proof fn lemma_block_exact(kind: PresetKind, b: Seq<u8>, v: BeaconBlockV)
    requires
        dec_block_v(kind, b) == Some(v),
    ensures
        wf_block_v(v),
        v.preset == kind,
        enc_block_v(v) == b,
{
    lemma_auto_spec_u64_to_from_le_bytes();
    let body = dec_body_v(kind, b.subrange(block_body_offset(), b.len() as int));
    lemma_body_exact(kind, b.subrange(block_body_offset(), b.len() as int), body->Some_0);
    assert(enc_block_v(v) =~= b);
}

// ---------------------------------------------------------------------------
// Executable primitives.
// ---------------------------------------------------------------------------

/// Appends the bytes of `src` to `dst`.
pub fn extend_bytes(dst: &mut Vec<u8>, src: &[u8])
    ensures
        final(dst)@ == old(dst)@ + src@,
{
    dst.extend_from_slice(src);
    assert(final(dst)@ =~= old(dst)@ + src@);
}

fn put_u32(out: &mut Vec<u8>, n: u32)
    ensures
        final(out)@ == old(out)@ + spec_u32_to_le_bytes(n),
{
    let b = u32_to_le_bytes(n);
    out.extend_from_slice(b.as_slice());
    assert(final(out)@ =~= old(out)@ + spec_u32_to_le_bytes(n));
}

pub(crate) fn put_u64(out: &mut Vec<u8>, n: u64)
    ensures
        final(out)@ == old(out)@ + spec_u64_to_le_bytes(n),
{
    let b = u64_to_le_bytes(n);
    out.extend_from_slice(b.as_slice());
    assert(final(out)@ =~= old(out)@ + spec_u64_to_le_bytes(n));
}

fn read_u32(b: &[u8], i: usize) -> (n: u32)
    requires
        i + 4 <= b@.len(),
    ensures
        n == spec_u32_from_le_bytes(b@.subrange(i as int, i as int + 4)),
{
    let len = b.len();
    u32_from_le_bytes(slice_subrange(b, i, i + 4))
}

fn read_u64(b: &[u8], i: usize) -> (n: u64)
    requires
        i + 8 <= b@.len(),
    ensures
        n == spec_u64_from_le_bytes(b@.subrange(i as int, i as int + 8)),
{
    let len = b.len();
    u64_from_le_bytes(slice_subrange(b, i, i + 8))
}

fn malformed_binary() -> (e: Error)
    ensures
        e matches Error::MalformedBinaryEncoding(_),
{
    Error::MalformedBinaryEncoding("binary input does not fit the shape under this preset".to_owned())
}

// ---------------------------------------------------------------------------
// Executable codec: full body and full block.
// ---------------------------------------------------------------------------

pub(crate) fn encode_body(body: &BlockBody, out: &mut Vec<u8>)
    requires
        body@.payload.len() <= u32::MAX,
    ensures
        final(out)@ == old(out)@ + enc_body_v(body@),
{
    extend_bytes(out, body.randao_reveal.bytes.as_slice());
    extend_bytes(out, body.graffiti.bytes.as_slice());
    put_u32(out, body.payload.len() as u32);
    extend_bytes(out, body.payload.as_slice());
    assert(final(out)@ =~= old(out)@ + enc_body_v(body@));
}

pub(crate) fn decode_body(kind: PresetKind, b: &[u8]) -> (r: Result<BlockBody, Error>)
    ensures
        r is Ok <==> dec_body_v(kind, b@) is Some,
        r matches Ok(x) ==> Some(x@) == dec_body_v(kind, b@),
        r matches Err(e) ==> e matches Error::MalformedBinaryEncoding(_),
{
    if b.len() < 132 {
        return Err(malformed_binary());
    }
    let n = read_u32(b, 128);
    let cap = preset_table(kind).max_bytes_per_transaction;
    if n as u64 > cap {
        return Err(malformed_binary());
    }
    if b.len() - 132 != n as usize {
        return Err(malformed_binary());
    }
    let randao_reveal = Signature { bytes: slice_to_vec(slice_subrange(b, 0, 96)) };
    let graffiti = Root { bytes: slice_to_vec(slice_subrange(b, 96, 128)) };
    let payload = slice_to_vec(slice_subrange(b, 132, b.len()));
    Ok(BlockBody { randao_reveal, graffiti, payload })
}

// ---------------------------------------------------------------------------
// Blinded shapes: fully fixed-size encodings.
// ---------------------------------------------------------------------------

/// Blinded body: signature bytes, graffiti, then the payload commitment.
pub open spec fn enc_blinded_body_v(v: BlindedBlockBodyV) -> Seq<u8> {
    v.randao_reveal + v.graffiti + v.payload_root
}

pub open spec fn dec_blinded_body_v(b: Seq<u8>) -> Option<BlindedBlockBodyV> {
    if b.len() == 160 {
        Some(
            BlindedBlockBodyV {
                randao_reveal: b.subrange(0, 96),
                graffiti: b.subrange(96, 128),
                payload_root: b.subrange(128, 160),
            },
        )
    } else {
        None
    }
}

/// Blinded block: the header fields, then the fixed-size blinded body.
pub open spec fn enc_blinded_block_v(v: BlindedBeaconBlockV) -> Seq<u8> {
    spec_u64_to_le_bytes(v.slot) + spec_u64_to_le_bytes(v.proposer_index) + v.parent_root
        + v.state_root + enc_blinded_body_v(v.body)
}

pub open spec fn dec_blinded_block_v(kind: PresetKind, b: Seq<u8>) -> Option<BlindedBeaconBlockV> {
    if b.len() == 240 {
        match dec_blinded_body_v(b.subrange(80, 240)) {
            None => None,
            Some(body) => Some(
                BlindedBeaconBlockV {
                    preset: kind,
                    slot: spec_u64_from_le_bytes(b.subrange(0, 8)),
                    proposer_index: spec_u64_from_le_bytes(b.subrange(8, 16)),
                    parent_root: b.subrange(16, 48),
                    state_root: b.subrange(48, 80),
                    body,
                },
            ),
        }
    } else {
        None
    }
}

pub proof fn lemma_blinded_block_round_trip(v: BlindedBeaconBlockV)
    requires
        wf_blinded_block_v(v),
    ensures
        dec_blinded_block_v(v.preset, enc_blinded_block_v(v)) == Some(v),
{
    lemma_auto_spec_u64_to_from_le_bytes();
    let b = enc_blinded_block_v(v);
    assert(b.subrange(0, 8) =~= spec_u64_to_le_bytes(v.slot));
    assert(b.subrange(8, 16) =~= spec_u64_to_le_bytes(v.proposer_index));
    assert(b.subrange(16, 48) =~= v.parent_root);
    assert(b.subrange(48, 80) =~= v.state_root);
    assert(b.subrange(80, 240) =~= enc_blinded_body_v(v.body));
    let body = b.subrange(80, 240);
    assert(body.subrange(0, 96) =~= v.body.randao_reveal);
    assert(body.subrange(96, 128) =~= v.body.graffiti);
    assert(body.subrange(128, 160) =~= v.body.payload_root);
}

pub proof fn lemma_blinded_block_exact(kind: PresetKind, b: Seq<u8>, v: BlindedBeaconBlockV)
    requires
        dec_blinded_block_v(kind, b) == Some(v),
    ensures
        wf_blinded_block_v(v),
        v.preset == kind,
        enc_blinded_block_v(v) == b,
{
    lemma_auto_spec_u64_to_from_le_bytes();
    assert(enc_blinded_block_v(v) =~= b);
}

// ---------------------------------------------------------------------------
// Signed wrappers.
// ---------------------------------------------------------------------------

/// Signed full block: length-prefixed message, then the signature.
pub open spec fn enc_signed_block_v(v: SignedBeaconBlockV) -> Seq<u8> {
    spec_u32_to_le_bytes(enc_block_v(v.message).len() as u32) + enc_block_v(v.message)
        + v.signature
}

pub open spec fn dec_signed_block_v(kind: PresetKind, b: Seq<u8>) -> Option<SignedBeaconBlockV> {
    if b.len() < 4 {
        None
    } else {
        let n = spec_u32_from_le_bytes(b.subrange(0, 4)) as int;
        if b.len() == 4 + n + 96 {
            match dec_block_v(kind, b.subrange(4, 4 + n)) {
                None => None,
                Some(message) => Some(
                    SignedBeaconBlockV { message, signature: b.subrange(4 + n, b.len() as int) },
                ),
            }
        } else {
            None
        }
    }
}

/// Signed blinded block: fixed-size message, then the signature.
pub open spec fn enc_signed_blinded_block_v(v: SignedBlindedBeaconBlockV) -> Seq<u8> {
    enc_blinded_block_v(v.message) + v.signature
}

pub open spec fn dec_signed_blinded_block_v(kind: PresetKind, b: Seq<u8>) -> Option<
    SignedBlindedBeaconBlockV,
> {
    if b.len() == 336 {
        match dec_blinded_block_v(kind, b.subrange(0, 240)) {
            None => None,
            Some(message) => Some(
                SignedBlindedBeaconBlockV { message, signature: b.subrange(240, 336) },
            ),
        }
    } else {
        None
    }
}

/// The length of an encoded well-formed full block: its fixed fields plus its
/// payload.
pub proof fn lemma_enc_block_len(v: BeaconBlockV)
    requires
        wf_block_v(v),
    ensures
        enc_block_v(v).len() == 212 + v.body.payload.len(),
{
    lemma_auto_spec_u64_to_from_le_bytes();
    lemma_auto_spec_u32_to_from_le_bytes();
}

pub proof fn lemma_signed_block_round_trip(v: SignedBeaconBlockV)
    requires
        wf_signed_block_v(v),
    ensures
        dec_signed_block_v(v.message.preset, enc_signed_block_v(v)) == Some(v),
{
    lemma_auto_spec_u32_to_from_le_bytes();
    lemma_enc_block_len(v.message);
    lemma_block_round_trip(v.message);
    let m = enc_block_v(v.message);
    let b = enc_signed_block_v(v);
    assert(b.subrange(0, 4) =~= spec_u32_to_le_bytes(m.len() as u32));
    assert(b.subrange(4, 4 + m.len() as int) =~= m);
    assert(b.subrange(4 + m.len() as int, b.len() as int) =~= v.signature);
}

pub proof fn lemma_signed_block_exact(kind: PresetKind, b: Seq<u8>, v: SignedBeaconBlockV)
    requires
        dec_signed_block_v(kind, b) == Some(v),
    ensures
        wf_signed_block_v(v),
        v.message.preset == kind,
        enc_signed_block_v(v) == b,
{
    lemma_auto_spec_u32_to_from_le_bytes();
    let n = spec_u32_from_le_bytes(b.subrange(0, 4)) as int;
    lemma_block_exact(kind, b.subrange(4, 4 + n), v.message);
    assert(enc_block_v(v.message).len() == n);
    assert(enc_signed_block_v(v) =~= b);
}

pub proof fn lemma_signed_blinded_block_round_trip(v: SignedBlindedBeaconBlockV)
    requires
        wf_signed_blinded_block_v(v),
    ensures
        dec_signed_blinded_block_v(v.message.preset, enc_signed_blinded_block_v(v)) == Some(v),
{
    lemma_auto_spec_u64_to_from_le_bytes();
    lemma_blinded_block_round_trip(v.message);
    let b = enc_signed_blinded_block_v(v);
    assert(b.subrange(0, 240) =~= enc_blinded_block_v(v.message));
    assert(b.subrange(240, 336) =~= v.signature);
}

pub proof fn lemma_signed_blinded_block_exact(
    kind: PresetKind,
    b: Seq<u8>,
    v: SignedBlindedBeaconBlockV,
)
    requires
        dec_signed_blinded_block_v(kind, b) == Some(v),
    ensures
        wf_signed_blinded_block_v(v),
        v.message.preset == kind,
        enc_signed_blinded_block_v(v) == b,
{
    lemma_blinded_block_exact(kind, b.subrange(0, 240), v.message);
    assert(enc_signed_blinded_block_v(v) =~= b);
}

// ---------------------------------------------------------------------------
// Sidecar lists: element counts, then the fixed-size elements.
// ---------------------------------------------------------------------------

/// Proof list and blob list, each as a count followed by its elements.
pub open spec fn enc_sidecars_v(kzg_proofs: Seq<Seq<u8>>, blobs: Seq<Seq<u8>>) -> Seq<u8> {
    spec_u32_to_le_bytes(kzg_proofs.len() as u32) + cat(kzg_proofs) + spec_u32_to_le_bytes(
        blobs.len() as u32,
    ) + cat(blobs)
}

pub open spec fn dec_sidecars_v(kind: PresetKind, b: Seq<u8>) -> Option<
    (Seq<Seq<u8>>, Seq<Seq<u8>>),
> {
    if b.len() < 4 {
        None
    } else {
        let np = spec_u32_from_le_bytes(b.subrange(0, 4)) as int;
        let pend = 4 + np * 48;
        if np <= spec_max_blob_commitments(kind) && b.len() >= pend + 4 {
            let nb = spec_u32_from_le_bytes(b.subrange(pend, pend + 4)) as int;
            let bl = spec_bytes_per_blob(kind) as int;
            if nb == np && b.len() == pend + 4 + nb * bl {
                Some(
                    (
                        dec_chunks(b.subrange(4, pend), 48, np as nat),
                        dec_chunks(b.subrange(pend + 4, b.len() as int), bl as nat, nb as nat),
                    ),
                )
            } else {
                None
            }
        } else {
            None
        }
    }
}

pub proof fn lemma_sidecars_round_trip(
    kind: PresetKind,
    kzg_proofs: Seq<Seq<u8>>,
    blobs: Seq<Seq<u8>>,
)
    requires
        wf_sidecars_v(kzg_proofs, blobs, kind),
    ensures
        dec_sidecars_v(kind, enc_sidecars_v(kzg_proofs, blobs)) == Some((kzg_proofs, blobs)),
{
    lemma_auto_spec_u32_to_from_le_bytes();
    let bl = spec_bytes_per_blob(kind) as nat;
    lemma_cat_len(kzg_proofs, 48);
    lemma_cat_len(blobs, bl);
    lemma_chunks_of_cat(kzg_proofs, 48);
    lemma_chunks_of_cat(blobs, bl);
    let np = kzg_proofs.len() as int;
    let e = enc_sidecars_v(kzg_proofs, blobs);
    let pend = 4 + np * 48;
    assert(np * 48 == cat(kzg_proofs).len() && (np as nat) * bl == cat(blobs).len())
        by (nonlinear_arith)
        requires
            cat(kzg_proofs).len() == kzg_proofs.len() * 48 && cat(blobs).len() == blobs.len() * bl
                && np == kzg_proofs.len() && blobs.len() == kzg_proofs.len(),
    ;
    assert(e.subrange(0, 4) =~= spec_u32_to_le_bytes(kzg_proofs.len() as u32));
    assert(e.subrange(4, pend) =~= cat(kzg_proofs));
    assert(e.subrange(pend, pend + 4) =~= spec_u32_to_le_bytes(blobs.len() as u32));
    assert(e.subrange(pend + 4, e.len() as int) =~= cat(blobs));
}

pub proof fn lemma_sidecars_exact(
    kind: PresetKind,
    b: Seq<u8>,
    kzg_proofs: Seq<Seq<u8>>,
    blobs: Seq<Seq<u8>>,
)
    requires
        dec_sidecars_v(kind, b) == Some((kzg_proofs, blobs)),
    ensures
        wf_sidecars_v(kzg_proofs, blobs, kind),
        enc_sidecars_v(kzg_proofs, blobs) == b,
{
    lemma_auto_spec_u32_to_from_le_bytes();
    let np = spec_u32_from_le_bytes(b.subrange(0, 4)) as int;
    let pend = 4 + np * 48;
    let bl = spec_bytes_per_blob(kind) as nat;
    let region1 = b.subrange(4, pend);
    let region2 = b.subrange(pend + 4, b.len() as int);
    assert(region1.len() == (np as nat) * 48 && region2.len() == (np as nat) * bl)
        by (nonlinear_arith)
        requires
            region1.len() == np * 48 && region2.len() == np * bl && np >= 0,
    ;
    lemma_cat_of_chunks(region1, 48, np as nat);
    lemma_cat_of_chunks(region2, bl, np as nat);
    assert forall|i: int| 0 <= i < kzg_proofs.len() implies (#[trigger] kzg_proofs[i]).len()
        == 48 by {
        assert(48 * i + 48 <= region1.len()) by (nonlinear_arith)
            requires
                region1.len() == np * 48 && 0 <= i < np,
        ;
    }
    assert forall|i: int| 0 <= i < blobs.len() implies (#[trigger] blobs[i]).len()
        == spec_bytes_per_blob(kind) by {
        assert(bl * i + bl <= region2.len()) by (nonlinear_arith)
            requires
                region2.len() == np * bl && 0 <= i < np && bl >= 0,
        ;
    }
    assert(enc_sidecars_v(kzg_proofs, blobs) =~= b);
}

// ---------------------------------------------------------------------------
// Block contents.
// ---------------------------------------------------------------------------

/// Block contents: length-prefixed block, then the sidecar lists.
pub open spec fn enc_contents_v(v: BeaconBlockContentsV) -> Seq<u8> {
    spec_u32_to_le_bytes(enc_block_v(v.block).len() as u32) + enc_block_v(v.block)
        + enc_sidecars_v(v.kzg_proofs, v.blobs)
}

pub open spec fn dec_contents_v(kind: PresetKind, b: Seq<u8>) -> Option<BeaconBlockContentsV> {
    if b.len() < 4 {
        None
    } else {
        let n = spec_u32_from_le_bytes(b.subrange(0, 4)) as int;
        if 4 + n <= b.len() {
            match dec_block_v(kind, b.subrange(4, 4 + n)) {
                None => None,
                Some(block) => match dec_sidecars_v(kind, b.subrange(4 + n, b.len() as int)) {
                    None => None,
                    Some(sidecars) => Some(
                        BeaconBlockContentsV {
                            block,
                            kzg_proofs: sidecars.0,
                            blobs: sidecars.1,
                        },
                    ),
                },
            }
        } else {
            None
        }
    }
}

/// Signed block contents: length-prefixed signed block, then the sidecars.
pub open spec fn enc_signed_contents_v(v: SignedBeaconBlockContentsV) -> Seq<u8> {
    spec_u32_to_le_bytes(enc_signed_block_v(v.signed_block).len() as u32) + enc_signed_block_v(
        v.signed_block,
    ) + enc_sidecars_v(v.kzg_proofs, v.blobs)
}

pub open spec fn dec_signed_contents_v(kind: PresetKind, b: Seq<u8>) -> Option<
    SignedBeaconBlockContentsV,
> {
    if b.len() < 4 {
        None
    } else {
        let n = spec_u32_from_le_bytes(b.subrange(0, 4)) as int;
        if 4 + n <= b.len() {
            match dec_signed_block_v(kind, b.subrange(4, 4 + n)) {
                None => None,
                Some(signed_block) => match dec_sidecars_v(
                    kind,
                    b.subrange(4 + n, b.len() as int),
                ) {
                    None => None,
                    Some(sidecars) => Some(
                        SignedBeaconBlockContentsV {
                            signed_block,
                            kzg_proofs: sidecars.0,
                            blobs: sidecars.1,
                        },
                    ),
                },
            }
        } else {
            None
        }
    }
}

pub proof fn lemma_contents_round_trip(v: BeaconBlockContentsV)
    requires
        wf_contents_v(v),
    ensures
        dec_contents_v(v.block.preset, enc_contents_v(v)) == Some(v),
{
    lemma_auto_spec_u32_to_from_le_bytes();
    lemma_enc_block_len(v.block);
    lemma_block_round_trip(v.block);
    lemma_sidecars_round_trip(v.block.preset, v.kzg_proofs, v.blobs);
    let m = enc_block_v(v.block);
    let b = enc_contents_v(v);
    assert(b.subrange(0, 4) =~= spec_u32_to_le_bytes(m.len() as u32));
    assert(b.subrange(4, 4 + m.len() as int) =~= m);
    assert(b.subrange(4 + m.len() as int, b.len() as int) =~= enc_sidecars_v(
        v.kzg_proofs,
        v.blobs,
    ));
}

pub proof fn lemma_contents_exact(kind: PresetKind, b: Seq<u8>, v: BeaconBlockContentsV)
    requires
        dec_contents_v(kind, b) == Some(v),
    ensures
        wf_contents_v(v),
        v.block.preset == kind,
        enc_contents_v(v) == b,
{
    lemma_auto_spec_u32_to_from_le_bytes();
    let n = spec_u32_from_le_bytes(b.subrange(0, 4)) as int;
    lemma_block_exact(kind, b.subrange(4, 4 + n), v.block);
    lemma_sidecars_exact(kind, b.subrange(4 + n, b.len() as int), v.kzg_proofs, v.blobs);
    assert(enc_block_v(v.block).len() == n);
    assert(enc_contents_v(v) =~= b);
}

pub proof fn lemma_signed_contents_round_trip(v: SignedBeaconBlockContentsV)
    requires
        wf_signed_contents_v(v),
    ensures
        dec_signed_contents_v(v.signed_block.message.preset, enc_signed_contents_v(v)) == Some(v),
{
    lemma_auto_spec_u32_to_from_le_bytes();
    lemma_enc_block_len(v.signed_block.message);
    lemma_signed_block_round_trip(v.signed_block);
    lemma_sidecars_round_trip(v.signed_block.message.preset, v.kzg_proofs, v.blobs);
    let m = enc_signed_block_v(v.signed_block);
    let b = enc_signed_contents_v(v);
    assert(b.subrange(0, 4) =~= spec_u32_to_le_bytes(m.len() as u32));
    assert(b.subrange(4, 4 + m.len() as int) =~= m);
    assert(b.subrange(4 + m.len() as int, b.len() as int) =~= enc_sidecars_v(
        v.kzg_proofs,
        v.blobs,
    ));
}

pub proof fn lemma_signed_contents_exact(
    kind: PresetKind,
    b: Seq<u8>,
    v: SignedBeaconBlockContentsV,
)
    requires
        dec_signed_contents_v(kind, b) == Some(v),
    ensures
        wf_signed_contents_v(v),
        v.signed_block.message.preset == kind,
        enc_signed_contents_v(v) == b,
{
    lemma_auto_spec_u32_to_from_le_bytes();
    let n = spec_u32_from_le_bytes(b.subrange(0, 4)) as int;
    lemma_signed_block_exact(kind, b.subrange(4, 4 + n), v.signed_block);
    lemma_sidecars_exact(kind, b.subrange(4 + n, b.len() as int), v.kzg_proofs, v.blobs);
    assert(enc_signed_block_v(v.signed_block).len() == n);
    assert(enc_signed_contents_v(v) =~= b);
}
// ---------------------------------------------------------------------------
// Executable codec: sidecars.
// ---------------------------------------------------------------------------

pub(crate) fn append_sidecars(kzg_proofs: &Vec<KzgProof>, blobs: &Vec<Blob>, out: &mut Vec<u8>)
    requires
        kzg_proofs@.len() <= u32::MAX,
        blobs@.len() <= u32::MAX,
    ensures
        final(out)@ == old(out)@ + enc_sidecars_v(seq_views(kzg_proofs@), seq_views(blobs@)),
{
    put_u32(out, kzg_proofs.len() as u32);
    let ghost base1 = out@;
    let mut i: usize = 0;
    while i < kzg_proofs.len()
        invariant
            0 <= i <= kzg_proofs@.len(),
            out@ == base1 + cat(seq_views(kzg_proofs@).take(i as int)),
        decreases kzg_proofs@.len() - i,
    {
        extend_bytes(out, kzg_proofs[i].bytes.as_slice());
        proof {
            lemma_cat_push(seq_views(kzg_proofs@).take(i as int), kzg_proofs@[i as int]@);
            assert(seq_views(kzg_proofs@).take(i as int + 1) =~= seq_views(kzg_proofs@).take(
                i as int,
            ).push(kzg_proofs@[i as int]@));
            assert(out@ =~= base1 + cat(seq_views(kzg_proofs@).take(i as int + 1)));
        }
        i += 1;
    }
    proof {
        assert(seq_views(kzg_proofs@).take(kzg_proofs@.len() as int) =~= seq_views(kzg_proofs@));
    }
    put_u32(out, blobs.len() as u32);
    let ghost base2 = out@;
    let mut j: usize = 0;
    while j < blobs.len()
        invariant
            0 <= j <= blobs@.len(),
            out@ == base2 + cat(seq_views(blobs@).take(j as int)),
        decreases blobs@.len() - j,
    {
        extend_bytes(out, blobs[j].bytes.as_slice());
        proof {
            lemma_cat_push(seq_views(blobs@).take(j as int), blobs@[j as int]@);
            assert(seq_views(blobs@).take(j as int + 1) =~= seq_views(blobs@).take(j as int).push(
                blobs@[j as int]@,
            ));
            assert(out@ =~= base2 + cat(seq_views(blobs@).take(j as int + 1)));
        }
        j += 1;
    }
    proof {
        assert(seq_views(blobs@).take(blobs@.len() as int) =~= seq_views(blobs@));
        assert(final(out)@ =~= old(out)@ + enc_sidecars_v(
            seq_views(kzg_proofs@),
            seq_views(blobs@),
        ));
    }
}
fn decode_sidecars(kind: PresetKind, b: &[u8]) -> (r: Result<(Vec<KzgProof>, Vec<Blob>), Error>)
    ensures
        r is Ok <==> dec_sidecars_v(kind, b@) is Some,
        r matches Ok(pb) ==> Some((seq_views(pb.0@), seq_views(pb.1@))) == dec_sidecars_v(
            kind,
            b@,
        ),
        r matches Err(e) ==> e matches Error::MalformedBinaryEncoding(_),
{
    let len = b.len();
    if len < 4 {
        return Err(malformed_binary());
    }
    let np = read_u32(b, 0);
    let cap = preset_table(kind).max_blob_commitments_per_block;
    if np as u64 > cap {
        return Err(malformed_binary());
    }
    let pl: usize = (np as usize) * 48;
    if len < 4 + pl + 4 {
        return Err(malformed_binary());
    }
    let nb = read_u32(b, 4 + pl);
    if nb != np {
        return Err(malformed_binary());
    }
    let bls: usize = crate::preset::bytes_per_blob(kind) as usize;
    let total: usize = 4 + pl + 4 + (nb as usize) * bls;
    if len != total {
        return Err(malformed_binary());
    }
    let ghost region1 = b@.subrange(4, 4 + (np as int) * 48);
    let mut kzg_proofs: Vec<KzgProof> = Vec::new();
    let mut i: usize = 0;
    while i < np as usize
        invariant
            0 <= i <= np,
            np as u64 <= spec_max_blob_commitments(kind),
            b@.len() >= 4 + (np as int) * 48 + 4,
            region1 == b@.subrange(4, 4 + (np as int) * 48),
            seq_views(kzg_proofs@) == dec_chunks(region1, 48, i as nat),
        decreases np - i,
    {
        let off = 4 + i * 48;
        let chunk = slice_to_vec(slice_subrange(b, off, off + 48));
        let ghost chunk_view = chunk@;
        let ghost prev = kzg_proofs@;
        kzg_proofs.push(KzgProof { bytes: chunk });
        proof {
            assert(seq_views(prev) == dec_chunks(region1, 48, i as nat));
            assert(seq_views(prev).len() == prev.len());
            assert(dec_chunks(region1, 48, i as nat).len() == i);
            assert(kzg_proofs@.len() == i + 1);
            assert(kzg_proofs@[i as int]@ == chunk_view);
            assert(region1.subrange(48 * i as int, 48 * i as int + 48) =~= b@.subrange(
                off as int,
                off as int + 48,
            ));
            let ghost next = dec_chunks(region1, 48, (i + 1) as nat);
            assert forall|k: int| 0 <= k < i + 1 implies seq_views(kzg_proofs@)[k] == next[k] by {
                if k < i {
                    assert(seq_views(prev)[k] == dec_chunks(region1, 48, i as nat)[k]);
                    assert(seq_views(kzg_proofs@)[k] == kzg_proofs@[k]@);
                    assert(kzg_proofs@[k] == prev[k]);
                } else {
                    assert(seq_views(kzg_proofs@)[k] == chunk_view);
                }
            }
            assert(seq_views(kzg_proofs@) =~= next);
        }
        i += 1;
    }
    let base: usize = 4 + pl + 4;
    let ghost region2 = b@.subrange(base as int, b@.len() as int);
    let mut blobs: Vec<Blob> = Vec::new();
    let mut j: usize = 0;
    while j < nb as usize
        invariant
            0 <= j <= nb,
            nb as u64 <= spec_max_blob_commitments(kind),
            base == 8 + (nb as int) * 48,
            bls == spec_bytes_per_blob(kind),
            b@.len() == base + (nb as int) * (bls as int),
            region2 == b@.subrange(base as int, b@.len() as int),
            seq_views(blobs@) == dec_chunks(region2, bls as nat, j as nat),
        decreases nb - j,
    {
        proof {
            assert((j + 1) * (bls as int) <= (nb as int) * (bls as int)) by (nonlinear_arith)
                requires
                    0 <= j < nb && bls >= 0,
            ;
            assert(j * (bls as int) + bls == (j + 1) * (bls as int)) by (nonlinear_arith);
        }
        let off = base + j * bls;
        let chunk = slice_to_vec(slice_subrange(b, off, off + bls));
        let ghost chunk_view = chunk@;
        let ghost prev = blobs@;
        blobs.push(Blob { bytes: chunk });
        proof {
            assert(seq_views(prev) == dec_chunks(region2, bls as nat, j as nat));
            assert(seq_views(prev).len() == prev.len());
            assert(dec_chunks(region2, bls as nat, j as nat).len() == j);
            assert(blobs@.len() == j + 1);
            assert(blobs@[j as int]@ == chunk_view);
            assert((bls as int) * (j as int) == (j as int) * (bls as int)) by (nonlinear_arith);
            assert(region2.subrange(
                (bls as int) * (j as int),
                (bls as int) * (j as int) + bls as int,
            ) =~= b@.subrange(off as int, off as int + bls as int));
            let ghost next = dec_chunks(region2, bls as nat, (j + 1) as nat);
            assert forall|k: int| 0 <= k < j + 1 implies seq_views(blobs@)[k] == next[k] by {
                if k < j {
                    assert(seq_views(prev)[k] == dec_chunks(region2, bls as nat, j as nat)[k]);
                    assert(seq_views(blobs@)[k] == blobs@[k]@);
                    assert(blobs@[k] == prev[k]);
                } else {
                    assert(seq_views(blobs@)[k] == chunk_view);
                }
            }
            assert(seq_views(blobs@) =~= next);
        }
        j += 1;
    }
    Ok((kzg_proofs, blobs))
}

// ---------------------------------------------------------------------------
// The codec interface every container shape satisfies.
// ---------------------------------------------------------------------------

/// The binary codec contract, identical for every container shape: encoding
/// is total on well-formed instances, and decoding under a preset succeeds
/// exactly on the encodings of well-formed instances bound to that preset,
/// giving back exactly the encoded instance.
pub trait SszCodec: View + Sized {
    /// The shape's well-formedness under its bound preset.
    spec fn ssz_wf(&self) -> bool;

    /// The shape's encoding, over views.
    spec fn ssz_enc(v: Self::V) -> Seq<u8>;

    /// The shape's decoding, over views.
    spec fn ssz_dec(kind: PresetKind, b: Seq<u8>) -> Option<Self::V>;

    /// Encodes the instance; total on well-formed instances.
    fn to_ssz(&self) -> (out: Vec<u8>)
        requires
            self.ssz_wf(),
        ensures
            out@ == Self::ssz_enc(self@),
    ;

    /// Decodes an instance bound to the given preset; fails exactly when the
    /// bytes are not the encoding of a well-formed instance of that preset.
    fn from_ssz(kind: PresetKind, b: &[u8]) -> (r: Result<Self, Error>)
        ensures
            r is Ok <==> Self::ssz_dec(kind, b@) is Some,
            r matches Ok(x) ==> Some(x@) == Self::ssz_dec(kind, b@) && x.ssz_wf() && Self::ssz_enc(
                x@,
            ) == b@,
            r matches Err(e) ==> e matches Error::MalformedBinaryEncoding(_),
    ;
}

/// Decodes SSZ-encoded bytes into a container shape under the given preset.
pub fn decode_ssz<T: SszCodec>(kind: PresetKind, bytes: &[u8]) -> (r: Result<T, Error>)
    ensures
        r is Ok <==> T::ssz_dec(kind, bytes@) is Some,
        r matches Ok(x) ==> Some(x@) == T::ssz_dec(kind, bytes@) && x.ssz_wf() && T::ssz_enc(x@)
            == bytes@,
        r matches Err(e) ==> e matches Error::MalformedBinaryEncoding(_),
{
    T::from_ssz(kind, bytes)
}

/// Encodes a container shape to SSZ bytes; total on well-formed instances.
pub fn encode_ssz<T: SszCodec>(value: &T) -> (out: Vec<u8>)
    requires
        value.ssz_wf(),
    ensures
        out@ == T::ssz_enc(value@),
{
    value.to_ssz()
}

impl SszCodec for BeaconBlock {
    open spec fn ssz_wf(&self) -> bool {
        self.wf()
    }

    open spec fn ssz_enc(v: BeaconBlockV) -> Seq<u8> {
        enc_block_v(v)
    }

    open spec fn ssz_dec(kind: PresetKind, b: Seq<u8>) -> Option<BeaconBlockV> {
        dec_block_v(kind, b)
    }

    fn to_ssz(&self) -> (out: Vec<u8>) {
        let mut out: Vec<u8> = Vec::new();
        put_u64(&mut out, self.slot);
        put_u64(&mut out, self.proposer_index);
        extend_bytes(&mut out, self.parent_root.bytes.as_slice());
        extend_bytes(&mut out, self.state_root.bytes.as_slice());
        encode_body(&self.body, &mut out);
        assert(out@ =~= enc_block_v(self@));
        out
    }

    fn from_ssz(kind: PresetKind, b: &[u8]) -> (r: Result<BeaconBlock, Error>) {
        if b.len() < 80 {
            return Err(malformed_binary());
        }
        let slot = read_u64(b, 0);
        let proposer_index = read_u64(b, 8);
        let parent_root = Root { bytes: slice_to_vec(slice_subrange(b, 16, 48)) };
        let state_root = Root { bytes: slice_to_vec(slice_subrange(b, 48, 80)) };
        let body = match decode_body(kind, slice_subrange(b, 80, b.len())) {
            Ok(body) => body,
            Err(e) => {
                return Err(e);
            },
        };
        let block = BeaconBlock {
            preset: kind,
            slot,
            proposer_index,
            parent_root,
            state_root,
            body,
        };
        proof {
            lemma_block_exact(kind, b@, block@);
        }
        Ok(block)
    }
}

impl SszCodec for BlindedBeaconBlock {
    open spec fn ssz_wf(&self) -> bool {
        self.wf()
    }

    open spec fn ssz_enc(v: BlindedBeaconBlockV) -> Seq<u8> {
        enc_blinded_block_v(v)
    }

    open spec fn ssz_dec(kind: PresetKind, b: Seq<u8>) -> Option<BlindedBeaconBlockV> {
        dec_blinded_block_v(kind, b)
    }

    fn to_ssz(&self) -> (out: Vec<u8>) {
        let mut out: Vec<u8> = Vec::new();
        put_u64(&mut out, self.slot);
        put_u64(&mut out, self.proposer_index);
        extend_bytes(&mut out, self.parent_root.bytes.as_slice());
        extend_bytes(&mut out, self.state_root.bytes.as_slice());
        extend_bytes(&mut out, self.body.randao_reveal.bytes.as_slice());
        extend_bytes(&mut out, self.body.graffiti.bytes.as_slice());
        extend_bytes(&mut out, self.body.payload_root.bytes.as_slice());
        assert(out@ =~= enc_blinded_block_v(self@));
        out
    }

    fn from_ssz(kind: PresetKind, b: &[u8]) -> (r: Result<BlindedBeaconBlock, Error>) {
        if b.len() != 240 {
            return Err(malformed_binary());
        }
        let slot = read_u64(b, 0);
        let proposer_index = read_u64(b, 8);
        let parent_root = Root { bytes: slice_to_vec(slice_subrange(b, 16, 48)) };
        let state_root = Root { bytes: slice_to_vec(slice_subrange(b, 48, 80)) };
        let body = BlindedBlockBody {
            randao_reveal: Signature { bytes: slice_to_vec(slice_subrange(b, 80, 176)) },
            graffiti: Root { bytes: slice_to_vec(slice_subrange(b, 176, 208)) },
            payload_root: Root { bytes: slice_to_vec(slice_subrange(b, 208, 240)) },
        };
        let block = BlindedBeaconBlock {
            preset: kind,
            slot,
            proposer_index,
            parent_root,
            state_root,
            body,
        };
        proof {
            assert(b@.subrange(80, 240).subrange(0, 96) =~= b@.subrange(80, 176));
            assert(b@.subrange(80, 240).subrange(96, 128) =~= b@.subrange(176, 208));
            assert(b@.subrange(80, 240).subrange(128, 160) =~= b@.subrange(208, 240));
            lemma_blinded_block_exact(kind, b@, block@);
        }
        Ok(block)
    }
}

impl SszCodec for SignedBeaconBlock {
    open spec fn ssz_wf(&self) -> bool {
        self.wf()
    }

    open spec fn ssz_enc(v: SignedBeaconBlockV) -> Seq<u8> {
        enc_signed_block_v(v)
    }

    open spec fn ssz_dec(kind: PresetKind, b: Seq<u8>) -> Option<SignedBeaconBlockV> {
        dec_signed_block_v(kind, b)
    }

    fn to_ssz(&self) -> (out: Vec<u8>) {
        proof {
            lemma_enc_block_len(self.message@);
        }
        let msg = self.message.to_ssz();
        let mut out: Vec<u8> = Vec::new();
        put_u32(&mut out, msg.len() as u32);
        extend_bytes(&mut out, msg.as_slice());
        extend_bytes(&mut out, self.signature.bytes.as_slice());
        assert(out@ =~= enc_signed_block_v(self@));
        out
    }

    fn from_ssz(kind: PresetKind, b: &[u8]) -> (r: Result<SignedBeaconBlock, Error>) {
        let len = b.len();
        if len < 4 {
            return Err(malformed_binary());
        }
        let n = read_u32(b, 0);
        if n as u64 + 100 != len as u64 {
            return Err(malformed_binary());
        }
        let message = match BeaconBlock::from_ssz(kind, slice_subrange(b, 4, 4 + n as usize)) {
            Ok(m) => m,
            Err(e) => {
                return Err(e);
            },
        };
        let signature = Signature { bytes: slice_to_vec(slice_subrange(b, 4 + n as usize, len)) };
        let signed = SignedBeaconBlock { message, signature };
        proof {
            lemma_signed_block_exact(kind, b@, signed@);
        }
        Ok(signed)
    }
}

impl SszCodec for SignedBlindedBeaconBlock {
    open spec fn ssz_wf(&self) -> bool {
        self.wf()
    }

    open spec fn ssz_enc(v: SignedBlindedBeaconBlockV) -> Seq<u8> {
        enc_signed_blinded_block_v(v)
    }

    open spec fn ssz_dec(kind: PresetKind, b: Seq<u8>) -> Option<SignedBlindedBeaconBlockV> {
        dec_signed_blinded_block_v(kind, b)
    }

    fn to_ssz(&self) -> (out: Vec<u8>) {
        let mut out = self.message.to_ssz();
        extend_bytes(&mut out, self.signature.bytes.as_slice());
        assert(out@ =~= enc_signed_blinded_block_v(self@));
        out
    }

    fn from_ssz(kind: PresetKind, b: &[u8]) -> (r: Result<SignedBlindedBeaconBlock, Error>) {
        if b.len() != 336 {
            return Err(malformed_binary());
        }
        let message = match BlindedBeaconBlock::from_ssz(kind, slice_subrange(b, 0, 240)) {
            Ok(m) => m,
            Err(e) => {
                return Err(e);
            },
        };
        let signature = Signature { bytes: slice_to_vec(slice_subrange(b, 240, 336)) };
        let signed = SignedBlindedBeaconBlock { message, signature };
        proof {
            lemma_signed_blinded_block_exact(kind, b@, signed@);
        }
        Ok(signed)
    }
}

impl SszCodec for BeaconBlockContents {
    open spec fn ssz_wf(&self) -> bool {
        self.wf()
    }

    open spec fn ssz_enc(v: BeaconBlockContentsV) -> Seq<u8> {
        enc_contents_v(v)
    }

    open spec fn ssz_dec(kind: PresetKind, b: Seq<u8>) -> Option<BeaconBlockContentsV> {
        dec_contents_v(kind, b)
    }

    fn to_ssz(&self) -> (out: Vec<u8>) {
        proof {
            lemma_enc_block_len(self.block@);
        }
        let blk = self.block.to_ssz();
        let mut out: Vec<u8> = Vec::new();
        put_u32(&mut out, blk.len() as u32);
        extend_bytes(&mut out, blk.as_slice());
        append_sidecars(&self.kzg_proofs, &self.blobs, &mut out);
        assert(out@ =~= enc_contents_v(self@));
        out
    }

    fn from_ssz(kind: PresetKind, b: &[u8]) -> (r: Result<BeaconBlockContents, Error>) {
        let len = b.len();
        if len < 4 {
            return Err(malformed_binary());
        }
        let n = read_u32(b, 0);
        if n as u64 + 4 > len as u64 {
            return Err(malformed_binary());
        }
        let block = match BeaconBlock::from_ssz(kind, slice_subrange(b, 4, 4 + n as usize)) {
            Ok(m) => m,
            Err(e) => {
                return Err(e);
            },
        };
        let (kzg_proofs, blobs) = match decode_sidecars(
            kind,
            slice_subrange(b, 4 + n as usize, len),
        ) {
            Ok(pb) => pb,
            Err(e) => {
                return Err(e);
            },
        };
        let contents = BeaconBlockContents { block, kzg_proofs, blobs };
        proof {
            lemma_contents_exact(kind, b@, contents@);
        }
        Ok(contents)
    }
}

impl SszCodec for SignedBeaconBlockContents {
    open spec fn ssz_wf(&self) -> bool {
        self.wf()
    }

    open spec fn ssz_enc(v: SignedBeaconBlockContentsV) -> Seq<u8> {
        enc_signed_contents_v(v)
    }

    open spec fn ssz_dec(kind: PresetKind, b: Seq<u8>) -> Option<SignedBeaconBlockContentsV> {
        dec_signed_contents_v(kind, b)
    }

    fn to_ssz(&self) -> (out: Vec<u8>) {
        proof {
            lemma_enc_block_len(self.signed_block.message@);
        }
        let blk = self.signed_block.to_ssz();
        let mut out: Vec<u8> = Vec::new();
        put_u32(&mut out, blk.len() as u32);
        extend_bytes(&mut out, blk.as_slice());
        append_sidecars(&self.kzg_proofs, &self.blobs, &mut out);
        assert(out@ =~= enc_signed_contents_v(self@));
        out
    }

    fn from_ssz(kind: PresetKind, b: &[u8]) -> (r: Result<SignedBeaconBlockContents, Error>) {
        let len = b.len();
        if len < 4 {
            return Err(malformed_binary());
        }
        let n = read_u32(b, 0);
        if n as u64 + 4 > len as u64 {
            return Err(malformed_binary());
        }
        let signed_block = match SignedBeaconBlock::from_ssz(
            kind,
            slice_subrange(b, 4, 4 + n as usize),
        ) {
            Ok(m) => m,
            Err(e) => {
                return Err(e);
            },
        };
        let (kzg_proofs, blobs) = match decode_sidecars(
            kind,
            slice_subrange(b, 4 + n as usize, len),
        ) {
            Ok(pb) => pb,
            Err(e) => {
                return Err(e);
            },
        };
        let contents = SignedBeaconBlockContents { signed_block, kzg_proofs, blobs };
        proof {
            lemma_signed_contents_exact(kind, b@, contents@);
        }
        Ok(contents)
    }
}

} // verus!
