//! The laws the library promises across functions.
//!
//! Round-trip laws live beside each codec (`lemma_*_round_trip` in the binary
//! and text codec modules). This module states what they imply for the root
//! identity: encodings are injective, so two well-formed instances of one
//! preset are equal exactly when their encodings are, and any difference in a
//! header field changes the bytes the root digest is computed from. That the
//! digest itself then changes is the collision resistance of the hash, which
//! is assumed of the digest function, not proved here.

use vstd::prelude::*;

use vstd::bytes::lemma_auto_spec_u64_to_from_le_bytes;
use vstd::bytes::spec_u64_to_le_bytes;

use crate::container::BeaconBlockContentsV;
use crate::container::BeaconBlockV;
use crate::container::BlindedBeaconBlockV;
use crate::container::SignedBeaconBlockContentsV;
use crate::container::SignedBeaconBlockV;
use crate::container::SignedBlindedBeaconBlockV;
use crate::container::wf_blinded_block_v;
use crate::container::wf_block_v;
use crate::container::wf_contents_v;
use crate::container::wf_signed_block_v;
use crate::container::wf_signed_blinded_block_v;
use crate::container::wf_signed_contents_v;
use crate::identity::body_root_v;
use crate::ssz::enc_block_v;
use crate::ssz::enc_blinded_block_v;
use crate::ssz::enc_contents_v;
use crate::ssz::enc_signed_block_v;
use crate::ssz::enc_signed_blinded_block_v;
use crate::ssz::enc_signed_contents_v;
use crate::ssz::lemma_blinded_block_round_trip;
use crate::ssz::lemma_block_round_trip;
use crate::ssz::lemma_contents_round_trip;
use crate::ssz::lemma_signed_blinded_block_round_trip;
use crate::ssz::lemma_signed_block_round_trip;
use crate::ssz::lemma_signed_contents_round_trip;

verus! {

/// Two well-formed blocks of one preset with one binary encoding are equal.
pub proof fn lemma_block_encoding_injective(x: BeaconBlockV, y: BeaconBlockV)
    requires
        wf_block_v(x),
        wf_block_v(y),
        x.preset == y.preset,
        enc_block_v(x) == enc_block_v(y),
    ensures
        x == y,
{
    lemma_block_round_trip(x);
    lemma_block_round_trip(y);
}

/// Two well-formed blinded blocks of one preset with one binary encoding are
/// equal.
pub proof fn lemma_blinded_block_encoding_injective(x: BlindedBeaconBlockV, y: BlindedBeaconBlockV)
    requires
        wf_blinded_block_v(x),
        wf_blinded_block_v(y),
        x.preset == y.preset,
        enc_blinded_block_v(x) == enc_blinded_block_v(y),
    ensures
        x == y,
{
    lemma_blinded_block_round_trip(x);
    lemma_blinded_block_round_trip(y);
}

/// Two well-formed signed blocks of one preset with one binary encoding are
/// equal.
pub proof fn lemma_signed_block_encoding_injective(x: SignedBeaconBlockV, y: SignedBeaconBlockV)
    requires
        wf_signed_block_v(x),
        wf_signed_block_v(y),
        x.message.preset == y.message.preset,
        enc_signed_block_v(x) == enc_signed_block_v(y),
    ensures
        x == y,
{
    lemma_signed_block_round_trip(x);
    lemma_signed_block_round_trip(y);
}

/// Two well-formed signed blinded blocks of one preset with one binary
/// encoding are equal.
pub proof fn lemma_signed_blinded_block_encoding_injective(
    x: SignedBlindedBeaconBlockV,
    y: SignedBlindedBeaconBlockV,
)
    requires
        wf_signed_blinded_block_v(x),
        wf_signed_blinded_block_v(y),
        x.message.preset == y.message.preset,
        enc_signed_blinded_block_v(x) == enc_signed_blinded_block_v(y),
    ensures
        x == y,
{
    lemma_signed_blinded_block_round_trip(x);
    lemma_signed_blinded_block_round_trip(y);
}

/// Two well-formed block contents of one preset with one binary encoding are
/// equal; in particular a reordered proof or blob list changes the encoding.
pub proof fn lemma_contents_encoding_injective(x: BeaconBlockContentsV, y: BeaconBlockContentsV)
    requires
        wf_contents_v(x),
        wf_contents_v(y),
        x.block.preset == y.block.preset,
        enc_contents_v(x) == enc_contents_v(y),
    ensures
        x == y,
{
    lemma_contents_round_trip(x);
    lemma_contents_round_trip(y);
}

/// Two well-formed signed block contents of one preset with one binary
/// encoding are equal.
pub proof fn lemma_signed_contents_encoding_injective(
    x: SignedBeaconBlockContentsV,
    y: SignedBeaconBlockContentsV,
)
    requires
        wf_signed_contents_v(x),
        wf_signed_contents_v(y),
        x.signed_block.message.preset == y.signed_block.message.preset,
        enc_signed_contents_v(x) == enc_signed_contents_v(y),
    ensures
        x == y,
{
    lemma_signed_contents_round_trip(x);
    lemma_signed_contents_round_trip(y);
}

/// The root is a pure function of the instance's field values: two
/// instances with identical fields, in any call and any process, have one
/// root. Stated over the view the executable `hash_tree_root` is pinned to.
pub proof fn lemma_root_determined_by_fields(x: BeaconBlockV, y: BeaconBlockV)
    requires
        x == y,
    ensures
        crate::identity::block_root_v(x) == crate::identity::block_root_v(y),
{
}

/// The byte string a block's root is the digest of, spelled out.
pub open spec fn block_root_input(v: BeaconBlockV) -> Seq<u8> {
    spec_u64_to_le_bytes(v.slot) + spec_u64_to_le_bytes(v.proposer_index) + v.parent_root
        + v.state_root + body_root_v(v.body)
}

/// A change in any header field changes the bytes the root digest is computed
/// from; the root itself then changes unless the digest collides on them.
pub proof fn lemma_root_input_header_sensitive(x: BeaconBlockV, y: BeaconBlockV)
    requires
        wf_block_v(x),
        wf_block_v(y),
        x.slot != y.slot || x.proposer_index != y.proposer_index || x.parent_root != y.parent_root
            || x.state_root != y.state_root,
    ensures
        block_root_input(x) != block_root_input(y),
{
    lemma_auto_spec_u64_to_from_le_bytes();
    let bx = block_root_input(x);
    let by = block_root_input(y);
    if x.slot != y.slot {
        assert(bx.subrange(0, 8) =~= spec_u64_to_le_bytes(x.slot));
        assert(by.subrange(0, 8) =~= spec_u64_to_le_bytes(y.slot));
        assert(bx != by) by {
            if bx == by {
                assert(spec_u64_to_le_bytes(x.slot) == spec_u64_to_le_bytes(y.slot));
            }
        }
    } else if x.proposer_index != y.proposer_index {
        assert(bx.subrange(8, 16) =~= spec_u64_to_le_bytes(x.proposer_index));
        assert(by.subrange(8, 16) =~= spec_u64_to_le_bytes(y.proposer_index));
        assert(bx != by) by {
            if bx == by {
                assert(spec_u64_to_le_bytes(x.proposer_index) == spec_u64_to_le_bytes(
                    y.proposer_index,
                ));
            }
        }
    } else if x.parent_root != y.parent_root {
        assert(bx.subrange(16, 48) =~= x.parent_root);
        assert(by.subrange(16, 48) =~= y.parent_root);
        assert(bx != by) by {
            if bx == by {
                assert(x.parent_root == y.parent_root);
            }
        }
    } else {
        assert(bx.subrange(48, 80) =~= x.state_root);
        assert(by.subrange(48, 80) =~= y.state_root);
        assert(bx != by) by {
            if bx == by {
                assert(x.state_root == y.state_root);
            }
        }
    }
}

} // verus!
