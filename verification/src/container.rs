//! The container type family: block shapes, their views and their invariants.
//!
//! Each shape is a structured record of fixed-order fields. Fixed-size fields
//! are byte strings of a declared length; variable-length fields are bounded
//! by a capacity constant of the preset the instance is bound to. A container
//! is a self-contained value: signing and encoding never mutate it.

use vstd::prelude::*;

use vstd::slice::slice_to_vec;

use crate::KZG_PROOF_BYTES;
use crate::ROOT_BYTES;
use crate::SIGNATURE_BYTES;
use crate::preset::PresetKind;
use crate::preset::spec_bytes_per_blob;
use crate::preset::spec_max_blob_commitments;
use crate::preset::spec_max_payload_bytes;

verus! {

/// A 32-byte digest naming a block, a state or a body.
#[derive(Clone, Debug, PartialEq, Eq)]
pub struct Root {
    pub bytes: Vec<u8>,
}

impl View for Root {
    type V = Seq<u8>;

    open spec fn view(&self) -> Seq<u8> {
        self.bytes@
    }
}

impl Root {
    pub open spec fn wf(&self) -> bool {
        self@.len() == ROOT_BYTES
    }

    /// Wraps exactly 32 bytes; any other length is rejected.
    pub fn from_bytes(bytes: Vec<u8>) -> (r: Option<Root>)
        ensures
            r is Some <==> bytes@.len() == ROOT_BYTES,
            r matches Some(x) ==> x@ == bytes@ && x.wf(),
    {
        if bytes.len() == ROOT_BYTES {
            Some(Root { bytes })
        } else {
            None
        }
    }
}

/// A fixed-length signature byte string. Attaching one to a message never
/// verifies it cryptographically; it is carried as opaque bytes.
#[derive(Clone, Debug, PartialEq, Eq)]
pub struct Signature {
    pub bytes: Vec<u8>,
}

impl View for Signature {
    type V = Seq<u8>;

    open spec fn view(&self) -> Seq<u8> {
        self.bytes@
    }
}

impl Signature {
    pub open spec fn wf(&self) -> bool {
        self@.len() == SIGNATURE_BYTES
    }

    /// Wraps exactly 96 bytes; any other length is rejected.
    pub fn from_bytes(bytes: Vec<u8>) -> (r: Option<Signature>)
        ensures
            r is Some <==> bytes@.len() == SIGNATURE_BYTES,
            r matches Some(x) ==> x@ == bytes@ && x.wf(),
    {
        if bytes.len() == SIGNATURE_BYTES {
            Some(Signature { bytes })
        } else {
            None
        }
    }
}

/// A fixed-length KZG commitment proof for one blob.
#[derive(Clone, Debug, PartialEq, Eq)]
pub struct KzgProof {
    pub bytes: Vec<u8>,
}

impl View for KzgProof {
    type V = Seq<u8>;

    open spec fn view(&self) -> Seq<u8> {
        self.bytes@
    }
}

impl KzgProof {
    pub open spec fn wf(&self) -> bool {
        self@.len() == KZG_PROOF_BYTES
    }

    /// Wraps exactly 48 bytes; any other length is rejected.
    pub fn from_bytes(bytes: Vec<u8>) -> (r: Option<KzgProof>)
        ensures
            r is Some <==> bytes@.len() == KZG_PROOF_BYTES,
            r matches Some(x) ==> x@ == bytes@ && x.wf(),
    {
        if bytes.len() == KZG_PROOF_BYTES {
            Some(KzgProof { bytes })
        } else {
            None
        }
    }
}

/// One blob data buffer. Its length is fixed by the preset: 32 bytes per
/// field element of the blob polynomial.
#[derive(Clone, Debug, PartialEq, Eq)]
pub struct Blob {
    pub bytes: Vec<u8>,
}

impl View for Blob {
    type V = Seq<u8>;

    open spec fn view(&self) -> Seq<u8> {
        self.bytes@
    }
}

impl Blob {
    pub open spec fn wf(&self, kind: PresetKind) -> bool {
        self@.len() == spec_bytes_per_blob(kind)
    }

    /// Wraps exactly one blob of the given preset's blob size.
    pub fn from_bytes(kind: PresetKind, bytes: Vec<u8>) -> (r: Option<Blob>)
        ensures
            r is Some <==> bytes@.len() == spec_bytes_per_blob(kind),
            r matches Some(x) ==> x@ == bytes@ && x.wf(kind),
    {
        if bytes.len() as u64 == crate::preset::bytes_per_blob(kind) {
            Some(Blob { bytes })
        } else {
            None
        }
    }
}

/// The views of a sequence of viewable values, in order.
pub open spec fn seq_views<T: View>(s: Seq<T>) -> Seq<T::V> {
    Seq::new(s.len(), |i: int| s[i]@)
}

/// Mathematical model of a full block body.
pub ghost struct BlockBodyV {
    pub randao_reveal: Seq<u8>,
    pub graffiti: Seq<u8>,
    pub payload: Seq<u8>,
}

/// Mathematical model of a blinded block body.
pub ghost struct BlindedBlockBodyV {
    pub randao_reveal: Seq<u8>,
    pub graffiti: Seq<u8>,
    pub payload_root: Seq<u8>,
}

/// Mathematical model of a full block.
pub ghost struct BeaconBlockV {
    pub preset: PresetKind,
    pub slot: u64,
    pub proposer_index: u64,
    pub parent_root: Seq<u8>,
    pub state_root: Seq<u8>,
    pub body: BlockBodyV,
}

/// Mathematical model of a blinded block.
pub ghost struct BlindedBeaconBlockV {
    pub preset: PresetKind,
    pub slot: u64,
    pub proposer_index: u64,
    pub parent_root: Seq<u8>,
    pub state_root: Seq<u8>,
    pub body: BlindedBlockBodyV,
}

/// Mathematical model of a signed full block.
pub ghost struct SignedBeaconBlockV {
    pub message: BeaconBlockV,
    pub signature: Seq<u8>,
}

/// Mathematical model of a signed blinded block.
pub ghost struct SignedBlindedBeaconBlockV {
    pub message: BlindedBeaconBlockV,
    pub signature: Seq<u8>,
}

/// Mathematical model of block contents.
pub ghost struct BeaconBlockContentsV {
    pub block: BeaconBlockV,
    pub kzg_proofs: Seq<Seq<u8>>,
    pub blobs: Seq<Seq<u8>>,
}

/// Mathematical model of signed block contents.
pub ghost struct SignedBeaconBlockContentsV {
    pub signed_block: SignedBeaconBlockV,
    pub kzg_proofs: Seq<Seq<u8>>,
    pub blobs: Seq<Seq<u8>>,
}

pub open spec fn wf_body_v(v: BlockBodyV, kind: PresetKind) -> bool {
    &&& v.randao_reveal.len() == SIGNATURE_BYTES
    &&& v.graffiti.len() == ROOT_BYTES
    &&& v.payload.len() <= spec_max_payload_bytes(kind)
}

pub open spec fn wf_blinded_body_v(v: BlindedBlockBodyV) -> bool {
    &&& v.randao_reveal.len() == SIGNATURE_BYTES
    &&& v.graffiti.len() == ROOT_BYTES
    &&& v.payload_root.len() == ROOT_BYTES
}

pub open spec fn wf_block_v(v: BeaconBlockV) -> bool {
    &&& v.parent_root.len() == ROOT_BYTES
    &&& v.state_root.len() == ROOT_BYTES
    &&& wf_body_v(v.body, v.preset)
}

pub open spec fn wf_blinded_block_v(v: BlindedBeaconBlockV) -> bool {
    &&& v.parent_root.len() == ROOT_BYTES
    &&& v.state_root.len() == ROOT_BYTES
    &&& wf_blinded_body_v(v.body)
}

pub open spec fn wf_signed_block_v(v: SignedBeaconBlockV) -> bool {
    &&& wf_block_v(v.message)
    &&& v.signature.len() == SIGNATURE_BYTES
}

pub open spec fn wf_signed_blinded_block_v(v: SignedBlindedBeaconBlockV) -> bool {
    &&& wf_blinded_block_v(v.message)
    &&& v.signature.len() == SIGNATURE_BYTES
}

/// Index-aligned sidecar lists: as many proofs as blobs, each list within the
/// preset's blob capacity, every proof and every blob of its fixed size.
pub open spec fn wf_sidecars_v(
    kzg_proofs: Seq<Seq<u8>>,
    blobs: Seq<Seq<u8>>,
    kind: PresetKind,
) -> bool {
    &&& kzg_proofs.len() == blobs.len()
    &&& kzg_proofs.len() <= spec_max_blob_commitments(kind)
    &&& forall|i: int| 0 <= i < kzg_proofs.len() ==> (#[trigger] kzg_proofs[i]).len() == KZG_PROOF_BYTES
    &&& forall|i: int| 0 <= i < blobs.len() ==> (#[trigger] blobs[i]).len() == spec_bytes_per_blob(kind)
}

pub open spec fn wf_contents_v(v: BeaconBlockContentsV) -> bool {
    &&& wf_block_v(v.block)
    &&& wf_sidecars_v(v.kzg_proofs, v.blobs, v.block.preset)
}

pub open spec fn wf_signed_contents_v(v: SignedBeaconBlockContentsV) -> bool {
    &&& wf_signed_block_v(v.signed_block)
    &&& wf_sidecars_v(v.kzg_proofs, v.blobs, v.signed_block.message.preset)
}

/// A full block body: operational payload data held inline.
#[derive(Clone, Debug, PartialEq, Eq)]
pub struct BlockBody {
    pub randao_reveal: Signature,
    pub graffiti: Root,
    pub payload: Vec<u8>,
}

impl View for BlockBody {
    type V = BlockBodyV;

    open spec fn view(&self) -> BlockBodyV {
        BlockBodyV {
            randao_reveal: self.randao_reveal@,
            graffiti: self.graffiti@,
            payload: self.payload@,
        }
    }
}

/// A blinded block body: the bulk payload is replaced by its root commitment.
#[derive(Clone, Debug, PartialEq, Eq)]
pub struct BlindedBlockBody {
    pub randao_reveal: Signature,
    pub graffiti: Root,
    pub payload_root: Root,
}

impl View for BlindedBlockBody {
    type V = BlindedBlockBodyV;

    open spec fn view(&self) -> BlindedBlockBodyV {
        BlindedBlockBodyV {
            randao_reveal: self.randao_reveal@,
            graffiti: self.graffiti@,
            payload_root: self.payload_root@,
        }
    }
}

/// A full beacon block bound to one preset.
#[derive(Clone, Debug, PartialEq, Eq)]
pub struct BeaconBlock {
    pub preset: PresetKind,
    pub slot: u64,
    pub proposer_index: u64,
    pub parent_root: Root,
    pub state_root: Root,
    pub body: BlockBody,
}

impl View for BeaconBlock {
    type V = BeaconBlockV;

    open spec fn view(&self) -> BeaconBlockV {
        BeaconBlockV {
            preset: self.preset,
            slot: self.slot,
            proposer_index: self.proposer_index,
            parent_root: self.parent_root@,
            state_root: self.state_root@,
            body: self.body@,
        }
    }
}

impl BeaconBlock {
    pub open spec fn wf(&self) -> bool {
        wf_block_v(self@)
    }

    /// Binds the fields to a preset; rejected when the payload exceeds the
    /// preset's capacity.
    pub fn new(
        preset: PresetKind,
        slot: u64,
        proposer_index: u64,
        parent_root: Root,
        state_root: Root,
        body: BlockBody,
    ) -> (r: Option<BeaconBlock>)
        requires
            parent_root.wf(),
            state_root.wf(),
            body.randao_reveal.wf(),
            body.graffiti.wf(),
        ensures
            r is Some <==> body.payload@.len() <= spec_max_payload_bytes(preset),
            r matches Some(b) ==> b.wf() && b@ == (BeaconBlockV {
                preset,
                slot,
                proposer_index,
                parent_root: parent_root@,
                state_root: state_root@,
                body: body@,
            }),
    {
        let cap = crate::preset::preset_table(preset).max_bytes_per_transaction;
        if body.payload.len() as u64 <= cap {
            Some(BeaconBlock { preset, slot, proposer_index, parent_root, state_root, body })
        } else {
            None
        }
    }
}

/// A blinded beacon block bound to one preset.
#[derive(Clone, Debug, PartialEq, Eq)]
pub struct BlindedBeaconBlock {
    pub preset: PresetKind,
    pub slot: u64,
    pub proposer_index: u64,
    pub parent_root: Root,
    pub state_root: Root,
    pub body: BlindedBlockBody,
}

impl View for BlindedBeaconBlock {
    type V = BlindedBeaconBlockV;

    open spec fn view(&self) -> BlindedBeaconBlockV {
        BlindedBeaconBlockV {
            preset: self.preset,
            slot: self.slot,
            proposer_index: self.proposer_index,
            parent_root: self.parent_root@,
            state_root: self.state_root@,
            body: self.body@,
        }
    }
}

impl BlindedBeaconBlock {
    pub open spec fn wf(&self) -> bool {
        wf_blinded_block_v(self@)
    }
}

/// A signed full block: a full copy of the message plus a signature.
#[derive(Clone, Debug, PartialEq, Eq)]
pub struct SignedBeaconBlock {
    pub message: BeaconBlock,
    pub signature: Signature,
}

impl View for SignedBeaconBlock {
    type V = SignedBeaconBlockV;

    open spec fn view(&self) -> SignedBeaconBlockV {
        SignedBeaconBlockV { message: self.message@, signature: self.signature@ }
    }
}

impl SignedBeaconBlock {
    pub open spec fn wf(&self) -> bool {
        wf_signed_block_v(self@)
    }
}

/// A signed blinded block: a full copy of the message plus a signature.
#[derive(Clone, Debug, PartialEq, Eq)]
pub struct SignedBlindedBeaconBlock {
    pub message: BlindedBeaconBlock,
    pub signature: Signature,
}

impl View for SignedBlindedBeaconBlock {
    type V = SignedBlindedBeaconBlockV;

    open spec fn view(&self) -> SignedBlindedBeaconBlockV {
        SignedBlindedBeaconBlockV { message: self.message@, signature: self.signature@ }
    }
}

impl SignedBlindedBeaconBlock {
    pub open spec fn wf(&self) -> bool {
        wf_signed_blinded_block_v(self@)
    }
}

/// Block contents: a full block plus index-aligned blob proofs and blobs.
#[derive(Clone, Debug, PartialEq, Eq)]
pub struct BeaconBlockContents {
    pub block: BeaconBlock,
    pub kzg_proofs: Vec<KzgProof>,
    pub blobs: Vec<Blob>,
}

impl View for BeaconBlockContents {
    type V = BeaconBlockContentsV;

    open spec fn view(&self) -> BeaconBlockContentsV {
        BeaconBlockContentsV {
            block: self.block@,
            kzg_proofs: seq_views(self.kzg_proofs@),
            blobs: seq_views(self.blobs@),
        }
    }
}

/// Signed block contents: a signed block plus the same sidecar lists.
#[derive(Clone, Debug, PartialEq, Eq)]
pub struct SignedBeaconBlockContents {
    pub signed_block: SignedBeaconBlock,
    pub kzg_proofs: Vec<KzgProof>,
    pub blobs: Vec<Blob>,
}

impl View for SignedBeaconBlockContents {
    type V = SignedBeaconBlockContentsV;

    open spec fn view(&self) -> SignedBeaconBlockContentsV {
        SignedBeaconBlockContentsV {
            signed_block: self.signed_block@,
            kzg_proofs: seq_views(self.kzg_proofs@),
            blobs: seq_views(self.blobs@),
        }
    }
}

/// True when every proof is 48 bytes and every blob has the preset's blob
/// size, the two lists have one length, and that length is within capacity.
fn check_sidecars(kzg_proofs: &Vec<KzgProof>, blobs: &Vec<Blob>, kind: PresetKind) -> (ok: bool)
    ensures
        ok == wf_sidecars_v(seq_views(kzg_proofs@), seq_views(blobs@), kind),
{
    let cap = crate::preset::preset_table(kind).max_blob_commitments_per_block;
    let blob_len = crate::preset::bytes_per_blob(kind);
    if kzg_proofs.len() != blobs.len() || kzg_proofs.len() as u64 > cap {
        return false;
    }
    let mut i: usize = 0;
    while i < kzg_proofs.len()
        invariant
            0 <= i <= kzg_proofs@.len(),
            kzg_proofs@.len() == blobs@.len(),
            blob_len == spec_bytes_per_blob(kind),
            forall|j: int| 0 <= j < i ==> (#[trigger] kzg_proofs@[j])@.len() == KZG_PROOF_BYTES,
            forall|j: int| 0 <= j < i ==> (#[trigger] blobs@[j])@.len() == spec_bytes_per_blob(kind),
        decreases kzg_proofs@.len() - i,
    {
        if kzg_proofs[i].bytes.len() != KZG_PROOF_BYTES {
            assert(seq_views(kzg_proofs@)[i as int].len() != KZG_PROOF_BYTES);
            return false;
        }
        if blobs[i].bytes.len() as u64 != blob_len {
            assert(seq_views(blobs@)[i as int].len() != spec_bytes_per_blob(kind));
            return false;
        }
        i += 1;
    }
    assert forall|j: int| 0 <= j < seq_views(kzg_proofs@).len() implies (#[trigger] seq_views(
        kzg_proofs@,
    )[j]).len() == KZG_PROOF_BYTES by {
        assert(kzg_proofs@[j]@.len() == KZG_PROOF_BYTES);
    }
    assert forall|j: int| 0 <= j < seq_views(blobs@).len() implies (#[trigger] seq_views(
        blobs@,
    )[j]).len() == spec_bytes_per_blob(kind) by {
        assert(blobs@[j]@.len() == spec_bytes_per_blob(kind));
    }
    true
}

impl BeaconBlockContents {
    pub open spec fn wf(&self) -> bool {
        wf_contents_v(self@)
    }

    /// Eagerly validates the sidecar alignment invariant: the proof list and
    /// the blob list must have the same length, within the preset's capacity,
    /// and every element its fixed size. A mismatch is rejected outright.
    pub fn new(block: BeaconBlock, kzg_proofs: Vec<KzgProof>, blobs: Vec<Blob>) -> (r: Option<
        BeaconBlockContents,
    >)
        requires
            block.wf(),
        ensures
            r is Some <==> wf_sidecars_v(seq_views(kzg_proofs@), seq_views(blobs@), block@.preset),
            r matches Some(c) ==> c.wf() && c@ == (BeaconBlockContentsV {
                block: block@,
                kzg_proofs: seq_views(kzg_proofs@),
                blobs: seq_views(blobs@),
            }),
    {
        if check_sidecars(&kzg_proofs, &blobs, block.preset) {
            Some(BeaconBlockContents { block, kzg_proofs, blobs })
        } else {
            None
        }
    }
}

impl SignedBeaconBlockContents {
    pub open spec fn wf(&self) -> bool {
        wf_signed_contents_v(self@)
    }
}

impl Root {
    /// An independent copy with the same bytes.
    pub fn duplicate(&self) -> (r: Root)
        ensures
            r@ == self@,
    {
        Root { bytes: slice_to_vec(self.bytes.as_slice()) }
    }
}

impl Signature {
    /// An independent copy with the same bytes.
    pub fn duplicate(&self) -> (r: Signature)
        ensures
            r@ == self@,
    {
        Signature { bytes: slice_to_vec(self.bytes.as_slice()) }
    }
}

impl BlockBody {
    /// An independent copy with the same fields.
    pub fn duplicate(&self) -> (r: BlockBody)
        ensures
            r@ == self@,
    {
        BlockBody {
            randao_reveal: self.randao_reveal.duplicate(),
            graffiti: self.graffiti.duplicate(),
            payload: slice_to_vec(self.payload.as_slice()),
        }
    }
}

impl BeaconBlock {
    /// An independent copy with the same fields.
    pub fn duplicate(&self) -> (r: BeaconBlock)
        ensures
            r@ == self@,
    {
        BeaconBlock {
            preset: self.preset,
            slot: self.slot,
            proposer_index: self.proposer_index,
            parent_root: self.parent_root.duplicate(),
            state_root: self.state_root.duplicate(),
            body: self.body.duplicate(),
        }
    }
}

impl BlindedBlockBody {
    /// An independent copy with the same fields.
    pub fn duplicate(&self) -> (r: BlindedBlockBody)
        ensures
            r@ == self@,
    {
        BlindedBlockBody {
            randao_reveal: self.randao_reveal.duplicate(),
            graffiti: self.graffiti.duplicate(),
            payload_root: self.payload_root.duplicate(),
        }
    }
}

impl BlindedBeaconBlock {
    /// An independent copy with the same fields.
    pub fn duplicate(&self) -> (r: BlindedBeaconBlock)
        ensures
            r@ == self@,
    {
        BlindedBeaconBlock {
            preset: self.preset,
            slot: self.slot,
            proposer_index: self.proposer_index,
            parent_root: self.parent_root.duplicate(),
            state_root: self.state_root.duplicate(),
            body: self.body.duplicate(),
        }
    }
}

/// An independent copy of a proof list, element views unchanged.
pub(crate) fn dup_proofs(v: &Vec<KzgProof>) -> (r: Vec<KzgProof>)
    ensures
        seq_views(r@) == seq_views(v@),
{
    let mut r: Vec<KzgProof> = Vec::new();
    let mut i: usize = 0;
    while i < v.len()
        invariant
            0 <= i <= v@.len(),
            r@.len() == i,
            forall|k: int| 0 <= k < i ==> (#[trigger] r@[k])@ == v@[k]@,
        decreases v@.len() - i,
    {
        r.push(KzgProof { bytes: slice_to_vec(v[i].bytes.as_slice()) });
        i += 1;
    }
    assert(seq_views(r@) =~= seq_views(v@));
    r
}

/// An independent copy of a blob list, element views unchanged.
pub(crate) fn dup_blobs(v: &Vec<Blob>) -> (r: Vec<Blob>)
    ensures
        seq_views(r@) == seq_views(v@),
{
    let mut r: Vec<Blob> = Vec::new();
    let mut i: usize = 0;
    while i < v.len()
        invariant
            0 <= i <= v@.len(),
            r@.len() == i,
            forall|k: int| 0 <= k < i ==> (#[trigger] r@[k])@ == v@[k]@,
        decreases v@.len() - i,
    {
        r.push(Blob { bytes: slice_to_vec(v[i].bytes.as_slice()) });
        i += 1;
    }
    assert(seq_views(r@) =~= seq_views(v@));
    r
}

} // verus!
