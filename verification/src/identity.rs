//! Canonical root identity, header projection and signing.
//!
//! Every container has a canonical root: a fixed-size digest of its full
//! field content, built by hashing the fields in declaration order, with each
//! bulk field first collapsed to its own digest. A blinded body therefore
//! hashes to the same root as the full body it blinds whenever its payload
//! commitment equals the payload's digest. Signing parses a hex signature
//! string and attaches the bytes to a full copy of the unsigned message; it
//! never verifies the signature cryptographically.

use vstd::prelude::*;

use sha2::Digest;
use vstd::bytes::spec_u64_to_le_bytes;
use vstd::string::StringExecFns;
use vstd::string::StringSliceAdditionalSpecFns;

use crate::Error;
use crate::SIGNATURE_BYTES;
use crate::container::BeaconBlock;
use crate::container::BeaconBlockContents;
use crate::container::BeaconBlockContentsV;
use crate::container::BeaconBlockV;
use crate::container::BlindedBeaconBlock;
use crate::container::BlindedBeaconBlockV;
use crate::container::BlindedBlockBodyV;
use crate::container::BlockBodyV;
use crate::container::Root;
use crate::container::Signature;
use crate::container::SignedBeaconBlock;
use crate::container::SignedBeaconBlockContents;
use crate::container::SignedBeaconBlockContentsV;
use crate::container::SignedBeaconBlockV;
use crate::container::SignedBlindedBeaconBlock;
use crate::container::SignedBlindedBeaconBlockV;
use crate::container::dup_blobs;
use crate::container::dup_proofs;
use crate::hexstr::chars_of_bytes;
use crate::hexstr::dec_bytes_of;
use crate::hexstr::hex_bytes_of;
use crate::hexstr::hex_decode;
use crate::hexstr::hex_decoded;
use crate::hexstr::hex_encode;
use crate::hexstr::lemma_dec_bytes_digits;
use crate::hexstr::push_decimal;
use crate::hexstr::valid_hex;
use crate::hexstr::ascii_to_string;
use crate::ssz::enc_sidecars_v;
use crate::ssz::extend_bytes;
use crate::ssz::put_u64;

verus! {

/// The digest a byte string hashes to. It names the result of the one hash
/// function this crate delegates to; nothing further is assumed of it beyond
/// its fixed output size.
pub uninterp spec fn digest_of(b: Seq<u8>) -> Seq<u8>;

/// Relies on sha2's SHA-256: a pure function of the input bytes alone, with a
/// 32-byte output.
#[verifier::external_body]
fn sha256(data: &[u8]) -> (r: Vec<u8>)
    ensures
        r@ == digest_of(data@),
        r@.len() == 32,
{
    sha2::Sha256::digest(data).to_vec()
}

/// Root of a full body: its fields in order, the payload collapsed to its
/// own digest first.
pub open spec fn body_root_v(v: BlockBodyV) -> Seq<u8> {
    digest_of(v.randao_reveal + v.graffiti + digest_of(v.payload))
}

/// Root of a blinded body: its fields in order; the commitment stands where
/// the payload digest stands in the full body.
pub open spec fn blinded_body_root_v(v: BlindedBlockBodyV) -> Seq<u8> {
    digest_of(v.randao_reveal + v.graffiti + v.payload_root)
}

/// Root of a full block: header fields in order, the body collapsed to its
/// body root.
pub open spec fn block_root_v(v: BeaconBlockV) -> Seq<u8> {
    digest_of(
        spec_u64_to_le_bytes(v.slot) + spec_u64_to_le_bytes(v.proposer_index) + v.parent_root
            + v.state_root + body_root_v(v.body),
    )
}

/// Root of a blinded block, by the same formula as the full block.
pub open spec fn blinded_block_root_v(v: BlindedBeaconBlockV) -> Seq<u8> {
    digest_of(
        spec_u64_to_le_bytes(v.slot) + spec_u64_to_le_bytes(v.proposer_index) + v.parent_root
            + v.state_root + blinded_body_root_v(v.body),
    )
}

/// Root of a signed full block: the message root and the signature digest.
pub open spec fn signed_block_root_v(v: SignedBeaconBlockV) -> Seq<u8> {
    digest_of(block_root_v(v.message) + digest_of(v.signature))
}

/// Root of a signed blinded block, by the same formula.
pub open spec fn signed_blinded_block_root_v(v: SignedBlindedBeaconBlockV) -> Seq<u8> {
    digest_of(blinded_block_root_v(v.message) + digest_of(v.signature))
}

/// Root of block contents: the block root and the encoded sidecar lists.
pub open spec fn contents_root_v(v: BeaconBlockContentsV) -> Seq<u8> {
    digest_of(block_root_v(v.block) + enc_sidecars_v(v.kzg_proofs, v.blobs))
}

/// Root of signed block contents: the signed-block root and the sidecars.
pub open spec fn signed_contents_root_v(v: SignedBeaconBlockContentsV) -> Seq<u8> {
    digest_of(signed_block_root_v(v.signed_block) + enc_sidecars_v(v.kzg_proofs, v.blobs))
}

/// A blinded body whose commitment is the digest of a full body's payload has
/// the full body's root, field for field; so blinding a block preserves its
/// root.
pub proof fn lemma_blinding_preserves_root(full: BeaconBlockV, blinded: BlindedBeaconBlockV)
    requires
        blinded.slot == full.slot,
        blinded.proposer_index == full.proposer_index,
        blinded.parent_root == full.parent_root,
        blinded.state_root == full.state_root,
        blinded.body.randao_reveal == full.body.randao_reveal,
        blinded.body.graffiti == full.body.graffiti,
        blinded.body.payload_root == digest_of(full.body.payload),
    ensures
        blinded_block_root_v(blinded) == block_root_v(full),
{
}

/// The header-field capability shared by the full and the blinded block
/// shape: slot, proposer index, parent root, state root, and a computed body
/// root.
pub trait BlockHeader {
    /// The slot, at the level of views.
    spec fn header_slot(&self) -> u64;

    /// The proposer index, at the level of views.
    spec fn header_proposer_index(&self) -> u64;

    /// The parent root bytes, at the level of views.
    spec fn header_parent_root(&self) -> Seq<u8>;

    /// The state root bytes, at the level of views.
    spec fn header_state_root(&self) -> Seq<u8>;

    /// The computed body root, at the level of views.
    spec fn header_body_root(&self) -> Seq<u8>;

    /// Returns the slot number of the block.
    fn slot(&self) -> (r: u64)
        ensures
            r == self.header_slot(),
    ;

    /// Returns the proposer validator index.
    fn proposer_index(&self) -> (r: u64)
        ensures
            r == self.header_proposer_index(),
    ;

    /// Returns the parent block's root hash.
    fn parent_root(&self) -> (r: &Root)
        ensures
            r@ == self.header_parent_root(),
    ;

    /// Returns the state root hash.
    fn state_root(&self) -> (r: &Root)
        ensures
            r@ == self.header_state_root(),
    ;

    /// Returns the computed body root hash.
    fn body_root(&self) -> (r: Root)
        ensures
            r@ == self.header_body_root(),
            r@.len() == 32,
    ;
}

impl BlockHeader for BeaconBlock {
    open spec fn header_slot(&self) -> u64 {
        self.slot
    }

    open spec fn header_proposer_index(&self) -> u64 {
        self.proposer_index
    }

    open spec fn header_parent_root(&self) -> Seq<u8> {
        self.parent_root@
    }

    open spec fn header_state_root(&self) -> Seq<u8> {
        self.state_root@
    }

    open spec fn header_body_root(&self) -> Seq<u8> {
        body_root_v(self@.body)
    }

    fn slot(&self) -> u64 {
        self.slot
    }

    fn proposer_index(&self) -> u64 {
        self.proposer_index
    }

    fn parent_root(&self) -> &Root {
        &self.parent_root
    }

    fn state_root(&self) -> &Root {
        &self.state_root
    }

    fn body_root(&self) -> (r: Root) {
        let payload_root = sha256(self.body.payload.as_slice());
        let mut buf: Vec<u8> = Vec::new();
        extend_bytes(&mut buf, self.body.randao_reveal.bytes.as_slice());
        extend_bytes(&mut buf, self.body.graffiti.bytes.as_slice());
        extend_bytes(&mut buf, payload_root.as_slice());
        assert(buf@ =~= self@.body.randao_reveal + self@.body.graffiti + digest_of(
            self@.body.payload,
        ));
        Root { bytes: sha256(buf.as_slice()) }
    }
}

impl BlockHeader for BlindedBeaconBlock {
    open spec fn header_slot(&self) -> u64 {
        self.slot
    }

    open spec fn header_proposer_index(&self) -> u64 {
        self.proposer_index
    }

    open spec fn header_parent_root(&self) -> Seq<u8> {
        self.parent_root@
    }

    open spec fn header_state_root(&self) -> Seq<u8> {
        self.state_root@
    }

    open spec fn header_body_root(&self) -> Seq<u8> {
        blinded_body_root_v(self@.body)
    }

    fn slot(&self) -> u64 {
        self.slot
    }

    fn proposer_index(&self) -> u64 {
        self.proposer_index
    }

    fn parent_root(&self) -> &Root {
        &self.parent_root
    }

    fn state_root(&self) -> &Root {
        &self.state_root
    }

    fn body_root(&self) -> (r: Root) {
        let mut buf: Vec<u8> = Vec::new();
        extend_bytes(&mut buf, self.body.randao_reveal.bytes.as_slice());
        extend_bytes(&mut buf, self.body.graffiti.bytes.as_slice());
        extend_bytes(&mut buf, self.body.payload_root.bytes.as_slice());
        assert(buf@ =~= self@.body.randao_reveal + self@.body.graffiti + self@.body.payload_root);
        Root { bytes: sha256(buf.as_slice()) }
    }
}

fn header_root<H: BlockHeader>(header: &H) -> (r: Root)
    ensures
        r@ == digest_of(
            spec_u64_to_le_bytes(header.header_slot()) + spec_u64_to_le_bytes(
                header.header_proposer_index(),
            ) + header.header_parent_root() + header.header_state_root()
                + header.header_body_root(),
        ),
        r@.len() == 32,
{
    let body_root = header.body_root();
    let mut buf: Vec<u8> = Vec::new();
    put_u64(&mut buf, header.slot());
    put_u64(&mut buf, header.proposer_index());
    extend_bytes(&mut buf, header.parent_root().bytes.as_slice());
    extend_bytes(&mut buf, header.state_root().bytes.as_slice());
    extend_bytes(&mut buf, body_root.bytes.as_slice());
    assert(buf@ =~= spec_u64_to_le_bytes(header.header_slot()) + spec_u64_to_le_bytes(
        header.header_proposer_index(),
    ) + header.header_parent_root() + header.header_state_root() + header.header_body_root());
    Root { bytes: sha256(buf.as_slice()) }
}

impl BeaconBlock {
    /// The canonical root identity of the block.
    pub fn hash_tree_root(&self) -> (r: Root)
        ensures
            r@ == block_root_v(self@),
            r.wf(),
    {
        header_root(self)
    }
}

impl BlindedBeaconBlock {
    /// The canonical root identity of the blinded block.
    pub fn hash_tree_root(&self) -> (r: Root)
        ensures
            r@ == blinded_block_root_v(self@),
            r.wf(),
    {
        header_root(self)
    }
}

impl SignedBeaconBlock {
    /// The canonical root identity of the signed block.
    pub fn hash_tree_root(&self) -> (r: Root)
        ensures
            r@ == signed_block_root_v(self@),
            r.wf(),
    {
        let message_root = self.message.hash_tree_root();
        let signature_root = sha256(self.signature.bytes.as_slice());
        let mut buf: Vec<u8> = Vec::new();
        extend_bytes(&mut buf, message_root.bytes.as_slice());
        extend_bytes(&mut buf, signature_root.as_slice());
        assert(buf@ =~= block_root_v(self@.message) + digest_of(self@.signature));
        Root { bytes: sha256(buf.as_slice()) }
    }
}

impl SignedBlindedBeaconBlock {
    /// The canonical root identity of the signed blinded block.
    pub fn hash_tree_root(&self) -> (r: Root)
        ensures
            r@ == signed_blinded_block_root_v(self@),
            r.wf(),
    {
        let message_root = self.message.hash_tree_root();
        let signature_root = sha256(self.signature.bytes.as_slice());
        let mut buf: Vec<u8> = Vec::new();
        extend_bytes(&mut buf, message_root.bytes.as_slice());
        extend_bytes(&mut buf, signature_root.as_slice());
        assert(buf@ =~= blinded_block_root_v(self@.message) + digest_of(self@.signature));
        Root { bytes: sha256(buf.as_slice()) }
    }
}

impl BeaconBlockContents {
    /// The canonical root identity of the block contents.
    pub fn hash_tree_root(&self) -> (r: Root)
        requires
            self.wf(),
        ensures
            r@ == contents_root_v(self@),
            r.wf(),
    {
        let block_root = self.block.hash_tree_root();
        let mut buf: Vec<u8> = Vec::new();
        extend_bytes(&mut buf, block_root.bytes.as_slice());
        crate::ssz::append_sidecars(&self.kzg_proofs, &self.blobs, &mut buf);
        assert(buf@ =~= block_root_v(self@.block) + enc_sidecars_v(self@.kzg_proofs, self@.blobs));
        Root { bytes: sha256(buf.as_slice()) }
    }
}

impl SignedBeaconBlockContents {
    /// The canonical root identity of the signed block contents.
    pub fn hash_tree_root(&self) -> (r: Root)
        requires
            self.wf(),
        ensures
            r@ == signed_contents_root_v(self@),
            r.wf(),
    {
        let block_root = self.signed_block.hash_tree_root();
        let mut buf: Vec<u8> = Vec::new();
        extend_bytes(&mut buf, block_root.bytes.as_slice());
        crate::ssz::append_sidecars(&self.kzg_proofs, &self.blobs, &mut buf);
        assert(buf@ =~= signed_block_root_v(self@.signed_block) + enc_sidecars_v(
            self@.kzg_proofs,
            self@.blobs,
        ));
        Root { bytes: sha256(buf.as_slice()) }
    }
}

/// Formats a root as lowercase hex with a `0x` prefix.
pub fn format_hash_tree_root(root: &Root) -> (s: String)
    ensures
        s@ == seq!['0', 'x'] + chars_of_bytes(hex_bytes_of(root@)),
{
    let h = hex_encode(root.bytes.as_slice());
    let mut s = "0x".to_owned();
    proof {
        reveal_strlit("0x");
        assert("0x"@ =~= seq!['0', 'x']);
    }
    s.append(h.as_str());
    s
}

/// The header projection: every value already rendered as text, integers in
/// decimal, digests as `0x`-prefixed lowercase hex. It is read-only; nothing
/// feeds it back into a container.
pub struct BlockHeaderDict {
    pub slot: String,
    pub proposer_index: String,
    pub parent_root: String,
    pub state_root: String,
    pub body_root: String,
}

fn decimal_string(n: u64) -> (s: String)
    ensures
        s@ == chars_of_bytes(dec_bytes_of(n as nat)),
{
    let mut buf: Vec<u8> = Vec::new();
    push_decimal(&mut buf, n);
    proof {
        lemma_dec_bytes_digits(n as nat);
    }
    ascii_to_string(buf)
}

/// Builds the header dictionary of any shape with header fields.
pub fn header_dict_impl<H: BlockHeader>(header: &H) -> (d: BlockHeaderDict)
    ensures
        d.slot@ == chars_of_bytes(dec_bytes_of(header.header_slot() as nat)),
        d.proposer_index@ == chars_of_bytes(dec_bytes_of(header.header_proposer_index() as nat)),
        d.parent_root@ == seq!['0', 'x'] + chars_of_bytes(hex_bytes_of(header.header_parent_root())),
        d.state_root@ == seq!['0', 'x'] + chars_of_bytes(hex_bytes_of(header.header_state_root())),
        d.body_root@ == seq!['0', 'x'] + chars_of_bytes(hex_bytes_of(header.header_body_root())),
{
    let body_root = header.body_root();
    BlockHeaderDict {
        slot: decimal_string(header.slot()),
        proposer_index: decimal_string(header.proposer_index()),
        parent_root: format_hash_tree_root(header.parent_root()),
        state_root: format_hash_tree_root(header.state_root()),
        body_root: format_hash_tree_root(&body_root),
    }
}

/// The hex text left after stripping every leading `0x`.
pub open spec fn strip_hex_prefix(s: Seq<u8>) -> Seq<u8>
    decreases s.len(),
{
    if s.len() >= 2 && s[0] == 48 && s[1] == 120 {
        strip_hex_prefix(s.subrange(2, s.len() as int))
    } else {
        s
    }
}

/// Parses a hex-encoded signature string, `0x` prefixes allowed. Succeeds
/// exactly on valid hex of the signature's length.
pub fn parse_signature(signature: &str) -> (r: Result<Signature, Error>)
    ensures
        r is Ok <==> valid_hex(strip_hex_prefix(signature.spec_bytes())) && strip_hex_prefix(
            signature.spec_bytes(),
        ).len() == 2 * SIGNATURE_BYTES,
        r matches Ok(sig) ==> sig@ == hex_decoded(strip_hex_prefix(signature.spec_bytes()))
            && sig.wf(),
        !valid_hex(strip_hex_prefix(signature.spec_bytes())) ==> r matches Err(
            Error::InvalidSignatureEncoding(_),
        ),
        valid_hex(strip_hex_prefix(signature.spec_bytes())) && strip_hex_prefix(
            signature.spec_bytes(),
        ).len() != 2 * SIGNATURE_BYTES ==> r matches Err(Error::InvalidSignatureLength(_)),
{
    let bytes = signature.as_bytes();
    let n = bytes.len();
    assert(bytes@.subrange(0, n as int) =~= bytes@);
    let mut i: usize = 0;
    while n - i >= 2 && bytes[i] == 48 && bytes[i + 1] == 120
        invariant
            0 <= i <= n,
            n == bytes@.len(),
            strip_hex_prefix(bytes@) == strip_hex_prefix(bytes@.subrange(i as int, n as int)),
        decreases n - i,
    {
        proof {
            let cur = bytes@.subrange(i as int, n as int);
            assert(cur.len() >= 2 && cur[0] == 48 && cur[1] == 120);
            assert(cur.subrange(2, cur.len() as int) =~= bytes@.subrange(i as int + 2, n as int));
        }
        i += 2;
    }
    proof {
        let cur = bytes@.subrange(i as int, n as int);
        assert(strip_hex_prefix(cur) == cur);
    }
    let tail = vstd::slice::slice_subrange(bytes, i, n);
    match hex_decode(tail) {
        None => Err(
            Error::InvalidSignatureEncoding("signature is not hex text".to_owned()),
        ),
        Some(v) => {
            if v.len() == SIGNATURE_BYTES {
                Ok(Signature { bytes: v })
            } else {
                Err(
                    Error::InvalidSignatureLength(
                        "signature hex does not decode to the signature size".to_owned(),
                    ),
                )
            }
        },
    }
}

impl BeaconBlockContents {
    /// Signs the contents: attaches the parsed signature bytes to a full copy
    /// of the block and sidecar lists. No cryptographic check is made.
    pub fn sign(&self, signature: &str) -> (r: Result<SignedBeaconBlockContents, Error>)
        requires
            self.wf(),
        ensures
            r is Ok <==> valid_hex(strip_hex_prefix(signature.spec_bytes())) && strip_hex_prefix(
                signature.spec_bytes(),
            ).len() == 2 * SIGNATURE_BYTES,
            r matches Ok(sc) ==> sc@.signed_block.message == self@.block
                && sc@.signed_block.signature == hex_decoded(
                strip_hex_prefix(signature.spec_bytes()),
            ) && sc@.kzg_proofs == self@.kzg_proofs && sc@.blobs == self@.blobs && sc.wf(),
            !valid_hex(strip_hex_prefix(signature.spec_bytes())) ==> r matches Err(
                Error::InvalidSignatureEncoding(_),
            ),
            valid_hex(strip_hex_prefix(signature.spec_bytes())) && strip_hex_prefix(
                signature.spec_bytes(),
            ).len() != 2 * SIGNATURE_BYTES ==> r matches Err(Error::InvalidSignatureLength(_)),
    {
        let sig = match parse_signature(signature) {
            Ok(sig) => sig,
            Err(e) => {
                return Err(e);
            },
        };
        Ok(
            SignedBeaconBlockContents {
                signed_block: SignedBeaconBlock { message: self.block.duplicate(), signature: sig },
                kzg_proofs: dup_proofs(&self.kzg_proofs),
                blobs: dup_blobs(&self.blobs),
            },
        )
    }

    /// The block's root as `0x`-prefixed hex.
    pub fn block_hash_tree_root(&self) -> (s: String)
        ensures
            s@ == seq!['0', 'x'] + chars_of_bytes(hex_bytes_of(block_root_v(self@.block))),
    {
        let root = self.block.hash_tree_root();
        format_hash_tree_root(&root)
    }

    /// The header dictionary of the inner block.
    pub fn header_dict(&self) -> (d: BlockHeaderDict)
        ensures
            d.slot@ == chars_of_bytes(dec_bytes_of(self.block.slot as nat)),
            d.proposer_index@ == chars_of_bytes(dec_bytes_of(self.block.proposer_index as nat)),
            d.parent_root@ == seq!['0', 'x'] + chars_of_bytes(hex_bytes_of(self.block.parent_root@)),
            d.state_root@ == seq!['0', 'x'] + chars_of_bytes(hex_bytes_of(self.block.state_root@)),
            d.body_root@ == seq!['0', 'x'] + chars_of_bytes(hex_bytes_of(body_root_v(self@.block.body))),
    {
        header_dict_impl(&self.block)
    }
}

impl BeaconBlock {
    /// Blinds the block: replaces the bulk payload with its digest as the
    /// commitment. The blinded block keeps the original's root.
    pub fn blind(&self) -> (r: BlindedBeaconBlock)
        ensures
            r@.preset == self@.preset,
            r@.slot == self@.slot,
            r@.proposer_index == self@.proposer_index,
            r@.parent_root == self@.parent_root,
            r@.state_root == self@.state_root,
            r@.body.randao_reveal == self@.body.randao_reveal,
            r@.body.graffiti == self@.body.graffiti,
            r@.body.payload_root == digest_of(self@.body.payload),
            blinded_block_root_v(r@) == block_root_v(self@),
            self.wf() ==> r.wf(),
    {
        let payload_root = Root { bytes: sha256(self.body.payload.as_slice()) };
        let blinded = BlindedBeaconBlock {
            preset: self.preset,
            slot: self.slot,
            proposer_index: self.proposer_index,
            parent_root: self.parent_root.duplicate(),
            state_root: self.state_root.duplicate(),
            body: crate::container::BlindedBlockBody {
                randao_reveal: self.body.randao_reveal.duplicate(),
                graffiti: self.body.graffiti.duplicate(),
                payload_root,
            },
        };
        proof {
            lemma_blinding_preserves_root(self@, blinded@);
        }
        blinded
    }
}

impl BlindedBeaconBlock {
    /// Signs the blinded block: attaches the parsed signature bytes to a full
    /// copy of the message. No cryptographic check is made.
    pub fn sign(&self, signature: &str) -> (r: Result<SignedBlindedBeaconBlock, Error>)
        ensures
            r is Ok <==> valid_hex(strip_hex_prefix(signature.spec_bytes())) && strip_hex_prefix(
                signature.spec_bytes(),
            ).len() == 2 * SIGNATURE_BYTES,
            r matches Ok(sb) ==> sb@.message == self@ && sb@.signature == hex_decoded(
                strip_hex_prefix(signature.spec_bytes()),
            ) && (self.wf() ==> sb.wf()),
            !valid_hex(strip_hex_prefix(signature.spec_bytes())) ==> r matches Err(
                Error::InvalidSignatureEncoding(_),
            ),
            valid_hex(strip_hex_prefix(signature.spec_bytes())) && strip_hex_prefix(
                signature.spec_bytes(),
            ).len() != 2 * SIGNATURE_BYTES ==> r matches Err(Error::InvalidSignatureLength(_)),
    {
        let sig = match parse_signature(signature) {
            Ok(sig) => sig,
            Err(e) => {
                return Err(e);
            },
        };
        Ok(SignedBlindedBeaconBlock { message: self.duplicate(), signature: sig })
    }

    /// The blinded block's root as `0x`-prefixed hex.
    pub fn block_hash_tree_root(&self) -> (s: String)
        ensures
            s@ == seq!['0', 'x'] + chars_of_bytes(hex_bytes_of(blinded_block_root_v(self@))),
    {
        let root = self.hash_tree_root();
        format_hash_tree_root(&root)
    }

    /// The header dictionary of the blinded block.
    pub fn header_dict(&self) -> (d: BlockHeaderDict)
        ensures
            d.slot@ == chars_of_bytes(dec_bytes_of(self.slot as nat)),
            d.proposer_index@ == chars_of_bytes(dec_bytes_of(self.proposer_index as nat)),
            d.parent_root@ == seq!['0', 'x'] + chars_of_bytes(hex_bytes_of(self.parent_root@)),
            d.state_root@ == seq!['0', 'x'] + chars_of_bytes(hex_bytes_of(self.state_root@)),
            d.body_root@ == seq!['0', 'x'] + chars_of_bytes(
                hex_bytes_of(blinded_body_root_v(self@.body)),
            ),
    {
        header_dict_impl(self)
    }
}

} // verus!
