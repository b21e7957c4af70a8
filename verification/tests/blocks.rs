use beacon_blocks::container::BeaconBlock;
use beacon_blocks::container::BeaconBlockContents;
use beacon_blocks::container::Blob;
use beacon_blocks::container::BlindedBeaconBlock;
use beacon_blocks::container::BlindedBlockBody;
use beacon_blocks::container::BlockBody;
use beacon_blocks::container::KzgProof;
use beacon_blocks::container::Root;
use beacon_blocks::container::Signature;
use beacon_blocks::container::SignedBeaconBlock;
use beacon_blocks::container::SignedBeaconBlockContents;
use beacon_blocks::container::SignedBlindedBeaconBlock;
use beacon_blocks::identity::parse_signature;
use beacon_blocks::identity::BlockHeader;
use beacon_blocks::preset::bytes_per_blob;
use beacon_blocks::preset::preset_table;
use beacon_blocks::preset::Gnosis;
use beacon_blocks::preset::PresetKind;
use beacon_blocks::ssz::decode_ssz;
use beacon_blocks::ssz::encode_ssz;
use beacon_blocks::ssz::SszCodec;
use beacon_blocks::Error;

fn root(byte: u8) -> Root {
    Root::from_bytes(vec![byte; 32]).unwrap()
}

fn signature(byte: u8) -> Signature {
    Signature::from_bytes(vec![byte; 96]).unwrap()
}

fn block(kind: PresetKind) -> BeaconBlock {
    let body = BlockBody {
        randao_reveal: signature(7),
        graffiti: root(9),
        payload: vec![1, 2, 3, 4, 5],
    };
    BeaconBlock::new(kind, 5, 3, root(0), root(2), body).unwrap()
}

fn blinded_block(kind: PresetKind) -> BlindedBeaconBlock {
    BlindedBeaconBlock {
        preset: kind,
        slot: 5,
        proposer_index: 3,
        parent_root: root(0),
        state_root: root(2),
        body: BlindedBlockBody {
            randao_reveal: signature(7),
            graffiti: root(9),
            payload_root: root(4),
        },
    }
}

fn contents(kind: PresetKind, n: usize) -> BeaconBlockContents {
    let proofs: Vec<KzgProof> = (0..n)
        .map(|i| KzgProof::from_bytes(vec![i as u8; 48]).unwrap())
        .collect();
    let blobs: Vec<Blob> = (0..n)
        .map(|i| {
            Blob::from_bytes(kind, vec![i as u8; bytes_per_blob(kind) as usize]).unwrap()
        })
        .collect();
    BeaconBlockContents::new(block(kind), proofs, blobs).unwrap()
}

const ZERO_SIG: &str = "0x000000000000000000000000000000000000000000000000000000000000000000000000000000000000000000000000000000000000000000000000000000000000000000000000000000000000000000000000000000000000000000000000";

#[test]
fn ssz_round_trip_block_all_presets() {
    for kind in [PresetKind::Mainnet, PresetKind::Minimal, PresetKind::Gnosis] {
        let b = block(kind);
        let bytes = b.to_ssz();
        let back = BeaconBlock::from_ssz(kind, &bytes).unwrap();
        assert_eq!(back, b);
    }
}

#[test]
fn ssz_round_trip_blinded_and_signed() {
    for kind in [PresetKind::Mainnet, PresetKind::Minimal, PresetKind::Gnosis] {
        let bb = blinded_block(kind);
        let back = BlindedBeaconBlock::from_ssz(kind, &bb.to_ssz()).unwrap();
        assert_eq!(back, bb);

        let sb = SignedBeaconBlock { message: block(kind), signature: signature(1) };
        let back = SignedBeaconBlock::from_ssz(kind, &sb.to_ssz()).unwrap();
        assert_eq!(back, sb);

        let sbb = SignedBlindedBeaconBlock { message: blinded_block(kind), signature: signature(1) };
        let back = SignedBlindedBeaconBlock::from_ssz(kind, &sbb.to_ssz()).unwrap();
        assert_eq!(back, sbb);
    }
}

#[test]
fn ssz_round_trip_contents() {
    let c = contents(PresetKind::Minimal, 2);
    let bytes = c.to_ssz();
    let back = BeaconBlockContents::from_ssz(PresetKind::Minimal, &bytes).unwrap();
    assert_eq!(back, c);

    let signed = c.sign(ZERO_SIG).unwrap();
    let bytes = signed.to_ssz();
    let back = SignedBeaconBlockContents::from_ssz(PresetKind::Minimal, &bytes).unwrap();
    assert_eq!(back, signed);
}

#[test]
fn ssz_generic_helpers_round_trip() {
    let b = block(PresetKind::Gnosis);
    let bytes = encode_ssz(&b);
    let back: BeaconBlock = decode_ssz(PresetKind::Gnosis, &bytes).unwrap();
    assert_eq!(back, b);
}

#[test]
fn json_round_trip_all_shapes() {
    let kind = PresetKind::Minimal;
    let b = block(kind);
    assert_eq!(BeaconBlock::from_json(kind, &b.to_json()).unwrap(), b);

    let bb = blinded_block(kind);
    assert_eq!(BlindedBeaconBlock::from_json(kind, &bb.to_json()).unwrap(), bb);

    let sb = SignedBeaconBlock { message: block(kind), signature: signature(1) };
    assert_eq!(SignedBeaconBlock::from_json(kind, &sb.to_json()).unwrap(), sb);

    let sbb = SignedBlindedBeaconBlock { message: blinded_block(kind), signature: signature(1) };
    assert_eq!(SignedBlindedBeaconBlock::from_json(kind, &sbb.to_json()).unwrap(), sbb);

    let c = contents(kind, 1);
    assert_eq!(BeaconBlockContents::from_json(kind, &c.to_json()).unwrap(), c);

    let sc = c.sign(ZERO_SIG).unwrap();
    assert_eq!(SignedBeaconBlockContents::from_json(kind, &sc.to_json()).unwrap(), sc);
}

#[test]
fn json_shape_is_the_expected_envelope() {
    let b = block(PresetKind::Mainnet);
    let text = String::from_utf8(b.to_json()).unwrap();
    assert!(text.starts_with("{\"data\":{\"slot\":\"5\",\"proposer_index\":\"3\",\"parent_root\":\"0x"));
    assert!(text.contains("\"body\":{\"randao_reveal\":\"0x"));
    assert!(text.contains("\"payload\":\"0x0102030405\""));
    assert!(text.ends_with("}}"));
}

#[test]
fn json_rejects_bad_syntax_and_capacity() {
    let kind = PresetKind::Minimal;
    assert!(matches!(
        BeaconBlock::from_json(kind, b"not json at all"),
        Err(Error::MalformedTextEncoding(_))
    ));
    // A reordered or misnamed key is not the canonical envelope.
    let b = block(kind);
    let mut text = String::from_utf8(b.to_json()).unwrap();
    text = text.replace("proposer_index", "proposer_INDEX");
    assert!(matches!(
        BeaconBlock::from_json(kind, text.as_bytes()),
        Err(Error::MalformedTextEncoding(_))
    ));
    // Trailing bytes after the envelope are rejected.
    let mut bytes = b.to_json();
    bytes.push(b' ');
    assert!(matches!(
        BeaconBlock::from_json(kind, &bytes),
        Err(Error::MalformedTextEncoding(_))
    ));
    // A proof list over the Minimal capacity fails as malformed text.
    let big = contents(PresetKind::Mainnet, 17);
    let text = big.to_json();
    assert!(matches!(
        BeaconBlockContents::from_json(PresetKind::Minimal, &text),
        Err(Error::MalformedTextEncoding(_))
    ));
}

#[test]
fn binary_capacity_rejection_and_trailing_bytes() {
    // Too short.
    assert!(matches!(
        BeaconBlock::from_ssz(PresetKind::Mainnet, &[0u8; 10]),
        Err(Error::MalformedBinaryEncoding(_))
    ));
    // Trailing unconsumed bytes.
    let b = block(PresetKind::Mainnet);
    let mut bytes = b.to_ssz();
    bytes.push(0);
    assert!(matches!(
        BeaconBlock::from_ssz(PresetKind::Mainnet, &bytes),
        Err(Error::MalformedBinaryEncoding(_))
    ));
    // A list over the bound preset's capacity never silently truncates.
    let big = contents(PresetKind::Mainnet, 17);
    let bytes = big.to_ssz();
    assert!(matches!(
        BeaconBlockContents::from_ssz(PresetKind::Minimal, &bytes),
        Err(Error::MalformedBinaryEncoding(_))
    ));
}

#[test]
fn cross_preset_isolation() {
    // Seventeen sidecars fit Mainnet (capacity 4096) but not Minimal (16).
    let c = contents(PresetKind::Mainnet, 17);
    let bytes = c.to_ssz();
    assert!(BeaconBlockContents::from_ssz(PresetKind::Mainnet, &bytes).is_ok());
    assert!(BeaconBlockContents::from_ssz(PresetKind::Minimal, &bytes).is_err());
    // A shape with no variable field decodes under either preset, but the
    // instances are bound to different presets and compare unequal.
    let bb = blinded_block(PresetKind::Mainnet);
    let other = BlindedBeaconBlock::from_ssz(PresetKind::Minimal, &bb.to_ssz()).unwrap();
    assert_ne!(other, bb);
    assert_eq!(other.preset, PresetKind::Minimal);
}

#[test]
fn root_determinism() {
    let b = block(PresetKind::Gnosis);
    let r1 = b.hash_tree_root();
    let r2 = b.hash_tree_root();
    assert_eq!(r1, r2);
    let same = block(PresetKind::Gnosis);
    assert_eq!(same.hash_tree_root(), r1);
    assert_eq!(r1.bytes.len(), 32);
}

#[test]
fn root_sensitivity() {
    let kind = PresetKind::Mainnet;
    let base = block(kind);
    let r = base.hash_tree_root();

    let mut changed = block(kind);
    changed.slot = 6;
    assert_ne!(changed.hash_tree_root(), r);

    let mut changed = block(kind);
    changed.proposer_index = 4;
    assert_ne!(changed.hash_tree_root(), r);

    let mut changed = block(kind);
    changed.parent_root = root(1);
    assert_ne!(changed.hash_tree_root(), r);

    let mut changed = block(kind);
    changed.body.payload = vec![5, 4, 3, 2, 1];
    assert_ne!(changed.hash_tree_root(), r);

    // Reordering a list changes the contents root.
    let c = contents(kind, 2);
    let mut swapped = contents(kind, 2);
    swapped.kzg_proofs.swap(0, 1);
    assert_ne!(swapped.hash_tree_root(), c.hash_tree_root());
}

#[test]
fn signing_succeeds_and_preserves_the_message_root() {
    let kind = PresetKind::Mainnet;
    let c = contents(kind, 1);
    let signed = c.sign(ZERO_SIG).unwrap();
    assert_eq!(signed.signed_block.message, c.block);
    assert_eq!(signed.signed_block.signature.bytes, vec![0u8; 96]);
    assert_eq!(
        signed.signed_block.message.hash_tree_root(),
        c.block.hash_tree_root()
    );

    let bb = blinded_block(kind);
    let signed = bb.sign(ZERO_SIG).unwrap();
    assert_eq!(signed.message, bb);
    assert_eq!(
        signed.message.hash_tree_root().bytes,
        bb.hash_tree_root().bytes
    );
}

#[test]
fn signature_parsing_errors() {
    assert!(matches!(
        parse_signature("0xzz"),
        Err(Error::InvalidSignatureEncoding(_))
    ));
    assert!(matches!(
        parse_signature("0x00"),
        Err(Error::InvalidSignatureLength(_))
    ));
    let c = contents(PresetKind::Minimal, 0);
    assert!(matches!(c.sign("0xzz"), Err(Error::InvalidSignatureEncoding(_))));
    assert!(matches!(c.sign("0x00"), Err(Error::InvalidSignatureLength(_))));
    // Hex without a prefix, and with uppercase digits, still parses.
    let upper = "AB".repeat(96);
    let sig = parse_signature(&upper).unwrap();
    assert_eq!(sig.bytes, vec![0xabu8; 96]);
}

#[test]
fn header_dict_shape() {
    let kind = PresetKind::Mainnet;
    let c = contents(kind, 0);
    let d = c.header_dict();
    assert_eq!(d.slot, "5");
    assert_eq!(d.proposer_index, "3");
    assert_eq!(
        d.parent_root,
        format!("0x{}", "00".repeat(32))
    );
    assert_eq!(d.state_root, format!("0x{}", "02".repeat(32)));
    assert!(d.body_root.starts_with("0x"));
    assert_eq!(d.body_root.len(), 66);

    let bb = blinded_block(kind);
    let d = bb.header_dict();
    assert_eq!(d.slot, "5");
    assert_eq!(d.parent_root, format!("0x{}", "00".repeat(32)));
}

#[test]
fn header_dict_large_decimal() {
    let kind = PresetKind::Minimal;
    let body = BlockBody {
        randao_reveal: signature(0),
        graffiti: root(0),
        payload: vec![],
    };
    let b = BeaconBlock::new(kind, 1234567890123, 0, root(0), root(0), body).unwrap();
    let c = BeaconBlockContents::new(b, vec![], vec![]).unwrap();
    assert_eq!(c.header_dict().slot, "1234567890123");
}

#[test]
fn block_hash_tree_root_is_prefixed_hex() {
    let c = contents(PresetKind::Gnosis, 0);
    let s = c.block_hash_tree_root();
    assert!(s.starts_with("0x"));
    assert_eq!(s.len(), 66);
    assert!(s[2..].chars().all(|ch| ch.is_ascii_hexdigit() && !ch.is_ascii_uppercase()));
}

#[test]
fn blob_alignment_is_rejected_eagerly() {
    let kind = PresetKind::Minimal;
    let proofs = vec![KzgProof::from_bytes(vec![0u8; 48]).unwrap()];
    let blobs: Vec<Blob> = vec![];
    assert!(BeaconBlockContents::new(block(kind), proofs, blobs).is_none());
    // A wrong-sized blob is rejected too.
    assert!(Blob::from_bytes(kind, vec![0u8; 5]).is_none());
}

#[test]
fn blinding_preserves_the_block_root() {
    let kind = PresetKind::Mainnet;
    let full = block(kind);
    let blinded = full.blind();
    assert_eq!(blinded.hash_tree_root(), full.hash_tree_root());
    assert_eq!(blinded.slot, full.slot);
    // A wrong commitment does not preserve the root.
    let mut tampered = full.blind();
    tampered.body.payload_root = root(255);
    assert_ne!(tampered.hash_tree_root(), full.hash_tree_root());
}

#[test]
fn gnosis_preset_table_values() {
    let g = Gnosis;
    let t = g.table();
    assert_eq!(t, preset_table(PresetKind::Gnosis));
    assert_eq!(t.slots_per_epoch, 16);
    assert_eq!(t.base_reward_factor, 25);
    assert_eq!(t.epochs_per_sync_committee_period, 512);
    assert_eq!(t.max_validators_per_withdrawals_sweep, 8192);
    assert_eq!(t.max_withdrawals_per_payload, 8);
    assert_eq!(t.max_pending_partials_per_withdrawals_sweep, 6);
    // Derived entries stay consistent with their inputs.
    assert_eq!(
        t.max_attesters_per_slot,
        t.max_validators_per_committee * t.max_committees_per_slot
    );
    assert_eq!(t.cells_per_ext_blob * t.field_elements_per_cell, t.field_elements_per_ext_blob);
    // Mainnet differs where it should.
    let m = preset_table(PresetKind::Mainnet);
    assert_eq!(m.slots_per_epoch, 32);
    assert_eq!(m.base_reward_factor, 64);
    assert_eq!(m.max_withdrawals_per_payload, 16);
}

#[test]
fn hex_formatting_matches_known_bytes() {
    // If hex encoding were not the lowercase two-digit form, these exact
    // strings would differ.
    let mut bytes = vec![0u8; 30];
    bytes.extend_from_slice(&[0xde, 0xad]);
    let r = Root::from_bytes(bytes).unwrap();
    let kind = PresetKind::Minimal;
    let body = BlockBody { randao_reveal: signature(0), graffiti: root(0), payload: vec![] };
    let b = BeaconBlock::new(kind, 0, 0, r, root(0), body).unwrap();
    let c = BeaconBlockContents::new(b, vec![], vec![]).unwrap();
    let d = c.header_dict();
    assert_eq!(d.parent_root, format!("0x{}dead", "00".repeat(30)));
}
