use k256::ecdsa::{RecoveryId, Signature, SigningKey, VerifyingKey};
use tee_matcher::attest::{
    attestation_preimage, generate_attestation, public_key, seal, sign_result, timestamp_bytes,
    AttestError, SignedAttestation, PAYLOAD_TAG, PROTOCOL_TAG, RECOVERY_OFFSET, TIMESTAMP_TAG,
};
use tiny_keccak::{Hasher, Keccak};

fn independent_digest(timestamp: u64, payload: &[u8]) -> Vec<u8> {
    let mut hasher = Keccak::v256();
    hasher.update(b"|marlin-tee-matcher|");
    hasher.update(b"|timestamp|");
    hasher.update(&timestamp.to_be_bytes());
    hasher.update(b"|trade_response|");
    hasher.update(payload);
    let mut out = [0u8; 32];
    hasher.finalize(&mut out);
    out.to_vec()
}

#[test]
fn the_tags_spell_their_names() {
    assert_eq!(&PROTOCOL_TAG[..], b"|marlin-tee-matcher|");
    assert_eq!(&TIMESTAMP_TAG[..], b"|timestamp|");
    assert_eq!(&PAYLOAD_TAG[..], b"|trade_response|");
    assert_eq!(RECOVERY_OFFSET, 27);
}

#[test]
fn a_timestamp_is_eight_big_endian_bytes() {
    assert_eq!(timestamp_bytes(0), vec![0, 0, 0, 0, 0, 0, 0, 0]);
    assert_eq!(timestamp_bytes(1), vec![0, 0, 0, 0, 0, 0, 0, 1]);
    assert_eq!(
        timestamp_bytes(0x0102030405060708),
        vec![1, 2, 3, 4, 5, 6, 7, 8]
    );
    assert_eq!(timestamp_bytes(u64::MAX), vec![255; 8]);
    assert_eq!(timestamp_bytes(1_700_000_000), 1_700_000_000u64.to_be_bytes().to_vec());
}

#[test]
fn the_preimage_is_tags_timestamp_and_payload() {
    let mut expected = Vec::new();
    expected.extend_from_slice(b"|marlin-tee-matcher|");
    expected.extend_from_slice(b"|timestamp|");
    expected.extend_from_slice(&[0, 0, 0, 0, 0x65, 0x53, 0xf1, 0x00]);
    expected.extend_from_slice(b"|trade_response|");
    expected.extend_from_slice(b"{\"matches\":[]}");
    assert_eq!(attestation_preimage(1_700_000_000, b"{\"matches\":[]}"), expected);
    assert_eq!(attestation_preimage(0, b"").len(), 20 + 11 + 8 + 16);
}

#[test]
fn a_signature_recovers_to_the_signers_key() {
    let key = [7u8; 32];
    let payload = b"{\"attestation\":\"x\",\"matches\":[],\"balance_state\":{}}".to_vec();
    let timestamp = 1_700_000_123u64;
    let att = sign_result(&key, payload.clone(), timestamp).unwrap();
    assert_eq!(att.serialized_result, payload);
    assert_eq!(att.timestamp, timestamp);
    let digest = independent_digest(timestamp, &payload);
    assert_eq!(att.digest, digest);
    assert_eq!(att.signature.len(), 64);
    assert!(att.recovery_id <= 3);
    let signature = Signature::from_slice(&att.signature).unwrap();
    let recovery_id = RecoveryId::from_byte(att.recovery_id).unwrap();
    let recovered = VerifyingKey::recover_from_prehash(&digest, &signature, recovery_id).unwrap();
    let signer = SigningKey::from_slice(&key).unwrap();
    assert_eq!(&recovered, signer.verifying_key());
    // another timestamp gives another digest, and the old signature no longer
    // recovers to the signer
    let other = independent_digest(timestamp + 1, &payload);
    assert_ne!(other, digest);
    let stray = VerifyingKey::recover_from_prehash(&other, &signature, recovery_id);
    assert!(stray.map(|k| &k != signer.verifying_key()).unwrap_or(true));
}

#[test]
fn signing_is_deterministic() {
    let key = [0x42u8; 32];
    let a = sign_result(&key, b"payload".to_vec(), 5).unwrap();
    let b = sign_result(&key, b"payload".to_vec(), 5).unwrap();
    assert_eq!(a, b);
    let c = sign_result(&key, b"payload".to_vec(), 6).unwrap();
    assert_ne!(a.signature, c.signature);
    let (expected, recovery_id) = SigningKey::from_slice(&key)
        .unwrap()
        .sign_prehash_recoverable(&independent_digest(5, b"payload"))
        .unwrap();
    assert_eq!(a.signature, expected.to_bytes().to_vec());
    assert_eq!(a.recovery_id, recovery_id.to_byte());
}

#[test]
fn an_unusable_key_gives_no_attestation() {
    assert_eq!(sign_result(&[], b"p".to_vec(), 1), Err(AttestError::SigningUnavailable));
    assert_eq!(sign_result(&[1, 2, 3, 4], b"p".to_vec(), 1), Err(AttestError::SigningUnavailable));
    assert_eq!(sign_result(&[5, 6, 7, 8], b"p".to_vec(), 1), Err(AttestError::SigningUnavailable));
    assert_eq!(sign_result(&[1u8; 33], b"p".to_vec(), 1), Err(AttestError::SigningUnavailable));
    assert_eq!(sign_result(&[0u8; 32], b"p".to_vec(), 1), Err(AttestError::SigningUnavailable));
    assert_eq!(sign_result(&[0xffu8; 32], b"p".to_vec(), 1), Err(AttestError::SigningUnavailable));
}

#[test]
fn sealing_needs_a_signature_that_recovers_to_the_signer() {
    let sealed = seal(
        vec![1, 2],
        9,
        vec![3; 32],
        Some((vec![4; 64], 1)),
        Some(vec![2; 33]),
        Some(vec![2; 33]),
    );
    assert_eq!(
        sealed,
        Ok(SignedAttestation {
            serialized_result: vec![1, 2],
            digest: vec![3; 32],
            signature: vec![4; 64],
            recovery_id: 1,
            timestamp: 9,
        })
    );
    let signed = || Some((vec![4u8; 64], 1u8));
    let signer = || Some(vec![2u8; 33]);
    assert_eq!(
        seal(vec![1, 2], 9, vec![3; 32], signed(), signer(), Some(vec![3; 33])),
        Err(AttestError::Unrecoverable)
    );
    assert_eq!(
        seal(vec![1, 2], 9, vec![3; 32], signed(), signer(), Some(vec![2; 32])),
        Err(AttestError::Unrecoverable)
    );
    assert_eq!(
        seal(vec![1, 2], 9, vec![3; 32], signed(), signer(), None),
        Err(AttestError::Unrecoverable)
    );
    assert_eq!(
        seal(vec![1, 2], 9, vec![3; 32], None, signer(), signer()),
        Err(AttestError::SigningUnavailable)
    );
    assert_eq!(
        seal(vec![1, 2], 9, vec![3; 32], signed(), None, signer()),
        Err(AttestError::SigningUnavailable)
    );
    assert_eq!(
        seal(vec![1, 2], 9, vec![3; 32], None, None, None),
        Err(AttestError::SigningUnavailable)
    );
}

#[test]
fn the_public_key_is_the_compressed_point() {
    let key = [7u8; 32];
    let expected = SigningKey::from_slice(&key).unwrap().verifying_key().to_sec1_bytes().to_vec();
    assert_eq!(public_key(&key), Some(expected));
    assert_eq!(public_key(&key).unwrap().len(), 33);
    assert_ne!(public_key(&key).unwrap(), key.to_vec());
    assert_eq!(public_key(&[]), None);
    assert_eq!(public_key(&[0u8; 32]), None);
    // the scalar one gives the generator
    let mut one = [0u8; 32];
    one[31] = 1;
    assert_eq!(
        hex::encode(public_key(&one).unwrap()),
        "0279be667ef9dcbbac55a06295ce870b07029bfcdb2dce28d959f2815b16f81798"
    );
}

#[test]
fn a_signed_result_verifies_and_a_changed_one_does_not() {
    let key = [0x11u8; 32];
    let signer = public_key(&key).unwrap();
    let att = sign_result(&key, b"{\"matches\":[]}".to_vec(), 1_700_000_000).unwrap();
    assert!(att.verify(&signer));
    assert_eq!(att.recover_signer(), Some(signer.clone()));
    assert!(!att.verify(&public_key(&[0x12u8; 32]).unwrap()));
    assert!(!att.verify(&[]));

    let mut other_time = sign_result(&key, b"{\"matches\":[]}".to_vec(), 1_700_000_000).unwrap();
    other_time.timestamp += 1;
    assert!(!other_time.verify(&signer));

    let mut other_result = sign_result(&key, b"{\"matches\":[]}".to_vec(), 1_700_000_000).unwrap();
    other_result.serialized_result.push(b' ');
    assert!(!other_result.verify(&signer));

    let mut other_digest = sign_result(&key, b"{\"matches\":[]}".to_vec(), 1_700_000_000).unwrap();
    other_digest.digest[0] ^= 1;
    assert!(!other_digest.verify(&signer));

    let mut other_signature =
        sign_result(&key, b"{\"matches\":[]}".to_vec(), 1_700_000_000).unwrap();
    other_signature.signature[40] ^= 1;
    assert!(!other_signature.verify(&signer));

    let mut other_id = sign_result(&key, b"{\"matches\":[]}".to_vec(), 1_700_000_000).unwrap();
    other_id.recovery_id ^= 1;
    assert!(!other_id.verify(&signer));
    other_id.recovery_id = 4;
    assert_eq!(other_id.recover_signer(), None);
    assert!(!other_id.verify(&signer));
}

#[test]
fn the_wire_signature_ends_with_the_raised_recovery_id() {
    let att = SignedAttestation {
        serialized_result: Vec::new(),
        digest: vec![0; 32],
        signature: vec![0x00, 0x0f, 0xa5, 0xff],
        recovery_id: 1,
        timestamp: 0,
    };
    assert_eq!(att.wire_signature(), vec![0x00, 0x0f, 0xa5, 0xff, 28]);
    assert_eq!(att.signature_hex(), "000fa5ff1c");
    let signed = sign_result(&[9u8; 32], b"x".to_vec(), 77).unwrap();
    let wire = signed.wire_signature();
    assert_eq!(wire.len(), 65);
    assert_eq!(&wire[..64], &signed.signature[..]);
    assert_eq!(wire[64], 27 + signed.recovery_id);
    assert_eq!(signed.signature_hex(), hex::encode(&wire));
    assert_eq!(signed.signature_hex().len(), 130);
}

#[test]
fn the_attestation_line_has_its_prefix() {
    assert_eq!(
        generate_attestation("{\"trader_balances\":{},\"timestamp\":5}"),
        "TEE Attestation: {\"trader_balances\":{},\"timestamp\":5}"
    );
    assert_eq!(generate_attestation(""), "TEE Attestation: ");
}
