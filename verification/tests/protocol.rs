use zkp_login::encoding::decode_hex;
use zkp_login::schnorr::{derive_challenge, prove, verify, LoginProof, MalformedProof, PublicKey};

const SECRET: &str = "1f1e1d1c1b1a191817161514131211100f0e0d0c0b0a09080706050403020100";
const NONCE: &str = "00112233445566778899aabbccddeeff00112233445566778899aabbccddeeff";
const PUBLIC: &str = "02984225585d2285c138033d6140e3cef8b91859704e53c313f8b636ba4f967649";
const COMMITMENT: &str = "03798953e7e8134fdf3c139f63d3fbccc252a28b6ca5059e618374a81231240f3f";
const RESPONSE_ALICE: &str = "36947f977b4b93af1998a8ad68ee17f4e5e958eb64ed9d4b1e31d95488e85213";
const RESPONSE_BOB: &str = "375cac241be0fdf729d2e693a1b5e8e820841d92f62f860c57aa2eb52cf6fb07";
const ORDER: &str = "ffffffff00000000ffffffffffffffffbce6faada7179e84f3b9cac2fc632551";
const ORDER_LESS_ONE: &str = "ffffffff00000000ffffffffffffffffbce6faada7179e84f3b9cac2fc632550";
const BASE_POINT: &str = "036b17d1f2e12c4247f8bce6e563a440f277037d812deb33a0f4a13945d898c296";

fn hex(text: &str) -> Vec<u8> {
    decode_hex(text.as_bytes()).unwrap()
}

fn scalar(v: u64) -> Vec<u8> {
    let mut bytes = vec![0u8; 24];
    bytes.extend_from_slice(&v.to_be_bytes());
    bytes
}

fn next(state: &mut u64) -> u64 {
    *state ^= *state << 13;
    *state ^= *state >> 7;
    *state ^= *state << 17;
    *state
}

fn random_scalar(state: &mut u64) -> Vec<u8> {
    let mut bytes = Vec::new();
    for _ in 0..4 {
        bytes.extend_from_slice(&next(state).to_be_bytes());
    }
    bytes[0] &= 0x7f;
    bytes
}

#[test]
fn public_key_of_one_is_the_base_point() {
    let key = PublicKey::from_secret(&scalar(1)).unwrap();
    assert_eq!(key.as_bytes(), hex(BASE_POINT).as_slice());
}

#[test]
fn public_keys_of_small_secrets() {
    let two = PublicKey::from_secret(&scalar(2)).unwrap();
    assert_eq!(
        two.as_bytes(),
        hex("037cf27b188d034f7e8a52380304b51ac3c08969e277f21b35a60b48fc47669978").as_slice()
    );
    let three = PublicKey::from_secret(&scalar(3)).unwrap();
    assert_eq!(
        three.as_bytes(),
        hex("025ecbe4d1a6330a44c8f7ef951d4bf165e6c6b721efada985fb41661bc6e7fd6c").as_slice()
    );
}

#[test]
fn public_key_of_the_largest_secret_is_the_negated_base_point() {
    let key = PublicKey::from_secret(&hex(ORDER_LESS_ONE)).unwrap();
    assert_eq!(
        key.as_bytes(),
        hex("026b17d1f2e12c4247f8bce6e563a440f277037d812deb33a0f4a13945d898c296").as_slice()
    );
}

#[test]
fn public_key_of_known_secret() {
    let key = PublicKey::from_secret(&hex(SECRET)).unwrap();
    assert_eq!(key.as_bytes(), hex(PUBLIC).as_slice());
}

#[test]
fn secret_must_be_a_nonzero_scalar() {
    assert!(PublicKey::from_secret(&scalar(0)).is_none());
    assert!(PublicKey::from_secret(&hex(ORDER)).is_none());
    assert!(PublicKey::from_secret(&[1u8; 31]).is_none());
    assert!(PublicKey::from_secret(&[1u8; 33]).is_none());
    assert!(PublicKey::from_secret(&[]).is_none());
}

#[test]
fn public_key_from_bytes_accepts_points_only() {
    assert!(PublicKey::from_bytes(&hex(PUBLIC)).is_some());
    assert!(PublicKey::from_bytes(&hex(BASE_POINT)).is_some());
    // x = 5 has a y on the curve, x = 1 has none
    let mut on = vec![2u8];
    on.extend_from_slice(&scalar(5));
    assert!(PublicKey::from_bytes(&on).is_some());
    on[0] = 3;
    assert!(PublicKey::from_bytes(&on).is_some());
    let mut off = vec![2u8];
    off.extend_from_slice(&scalar(1));
    assert!(PublicKey::from_bytes(&off).is_none());
    // x is the field prime itself: not below it
    let mut over = vec![2u8];
    over.extend_from_slice(&hex("ffffffff00000001000000000000000000000000ffffffffffffffffffffffff"));
    assert!(PublicKey::from_bytes(&over).is_none());
}

#[test]
fn public_key_from_bytes_rejects_other_shapes() {
    assert!(PublicKey::from_bytes(&[]).is_none());
    assert!(PublicKey::from_bytes(&[0]).is_none());
    assert!(PublicKey::from_bytes(b"zzz").is_none());
    let mut compact = hex(BASE_POINT);
    compact[0] = 5;
    assert!(PublicKey::from_bytes(&compact).is_none());
    let mut uncompressed = vec![4u8];
    uncompressed.extend_from_slice(&hex("6b17d1f2e12c4247f8bce6e563a440f277037d812deb33a0f4a13945d898c296"));
    uncompressed.extend_from_slice(&hex("4fe342e2fe1a7f9b8ee7eb4a7c0f9e162bce33576b315ececbb6406837bf51f5"));
    assert!(PublicKey::from_bytes(&uncompressed).is_none());
    assert!(PublicKey::from_bytes(&hex(BASE_POINT)[..32]).is_none());
}

#[test]
fn challenge_of_known_inputs() {
    let e = derive_challenge(&hex(COMMITMENT), &hex(PUBLIC), b"alice");
    assert_eq!(e, hex("97064909b315b96fe4c0d1b3eb08550931173f3e463619a4446d6d6c05fd38cf"));
    let e = derive_challenge(&hex(COMMITMENT), &hex(PUBLIC), b"bob");
    assert_eq!(e, hex("b04d33355db25cb617a85a2e25e471bc6dfb7a5c84f46d00a1f35628f920559f"));
}

#[test]
fn challenge_binds_commitment_key_and_payload() {
    let base = derive_challenge(&hex(COMMITMENT), &hex(PUBLIC), b"alice");
    assert_ne!(base, derive_challenge(&hex(BASE_POINT), &hex(PUBLIC), b"alice"));
    assert_ne!(base, derive_challenge(&hex(COMMITMENT), &hex(BASE_POINT), b"alice"));
    assert_ne!(base, derive_challenge(&hex(COMMITMENT), &hex(PUBLIC), b"alicf"));
}

#[test]
fn honest_proof_has_the_expected_parts() {
    let proof = prove(&hex(SECRET), &hex(NONCE), "alice").unwrap();
    assert_eq!(proof.commitment(), hex(COMMITMENT).as_slice());
    assert_eq!(proof.response(), hex(RESPONSE_ALICE).as_slice());
    let proof = prove(&hex(SECRET), &hex(NONCE), "bob").unwrap();
    assert_eq!(proof.commitment(), hex(COMMITMENT).as_slice());
    assert_eq!(proof.response(), hex(RESPONSE_BOB).as_slice());
}

#[test]
fn honest_proof_is_accepted() {
    let key = PublicKey::from_secret(&hex(SECRET)).unwrap();
    let proof = prove(&hex(SECRET), &hex(NONCE), "alice").unwrap();
    assert!(verify(&key, &proof, "alice"));
}

#[test]
fn honest_proofs_are_accepted_for_many_keys() {
    let mut state = 0x9e3779b97f4a7c15u64;
    for round in 0..24 {
        let secret = random_scalar(&mut state);
        let nonce = random_scalar(&mut state);
        let payload = format!("user-{}", round);
        let key = PublicKey::from_secret(&secret).unwrap();
        let proof = prove(&secret, &nonce, &payload).unwrap();
        assert!(verify(&key, &proof, &payload));
    }
}

#[test]
fn proof_for_another_payload_is_rejected() {
    let key = PublicKey::from_secret(&hex(SECRET)).unwrap();
    let proof = prove(&hex(SECRET), &hex(NONCE), "bob").unwrap();
    assert!(!verify(&key, &proof, "alice"));
    let proof = prove(&hex(SECRET), &hex(NONCE), "alice").unwrap();
    assert!(!verify(&key, &proof, "bob"));
    assert!(!verify(&key, &proof, ""));
    assert!(!verify(&key, &proof, "alice "));
}

#[test]
fn proof_for_another_key_is_rejected() {
    let other = PublicKey::from_secret(&scalar(2)).unwrap();
    let proof = prove(&hex(SECRET), &hex(NONCE), "alice").unwrap();
    assert!(!verify(&other, &proof, "alice"));
}

#[test]
fn response_of_another_proof_is_rejected() {
    let key = PublicKey::from_bytes(&hex(PUBLIC)).unwrap();
    let mixed = LoginProof::decode(&hex(COMMITMENT), &hex(RESPONSE_BOB)).unwrap();
    assert!(!verify(&key, &mixed, "alice"));
    let right = LoginProof::decode(&hex(COMMITMENT), &hex(RESPONSE_ALICE)).unwrap();
    assert!(verify(&key, &right, "alice"));
}

#[test]
fn random_pairs_are_rejected() {
    let key = PublicKey::from_bytes(&hex(PUBLIC)).unwrap();
    let mut state = 0x2545f4914f6cdd1du64;
    let mut accepted = 0;
    for _ in 0..48 {
        let commitment = PublicKey::from_secret(&random_scalar(&mut state)).unwrap();
        let response = random_scalar(&mut state);
        let proof = LoginProof::decode(commitment.as_bytes(), &response).unwrap();
        if verify(&key, &proof, "alice") {
            accepted += 1;
        }
    }
    assert_eq!(accepted, 0);
}

#[test]
fn commitment_at_infinity_is_malformed() {
    let decoded = LoginProof::decode(&[0], &hex(RESPONSE_ALICE));
    assert_eq!(decoded.err(), Some(MalformedProof::CommitmentAtInfinity));
}

#[test]
fn commitment_off_the_curve_is_malformed() {
    let mut off = vec![2u8];
    off.extend_from_slice(&scalar(1));
    let decoded = LoginProof::decode(&off, &hex(RESPONSE_ALICE));
    assert_eq!(decoded.err(), Some(MalformedProof::CommitmentNotOnCurve));
    let decoded = LoginProof::decode(&[], &hex(RESPONSE_ALICE));
    assert_eq!(decoded.err(), Some(MalformedProof::CommitmentNotOnCurve));
    let decoded = LoginProof::decode(&[0, 0], &hex(RESPONSE_ALICE));
    assert_eq!(decoded.err(), Some(MalformedProof::CommitmentNotOnCurve));
    let mut tagged = hex(COMMITMENT);
    tagged[0] = 4;
    let decoded = LoginProof::decode(&tagged, &hex(RESPONSE_ALICE));
    assert_eq!(decoded.err(), Some(MalformedProof::CommitmentNotOnCurve));
}

#[test]
fn response_out_of_range_is_malformed() {
    let decoded = LoginProof::decode(&hex(COMMITMENT), &hex(ORDER));
    assert_eq!(decoded.err(), Some(MalformedProof::ResponseOutOfRange));
    let decoded = LoginProof::decode(&hex(COMMITMENT), &[0xff; 32]);
    assert_eq!(decoded.err(), Some(MalformedProof::ResponseOutOfRange));
    let decoded = LoginProof::decode(&hex(COMMITMENT), &[1; 31]);
    assert_eq!(decoded.err(), Some(MalformedProof::ResponseOutOfRange));
    let decoded = LoginProof::decode(&hex(COMMITMENT), &[1; 33]);
    assert_eq!(decoded.err(), Some(MalformedProof::ResponseOutOfRange));
    assert!(LoginProof::decode(&hex(COMMITMENT), &hex(ORDER_LESS_ONE)).is_ok());
}

#[test]
fn response_zero_is_malformed() {
    let decoded = LoginProof::decode(&hex(COMMITMENT), &[0; 32]);
    assert_eq!(decoded.err(), Some(MalformedProof::ResponseZero));
}

#[test]
fn commitment_defect_is_named_before_response_defect() {
    let decoded = LoginProof::decode(&[0], &[0; 32]);
    assert_eq!(decoded.err(), Some(MalformedProof::CommitmentAtInfinity));
    let decoded = LoginProof::decode(b"zzz", &[0xff; 32]);
    assert_eq!(decoded.err(), Some(MalformedProof::CommitmentNotOnCurve));
}

#[test]
fn decoded_proof_keeps_its_parts() {
    let proof = LoginProof::decode(&hex(COMMITMENT), &hex(RESPONSE_ALICE)).unwrap();
    assert_eq!(proof.commitment(), hex(COMMITMENT).as_slice());
    assert_eq!(proof.response(), hex(RESPONSE_ALICE).as_slice());
}

#[test]
fn prover_needs_a_key_and_a_nonce() {
    assert!(prove(&scalar(0), &hex(NONCE), "alice").is_none());
    assert!(prove(&hex(ORDER), &hex(NONCE), "alice").is_none());
    assert!(prove(&hex(SECRET), &scalar(0), "alice").is_none());
    assert!(prove(&hex(SECRET), &hex(ORDER), "alice").is_none());
    assert!(prove(&hex(SECRET), &[1; 16], "alice").is_none());
    assert!(prove(&hex(SECRET), &hex(ORDER_LESS_ONE), "alice").is_some());
}

#[test]
fn challenge_is_reduced_below_the_order() {
    // the digest of this input is ffffffffccc955ca..., which is above the order
    let e = derive_challenge(&[], &[], b"payload-2200776097");
    assert_eq!(e, hex("00000000ccc955c9e893b9814e60e513fe803806a803f17ce869578d968121ff"));
}

#[test]
fn only_the_honest_response_is_accepted() {
    let key = PublicKey::from_bytes(&hex(PUBLIC)).unwrap();
    let honest = hex(RESPONSE_ALICE);
    let mut accepted = Vec::new();
    for delta in 0..=255u8 {
        let mut response = honest.clone();
        response[31] = delta;
        let proof = LoginProof::decode(&hex(COMMITMENT), &response).unwrap();
        if verify(&key, &proof, "alice") {
            accepted.push(response);
        }
    }
    assert_eq!(accepted, vec![honest]);
}

#[test]
fn nonce_of_zero_gives_no_proof() {
    assert!(prove(&hex(SECRET), &[0; 32], "alice").is_none());
    assert!(prove(&hex(SECRET), &scalar(1), "alice").is_some());
    let proof = prove(&hex(SECRET), &scalar(1), "alice").unwrap();
    assert_eq!(proof.commitment(), hex(BASE_POINT).as_slice());
}
