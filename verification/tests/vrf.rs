use stark_vrf::curve::{pt_mul, Point, StarkCurve};
use stark_vrf::error::Error;
use stark_vrf::field::{Felt, Scalar};
use stark_vrf::hash::{pedersen_hash_str, HashToField, PedersenHash};
use stark_vrf::{ECVRF, STARK_PEDERSEN_SSWU};
use starknet_ff::FieldElement;
use starknet_crypto::poseidon_hash_many;

fn engine_for(secret: u64) -> (Scalar, ECVRF<PedersenHash>) {
    let secret_key = Scalar::from_u64(secret);
    let public_key = pt_mul(&secret_key, &StarkCurve::generator());
    let ecvrf = ECVRF::<PedersenHash>::new(STARK_PEDERSEN_SSWU, public_key).unwrap();
    (secret_key, ecvrf)
}

#[test]
fn point_serialization() {
    let g = StarkCurve::generator();
    assert!(g.is_on_curve());
    assert!(g.is_in_correct_subgroup_assuming_on_curve());

    let buf = g.serialize_compressed();
    let deg = Point::deserialize_compressed(&buf).unwrap();
    assert_eq!(g, deg);
}

#[test]
fn it_matches_cairo_hashing() {
    let buf = [
        FieldElement::from_dec_str(
            "874739451078007766457464989774322083649278607533249481151382481072868806602",
        )
        .unwrap(),
        FieldElement::from_dec_str(
            "152666792071518830868575557812948353041420400780739481342941381225525861407",
        )
        .unwrap(),
        FieldElement::from_dec_str("1").unwrap(),
        FieldElement::from_dec_str("42").unwrap(),
    ];

    let (_, ecvrf) = engine_for(190);

    let hash = poseidon_hash_many(buf.as_slice());
    let hash_in_base = Felt { limbs: hash.into_mont() };

    let point = ecvrf.mapper.map_to_curve(&hash_in_base).unwrap();
    println!("hash {hash} {hash_in_base:?}");
    println!("point {point:?}");
}

#[test]
fn it_proves() {
    let (secret_key, ecvrf) = engine_for(190);

    let alpha = b"test";
    let proof = ecvrf.prove(&secret_key, alpha).unwrap();
    let beta = ecvrf.proof_to_hash(&proof).unwrap();
    ecvrf.verify(alpha, &proof).expect("proof correct");
    println!("proof verified, beta = {beta:?}");
}

#[test]
fn proving_is_deterministic() {
    let (secret_key, ecvrf) = engine_for(190);
    let p1 = ecvrf.prove(&secret_key, b"same message").unwrap();
    let p2 = ecvrf.prove(&secret_key, b"same message").unwrap();
    assert_eq!(p1.0, p2.0);
    assert_eq!(p1.1, p2.1);
    assert_eq!(p1.2, p2.2);
}

#[test]
fn output_is_stable() {
    let (secret_key, ecvrf) = engine_for(7);
    let proof = ecvrf.prove(&secret_key, b"beta input").unwrap();
    let b1 = ecvrf.proof_to_hash(&proof).unwrap();
    let b2 = ecvrf.proof_to_hash(&proof).unwrap();
    assert_eq!(b1, b2);
}

#[test]
fn wrong_secret_key_is_rejected() {
    let (_, ecvrf) = engine_for(190);
    let other = Scalar::from_u64(191);
    let r = ecvrf.prove(&other, b"test");
    assert_eq!(r.unwrap_err(), Error::InvalidSecretKey);
}

#[test]
fn nonce_varies_with_message() {
    let (secret_key, ecvrf) = engine_for(190);
    let p1 = ecvrf.prove(&secret_key, b"message one").unwrap();
    let p2 = ecvrf.prove(&secret_key, b"message two").unwrap();
    assert_ne!(p1.1, p2.1);
}

#[test]
fn tampered_proof_is_rejected() {
    let (secret_key, ecvrf) = engine_for(190);
    let alpha = b"test";
    let (gamma, c, s) = ecvrf.prove(&secret_key, alpha).unwrap();

    // a different alpha must not verify
    assert!(ecvrf.verify(b"tesu", &(gamma, c, s)).is_err());

    // flipping a byte of the serialized gamma point breaks the proof,
    // either at decoding or at verification
    let mut gb = gamma.serialize_compressed();
    gb[0] ^= 0x01;
    match Point::deserialize_compressed(&gb) {
        Ok(gamma2) => assert!(ecvrf.verify(alpha, &(gamma2, c, s)).is_err()),
        Err(_) => {}
    }

    // perturbing the challenge or the response breaks the proof
    let mut c2 = c;
    c2.limbs[0] ^= 0x01;
    assert!(ecvrf.verify(alpha, &(gamma, c2, s)).is_err());
    let mut s2 = s;
    s2.limbs[0] ^= 0x01;
    assert!(ecvrf.verify(alpha, &(gamma, c, s2)).is_err());
}

#[test]
fn completeness_on_several_messages() {
    let (secret_key, ecvrf) = engine_for(12345);
    for alpha in [&b"ab"[..], b"abc", b"a longer message with many bytes", b"42"] {
        let proof = ecvrf.prove(&secret_key, alpha).unwrap();
        assert!(ecvrf.verify(alpha, &proof).is_ok());
    }
}

#[test]
fn hash_chain_matches_pedersen() {
    // the chain of two bytes is the Montgomery residue of one pedersen
    // hash; computing it independently through starknet-crypto must agree
    let h = pedersen_hash_str(&[5u8, 9u8]).unwrap();
    let direct = starknet_crypto::pedersen_hash(&FieldElement::from(5u8), &FieldElement::from(9u8));
    assert_eq!(h.limbs, direct.into_mont());
}

#[test]
fn hash_rejects_short_input() {
    assert!(pedersen_hash_str(&[]).is_none());
    assert!(pedersen_hash_str(&[1u8]).is_none());
    let hasher = PedersenHash::new();
    assert!(hasher.hash(&[1u8]).is_none());
    assert!(hasher.hash(&[1u8, 2u8]).is_some());
}

#[test]
fn deserialize_rejects_malformed_input() {
    // wrong length
    assert!(Point::deserialize_compressed(&[0u8; 31]).is_err());
    // both flag bits set at once
    let mut both = [0u8; 32];
    both[31] = 0xc0;
    assert!(Point::deserialize_compressed(&both).is_err());
    // x not below the modulus: p itself
    let mut too_big = [0u8; 32];
    too_big[0] = 1;
    too_big[31] = 0x08;
    too_big[24] = 0x11;
    assert!(Point::deserialize_compressed(&too_big).is_err());
    // an x that is not on the curve still decodes or fails cleanly
    let g = StarkCurve::generator();
    let round = Point::deserialize_compressed(&g.serialize_compressed()).unwrap();
    assert_eq!(round, g);
}

#[test]
fn infinity_round_trip() {
    let id = Point::identity();
    let bytes = id.serialize_compressed();
    assert_eq!(bytes[31], 0x40);
    let back = Point::deserialize_compressed(&bytes).unwrap();
    assert_eq!(back, id);
}

#[test]
fn sqrt_ratio_squares_back() {
    let u = Felt::from_byte(25);
    let v = Felt::from_byte(1);
    let z = StarkCurve::zeta();
    let r = stark_vrf::swu::sqrt_ratio(&u, &v, &z).unwrap();
    // r^2 is u/v = 25 or zeta * 25; 25 is a square (5^2), so r^2 == 25
    let r2 = stark_vrf::curve::felt_mul(&r, &r);
    assert_eq!(r2, Felt::from_byte(25));
}
