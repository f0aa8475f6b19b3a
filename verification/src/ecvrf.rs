//! The ECVRF engine over the STARK curve.
//!
//! A proof is the triple (Γ, c, s): Γ = x·H for the hashed input H, c the
//! Fiat-Shamir challenge and s = k + c·x the response, all derived through
//! the Pedersen hash-to-field and the SWU hash-to-curve.  Every byte of
//! the hashed strings — domain separators, compressed points, terminators
//! — is pinned here, since cross-implementation compatibility rests on
//! the exact serialization layout.  The challenge is a full-width scalar,
//! a deliberate deviation from designs that halve it; the nonce is
//! derived deterministically from the secret key and the hashed input, so
//! proving twice yields identical bits.

use vstd::prelude::*;
use vstd::slice::slice_to_vec;
use crate::curve::{
    fneg, generator_x, generator_y, point_bytes, pt_add, pt_add_of, pt_mul, pt_mul_of,
    lemma_point_value_eq, Point, StarkCurve,
};
use crate::error::Error;
use crate::curve::{mod_muladd, mod_reduce};
use crate::field::{
    limbs_le32, limbs_of, lemma_limbs_of_val4, push_limbs_le32, scalar_modulus, val4, Felt,
    Scalar, Q_LIMBS,
};
use crate::hash::HashToField;
use crate::swu::{swu_map, swu_ok, SwuMapper};

verus! {

/// Ciphersuite identifier of this VRF: STARK curve, Pedersen hash,
/// Simplified SWU.
pub const STARK_PEDERSEN_SSWU: u8 = 0xff;

/// A VRF proof: the gamma point, the challenge and the response.
pub type Proof = (Point, Scalar, Scalar);

/// The generator in spec form.
pub open spec fn generator_rep() -> (nat, nat, bool) {
    (generator_x(), generator_y(), false)
}

/// A point negated: the group inverse of a curve point.
pub open spec fn pt_neg_rep(p: (nat, nat, bool)) -> (nat, nat, bool) {
    (p.0, fneg(p.1), p.2)
}

/// The difference of two points, as the outside library computes it:
/// the sum with the negation.
pub open spec fn pt_sub_of(a: (nat, nat, bool), b: (nat, nat, bool)) -> (nat, nat, bool) {
    pt_add_of(a, pt_neg_rep(b))
}

/// The string hashed to a curve point: suite, the tag 0x01, the
/// compressed public key, then the message.
pub open spec fn h2c_string(suite: u8, pk: (nat, nat, bool), alpha: Seq<u8>) -> Seq<u8> {
    seq![suite, 1u8] + point_bytes(pk) + alpha
}

/// The compressed encodings of a list of points, concatenated.
pub open spec fn points_bytes(pts: Seq<(nat, nat, bool)>) -> Seq<u8>
    decreases pts.len(),
{
    if pts.len() == 0 {
        Seq::empty()
    } else {
        point_bytes(pts[0]) + points_bytes(pts.drop_first())
    }
}

/// The Fiat-Shamir challenge string: suite, the tag 0x02, the compressed
/// points, then the 0x00 terminator.
pub open spec fn challenge_string(suite: u8, pts: Seq<(nat, nat, bool)>) -> Seq<u8> {
    seq![suite, 2u8] + points_bytes(pts) + seq![0u8]
}

/// The proof-to-hash string: suite, the tag 0x03, the compressed gamma
/// point, then the 0x00 terminator.
pub open spec fn ptoh_string(suite: u8, gamma: (nat, nat, bool)) -> Seq<u8> {
    seq![suite, 3u8] + point_bytes(gamma) + seq![0u8]
}

/// The nonce string: the compressed secret key, then the message.
pub open spec fn nonce_string(sk: nat, msg: Seq<u8>) -> Seq<u8> {
    limbs_le32(limbs_of(sk)) + msg
}

/// The hash-to-field value the hash-to-curve step feeds to the SWU map.
pub open spec fn spec_h2c_hash<H: HashToField>(
    suite: u8,
    pk: (nat, nat, bool),
    alpha: Seq<u8>,
) -> nat {
    H::hash_spec(h2c_string(suite, pk, alpha))
}

/// The curve point a message hashes to.
pub open spec fn spec_h2c<H: HashToField>(
    suite: u8,
    pk: (nat, nat, bool),
    alpha: Seq<u8>,
) -> (nat, nat, bool) {
    swu_map(spec_h2c_hash::<H>(suite, pk, alpha))
}

/// The deterministic nonce: hash of the key and message, reinterpreted in
/// the scalar field.
pub open spec fn spec_nonce<H: HashToField>(sk: nat, msg: Seq<u8>) -> nat {
    H::hash_spec(nonce_string(sk, msg)) % scalar_modulus()
}

/// The Fiat-Shamir challenge over a list of points, a full-width scalar.
pub open spec fn spec_challenge<H: HashToField>(suite: u8, pts: Seq<(nat, nat, bool)>) -> nat {
    H::hash_spec(challenge_string(suite, pts)) % scalar_modulus()
}

/// The proof that `prove` computes, as a function of the engine state,
/// the secret key and the message alone.
#[verifier::opaque]
pub open spec fn spec_prove<H: HashToField>(
    suite: u8,
    pk: (nat, nat, bool),
    sk: nat,
    alpha: Seq<u8>,
) -> ((nat, nat, bool), nat, nat) {
    let h = spec_h2c::<H>(suite, pk, alpha);
    let gamma = pt_mul_of(sk, h);
    let k = spec_nonce::<H>(sk, point_bytes(h));
    let c = spec_challenge::<H>(
        suite,
        seq![pk, h, gamma, pt_mul_of(k, generator_rep()), pt_mul_of(k, h)],
    );
    let s = (k + c * sk) % scalar_modulus();
    (gamma, c, s)
}

/// The verification equation: the challenge recomputed from the proof
/// matches the proof's challenge.
#[verifier::opaque]
pub open spec fn spec_verify_ok<H: HashToField>(
    suite: u8,
    pk: (nat, nat, bool),
    alpha: Seq<u8>,
    pf: ((nat, nat, bool), nat, nat),
) -> bool {
    let h = spec_h2c::<H>(suite, pk, alpha);
    let u = pt_sub_of(pt_mul_of(pf.2, generator_rep()), pt_mul_of(pf.1, pk));
    let v = pt_sub_of(pt_mul_of(pf.2, h), pt_mul_of(pf.1, pf.0));
    pf.1 == spec_challenge::<H>(suite, seq![pk, h, pf.0, u, v])
}

/// The VRF output ("beta") of a proof.
pub open spec fn spec_proof_to_hash<H: HashToField>(suite: u8, gamma: (nat, nat, bool)) -> nat {
    H::hash_spec(ptoh_string(suite, gamma))
}

/// `spec_prove`, component by component.
proof fn lemma_spec_prove_unfold<H: HashToField>(
    suite: u8,
    pk: (nat, nat, bool),
    sk: nat,
    alpha: Seq<u8>,
)
    ensures
        ({
            let h = spec_h2c::<H>(suite, pk, alpha);
            let gamma = pt_mul_of(sk, h);
            let k = spec_nonce::<H>(sk, point_bytes(h));
            let c = spec_challenge::<H>(
                suite,
                seq![pk, h, gamma, pt_mul_of(k, generator_rep()), pt_mul_of(k, h)],
            );
            spec_prove::<H>(suite, pk, sk, alpha) == (gamma, c, (k + c * sk)
                % scalar_modulus())
        }),
{
    reveal(spec_prove);
}

/// `spec_verify_ok`, as the challenge equation it is.
proof fn lemma_spec_verify_unfold<H: HashToField>(
    suite: u8,
    pk: (nat, nat, bool),
    alpha: Seq<u8>,
    pf: ((nat, nat, bool), nat, nat),
)
    ensures
        spec_verify_ok::<H>(suite, pk, alpha, pf) == ({
            let h = spec_h2c::<H>(suite, pk, alpha);
            let u = pt_sub_of(pt_mul_of(pf.2, generator_rep()), pt_mul_of(pf.1, pk));
            let v = pt_sub_of(pt_mul_of(pf.2, h), pt_mul_of(pf.1, pf.0));
            pf.1 == spec_challenge::<H>(suite, seq![pk, h, pf.0, u, v])
        }),
{
    reveal(spec_verify_ok);
}

/// Appending a point to a list appends its encoding to the list's bytes.
proof fn lemma_points_bytes_push(pts: Seq<(nat, nat, bool)>, p: (nat, nat, bool))
    ensures
        points_bytes(pts.push(p)) == points_bytes(pts) + point_bytes(p),
    decreases pts.len(),
{
    if pts.len() == 0 {
        assert(pts.push(p).drop_first() =~= pts);
        assert(points_bytes(pts.push(p)) =~= points_bytes(pts) + point_bytes(p));
    } else {
        assert(pts.push(p).drop_first() =~= pts.drop_first().push(p));
        lemma_points_bytes_push(pts.drop_first(), p);
        assert(points_bytes(pts.push(p)) =~= points_bytes(pts) + point_bytes(p));
    }
}

/// The ECVRF engine: a ciphersuite byte, a public key, the SWU mapper and
/// a hash-to-field capability, all immutable after construction.
pub struct ECVRF<H: HashToField> {
    pub suite: u8,
    pub public_key: Point,
    pub mapper: SwuMapper,
    pub hasher: H,
}

impl<H: HashToField> ECVRF<H> {
    /// The engine is usable: its public key is a curve point, as callers
    /// must guarantee when constructing it.
    pub open spec fn wf(&self) -> bool {
        self.public_key.wf()
    }

    /// Assembles an engine from a ciphersuite byte and a public key.  The
    /// key is stored verbatim and not validated beyond the caller's
    /// obligation that it is a curve point; only mapper construction can
    /// fail, and never for this curve's constants.
    pub fn new(suite: u8, public_key: Point) -> (r: Result<Self, Error>)
        requires
            public_key.wf(),
        ensures
            r matches Ok(e) ==> e.wf() && e.suite == suite && e.public_key == public_key,
            r is Ok <==> crate::curve::sqrt_of(crate::curve::swu_zeta()) is None,
    {
        let mapper = match SwuMapper::new() {
            Ok(m) => m,
            Err(e) => {
                return Err(e);
            },
        };
        Ok(ECVRF { suite, public_key, mapper, hasher: H::new() })
    }

    /// Produces the proof (Γ, c, s) for a message under the secret key.
    /// The key must reproduce the engine's public key, or the call fails
    /// with `InvalidSecretKey`; with a matching key it fails only if the
    /// curve mapping does, which this curve's constants never cause, and
    /// the proof is then exactly `spec_prove`, so proving is
    /// deterministic.
    #[verifier::rlimit(100)]
    #[verifier::spinoff_prover]
    pub fn prove(&self, secret_key: &Scalar, alpha: &[u8]) -> (r: Result<Proof, Error>)
        requires
            self.wf(),
            secret_key.wf(),
        ensures
            (pt_mul_of(secret_key@, generator_rep()) != self.public_key@) <==> (r
                == Err::<Proof, Error>(Error::InvalidSecretKey)),
            r matches Ok(pf) ==> pf.0.wf() && pf.1.wf() && pf.2.wf() && (pf.0@, pf.1@, pf.2@)
                == spec_prove::<H>(self.suite, self.public_key@, secret_key@, alpha@),
            r is Ok <==> (pt_mul_of(secret_key@, generator_rep()) == self.public_key@ && swu_ok(
                spec_h2c_hash::<H>(self.suite, self.public_key@, alpha@),
            )),
    {
        let g = StarkCurve::generator();
        let pk_from_secret = pt_mul(secret_key, &g);
        let keys_match = self.public_key == pk_from_secret;
        proof {
            if self.public_key@ == pk_from_secret@ {
                lemma_point_value_eq(self.public_key, pk_from_secret);
            }
        }
        if !keys_match {
            return Err(Error::InvalidSecretKey);
        }
        let h = match self.hash_to_curve(alpha) {
            Ok(h) => h,
            Err(e) => {
                return Err(e);
            },
        };
        let pf = self.proof_parts(secret_key, &h);
        proof {
            lemma_spec_prove_unfold::<H>(self.suite, self.public_key@, secret_key@, alpha@);
        }
        Ok(pf)
    }

    /// Assembles (Γ, c, s) from the secret key and the hashed-to-curve
    /// point: Γ = x·H, the nonce k from the key and the compressed H, the
    /// challenge over (Y, H, Γ, k·G, k·H), and s = k + c·x.
    fn proof_parts(&self, secret_key: &Scalar, h: &Point) -> (r: Proof)
        requires
            self.wf(),
            secret_key.wf(),
            h.wf(),
        ensures
            r.0.wf(),
            r.1.wf(),
            r.2.wf(),
            ({
                let gamma = pt_mul_of(secret_key@, h@);
                let k = spec_nonce::<H>(secret_key@, point_bytes(h@));
                let c = spec_challenge::<H>(
                    self.suite,
                    seq![
                        self.public_key@,
                        h@,
                        gamma,
                        pt_mul_of(k, generator_rep()),
                        pt_mul_of(k, h@),
                    ],
                );
                r.0@ == gamma && r.1@ == c && r.2@ == (k + c * secret_key@)
                    % scalar_modulus()
            }),
    {
        let g = StarkCurve::generator();
        let h_string = h.serialize_compressed();
        let gamma = pt_mul(secret_key, h);
        let k = match self.nonce(secret_key, h_string.as_slice()) {
            Ok(k) => k,
            Err(_) => unreached(),
        };
        let kg = pt_mul(&k, &g);
        let kh = pt_mul(&k, h);
        let points = vec![self.public_key, *h, gamma, kg, kh];
        let c = self.hash_points(&points);
        proof {
            assert(points@.map_values(|p: Point| p@)
                =~= seq![self.public_key@, h@, gamma@, kg@, kh@]);
        }
        let sl = mod_muladd(&k.limbs, &c.limbs, &secret_key.limbs, &Q_LIMBS);
        proof {
            assert(val4(Q_LIMBS) == scalar_modulus());
        }
        let s = Scalar { limbs: sl };
        (gamma, c, s)
    }

    /// Checks a proof for a message: recomputes the hashed point H, the
    /// points U = s·G − c·Y and V = s·H − c·Γ, and the challenge over
    /// them, and accepts exactly when the recomputed challenge equals the
    /// proof's.  Rejection is `ProofVerificationError`; `CurveMappingError`
    /// arises only if the curve mapping fails, which this curve's
    /// constants never cause.
    #[verifier::rlimit(100)]
    #[verifier::spinoff_prover]
    pub fn verify(&self, alpha: &[u8], proof: &Proof) -> (r: Result<(), Error>)
        requires
            self.wf(),
            proof.0.wf(),
            proof.1.wf(),
            proof.2.wf(),
        ensures
            r is Ok <==> (swu_ok(spec_h2c_hash::<H>(self.suite, self.public_key@, alpha@))
                && spec_verify_ok::<H>(
                self.suite,
                self.public_key@,
                alpha@,
                (proof.0@, proof.1@, proof.2@),
            )),
            r is Err ==> ((r == Err::<(), Error>(Error::CurveMappingError)) <==> !swu_ok(
                spec_h2c_hash::<H>(self.suite, self.public_key@, alpha@),
            )),
    {
        let (gamma, c, s) = proof;
        let h = match self.hash_to_curve(alpha) {
            Ok(h) => h,
            Err(e) => {
                return Err(e);
            },
        };
        let c_prim = self.recompute_challenge(&h, gamma, c, s);
        proof {
            lemma_spec_verify_unfold::<H>(
                self.suite,
                self.public_key@,
                alpha@,
                (proof.0@, proof.1@, proof.2@),
            );
        }
        let ok = *c == c_prim;
        proof {
            if c@ == c_prim@ {
                crate::field::lemma_val4_injective(c.limbs, c_prim.limbs);
            }
        }
        if ok {
            Ok(())
        } else {
            Err(Error::ProofVerificationError)
        }
    }

    /// The challenge a verifier recomputes: over (Y, H, Γ, s·G − c·Y,
    /// s·H − c·Γ).
    fn recompute_challenge(&self, h: &Point, gamma: &Point, c: &Scalar, s: &Scalar) -> (r:
        Scalar)
        requires
            self.wf(),
            h.wf(),
            gamma.wf(),
            c.wf(),
            s.wf(),
        ensures
            r.wf(),
            r@ == spec_challenge::<H>(
                self.suite,
                seq![
                    self.public_key@,
                    h@,
                    gamma@,
                    pt_sub_of(pt_mul_of(s@, generator_rep()), pt_mul_of(c@, self.public_key@)),
                    pt_sub_of(pt_mul_of(s@, h@), pt_mul_of(c@, gamma@)),
                ],
            ),
    {
        let g = StarkCurve::generator();
        let u = pt_sub(&pt_mul(s, &g), &pt_mul(c, &self.public_key));
        let v = pt_sub(&pt_mul(s, h), &pt_mul(c, gamma));
        let points = vec![self.public_key, *h, *gamma, u, v];
        let c_prim = self.hash_points(&points);
        proof {
            assert(points@.map_values(|p: Point| p@)
                =~= seq![self.public_key@, h@, gamma@, u@, v@]);
        }
        c_prim
    }

    /// The VRF output "beta" of a proof: the hash of the domain separator,
    /// the compressed gamma point and the terminator.  The cofactor being
    /// one, multiplying Γ by it must give Γ back; that sanity invariant is
    /// checked rather than assumed, and its failure — impossible for a
    /// faithful group law — is the only error.  The output is a pure
    /// function of the proof.
    pub fn proof_to_hash(&self, proof: &Proof) -> (r: Result<Felt, Error>)
        requires
            self.wf(),
            proof.0.wf(),
        ensures
            r matches Ok(beta) ==> beta.wf() && beta@ == spec_proof_to_hash::<H>(
                self.suite,
                proof.0@,
            ),
            r is Ok <==> pt_mul_of(1, proof.0@) == proof.0@,
    {
        let cofactor = Scalar::from_u64(StarkCurve::cofactor());
        let cofactor_gamma = pt_mul(&cofactor, &proof.0);
        let same = cofactor_gamma == proof.0;
        proof {
            if cofactor_gamma@ == proof.0@ {
                lemma_point_value_eq(cofactor_gamma, proof.0);
            }
        }
        if !same {
            return Err(Error::CurveMappingError);
        }
        let mut buf: Vec<u8> = Vec::new();
        buf.push(self.suite);
        buf.push(0x03);
        let mut gamma_bytes = proof.0.serialize_compressed();
        buf.append(&mut gamma_bytes);
        buf.push(0x00);
        proof {
            assert(buf@ =~= ptoh_string(self.suite, proof.0@));
        }
        match self.hasher.hash(buf.as_slice()) {
            Some(beta) => Ok(beta),
            None => unreached(),
        }
    }

    /// The deterministic nonce: the hash of the compressed secret key and
    /// the message, reinterpreted in the scalar field.  No randomness
    /// enters, so equal inputs give the equal nonce.
    pub fn nonce(&self, secret_key: &Scalar, message: &[u8]) -> (r: Result<Scalar, Error>)
        requires
            secret_key.wf(),
        ensures
            r matches Ok(k) ==> k.wf() && k@ == spec_nonce::<H>(secret_key@, message@),
            r is Ok,
    {
        let mut buf: Vec<u8> = Vec::new();
        push_limbs_le32(&mut buf, &secret_key.limbs);
        let mut msg = slice_to_vec(message);
        buf.append(&mut msg);
        proof {
            lemma_limbs_of_val4(secret_key.limbs);
            crate::field::lemma_limbs_le32_len(secret_key.limbs);
            assert(buf@ =~= nonce_string(secret_key@, message@));
        }
        let hashed = match self.hasher.hash(buf.as_slice()) {
            Some(h) => h,
            None => unreached(),
        };
        Ok(self.reduce_to_scalar(&hashed))
    }

    /// Hash-to-curve: the suite byte, the tag 0x01, the compressed public
    /// key and the message, hashed to the base field and mapped through
    /// the SWU map.
    fn hash_to_curve(&self, message: &[u8]) -> (r: Result<Point, Error>)
        requires
            self.wf(),
        ensures
            r matches Ok(p) ==> p.wf() && !p.infinity && p@ == spec_h2c::<H>(
                self.suite,
                self.public_key@,
                message@,
            ),
            r is Ok <==> swu_ok(spec_h2c_hash::<H>(self.suite, self.public_key@, message@)),
            r is Err ==> r == Err::<Point, Error>(Error::CurveMappingError),
    {
        let mut buf: Vec<u8> = Vec::new();
        buf.push(self.suite);
        buf.push(0x01);
        let mut pk_bytes = self.public_key.serialize_compressed();
        buf.append(&mut pk_bytes);
        let mut msg = slice_to_vec(message);
        buf.append(&mut msg);
        proof {
            assert(buf@ =~= h2c_string(self.suite, self.public_key@, message@));
        }
        let t = match self.hasher.hash(buf.as_slice()) {
            Some(t) => t,
            None => unreached(),
        };
        self.mapper.map_to_curve(&t)
    }

    /// The Fiat-Shamir challenge: the suite byte, the tag 0x02, each
    /// point's compressed encoding, the terminator 0x00, hashed and
    /// reinterpreted as a full-width scalar.
    fn hash_points(&self, points: &Vec<Point>) -> (r: Scalar)
        requires
            forall|i: int| 0 <= i < points@.len() ==> points@[i].wf(),
        ensures
            r.wf(),
            r@ == spec_challenge::<H>(self.suite, points@.map_values(|p: Point| p@)),
    {
        let ghost reps = points@.map_values(|p: Point| p@);
        let mut buf: Vec<u8> = Vec::new();
        buf.push(self.suite);
        buf.push(0x02);
        let mut i: usize = 0;
        while i < points.len()
            invariant
                0 <= i <= points@.len(),
                forall|j: int| 0 <= j < points@.len() ==> points@[j].wf(),
                reps == points@.map_values(|p: Point| p@),
                buf@ == seq![self.suite, 2u8] + points_bytes(reps.take(i as int)),
            decreases points@.len() - i,
        {
            let mut pb = points[i].serialize_compressed();
            buf.append(&mut pb);
            proof {
                lemma_points_bytes_push(reps.take(i as int), reps[i as int]);
                assert(reps.take(i + 1) =~= reps.take(i as int).push(reps[i as int]));
                assert(buf@ =~= seq![self.suite, 2u8] + points_bytes(reps.take(i + 1)));
            }
            i = i + 1;
        }
        buf.push(0x00);
        proof {
            assert(reps.take(points@.len() as int) =~= reps);
            assert(buf@ =~= challenge_string(self.suite, reps));
        }
        let hashed = match self.hasher.hash(buf.as_slice()) {
            Some(h) => h,
            None => unreached(),
        };
        self.reduce_to_scalar(&hashed)
    }

    /// Reinterprets a base-field hash value as a scalar, full width.
    fn reduce_to_scalar(&self, h: &Felt) -> (r: Scalar)
        ensures
            r.wf(),
            r@ == h@ % scalar_modulus(),
    {
        proof {
            assert(val4(Q_LIMBS) == scalar_modulus());
        }
        let rl = mod_reduce(&h.limbs, &Q_LIMBS);
        Scalar { limbs: rl }
    }
}

/// The difference of two curve points, as the group law gives it: the sum
/// with the negated second point.
pub fn pt_sub(a: &Point, b: &Point) -> (r: Point)
    requires
        a.wf(),
        b.wf(),
    ensures
        r.wf(),
        r@ == pt_sub_of(a@, b@),
{
    let nb = pt_neg(b);
    pt_add(a, &nb)
}

/// The group inverse of a point: the same x, the negated y.
pub fn pt_neg(p: &Point) -> (r: Point)
    requires
        p.wf(),
    ensures
        r.wf(),
        r@ == pt_neg_rep(p@),
{
    let ny = crate::curve::felt_neg(&p.y);
    proof {
        reveal(crate::curve::on_curve);
        crate::curve::lemma_neg_square(p.y@);
        crate::curve::lemma_fneg_split(p.y@);
    }
    Point { x: p.x, y: ny, infinity: p.infinity }
}

/// Determinism of proving: the proof depends on the engine state, the
/// secret key and the message alone, so two `prove` calls with identical
/// inputs return bit-identical proofs.
pub proof fn lemma_prove_deterministic<H: HashToField>(
    suite: u8,
    pk: (nat, nat, bool),
    sk1: nat,
    sk2: nat,
    alpha1: Seq<u8>,
    alpha2: Seq<u8>,
)
    requires
        sk1 == sk2,
        alpha1 == alpha2,
    ensures
        spec_prove::<H>(suite, pk, sk1, alpha1) == spec_prove::<H>(suite, pk, sk2, alpha2),
{
}

/// Output stability: the VRF output is a pure function of the proof's
/// gamma point, so recomputing it on the same proof yields the same
/// base-field value.
pub proof fn lemma_proof_to_hash_stable<H: HashToField>(
    suite: u8,
    gamma1: (nat, nat, bool),
    gamma2: (nat, nat, bool),
)
    requires
        gamma1 == gamma2,
    ensures
        spec_proof_to_hash::<H>(suite, gamma1) == spec_proof_to_hash::<H>(suite, gamma2),
{
}

} // verus!
