//! The STARK curve: y^2 = x^3 + A*x + B over the base field, cofactor 1.
//!
//! This module holds the curve constants, the affine point type, and the
//! trusted interface to the outside elliptic-curve and big-integer
//! arithmetic libraries.  Everything algebraic (field inversion, square
//! roots, the group law, scalar multiplication, wide modular arithmetic) is
//! delegated; the contracts state what the outside code computes, over the
//! integer values of the canonical limb representations.

use vstd::prelude::*;
use vstd::pervasive::VecAdditionalExecFns;
use crate::error::Error;
use crate::field::{
    base_modulus, scalar_modulus, val4, u64_le, limbs_of, limb_of, limbs_lt, push_u64_le,
    read_u64_le, lemma_limbs_of_val4, lemma_val4_of_limbs_of, lemma_u64_le_injective,
    lemma_u64_le_build, lemma_u64_le_len, lemma_val4_injective, Felt, Scalar, HALF_P_LIMBS,
    P_LIMBS, Q_LIMBS,
};

verus! {

/// Coefficient A of the curve equation.
pub open spec fn curve_a() -> nat {
    1nat
}

/// Coefficient B of the curve equation.
pub open spec fn curve_b() -> nat {
    3141592653589793238462643383279502884197169399375105820974944592307816406665nat
}

/// The SWU constant zeta: a quadratic non-residue of the base field.
pub open spec fn swu_zeta() -> nat {
    3nat
}

/// x-coordinate of the fixed generator point.
pub open spec fn generator_x() -> nat {
    874739451078007766457464989774322083649278607533249481151382481072868806602nat
}

/// y-coordinate of the fixed generator point.
pub open spec fn generator_y() -> nat {
    152666792071518830868575557812948353041420400780739481342941381225525861407nat
}

/// Product in the base field.
pub open spec fn fmul(a: nat, b: nat) -> nat {
    (a * b) % base_modulus()
}

/// Sum in the base field.
pub open spec fn fadd(a: nat, b: nat) -> nat {
    (a + b) % base_modulus()
}

/// Additive inverse in the base field.
pub open spec fn fneg(a: nat) -> nat {
    (((base_modulus() - a % base_modulus()) as int) % (base_modulus() as int)) as nat
}

/// The right-hand side x^3 + A*x + B of the curve equation.
#[verifier::opaque]
pub open spec fn curve_rhs(x: nat) -> nat {
    fadd(fadd(fmul(fmul(x, x), x), fmul(curve_a(), x)), curve_b())
}

/// Whether (x, y) satisfies the curve equation.
#[verifier::opaque]
pub open spec fn on_curve(x: nat, y: nat) -> bool {
    fmul(y, y) == curve_rhs(x)
}

/// A point in spec form: x value, y value, and the infinity flag.
pub open spec fn wf_rep(p: (nat, nat, bool)) -> bool {
    &&& p.0 < base_modulus()
    &&& p.1 < base_modulus()
    &&& p.2 ==> p.0 == 0 && p.1 == 0
    &&& !p.2 ==> on_curve(p.0, p.1)
}

/// What the outside library's field inversion returns on a nonzero element.
pub uninterp spec fn inv_of(x: nat) -> nat;

/// Which square root, if any, the outside library's `sqrt` returns.
pub uninterp spec fn sqrt_of(x: nat) -> Option<nat>;

/// The point the outside library's affine group law returns.
pub uninterp spec fn pt_add_of(a: (nat, nat, bool), b: (nat, nat, bool)) -> (nat, nat, bool);

/// The point the outside library's double-and-add scalar multiple returns.
pub uninterp spec fn pt_mul_of(k: nat, p: (nat, nat, bool)) -> (nat, nat, bool);

#[verifier::external_type_specification]
#[verifier::external_body]
pub struct ExFieldElement(starknet_ff::FieldElement);

#[verifier::external_type_specification]
#[verifier::external_body]
pub struct ExCurveAffine(starknet_curve::AffinePoint);

/// Conversion glue: a canonical `Felt`/`Scalar` limb array as the outside
/// library's field element.  Nothing is assumed of it; it only carries
/// values into the trusted wrappers below.
#[verifier::external_body]
pub(crate) fn limbs_to_fe(l: &[u64; 4]) -> starknet_ff::FieldElement {
    let mut b = [0u8; 32];
    for j in 0..4 {
        b[8 * j..8 * j + 8].copy_from_slice(&l[3 - j].to_be_bytes());
    }
    starknet_ff::FieldElement::from_bytes_be(&b).unwrap()
}

/// Conversion glue back from the outside library's field element.
#[verifier::external_body]
pub(crate) fn fe_to_limbs(fe: &starknet_ff::FieldElement) -> [u64; 4] {
    let b = fe.to_bytes_be();
    let mut l = [0u64; 4];
    for j in 0..4 {
        let mut w = [0u8; 8];
        w.copy_from_slice(&b[8 * j..8 * j + 8]);
        l[3 - j] = u64::from_be_bytes(w);
    }
    l
}

/// Relies on starknet-ff field addition: the sum modulo the base modulus.
#[verifier::external_body]
pub fn felt_add(a: &Felt, b: &Felt) -> (r: Felt)
    requires
        a.wf(),
        b.wf(),
    ensures
        r.wf(),
        r@ == fadd(a@, b@),
{
    let s = limbs_to_fe(&a.limbs) + limbs_to_fe(&b.limbs);
    Felt { limbs: fe_to_limbs(&s) }
}

/// Relies on starknet-ff field multiplication: the product modulo the base
/// modulus.
#[verifier::external_body]
pub fn felt_mul(a: &Felt, b: &Felt) -> (r: Felt)
    requires
        a.wf(),
        b.wf(),
    ensures
        r.wf(),
        r@ == fmul(a@, b@),
{
    let p = limbs_to_fe(&a.limbs) * limbs_to_fe(&b.limbs);
    Felt { limbs: fe_to_limbs(&p) }
}

/// Relies on starknet-ff field negation: the additive inverse.
#[verifier::external_body]
pub fn felt_neg(a: &Felt) -> (r: Felt)
    requires
        a.wf(),
    ensures
        r.wf(),
        r@ == fneg(a@),
{
    let n = -limbs_to_fe(&a.limbs);
    Felt { limbs: fe_to_limbs(&n) }
}

/// Relies on starknet-ff `FieldElement::invert`: `None` exactly on zero,
/// otherwise the multiplicative inverse.
#[verifier::external_body]
pub fn felt_invert(a: &Felt) -> (r: Option<Felt>)
    requires
        a.wf(),
    ensures
        r is Some <==> a@ != 0,
        r matches Some(i) ==> i.wf() && i@ == inv_of(a@) && fmul(i@, a@) == 1,
{
    limbs_to_fe(&a.limbs).invert().map(|i| Felt { limbs: fe_to_limbs(&i) })
}

/// Relies on starknet-ff `FieldElement::sqrt`: `Some` exactly on squares,
/// and then one of the two square roots; any square root of a value is that
/// root or its negation, the field being of prime order.
#[verifier::external_body]
pub fn felt_sqrt(a: &Felt) -> (r: Option<Felt>)
    requires
        a.wf(),
    ensures
        r is Some <==> sqrt_of(a@) is Some,
        r matches Some(s) ==> s.wf() && Some(s@) == sqrt_of(a@) && fmul(s@, s@) == a@
            && (forall|z: nat|
            z < base_modulus() && fmul(z, z) == a@ ==> z == s@ || z + s@ == base_modulus()),
        r is None ==> forall|z: nat| z < base_modulus() ==> fmul(z, z) != a@,
{
    limbs_to_fe(&a.limbs).sqrt().map(|s| Felt { limbs: fe_to_limbs(&s) })
}

/// An affine point of the STARK curve, or the point at infinity (held with
/// zero coordinates).
#[derive(Clone, Copy, Debug)]
pub struct Point {
    pub x: Felt,
    pub y: Felt,
    pub infinity: bool,
}

impl PartialEq for Point {
    fn eq(&self, o: &Point) -> (r: bool) {
        self.x == o.x && self.y == o.y && self.infinity == o.infinity
    }
}

impl Eq for Point {}

impl vstd::std_specs::cmp::PartialEqSpecImpl for Point {
    open spec fn obeys_eq_spec() -> bool {
        true
    }

    open spec fn eq_spec(&self, o: &Point) -> bool {
        self.x.limbs == o.x.limbs && self.y.limbs == o.y.limbs && self.infinity == o.infinity
    }
}

impl View for Point {
    type V = (nat, nat, bool);

    open spec fn view(&self) -> (nat, nat, bool) {
        (self.x@, self.y@, self.infinity)
    }
}

impl Point {
    /// Canonical coordinates; infinity carries zero coordinates; a finite
    /// point satisfies the curve equation.
    pub open spec fn wf(&self) -> bool {
        wf_rep(self@)
    }

    /// The point at infinity, the group identity.
    pub fn identity() -> (r: Point)
        ensures
            r@ == (0nat, 0nat, true),
            r.wf(),
    {
        Point { x: Felt::zero(), y: Felt::zero(), infinity: true }
    }

    /// Evaluates the curve equation; the point at infinity passes by
    /// convention.
    pub fn is_on_curve(&self) -> (r: bool)
        requires
            self.x.wf(),
            self.y.wf(),
        ensures
            r == (self.infinity || on_curve(self.x@, self.y@)),
    {
        proof {
            reveal(on_curve);
            reveal(curve_rhs);
        }
        if self.infinity {
            return true;
        }
        let x2 = felt_mul(&self.x, &self.x);
        let x3 = felt_mul(&x2, &self.x);
        let ax = felt_mul(&StarkCurve::coeff_a(), &self.x);
        let rhs = felt_add(&felt_add(&x3, &ax), &StarkCurve::coeff_b());
        let y2 = felt_mul(&self.y, &self.y);
        let r = y2 == rhs;
        proof {
            if y2@ == rhs@ {
                crate::field::lemma_val4_injective(y2.limbs, rhs.limbs);
            }
        }
        r
    }

    /// The curve's cofactor is 1, so every curve point lies in the
    /// cryptographic subgroup.
    pub fn is_in_correct_subgroup_assuming_on_curve(&self) -> (r: bool)
        ensures
            r,
    {
        true
    }
}

impl Point {
    /// The canonical 32-byte compressed encoding of this point.
    pub fn serialize_compressed(&self) -> (out: Vec<u8>)
        requires
            self.wf(),
        ensures
            out@ == point_bytes(self@),
            out@.len() == 32,
    {
        let flag: u8 = if self.infinity {
            0x40
        } else if limbs_lt(&HALF_P_LIMBS, &self.y.limbs) {
            0x80
        } else {
            0x00
        };
        proof {
            assert(val4(HALF_P_LIMBS) == half_p());
            assert(flag == point_flag(self@));
        }
        let mut out: Vec<u8> = Vec::new();
        push_u64_le(&mut out, self.x.limbs[0]);
        push_u64_le(&mut out, self.x.limbs[1]);
        push_u64_le(&mut out, self.x.limbs[2]);
        push_u64_le(&mut out, self.x.limbs[3]);
        proof {
            lemma_u64_le_len(self.x.limbs[0]);
            lemma_u64_le_len(self.x.limbs[1]);
            lemma_u64_le_len(self.x.limbs[2]);
            lemma_u64_le_len(self.x.limbs[3]);
        }
        let ghost pre = out@;
        let b31 = out[31];
        out.set(31, b31 | flag);
        proof {
            lemma_limbs_of_val4(self.x.limbs);
            let l = self.x.limbs;
            assert forall|j: int| 0 <= j < 8 implies pre[j] == u64_le(l[0])[j] by {}
            assert forall|j: int| 0 <= j < 8 implies pre[8 + j] == u64_le(l[1])[j] by {}
            assert forall|j: int| 0 <= j < 8 implies pre[16 + j] == u64_le(l[2])[j] by {}
            assert forall|j: int| 0 <= j < 8 implies pre[24 + j] == u64_le(l[3])[j] by {}
            assert(b31 == u64_le(l[3])[7]);
            lemma_point_bytes_compose(out@, self@);
        }
        out
    }

    /// Decodes a compressed point, recovering the y-coordinate from the
    /// curve equation and the sign flag.  Every accepted input yields a
    /// well-formed point; the canonical encoding of any well-formed point
    /// decodes to exactly that point (the round trip of the encoding); and
    /// a finite decoded point with nonzero y re-encodes to the very input.
    #[verifier::rlimit(100)]
    #[verifier::spinoff_prover]
    pub fn deserialize_compressed(s: &[u8]) -> (r: Result<Point, Error>)
        ensures
            r matches Ok(p) ==> p.wf(),
            r matches Ok(p) ==> ((!p.infinity && p@.1 != 0) ==> s@ == point_bytes(p@)),
            forall|q: (nat, nat, bool)|
                wf_rep(q) && s@ == point_bytes(q) ==> (r matches Ok(p) && p@ == q),
    {
        if s.len() != 32 {
            proof {
                assert forall|q: (nat, nat, bool)|
                    wf_rep(q) && s@ == point_bytes(q) implies false by {
                    lemma_point_bytes_parts(q);
                }
            }
            return Err(Error::SerializationError);
        }
        let (xl, fbits) = decode_limbs(s);
        let top = s[31];
        if fbits == 3 {
            return Err(Error::SerializationError);
        }
        let inf = fbits == 1;
        let neg = fbits == 2;
        if !limbs_lt(&xl, &P_LIMBS) {
            proof {
                assert(val4(P_LIMBS) == base_modulus());
            }
            return Err(Error::SerializationError);
        }
        proof {
            assert(val4(P_LIMBS) == base_modulus());
        }
        let x = Felt { limbs: xl };
        if inf {
            proof {
                assert forall|q: (nat, nat, bool)|
                    wf_rep(q) && s@ == point_bytes(q) implies q == (0nat, 0nat, true) by {
                    lemma_flag_bits(point_flag(q));
                    assert(point_flag(q) >> 6 == 1);
                    assert(q.2);
                }
            }
            return Ok(Point::identity());
        }
        let y = match Point::recover_y(&x, neg) {
            Some(y) => y,
            None => {
                proof {
                    assert forall|q: (nat, nat, bool)|
                        wf_rep(q) && s@ == point_bytes(q) implies false by {
                        lemma_flag_bits(point_flag(q));
                        assert(!q.2);
                        reveal(on_curve);
                        assert(fmul(q.1, q.1) == curve_rhs(q.0));
                    }
                }
                return Err(Error::SerializationError);
            },
        };
        let p = Point { x, y, infinity: false };
        proof {
            assert(p.wf());
            if y@ != 0 {
                lemma_flag_bits(top);
                lemma_reencode(s@, xl, top, neg, p@);
            }
            assert forall|q: (nat, nat, bool)|
                wf_rep(q) && s@ == point_bytes(q) implies p@ == q by {
                lemma_flag_bits(point_flag(q));
                assert(!q.2);
                reveal(on_curve);
                assert(fmul(q.1, q.1) == curve_rhs(q.0));
                assert((q.1 > half_p()) == neg);
                assert(q.1 == y@);
            }
        }
        Ok(p)
    }

    /// Recovers from an x-coordinate the y-coordinate whose sign flag is
    /// `neg`, or `None` when x is not on the curve.  The result is the only
    /// root of the curve equation at x carrying that sign; a zero root is
    /// returned whatever the flag says, as the consumed library does.
    fn recover_y(x: &Felt, neg: bool) -> (r: Option<Felt>)
        requires
            x.wf(),
        ensures
            r is None ==> forall|yy: nat|
                yy < base_modulus() ==> fmul(yy, yy) != curve_rhs(x@),
            r matches Some(y) ==> y.wf() && on_curve(x@, y@),
            r matches Some(y) ==> (y@ == 0 || ((y@ > half_p()) == neg)),
            r matches Some(y) ==> forall|yy: nat|
                yy < base_modulus() && fmul(yy, yy) == curve_rhs(x@) && ((yy > half_p())
                    == neg) ==> yy == y@,
    {
        proof {
            reveal(on_curve);
            reveal(curve_rhs);
        }
        let x2 = felt_mul(x, x);
        let x3 = felt_mul(&x2, x);
        let ax = felt_mul(&StarkCurve::coeff_a(), x);
        let rhs = felt_add(&felt_add(&x3, &ax), &StarkCurve::coeff_b());
        proof {
            assert(rhs@ == curve_rhs(x@));
        }
        let root = match felt_sqrt(&rhs) {
            Some(r0) => r0,
            None => {
                return None;
            },
        };
        let neg_root = felt_neg(&root);
        proof {
            lemma_neg_square(root@);
            lemma_fneg_split(root@);
            assert(base_modulus() == 2 * half_p() + 1);
        }
        let smaller: Felt;
        let larger: Felt;
        if limbs_lt(&root.limbs, &neg_root.limbs) {
            smaller = root;
            larger = neg_root;
        } else {
            smaller = neg_root;
            larger = root;
        }
        let y = if neg {
            larger
        } else {
            smaller
        };
        proof {
            if root@ != 0 {
                assert(smaller@ + larger@ == base_modulus());
                assert(smaller@ <= half_p() && larger@ > half_p());
            } else {
                assert(neg_root@ == 0);
                assert(y@ == 0);
            }
            assert forall|yy: nat|
                yy < base_modulus() && fmul(yy, yy) == curve_rhs(x@) && ((yy > half_p()) == neg)
                implies yy == y@ by {
                assert(yy == root@ || yy + root@ == base_modulus());
                if root@ == 0 {
                    assert(yy == 0);
                } else {
                    assert(yy == smaller@ || yy == larger@);
                }
            }
        }
        Some(y)
    }
}

/// Parses the 32 bytes of a compressed point into the x-coordinate limbs
/// (flag bits masked off) and the two flag bits.
#[verifier::rlimit(100)]
#[verifier::spinoff_prover]
fn decode_limbs(s: &[u8]) -> (r: ([u64; 4], u8))
    requires
        s@.len() == 32,
    ensures
        forall|j: int| 0 <= j < 8 ==> s@[j] == u64_le(r.0[0])[j],
        forall|j: int| 0 <= j < 8 ==> s@[8 + j] == u64_le(r.0[1])[j],
        forall|j: int| 0 <= j < 8 ==> s@[16 + j] == u64_le(r.0[2])[j],
        forall|j: int| 0 <= j < 7 ==> s@[24 + j] == u64_le(r.0[3])[j],
        u64_le(r.0[3])[7] == (s@[31] & 0x3f) as u8,
        r.1 == s@[31] >> 6,
        forall|q: (nat, nat, bool)|
            wf_rep(q) && s@ == point_bytes(q) ==> (r.0 == limbs_of(q.0) && val4(r.0) == q.0
                && r.1 == point_flag(q) >> 6 && r.1 != 3),
{
    let top = s[31];
    let fbits = top >> 6;
    let l0 = read_u64_le(s, 0);
    let l1 = read_u64_le(s, 8);
    let l2 = read_u64_le(s, 16);
    let l3 = (s[24] as u64) | ((s[25] as u64) << 8) | ((s[26] as u64) << 16) | ((s[27] as u64)
        << 24) | ((s[28] as u64) << 32) | ((s[29] as u64) << 40) | ((s[30] as u64) << 48)
        | (((top & 0x3f) as u64) << 56);
    let xl = [l0, l1, l2, l3];
    proof {
        assert((top & 0x3f) < 0x40) by (bit_vector);
        lemma_u64_le_build(
            s@[24] as u64, s@[25] as u64, s@[26] as u64, s@[27] as u64, s@[28] as u64,
            s@[29] as u64, s@[30] as u64, (top & 0x3f) as u64,
        );
        assert forall|q: (nat, nat, bool)|
            wf_rep(q) && s@ == point_bytes(q) implies xl == limbs_of(q.0) && val4(xl) == q.0
            && fbits == point_flag(q) >> 6 && fbits != 3 by {
            let lq = limbs_of(q.0);
            lemma_point_bytes_parts(q);
            lemma_u64_le_len(l0);
            lemma_u64_le_len(l1);
            lemma_u64_le_len(l2);
            lemma_u64_le_len(l3);
            lemma_u64_le_len(lq[0]);
            lemma_u64_le_len(lq[1]);
            lemma_u64_le_len(lq[2]);
            lemma_x_top_limb(q.0);
            lemma_top_limb_small(lq[3]);
            lemma_u64_le_len(lq[3]);
            let b7 = u64_le(lq[3])[7];
            assert(b7 < 0x40);
            lemma_top_byte(b7, point_flag(q));
            assert(s@[31] == (b7 | point_flag(q)));
            assert forall|j: int| 0 <= j < 8 implies u64_le(l0)[j] == u64_le(lq[0])[j] by {
                assert(u64_le(l0)[j] == s@.subrange(0, 8)[j]);
                assert(s@[j] == u64_le(lq[0])[j]);
            }
            assert(u64_le(l0) =~= u64_le(lq[0]));
            lemma_u64_le_injective(l0, lq[0]);
            assert forall|j: int| 0 <= j < 8 implies u64_le(l1)[j] == u64_le(lq[1])[j] by {
                assert(u64_le(l1)[j] == s@.subrange(8, 16)[j]);
                assert(s@[8 + j] == u64_le(lq[1])[j]);
            }
            assert(u64_le(l1) =~= u64_le(lq[1]));
            lemma_u64_le_injective(l1, lq[1]);
            assert forall|j: int| 0 <= j < 8 implies u64_le(l2)[j] == u64_le(lq[2])[j] by {
                assert(u64_le(l2)[j] == s@.subrange(16, 24)[j]);
                assert(s@[16 + j] == u64_le(lq[2])[j]);
            }
            assert(u64_le(l2) =~= u64_le(lq[2]));
            lemma_u64_le_injective(l2, lq[2]);
            assert((top & 0x3f) == b7);
            assert forall|j: int| 0 <= j < 8 implies u64_le(l3)[j] == u64_le(lq[3])[j] by {
                if j < 7 {
                    assert(s@[24 + j] == u64_le(lq[3])[j]);
                }
            }
            assert(u64_le(l3) =~= u64_le(lq[3]));
            lemma_u64_le_injective(l3, lq[3]);
            assert(xl =~= lq);
            lemma_val4_of_limbs_of(q.0);
        }
        assert forall|j: int| 0 <= j < 8 implies s@[j] == u64_le(l0)[j] by {
            assert(u64_le(l0)[j] == s@.subrange(0, 8)[j]);
        }
        assert forall|j: int| 0 <= j < 8 implies s@[8 + j] == u64_le(l1)[j] by {
            assert(u64_le(l1)[j] == s@.subrange(8, 16)[j]);
        }
        assert forall|j: int| 0 <= j < 8 implies s@[16 + j] == u64_le(l2)[j] by {
            assert(u64_le(l2)[j] == s@.subrange(16, 24)[j]);
        }
    }
    (xl, fbits)
}

/// A parsed x-coordinate, the chosen root and the matching flag re-encode
/// to the bytes they came from.
proof fn lemma_reencode(s: Seq<u8>, xl: [u64; 4], top: u8, neg: bool, p: (nat, nat, bool))
    requires
        s.len() == 32,
        forall|j: int| 0 <= j < 8 ==> s[j] == u64_le(xl[0])[j],
        forall|j: int| 0 <= j < 8 ==> s[8 + j] == u64_le(xl[1])[j],
        forall|j: int| 0 <= j < 8 ==> s[16 + j] == u64_le(xl[2])[j],
        forall|j: int| 0 <= j < 7 ==> s[24 + j] == u64_le(xl[3])[j],
        u64_le(xl[3])[7] == (s[31] & 0x3f) as u8,
        top == s[31],
        (top >> 6) == (if neg { 2u8 } else { 0u8 }),
        p.0 == val4(xl),
        !p.2,
        (p.1 > half_p()) == neg,
    ensures
        s == point_bytes(p),
{
    lemma_limbs_of_val4(xl);
    lemma_top_recompose(top);
    assert(point_flag(p) == (if neg { 0x80u8 } else { 0x00u8 }));
    assert(s[31] == (u64_le(limbs_of(p.0)[3])[7] | point_flag(p)));
    lemma_point_bytes_compose(s, p);
}

/// Points with equal canonical coordinates are structurally equal.
pub proof fn lemma_point_value_eq(a: Point, b: Point)
    requires
        a@ == b@,
    ensures
        a.x.limbs == b.x.limbs,
        a.y.limbs == b.y.limbs,
        a.infinity == b.infinity,
{
    crate::field::lemma_val4_injective(a.x.limbs, b.x.limbs);
    crate::field::lemma_val4_injective(a.y.limbs, b.y.limbs);
}

/// Conversion glue into the outside curve library's affine type.
#[verifier::external_body]
fn ap_to_curve(p: &Point) -> starknet_curve::AffinePoint {
    starknet_curve::AffinePoint {
        x: limbs_to_fe(&p.x.limbs),
        y: limbs_to_fe(&p.y.limbs),
        infinity: p.infinity,
    }
}

/// Conversion glue back from the outside curve library's affine type.
#[verifier::external_body]
fn curve_to_ap(p: &starknet_curve::AffinePoint) -> Point {
    Point {
        x: Felt { limbs: fe_to_limbs(&p.x) },
        y: Felt { limbs: fe_to_limbs(&p.y) },
        infinity: p.infinity,
    }
}

/// Relies on starknet-curve's affine group law (`Add` on `Point`):
/// the group sum of two curve points is a curve point.  On well-formed
/// curve points the operation is total: the curve group has odd prime
/// order, so no point has y = 0 and the law's inversions never fail.
#[verifier::external_body]
pub fn pt_add(a: &Point, b: &Point) -> (r: Point)
    requires
        a.wf(),
        b.wf(),
    ensures
        r.wf(),
        r@ == pt_add_of(a@, b@),
{
    curve_to_ap(&(&ap_to_curve(a) + &ap_to_curve(b)))
}

/// Relies on starknet-curve's double-and-add multiplication
/// (`Mul<&[bool]>` on `Point`) over the little-endian bits of the
/// scalar: the scalar multiple [k]P, again a curve point; [0]P is the
/// identity with zero coordinates.
#[verifier::external_body]
pub fn pt_mul(k: &Scalar, p: &Point) -> (r: Point)
    requires
        k.wf(),
        p.wf(),
    ensures
        r.wf(),
        r@ == pt_mul_of(k@, p@),
{
    let bits = limbs_to_fe(&k.limbs).to_bits_le();
    curve_to_ap(&(&ap_to_curve(p) * &bits[..]))
}

/// Relies on num-bigint `BigUint` arithmetic: (a + b * c) mod m, limbs in
/// and limbs out.
#[verifier::external_body]
pub fn mod_muladd(a: &[u64; 4], b: &[u64; 4], c: &[u64; 4], m: &[u64; 4]) -> (r: [u64; 4])
    requires
        val4(*m) > 0,
    ensures
        val4(r) == (val4(*a) + val4(*b) * val4(*c)) % val4(*m),
{
    let big = |l: &[u64; 4]| num_bigint::BigUint::from_bytes_le(
        &l.iter().flat_map(|w| w.to_le_bytes()).collect::<Vec<u8>>(),
    );
    let v = (big(a) + big(b) * big(c)) % big(m);
    let mut r = [0u64; 4];
    for (j, w) in v.to_u64_digits().into_iter().enumerate() {
        r[j] = w;
    }
    r
}

/// Relies on num-bigint `BigUint` remainder: a mod m, limbs in and limbs
/// out.
#[verifier::external_body]
pub fn mod_reduce(a: &[u64; 4], m: &[u64; 4]) -> (r: [u64; 4])
    requires
        val4(*m) > 0,
    ensures
        val4(r) == val4(*a) % val4(*m),
{
    let big = |l: &[u64; 4]| num_bigint::BigUint::from_bytes_le(
        &l.iter().flat_map(|w| w.to_le_bytes()).collect::<Vec<u8>>(),
    );
    let v = big(a) % big(m);
    let mut r = [0u64; 4];
    for (j, w) in v.to_u64_digits().into_iter().enumerate() {
        r[j] = w;
    }
    r
}

/// Parameters of the base field of the curve.
pub struct FrConfig;

impl FrConfig {
    /// Little-endian limbs of the base-field modulus.
    pub fn modulus() -> (r: [u64; 4])
        ensures
            val4(r) == base_modulus(),
    {
        proof {
            assert(val4(P_LIMBS) == base_modulus());
        }
        P_LIMBS
    }
}

/// Parameters of the scalar field, the order of the curve group.
pub struct ScalarFieldConfig;

impl ScalarFieldConfig {
    /// Little-endian limbs of the scalar-field modulus.
    pub fn modulus() -> (r: [u64; 4])
        ensures
            val4(r) == scalar_modulus(),
    {
        proof {
            assert(val4(Q_LIMBS) == scalar_modulus());
        }
        Q_LIMBS
    }
}

/// The STARK curve parameterization: coefficients, generator, cofactor and
/// the SWU constant.
pub struct StarkCurve;

impl StarkCurve {
    /// Coefficient A = 1 of the curve equation.
    pub fn coeff_a() -> (r: Felt)
        ensures
            r.wf(),
            r@ == curve_a(),
    {
        Felt { limbs: [1, 0, 0, 0] }
    }

    /// Coefficient B of the curve equation.
    pub fn coeff_b() -> (r: Felt)
        ensures
            r.wf(),
            r@ == curve_b(),
    {
        let b = Felt {
            limbs: [
                17640033189612134025,
                6961107535718323649,
                1517248451085576389,
                500484584450703582,
            ],
        };
        proof {
            assert(val4(b.limbs) == curve_b());
        }
        b
    }

    /// The SWU constant zeta = 3, a quadratic non-residue.
    pub fn zeta() -> (r: Felt)
        ensures
            r.wf(),
            r@ == swu_zeta(),
    {
        Felt { limbs: [3, 0, 0, 0] }
    }

    /// The curve's cofactor is one.
    pub fn cofactor() -> (r: u64)
        ensures
            r == 1,
    {
        1
    }

    /// The fixed generator point G.
    pub fn generator() -> (r: Point)
        ensures
            r.wf(),
            r@ == (generator_x(), generator_y(), false),
            !r.infinity,
    {
        let g = Point {
            x: Felt {
                limbs: [
                    4427669054245031882,
                    16045478414795676128,
                    8929773026111713479,
                    139354034386081563,
                ],
            },
            y: Felt {
                limbs: [
                    2914673436299680799,
                    16020408682327983011,
                    13240099127393971298,
                    24321223154767664,
                ],
            },
            infinity: false,
        };
        proof {
            assert(val4(g.x.limbs) == generator_x());
            assert(val4(g.y.limbs) == generator_y());
            lemma_generator_on_curve();
        }
        g
    }
}

/// (p - 1) / 2: y-coordinates above this count as "negative" in the
/// compressed encoding's sign flag.
pub open spec fn half_p() -> nat {
    1809251394333065606848661391547535052811553607665798349986546028067936010240nat
}

/// The flag bits folded into the top byte of a compressed point: bit 6 set
/// for the point at infinity, bit 7 set for a negative y-coordinate.
pub open spec fn point_flag(p: (nat, nat, bool)) -> u8 {
    if p.2 {
        0x40
    } else if p.1 > half_p() {
        0x80
    } else {
        0x00
    }
}

/// The 32-byte compressed encoding of a point: the x-coordinate in
/// little-endian bytes with the flag bits set in the most significant
/// byte.  This is the consumed serialization library's canonical
/// compressed layout for short-Weierstrass points over a 252-bit field.
#[verifier::opaque]
pub open spec fn point_bytes(p: (nat, nat, bool)) -> Seq<u8> {
    let l = crate::field::limbs_of(p.0);
    u64_le(l[0]) + u64_le(l[1]) + u64_le(l[2]) + u64_le(l[3]).update(
        7,
        (u64_le(l[3])[7] | point_flag(p)) as u8,
    )
}

/// Negation squares to the same value: (p - a)^2 = a^2 (mod p).
pub proof fn lemma_neg_square(a: nat)
    requires
        a < base_modulus(),
    ensures
        fmul(fneg(a), fneg(a)) == fmul(a, a),
{
    let p = base_modulus() as int;
    let ai = a as int;
    vstd::arithmetic::div_mod::lemma_small_mod(a, base_modulus());
    if a == 0 {
    } else {
        assert(0 < p - ai < p);
        vstd::arithmetic::div_mod::lemma_small_mod((p - ai) as nat, base_modulus());
        assert(fneg(a) == (p - ai) as nat);
        assert((p - ai) * (p - ai) == ai * ai + p * (p - 2 * ai)) by (nonlinear_arith);
        vstd::arithmetic::div_mod::lemma_mod_multiples_vanish(p - 2 * ai, ai * ai, p);
    }
}

/// Negation pairs a nonzero element with its complement to the modulus.
pub proof fn lemma_fneg_split(a: nat)
    requires
        a < base_modulus(),
    ensures
        a == 0 ==> fneg(a) == 0,
        a != 0 ==> fneg(a) == base_modulus() - a,
        a != 0 ==> a + fneg(a) == base_modulus(),
{
    let p = base_modulus() as int;
    vstd::arithmetic::div_mod::lemma_small_mod(a, base_modulus());
    if a != 0 {
        vstd::arithmetic::div_mod::lemma_small_mod((p - a) as nat, base_modulus());
    } else {
        vstd::arithmetic::div_mod::lemma_mod_self_0(p);
    }
}

/// The flag constants and their two flag bits.
proof fn lemma_flag_bits(x: u8)
    ensures
        0x00u8 >> 6 == 0,
        0x40u8 >> 6 == 1,
        0x80u8 >> 6 == 2,
        x >> 6 <= 3,
{
    assert(0x00u8 >> 6 == 0 && 0x40u8 >> 6 == 1 && 0x80u8 >> 6 == 2 && x >> 6 <= 3)
        by (bit_vector);
}

/// A top byte recomposes from its six low bits and its two flag bits.
proof fn lemma_top_recompose(top: u8)
    ensures
        (top >> 6) == 0 ==> ((top & 0x3f) | 0x00) == top,
        (top >> 6) == 1 ==> ((top & 0x3f) | 0x40) == top,
        (top >> 6) == 2 ==> ((top & 0x3f) | 0x80) == top,
{
    assert((((top >> 6) == 0 ==> ((top & 0x3f) | 0x00) == top) && ((top >> 6) == 1 ==> ((top
        & 0x3f) | 0x40) == top) && ((top >> 6) == 2 ==> ((top & 0x3f) | 0x80) == top)))
        by (bit_vector);
}

/// The compressed encoding, byte by byte: three plain limbs, then the
/// top limb with the flag folded into its last byte.
pub proof fn lemma_point_bytes_parts(q: (nat, nat, bool))
    ensures
        point_bytes(q).len() == 32,
        forall|j: int| 0 <= j < 8 ==> point_bytes(q)[j] == u64_le(limbs_of(q.0)[0])[j],
        forall|j: int| 0 <= j < 8 ==> point_bytes(q)[8 + j] == u64_le(limbs_of(q.0)[1])[j],
        forall|j: int| 0 <= j < 8 ==> point_bytes(q)[16 + j] == u64_le(limbs_of(q.0)[2])[j],
        forall|j: int| 0 <= j < 7 ==> point_bytes(q)[24 + j] == u64_le(limbs_of(q.0)[3])[j],
        point_bytes(q)[31] == (u64_le(limbs_of(q.0)[3])[7] | point_flag(q)),
{
    reveal(point_bytes);
    lemma_u64_le_len(limbs_of(q.0)[0]);
    lemma_u64_le_len(limbs_of(q.0)[1]);
    lemma_u64_le_len(limbs_of(q.0)[2]);
    lemma_u64_le_len(limbs_of(q.0)[3]);
}

/// A byte string that matches the encoding byte by byte is the encoding.
pub proof fn lemma_point_bytes_compose(s: Seq<u8>, q: (nat, nat, bool))
    requires
        s.len() == 32,
        forall|j: int| 0 <= j < 8 ==> s[j] == u64_le(limbs_of(q.0)[0])[j],
        forall|j: int| 0 <= j < 8 ==> s[8 + j] == u64_le(limbs_of(q.0)[1])[j],
        forall|j: int| 0 <= j < 8 ==> s[16 + j] == u64_le(limbs_of(q.0)[2])[j],
        forall|j: int| 0 <= j < 7 ==> s[24 + j] == u64_le(limbs_of(q.0)[3])[j],
        s[31] == (u64_le(limbs_of(q.0)[3])[7] | point_flag(q)),
    ensures
        s == point_bytes(q),
{
    lemma_point_bytes_parts(q);
    assert forall|i: int| 0 <= i < 32 implies s[i] == point_bytes(q)[i] by {
        if i < 8 {
            assert(s[i] == u64_le(limbs_of(q.0)[0])[i]);
        } else if i < 16 {
            let j = i - 8;
            assert(s[8 + j] == u64_le(limbs_of(q.0)[1])[j]);
            assert(point_bytes(q)[8 + j] == u64_le(limbs_of(q.0)[1])[j]);
        } else if i < 24 {
            let j = i - 16;
            assert(s[16 + j] == u64_le(limbs_of(q.0)[2])[j]);
            assert(point_bytes(q)[16 + j] == u64_le(limbs_of(q.0)[2])[j]);
        } else if i < 31 {
            let j = i - 24;
            assert(s[24 + j] == u64_le(limbs_of(q.0)[3])[j]);
            assert(point_bytes(q)[24 + j] == u64_le(limbs_of(q.0)[3])[j]);
        }
    }
    assert(s =~= point_bytes(q));
}

/// The two flag bits and the 6 low bits of a compressed encoding's top
/// byte come apart and together losslessly.
proof fn lemma_top_byte(b7: u8, f: u8)
    requires
        b7 < 0x40,
        f == 0x00 || f == 0x40 || f == 0x80,
    ensures
        ((b7 | f) >> 6) == (f >> 6),
        ((b7 | f) & 0x3f) == b7,
        (f >> 6) != 3,
{
    assert((b7 < 0x40 && (f == 0x00 || f == 0x40 || f == 0x80)) ==> (((b7 | f) >> 6) == (f >> 6)
        && ((b7 | f) & 0x3f) == b7 && (f >> 6) != 3)) by (bit_vector);
}

/// The top limb of an in-range x-coordinate leaves the two flag bits of
/// the top byte clear.
proof fn lemma_top_limb_small(l: u64)
    requires
        l < 0x4000000000000000,
    ensures
        ((l >> 56) & 0xff) < 0x40,
{
    assert(l < 0x4000000000000000 ==> ((l >> 56) & 0xff) < 0x40) by (bit_vector);
}

/// An x-coordinate below the modulus has a small top limb.
proof fn lemma_x_top_limb(v: nat)
    requires
        v < base_modulus(),
    ensures
        crate::field::limb_of(v, 3) < 0x4000000000000000,
        crate::field::limb_of(v, 3) == v / 0x1000000000000000000000000000000000000000000000000nat,
{
    let d3 = 0x1000000000000000000000000000000000000000000000000nat;
    vstd::arithmetic::div_mod::lemma_div_is_ordered(
        v as int,
        (base_modulus() - 1) as int,
        d3 as int,
    );
    assert((base_modulus() - 1) as int / (d3 as int) == 576460752303423505int);
    vstd::arithmetic::div_mod::lemma_small_mod(v / d3, 0x10000000000000000nat);
}

/// The generator satisfies the curve equation.  The constants are fixed,
/// so this is a single modular evaluation.
pub proof fn lemma_generator_on_curve()
    ensures
        on_curve(generator_x(), generator_y()),
{
    reveal(on_curve);
    reveal(curve_rhs);
    let gx = generator_x();
    let gy = generator_y();
    assert(gx * gx
        == 765169107272254342615563491641504626657381728088469542705032769593182211229059826917732267928597569002180452372713811006989229591149742099599678786404nat)
       ;
    assert(fmul(gx, gx)
        == 544346594700675142376876156493211898554348665385750743697303242390223424418nat)
       ;
    let m1 = 544346594700675142376876156493211898554348665385750743697303242390223424418nat;
    assert(fmul(m1, gx)
        == 3470683882004430604947395459300149069478650067433438562250272436976504729853nat)
       ;
    let m2 = 3470683882004430604947395459300149069478650067433438562250272436976504729853nat;
    assert(fmul(curve_a(), gx) == gx);
    assert(fadd(m2, gx)
        == 726920544416307157707537665979401047504821459635091343428562861913501515974nat)
       ;
    let s1 = 726920544416307157707537665979401047504821459635091343428562861913501515974nat;
    assert(fadd(s1, curve_b())
        == 250010409339969182472858266163833826078883643678600464430415398085445902158nat)
       ;
    assert(fmul(gy, gy)
        == 250010409339969182472858266163833826078883643678600464430415398085445902158nat)
       ;
}

} // verus!
