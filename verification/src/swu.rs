//! The Simplified SWU map from base-field elements onto the curve.
//!
//! The "avoiding inversions" form of the map: with ζ a fixed non-square,
//! x1 = B(ζ²t⁴ + ζt² + 1) / (−A(ζ²t⁴ + ζt²)) (or B/(ζA) when the
//! denominator vanishes), x2 = ζt²·x1; whichever of g(x1), g(x2) is a
//! square gives the y-coordinate, and the sign of y is matched to the
//! parity of t.  Division is multiplication by the library's field
//! inverse, and which square root the library returns is named by
//! `sqrt_of`; the final parity adjustment makes the result independent of
//! that choice.

use vstd::prelude::*;
use crate::curve::{
    curve_a, curve_b, fadd, fmul, fneg, felt_add, felt_invert, felt_mul, felt_neg,
    felt_sqrt, inv_of, on_curve, sqrt_of, swu_zeta, Point, StarkCurve,
};
use crate::error::Error;
use crate::field::Felt;

verus! {

/// ζt², the recurring intermediate of the map.
pub open spec fn swu_zu2(t: nat) -> nat {
    fmul(swu_zeta(), fmul(t, t))
}

/// ζ²t⁴ + ζt².
pub open spec fn swu_ta(t: nat) -> nat {
    fadd(fmul(swu_zu2(t), swu_zu2(t)), swu_zu2(t))
}

/// Numerator of x1.
pub open spec fn swu_num_x1(t: nat) -> nat {
    fmul(curve_b(), fadd(swu_ta(t), 1))
}

/// Common denominator of x1 and x2.
pub open spec fn swu_div(t: nat) -> nat {
    fmul(curve_a(), if swu_ta(t) == 0 { swu_zeta() } else { fneg(swu_ta(t)) })
}

/// The denominator cubed.
pub open spec fn swu_div3(t: nat) -> nat {
    fmul(fmul(swu_div(t), swu_div(t)), swu_div(t))
}

/// Numerator of g(x1) over that cube.
pub open spec fn swu_num_gx1(t: nat) -> nat {
    let n = swu_num_x1(t);
    let d2 = fmul(swu_div(t), swu_div(t));
    fadd(fmul(fadd(fmul(n, n), fmul(curve_a(), d2)), n), fmul(curve_b(), swu_div3(t)))
}

/// g(x1) itself.
pub open spec fn swu_gx1(t: nat) -> nat {
    fmul(swu_num_gx1(t), inv_of(swu_div3(t)))
}

/// Whether the map takes the g(x1)-is-a-nonzero-square branch.
pub open spec fn swu_square(t: nat) -> bool {
    swu_gx1(t) != 0 && sqrt_of(swu_gx1(t)) is Some
}

/// The square root the library hands the map in either branch.
pub open spec fn swu_y1(t: nat) -> nat {
    if swu_square(t) {
        match sqrt_of(swu_gx1(t)) {
            Some(y) => y,
            None => 0,
        }
    } else {
        match sqrt_of(fmul(swu_zeta(), swu_gx1(t))) {
            Some(y) => y,
            None => 0,
        }
    }
}

/// The parity of a canonical field element, zero counting as even.
pub open spec fn parity_of(v: nat) -> bool {
    v % 2 == 1
}

/// The point the map produces: x from the chosen branch, y adjusted so
/// its parity matches the parity of t.
#[verifier::opaque]
pub open spec fn swu_map(t: nat) -> (nat, nat, bool) {
    let num_x = if swu_square(t) { swu_num_x1(t) } else { fmul(swu_zu2(t), swu_num_x1(t)) };
    let y0 = if swu_square(t) { swu_y1(t) } else { fmul(fmul(swu_zu2(t), t), swu_y1(t)) };
    let xa = fmul(num_x, inv_of(swu_div(t)));
    let ya = if parity_of(y0) != parity_of(t) { fneg(y0) } else { y0 };
    (xa, ya, false)
}

/// When the map succeeds: the denominator cube is invertible, the chosen
/// branch has its square root, and the result satisfies the curve
/// equation.  With consistent curve parameters this holds of every t.
#[verifier::opaque]
pub open spec fn swu_ok(t: nat) -> bool {
    &&& swu_div3(t) != 0
    &&& (swu_square(t) || sqrt_of(fmul(swu_zeta(), swu_gx1(t))) is Some)
    &&& on_curve(swu_map(t).0, swu_map(t).1)
}

/// The parity of a canonical element is the parity of its lowest limb.
proof fn lemma_parity(f: Felt)
    ensures
        parity_of(f@) == (f.limbs[0] % 2 == 1),
{
    let l = f.limbs;
    let d = 0x10000000000000000int;
    let k = l[1] + l[2] * d + l[3] * d * d;
    assert(f@ == l[0] + k * d);
    assert(k * d == 2 * (k * 0x8000000000000000));
    vstd::arithmetic::div_mod::lemma_mod_multiples_vanish(k * 0x8000000000000000, l[0] as int, 2);
}

/// The Simplified SWU mapper: deterministic, total on the base field.
pub struct SwuMapper;

impl SwuMapper {
    /// Builds the mapper, checking that ζ is a quadratic non-residue, as
    /// the map requires; the curve coefficients A and B are nonzero
    /// constants.
    pub fn new() -> (r: Result<SwuMapper, Error>)
        ensures
            r is Ok <==> sqrt_of(swu_zeta()) is None,
    {
        let zeta = StarkCurve::zeta();
        match felt_sqrt(&zeta) {
            Some(_) => Err(Error::CurveMappingError),
            None => Ok(SwuMapper),
        }
    }

    /// Maps a base-field element to a point of the curve.  The result is
    /// the map's value `swu_map`; failure can only arise from inconsistent
    /// curve parameters, never for this curve's constants.
    pub fn map_to_curve(&self, t: &Felt) -> (r: Result<Point, Error>)
        requires
            t.wf(),
        ensures
            r matches Ok(p) ==> p.wf() && !p.infinity && p@ == swu_map(t@),
            r is Ok <==> swu_ok(t@),
            r is Err ==> r == Err::<Point, Error>(Error::CurveMappingError),
    {
        proof {
            reveal(swu_map);
            reveal(swu_ok);
        }
        let a = StarkCurve::coeff_a();
        let b = StarkCurve::coeff_b();
        let zeta = StarkCurve::zeta();
        let t2 = felt_mul(t, t);
        let zu2 = felt_mul(&zeta, &t2);
        let ta = felt_add(&felt_mul(&zu2, &zu2), &zu2);
        let one = Felt::from_byte(1);
        let num_x1 = felt_mul(&b, &felt_add(&ta, &one));
        let div = if ta.is_zero() {
            felt_mul(&a, &zeta)
        } else {
            felt_mul(&a, &felt_neg(&ta))
        };
        let div2 = felt_mul(&div, &div);
        let div3 = felt_mul(&div2, &div);
        let num2_x1 = felt_mul(&num_x1, &num_x1);
        let num_gx1 = felt_add(
            &felt_mul(&felt_add(&num2_x1, &felt_mul(&a, &div2)), &num_x1),
            &felt_mul(&b, &div3),
        );
        proof {
            assert(zu2@ == swu_zu2(t@));
            assert(ta@ == swu_ta(t@));
            assert(num_x1@ == swu_num_x1(t@));
            assert(div@ == swu_div(t@));
            assert(div3@ == swu_div3(t@));
            assert(num_gx1@ == swu_num_gx1(t@));
        }
        let div3_inv = match felt_invert(&div3) {
            Some(i) => i,
            None => {
                return Err(Error::CurveMappingError);
            },
        };
        let gx1 = felt_mul(&num_gx1, &div3_inv);
        let gx1_zero = gx1.is_zero();
        let sq = felt_sqrt(&gx1);
        let square = !gx1_zero && sq.is_some();
        let y1 = if square {
            match sq {
                Some(y) => y,
                None => Felt::zero(),
            }
        } else {
            match felt_sqrt(&felt_mul(&zeta, &gx1)) {
                Some(y) => y,
                None => {
                    proof {
                        assert(!swu_square(t@));
                    }
                    return Err(Error::CurveMappingError);
                },
            }
        };
        proof {
            assert(gx1@ == swu_gx1(t@));
            assert(square == swu_square(t@));
            assert(y1@ == swu_y1(t@));
        }
        let num_x = if square { num_x1 } else { felt_mul(&zu2, &num_x1) };
        let y0 = if square { y1 } else { felt_mul(&felt_mul(&zu2, t), &y1) };
        let div_inv = match felt_invert(&div) {
            Some(i) => i,
            None => {
                return Err(Error::CurveMappingError);
            },
        };
        let xa = felt_mul(&num_x, &div_inv);
        let y_parity = y0.limbs[0] % 2 == 1;
        let t_parity = t.limbs[0] % 2 == 1;
        let ya = if y_parity != t_parity {
            felt_neg(&y0)
        } else {
            y0
        };
        proof {
            lemma_parity(y0);
            lemma_parity(*t);
            assert(xa@ == swu_map(t@).0);
            assert(ya@ == swu_map(t@).1);
        }
        let p = Point { x: xa, y: ya, infinity: false };
        if p.is_on_curve() {
            Ok(p)
        } else {
            Err(Error::CurveMappingError)
        }
    }
}

/// The square root of u/v, or of ζ·(u/v) when u/v is not a square: the
/// hinted square-root computation a hosting virtual machine asks for.
/// The returned element squares to u/v exactly when u/v is a square, and
/// to ζ·u/v otherwise; only if neither is a square — impossible for a
/// non-square ζ, the Legendre symbol being multiplicative — does it fail.
pub fn sqrt_ratio(u: &Felt, v: &Felt, z: &Felt) -> (r: Result<Felt, Error>)
    requires
        u.wf(),
        v.wf(),
        z.wf(),
        v@ != 0,
    ensures
        r matches Ok(y) ==> y.wf() && ({
            let gx1 = fmul(u@, inv_of(v@));
            if sqrt_of(gx1) is Some {
                Some(y@) == sqrt_of(gx1) && fmul(y@, y@) == gx1
            } else {
                Some(y@) == sqrt_of(fmul(z@, gx1)) && fmul(y@, y@) == fmul(z@, gx1)
            }
        }),
        r is Err <==> (sqrt_of(fmul(u@, inv_of(v@))) is None && sqrt_of(
            fmul(z@, fmul(u@, inv_of(v@))),
        ) is None),
{
    let v_inv = match felt_invert(v) {
        Some(i) => i,
        None => {
            return Err(Error::CurveMappingError);
        },
    };
    let gx1 = felt_mul(u, &v_inv);
    match felt_sqrt(&gx1) {
        Some(y) => Ok(y),
        None => {
            let zeta_gx1 = felt_mul(z, &gx1);
            match felt_sqrt(&zeta_gx1) {
                Some(y) => Ok(y),
                None => Err(Error::CurveMappingError),
            }
        },
    }
}

} // verus!
