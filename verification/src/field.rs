//! Element types for the two prime fields of the STARK curve.
//!
//! A `Felt` is an element of the base field (integers modulo `base_modulus`),
//! a `Scalar` an element of the scalar field (integers modulo
//! `scalar_modulus`).  Both are held as four little-endian 64-bit limbs in
//! canonical (fully reduced) form, so that every element has exactly one
//! representation and byte-exact serialization can be reasoned about
//! directly.  All modular arithmetic is delegated to outside libraries
//! through the trusted functions in `curve.rs` and below; this module only
//! defines the representations and the facts that connect limbs, integer
//! values and bytes.

use vstd::prelude::*;
use vstd::arithmetic::div_mod::{
    lemma_fundamental_div_mod_converse,
};

verus! {

/// The base-field modulus p = 2^251 + 17 * 2^192 + 1.
pub open spec fn base_modulus() -> nat {
    3618502788666131213697322783095070105623107215331596699973092056135872020481nat
}

/// The scalar-field modulus q (the order of the curve group).
pub open spec fn scalar_modulus() -> nat {
    3618502788666131213697322783095070105526743751716087489154079457884512865583nat
}

/// Little-endian limbs of the base-field modulus.
pub const P_LIMBS: [u64; 4] = [1, 0, 0, 576460752303423505];

/// Little-endian limbs of the scalar-field modulus.
pub const Q_LIMBS: [u64; 4] = [
    2190616671734353199,
    13222870243701404210,
    18446744073709551615,
    576460752303423504,
];

/// Little-endian limbs of (p - 1) / 2, the largest "positive" y-coordinate.
pub const HALF_P_LIMBS: [u64; 4] = [0, 0, 9223372036854775808, 288230376151711752];

/// The integer value of four little-endian 64-bit limbs.
pub open spec fn val4(l: [u64; 4]) -> nat {
    (l[0] + l[1] * 0x10000000000000000 + l[2] * 0x100000000000000000000000000000000
        + l[3] * 0x1000000000000000000000000000000000000000000000000) as nat
}

/// An element of the base field, canonical: `val4(limbs) < base_modulus()`.
#[derive(Clone, Copy, Debug)]
pub struct Felt {
    pub limbs: [u64; 4],
}

/// An element of the scalar field, canonical: `val4(limbs) < scalar_modulus()`.
#[derive(Clone, Copy, Debug)]
pub struct Scalar {
    pub limbs: [u64; 4],
}

impl PartialEq for Felt {
    fn eq(&self, o: &Felt) -> (r: bool) {
        let r = self.limbs[0] == o.limbs[0] && self.limbs[1] == o.limbs[1]
            && self.limbs[2] == o.limbs[2] && self.limbs[3] == o.limbs[3];
        proof {
            if r {
                assert(self.limbs =~= o.limbs);
            }
        }
        r
    }
}

impl Eq for Felt {}

impl vstd::std_specs::cmp::PartialEqSpecImpl for Felt {
    open spec fn obeys_eq_spec() -> bool {
        true
    }

    open spec fn eq_spec(&self, o: &Felt) -> bool {
        self.limbs == o.limbs
    }
}

impl PartialEq for Scalar {
    fn eq(&self, o: &Scalar) -> (r: bool) {
        let r = self.limbs[0] == o.limbs[0] && self.limbs[1] == o.limbs[1]
            && self.limbs[2] == o.limbs[2] && self.limbs[3] == o.limbs[3];
        proof {
            if r {
                assert(self.limbs =~= o.limbs);
            }
        }
        r
    }
}

impl Eq for Scalar {}

impl vstd::std_specs::cmp::PartialEqSpecImpl for Scalar {
    open spec fn obeys_eq_spec() -> bool {
        true
    }

    open spec fn eq_spec(&self, o: &Scalar) -> bool {
        self.limbs == o.limbs
    }
}

impl View for Felt {
    type V = nat;

    open spec fn view(&self) -> nat {
        val4(self.limbs)
    }
}

impl View for Scalar {
    type V = nat;

    open spec fn view(&self) -> nat {
        val4(self.limbs)
    }
}

impl Felt {
    /// Canonicity: the limbs encode a fully reduced base-field element.
    pub open spec fn wf(&self) -> bool {
        self@ < base_modulus()
    }

    /// The base-field element standing for one message byte.
    pub fn from_byte(b: u8) -> (r: Felt)
        ensures
            r@ == b as nat,
            r.wf(),
    {
        let f = Felt { limbs: [b as u64, 0, 0, 0] };
        proof {
            assert(val4(f.limbs) == b as nat);
        }
        f
    }

    /// The zero element.
    pub fn zero() -> (r: Felt)
        ensures
            r@ == 0,
            r.wf(),
    {
        Felt { limbs: [0, 0, 0, 0] }
    }

    pub fn is_zero(&self) -> (r: bool)
        ensures
            r == (self@ == 0),
    {
        proof {
            lemma_val4_zero(self.limbs);
        }
        self.limbs[0] == 0 && self.limbs[1] == 0 && self.limbs[2] == 0 && self.limbs[3] == 0
    }
}

impl Scalar {
    /// Canonicity: the limbs encode a fully reduced scalar-field element.
    pub open spec fn wf(&self) -> bool {
        self@ < scalar_modulus()
    }

    /// A scalar from a small integer.
    pub fn from_u64(v: u64) -> (r: Scalar)
        ensures
            r@ == v as nat,
            r.wf(),
    {
        let s = Scalar { limbs: [v, 0, 0, 0] };
        proof {
            assert(val4(s.limbs) == v as nat);
            assert((v as nat) < scalar_modulus());
        }
        s
    }
}

/// val4 is zero exactly when every limb is zero.
pub proof fn lemma_val4_zero(l: [u64; 4])
    ensures
        (val4(l) == 0) <==> (l[0] == 0 && l[1] == 0 && l[2] == 0 && l[3] == 0),
{
}

/// Two limb arrays with the same value are equal: the base-2^64
/// representation of an integer is unique.
pub proof fn lemma_val4_injective(a: [u64; 4], b: [u64; 4])
    requires
        val4(a) == val4(b),
    ensures
        a == b,
{
    let d = 0x10000000000000000int;
    let ha = a[1] + a[2] * d + a[3] * d * d;
    let hb = b[1] + b[2] * d + b[3] * d * d;
    assert(val4(a) == a[0] + ha * d);
    assert(val4(b) == b[0] + hb * d);
    lemma_fundamental_div_mod_converse(val4(a) as int, d, ha, a[0] as int);
    lemma_fundamental_div_mod_converse(val4(b) as int, d, hb, b[0] as int);
    assert(a[0] == b[0] && ha == hb);
    let ha2 = a[2] + a[3] * d;
    let hb2 = b[2] + b[3] * d;
    lemma_fundamental_div_mod_converse(ha, d, ha2, a[1] as int);
    lemma_fundamental_div_mod_converse(hb, d, hb2, b[1] as int);
    assert(a[1] == b[1] && ha2 == hb2);
    lemma_fundamental_div_mod_converse(ha2, d, a[3] as int, a[2] as int);
    lemma_fundamental_div_mod_converse(hb2, d, b[3] as int, b[2] as int);
    assert(a[2] == b[2] && a[3] == b[3]);
    assert(a =~= b);
}

/// The eight little-endian bytes of a 64-bit limb.
#[verifier::opaque]
pub open spec fn u64_le(x: u64) -> Seq<u8> {
    seq![
        (x & 0xff) as u8,
        ((x >> 8) & 0xff) as u8,
        ((x >> 16) & 0xff) as u8,
        ((x >> 24) & 0xff) as u8,
        ((x >> 32) & 0xff) as u8,
        ((x >> 40) & 0xff) as u8,
        ((x >> 48) & 0xff) as u8,
        ((x >> 56) & 0xff) as u8,
    ]
}

/// The 32 little-endian bytes of four limbs: the canonical wire form of a
/// field element, as the consumed serialization library lays it out.
pub open spec fn limbs_le32(l: [u64; 4]) -> Seq<u8> {
    u64_le(l[0]) + u64_le(l[1]) + u64_le(l[2]) + u64_le(l[3])
}

/// Appends the eight little-endian bytes of `x` to `out`.
pub fn push_u64_le(out: &mut Vec<u8>, x: u64)
    ensures
        final(out)@ == old(out)@ + u64_le(x),
{
    out.push((x & 0xff) as u8);
    out.push(((x >> 8) & 0xff) as u8);
    out.push(((x >> 16) & 0xff) as u8);
    out.push(((x >> 24) & 0xff) as u8);
    out.push(((x >> 32) & 0xff) as u8);
    out.push(((x >> 40) & 0xff) as u8);
    out.push(((x >> 48) & 0xff) as u8);
    out.push(((x >> 56) & 0xff) as u8);
    proof {
        reveal(u64_le);
        assert(out@ =~= old(out)@ + u64_le(x));
    }
}

/// Appends the 32 little-endian bytes of the limbs to `out`.
pub fn push_limbs_le32(out: &mut Vec<u8>, l: &[u64; 4])
    ensures
        final(out)@ == old(out)@ + limbs_le32(*l),
{
    push_u64_le(out, l[0]);
    push_u64_le(out, l[1]);
    push_u64_le(out, l[2]);
    push_u64_le(out, l[3]);
    proof {
        lemma_u64_le_len(l[0]);
        lemma_u64_le_len(l[1]);
        lemma_u64_le_len(l[2]);
        lemma_u64_le_len(l[3]);
        assert(out@ =~= old(out)@ + limbs_le32(*l));
    }
}

/// Rebuilding a limb from its eight little-endian bytes.
pub proof fn lemma_u64_le_build(b0: u64, b1: u64, b2: u64, b3: u64, b4: u64, b5: u64, b6: u64, b7: u64)
    requires
        b0 < 256, b1 < 256, b2 < 256, b3 < 256,
        b4 < 256, b5 < 256, b6 < 256, b7 < 256,
    ensures
        u64_le(b0 | (b1 << 8) | (b2 << 16) | (b3 << 24) | (b4 << 32) | (b5 << 40) | (b6 << 48) | (b7 << 56))
            =~= seq![b0 as u8, b1 as u8, b2 as u8, b3 as u8, b4 as u8, b5 as u8, b6 as u8, b7 as u8],
{
    reveal(u64_le);
    let x = b0 | (b1 << 8) | (b2 << 16) | (b3 << 24) | (b4 << 32) | (b5 << 40) | (b6 << 48) | (b7 << 56);
    assert((x & 0xff) == b0 && ((x >> 8) & 0xff) == b1 && ((x >> 16) & 0xff) == b2
        && ((x >> 24) & 0xff) == b3 && ((x >> 32) & 0xff) == b4 && ((x >> 40) & 0xff) == b5
        && ((x >> 48) & 0xff) == b6 && ((x >> 56) & 0xff) == b7) by (bit_vector)
        requires
            b0 < 256 && b1 < 256 && b2 < 256 && b3 < 256 && b4 < 256 && b5 < 256 && b6 < 256
                && b7 < 256 && x == b0 | (b1 << 8) | (b2 << 16) | (b3 << 24) | (b4 << 32)
                | (b5 << 40) | (b6 << 48) | (b7 << 56),
    ;
}

/// Reads the eight bytes starting at `i` as a little-endian 64-bit limb.
pub fn read_u64_le(s: &[u8], i: usize) -> (r: u64)
    requires
        i + 8 <= s@.len(),
    ensures
        u64_le(r) == s@.subrange(i as int, i + 8),
{
    let n = s.len();
    let r = (s[i] as u64) | ((s[i + 1] as u64) << 8) | ((s[i + 2] as u64) << 16)
        | ((s[i + 3] as u64) << 24) | ((s[i + 4] as u64) << 32) | ((s[i + 5] as u64) << 40)
        | ((s[i + 6] as u64) << 48) | ((s[i + 7] as u64) << 56);
    proof {
        lemma_u64_le_build(
            s@[i as int] as u64, s@[i + 1] as u64, s@[i + 2] as u64, s@[i + 3] as u64,
            s@[i + 4] as u64, s@[i + 5] as u64, s@[i + 6] as u64, s@[i + 7] as u64,
        );
        assert(u64_le(r) =~= s@.subrange(i as int, i + 8));
    }
    r
}

/// The little-endian limbs of an integer below 2^256.
pub open spec fn limb_of(v: nat, i: int) -> u64 {
    ((v / pow64(i)) % 0x10000000000000000) as u64
}

/// 2^(64 i) for the four limb positions.
pub open spec fn pow64(i: int) -> nat {
    if i <= 0 {
        1nat
    } else if i == 1 {
        0x10000000000000000nat
    } else if i == 2 {
        0x100000000000000000000000000000000nat
    } else {
        0x1000000000000000000000000000000000000000000000000nat
    }
}

pub open spec fn limbs_of(v: nat) -> [u64; 4] {
    [limb_of(v, 0), limb_of(v, 1), limb_of(v, 2), limb_of(v, 3)]
}

/// Extracting the limbs of a limb array's value gives the array back.
pub proof fn lemma_limbs_of_val4(l: [u64; 4])
    ensures
        limbs_of(val4(l)) == l,
{
    let d = 0x10000000000000000int;
    let v = val4(l) as int;
    let h1 = l[1] + l[2] * d + l[3] * d * d;
    assert(v == h1 * d + l[0]);
    lemma_fundamental_div_mod_converse(v, d, h1, l[0] as int);
    let h2 = l[2] + l[3] * d;
    lemma_fundamental_div_mod_converse(h1, d, h2, l[1] as int);
    assert(v == h2 * (d * d) + (l[0] + l[1] * d)) by {
        assert(h1 * d == (h2 * d + l[1]) * d);
        assert((h2 * d + l[1]) * d == h2 * (d * d) + l[1] * d) by (nonlinear_arith);
    }
    lemma_fundamental_div_mod_converse(v, d * d, h2, l[0] + l[1] * d);
    lemma_fundamental_div_mod_converse(h2, d, l[3] as int, l[2] as int);
    assert(v == l[3] * (d * d * d) + (l[0] + l[1] * d + l[2] * d * d)) by {
        assert(h2 * (d * d) == (l[3] * d + l[2]) * (d * d));
        assert((l[3] * d + l[2]) * (d * d) == l[3] * (d * d * d) + l[2] * (d * d))
            by (nonlinear_arith);
    }
    lemma_fundamental_div_mod_converse(
        v,
        d * d * d,
        l[3] as int,
        l[0] + l[1] * d + l[2] * d * d,
    );
    assert(limb_of(val4(l), 0) == l[0]);
    assert(limb_of(val4(l), 1) == l[1]);
    assert(limb_of(val4(l), 2) == l[2]);
    assert(limb_of(val4(l), 3) == l[3]);
    assert(limbs_of(val4(l)) =~= l);
}

/// The limbs extracted from an integer below 2^256 recompose to it.
pub proof fn lemma_val4_of_limbs_of(v: nat)
    requires
        v < 0x10000000000000000000000000000000000000000000000000000000000000000nat,
    ensures
        val4(limbs_of(v)) == v,
{
    let d = 0x10000000000000000nat;
    let vi = v as int;
    let a1 = v / d;
    let a2 = a1 / d;
    let a3 = a2 / d;
    vstd::arithmetic::div_mod::lemma_fundamental_div_mod(vi, d as int);
    vstd::arithmetic::div_mod::lemma_fundamental_div_mod(a1 as int, d as int);
    vstd::arithmetic::div_mod::lemma_fundamental_div_mod(a2 as int, d as int);
    vstd::arithmetic::div_mod::lemma_div_denominator(vi, d as int, d as int);
    vstd::arithmetic::div_mod::lemma_div_denominator(vi, (d * d) as int, d as int);
    assert(a2 == v / (d * d));
    assert(a3 == v / (d * d * d));
    assert(a3 < d) by {
        vstd::arithmetic::div_mod::lemma_div_is_ordered(
            vi,
            0xffffffffffffffffffffffffffffffffffffffffffffffffffffffffffffffffint,
            (d * d * d) as int,
        );
    }
    vstd::arithmetic::div_mod::lemma_small_mod(a3, d);
    assert(limb_of(v, 0) == v % d);
    assert(limb_of(v, 1) == a1 % d);
    assert(limb_of(v, 2) == a2 % d);
    assert(limb_of(v, 3) == a3);
    assert(vi == d * a1 + (v % d));
    assert(a1 as int == d * a2 + (a1 % d));
    assert(a2 as int == d * a3 + (a2 % d));
    assert(vi == (v % d) + (a1 % d) * d + (a2 % d) * (d * d) + a3 * (d * d * d)) by {
        assert(d * (d * a2 + (a1 % d)) == (d * d) * a2 + d * (a1 % d)) by (nonlinear_arith);
        assert((d * d) * (d * a3 + (a2 % d)) == (d * d * d) * a3 + (d * d) * (a2 % d))
            by (nonlinear_arith);
    }
}

/// The length and the top byte of a limb's little-endian bytes.
pub proof fn lemma_u64_le_len(x: u64)
    ensures
        u64_le(x).len() == 8,
        u64_le(x)[7] == ((x >> 56) & 0xff) as u8,
{
    reveal(u64_le);
}

/// The 32-byte form of four limbs has 32 bytes.
pub proof fn lemma_limbs_le32_len(l: [u64; 4])
    ensures
        limbs_le32(l).len() == 32,
{
    lemma_u64_le_len(l[0]);
    lemma_u64_le_len(l[1]);
    lemma_u64_le_len(l[2]);
    lemma_u64_le_len(l[3]);
}

/// Every byte of a limb is below 256.
pub proof fn lemma_u64_byte_bounds(a: u64)
    ensures
        (a & 0xff) < 256,
        ((a >> 8) & 0xff) < 256,
        ((a >> 16) & 0xff) < 256,
        ((a >> 24) & 0xff) < 256,
        ((a >> 32) & 0xff) < 256,
        ((a >> 40) & 0xff) < 256,
        ((a >> 48) & 0xff) < 256,
        ((a >> 56) & 0xff) < 256,
{
    assert((a & 0xff) < 256 && ((a >> 8) & 0xff) < 256 && ((a >> 16) & 0xff) < 256 && ((a >> 24)
        & 0xff) < 256 && ((a >> 32) & 0xff) < 256 && ((a >> 40) & 0xff) < 256 && ((a >> 48)
        & 0xff) < 256 && ((a >> 56) & 0xff) < 256) by (bit_vector);
}

/// A limb is determined by its eight little-endian bytes.
pub proof fn lemma_u64_le_injective(a: u64, b: u64)
    requires
        u64_le(a) == u64_le(b),
    ensures
        a == b,
{
    reveal(u64_le);
    assert(u64_le(a)[0] == u64_le(b)[0] && u64_le(a)[1] == u64_le(b)[1] && u64_le(a)[2]
        == u64_le(b)[2] && u64_le(a)[3] == u64_le(b)[3] && u64_le(a)[4] == u64_le(b)[4]
        && u64_le(a)[5] == u64_le(b)[5] && u64_le(a)[6] == u64_le(b)[6] && u64_le(a)[7]
        == u64_le(b)[7]);
    lemma_u64_byte_bounds(a);
    lemma_u64_byte_bounds(b);
    assert(a == b) by (bit_vector)
        requires
            (a & 0xff) == (b & 0xff) && ((a >> 8) & 0xff) == ((b >> 8) & 0xff) && ((a >> 16)
                & 0xff) == ((b >> 16) & 0xff) && ((a >> 24) & 0xff) == ((b >> 24) & 0xff) && ((a
                >> 32) & 0xff) == ((b >> 32) & 0xff) && ((a >> 40) & 0xff) == ((b >> 40) & 0xff)
                && ((a >> 48) & 0xff) == ((b >> 48) & 0xff) && ((a >> 56) & 0xff) == ((b >> 56)
                & 0xff),
    ;
}

/// Lexicographic comparison of limbs, most significant first, decides the
/// order of the values.
pub fn limbs_lt(a: &[u64; 4], b: &[u64; 4]) -> (r: bool)
    ensures
        r == (val4(*a) < val4(*b)),
{
    if a[3] != b[3] {
        return a[3] < b[3];
    }
    if a[2] != b[2] {
        return a[2] < b[2];
    }
    if a[1] != b[1] {
        return a[1] < b[1];
    }
    a[0] < b[0]
}

} // verus!
