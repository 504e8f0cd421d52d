//! The definite quaternion algebra B_{37, inf} with i^2 = A = -1,
//! j^2 = B = -37, ij = -ji = k, and the lattice states that walk on it.

use vstd::prelude::*;
use sha2::Digest;

verus! {

/// The prime that defines the algebra.
pub const ALGEBRA_P: i64 = 37;
/// i^2 = A.
pub const PARAM_A: i64 = -1;
/// j^2 = B = -p.
pub const PARAM_B: i64 = -37;

/// A quaternion with unbounded integer coefficients: the mathematical
/// model of [`Quaternion`].
pub struct Quat {
    pub a: int,
    pub b: int,
    pub c: int,
    pub d: int,
}

pub open spec fn quat(a: int, b: int, c: int, d: int) -> Quat {
    Quat { a, b, c, d }
}

pub open spec fn q_zero() -> Quat {
    quat(0, 0, 0, 0)
}

pub open spec fn q_one() -> Quat {
    quat(1, 0, 0, 0)
}

/// The real quaternion `s`.
pub open spec fn q_scalar(s: int) -> Quat {
    quat(s, 0, 0, 0)
}

pub open spec fn q_add(x: Quat, y: Quat) -> Quat {
    quat(x.a + y.a, x.b + y.b, x.c + y.c, x.d + y.d)
}

pub open spec fn q_sub(x: Quat, y: Quat) -> Quat {
    quat(x.a - y.a, x.b - y.b, x.c - y.c, x.d - y.d)
}

pub open spec fn q_conj(x: Quat) -> Quat {
    quat(x.a, -x.b, -x.c, -x.d)
}

/// Product in B_{p, inf} by the table i^2 = A, j^2 = B, k^2 = -AB,
/// ij = k, ji = -k, jk = -Bi, kj = Bi, ki = -Aj, ik = Aj.
pub open spec fn q_mul(x: Quat, y: Quat) -> Quat {
    quat(
        x.a * y.a - x.b * y.b - 37 * (x.c * y.c) - 37 * (x.d * y.d),
        x.a * y.b + x.b * y.a + 37 * (x.c * y.d) - 37 * (x.d * y.c),
        x.a * y.c - x.b * y.d + x.c * y.a + x.d * y.b,
        x.a * y.d + x.b * y.c - x.c * y.b + x.d * y.a,
    )
}

/// The reduced norm N(q) = a^2 - A b^2 - B c^2 + AB d^2
/// = a^2 + b^2 + 37 c^2 + 37 d^2.
pub open spec fn q_norm(x: Quat) -> int {
    x.a * x.a + x.b * x.b + 37 * (x.c * x.c) + 37 * (x.d * x.d)
}

pub open spec fn fits_i64(v: int) -> bool {
    i64::MIN <= v <= i64::MAX
}

pub open spec fn fits_i128(v: int) -> bool {
    i128::MIN <= v <= i128::MAX
}

/// Every intermediate value of the product, evaluated left to right as
/// the multiplication code does, stays within `i64`.
proof fn lemma_product_fits_i128(x: int, y: int)
    requires
        fits_i64(x),
        fits_i64(y),
    ensures
        fits_i128(x * y),
{
    assert(fits_i128(x * y)) by (nonlinear_arith)
        requires
            fits_i64(x),
            fits_i64(y),
    ;
}

/// Whether a value fits in `i64`.
fn fits(v: i128) -> (r: bool)
    ensures
        r == fits_i64(v as int),
{
    i64::MIN as i128 <= v && v <= i64::MAX as i128
}

pub open spec fn mul_fits(x: Quat, y: Quat) -> bool {
    let aa = PARAM_A as int;
    let bb = PARAM_B as int;
    let ab = aa * bb;
    // real part
    &&& fits_i64(x.a * y.a)
    &&& fits_i64(aa * x.b) && fits_i64(aa * x.b * y.b)
    &&& fits_i64(x.a * y.a + aa * x.b * y.b)
    &&& fits_i64(bb * x.c) && fits_i64(bb * x.c * y.c)
    &&& fits_i64(x.a * y.a + aa * x.b * y.b + bb * x.c * y.c)
    &&& fits_i64(ab * x.d) && fits_i64(ab * x.d * y.d)
    &&& fits_i64(x.a * y.a + aa * x.b * y.b + bb * x.c * y.c - ab * x.d * y.d)
    // i part
    &&& fits_i64(x.a * y.b) && fits_i64(x.b * y.a)
    &&& fits_i64(x.a * y.b + x.b * y.a)
    &&& fits_i64(bb * x.c) && fits_i64(bb * x.c * y.d)
    &&& fits_i64(x.a * y.b + x.b * y.a - bb * x.c * y.d)
    &&& fits_i64(bb * x.d) && fits_i64(bb * x.d * y.c)
    &&& fits_i64(x.a * y.b + x.b * y.a - bb * x.c * y.d + bb * x.d * y.c)
    // j part
    &&& fits_i64(x.a * y.c)
    &&& fits_i64(aa * x.b) && fits_i64(aa * x.b * y.d)
    &&& fits_i64(x.a * y.c + aa * x.b * y.d)
    &&& fits_i64(x.c * y.a)
    &&& fits_i64(x.a * y.c + aa * x.b * y.d + x.c * y.a)
    &&& fits_i64(aa * x.d) && fits_i64(aa * x.d * y.b)
    &&& fits_i64(x.a * y.c + aa * x.b * y.d + x.c * y.a - aa * x.d * y.b)
    // k part
    &&& fits_i64(x.a * y.d) && fits_i64(x.b * y.c)
    &&& fits_i64(x.a * y.d + x.b * y.c)
    &&& fits_i64(x.c * y.b)
    &&& fits_i64(x.a * y.d + x.b * y.c - x.c * y.b)
    &&& fits_i64(x.d * y.a)
    &&& fits_i64(x.a * y.d + x.b * y.c - x.c * y.b + x.d * y.a)
}

/// A quaternion q = a + bi + cj + dk in B_{p, inf}: the atomic "word" of
/// the causal language.
#[derive(Debug, Clone, Copy, PartialEq, Eq, Structural, Hash)]
pub struct Quaternion {
    pub a: i64,
    pub b: i64,
    pub c: i64,
    pub d: i64,
}

impl View for Quaternion {
    type V = Quat;

    open spec fn view(&self) -> Quat {
        quat(self.a as int, self.b as int, self.c as int, self.d as int)
    }
}

impl Quaternion {
    pub fn new(a: i64, b: i64, c: i64, d: i64) -> (q: Self)
        ensures
            q == (Quaternion { a, b, c, d }),
    {
        Quaternion { a, b, c, d }
    }

    pub fn zero() -> (q: Self)
        ensures
            q@ == q_zero(),
    {
        Self::new(0, 0, 0, 0)
    }

    pub fn identity() -> (q: Self)
        ensures
            q@ == q_one(),
    {
        Self::new(1, 0, 0, 0)
    }

    /// The reduced norm N(q) = a^2 - A b^2 - B c^2 + AB d^2, a positive
    /// definite form since A < 0 and B < 0. Defined when the norm fits in
    /// `i128` (every partial sum is smaller).
    pub fn norm(&self) -> (n: i128)
        requires
            q_norm(self@) <= i128::MAX,
        ensures
            n == q_norm(self@),
    {
        let a = self.a as i128;
        let b = self.b as i128;
        let c = self.c as i128;
        let d = self.d as i128;
        proof {
            lemma_norm_terms_nonneg(self@);
            let (ci, di) = (c as int, d as int);
            assert(37 * ci * ci == 37 * (ci * ci)) by (nonlinear_arith);
            assert(37 * di * di == 37 * (di * di)) by (nonlinear_arith);
            let bi = b as int;
            assert(1 * bi * bi == bi * bi) by (nonlinear_arith);
        }
        let term1 = a * a;
        let term2 = -(PARAM_A as i128) * b * b;
        let term3 = -(PARAM_B as i128) * c * c;
        let term4 = (PARAM_A as i128) * (PARAM_B as i128) * d * d;
        term1 + term2 + term3 + term4
    }

    /// Whether `self * rhs` can be computed: every intermediate value of the
    /// product stays within `i64` (see [`mul_fits`]).
    pub fn can_mul(&self, rhs: &Self) -> (r: bool)
        ensures
            r == mul_fits(self@, rhs@),
    {
        let a1 = self.a as i128;
        let b1 = self.b as i128;
        let c1 = self.c as i128;
        let d1 = self.d as i128;
        let a2 = rhs.a as i128;
        let b2 = rhs.b as i128;
        let c2 = rhs.c as i128;
        let d2 = rhs.d as i128;
        let pa = PARAM_A as i128;
        let pb = PARAM_B as i128;
        let pab = pa * pb;
        assert(pab == 37) by (nonlinear_arith)
            requires
                pa == -1,
                pb == -37,
                pab == pa * pb,
        ;
        proof {
            lemma_product_fits_i128(a1 as int, a2 as int);
        }
        let t1: i128 = a1 * a2;
        if !fits((t1)) { return false; }
        let u1: i128 = pa * b1;
        if !fits((u1)) { return false; }
        proof {
            lemma_product_fits_i128(u1 as int, b2 as int);
        }
        let t2: i128 = u1 * b2;
        if !fits((t2)) { return false; }
        let s1: i128 = t1 + t2;
        if !fits((s1)) { return false; }
        let v1: i128 = pb * c1;
        if !fits((v1)) { return false; }
        proof {
            lemma_product_fits_i128(v1 as int, c2 as int);
        }
        let t3: i128 = v1 * c2;
        if !fits((t3)) { return false; }
        let s2: i128 = s1 + t3;
        if !fits((s2)) { return false; }
        let w1: i128 = pab * d1;
        if !fits((w1)) { return false; }
        proof {
            lemma_product_fits_i128(w1 as int, d2 as int);
        }
        let t4: i128 = w1 * d2;
        if !fits((t4)) { return false; }
        let ra: i128 = s2 - t4;
        if !fits((ra)) { return false; }
        proof {
            lemma_product_fits_i128(a1 as int, b2 as int);
        }
        let x1: i128 = a1 * b2;
        if !fits((x1)) { return false; }
        proof {
            lemma_product_fits_i128(b1 as int, a2 as int);
        }
        let x2: i128 = b1 * a2;
        if !fits((x2)) { return false; }
        let s3: i128 = x1 + x2;
        if !fits((s3)) { return false; }
        let y1: i128 = pb * c1;
        if !fits((y1)) { return false; }
        proof {
            lemma_product_fits_i128(y1 as int, d2 as int);
        }
        let x3: i128 = y1 * d2;
        if !fits((x3)) { return false; }
        let s4: i128 = s3 - x3;
        if !fits((s4)) { return false; }
        let z1: i128 = pb * d1;
        if !fits((z1)) { return false; }
        proof {
            lemma_product_fits_i128(z1 as int, c2 as int);
        }
        let x4: i128 = z1 * c2;
        if !fits((x4)) { return false; }
        let rb: i128 = s4 + x4;
        if !fits((rb)) { return false; }
        proof {
            lemma_product_fits_i128(a1 as int, c2 as int);
        }
        let m1: i128 = a1 * c2;
        if !fits((m1)) { return false; }
        let n1: i128 = pa * b1;
        if !fits((n1)) { return false; }
        proof {
            lemma_product_fits_i128(n1 as int, d2 as int);
        }
        let m2: i128 = n1 * d2;
        if !fits((m2)) { return false; }
        let s5: i128 = m1 + m2;
        if !fits((s5)) { return false; }
        proof {
            lemma_product_fits_i128(c1 as int, a2 as int);
        }
        let m3: i128 = c1 * a2;
        if !fits((m3)) { return false; }
        let s6: i128 = s5 + m3;
        if !fits((s6)) { return false; }
        let n2: i128 = pa * d1;
        if !fits((n2)) { return false; }
        proof {
            lemma_product_fits_i128(n2 as int, b2 as int);
        }
        let m4: i128 = n2 * b2;
        if !fits((m4)) { return false; }
        let rc: i128 = s6 - m4;
        if !fits((rc)) { return false; }
        proof {
            lemma_product_fits_i128(a1 as int, d2 as int);
        }
        let k1: i128 = a1 * d2;
        if !fits((k1)) { return false; }
        proof {
            lemma_product_fits_i128(b1 as int, c2 as int);
        }
        let k2: i128 = b1 * c2;
        if !fits((k2)) { return false; }
        let s7: i128 = k1 + k2;
        if !fits((s7)) { return false; }
        proof {
            lemma_product_fits_i128(c1 as int, b2 as int);
        }
        let k3: i128 = c1 * b2;
        if !fits((k3)) { return false; }
        let s8: i128 = s7 - k3;
        if !fits((s8)) { return false; }
        proof {
            lemma_product_fits_i128(d1 as int, a2 as int);
        }
        let k4: i128 = d1 * a2;
        if !fits((k4)) { return false; }
        let rd: i128 = s8 + k4;
        if !fits((rd)) { return false; }
        true
    }

    /// The conjugate a - bi - cj - dk.
    pub fn conjugate(&self) -> (q: Self)
        requires
            self.b != i64::MIN,
            self.c != i64::MIN,
            self.d != i64::MIN,
        ensures
            q@ == q_conj(self@),
    {
        Self::new(self.a, -self.b, -self.c, -self.d)
    }
}


/// The quaternion with the given coefficients, each cast to `i64`.
pub open spec fn from_quat(q: Quat) -> Quaternion {
    Quaternion { a: q.a as i64, b: q.b as i64, c: q.c as i64, d: q.d as i64 }
}

pub open spec fn quat_fits(q: Quat) -> bool {
    fits_i64(q.a) && fits_i64(q.b) && fits_i64(q.c) && fits_i64(q.d)
}

impl core::ops::Add for Quaternion {
    type Output = Self;

    fn add(self, other: Self) -> (r: Self)
        ensures
            r@ == q_add(self@, other@),
    {
        Self::new(self.a + other.a, self.b + other.b, self.c + other.c, self.d + other.d)
    }
}

impl vstd::std_specs::ops::AddSpecImpl for Quaternion {
    open spec fn obeys_add_spec() -> bool {
        true
    }

    open spec fn add_req(self, other: Quaternion) -> bool {
        quat_fits(q_add(self@, other@))
    }

    open spec fn add_spec(self, other: Quaternion) -> Quaternion {
        from_quat(q_add(self@, other@))
    }
}

impl core::ops::Sub for Quaternion {
    type Output = Self;

    fn sub(self, other: Self) -> (r: Self)
        ensures
            r@ == q_sub(self@, other@),
    {
        Self::new(self.a - other.a, self.b - other.b, self.c - other.c, self.d - other.d)
    }
}

impl vstd::std_specs::ops::SubSpecImpl for Quaternion {
    open spec fn obeys_sub_spec() -> bool {
        true
    }

    open spec fn sub_req(self, other: Quaternion) -> bool {
        quat_fits(q_sub(self@, other@))
    }

    open spec fn sub_spec(self, other: Quaternion) -> Quaternion {
        from_quat(q_sub(self@, other@))
    }
}

impl core::ops::Mul for Quaternion {
    type Output = Self;

    /// Non-commutative multiplication in B_{p, inf} (see [`q_mul`]).
    fn mul(self, rhs: Self) -> (r: Self)
        ensures
            r@ == q_mul(self@, rhs@),
    {
        let a1 = self.a;
        let b1 = self.b;
        let c1 = self.c;
        let d1 = self.d;
        let a2 = rhs.a;
        let b2 = rhs.b;
        let c2 = rhs.c;
        let d2 = rhs.d;
        let pa = PARAM_A;
        let pb = PARAM_B;
        proof {
            lemma_mul_evaluation(self@, rhs@);
        }
        // Real part
        let ra = a1 * a2 + pa * b1 * b2 + pb * c1 * c2 - pa * pb * d1 * d2;
        // i part
        let rb = a1 * b2 + b1 * a2 - pb * c1 * d2 + pb * d1 * c2;
        // j part
        let rc = a1 * c2 + pa * b1 * d2 + c1 * a2 - pa * d1 * b2;
        // k part
        let rd = a1 * d2 + b1 * c2 - c1 * b2 + d1 * a2;
        Self::new(ra, rb, rc, rd)
    }
}

impl vstd::std_specs::ops::MulSpecImpl for Quaternion {
    open spec fn obeys_mul_spec() -> bool {
        true
    }

    open spec fn mul_req(self, rhs: Quaternion) -> bool {
        mul_fits(self@, rhs@)
    }

    open spec fn mul_spec(self, rhs: Quaternion) -> Quaternion {
        from_quat(q_mul(self@, rhs@))
    }
}

/// The product written as the multiplication code evaluates it, with the
/// algebra parameters A and B, equals [`q_mul`].
pub proof fn lemma_mul_evaluation(x: Quat, y: Quat)
    ensures
        q_mul(x, y) == quat(
            x.a * y.a + (-1) * x.b * y.b + (-37) * x.c * y.c - (-1) * (-37) * x.d * y.d,
            x.a * y.b + x.b * y.a - (-37) * x.c * y.d + (-37) * x.d * y.c,
            x.a * y.c + (-1) * x.b * y.d + x.c * y.a - (-1) * x.d * y.b,
            x.a * y.d + x.b * y.c - x.c * y.b + x.d * y.a,
        ),
{
    assert((-1) * x.b * y.b == -(x.b * y.b)) by (nonlinear_arith);
    assert((-37) * x.c * y.c == -37 * (x.c * y.c)) by (nonlinear_arith);
    assert((-1) * (-37) * x.d * y.d == 37 * (x.d * y.d)) by (nonlinear_arith);
    assert((-37) * x.c * y.d == -37 * (x.c * y.d)) by (nonlinear_arith);
    assert((-37) * x.d * y.c == -37 * (x.d * y.c)) by (nonlinear_arith);
    assert((-1) * x.b * y.d == -(x.b * y.d)) by (nonlinear_arith);
    assert((-1) * x.d * y.b == -(x.d * y.b)) by (nonlinear_arith);
}

pub proof fn lemma_norm_terms_nonneg(x: Quat)
    ensures
        x.a * x.a >= 0,
        x.b * x.b >= 0,
        x.c * x.c >= 0,
        x.d * x.d >= 0,
        q_norm(x) == x.a * x.a + x.b * x.b + 37 * (x.c * x.c) + 37 * (x.d * x.d),
{
    assert(x.a * x.a >= 0) by (nonlinear_arith);
    assert(x.b * x.b >= 0) by (nonlinear_arith);
    assert(x.c * x.c >= 0) by (nonlinear_arith);
    assert(x.d * x.d >= 0) by (nonlinear_arith);
}

} // verus!

verus! {

/// Name for the SHA-256 digest (as computed by the `sha2` crate) of the
/// UTF-8 encoding of a text.
pub uninterp spec fn sha256_of_text(text: Seq<char>) -> Seq<u8>;

/// Calls `sha2::Sha256::digest` on the UTF-8 bytes of `text`. Trusted: the
/// result is the digest named by [`sha256_of_text`] and, as SHA-256
/// always produces, 32 bytes long.
#[verifier::external_body]
fn sha256_text_digest(text: &str) -> (digest: Vec<u8>)
    ensures
        digest@ == sha256_of_text(text@),
        digest@.len() == 32,
{
    sha2::Sha256::digest(text.as_bytes()).to_vec()
}

/// The big-endian unsigned value of eight bytes.
pub open spec fn be_u64_value(s: Seq<u8>) -> int {
    s[0] * 0x100_0000_0000_0000 + s[1] * 0x1_0000_0000_0000 + s[2] * 0x100_0000_0000
        + s[3] * 0x1_0000_0000 + s[4] * 0x100_0000 + s[5] * 0x1_0000 + s[6] * 0x100 + s[7]
}

/// The two's-complement `i64` that eight big-endian bytes encode.
pub open spec fn be_i64_value(s: Seq<u8>) -> int {
    let u = be_u64_value(s);
    if u < 0x8000_0000_0000_0000 {
        u
    } else {
        u - 0x1_0000_0000_0000_0000
    }
}

/// Calls `i64::from_be_bytes`. Trusted: its documented result is the
/// two's-complement integer whose big-endian bytes are `bytes`.
#[verifier::external_body]
fn i64_from_be_bytes(bytes: [u8; 8]) -> (v: i64)
    ensures
        v == be_i64_value(bytes@),
{
    i64::from_be_bytes(bytes)
}

/// Rust's `%` on integers: the remainder of truncating division, which
/// takes the sign of the dividend.
pub open spec fn trunc_rem(x: int, m: int) -> int {
    if x >= 0 {
        x % m
    } else {
        -((-x) % m)
    }
}

/// The quaternion seeded by a 32-byte digest: its four big-endian `i64`
/// words, each reduced by `% 1000`; the identity when all four vanish.
pub open spec fn seed_quat(h: Seq<u8>) -> Quat {
    let a = trunc_rem(be_i64_value(h.subrange(0, 8)), 1000);
    let b = trunc_rem(be_i64_value(h.subrange(8, 16)), 1000);
    let c = trunc_rem(be_i64_value(h.subrange(16, 24)), 1000);
    let d = trunc_rem(be_i64_value(h.subrange(24, 32)), 1000);
    if a == 0 && b == 0 && c == 0 && d == 0 {
        q_one()
    } else {
        quat(a, b, c, d)
    }
}

/// The Hecke generators of the walk: the elements 6 +- i, 1 +- 6i of norm
/// p = 37, and the identity (a self-loop).
pub open spec fn hecke_generators() -> Seq<Quat> {
    seq![quat(6, 1, 0, 0), quat(6, -1, 0, 0), quat(1, 6, 0, 0), quat(1, -6, 0, 0), q_one()]
}

/// A node in the Pizer graph, represented by the accumulated quaternion of
/// the path of Hecke operators applied to the origin.
#[derive(Debug, Clone, Copy, PartialEq, Eq, Structural, Hash)]
pub struct IdealClass {
    /// The current value of the accumulator quaternion.
    pub value: Quaternion,
    /// The 'context' prime p used for seeding.
    pub discriminator: u64,
}

impl IdealClass {
    /// The identity state (the origin).
    pub fn identity(discriminator: u64) -> (s: Self)
        ensures
            s.value@ == q_one(),
            s.discriminator == discriminator,
    {
        IdealClass { value: Quaternion::identity(), discriminator }
    }

    /// Seeds a state from a 32-byte digest (see [`seed_quat`]).
    pub fn from_digest(digest: &[u8], discriminator: u64) -> (s: Self)
        requires
            digest@.len() >= 32,
        ensures
            s.value@ == seed_quat(digest@),
            s.discriminator == discriminator,
    {
        let a = word_mod_1000(digest, 0);
        let b = word_mod_1000(digest, 8);
        let c = word_mod_1000(digest, 16);
        let d = word_mod_1000(digest, 24);
        let q = if a == 0 && b == 0 && c == 0 && d == 0 {
            Quaternion::identity()
        } else {
            Quaternion::new(a, b, c, d)
        };
        IdealClass { value: q, discriminator }
    }

    /// Seeds the soul from a linguistic context: the SHA-256 digest of the
    /// context is cut into four `i64` words, each reduced by `% 1000`.
    pub fn from_hash(context: &str, discriminator: u64) -> (s: Self)
        ensures
            s.value@ == seed_quat(sha256_of_text(context@)),
            s.discriminator == discriminator,
    {
        let digest = sha256_text_digest(context);
        Self::from_digest(digest.as_slice(), discriminator)
    }

    /// Applies a Hecke operator: right multiplication by a generator,
    /// S_next = S_current * G. The order of application matters.
    pub fn apply_hecke(&self, generator: &Quaternion) -> (s: Self)
        requires
            mul_fits(self.value@, generator@),
        ensures
            s.value@ == q_mul(self.value@, generator@),
            s.discriminator == self.discriminator,
    {
        let new_value = self.value * (*generator);
        IdealClass { value: new_value, discriminator: self.discriminator }
    }

    /// The Hecke neighbours: the state moved by each of
    /// [`hecke_generators`], in that order.
    pub fn neighbors(&self) -> (moves: Vec<Self>)
        requires
            forall|k: int| 0 <= k < 5 ==> mul_fits(self.value@, #[trigger] hecke_generators()[k]),
        ensures
            moves@.len() == 5,
            forall|k: int|
                0 <= k < 5 ==> (#[trigger] moves@[k]).value@ == q_mul(
                    self.value@,
                    hecke_generators()[k],
                ) && moves@[k].discriminator == self.discriminator,
    {
        let ghost g = hecke_generators();
        assert(mul_fits(self.value@, g[0]));
        assert(mul_fits(self.value@, g[1]));
        assert(mul_fits(self.value@, g[2]));
        assert(mul_fits(self.value@, g[3]));
        assert(mul_fits(self.value@, g[4]));
        let mut moves = Vec::new();
        moves.push(self.apply_hecke(&Quaternion::new(6, 1, 0, 0)));
        moves.push(self.apply_hecke(&Quaternion::new(6, -1, 0, 0)));
        moves.push(self.apply_hecke(&Quaternion::new(1, 6, 0, 0)));
        moves.push(self.apply_hecke(&Quaternion::new(1, -6, 0, 0)));
        moves.push(self.apply_hecke(&Quaternion::new(1, 0, 0, 0)));
        moves
    }
}

/// The big-endian `i64` word of `digest` at `start`, reduced by `% 1000`.
fn word_mod_1000(digest: &[u8], start: usize) -> (w: i64)
    requires
        start + 8 <= digest@.len(),
    ensures
        w == trunc_rem(be_i64_value(digest@.subrange(start as int, start + 8)), 1000),
{
    let bytes: [u8; 8] = [
        digest[start],
        digest[start + 1],
        digest[start + 2],
        digest[start + 3],
        digest[start + 4],
        digest[start + 5],
        digest[start + 6],
        digest[start + 7],
    ];
    assert(bytes@ =~= digest@.subrange(start as int, start + 8));
    let v = i64_from_be_bytes(bytes);
    v % 1000
}

} // verus!

verus! {

pub open spec fn digit_char(d: int) -> char {
    (48 + d) as char
}

/// The decimal digits of a natural number, most significant first.
pub open spec fn unsigned_decimal(n: nat) -> Seq<char>
    decreases n,
{
    if n < 10 {
        seq![digit_char(n as int)]
    } else {
        unsigned_decimal(n / 10).push(digit_char((n % 10) as int))
    }
}

/// The decimal text of an integer, with a leading '-' when negative.
pub open spec fn decimal_text(x: int) -> Seq<char> {
    if x < 0 {
        seq!['-'] + unsigned_decimal((-x) as nat)
    } else {
        unsigned_decimal(x as nat)
    }
}

/// Calls `ToString::to_string` on an `i64`. Trusted: integers display in
/// decimal, without leading zeros, with a '-' before negative values.
#[verifier::external_body]
fn i64_decimal(x: i64) -> (s: String)
    ensures
        s@ == decimal_text(x as int),
{
    x.to_string()
}

impl Quaternion {
    /// The text `[a, b, c, d]` of the quaternion.
    pub fn to_display_string(&self) -> (s: String)
        ensures
            s@ == "["@ + decimal_text(self.a as int) + ", "@ + decimal_text(self.b as int) + ", "@
                + decimal_text(self.c as int) + ", "@ + decimal_text(self.d as int) + "]"@,
    {
        let mut s = "[".to_owned();
        s.append(i64_decimal(self.a).as_str());
        s.append(", ");
        s.append(i64_decimal(self.b).as_str());
        s.append(", ");
        s.append(i64_decimal(self.c).as_str());
        s.append(", ");
        s.append(i64_decimal(self.d).as_str());
        s.append("]");
        s
    }
}

} // verus!
