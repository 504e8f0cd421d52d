//! The laws of the quaternion algebra: associativity, conjugation and the
//! multiplicativity of the reduced norm.

use vstd::prelude::*;
use crate::soul::algebra::{Quat, quat, q_add, q_conj, q_mul, q_norm, q_one, q_scalar, q_zero, hecke_generators};

verus! {

/// Conjugation reverses products: conj(xy) = conj(y) conj(x).
pub proof fn lemma_conj_of_product(x: Quat, y: Quat)
    ensures
        q_conj(q_mul(x, y)) == q_mul(q_conj(y), q_conj(x)),
{
    assert(q_conj(q_mul(x, y)).a == q_mul(q_conj(y), q_conj(x)).a) by (nonlinear_arith);
    assert(q_conj(q_mul(x, y)).b == q_mul(q_conj(y), q_conj(x)).b) by (nonlinear_arith);
    assert(q_conj(q_mul(x, y)).c == q_mul(q_conj(y), q_conj(x)).c) by (nonlinear_arith);
    assert(q_conj(q_mul(x, y)).d == q_mul(q_conj(y), q_conj(x)).d) by (nonlinear_arith);
}

/// A quaternion times its conjugate is its norm: x conj(x) = conj(x) x = N(x),
/// so every non-zero quaternion is invertible in B_{p, inf}.
pub proof fn lemma_mul_conj_is_norm(x: Quat)
    ensures
        q_mul(x, q_conj(x)) == q_scalar(q_norm(x)),
        q_mul(q_conj(x), x) == q_scalar(q_norm(x)),
{
    assert(q_mul(x, q_conj(x)).a == q_norm(x)) by (nonlinear_arith);
    assert(q_mul(x, q_conj(x)).b == 0) by (nonlinear_arith);
    assert(q_mul(x, q_conj(x)).c == 0) by (nonlinear_arith);
    assert(q_mul(x, q_conj(x)).d == 0) by (nonlinear_arith);
    assert(q_mul(q_conj(x), x).a == q_norm(x)) by (nonlinear_arith);
    assert(q_mul(q_conj(x), x).b == 0) by (nonlinear_arith);
    assert(q_mul(q_conj(x), x).c == 0) by (nonlinear_arith);
    assert(q_mul(q_conj(x), x).d == 0) by (nonlinear_arith);
}

} // verus!

verus! {

pub open spec fn q_e0() -> Quat {
    quat(1, 0, 0, 0)
}

pub open spec fn q_e1() -> Quat {
    quat(0, 1, 0, 0)
}

pub open spec fn q_e2() -> Quat {
    quat(0, 0, 1, 0)
}

pub open spec fn q_e3() -> Quat {
    quat(0, 0, 0, 1)
}

/// The scalar multiple s * x.
pub open spec fn q_smul(s: int, x: Quat) -> Quat {
    quat(s * x.a, s * x.b, s * x.c, s * x.d)
}

/// The combination z.a v0 + z.b v1 + z.c v2 + z.d v3.
pub open spec fn q_lin(z: Quat, v0: Quat, v1: Quat, v2: Quat, v3: Quat) -> Quat {
    q_add(q_add(q_smul(z.a, v0), q_smul(z.b, v1)), q_add(q_smul(z.c, v2), q_smul(z.d, v3)))
}

/// (xy)e0 = x(ye0) as a polynomial identity (component a).
proof fn identity_assoc_e0_a(xa: int, xb: int, xc: int, xd: int, ya: int, yb: int, yc: int, yd: int)
    by (nonlinear_arith)
    ensures
        ((xa * ya - xb * yb - 37 * (xc * yc) - 37 * (xd * yd)) * 1 - (xa * yb + xb * ya + 37 * (xc * yd) - 37 * (xd * yc)) * 0 - 37 * ((xa * yc - xb * yd + xc * ya + xd * yb) * 0) - 37 * ((xa * yd + xb * yc - xc * yb + xd * ya) * 0)) == (xa * (ya * 1 - yb * 0 - 37 * (yc * 0) - 37 * (yd * 0)) - xb * (ya * 0 + yb * 1 + 37 * (yc * 0) - 37 * (yd * 0)) - 37 * (xc * (ya * 0 - yb * 0 + yc * 1 + yd * 0)) - 37 * (xd * (ya * 0 + yb * 0 - yc * 0 + yd * 1))),
{
}

/// (xy)e0 = x(ye0) as a polynomial identity (component b).
proof fn identity_assoc_e0_b(xa: int, xb: int, xc: int, xd: int, ya: int, yb: int, yc: int, yd: int)
    by (nonlinear_arith)
    ensures
        ((xa * ya - xb * yb - 37 * (xc * yc) - 37 * (xd * yd)) * 0 + (xa * yb + xb * ya + 37 * (xc * yd) - 37 * (xd * yc)) * 1 + 37 * ((xa * yc - xb * yd + xc * ya + xd * yb) * 0) - 37 * ((xa * yd + xb * yc - xc * yb + xd * ya) * 0)) == (xa * (ya * 0 + yb * 1 + 37 * (yc * 0) - 37 * (yd * 0)) + xb * (ya * 1 - yb * 0 - 37 * (yc * 0) - 37 * (yd * 0)) + 37 * (xc * (ya * 0 + yb * 0 - yc * 0 + yd * 1)) - 37 * (xd * (ya * 0 - yb * 0 + yc * 1 + yd * 0))),
{
}

/// (xy)e0 = x(ye0) as a polynomial identity (component c).
proof fn identity_assoc_e0_c(xa: int, xb: int, xc: int, xd: int, ya: int, yb: int, yc: int, yd: int)
    by (nonlinear_arith)
    ensures
        ((xa * ya - xb * yb - 37 * (xc * yc) - 37 * (xd * yd)) * 0 - (xa * yb + xb * ya + 37 * (xc * yd) - 37 * (xd * yc)) * 0 + (xa * yc - xb * yd + xc * ya + xd * yb) * 1 + (xa * yd + xb * yc - xc * yb + xd * ya) * 0) == (xa * (ya * 0 - yb * 0 + yc * 1 + yd * 0) - xb * (ya * 0 + yb * 0 - yc * 0 + yd * 1) + xc * (ya * 1 - yb * 0 - 37 * (yc * 0) - 37 * (yd * 0)) + xd * (ya * 0 + yb * 1 + 37 * (yc * 0) - 37 * (yd * 0))),
{
}

/// (xy)e0 = x(ye0) as a polynomial identity (component d).
proof fn identity_assoc_e0_d(xa: int, xb: int, xc: int, xd: int, ya: int, yb: int, yc: int, yd: int)
    by (nonlinear_arith)
    ensures
        ((xa * ya - xb * yb - 37 * (xc * yc) - 37 * (xd * yd)) * 0 + (xa * yb + xb * ya + 37 * (xc * yd) - 37 * (xd * yc)) * 0 - (xa * yc - xb * yd + xc * ya + xd * yb) * 0 + (xa * yd + xb * yc - xc * yb + xd * ya) * 1) == (xa * (ya * 0 + yb * 0 - yc * 0 + yd * 1) + xb * (ya * 0 - yb * 0 + yc * 1 + yd * 0) - xc * (ya * 0 + yb * 1 + 37 * (yc * 0) - 37 * (yd * 0)) + xd * (ya * 1 - yb * 0 - 37 * (yc * 0) - 37 * (yd * 0))),
{
}

/// (xy)e1 = x(ye1) as a polynomial identity (component a).
proof fn identity_assoc_e1_a(xa: int, xb: int, xc: int, xd: int, ya: int, yb: int, yc: int, yd: int)
    by (nonlinear_arith)
    ensures
        ((xa * ya - xb * yb - 37 * (xc * yc) - 37 * (xd * yd)) * 0 - (xa * yb + xb * ya + 37 * (xc * yd) - 37 * (xd * yc)) * 1 - 37 * ((xa * yc - xb * yd + xc * ya + xd * yb) * 0) - 37 * ((xa * yd + xb * yc - xc * yb + xd * ya) * 0)) == (xa * (ya * 0 - yb * 1 - 37 * (yc * 0) - 37 * (yd * 0)) - xb * (ya * 1 + yb * 0 + 37 * (yc * 0) - 37 * (yd * 0)) - 37 * (xc * (ya * 0 - yb * 0 + yc * 0 + yd * 1)) - 37 * (xd * (ya * 0 + yb * 0 - yc * 1 + yd * 0))),
{
}

/// (xy)e1 = x(ye1) as a polynomial identity (component b).
proof fn identity_assoc_e1_b(xa: int, xb: int, xc: int, xd: int, ya: int, yb: int, yc: int, yd: int)
    by (nonlinear_arith)
    ensures
        ((xa * ya - xb * yb - 37 * (xc * yc) - 37 * (xd * yd)) * 1 + (xa * yb + xb * ya + 37 * (xc * yd) - 37 * (xd * yc)) * 0 + 37 * ((xa * yc - xb * yd + xc * ya + xd * yb) * 0) - 37 * ((xa * yd + xb * yc - xc * yb + xd * ya) * 0)) == (xa * (ya * 1 + yb * 0 + 37 * (yc * 0) - 37 * (yd * 0)) + xb * (ya * 0 - yb * 1 - 37 * (yc * 0) - 37 * (yd * 0)) + 37 * (xc * (ya * 0 + yb * 0 - yc * 1 + yd * 0)) - 37 * (xd * (ya * 0 - yb * 0 + yc * 0 + yd * 1))),
{
}

/// (xy)e1 = x(ye1) as a polynomial identity (component c).
proof fn identity_assoc_e1_c(xa: int, xb: int, xc: int, xd: int, ya: int, yb: int, yc: int, yd: int)
    by (nonlinear_arith)
    ensures
        ((xa * ya - xb * yb - 37 * (xc * yc) - 37 * (xd * yd)) * 0 - (xa * yb + xb * ya + 37 * (xc * yd) - 37 * (xd * yc)) * 0 + (xa * yc - xb * yd + xc * ya + xd * yb) * 0 + (xa * yd + xb * yc - xc * yb + xd * ya) * 1) == (xa * (ya * 0 - yb * 0 + yc * 0 + yd * 1) - xb * (ya * 0 + yb * 0 - yc * 1 + yd * 0) + xc * (ya * 0 - yb * 1 - 37 * (yc * 0) - 37 * (yd * 0)) + xd * (ya * 1 + yb * 0 + 37 * (yc * 0) - 37 * (yd * 0))),
{
}

/// (xy)e1 = x(ye1) as a polynomial identity (component d).
proof fn identity_assoc_e1_d(xa: int, xb: int, xc: int, xd: int, ya: int, yb: int, yc: int, yd: int)
    by (nonlinear_arith)
    ensures
        ((xa * ya - xb * yb - 37 * (xc * yc) - 37 * (xd * yd)) * 0 + (xa * yb + xb * ya + 37 * (xc * yd) - 37 * (xd * yc)) * 0 - (xa * yc - xb * yd + xc * ya + xd * yb) * 1 + (xa * yd + xb * yc - xc * yb + xd * ya) * 0) == (xa * (ya * 0 + yb * 0 - yc * 1 + yd * 0) + xb * (ya * 0 - yb * 0 + yc * 0 + yd * 1) - xc * (ya * 1 + yb * 0 + 37 * (yc * 0) - 37 * (yd * 0)) + xd * (ya * 0 - yb * 1 - 37 * (yc * 0) - 37 * (yd * 0))),
{
}

/// (xy)e2 = x(ye2) as a polynomial identity (component a).
proof fn identity_assoc_e2_a(xa: int, xb: int, xc: int, xd: int, ya: int, yb: int, yc: int, yd: int)
    by (nonlinear_arith)
    ensures
        ((xa * ya - xb * yb - 37 * (xc * yc) - 37 * (xd * yd)) * 0 - (xa * yb + xb * ya + 37 * (xc * yd) - 37 * (xd * yc)) * 0 - 37 * ((xa * yc - xb * yd + xc * ya + xd * yb) * 1) - 37 * ((xa * yd + xb * yc - xc * yb + xd * ya) * 0)) == (xa * (ya * 0 - yb * 0 - 37 * (yc * 1) - 37 * (yd * 0)) - xb * (ya * 0 + yb * 0 + 37 * (yc * 0) - 37 * (yd * 1)) - 37 * (xc * (ya * 1 - yb * 0 + yc * 0 + yd * 0)) - 37 * (xd * (ya * 0 + yb * 1 - yc * 0 + yd * 0))),
{
}

/// (xy)e2 = x(ye2) as a polynomial identity (component b).
proof fn identity_assoc_e2_b(xa: int, xb: int, xc: int, xd: int, ya: int, yb: int, yc: int, yd: int)
    by (nonlinear_arith)
    ensures
        ((xa * ya - xb * yb - 37 * (xc * yc) - 37 * (xd * yd)) * 0 + (xa * yb + xb * ya + 37 * (xc * yd) - 37 * (xd * yc)) * 0 + 37 * ((xa * yc - xb * yd + xc * ya + xd * yb) * 0) - 37 * ((xa * yd + xb * yc - xc * yb + xd * ya) * 1)) == (xa * (ya * 0 + yb * 0 + 37 * (yc * 0) - 37 * (yd * 1)) + xb * (ya * 0 - yb * 0 - 37 * (yc * 1) - 37 * (yd * 0)) + 37 * (xc * (ya * 0 + yb * 1 - yc * 0 + yd * 0)) - 37 * (xd * (ya * 1 - yb * 0 + yc * 0 + yd * 0))),
{
}

/// (xy)e2 = x(ye2) as a polynomial identity (component c).
proof fn identity_assoc_e2_c(xa: int, xb: int, xc: int, xd: int, ya: int, yb: int, yc: int, yd: int)
    by (nonlinear_arith)
    ensures
        ((xa * ya - xb * yb - 37 * (xc * yc) - 37 * (xd * yd)) * 1 - (xa * yb + xb * ya + 37 * (xc * yd) - 37 * (xd * yc)) * 0 + (xa * yc - xb * yd + xc * ya + xd * yb) * 0 + (xa * yd + xb * yc - xc * yb + xd * ya) * 0) == (xa * (ya * 1 - yb * 0 + yc * 0 + yd * 0) - xb * (ya * 0 + yb * 1 - yc * 0 + yd * 0) + xc * (ya * 0 - yb * 0 - 37 * (yc * 1) - 37 * (yd * 0)) + xd * (ya * 0 + yb * 0 + 37 * (yc * 0) - 37 * (yd * 1))),
{
}

/// (xy)e2 = x(ye2) as a polynomial identity (component d).
proof fn identity_assoc_e2_d(xa: int, xb: int, xc: int, xd: int, ya: int, yb: int, yc: int, yd: int)
    by (nonlinear_arith)
    ensures
        ((xa * ya - xb * yb - 37 * (xc * yc) - 37 * (xd * yd)) * 0 + (xa * yb + xb * ya + 37 * (xc * yd) - 37 * (xd * yc)) * 1 - (xa * yc - xb * yd + xc * ya + xd * yb) * 0 + (xa * yd + xb * yc - xc * yb + xd * ya) * 0) == (xa * (ya * 0 + yb * 1 - yc * 0 + yd * 0) + xb * (ya * 1 - yb * 0 + yc * 0 + yd * 0) - xc * (ya * 0 + yb * 0 + 37 * (yc * 0) - 37 * (yd * 1)) + xd * (ya * 0 - yb * 0 - 37 * (yc * 1) - 37 * (yd * 0))),
{
}

/// (xy)e3 = x(ye3) as a polynomial identity (component a).
proof fn identity_assoc_e3_a(xa: int, xb: int, xc: int, xd: int, ya: int, yb: int, yc: int, yd: int)
    by (nonlinear_arith)
    ensures
        ((xa * ya - xb * yb - 37 * (xc * yc) - 37 * (xd * yd)) * 0 - (xa * yb + xb * ya + 37 * (xc * yd) - 37 * (xd * yc)) * 0 - 37 * ((xa * yc - xb * yd + xc * ya + xd * yb) * 0) - 37 * ((xa * yd + xb * yc - xc * yb + xd * ya) * 1)) == (xa * (ya * 0 - yb * 0 - 37 * (yc * 0) - 37 * (yd * 1)) - xb * (ya * 0 + yb * 0 + 37 * (yc * 1) - 37 * (yd * 0)) - 37 * (xc * (ya * 0 - yb * 1 + yc * 0 + yd * 0)) - 37 * (xd * (ya * 1 + yb * 0 - yc * 0 + yd * 0))),
{
}

/// (xy)e3 = x(ye3) as a polynomial identity (component b).
proof fn identity_assoc_e3_b(xa: int, xb: int, xc: int, xd: int, ya: int, yb: int, yc: int, yd: int)
    by (nonlinear_arith)
    ensures
        ((xa * ya - xb * yb - 37 * (xc * yc) - 37 * (xd * yd)) * 0 + (xa * yb + xb * ya + 37 * (xc * yd) - 37 * (xd * yc)) * 0 + 37 * ((xa * yc - xb * yd + xc * ya + xd * yb) * 1) - 37 * ((xa * yd + xb * yc - xc * yb + xd * ya) * 0)) == (xa * (ya * 0 + yb * 0 + 37 * (yc * 1) - 37 * (yd * 0)) + xb * (ya * 0 - yb * 0 - 37 * (yc * 0) - 37 * (yd * 1)) + 37 * (xc * (ya * 1 + yb * 0 - yc * 0 + yd * 0)) - 37 * (xd * (ya * 0 - yb * 1 + yc * 0 + yd * 0))),
{
}

/// (xy)e3 = x(ye3) as a polynomial identity (component c).
proof fn identity_assoc_e3_c(xa: int, xb: int, xc: int, xd: int, ya: int, yb: int, yc: int, yd: int)
    by (nonlinear_arith)
    ensures
        ((xa * ya - xb * yb - 37 * (xc * yc) - 37 * (xd * yd)) * 0 - (xa * yb + xb * ya + 37 * (xc * yd) - 37 * (xd * yc)) * 1 + (xa * yc - xb * yd + xc * ya + xd * yb) * 0 + (xa * yd + xb * yc - xc * yb + xd * ya) * 0) == (xa * (ya * 0 - yb * 1 + yc * 0 + yd * 0) - xb * (ya * 1 + yb * 0 - yc * 0 + yd * 0) + xc * (ya * 0 - yb * 0 - 37 * (yc * 0) - 37 * (yd * 1)) + xd * (ya * 0 + yb * 0 + 37 * (yc * 1) - 37 * (yd * 0))),
{
}

/// (xy)e3 = x(ye3) as a polynomial identity (component d).
proof fn identity_assoc_e3_d(xa: int, xb: int, xc: int, xd: int, ya: int, yb: int, yc: int, yd: int)
    by (nonlinear_arith)
    ensures
        ((xa * ya - xb * yb - 37 * (xc * yc) - 37 * (xd * yd)) * 1 + (xa * yb + xb * ya + 37 * (xc * yd) - 37 * (xd * yc)) * 0 - (xa * yc - xb * yd + xc * ya + xd * yb) * 0 + (xa * yd + xb * yc - xc * yb + xd * ya) * 0) == (xa * (ya * 1 + yb * 0 - yc * 0 + yd * 0) + xb * (ya * 0 - yb * 1 + yc * 0 + yd * 0) - xc * (ya * 0 + yb * 0 + 37 * (yc * 1) - 37 * (yd * 0)) + xd * (ya * 0 - yb * 0 - 37 * (yc * 0) - 37 * (yd * 1))),
{
}

/// wz expands along the basis components of z (component a).
proof fn identity_expand_right_a(xa: int, xb: int, xc: int, xd: int, za: int, zb: int, zc: int, zd: int)
    by (nonlinear_arith)
    ensures
        (xa * za - xb * zb - 37 * (xc * zc) - 37 * (xd * zd)) == (((za * (xa * 1 - xb * 0 - 37 * (xc * 0) - 37 * (xd * 0))) + (zb * (xa * 0 - xb * 1 - 37 * (xc * 0) - 37 * (xd * 0)))) + ((zc * (xa * 0 - xb * 0 - 37 * (xc * 1) - 37 * (xd * 0))) + (zd * (xa * 0 - xb * 0 - 37 * (xc * 0) - 37 * (xd * 1))))),
{
}

/// wz expands along the basis components of z (component b).
proof fn identity_expand_right_b(xa: int, xb: int, xc: int, xd: int, za: int, zb: int, zc: int, zd: int)
    by (nonlinear_arith)
    ensures
        (xa * zb + xb * za + 37 * (xc * zd) - 37 * (xd * zc)) == (((za * (xa * 0 + xb * 1 + 37 * (xc * 0) - 37 * (xd * 0))) + (zb * (xa * 1 + xb * 0 + 37 * (xc * 0) - 37 * (xd * 0)))) + ((zc * (xa * 0 + xb * 0 + 37 * (xc * 0) - 37 * (xd * 1))) + (zd * (xa * 0 + xb * 0 + 37 * (xc * 1) - 37 * (xd * 0))))),
{
}

/// wz expands along the basis components of z (component c).
proof fn identity_expand_right_c(xa: int, xb: int, xc: int, xd: int, za: int, zb: int, zc: int, zd: int)
    by (nonlinear_arith)
    ensures
        (xa * zc - xb * zd + xc * za + xd * zb) == (((za * (xa * 0 - xb * 0 + xc * 1 + xd * 0)) + (zb * (xa * 0 - xb * 0 + xc * 0 + xd * 1))) + ((zc * (xa * 1 - xb * 0 + xc * 0 + xd * 0)) + (zd * (xa * 0 - xb * 1 + xc * 0 + xd * 0)))),
{
}

/// wz expands along the basis components of z (component d).
proof fn identity_expand_right_d(xa: int, xb: int, xc: int, xd: int, za: int, zb: int, zc: int, zd: int)
    by (nonlinear_arith)
    ensures
        (xa * zd + xb * zc - xc * zb + xd * za) == (((za * (xa * 0 + xb * 0 - xc * 0 + xd * 1)) + (zb * (xa * 0 + xb * 0 - xc * 1 + xd * 0))) + ((zc * (xa * 0 + xb * 1 - xc * 0 + xd * 0)) + (zd * (xa * 1 + xb * 0 - xc * 0 + xd * 0)))),
{
}

/// (s + 0i + 0j + 0k)p = sp (component a).
proof fn identity_scalar_mul_left_a(s: int, pa: int, pb: int, pc: int, pd: int)
    by (nonlinear_arith)
    ensures
        (s * pa - 0 * pb - 37 * (0 * pc) - 37 * (0 * pd)) == (s * pa),
{
}

/// (s + 0i + 0j + 0k)p = sp (component b).
proof fn identity_scalar_mul_left_b(s: int, pa: int, pb: int, pc: int, pd: int)
    by (nonlinear_arith)
    ensures
        (s * pb + 0 * pa + 37 * (0 * pd) - 37 * (0 * pc)) == (s * pb),
{
}

/// (s + 0i + 0j + 0k)p = sp (component c).
proof fn identity_scalar_mul_left_c(s: int, pa: int, pb: int, pc: int, pd: int)
    by (nonlinear_arith)
    ensures
        (s * pc - 0 * pd + 0 * pa + 0 * pb) == (s * pc),
{
}

/// (s + 0i + 0j + 0k)p = sp (component d).
proof fn identity_scalar_mul_left_d(s: int, pa: int, pb: int, pc: int, pd: int)
    by (nonlinear_arith)
    ensures
        (s * pd + 0 * pc - 0 * pb + 0 * pa) == (s * pd),
{
}

proof fn commute(x: int, y: int)
    by (nonlinear_arith)
    ensures
        x * y == y * x,
{
}

proof fn atom_distributes(x: int, p: int, q: int)
    by (nonlinear_arith)
    ensures
        x * (p + q) == x * p + x * q,
{
}

proof fn atom_scales(x: int, s: int, p: int)
    by (nonlinear_arith)
    ensures
        x * (s * p) == s * (x * p),
{
}

proof fn scale_sum_a(s: int, p: int, q: int, r: int, t: int)
    by (nonlinear_arith)
    ensures
        s * (p - q - 37 * r - 37 * t) == s * p - s * q - 37 * (s * r) - 37 * (s * t),
{
}

proof fn scale_sum_b(s: int, p: int, q: int, r: int, t: int)
    by (nonlinear_arith)
    ensures
        s * (p + q + 37 * r - 37 * t) == s * p + s * q + 37 * (s * r) - 37 * (s * t),
{
}

proof fn scale_sum_c(s: int, p: int, q: int, r: int, t: int)
    by (nonlinear_arith)
    ensures
        s * (p - q + r + t) == s * p - s * q + s * r + s * t,
{
}

proof fn scale_sum_d(s: int, p: int, q: int, r: int, t: int)
    by (nonlinear_arith)
    ensures
        s * (p + q - r + t) == s * p + s * q - s * r + s * t,
{
}

proof fn lemma_mul_expand_right(w: Quat, z: Quat)
    ensures
        q_mul(w, z) == q_lin(z, q_mul(w, q_e0()), q_mul(w, q_e1()), q_mul(w, q_e2()), q_mul(w, q_e3())),
{
    identity_expand_right_a(w.a, w.b, w.c, w.d, z.a, z.b, z.c, z.d);
    identity_expand_right_b(w.a, w.b, w.c, w.d, z.a, z.b, z.c, z.d);
    identity_expand_right_c(w.a, w.b, w.c, w.d, z.a, z.b, z.c, z.d);
    identity_expand_right_d(w.a, w.b, w.c, w.d, z.a, z.b, z.c, z.d);
}

proof fn lemma_assoc_on_e0(x: Quat, y: Quat)
    ensures
        q_mul(q_mul(x, y), q_e0()) == q_mul(x, q_mul(y, q_e0())),
{
    identity_assoc_e0_a(x.a, x.b, x.c, x.d, y.a, y.b, y.c, y.d);
    identity_assoc_e0_b(x.a, x.b, x.c, x.d, y.a, y.b, y.c, y.d);
    identity_assoc_e0_c(x.a, x.b, x.c, x.d, y.a, y.b, y.c, y.d);
    identity_assoc_e0_d(x.a, x.b, x.c, x.d, y.a, y.b, y.c, y.d);
}

proof fn lemma_assoc_on_e1(x: Quat, y: Quat)
    ensures
        q_mul(q_mul(x, y), q_e1()) == q_mul(x, q_mul(y, q_e1())),
{
    identity_assoc_e1_a(x.a, x.b, x.c, x.d, y.a, y.b, y.c, y.d);
    identity_assoc_e1_b(x.a, x.b, x.c, x.d, y.a, y.b, y.c, y.d);
    identity_assoc_e1_c(x.a, x.b, x.c, x.d, y.a, y.b, y.c, y.d);
    identity_assoc_e1_d(x.a, x.b, x.c, x.d, y.a, y.b, y.c, y.d);
}

proof fn lemma_assoc_on_e2(x: Quat, y: Quat)
    ensures
        q_mul(q_mul(x, y), q_e2()) == q_mul(x, q_mul(y, q_e2())),
{
    identity_assoc_e2_a(x.a, x.b, x.c, x.d, y.a, y.b, y.c, y.d);
    identity_assoc_e2_b(x.a, x.b, x.c, x.d, y.a, y.b, y.c, y.d);
    identity_assoc_e2_c(x.a, x.b, x.c, x.d, y.a, y.b, y.c, y.d);
    identity_assoc_e2_d(x.a, x.b, x.c, x.d, y.a, y.b, y.c, y.d);
}

proof fn lemma_assoc_on_e3(x: Quat, y: Quat)
    ensures
        q_mul(q_mul(x, y), q_e3()) == q_mul(x, q_mul(y, q_e3())),
{
    identity_assoc_e3_a(x.a, x.b, x.c, x.d, y.a, y.b, y.c, y.d);
    identity_assoc_e3_b(x.a, x.b, x.c, x.d, y.a, y.b, y.c, y.d);
    identity_assoc_e3_c(x.a, x.b, x.c, x.d, y.a, y.b, y.c, y.d);
    identity_assoc_e3_d(x.a, x.b, x.c, x.d, y.a, y.b, y.c, y.d);
}

proof fn lemma_mul_add_right(x: Quat, p: Quat, q: Quat)
    ensures
        q_mul(x, q_add(p, q)) == q_add(q_mul(x, p), q_mul(x, q)),
{
    atom_distributes(x.a, p.a, q.a);
    atom_distributes(x.a, p.b, q.b);
    atom_distributes(x.a, p.c, q.c);
    atom_distributes(x.a, p.d, q.d);
    atom_distributes(x.b, p.a, q.a);
    atom_distributes(x.b, p.b, q.b);
    atom_distributes(x.b, p.c, q.c);
    atom_distributes(x.b, p.d, q.d);
    atom_distributes(x.c, p.a, q.a);
    atom_distributes(x.c, p.b, q.b);
    atom_distributes(x.c, p.c, q.c);
    atom_distributes(x.c, p.d, q.d);
    atom_distributes(x.d, p.a, q.a);
    atom_distributes(x.d, p.b, q.b);
    atom_distributes(x.d, p.c, q.c);
    atom_distributes(x.d, p.d, q.d);
}

proof fn lemma_mul_smul_right(x: Quat, s: int, v: Quat)
    ensures
        q_mul(x, q_smul(s, v)) == q_smul(s, q_mul(x, v)),
{
    atom_scales(x.a, s, v.a);
    atom_scales(x.a, s, v.b);
    atom_scales(x.a, s, v.c);
    atom_scales(x.a, s, v.d);
    atom_scales(x.b, s, v.a);
    atom_scales(x.b, s, v.b);
    atom_scales(x.b, s, v.c);
    atom_scales(x.b, s, v.d);
    atom_scales(x.c, s, v.a);
    atom_scales(x.c, s, v.b);
    atom_scales(x.c, s, v.c);
    atom_scales(x.c, s, v.d);
    atom_scales(x.d, s, v.a);
    atom_scales(x.d, s, v.b);
    atom_scales(x.d, s, v.c);
    atom_scales(x.d, s, v.d);
    scale_sum_a(s, x.a * v.a, x.b * v.b, x.c * v.c, x.d * v.d);
    scale_sum_b(s, x.a * v.b, x.b * v.a, x.c * v.d, x.d * v.c);
    scale_sum_c(s, x.a * v.c, x.b * v.d, x.c * v.a, x.d * v.b);
    scale_sum_d(s, x.a * v.d, x.b * v.c, x.c * v.b, x.d * v.a);
}

proof fn lemma_scalar_mul_left(s: int, v: Quat)
    ensures
        q_mul(q_scalar(s), v) == q_smul(s, v),
{
    identity_scalar_mul_left_a(s, v.a, v.b, v.c, v.d);
    identity_scalar_mul_left_b(s, v.a, v.b, v.c, v.d);
    identity_scalar_mul_left_c(s, v.a, v.b, v.c, v.d);
    identity_scalar_mul_left_d(s, v.a, v.b, v.c, v.d);
}

proof fn lemma_mul_lin_right(x: Quat, z: Quat, v0: Quat, v1: Quat, v2: Quat, v3: Quat)
    ensures
        q_mul(x, q_lin(z, v0, v1, v2, v3)) == q_lin(
            z,
            q_mul(x, v0),
            q_mul(x, v1),
            q_mul(x, v2),
            q_mul(x, v3),
        ),
{
    let s0 = q_smul(z.a, v0);
    let s1 = q_smul(z.b, v1);
    let s2 = q_smul(z.c, v2);
    let s3 = q_smul(z.d, v3);
    lemma_mul_add_right(x, q_add(s0, s1), q_add(s2, s3));
    lemma_mul_add_right(x, s0, s1);
    lemma_mul_add_right(x, s2, s3);
    lemma_mul_smul_right(x, z.a, v0);
    lemma_mul_smul_right(x, z.b, v1);
    lemma_mul_smul_right(x, z.c, v2);
    lemma_mul_smul_right(x, z.d, v3);
}

/// Multiplication in B_{p, inf} is associative: (xy)z = x(yz). This is
/// what makes the state after a walk depend only on the product of the
/// generators applied, in their order.
pub proof fn lemma_mul_associative(x: Quat, y: Quat, z: Quat)
    ensures
        q_mul(q_mul(x, y), z) == q_mul(x, q_mul(y, z)),
{
    let xy = q_mul(x, y);
    lemma_mul_expand_right(xy, z);
    lemma_mul_expand_right(y, z);
    lemma_assoc_on_e0(x, y);
    lemma_assoc_on_e1(x, y);
    lemma_assoc_on_e2(x, y);
    lemma_assoc_on_e3(x, y);
    lemma_mul_lin_right(
        x,
        z,
        q_mul(y, q_e0()),
        q_mul(y, q_e1()),
        q_mul(y, q_e2()),
        q_mul(y, q_e3()),
    );
}

/// The reduced norm is multiplicative: N(xy) = N(x) N(y). The path of
/// Hecke moves of norm p therefore multiplies the norm by p at each step.
pub proof fn lemma_norm_multiplicative(x: Quat, y: Quat)
    ensures
        q_norm(q_mul(x, y)) == q_norm(x) * q_norm(y),
{
    let p = q_mul(x, y);
    let cx = q_conj(x);
    let cy = q_conj(y);
    lemma_mul_conj_is_norm(p);
    lemma_conj_of_product(x, y);
    lemma_mul_associative(x, y, q_mul(cy, cx));
    lemma_mul_associative(y, cy, cx);
    lemma_mul_conj_is_norm(y);
    lemma_scalar_mul_left(q_norm(y), cx);
    lemma_mul_smul_right(x, q_norm(y), cx);
    lemma_mul_conj_is_norm(x);
    assert(q_mul(p, q_conj(p)) == q_mul(p, q_mul(cy, cx)));
    assert(q_mul(p, q_mul(cy, cx)) == q_mul(x, q_mul(y, q_mul(cy, cx))));
    assert(q_mul(y, q_mul(cy, cx)) == q_mul(q_scalar(q_norm(y)), cx));
    assert(q_mul(x, q_smul(q_norm(y), cx)) == q_smul(q_norm(y), q_mul(x, cx)));
    assert(q_scalar(q_norm(p)) == q_smul(q_norm(y), q_scalar(q_norm(x))));
    assert(q_norm(p) == q_norm(y) * q_norm(x));
    commute(q_norm(y), q_norm(x));
}

} // verus!

verus! {

/// The identity quaternion is neutral on both sides.
pub proof fn lemma_mul_identity(x: Quat)
    ensures
        q_mul(x, q_one()) == x,
        q_mul(q_one(), x) == x,
{
}

/// Conjugation is an involution.
pub proof fn lemma_conj_involution(x: Quat)
    ensures
        q_conj(q_conj(x)) == x,
{
}

proof fn square_nonneg(v: int)
    by (nonlinear_arith)
    ensures
        v * v >= 0,
        v * v == 0 <==> v == 0,
{
}

/// The reduced norm is a positive definite form: N(x) >= 0, with equality
/// only at zero.
pub proof fn lemma_norm_positive_definite(x: Quat)
    ensures
        q_norm(x) >= 0,
        q_norm(x) == 0 <==> x == q_zero(),
{
    square_nonneg(x.a);
    square_nonneg(x.b);
    square_nonneg(x.c);
    square_nonneg(x.d);
}

/// The state reached from `s` by applying the generators `gs` in order
/// (right multiplication at each step).
pub open spec fn walk(s: Quat, gs: Seq<Quat>) -> Quat
    decreases gs.len(),
{
    if gs.len() == 0 {
        s
    } else {
        q_mul(walk(s, gs.drop_last()), gs.last())
    }
}

/// The ordered product g_0 g_1 ... g_{n-1} of a path of generators.
pub open spec fn path_product(gs: Seq<Quat>) -> Quat
    decreases gs.len(),
{
    if gs.len() == 0 {
        q_one()
    } else {
        q_mul(path_product(gs.drop_last()), gs.last())
    }
}

/// The product of the norms of a path of generators.
pub open spec fn path_norm(gs: Seq<Quat>) -> int
    decreases gs.len(),
{
    if gs.len() == 0 {
        1
    } else {
        path_norm(gs.drop_last()) * q_norm(gs.last())
    }
}

/// A walk is the start state times the ordered product of its generators,
/// and its norm is the start norm times the norms of the generators: the
/// final state encodes the path that produced it.
pub proof fn lemma_walk_is_path_product(s: Quat, gs: Seq<Quat>)
    ensures
        walk(s, gs) == q_mul(s, path_product(gs)),
        q_norm(walk(s, gs)) == q_norm(s) * path_norm(gs),
    decreases gs.len(),
{
    if gs.len() == 0 {
        lemma_mul_identity(s);
        assert(q_norm(s) * 1 == q_norm(s));
    } else {
        let init = gs.drop_last();
        let g = gs.last();
        lemma_walk_is_path_product(s, init);
        lemma_mul_associative(s, path_product(init), g);
        lemma_norm_multiplicative(walk(s, init), g);
        mul_assoc_int(q_norm(s), path_norm(init), q_norm(g));
    }
}

proof fn mul_assoc_int(x: int, y: int, z: int)
    by (nonlinear_arith)
    ensures
        (x * y) * z == x * (y * z),
{
}

/// Every non-trivial Hecke generator has norm p = 37; the self-loop has
/// norm 1. Each move of the walk therefore multiplies the norm by 37 or 1.
pub proof fn lemma_hecke_generator_norms()
    ensures
        forall|k: int| 0 <= k < 4 ==> q_norm(#[trigger] hecke_generators()[k]) == 37,
        q_norm(hecke_generators()[4]) == 1,
{
    let g = hecke_generators();
    assert(g[0] == quat(6, 1, 0, 0) && g[1] == quat(6, -1, 0, 0));
    assert(g[2] == quat(1, 6, 0, 0) && g[3] == quat(1, -6, 0, 0) && g[4] == q_one());
    assert(q_norm(quat(6, 1, 0, 0)) == 37) by (nonlinear_arith);
    assert(q_norm(quat(6, -1, 0, 0)) == 37) by (nonlinear_arith);
    assert(q_norm(quat(1, 6, 0, 0)) == 37) by (nonlinear_arith);
    assert(q_norm(quat(1, -6, 0, 0)) == 37) by (nonlinear_arith);
    assert(q_norm(q_one()) == 1) by (nonlinear_arith);
}

} // verus!
