//! The algebraic laws of the rotation model and of the transform engine,
//! chief among them the round-trip law: resolving a vector to the root and
//! back returns it exactly (as a rational value).
//!
//! The quaternion identities are proved in small steps, each over a handful
//! of opaque scalars, so that the solver only ever faces low-degree
//! polynomial goals.

use vstd::prelude::*;
use crate::vec3::{V3, v3, v3_scale, RV3, rv_eq, lemma_rv_scale_eq};
use crate::quat::{Q4, q4, q_mul, q_conj, q_norm2, q_reduce, rot_v3, QSCALE};
use crate::frame::{Frame, spin_rotation, TWO_PI_NANO, PI_NANO};
use crate::num::{tdiv, sqrt_floor};
use crate::vec3::v3_norm2;
use crate::transform::{
    hop_to_parent, hop_from_parent, frame_to_root_spec, root_to_frame_spec, arena_wf,
};

verus! {

/// Reassociations of a product of three factors.
proof fn lemma_mul_shuffle(t: int, u: int, v: int)
    ensures
        t * (u * v) == u * (t * v),
        t * (u * v) == v * (u * t),
        (t * u) * v == t * (u * v),
{
    assert(t * (u * v) == u * (t * v) && t * (u * v) == v * (u * t) && (t * u) * v == t
        * (u * v)) by (nonlinear_arith);
}

/// Distribution over a three-way sum, from either side.
proof fn lemma_distrib3(t: int, p: int, q: int, r: int)
    ensures
        t * (p + q + r) == t * p + t * q + t * r,
        (p + q + r) * t == t * p + t * q + t * r,
{
    assert(t * (p + q + r) == t * p + t * q + t * r && (p + q + r) * t == t * p + t * q
        + t * r) by (nonlinear_arith);
}

/// Distribution over a difference.
proof fn lemma_distrib_sub(t: int, p: int, q: int)
    ensures
        t * (p - q) == t * p - t * q,
{
    assert(t * (p - q) == t * p - t * q) by (nonlinear_arith);
}

/// Pulling a common factor out of a doubled product.
proof fn lemma_scale2(c: int, u: int, v: int)
    ensures
        (2 * (c * u)) * v == c * (2 * u * v),
{
    assert((2 * (c * u)) * v == c * (2 * u * v)) by (nonlinear_arith);
}

/// Distributing one factor over the three summands of a rotated component.
proof fn lemma_distribute_rot(t: int, s: int, a: int, dt: int, x: int, w: int, cx: int)
    ensures
        t * (s * a + 2 * dt * x + 2 * w * cx) == s * (t * a) + 2 * dt * (t * x) + 2 * w
            * (t * cx),
{
    lemma_distrib3(t, s * a, 2 * dt * x, 2 * w * cx);
    lemma_mul_shuffle(t, s, a);
    lemma_mul_shuffle(t, 2 * dt, x);
    lemma_mul_shuffle(t, 2 * w, cx);
}

/// The axis is orthogonal to its own cross products.
proof fn lemma_axis_dot_cross(x: int, y: int, z: int, a: int, b: int, d: int)
    ensures
        x * (y * d - z * b) + y * (z * a - x * d) + z * (x * b - y * a) == 0,
{
    assert(x * (y * d - z * b) + y * (z * a - x * d) + z * (x * b - y * a) == 0)
        by (nonlinear_arith);
}

/// Dot product of the axis with a rotated vector, the rotation's scalar
/// weight and spin rate held opaque.
proof fn lemma_dot_rotated(
    x: int, y: int, z: int, w: int, a: int, b: int, d: int, s: int, dt: int, uu: int,
    cx: int, cy: int, cz: int, r1x: int, r1y: int, r1z: int,
)
    requires
        r1x == s * a + 2 * dt * x + 2 * w * cx,
        r1y == s * b + 2 * dt * y + 2 * w * cy,
        r1z == s * d + 2 * dt * z + 2 * w * cz,
        cx == y * d - z * b,
        cy == z * a - x * d,
        cz == x * b - y * a,
        dt == x * a + y * b + z * d,
        uu == x * x + y * y + z * z,
    ensures
        x * r1x + y * r1y + z * r1z == s * dt + 2 * (dt * uu),
{
    lemma_distribute_rot(x, s, a, dt, x, w, cx);
    lemma_distribute_rot(y, s, b, dt, y, w, cy);
    lemma_distribute_rot(z, s, d, dt, z, w, cz);
    lemma_axis_dot_cross(x, y, z, a, b, d);
    assert(s * (x * a) + s * (y * b) + s * (z * d) == s * dt) by (nonlinear_arith)
        requires dt == x * a + y * b + z * d,
    {}
    assert(2 * dt * (x * x) + 2 * dt * (y * y) + 2 * dt * (z * z) == 2 * (dt * uu))
        by (nonlinear_arith)
        requires uu == x * x + y * y + z * z,
    {}
    assert(2 * w * (x * cx) + 2 * w * (y * cy) + 2 * w * (z * cz) == 2 * w * (x * cx + y
        * cy + z * cz)) by (nonlinear_arith);
}

/// One component of the cross product of the axis with a rotated vector.
proof fn lemma_cross_rotated(
    x: int, y: int, z: int, w: int, a: int, b: int, d: int, s: int, dt: int, uu: int,
    cx: int, cy: int, cz: int, r1y: int, r1z: int,
)
    requires
        r1y == s * b + 2 * dt * y + 2 * w * cy,
        r1z == s * d + 2 * dt * z + 2 * w * cz,
        cx == y * d - z * b,
        cy == z * a - x * d,
        cz == x * b - y * a,
        dt == x * a + y * b + z * d,
        uu == x * x + y * y + z * z,
    ensures
        y * r1z - z * r1y == s * cx + 2 * w * (dt * x - uu * a),
{
    lemma_distribute_rot(y, s, d, dt, z, w, cz);
    lemma_distribute_rot(z, s, b, dt, y, w, cy);
    lemma_distrib_sub(y, x * b, y * a);
    lemma_distrib_sub(z, z * a, x * d);
    lemma_mul_shuffle(y, x, b);
    lemma_mul_shuffle(y, y, a);
    lemma_mul_shuffle(z, z, a);
    lemma_mul_shuffle(z, x, d);
    lemma_distrib3(x, x * a, y * b, z * d);
    lemma_mul_shuffle(x, x, a);
    lemma_distrib3(a, x * x, y * y, z * z);
    assert(y * cz - z * cy == dt * x - uu * a);
    assert(s * (y * d) - s * (z * b) == s * cx) by (nonlinear_arith)
        requires cx == y * d - z * b,
    {}
    assert(2 * dt * (y * z) - 2 * dt * (z * y) == 0) by (nonlinear_arith);
    assert(2 * w * (y * cz) - 2 * w * (z * cy) == 2 * w * (y * cz - z * cy))
        by (nonlinear_arith);
}

/// Assembling one component of the conjugate rotation applied to an already
/// rotated vector.
proof fn lemma_sandwich_assemble(
    s: int, n: int, ww: int, uu: int, w: int, dt: int, x: int, a: int, cx: int,
    r1x: int, crx: int, dtr: int,
)
    requires
        r1x == s * a + 2 * dt * x + 2 * w * cx,
        crx == s * cx + 2 * w * (dt * x - uu * a),
        dtr == s * dt + 2 * (dt * uu),
        s == ww - uu,
        n == ww + uu,
        ww == w * w,
    ensures
        s * r1x + 2 * dtr * x - 2 * w * crx == n * n * a,
{
    assert(s * r1x == s * (s * a) + s * (2 * dt * x) + s * (2 * w * cx))
        by (nonlinear_arith)
        requires r1x == s * a + 2 * dt * x + 2 * w * cx,
    {}
    assert(2 * w * crx == 2 * w * (s * cx) + 4 * (ww * (dt * x)) - 4 * (ww * (uu * a)))
        by (nonlinear_arith)
        requires crx == s * cx + 2 * w * (dt * x - uu * a), ww == w * w,
    {}
    assert(s * (2 * dt * x) + 2 * dtr * x - 4 * (ww * (dt * x)) == 0) by (nonlinear_arith)
        requires dtr == s * dt + 2 * (dt * uu), s == ww - uu,
    {}
    assert(s * (s * a) + 4 * (ww * (uu * a)) == n * n * a) by (nonlinear_arith)
        requires s == ww - uu, n == ww + uu,
    {}
    assert(s * (2 * w * cx) - 2 * w * (s * cx) == 0) by (nonlinear_arith);
}

/// Rotating by `q` and then by its conjugate scales the vector by the
/// squared norm twice: the vector-level heart of the round-trip law.
pub proof fn lemma_rot_conj_rot(q: Q4, v: V3)
    ensures
        rot_v3(q_conj(q), rot_v3(q, v)) == v3_scale(q_norm2(q) * q_norm2(q), v),
{
    let x = q.x;
    let y = q.y;
    let z = q.z;
    let w = q.w;
    let a = v.x;
    let b = v.y;
    let d = v.z;
    let uu = x * x + y * y + z * z;
    let ww = w * w;
    let s = ww - uu;
    let n = ww + uu;
    let dt = x * a + y * b + z * d;
    let cx = y * d - z * b;
    let cy = z * a - x * d;
    let cz = x * b - y * a;
    let r1 = rot_v3(q, v);
    let r1x = r1.x;
    let r1y = r1.y;
    let r1z = r1.z;
    assert(r1x == s * a + 2 * dt * x + 2 * w * cx);
    assert(r1y == s * b + 2 * dt * y + 2 * w * cy);
    assert(r1z == s * d + 2 * dt * z + 2 * w * cz);
    let dtr = x * r1x + y * r1y + z * r1z;
    let crx = y * r1z - z * r1y;
    let cry = z * r1x - x * r1z;
    let crz = x * r1y - y * r1x;
    lemma_dot_rotated(x, y, z, w, a, b, d, s, dt, uu, cx, cy, cz, r1x, r1y, r1z);
    lemma_cross_rotated(x, y, z, w, a, b, d, s, dt, uu, cx, cy, cz, r1y, r1z);
    lemma_cross_rotated(y, z, x, w, b, d, a, s, dt, uu, cy, cz, cx, r1z, r1x);
    lemma_cross_rotated(z, x, y, w, d, a, b, s, dt, uu, cz, cx, cy, r1x, r1y);
    // the conjugate's formula, with the negations pushed inward
    let r2 = rot_v3(q_conj(q), r1);
    assert(r2.x == s * r1x + 2 * dtr * x - 2 * w * crx) by (nonlinear_arith)
        requires
            r2.x == (w * w - ((-x) * (-x) + (-y) * (-y) + (-z) * (-z))) * r1x + 2 * ((
                -x) * r1x + (-y) * r1y + (-z) * r1z) * (-x) + 2 * w * ((-y) * r1z - (-z)
                * r1y),
            s == w * w - (x * x + y * y + z * z),
            dtr == x * r1x + y * r1y + z * r1z,
            crx == y * r1z - z * r1y,
    {}
    assert(r2.y == s * r1y + 2 * dtr * y - 2 * w * cry) by (nonlinear_arith)
        requires
            r2.y == (w * w - ((-x) * (-x) + (-y) * (-y) + (-z) * (-z))) * r1y + 2 * ((
                -x) * r1x + (-y) * r1y + (-z) * r1z) * (-y) + 2 * w * ((-z) * r1x - (-x)
                * r1z),
            s == w * w - (x * x + y * y + z * z),
            dtr == x * r1x + y * r1y + z * r1z,
            cry == z * r1x - x * r1z,
    {}
    assert(r2.z == s * r1z + 2 * dtr * z - 2 * w * crz) by (nonlinear_arith)
        requires
            r2.z == (w * w - ((-x) * (-x) + (-y) * (-y) + (-z) * (-z))) * r1z + 2 * ((
                -x) * r1x + (-y) * r1y + (-z) * r1z) * (-z) + 2 * w * ((-x) * r1y - (-y)
                * r1x),
            s == w * w - (x * x + y * y + z * z),
            dtr == x * r1x + y * r1y + z * r1z,
            crz == x * r1y - y * r1x,
    {}
    lemma_sandwich_assemble(s, n, ww, uu, w, dt, x, a, cx, r1x, crx, dtr);
    lemma_sandwich_assemble(s, n, ww, uu, w, dt, y, b, cy, r1y, cry, dtr);
    lemma_sandwich_assemble(s, n, ww, uu, w, dt, z, d, cz, r1z, crz, dtr);
    assert(q_norm2(q) == n);
    assert(v3_scale(n * n, v) == v3(n * n * a, n * n * b, n * n * d));
}

/// Rotation is linear: scaling the vector scales the result.
pub proof fn lemma_rot_linear(q: Q4, c: int, v: V3)
    ensures
        rot_v3(q, v3_scale(c, v)) == v3_scale(c, rot_v3(q, v)),
{
    let x = q.x;
    let y = q.y;
    let z = q.z;
    let w = q.w;
    let a = v.x;
    let b = v.y;
    let d = v.z;
    let s = w * w - (x * x + y * y + z * z);
    let dt = x * a + y * b + z * d;
    let cx = y * d - z * b;
    let cy = z * a - x * d;
    let cz = x * b - y * a;
    let r1 = rot_v3(q, v);
    let rc = rot_v3(q, v3_scale(c, v));
    assert(rc.x == s * (c * a) + 2 * (x * (c * a) + y * (c * b) + z * (c * d)) * x + 2
        * w * (y * (c * d) - z * (c * b)));
    assert(rc.y == s * (c * b) + 2 * (x * (c * a) + y * (c * b) + z * (c * d)) * y + 2
        * w * (z * (c * a) - x * (c * d)));
    assert(rc.z == s * (c * d) + 2 * (x * (c * a) + y * (c * b) + z * (c * d)) * z + 2
        * w * (x * (c * b) - y * (c * a)));
    // the inner dot and cross terms each pull the factor out
    lemma_mul_shuffle(x, c, a);
    lemma_mul_shuffle(y, c, b);
    lemma_mul_shuffle(z, c, d);
    lemma_distrib3(c, x * a, y * b, z * d);
    assert(x * (c * a) + y * (c * b) + z * (c * d) == c * dt);
    lemma_mul_shuffle(y, c, d);
    lemma_mul_shuffle(z, c, b);
    lemma_distrib_sub(c, y * d, z * b);
    assert(y * (c * d) - z * (c * b) == c * cx);
    lemma_mul_shuffle(z, c, a);
    lemma_mul_shuffle(x, c, d);
    lemma_distrib_sub(c, z * a, x * d);
    assert(z * (c * a) - x * (c * d) == c * cy);
    lemma_mul_shuffle(x, c, b);
    lemma_mul_shuffle(y, c, a);
    lemma_distrib_sub(c, x * b, y * a);
    assert(x * (c * b) - y * (c * a) == c * cz);
    // so does each of the three summands
    lemma_mul_shuffle(s, c, a);
    lemma_mul_shuffle(s, c, b);
    lemma_mul_shuffle(s, c, d);
    lemma_scale2(c, dt, x);
    lemma_scale2(c, dt, y);
    lemma_scale2(c, dt, z);
    lemma_mul_shuffle(2 * w, c, cx);
    lemma_mul_shuffle(2 * w, c, cy);
    lemma_mul_shuffle(2 * w, c, cz);
    lemma_distrib3(c, s * a, 2 * dt * x, 2 * w * cx);
    lemma_distrib3(c, s * b, 2 * dt * y, 2 * w * cy);
    lemma_distrib3(c, s * d, 2 * dt * z, 2 * w * cz);
    assert(r1.x == s * a + 2 * dt * x + 2 * w * cx);
    assert(r1.y == s * b + 2 * dt * y + 2 * w * cy);
    assert(r1.z == s * d + 2 * dt * z + 2 * w * cz);
    assert(rc.x == c * r1.x);
    assert(rc.y == c * r1.y);
    assert(rc.z == c * r1.z);
}


/// Square of a signed four-term sum, both sign patterns that the Hamilton
/// product's components take.
proof fn lemma_sq_mixed(p: int, q: int, r: int, s: int)
    ensures
        (p + q + (r - s)) * (p + q + (r - s)) == p * p + q * q + r * r + s * s
            + 2 * (p * q) + 2 * (p * r) - 2 * (p * s) + 2 * (q * r) - 2 * (q * s)
            - 2 * (r * s),
        (p - q - r - s) * (p - q - r - s) == p * p + q * q + r * r + s * s
            - 2 * (p * q) - 2 * (p * r) - 2 * (p * s) + 2 * (q * r) + 2 * (q * s)
            + 2 * (r * s),
{
    assert((p + q + (r - s)) * (p + q + (r - s)) == p * p + q * q + r * r + s * s
        + 2 * (p * q) + 2 * (p * r) - 2 * (p * s) + 2 * (q * r) - 2 * (q * s)
        - 2 * (r * s)) by (nonlinear_arith);
    assert((p - q - r - s) * (p - q - r - s) == p * p + q * q + r * r + s * s
        - 2 * (p * q) - 2 * (p * r) - 2 * (p * s) + 2 * (q * r) + 2 * (q * s)
        + 2 * (r * s)) by (nonlinear_arith);
}

/// Distribution over a four-term sum, from either side.
proof fn lemma_distrib_sum4(t: int, p: int, q: int, r: int, s: int)
    ensures
        t * (p + q + r + s) == t * p + t * q + t * r + t * s,
        (p + q + r + s) * t == p * t + q * t + r * t + s * t,
{
    assert(t * (p + q + r + s) == t * p + t * q + t * r + t * s && (p + q + r + s) * t
        == p * t + q * t + r * t + s * t) by (nonlinear_arith);
}

/// The squared norm is multiplicative over the Hamilton product: the
/// four-square identity, assembled from per-monomial rearrangements.
pub proof fn lemma_norm2_mul(a: Q4, b: Q4)
    ensures
        q_norm2(q_mul(a, b)) == q_norm2(a) * q_norm2(b),
{
    let x1 = a.x;
    let y1 = a.y;
    let z1 = a.z;
    let w1 = a.w;
    let x2 = b.x;
    let y2 = b.y;
    let z2 = b.z;
    let w2 = b.w;
    let m = q_mul(a, b);
    assert(m.x == w1 * x2 + w2 * x1 + (y1 * z2 - z1 * y2));
    assert(m.y == w1 * y2 + w2 * y1 + (z1 * x2 - x1 * z2));
    assert(m.z == w1 * z2 + w2 * z1 + (x1 * y2 - y1 * x2));
    assert(m.w == w1 * w2 - x1 * x2 - y1 * y2 - z1 * z2);
    lemma_sq_mixed(w1 * x2, w2 * x1, y1 * z2, z1 * y2);
    lemma_sq_mixed(w1 * y2, w2 * y1, z1 * x2, x1 * z2);
    lemma_sq_mixed(w1 * z2, w2 * z1, x1 * y2, y1 * x2);
    lemma_sq_mixed(w1 * w2, x1 * x2, y1 * y2, z1 * z2);
    assert((w1 * x2) * (w1 * x2) == (w1 * w1) * (x2 * x2)) by (nonlinear_arith);
    assert((w1 * x2) * (w2 * x1) == (x1 * w1) * (x2 * w2)) by (nonlinear_arith);
    assert((w1 * x2) * (y1 * z2) == (y1 * w1) * (x2 * z2)) by (nonlinear_arith);
    assert((w1 * x2) * (z1 * y2) == (z1 * w1) * (x2 * y2)) by (nonlinear_arith);
    assert((w2 * x1) * (w2 * x1) == (x1 * x1) * (w2 * w2)) by (nonlinear_arith);
    assert((w2 * x1) * (y1 * z2) == (x1 * y1) * (z2 * w2)) by (nonlinear_arith);
    assert((w2 * x1) * (z1 * y2) == (x1 * z1) * (y2 * w2)) by (nonlinear_arith);
    assert((y1 * z2) * (y1 * z2) == (y1 * y1) * (z2 * z2)) by (nonlinear_arith);
    assert((y1 * z2) * (z1 * y2) == (y1 * z1) * (y2 * z2)) by (nonlinear_arith);
    assert((z1 * y2) * (z1 * y2) == (z1 * z1) * (y2 * y2)) by (nonlinear_arith);
    assert((w1 * y2) * (w1 * y2) == (w1 * w1) * (y2 * y2)) by (nonlinear_arith);
    assert((w1 * y2) * (w2 * y1) == (y1 * w1) * (y2 * w2)) by (nonlinear_arith);
    assert((w1 * y2) * (z1 * x2) == (z1 * w1) * (x2 * y2)) by (nonlinear_arith);
    assert((w1 * y2) * (x1 * z2) == (x1 * w1) * (y2 * z2)) by (nonlinear_arith);
    assert((w2 * y1) * (w2 * y1) == (y1 * y1) * (w2 * w2)) by (nonlinear_arith);
    assert((w2 * y1) * (z1 * x2) == (y1 * z1) * (x2 * w2)) by (nonlinear_arith);
    assert((w2 * y1) * (x1 * z2) == (x1 * y1) * (z2 * w2)) by (nonlinear_arith);
    assert((z1 * x2) * (z1 * x2) == (z1 * z1) * (x2 * x2)) by (nonlinear_arith);
    assert((z1 * x2) * (x1 * z2) == (x1 * z1) * (x2 * z2)) by (nonlinear_arith);
    assert((x1 * z2) * (x1 * z2) == (x1 * x1) * (z2 * z2)) by (nonlinear_arith);
    assert((w1 * z2) * (w1 * z2) == (w1 * w1) * (z2 * z2)) by (nonlinear_arith);
    assert((w1 * z2) * (w2 * z1) == (z1 * w1) * (z2 * w2)) by (nonlinear_arith);
    assert((w1 * z2) * (x1 * y2) == (x1 * w1) * (y2 * z2)) by (nonlinear_arith);
    assert((w1 * z2) * (y1 * x2) == (y1 * w1) * (x2 * z2)) by (nonlinear_arith);
    assert((w2 * z1) * (w2 * z1) == (z1 * z1) * (w2 * w2)) by (nonlinear_arith);
    assert((w2 * z1) * (x1 * y2) == (x1 * z1) * (y2 * w2)) by (nonlinear_arith);
    assert((w2 * z1) * (y1 * x2) == (y1 * z1) * (x2 * w2)) by (nonlinear_arith);
    assert((x1 * y2) * (x1 * y2) == (x1 * x1) * (y2 * y2)) by (nonlinear_arith);
    assert((x1 * y2) * (y1 * x2) == (x1 * y1) * (x2 * y2)) by (nonlinear_arith);
    assert((y1 * x2) * (y1 * x2) == (y1 * y1) * (x2 * x2)) by (nonlinear_arith);
    assert((w1 * w2) * (w1 * w2) == (w1 * w1) * (w2 * w2)) by (nonlinear_arith);
    assert((w1 * w2) * (x1 * x2) == (x1 * w1) * (x2 * w2)) by (nonlinear_arith);
    assert((w1 * w2) * (y1 * y2) == (y1 * w1) * (y2 * w2)) by (nonlinear_arith);
    assert((w1 * w2) * (z1 * z2) == (z1 * w1) * (z2 * w2)) by (nonlinear_arith);
    assert((x1 * x2) * (x1 * x2) == (x1 * x1) * (x2 * x2)) by (nonlinear_arith);
    assert((x1 * x2) * (y1 * y2) == (x1 * y1) * (x2 * y2)) by (nonlinear_arith);
    assert((x1 * x2) * (z1 * z2) == (x1 * z1) * (x2 * z2)) by (nonlinear_arith);
    assert((y1 * y2) * (y1 * y2) == (y1 * y1) * (y2 * y2)) by (nonlinear_arith);
    assert((y1 * y2) * (z1 * z2) == (y1 * z1) * (y2 * z2)) by (nonlinear_arith);
    assert((z1 * z2) * (z1 * z2) == (z1 * z1) * (z2 * z2)) by (nonlinear_arith);
    lemma_distrib_sum4(x2 * x2 + y2 * y2 + z2 * z2 + w2 * w2, x1 * x1, y1 * y1,
        z1 * z1, w1 * w1);
    lemma_distrib_sum4(x1 * x1, x2 * x2, y2 * y2, z2 * z2, w2 * w2);
    lemma_distrib_sum4(y1 * y1, x2 * x2, y2 * y2, z2 * z2, w2 * w2);
    lemma_distrib_sum4(z1 * z1, x2 * x2, y2 * y2, z2 * z2, w2 * w2);
    lemma_distrib_sum4(w1 * w1, x2 * x2, y2 * y2, z2 * z2, w2 * w2);
    assert(m.x * m.x + m.y * m.y + m.z * m.z + m.w * m.w == (x1 * x1 + y1 * y1 + z1 * z1
        + w1 * w1) * (x2 * x2 + y2 * y2 + z2 * z2 + w2 * w2));
}

/// The product of two rotations with positive squared norm keeps one.
pub proof fn lemma_norm2_mul_pos(a: Q4, b: Q4)
    requires
        q_norm2(a) > 0,
        q_norm2(b) > 0,
    ensures
        q_norm2(q_mul(a, b)) > 0,
{
    lemma_norm2_mul(a, b);
    assert(q_norm2(a) * q_norm2(b) > 0) by (nonlinear_arith)
        requires q_norm2(a) > 0, q_norm2(b) > 0,
    {}
}

/// Conjugation preserves the squared norm.
pub proof fn lemma_norm2_conj(a: Q4)
    ensures
        q_norm2(q_conj(a)) == q_norm2(a),
{
    assert((-a.x) * (-a.x) == a.x * a.x && (-a.y) * (-a.y) == a.y * a.y && (-a.z) * (
        -a.z) == a.z * a.z) by (nonlinear_arith);
}


/// Distribution shapes taken by the Hamilton product's components.
proof fn lemma_qp_distrib(t: int, p: int, q: int, r: int, s: int)
    ensures
        t * (p + q + (r - s)) == t * p + t * q + (t * r - t * s),
        (p + q + (r - s)) * (-t) == -(t * p) - t * q - t * r + t * s,
        (p - q - r - s) * (-t) == q * t + r * t + s * t - p * t,
        (p - q - r - s) * t == p * t - q * t - r * t - s * t,
        (p - (q + r + s)) * t == p * t - q * t - r * t - s * t,
        (2 * (p + q + r)) * t == 2 * (p * t) + 2 * (q * t) + 2 * (r * t),
        (2 * t) * (r - s) == 2 * (t * r) - 2 * (t * s),
{
    assert(t * (p + q + (r - s)) == t * p + t * q + (t * r - t * s)) by (nonlinear_arith);
    assert((p + q + (r - s)) * (-t) == -(t * p) - t * q - t * r + t * s)
        by (nonlinear_arith);
    assert((p - q - r - s) * (-t) == q * t + r * t + s * t - p * t) by (nonlinear_arith);
    assert((p - q - r - s) * t == p * t - q * t - r * t - s * t) by (nonlinear_arith);
    assert((p - (q + r + s)) * t == p * t - q * t - r * t - s * t) by (nonlinear_arith);
    assert((2 * (p + q + r)) * t == 2 * (p * t) + 2 * (q * t) + 2 * (r * t))
        by (nonlinear_arith);
    assert((2 * t) * (r - s) == 2 * (t * r) - 2 * (t * s)) by (nonlinear_arith);
}

/// Applying a rotation is the quaternion sandwich: embedding the vector as
/// a pure quaternion and multiplying by `q` on the left and its conjugate
/// on the right gives `rot_v3` in the vector part and zero scalar part.
pub proof fn lemma_rot_is_sandwich(q: Q4, v: V3)
    ensures
        q_mul(q_mul(q, q4(v.x, v.y, v.z, 0)), q_conj(q)) == q4(
            rot_v3(q, v).x,
            rot_v3(q, v).y,
            rot_v3(q, v).z,
            0,
        ),
{
    let x = q.x;
    let y = q.y;
    let z = q.z;
    let w = q.w;
    let a = v.x;
    let b = v.y;
    let d = v.z;
    let m1 = q_mul(q, q4(a, b, d, 0));
    assert(m1.x == w * a + 0 * x + (y * d - z * b));
    assert(m1.y == w * b + 0 * y + (z * a - x * d));
    assert(m1.z == w * d + 0 * z + (x * b - y * a));
    assert(m1.w == w * 0 - x * a - y * b - z * d);
    let m2 = q_mul(m1, q_conj(q));
    assert(m2.x == m1.w * (-x) + w * m1.x + (m1.y * (-z) - m1.z * (-y)));
    assert(m2.y == m1.w * (-y) + w * m1.y + (m1.z * (-x) - m1.x * (-z)));
    assert(m2.z == m1.w * (-z) + w * m1.z + (m1.x * (-y) - m1.y * (-x)));
    assert(m2.w == m1.w * w - m1.x * (-x) - m1.y * (-y) - m1.z * (-z));
    lemma_qp_distrib(x, w * 0, x * a, y * b, z * d);
    lemma_qp_distrib(w, w * a, 0 * x, y * d, z * b);
    lemma_qp_distrib(z, w * b, 0 * y, z * a, x * d);
    lemma_qp_distrib(y, w * d, 0 * z, x * b, y * a);
    lemma_qp_distrib(y, w * 0, x * a, y * b, z * d);
    lemma_qp_distrib(w, w * b, 0 * y, z * a, x * d);
    lemma_qp_distrib(x, w * d, 0 * z, x * b, y * a);
    lemma_qp_distrib(z, w * a, 0 * x, y * d, z * b);
    lemma_qp_distrib(z, w * 0, x * a, y * b, z * d);
    lemma_qp_distrib(w, w * d, 0 * z, x * b, y * a);
    lemma_qp_distrib(y, w * a, 0 * x, y * d, z * b);
    lemma_qp_distrib(x, w * b, 0 * y, z * a, x * d);
    lemma_qp_distrib(w, w * 0, x * a, y * b, z * d);
    lemma_qp_distrib(x, w * a, 0 * x, y * d, z * b);
    lemma_qp_distrib(y, w * b, 0 * y, z * a, x * d);
    lemma_qp_distrib(z, w * d, 0 * z, x * b, y * a);
    lemma_qp_distrib(a, w * w, x * x, y * y, z * z);
    lemma_qp_distrib(b, w * w, x * x, y * y, z * z);
    lemma_qp_distrib(d, w * w, x * x, y * y, z * z);
    lemma_qp_distrib(x, x * a, y * b, z * d, 0);
    lemma_qp_distrib(y, x * a, y * b, z * d, 0);
    lemma_qp_distrib(z, x * a, y * b, z * d, 0);
    assert((x * a) * w == (x * w) * a) by (nonlinear_arith);
    assert((x * a) * x == (x * x) * a) by (nonlinear_arith);
    assert((x * a) * y == (x * y) * a) by (nonlinear_arith);
    assert((x * a) * z == (x * z) * a) by (nonlinear_arith);
    assert((y * b) * w == (y * w) * b) by (nonlinear_arith);
    assert((y * b) * x == (x * y) * b) by (nonlinear_arith);
    assert((y * b) * y == (y * y) * b) by (nonlinear_arith);
    assert((y * b) * z == (y * z) * b) by (nonlinear_arith);
    assert((z * d) * w == (z * w) * d) by (nonlinear_arith);
    assert((z * d) * x == (x * z) * d) by (nonlinear_arith);
    assert((z * d) * y == (y * z) * d) by (nonlinear_arith);
    assert((z * d) * z == (z * z) * d) by (nonlinear_arith);
    assert(w * (w * a) == (w * w) * a) by (nonlinear_arith);
    assert(w * (w * b) == (w * w) * b) by (nonlinear_arith);
    assert(w * (w * d) == (w * w) * d) by (nonlinear_arith);
    assert(w * (x * b) == (x * w) * b) by (nonlinear_arith);
    assert(w * (x * d) == (x * w) * d) by (nonlinear_arith);
    assert(w * (y * a) == (y * w) * a) by (nonlinear_arith);
    assert(w * (y * d) == (y * w) * d) by (nonlinear_arith);
    assert(w * (z * a) == (z * w) * a) by (nonlinear_arith);
    assert(w * (z * b) == (z * w) * b) by (nonlinear_arith);
    assert(x * (w * a) == (x * w) * a) by (nonlinear_arith);
    assert(x * (w * b) == (x * w) * b) by (nonlinear_arith);
    assert(x * (w * d) == (x * w) * d) by (nonlinear_arith);
    assert(x * (x * b) == (x * x) * b) by (nonlinear_arith);
    assert(x * (x * d) == (x * x) * d) by (nonlinear_arith);
    assert(x * (y * a) == (x * y) * a) by (nonlinear_arith);
    assert(x * (y * d) == (x * y) * d) by (nonlinear_arith);
    assert(x * (z * a) == (x * z) * a) by (nonlinear_arith);
    assert(x * (z * b) == (x * z) * b) by (nonlinear_arith);
    assert(y * (w * a) == (y * w) * a) by (nonlinear_arith);
    assert(y * (w * b) == (y * w) * b) by (nonlinear_arith);
    assert(y * (w * d) == (y * w) * d) by (nonlinear_arith);
    assert(y * (x * b) == (x * y) * b) by (nonlinear_arith);
    assert(y * (x * d) == (x * y) * d) by (nonlinear_arith);
    assert(y * (y * a) == (y * y) * a) by (nonlinear_arith);
    assert(y * (y * d) == (y * y) * d) by (nonlinear_arith);
    assert(y * (z * a) == (y * z) * a) by (nonlinear_arith);
    assert(y * (z * b) == (y * z) * b) by (nonlinear_arith);
    assert(z * (w * a) == (z * w) * a) by (nonlinear_arith);
    assert(z * (w * b) == (z * w) * b) by (nonlinear_arith);
    assert(z * (w * d) == (z * w) * d) by (nonlinear_arith);
    assert(z * (x * b) == (x * z) * b) by (nonlinear_arith);
    assert(z * (x * d) == (x * z) * d) by (nonlinear_arith);
    assert(z * (y * a) == (y * z) * a) by (nonlinear_arith);
    assert(z * (y * d) == (y * z) * d) by (nonlinear_arith);
    assert(z * (z * a) == (z * z) * a) by (nonlinear_arith);
    assert(z * (z * b) == (z * z) * b) by (nonlinear_arith);
    assert((w * 0) * w == 0) by (nonlinear_arith);
    assert((w * 0) * x == 0) by (nonlinear_arith);
    assert((w * 0) * y == 0) by (nonlinear_arith);
    assert((w * 0) * z == 0) by (nonlinear_arith);
    assert(w * (0 * x) == 0) by (nonlinear_arith);
    assert(w * (0 * y) == 0) by (nonlinear_arith);
    assert(w * (0 * z) == 0) by (nonlinear_arith);
    assert(x * (0 * x) == 0) by (nonlinear_arith);
    assert(x * (0 * y) == 0) by (nonlinear_arith);
    assert(x * (0 * z) == 0) by (nonlinear_arith);
    assert(y * (0 * x) == 0) by (nonlinear_arith);
    assert(y * (0 * y) == 0) by (nonlinear_arith);
    assert(y * (0 * z) == 0) by (nonlinear_arith);
    assert(z * (0 * x) == 0) by (nonlinear_arith);
    assert(z * (0 * y) == 0) by (nonlinear_arith);
    assert(z * (0 * z) == 0) by (nonlinear_arith);
    assert((m1.w) * (-x) == (x * x) * a + (x * y) * b + (x * z) * d);
    assert(w * (m1.x) == (w * w) * a + (y * w) * d - (z * w) * b);
    assert((m1.y) * (-z) == -((z * w) * b) - (z * z) * a + (x * z) * d);
    assert((m1.z) * (-y) == -((y * w) * d) - (x * y) * b + (y * y) * a);
    assert((m1.w) * (-y) == (x * y) * a + (y * y) * b + (y * z) * d);
    assert(w * (m1.y) == (w * w) * b + (z * w) * a - (x * w) * d);
    assert((m1.z) * (-x) == -((x * w) * d) - (x * x) * b + (x * y) * a);
    assert((m1.x) * (-z) == -((z * w) * a) - (y * z) * d + (z * z) * b);
    assert((m1.w) * (-z) == (x * z) * a + (y * z) * b + (z * z) * d);
    assert(w * (m1.z) == (w * w) * d + (x * w) * b - (y * w) * a);
    assert((m1.x) * (-y) == -((y * w) * a) - (y * y) * d + (y * z) * b);
    assert((m1.y) * (-x) == -((x * w) * b) - (x * z) * a + (x * x) * d);
    assert((m1.w) * w == -((x * w) * a) - (y * w) * b - (z * w) * d);
    assert((m1.x) * (-x) == -((x * w) * a) - (x * y) * d + (x * z) * b);
    assert((m1.y) * (-y) == -((y * w) * b) - (y * z) * a + (x * y) * d);
    assert((m1.z) * (-z) == -((z * w) * d) - (x * z) * b + (y * z) * a);
    assert((w * w - (x * x + y * y + z * z)) * a == (w * w) * a - (x * x) * a - (y * y) * a - (z * z) * a);
    assert((w * w - (x * x + y * y + z * z)) * b == (w * w) * b - (x * x) * b - (y * y) * b - (z * z) * b);
    assert((w * w - (x * x + y * y + z * z)) * d == (w * w) * d - (x * x) * d - (y * y) * d - (z * z) * d);
    assert(2 * (x * a + y * b + z * d) * x == 2 * ((x * x) * a) + 2 * ((x * y) * b) + 2 * ((x * z) * d));
    assert(2 * (x * a + y * b + z * d) * y == 2 * ((x * y) * a) + 2 * ((y * y) * b) + 2 * ((y * z) * d));
    assert(2 * (x * a + y * b + z * d) * z == 2 * ((x * z) * a) + 2 * ((y * z) * b) + 2 * ((z * z) * d));
    assert(2 * w * (y * d - z * b) == 2 * ((y * w) * d) - 2 * ((z * w) * b));
    assert(2 * w * (z * a - x * d) == 2 * ((z * w) * a) - 2 * ((x * w) * d));
    assert(2 * w * (x * b - y * a) == 2 * ((x * w) * b) - 2 * ((y * w) * a));
    assert(rot_v3(q, v).x == (w * w - (x * x + y * y + z * z)) * a + 2 * (x * a + y * b
        + z * d) * x + 2 * w * (y * d - z * b));
    assert(rot_v3(q, v).y == (w * w - (x * x + y * y + z * z)) * b + 2 * (x * a + y * b
        + z * d) * y + 2 * w * (z * a - x * d));
    assert(rot_v3(q, v).z == (w * w - (x * x + y * y + z * z)) * d + 2 * (x * a + y * b
        + z * d) * z + 2 * w * (x * b - y * a));
    assert(m2.x == rot_v3(q, v).x);
    assert(m2.y == rot_v3(q, v).y);
    assert(m2.z == rot_v3(q, v).z);
    assert(m2.w == 0);
}

/// Rotations preserve squared lengths, up to the projective scale: the
/// orthonormality of the induced linear map.
pub proof fn lemma_rot_preserves_norm(q: Q4, v: V3)
    ensures
        v3_norm2(rot_v3(q, v)) == (q_norm2(q) * q_norm2(q)) * v3_norm2(v),
{
    lemma_rot_is_sandwich(q, v);
    let p = q4(v.x, v.y, v.z, 0);
    let m1 = q_mul(q, p);
    let full = q_mul(m1, q_conj(q));
    lemma_norm2_mul(q, p);
    lemma_norm2_mul(m1, q_conj(q));
    lemma_norm2_conj(q);
    assert(0 * 0 == 0) by (nonlinear_arith);
    assert(q_norm2(p) == v3_norm2(v));
    assert(full.w * full.w == 0) by (nonlinear_arith)
        requires full.w == 0,
    {}
    assert(q_norm2(full) == full.x * full.x + full.y * full.y + full.z * full.z);
    assert(v3_norm2(rot_v3(q, v)) == q_norm2(full));
    assert((q_norm2(q) * q_norm2(p)) * q_norm2(q) == (q_norm2(q) * q_norm2(q))
        * q_norm2(p)) by (nonlinear_arith);
}

/// Scaling a rational vector's numerator and denominator together.
pub open spec fn rv_scale(c: int, v: RV3) -> RV3 {
    RV3 { n: v3_scale(c, v.n), d: c * v.d }
}

/// One hop down undoes one hop up, at the price of scaling numerator and
/// denominator by the squared norm twice.
proof fn lemma_hop_round(p: V3, q: Q4, v: RV3)
    ensures
        hop_from_parent(p, q, hop_to_parent(p, q, v)) == rv_scale(
            q_norm2(q) * q_norm2(q), v),
{
    let nq = q_norm2(q);
    let w = hop_to_parent(p, q, v);
    let d1 = v.d * nq;
    assert(w.d == d1);
    // the translation cancels before the conjugate rotation
    let sub = crate::vec3::v3_sub(w.n, v3_scale(w.d, p));
    assert(sub.x == rot_v3(q, v.n).x && sub.y == rot_v3(q, v.n).y && sub.z == rot_v3(
        q, v.n).z);
    assert(sub == rot_v3(q, v.n));
    lemma_rot_conj_rot(q, v.n);
    assert(hop_from_parent(p, q, w).n == v3_scale(nq * nq, v.n));
    assert(w.d * nq == (nq * nq) * v.d) by (nonlinear_arith)
        requires w.d == v.d * nq,
    {}
}

/// A hop down is homogeneous: scaling its input scales its output.
proof fn lemma_hop_from_scale(p: V3, q: Q4, c: int, v: RV3)
    ensures
        hop_from_parent(p, q, rv_scale(c, v)) == rv_scale(c, hop_from_parent(p, q, v)),
{
    let sv = rv_scale(c, v);
    let sub_s = crate::vec3::v3_sub(sv.n, v3_scale(sv.d, p));
    let sub = crate::vec3::v3_sub(v.n, v3_scale(v.d, p));
    assert(sub_s.x == c * sub.x && sub_s.y == c * sub.y && sub_s.z == c * sub.z)
        by (nonlinear_arith)
        requires
            sub_s.x == c * v.n.x - (c * v.d) * p.x,
            sub_s.y == c * v.n.y - (c * v.d) * p.y,
            sub_s.z == c * v.n.z - (c * v.d) * p.z,
            sub.x == v.n.x - v.d * p.x,
            sub.y == v.n.y - v.d * p.y,
            sub.z == v.n.z - v.d * p.z,
    {}
    assert(sub_s == v3_scale(c, sub));
    lemma_rot_linear(q_conj(q), c, sub);
    assert((c * v.d) * q_norm2(q) == c * (v.d * q_norm2(q))) by (nonlinear_arith);
}

/// The product of the squared-norm factors along the chain from `i` to the
/// root: the scale a full round trip multiplies numerator and denominator
/// by.
pub open spec fn chain_scale(frames: Seq<Frame>, i: int, t: int) -> int
    decreases i,
{
    let nq = q_norm2(frames[i].pose_spec(t).1);
    match frames[i].spec_parent() {
        None => nq * nq,
        Some(pa) => if pa < i { chain_scale(frames, pa as int, t) * (nq * nq) } else {
            nq * nq
        },
    }
}

/// Squared norms are sums of squares, hence nonnegative.
proof fn lemma_norm2_nonneg(q: Q4)
    ensures
        q_norm2(q) >= 0,
{
    assert(q.x * q.x + q.y * q.y + q.z * q.z + q.w * q.w >= 0) by (nonlinear_arith);
}

/// Every well-formed frame's pose has a rotation of positive squared norm.
proof fn lemma_pose_norm2_pos(f: Frame, t: int)
    requires
        f.wf(),
    ensures
        q_norm2(f.pose_spec(t).1) > 0,
{
    match f {
        Frame::Fixed(ff) => {},
        Frame::Rotating(rf) => {
            let om = rf.omega@;
            let q0 = rf.q0@;
            if v3_norm2(om) != 0 {
                let spun = spin_rotation(om, rf.t0 as int, q0, t);
                let rate = sqrt_floor(v3_norm2(om) as nat) as int;
                let theta = tdiv(rate * (t - rf.t0 as int), 1_000_000);
                let m = theta % (TWO_PI_NANO as int);
                let em = if m > PI_NANO { m - TWO_PI_NANO } else { m };
                if em != 0 {
                    let half = tdiv(em, 2);
                    let ha = if half >= 0 { half } else { -half };
                    let s0 = crate::frame::sin_fx(ha);
                    let sg = if half >= 0 { s0 } else { -s0 };
                    let c = crate::frame::cos_fx(ha);
                    let spin = q4(
                        tdiv(om.x * sg, rate),
                        tdiv(om.y * sg, rate),
                        tdiv(om.z * sg, rate),
                        c,
                    );
                    if q_norm2(spin) != 0 {
                        let rot = q_mul(spin, q0);
                        if q_norm2(rot) != 0 {
                            assert(spun == q_reduce(rot));
                            lemma_norm2_nonneg(rot);
                            let mm = sqrt_floor(q_norm2(rot) as nat) as int;
                            let rr = q4(
                                tdiv(rot.x * QSCALE, mm),
                                tdiv(rot.y * QSCALE, mm),
                                tdiv(rot.z * QSCALE, mm),
                                tdiv(rot.w * QSCALE, mm),
                            );
                            if q_norm2(rr) > 0 {
                                assert(q_reduce(rot) == rr);
                            } else {
                                assert(q_reduce(rot) == rot);
                            }
                        }
                    }
                }
            }
        },
    }
}

/// Reads the arena invariant off at one index.
proof fn lemma_arena_at(frames: Seq<Frame>, i: int)
    requires
        arena_wf(frames),
        0 <= i < frames.len(),
    ensures
        frames[i].wf(),
        frames[i].spec_parent() is Some ==> frames[i].spec_parent()->0 < i,
{
}

/// Round trip, structurally: resolving to the root and back multiplies
/// numerator and denominator by the same positive factor.
#[verifier::rlimit(60)]
proof fn lemma_round_trip_scaled(frames: Seq<Frame>, i: int, v: RV3, t: int)
    requires
        arena_wf(frames),
        0 <= i < frames.len(),
    ensures
        root_to_frame_spec(frames, i, frame_to_root_spec(frames, i, v, t), t)
            == rv_scale(chain_scale(frames, i, t), v),
    decreases i,
{
    lemma_arena_at(frames, i);
    let pose = frames[i].pose_spec(t);
    let nq = q_norm2(pose.1);
    let w = hop_to_parent(pose.0, pose.1, v);
    match frames[i].spec_parent() {
        None => {
            lemma_hop_round(pose.0, pose.1, v);
        },
        Some(pa) => {
            assert(pa < i);
            lemma_round_trip_scaled(frames, pa as int, w, t);
            let k = chain_scale(frames, pa as int, t);
            lemma_hop_from_scale(pose.0, pose.1, k, w);
            lemma_hop_round(pose.0, pose.1, v);
            // scale factors compose
            assert(rv_scale(k, rv_scale(nq * nq, v)) == rv_scale(k * (nq * nq), v)) by {
                assert(k * ((nq * nq) * v.n.x) == (k * (nq * nq)) * v.n.x
                    && k * ((nq * nq) * v.n.y) == (k * (nq * nq)) * v.n.y
                    && k * ((nq * nq) * v.n.z) == (k * (nq * nq)) * v.n.z
                    && k * ((nq * nq) * v.d) == (k * (nq * nq)) * v.d)
                    by (nonlinear_arith);
            }
        },
    }
}

/// The chain's scale factor is positive whenever the arena is well formed.
proof fn lemma_chain_scale_pos(frames: Seq<Frame>, i: int, t: int)
    requires
        arena_wf(frames),
        0 <= i < frames.len(),
    ensures
        chain_scale(frames, i, t) > 0,
    decreases i,
{
    lemma_arena_at(frames, i);
    let nq = q_norm2(frames[i].pose_spec(t).1);
    lemma_pose_norm2_pos(frames[i], t);
    assert(nq * nq > 0) by (nonlinear_arith)
        requires nq > 0,
    {}
    match frames[i].spec_parent() {
        None => {},
        Some(pa) => {
            lemma_chain_scale_pos(frames, pa as int, t);
            assert(chain_scale(frames, pa as int, t) * (nq * nq) > 0) by (nonlinear_arith)
                requires chain_scale(frames, pa as int, t) > 0, nq * nq > 0,
            {}
        },
    }
}

/// The round-trip law: for every frame, vector and time, resolving to root
/// coordinates and back returns the original rational value exactly.
pub proof fn lemma_round_trip(frames: Seq<Frame>, i: int, v: RV3, t: int)
    requires
        arena_wf(frames),
        0 <= i < frames.len(),
        v.d > 0,
    ensures
        rv_eq(root_to_frame_spec(frames, i, frame_to_root_spec(frames, i, v, t), t), v),
{
    lemma_round_trip_scaled(frames, i, v, t);
    lemma_chain_scale_pos(frames, i, t);
    lemma_rv_scale_eq(v, chain_scale(frames, i, t));
}

} // verus!
