//! Rotation quaternions with integer components, read projectively: a
//! quaternion and any positive multiple of it denote the same rotation, so
//! applying a rotation multiplies every coordinate (and the carried
//! denominator) by the quaternion's squared norm instead of dividing.
//!
//! `Q4` is the mathematical model; `Quat` is the executable quaternion.
//! Components are laid out `x, y, z, w` with `w` the scalar part, matching
//! the order in which external callers see them.

use vstd::prelude::*;
use crate::num::{tdiv, div_t, isqrt, sqrt_floor, lemma_abs_mul, lemma_tdiv_bound};
use crate::vec3::{V3, v3, v3_norm2, v3_max, Vec3};

verus! {

/// Scale of a freshly built rotation quaternion: a unit quaternion's
/// components times `QSCALE`, rounded toward zero.
///
/// The value trades precision against chain depth: quantizing to `QSCALE`
/// steps puts about a half-millradian of rounding into each constructed
/// rotation (kilometres at Earth radius), while each transform hop
/// multiplies the carried denominator by the squared quaternion norm
/// (about `4 * QSCALE * QSCALE`), so an `i128` accommodates chains several
/// frames deep at Earth-scale coordinates before the engine's overflow
/// preconditions bite.  A finer scale would tighten poses and shorten the
/// admissible chains.
pub const QSCALE: i128 = 2048;

/// Mathematical quaternion used in specifications.
pub struct Q4 {
    pub x: int,
    pub y: int,
    pub z: int,
    pub w: int,
}

pub open spec fn q4(x: int, y: int, z: int, w: int) -> Q4 {
    Q4 { x, y, z, w }
}

/// Hamilton product.
pub open spec fn q_mul(a: Q4, b: Q4) -> Q4 {
    q4(
        a.w * b.x + b.w * a.x + (a.y * b.z - a.z * b.y),
        a.w * b.y + b.w * a.y + (a.z * b.x - a.x * b.z),
        a.w * b.z + b.w * a.z + (a.x * b.y - a.y * b.x),
        a.w * b.w - a.x * b.x - a.y * b.y - a.z * b.z,
    )
}

pub open spec fn q_conj(a: Q4) -> Q4 {
    q4(-a.x, -a.y, -a.z, a.w)
}

pub open spec fn q_norm2(a: Q4) -> int {
    a.x * a.x + a.y * a.y + a.z * a.z + a.w * a.w
}

/// Largest absolute value of a component.
pub open spec fn q_max(a: Q4) -> int {
    let ax = if a.x >= 0 { a.x } else { -a.x };
    let ay = if a.y >= 0 { a.y } else { -a.y };
    let az = if a.z >= 0 { a.z } else { -a.z };
    let aw = if a.w >= 0 { a.w } else { -a.w };
    let m1 = if ax >= ay { ax } else { ay };
    let m2 = if az >= aw { az } else { aw };
    if m1 >= m2 { m1 } else { m2 }
}

/// The rotation denoted by `q` applied to `v`, scaled by `q_norm2(q)`:
/// the vector part of `q v q*`.
pub open spec fn rot_v3(q: Q4, v: V3) -> V3 {
    v3(
        (q.w * q.w - (q.x * q.x + q.y * q.y + q.z * q.z)) * v.x
            + 2 * (q.x * v.x + q.y * v.y + q.z * v.z) * q.x
            + 2 * q.w * (q.y * v.z - q.z * v.y),
        (q.w * q.w - (q.x * q.x + q.y * q.y + q.z * q.z)) * v.y
            + 2 * (q.x * v.x + q.y * v.y + q.z * v.z) * q.y
            + 2 * q.w * (q.z * v.x - q.x * v.z),
        (q.w * q.w - (q.x * q.x + q.y * q.y + q.z * q.z)) * v.z
            + 2 * (q.x * v.x + q.y * v.y + q.z * v.z) * q.z
            + 2 * q.w * (q.x * v.y - q.y * v.x),
    )
}

/// Renormalization: divide by the norm and rescale to `QSCALE`, rounding
/// toward zero; if that ever rounded the quaternion away entirely, keep the
/// argument instead.
pub open spec fn q_reduce(q: Q4) -> Q4 {
    let m = sqrt_floor(q_norm2(q) as nat) as int;
    let r = q4(
        tdiv(q.x * QSCALE, m),
        tdiv(q.y * QSCALE, m),
        tdiv(q.z * QSCALE, m),
        tdiv(q.w * QSCALE, m),
    );
    if q_norm2(r) > 0 {
        r
    } else {
        q
    }
}

pub proof fn lemma_q_bounds(a: Q4)
    ensures
        q_max(a) >= 0,
        -q_max(a) <= a.x <= q_max(a),
        -q_max(a) <= a.y <= q_max(a),
        -q_max(a) <= a.z <= q_max(a),
        -q_max(a) <= a.w <= q_max(a),
{
}

pub proof fn lemma_v3_bounds(a: V3)
    ensures
        v3_max(a) >= 0,
        -v3_max(a) <= a.x <= v3_max(a),
        -v3_max(a) <= a.y <= v3_max(a),
        -v3_max(a) <= a.z <= v3_max(a),
{
}

/// A quaternion with zero vector part acts as a pure scaling by `w * w`.
pub proof fn lemma_rot_scalar(w: int, v: V3)
    ensures
        rot_v3(q4(0, 0, 0, w), v) == v3(w * w * v.x, w * w * v.y, w * w * v.z),
{
    let r = rot_v3(q4(0, 0, 0, w), v);
    assert(r.x == w * w * v.x) by (nonlinear_arith)
        requires r.x == (w * w - (0 * 0 + 0 * 0 + 0 * 0)) * v.x
            + 2 * (0 * v.x + 0 * v.y + 0 * v.z) * 0 + 2 * w * (0 * v.z - 0 * v.y),
    {}
    assert(r.y == w * w * v.y) by (nonlinear_arith)
        requires r.y == (w * w - (0 * 0 + 0 * 0 + 0 * 0)) * v.y
            + 2 * (0 * v.x + 0 * v.y + 0 * v.z) * 0 + 2 * w * (0 * v.x - 0 * v.z),
    {}
    assert(r.z == w * w * v.z) by (nonlinear_arith)
        requires r.z == (w * w - (0 * 0 + 0 * 0 + 0 * 0)) * v.z
            + 2 * (0 * v.x + 0 * v.y + 0 * v.z) * 0 + 2 * w * (0 * v.y - 0 * v.x),
    {}
}


/// Multiplying a quaternion by its conjugate gives a pure scalar: the
/// squared norm.
pub proof fn lemma_conj_mul(a: Q4)
    ensures
        q_mul(q_conj(a), a) == q4(0, 0, 0, q_norm2(a)),
{
    assert(a.w * a.x + a.w * (-a.x) + ((-a.y) * a.z - (-a.z) * a.y) == 0) by (nonlinear_arith);
    assert(a.w * a.y + a.w * (-a.y) + ((-a.z) * a.x - (-a.x) * a.z) == 0) by (nonlinear_arith);
    assert(a.w * a.z + a.w * (-a.z) + ((-a.x) * a.y - (-a.y) * a.x) == 0) by (nonlinear_arith);
    assert(a.w * a.w - (-a.x) * a.x - (-a.y) * a.y - (-a.z) * a.z == q_norm2(a))
        by (nonlinear_arith);
}

/// Executable quaternion.
#[derive(Clone, Copy, Debug)]
pub struct Quat {
    pub x: i128,
    pub y: i128,
    pub z: i128,
    pub w: i128,
}

impl View for Quat {
    type V = Q4;

    open spec fn view(&self) -> Q4 {
        q4(self.x as int, self.y as int, self.z as int, self.w as int)
    }
}

impl Quat {
    pub fn new(x: i128, y: i128, z: i128, w: i128) -> (r: Quat)
        ensures
            r@ == q4(x as int, y as int, z as int, w as int),
    {
        Quat { x, y, z, w }
    }

    pub fn identity() -> (r: Quat)
        ensures
            r@ == q4(0, 0, 0, 1),
    {
        Quat { x: 0, y: 0, z: 0, w: 1 }
    }

    pub fn qconj(&self) -> (r: Quat)
        requires
            q_max(self@) < i128::MAX,
        ensures
            r@ == q_conj(self@),
    {
        proof {
            lemma_q_bounds(self@);
        }
        Quat { x: -self.x, y: -self.y, z: -self.z, w: self.w }
    }

    pub fn qnorm2(&self) -> (r: i128)
        requires
            4 * (q_max(self@) * q_max(self@)) <= i128::MAX,
        ensures
            r == q_norm2(self@),
            r >= 0,
    {
        proof {
            let m = q_max(self@);
            lemma_q_bounds(self@);
            lemma_abs_mul(self@.x, self@.x, m, m);
            lemma_abs_mul(self@.y, self@.y, m, m);
            lemma_abs_mul(self@.z, self@.z, m, m);
            lemma_abs_mul(self@.w, self@.w, m, m);
            assert(self@.x * self@.x >= 0) by (nonlinear_arith);
            assert(self@.y * self@.y >= 0) by (nonlinear_arith);
            assert(self@.z * self@.z >= 0) by (nonlinear_arith);
            assert(self@.w * self@.w >= 0) by (nonlinear_arith);
        }
        self.x * self.x + self.y * self.y + self.z * self.z + self.w * self.w
    }

    /// Hamilton product; the result's components are at most four pairwise
    /// products large.
    pub fn qmul(&self, o: &Quat) -> (r: Quat)
        requires
            8 * (q_max(self@) * q_max(o@)) <= i128::MAX,
        ensures
            r@ == q_mul(self@, o@),
            q_max(r@) <= 4 * (q_max(self@) * q_max(o@)),
    {
        proof {
            let ma = q_max(self@);
            let mb = q_max(o@);
            lemma_q_bounds(self@);
            lemma_q_bounds(o@);
            lemma_abs_mul(self@.w, o@.x, ma, mb);
            lemma_abs_mul(o@.w, self@.x, mb, ma);
            lemma_abs_mul(self@.y, o@.z, ma, mb);
            lemma_abs_mul(self@.z, o@.y, ma, mb);
            lemma_abs_mul(self@.w, o@.y, ma, mb);
            lemma_abs_mul(o@.w, self@.y, mb, ma);
            lemma_abs_mul(self@.z, o@.x, ma, mb);
            lemma_abs_mul(self@.x, o@.z, ma, mb);
            lemma_abs_mul(self@.w, o@.z, ma, mb);
            lemma_abs_mul(o@.w, self@.z, mb, ma);
            lemma_abs_mul(self@.x, o@.y, ma, mb);
            lemma_abs_mul(self@.y, o@.x, ma, mb);
            lemma_abs_mul(self@.w, o@.w, ma, mb);
            lemma_abs_mul(self@.x, o@.x, ma, mb);
            lemma_abs_mul(self@.y, o@.y, ma, mb);
            lemma_abs_mul(self@.z, o@.z, ma, mb);
            assert(mb * ma == ma * mb) by (nonlinear_arith);
        }
        let rx = self.w * o.x + o.w * self.x + (self.y * o.z - self.z * o.y);
        let ry = self.w * o.y + o.w * self.y + (self.z * o.x - self.x * o.z);
        let rz = self.w * o.z + o.w * self.z + (self.x * o.y - self.y * o.x);
        let rw = self.w * o.w - self.x * o.x - self.y * o.y - self.z * o.z;
        Quat { x: rx, y: ry, z: rz, w: rw }
    }

    /// Applies the rotation: returns the vector part of `q v q*`, which is
    /// the rotated vector scaled by `q_norm2(self@)`.
    pub fn rotate(&self, v: &Vec3) -> (r: Vec3)
        requires
            4 * (q_max(self@) * q_max(self@)) <= i128::MAX,
            16 * (q_max(self@) * v3_max(v@)) <= i128::MAX,
            16 * ((q_max(self@) * q_max(self@)) * v3_max(v@)) <= i128::MAX,
        ensures
            r@ == rot_v3(self@, v@),
            v3_max(r@) <= 16 * ((q_max(self@) * q_max(self@)) * v3_max(v@)),
    {
        proof {
            let m = q_max(self@);
            let vm = v3_max(v@);
            lemma_q_bounds(self@);
            lemma_v3_bounds(v@);
            let x = self@.x;
            let y = self@.y;
            let z = self@.z;
            let w = self@.w;
            let a = v@.x;
            let b = v@.y;
            let d = v@.z;
            let mm = m * m;
            let mv = m * vm;
            let x3 = mm * vm;
            assert(mm >= 0 && mv >= 0 && x3 >= 0 && 4 * mv <= 4 * (m * vm) && (4 * mm) * vm
                == 4 * x3 && (6 * mv) * m == 6 * x3 && (2 * m) * (2 * mv) == 4 * x3)
                by (nonlinear_arith)
                requires m >= 0, vm >= 0, mm == m * m, mv == m * vm, x3 == mm * vm,
            {}
            assert(2 * m <= i128::MAX) by (nonlinear_arith)
                requires m >= 0, 4 * (m * m) <= i128::MAX,
            {}
            lemma_abs_mul(x, x, m, m);
            lemma_abs_mul(y, y, m, m);
            lemma_abs_mul(z, z, m, m);
            lemma_abs_mul(w, w, m, m);
            lemma_abs_mul(x, a, m, vm);
            lemma_abs_mul(y, b, m, vm);
            lemma_abs_mul(z, d, m, vm);
            lemma_abs_mul(y, d, m, vm);
            lemma_abs_mul(z, b, m, vm);
            lemma_abs_mul(z, a, m, vm);
            lemma_abs_mul(x, d, m, vm);
            lemma_abs_mul(x, b, m, vm);
            lemma_abs_mul(y, a, m, vm);
            // the scalar coefficient, the dot, and the cross terms
            lemma_abs_mul(w * w - (x * x + y * y + z * z), a, 4 * mm, vm);
            lemma_abs_mul(w * w - (x * x + y * y + z * z), b, 4 * mm, vm);
            lemma_abs_mul(w * w - (x * x + y * y + z * z), d, 4 * mm, vm);
            lemma_abs_mul(2 * (x * a + y * b + z * d), x, 6 * mv, m);
            lemma_abs_mul(2 * (x * a + y * b + z * d), y, 6 * mv, m);
            lemma_abs_mul(2 * (x * a + y * b + z * d), z, 6 * mv, m);
            lemma_abs_mul(2 * w, y * d - z * b, 2 * m, 2 * mv);
            lemma_abs_mul(2 * w, z * a - x * d, 2 * m, 2 * mv);
            lemma_abs_mul(2 * w, x * b - y * a, 2 * m, 2 * mv);
        }
        let uu = self.x * self.x + self.y * self.y + self.z * self.z;
        let s = self.w * self.w - uu;
        let dot = self.x * v.x + self.y * v.y + self.z * v.z;
        let cx = self.y * v.z - self.z * v.y;
        let cy = self.z * v.x - self.x * v.z;
        let cz = self.x * v.y - self.y * v.x;
        let rx = s * v.x + 2 * dot * self.x + 2 * self.w * cx;
        let ry = s * v.y + 2 * dot * self.y + 2 * self.w * cy;
        let rz = s * v.z + 2 * dot * self.z + 2 * self.w * cz;
        Vec3 { x: rx, y: ry, z: rz }
    }

    /// Renormalizes to about `QSCALE` magnitude; relies on the floor square
    /// root of the squared norm.
    pub fn qreduce(&self) -> (r: Quat)
        requires
            q_max(self@) <= 0x2000_0000_0000_0000,
            q_norm2(self@) > 0,
        ensures
            r@ == q_reduce(self@),
            q_norm2(r@) > 0,
            q_max(r@) <= if q_max(q_reduce(self@)) <= QSCALE { QSCALE as int } else { q_max(self@) },
    {
        proof {
            let m = q_max(self@);
            lemma_q_bounds(self@);
            lemma_abs_mul(self@.x, self@.x, m, m);
            lemma_abs_mul(self@.y, self@.y, m, m);
            lemma_abs_mul(self@.z, self@.z, m, m);
            lemma_abs_mul(self@.w, self@.w, m, m);
            assert(4 * (m * m) <= i128::MAX && m * m <= (0x2000_0000_0000_0000
                * 0x2000_0000_0000_0000)) by (nonlinear_arith)
                requires 0 <= m <= 0x2000_0000_0000_0000,
            {}
        }
        let n2 = self.qnorm2();
        let mr = isqrt(n2 as u128);
        proof {
            // the root of the squared norm bounds every component
            let mi = mr as int;
            let m = q_max(self@);
            assert(mi >= 1) by (nonlinear_arith)
                requires mi >= 0, (n2 as int) >= 1, (n2 as int) < (mi + 1) * (mi + 1),
            {}
            assert(self@.x * self@.x <= q_norm2(self@)) by (nonlinear_arith);
            assert(self@.y * self@.y <= q_norm2(self@)) by (nonlinear_arith);
            assert(self@.z * self@.z <= q_norm2(self@)) by (nonlinear_arith);
            assert(self@.w * self@.w <= q_norm2(self@)) by (nonlinear_arith);
            crate::num::lemma_sq_le_bound(self@.x, n2 as int, mi);
            crate::num::lemma_sq_le_bound(self@.y, n2 as int, mi);
            crate::num::lemma_sq_le_bound(self@.z, n2 as int, mi);
            crate::num::lemma_sq_le_bound(self@.w, n2 as int, mi);
            lemma_abs_mul(self@.x, QSCALE as int, mi, QSCALE as int);
            lemma_abs_mul(self@.y, QSCALE as int, mi, QSCALE as int);
            lemma_abs_mul(self@.z, QSCALE as int, mi, QSCALE as int);
            lemma_abs_mul(self@.w, QSCALE as int, mi, QSCALE as int);
            assert(mi * QSCALE == QSCALE * mi) by (nonlinear_arith);
            lemma_tdiv_bound(self@.x * QSCALE, mi, QSCALE as int);
            lemma_tdiv_bound(self@.y * QSCALE, mi, QSCALE as int);
            lemma_tdiv_bound(self@.z * QSCALE, mi, QSCALE as int);
            lemma_tdiv_bound(self@.w * QSCALE, mi, QSCALE as int);
        }
        let rx = div_t(self.x * QSCALE, mr as i128);
        let ry = div_t(self.y * QSCALE, mr as i128);
        let rz = div_t(self.z * QSCALE, mr as i128);
        let rw = div_t(self.w * QSCALE, mr as i128);
        let cand = Quat { x: rx, y: ry, z: rz, w: rw };
        proof {
            assert(4 * (q_max(cand@) * q_max(cand@)) <= 4 * (2048 * 2048))
                by (nonlinear_arith)
                requires 0 <= q_max(cand@) <= 2048,
            {}
        }
        let cn2 = cand.qnorm2();
        if cn2 > 0 {
            cand
        } else {
            *self
        }
    }
}

} // verus!
