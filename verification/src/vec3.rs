//! Three-dimensional vectors.
//!
//! `V3` is the mathematical model (unbounded integers); `Vec3` is the
//! executable vector whose components are integer multiples of the length
//! unit (a thousandth of a kilometre).  `RVec3` pairs an integer vector with
//! a positive denominator, so that applying rotations — which scales every
//! coordinate by the squared norm of the quaternion — stays exact.

use vstd::prelude::*;

verus! {

/// Mathematical 3-vector used in specifications.
pub struct V3 {
    pub x: int,
    pub y: int,
    pub z: int,
}

pub open spec fn v3(x: int, y: int, z: int) -> V3 {
    V3 { x, y, z }
}

pub open spec fn v3_add(a: V3, b: V3) -> V3 {
    v3(a.x + b.x, a.y + b.y, a.z + b.z)
}

pub open spec fn v3_sub(a: V3, b: V3) -> V3 {
    v3(a.x - b.x, a.y - b.y, a.z - b.z)
}

pub open spec fn v3_scale(c: int, a: V3) -> V3 {
    v3(c * a.x, c * a.y, c * a.z)
}

pub open spec fn v3_dot(a: V3, b: V3) -> int {
    a.x * b.x + a.y * b.y + a.z * b.z
}

pub open spec fn v3_cross(a: V3, b: V3) -> V3 {
    v3(a.y * b.z - a.z * b.y, a.z * b.x - a.x * b.z, a.x * b.y - a.y * b.x)
}

pub open spec fn v3_norm2(a: V3) -> int {
    v3_dot(a, a)
}

/// Largest absolute value of a component; the overflow preconditions are
/// phrased with it.
pub open spec fn v3_max(a: V3) -> int {
    let ax = if a.x >= 0 { a.x } else { -a.x };
    let ay = if a.y >= 0 { a.y } else { -a.y };
    let az = if a.z >= 0 { a.z } else { -a.z };
    if ax >= ay && ax >= az {
        ax
    } else if ay >= az {
        ay
    } else {
        az
    }
}

/// Rational 3-vector: the value is `n / d` componentwise, `d > 0`.
pub struct RV3 {
    pub n: V3,
    pub d: int,
}

/// Two rational vectors denote the same point when the cross products of
/// numerator and denominator agree componentwise.
pub open spec fn rv_eq(a: RV3, b: RV3) -> bool {
    &&& a.n.x * b.d == b.n.x * a.d
    &&& a.n.y * b.d == b.n.y * a.d
    &&& a.n.z * b.d == b.n.z * a.d
}

/// Scaling numerator and denominator together preserves the value.
pub proof fn lemma_rv_scale_eq(a: RV3, c: int)
    requires
        a.d > 0,
        c > 0,
    ensures
        rv_eq(RV3 { n: v3_scale(c, a.n), d: c * a.d }, a),
{
    assert(c * a.n.x * a.d == a.n.x * (c * a.d)) by (nonlinear_arith);
    assert(c * a.n.y * a.d == a.n.y * (c * a.d)) by (nonlinear_arith);
    assert(c * a.n.z * a.d == a.n.z * (c * a.d)) by (nonlinear_arith);
}

/// Executable integer 3-vector.
#[derive(Clone, Copy, Debug)]
pub struct Vec3 {
    pub x: i128,
    pub y: i128,
    pub z: i128,
}

impl View for Vec3 {
    type V = V3;

    open spec fn view(&self) -> V3 {
        v3(self.x as int, self.y as int, self.z as int)
    }
}

impl Vec3 {
    pub fn new(x: i128, y: i128, z: i128) -> (r: Vec3)
        ensures
            r@ == v3(x as int, y as int, z as int),
    {
        Vec3 { x, y, z }
    }

    pub fn zero() -> (r: Vec3)
        ensures
            r@ == v3(0, 0, 0),
    {
        Vec3 { x: 0, y: 0, z: 0 }
    }
}

/// Executable rational 3-vector (value `n / d`, with `d > 0` well-formed).
#[derive(Clone, Copy, Debug)]
pub struct RVec3 {
    pub n: Vec3,
    pub d: i128,
}

impl View for RVec3 {
    type V = RV3;

    open spec fn view(&self) -> RV3 {
        RV3 { n: self.n@, d: self.d as int }
    }
}

impl RVec3 {
    pub open spec fn wf(self) -> bool {
        self.d > 0
    }

    /// Wraps an integer vector as a rational one with denominator 1.
    pub fn from_vec(v: Vec3) -> (r: RVec3)
        ensures
            r@ == (RV3 { n: v@, d: 1 }),
            r.wf(),
    {
        RVec3 { n: v, d: 1 }
    }
}

} // verus!
