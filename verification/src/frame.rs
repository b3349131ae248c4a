//! Frames: a pose (translation plus rotation quaternion), and the two frame
//! kinds — fixed offset and constant-angular-velocity spin — with their
//! time-to-pose functions.
//!
//! Angles are in nanoradians, angular rates in picoradians per second, times
//! in milliseconds, lengths in thousandths of a kilometre.  The sine and
//! cosine used for spin and topocentric construction are fixed-point
//! polynomial approximations whose exact value the contracts state.

use vstd::prelude::*;
use crate::num::{tdiv, div_t, mod_e, isqrt, sqrt_floor, lemma_abs_mul, lemma_tdiv_bound, lemma_sq_le_bound};
use crate::vec3::{V3, v3, v3_norm2, v3_max, Vec3};
use crate::quat::{Q4, q4, q_mul, q_norm2, q_max, q_reduce, Quat, QSCALE};

verus! {

/// One fixed-point unit of angle scale: nanoradians per radian.
pub const ANG_ONE: i128 = 1_000_000_000;

pub const TWO_PI_NANO: i128 = 6_283_185_307;

pub const PI_NANO: i128 = 3_141_592_653;

pub const HALF_PI_NANO: i128 = 1_570_796_326;

/// Earth's mean rotation rate, in picoradians per second.
pub const EARTH_ROT_RATE_PICO: i128 = 72_921_150;

/// Earth's radius, in thousandths of a kilometre.
pub const EARTH_RADIUS_MKM: i128 = 6_371_000;

/// Degree-seven polynomial for sine on `[0, pi/2]`, Horner form, truncating
/// at each step; result is scaled by `ANG_ONE` and clamped to it.
pub open spec fn sin_fx(x: int) -> int {
    let x2 = tdiv(x * x, ANG_ONE as int);
    let h1 = ANG_ONE - tdiv(x2, 42);
    let h2 = ANG_ONE - tdiv(x2 * h1, 20 * (ANG_ONE as int));
    let h3 = ANG_ONE - tdiv(x2 * h2, 6 * (ANG_ONE as int));
    let s = tdiv(x * h3, ANG_ONE as int);
    if s > ANG_ONE { ANG_ONE as int } else { s }
}

/// Degree-six polynomial for cosine on `[0, pi/2]`, same conventions.
pub open spec fn cos_fx(x: int) -> int {
    let x2 = tdiv(x * x, ANG_ONE as int);
    let k1 = ANG_ONE - tdiv(x2, 30);
    let k2 = ANG_ONE - tdiv(x2 * k1, 12 * (ANG_ONE as int));
    let c = ANG_ONE - tdiv(x2 * k2, 2 * (ANG_ONE as int));
    if c > ANG_ONE { ANG_ONE as int } else { c }
}

pub fn sin_exec(x: i128) -> (r: i128)
    requires
        0 <= x <= HALF_PI_NANO + 2,
    ensures
        r == sin_fx(x as int),
        0 <= r <= ANG_ONE,
{
    proof {
        assert(x * x <= 1_600_000_000 * 1_600_000_000) by (nonlinear_arith)
            requires 0 <= x <= 1_600_000_000,
        {}
        assert(x * x >= 0) by (nonlinear_arith);
        lemma_tdiv_bound(x * x, ANG_ONE as int, 2_560_000_000);
    }
    let x2 = div_t(x * x, ANG_ONE);
    proof {
        lemma_tdiv_bound(x2 as int, 42, 61_000_000);
        vstd::arithmetic::div_mod::lemma_div_pos_is_pos(x2 as int, 42);
    }
    let h1 = ANG_ONE - div_t(x2, 42);
    proof {
        lemma_abs_mul(x2 as int, h1 as int, 2_560_000_000, ANG_ONE as int);
        lemma_tdiv_bound(x2 * h1, 20 * ANG_ONE as int, 128_000_000);
        assert(x2 * h1 >= 0) by (nonlinear_arith)
            requires x2 >= 0, h1 >= 0,
        {}
        vstd::arithmetic::div_mod::lemma_div_pos_is_pos((x2 * h1) as int, 20 * ANG_ONE as int);
    }
    let h2 = ANG_ONE - div_t(x2 * h1, 20 * ANG_ONE);
    proof {
        lemma_abs_mul(x2 as int, h2 as int, 2_560_000_000, ANG_ONE as int);
        lemma_tdiv_bound(x2 * h2, 6 * ANG_ONE as int, 427_000_000);
        assert(x2 * h2 >= 0) by (nonlinear_arith)
            requires x2 >= 0, h2 >= 0,
        {}
        vstd::arithmetic::div_mod::lemma_div_pos_is_pos((x2 * h2) as int, 6 * ANG_ONE as int);
    }
    let h3 = ANG_ONE - div_t(x2 * h2, 6 * ANG_ONE);
    proof {
        lemma_abs_mul(x as int, h3 as int, 1_600_000_000, ANG_ONE as int);
        lemma_tdiv_bound(x * h3, ANG_ONE as int, 1_600_000_000);
        assert(x * h3 >= 0) by (nonlinear_arith)
            requires x >= 0, h3 >= 0,
        {}
        vstd::arithmetic::div_mod::lemma_div_pos_is_pos((x * h3) as int, ANG_ONE as int);
    }
    let s = div_t(x * h3, ANG_ONE);
    if s > ANG_ONE {
        ANG_ONE
    } else {
        s
    }
}

pub fn cos_exec(x: i128) -> (r: i128)
    requires
        0 <= x <= HALF_PI_NANO + 2,
    ensures
        r == cos_fx(x as int),
        -ANG_ONE <= r <= ANG_ONE,
{
    proof {
        assert(x * x <= 1_600_000_000 * 1_600_000_000) by (nonlinear_arith)
            requires 0 <= x <= 1_600_000_000,
        {}
        assert(x * x >= 0) by (nonlinear_arith);
        lemma_tdiv_bound(x * x, ANG_ONE as int, 2_560_000_000);
    }
    let x2 = div_t(x * x, ANG_ONE);
    proof {
        lemma_tdiv_bound(x2 as int, 30, 86_000_000);
        vstd::arithmetic::div_mod::lemma_div_pos_is_pos(x2 as int, 30);
    }
    let k1 = ANG_ONE - div_t(x2, 30);
    proof {
        lemma_abs_mul(x2 as int, k1 as int, 2_560_000_000, ANG_ONE as int);
        lemma_tdiv_bound(x2 * k1, 12 * ANG_ONE as int, 214_000_000);
        assert(x2 * k1 >= 0) by (nonlinear_arith)
            requires x2 >= 0, k1 >= 0,
        {}
        vstd::arithmetic::div_mod::lemma_div_pos_is_pos((x2 * k1) as int, 12 * ANG_ONE as int);
    }
    let k2 = ANG_ONE - div_t(x2 * k1, 12 * ANG_ONE);
    proof {
        lemma_abs_mul(x2 as int, k2 as int, 2_560_000_000, ANG_ONE as int);
        lemma_tdiv_bound(x2 * k2, 2 * ANG_ONE as int, 1_280_000_000);
        assert(x2 * k2 >= 0) by (nonlinear_arith)
            requires x2 >= 0, k2 >= 0,
        {}
        vstd::arithmetic::div_mod::lemma_div_pos_is_pos((x2 * k2) as int, 2 * ANG_ONE as int);
    }
    let c = ANG_ONE - div_t(x2 * k2, 2 * ANG_ONE);
    if c > ANG_ONE {
        ANG_ONE
    } else {
        c
    }
}

/// Signed sine/cosine over `[-pi, pi]`, via oddness of sine, evenness of
/// cosine, and the supplement identities above `pi/2`.
pub open spec fn sin_full(x: int) -> int {
    let a = if x >= 0 { x } else { -x };
    let s = if a > HALF_PI_NANO + 1 { sin_fx(PI_NANO - a) } else { sin_fx(a) };
    if x >= 0 { s } else { -s }
}

pub open spec fn cos_full(x: int) -> int {
    let a = if x >= 0 { x } else { -x };
    if a > HALF_PI_NANO + 1 { -cos_fx(PI_NANO - a) } else { cos_fx(a) }
}

pub fn sin_cos_full(x: i128) -> (r: (i128, i128))
    requires
        -PI_NANO <= x <= PI_NANO,
    ensures
        r.0 == sin_full(x as int),
        r.1 == cos_full(x as int),
        -ANG_ONE <= r.0 <= ANG_ONE,
        -ANG_ONE <= r.1 <= ANG_ONE,
{
    let a = if x >= 0 { x } else { -x };
    let (s, c) = if a > HALF_PI_NANO + 1 {
        (sin_exec(PI_NANO - a), -cos_exec(PI_NANO - a))
    } else {
        (sin_exec(a), cos_exec(a))
    };
    if x >= 0 {
        (s, c)
    } else {
        (-s, c)
    }
}

/// A rigid placement: translation in the parent's coordinates plus a
/// rotation quaternion (read projectively, so only the ray matters).
#[derive(Clone, Copy, Debug)]
pub struct Pose {
    pub position: Vec3,
    pub rotation: Quat,
}

impl Pose {
    pub open spec fn wf(self) -> bool {
        q_norm2(self.rotation@) > 0
    }

    pub fn identity() -> (r: Pose)
        ensures
            r.position@ == v3(0, 0, 0),
            r.rotation@ == q4(0, 0, 0, 1),
            r.wf(),
    {
        Pose { position: Vec3::zero(), rotation: Quat::identity() }
    }
}

/// Fixed-offset frame: its pose does not depend on time.  `parent` is an
/// index into the frame arena; `None` marks a root frame.
pub struct FixedFrame {
    pub name: String,
    pub parent: Option<usize>,
    pub offset: Pose,
}

/// Constant-angular-velocity frame: spins about `omega` (picoradians per
/// second) relative to the reference orientation `q0` held at time `t0`
/// (milliseconds).  Its translation is always zero: it models pure spin.
pub struct RotatingFrame {
    pub name: String,
    pub parent: usize,
    pub omega: Vec3,
    pub t0: i64,
    pub q0: Quat,
}

/// The spin quaternion accumulated between `t0` and `t`, already composed
/// with `q0`: mirrors the executable computation exactly.
pub open spec fn spin_rotation(omega: V3, t0: int, q0: Q4, t: int) -> Q4 {
    let rate = sqrt_floor(v3_norm2(omega) as nat) as int;
    let theta = tdiv(rate * (t - t0), 1_000_000);
    let m = theta % (TWO_PI_NANO as int);
    let em = if m > PI_NANO { m - TWO_PI_NANO } else { m };
    if em == 0 {
        q0
    } else {
        let half = tdiv(em, 2);
        let ha = if half >= 0 { half } else { -half };
        let s0 = sin_fx(ha);
        let s = if half >= 0 { s0 } else { -s0 };
        let c = cos_fx(ha);
        let spin = q4(
            tdiv(omega.x * s, rate),
            tdiv(omega.y * s, rate),
            tdiv(omega.z * s, rate),
            c,
        );
        if q_norm2(spin) == 0 {
            q0
        } else {
            let rot = q_mul(spin, q0);
            if q_norm2(rot) == 0 {
                q0
            } else {
                q_reduce(rot)
            }
        }
    }
}

impl RotatingFrame {
    pub open spec fn wf(self) -> bool {
        &&& v3_max(self.omega@) <= 0x4_0000_0000_0000
        &&& -0x400_0000_0000 <= self.t0 <= 0x400_0000_0000
        &&& q_max(self.q0@) <= 0x2000
        &&& q_norm2(self.q0@) > 0
    }

    pub fn new(name: String, parent: usize, omega: Vec3, t0: i64, q0: Quat) -> (r:
        RotatingFrame)
        ensures
            r.name == name,
            r.parent == parent,
            r.omega == omega,
            r.t0 == t0,
            r.q0 == q0,
    {
        RotatingFrame { name, parent, omega, t0, q0 }
    }

    /// Earth-fixed specialization: spin about `+Z` at Earth's mean rate,
    /// identity reference orientation.  The conventional name ("ECEF") is
    /// supplied by the caller rather than fixed here: the command layer
    /// passes the registry identifier, so the frame's name matches the key
    /// it is stored under.
    pub fn ecef(name: String, parent: usize, t0: i64) -> (r: RotatingFrame)
        ensures
            r.name == name,
            r.parent == parent,
            r.t0 == t0,
            r.omega@ == v3(0, 0, EARTH_ROT_RATE_PICO as int),
            r.q0@ == q4(0, 0, 0, 1),
            -0x400_0000_0000 <= t0 <= 0x400_0000_0000 ==> r.wf(),
    {
        RotatingFrame {
            name,
            parent,
            omega: Vec3::new(0, 0, EARTH_ROT_RATE_PICO),
            t0,
            q0: Quat::identity(),
        }
    }

    /// Pose at time `t`: zero translation, spin composed with `q0`.
    /// A zero angular velocity — or a spin angle that reduces to zero, in
    /// particular at `t == t0` and after whole revolutions — leaves the
    /// reference orientation untouched.
    pub fn pose(&self, t: i64) -> (r: Pose)
        requires
            self.wf(),
            -0x400_0000_0000 <= t <= 0x400_0000_0000,
        ensures
            r.position@ == v3(0, 0, 0),
            v3_norm2(self.omega@) == 0 ==> r.rotation@ == self.q0@,
            v3_norm2(self.omega@) != 0 ==> r.rotation@ == spin_rotation(
                self.omega@, self.t0 as int, self.q0@, t as int),
            t == self.t0 ==> r.rotation@ == self.q0@,
            r.wf(),
    {
        proof {
            crate::quat::lemma_v3_bounds(self.omega@);
            lemma_abs_mul(self.omega@.x, self.omega@.x, 0x4_0000_0000_0000,
                0x4_0000_0000_0000);
            lemma_abs_mul(self.omega@.y, self.omega@.y, 0x4_0000_0000_0000,
                0x4_0000_0000_0000);
            lemma_abs_mul(self.omega@.z, self.omega@.z, 0x4_0000_0000_0000,
                0x4_0000_0000_0000);
            assert(self.omega@.x * self.omega@.x >= 0) by (nonlinear_arith);
            assert(self.omega@.y * self.omega@.y >= 0) by (nonlinear_arith);
            assert(self.omega@.z * self.omega@.z >= 0) by (nonlinear_arith);
        }
        let n2w = self.omega.x * self.omega.x + self.omega.y * self.omega.y + self.omega.z
            * self.omega.z;
        if n2w == 0 {
            return Pose { position: Vec3::zero(), rotation: self.q0 };
        }
        let rate = isqrt(n2w as u128) as i128;
        proof {
            assert(rate >= 1) by (nonlinear_arith)
                requires rate >= 0, (n2w as int) >= 1, (n2w as int) < (rate + 1) * (rate
                    + 1),
            {}
            lemma_abs_mul(rate as int, (t - self.t0) as int, 0x8000_0000_0000_0000,
                0x800_0000_0000);
        }
        let theta = div_t(rate * ((t as i128) - (self.t0 as i128)), 1_000_000);
        proof {
            if t == self.t0 {
                assert(rate * ((t as i128) - (self.t0 as i128)) == 0) by (nonlinear_arith)
                    requires ((t as i128) - (self.t0 as i128)) == 0,
                {}
                vstd::arithmetic::div_mod::lemma_div_of0(1_000_000);
            }
        }
        let m = mod_e(theta, TWO_PI_NANO);
        proof {
            if theta == 0 {
                vstd::arithmetic::div_mod::lemma_small_mod(0nat, TWO_PI_NANO as nat);
            }
        }
        let em = if m > PI_NANO { m - TWO_PI_NANO } else { m };
        if em == 0 {
            return Pose { position: Vec3::zero(), rotation: self.q0 };
        }
        let half = div_t(em, 2);
        proof {
            lemma_tdiv_bound(em as int, 2, HALF_PI_NANO as int + 1);
        }
        let ha = if half >= 0 { half } else { -half };
        let s0 = sin_exec(ha);
        let s = if half >= 0 { s0 } else { -s0 };
        let c = cos_exec(ha);
        proof {
            lemma_sq_le_bound(self.omega@.x, n2w as int, rate as int);
            lemma_sq_le_bound(self.omega@.y, n2w as int, rate as int);
            lemma_sq_le_bound(self.omega@.z, n2w as int, rate as int);
            lemma_abs_mul(self.omega@.x, s as int, rate as int, ANG_ONE as int);
            lemma_abs_mul(self.omega@.y, s as int, rate as int, ANG_ONE as int);
            lemma_abs_mul(self.omega@.z, s as int, rate as int, ANG_ONE as int);
            assert(rate * ANG_ONE == ANG_ONE * rate) by (nonlinear_arith);
            lemma_tdiv_bound(self.omega@.x * (s as int), rate as int, ANG_ONE as int);
            lemma_tdiv_bound(self.omega@.y * (s as int), rate as int, ANG_ONE as int);
            lemma_tdiv_bound(self.omega@.z * (s as int), rate as int, ANG_ONE as int);
        }
        let spin = Quat {
            x: div_t(self.omega.x * s, rate),
            y: div_t(self.omega.y * s, rate),
            z: div_t(self.omega.z * s, rate),
            w: c,
        };
        proof {
            assert(4 * (q_max(spin@) * q_max(spin@)) <= 4 * (ANG_ONE * ANG_ONE))
                by (nonlinear_arith)
                requires 0 <= q_max(spin@) <= ANG_ONE,
            {}
        }
        let sn2 = spin.qnorm2();
        if sn2 == 0 {
            return Pose { position: Vec3::zero(), rotation: self.q0 };
        }
        proof {
            assert(8 * (q_max(spin@) * q_max(self.q0@)) <= 8 * (ANG_ONE * 0x2000))
                by (nonlinear_arith)
                requires 0 <= q_max(spin@) <= ANG_ONE, 0 <= q_max(self.q0@) <= 0x2000,
            {}
        }
        let rot = spin.qmul(&self.q0);
        proof {
            assert(4 * (q_max(rot@) * q_max(rot@)) <= i128::MAX) by (nonlinear_arith)
                requires 0 <= q_max(rot@) <= 4 * (ANG_ONE * 0x2000),
            {}
            assert(q_max(spin@) * q_max(self.q0@) <= ANG_ONE * 0x2000) by (nonlinear_arith)
                requires 0 <= q_max(spin@) <= ANG_ONE, 0 <= q_max(self.q0@) <= 0x2000,
            {}
        }
        let rn2 = rot.qnorm2();
        if rn2 == 0 {
            return Pose { position: Vec3::zero(), rotation: self.q0 };
        }
        proof {
            assert(q_max(rot@) <= 0x2000_0000_0000_0000);
        }
        let rotr = rot.qreduce();
        Pose { position: Vec3::zero(), rotation: rotr }
    }
}

impl FixedFrame {
    pub open spec fn wf(self) -> bool {
        &&& q_max(self.offset.rotation@) <= 0x2000_0000_0000_0000
        &&& q_norm2(self.offset.rotation@) > 0
    }

    pub fn new(name: String, parent: Option<usize>, offset: Pose) -> (r: FixedFrame)
        ensures
            r.name == name,
            r.parent == parent,
            r.offset == offset,
    {
        FixedFrame { name, parent, offset }
    }

    /// The canonical inertial root: no parent, zero translation, identity
    /// rotation.  The conventional name ("ECI") is supplied by the caller
    /// rather than fixed here: the command layer passes the registry
    /// identifier, so the frame's name matches the key it is stored under.
    pub fn eci(name: String) -> (r: FixedFrame)
        ensures
            r.name == name,
            r.parent is None,
            r.offset.position@ == v3(0, 0, 0),
            r.offset.rotation@ == q4(0, 0, 0, 1),
            r.wf(),
    {
        FixedFrame { name, parent: None, offset: Pose::identity() }
    }

    /// Topocentric South-East-Zenith frame at geodetic-style latitude and
    /// longitude (nanoradians) and altitude (thousandths of a kilometre)
    /// above a sphere of Earth's radius.  The rotation composes a spin about
    /// `+Z` by the longitude with a spin about `+Y` by the colatitude, which
    /// is the matrix whose columns are the South, East and Zenith unit
    /// vectors expressed in the parent's axes.
    pub fn sez(name: String, parent: usize, lat: i64, lon: i64, alt: i64) -> (r:
        FixedFrame)
        requires
            -(HALF_PI_NANO as int) <= lat <= HALF_PI_NANO as int,
            -(PI_NANO as int) <= lon <= PI_NANO as int,
            -EARTH_RADIUS_MKM < alt <= 0x1000_0000_0000,
        ensures
            r.name == name,
            r.parent == Some(parent),
            r.offset.position@ == sez_position(lat as int, lon as int, alt as int),
            r.offset.rotation@ == sez_rotation(lat as int, lon as int),
            r.wf(),
    {
        let radius = EARTH_RADIUS_MKM + (alt as i128);
        let (slat, clat) = sin_cos_full(lat as i128);
        let (slon, clon) = sin_cos_full(lon as i128);
        proof {
            lemma_abs_mul(radius as int, clat as int, 0x2000_0000_0000, ANG_ONE as int);
            lemma_tdiv_bound(radius * clat, ANG_ONE as int, 0x2000_0000_0000);
            lemma_abs_mul(radius as int, slat as int, 0x2000_0000_0000, ANG_ONE as int);
            lemma_tdiv_bound(radius * slat, ANG_ONE as int, 0x2000_0000_0000);
        }
        let t1 = div_t(radius * clat, ANG_ONE);
        proof {
            lemma_abs_mul(t1 as int, clon as int, 0x2000_0000_0000, ANG_ONE as int);
            lemma_tdiv_bound(t1 * clon, ANG_ONE as int, 0x2000_0000_0000);
            lemma_abs_mul(t1 as int, slon as int, 0x2000_0000_0000, ANG_ONE as int);
            lemma_tdiv_bound(t1 * slon, ANG_ONE as int, 0x2000_0000_0000);
        }
        let position = Vec3 {
            x: div_t(t1 * clon, ANG_ONE),
            y: div_t(t1 * slon, ANG_ONE),
            z: div_t(radius * slat, ANG_ONE),
        };
        let rotation = sez_quat(lat, lon);
        FixedFrame {
            name,
            parent: Some(parent),
            offset: Pose { position, rotation },
        }
    }

    /// Pose of a fixed frame: its stored offset, at every time.
    pub fn pose(&self) -> (r: Pose)
        ensures
            r == self.offset,
    {
        Pose { position: self.offset.position, rotation: self.offset.rotation }
    }
}

/// Position of the SEZ origin in the parent frame: the point at the given
/// latitude and longitude on the sphere of Earth radius plus altitude.
pub open spec fn sez_position(lat: int, lon: int, alt: int) -> V3 {
    let radius = EARTH_RADIUS_MKM + alt;
    let t1 = tdiv(radius * cos_full(lat), ANG_ONE as int);
    v3(
        tdiv(t1 * cos_full(lon), ANG_ONE as int),
        tdiv(t1 * sin_full(lon), ANG_ONE as int),
        tdiv(radius * sin_full(lat), ANG_ONE as int),
    )
}

/// Rotation of the SEZ frame relative to the parent: spin about `+Z` by the
/// longitude composed with spin about `+Y` by the colatitude, renormalized.
pub open spec fn sez_rotation(lat: int, lon: int) -> Q4 {
    let hz = tdiv(lon, 2);
    let qz = q4(0, 0, tdiv(sin_full(hz) * QSCALE, ANG_ONE as int), tdiv(cos_full(hz) * QSCALE,
        ANG_ONE as int));
    let hy = tdiv(HALF_PI_NANO - lat, 2);
    let qy = q4(0, tdiv(sin_full(hy) * QSCALE, ANG_ONE as int), 0, tdiv(cos_full(hy) * QSCALE,
        ANG_ONE as int));
    let q = q_mul(qz, qy);
    if q_norm2(q) == 0 {
        q4(0, 0, 0, 1)
    } else {
        q
    }
}

/// Executable counterpart of `sez_rotation`.
fn sez_quat(lat: i64, lon: i64) -> (r: Quat)
    requires
        -(HALF_PI_NANO as int) <= lat <= HALF_PI_NANO as int,
        -(PI_NANO as int) <= lon <= PI_NANO as int,
    ensures
        r@ == sez_rotation(lat as int, lon as int),
        q_norm2(r@) > 0,
        q_max(r@) <= 4 * (QSCALE * QSCALE),
{
    let hz = div_t(lon as i128, 2);
    proof {
        lemma_tdiv_bound(lon as int, 2, PI_NANO as int);
    }
    let (sz, cz) = sin_cos_full(hz);
    proof {
        lemma_abs_mul(sz as int, QSCALE as int, ANG_ONE as int, QSCALE as int);
        lemma_tdiv_bound(sz * QSCALE, ANG_ONE as int, QSCALE as int);
        lemma_abs_mul(cz as int, QSCALE as int, ANG_ONE as int, QSCALE as int);
        lemma_tdiv_bound(cz * QSCALE, ANG_ONE as int, QSCALE as int);
    }
    let qz = Quat { x: 0, y: 0, z: div_t(sz * QSCALE, ANG_ONE), w: div_t(cz * QSCALE,
        ANG_ONE) };
    let hy = div_t(HALF_PI_NANO - (lat as i128), 2);
    proof {
        lemma_tdiv_bound((HALF_PI_NANO - lat) as int, 2, PI_NANO as int);
    }
    let (sy, cy) = sin_cos_full(hy);
    proof {
        lemma_abs_mul(sy as int, QSCALE as int, ANG_ONE as int, QSCALE as int);
        lemma_tdiv_bound(sy * QSCALE, ANG_ONE as int, QSCALE as int);
        lemma_abs_mul(cy as int, QSCALE as int, ANG_ONE as int, QSCALE as int);
        lemma_tdiv_bound(cy * QSCALE, ANG_ONE as int, QSCALE as int);
    }
    let qy = Quat { x: 0, y: div_t(sy * QSCALE, ANG_ONE), z: 0, w: div_t(cy * QSCALE,
        ANG_ONE) };
    proof {
        assert(8 * (q_max(qz@) * q_max(qy@)) <= 8 * (QSCALE * QSCALE))
            by (nonlinear_arith)
            requires 0 <= q_max(qz@) <= QSCALE, 0 <= q_max(qy@) <= QSCALE,
        {}
    }
    let q = qz.qmul(&qy);
    proof {
        assert(4 * (q_max(q@) * q_max(q@)) <= 4 * ((4 * (QSCALE * QSCALE)) * (4 * (QSCALE
            * QSCALE)))) by (nonlinear_arith)
            requires 0 <= q_max(q@) <= 4 * (QSCALE * QSCALE),
        {}
    }
    proof {
        assert(4 * (q_max(q@) * q_max(q@)) <= i128::MAX) by (nonlinear_arith)
            requires 0 <= q_max(q@) <= 4 * (QSCALE * QSCALE),
        {}
    }
    let n2 = q.qnorm2();
    if n2 == 0 {
        Quat::identity()
    } else {
        q
    }
}

/// A frame: one of the two concrete kinds, stored in the arena.
pub enum Frame {
    Fixed(FixedFrame),
    Rotating(RotatingFrame),
}

impl Frame {
    pub open spec fn wf(self) -> bool {
        match self {
            Frame::Fixed(f) => f.wf(),
            Frame::Rotating(f) => f.wf(),
        }
    }

    /// Arena index of the parent, if any.
    pub open spec fn spec_parent(self) -> Option<usize> {
        match self {
            Frame::Fixed(f) => f.parent,
            Frame::Rotating(f) => Some(f.parent),
        }
    }

    pub fn parent(&self) -> (r: Option<usize>)
        ensures
            r == self.spec_parent(),
    {
        match self {
            Frame::Fixed(f) => f.parent,
            Frame::Rotating(f) => Some(f.parent),
        }
    }

    pub fn name(&self) -> (r: &String)
        ensures
            r == match *self {
                Frame::Fixed(f) => f.name,
                Frame::Rotating(f) => f.name,
            },
    {
        match self {
            Frame::Fixed(f) => &f.name,
            Frame::Rotating(f) => &f.name,
        }
    }

    /// Mirror of `pose` at the specification level.
    pub open spec fn pose_spec(self, t: int) -> (V3, Q4) {
        match self {
            Frame::Fixed(f) => (f.offset.position@, f.offset.rotation@),
            Frame::Rotating(f) => (
                v3(0, 0, 0),
                if v3_norm2(f.omega@) == 0 {
                    f.q0@
                } else {
                    spin_rotation(f.omega@, f.t0 as int, f.q0@, t)
                },
            ),
        }
    }

    /// Pose of this frame relative to its parent at time `t`; pure in
    /// `(self, t)`.
    pub fn pose(&self, t: i64) -> (r: Pose)
        requires
            self.wf(),
            -0x400_0000_0000 <= t <= 0x400_0000_0000,
        ensures
            r.position@ == self.pose_spec(t as int).0,
            r.rotation@ == self.pose_spec(t as int).1,
            r.wf(),
    {
        match self {
            Frame::Fixed(f) => f.pose(),
            Frame::Rotating(f) => f.pose(t),
        }
    }
}

} // verus!
