//! The transform engine: resolving a vector expressed in one frame into the
//! root frame's coordinates (`frame_to_root`) and back (`root_to_frame`),
//! walking parent links through the frame arena.
//!
//! Frames are stored in an arena (`Vec<Frame>`) and refer to their parent by
//! a smaller index, so every parent chain terminates.  The engine itself
//! never fails: its preconditions ask for a well-formed arena and room in
//! the 128-bit arithmetic for the chain at hand.

use vstd::prelude::*;
use crate::vec3::{V3, v3, v3_add, v3_sub, v3_scale, v3_max, RV3, Vec3, RVec3};
use crate::quat::{Q4, q4, q_mul, q_conj, q_norm2, q_max, rot_v3, Quat, lemma_q_bounds, lemma_v3_bounds};
use crate::frame::Frame;
use crate::num::lemma_abs_mul;

verus! {

pub open spec fn arena_wf(frames: Seq<Frame>) -> bool {
    forall|i: int|
        #![trigger frames[i].wf()]
        #![trigger frames[i].spec_parent()]
        0 <= i < frames.len() ==> frames[i].wf() && (frames[i].spec_parent() is Some
            ==> frames[i].spec_parent()->0 < i)
}

/// One hop toward the root: rotate into the parent's axes (which scales
/// numerator and denominator by the squared quaternion norm) and add the
/// translation.
pub open spec fn hop_to_parent(p: V3, q: Q4, v: RV3) -> RV3 {
    let d1 = v.d * q_norm2(q);
    RV3 { n: v3_add(rot_v3(q, v.n), v3_scale(d1, p)), d: d1 }
}

/// One hop away from the root: subtract the translation, rotate by the
/// conjugate.
pub open spec fn hop_from_parent(p: V3, q: Q4, v: RV3) -> RV3 {
    RV3 { n: rot_v3(q_conj(q), v3_sub(v.n, v3_scale(v.d, p))), d: v.d * q_norm2(q) }
}

/// The vector `v`, expressed in frame `i`'s coordinates at time `t`,
/// resolved into root coordinates.
pub open spec fn frame_to_root_spec(frames: Seq<Frame>, i: int, v: RV3, t: int) -> RV3
    decreases i,
{
    let pose = frames[i].pose_spec(t);
    let w = hop_to_parent(pose.0, pose.1, v);
    match frames[i].spec_parent() {
        None => w,
        Some(pa) => if pa < i { frame_to_root_spec(frames, pa as int, w, t) } else { w },
    }
}

/// The accumulated rotation from frame `i`'s axes to the root's axes.
pub open spec fn frame_to_root_rot(frames: Seq<Frame>, i: int, t: int) -> Q4
    decreases i,
{
    let q = frames[i].pose_spec(t).1;
    match frames[i].spec_parent() {
        None => q,
        Some(pa) => if pa < i { q_mul(frame_to_root_rot(frames, pa as int, t), q) } else { q },
    }
}

/// The vector `v`, expressed in root coordinates, resolved into frame `i`'s
/// coordinates at time `t`.
pub open spec fn root_to_frame_spec(frames: Seq<Frame>, i: int, v: RV3, t: int) -> RV3
    decreases i,
{
    let pose = frames[i].pose_spec(t);
    match frames[i].spec_parent() {
        None => hop_from_parent(pose.0, pose.1, v),
        Some(pa) => if pa < i {
            hop_from_parent(pose.0, pose.1, root_to_frame_spec(frames, pa as int, v, t))
        } else {
            hop_from_parent(pose.0, pose.1, v)
        },
    }
}

/// The accumulated inverse rotation, root axes to frame `i`'s axes.
pub open spec fn root_to_frame_rot(frames: Seq<Frame>, i: int, t: int) -> Q4
    decreases i,
{
    let q = frames[i].pose_spec(t).1;
    match frames[i].spec_parent() {
        None => q_conj(q),
        Some(pa) => if pa < i {
            q_mul(q_conj(q), root_to_frame_rot(frames, pa as int, t))
        } else {
            q_conj(q)
        },
    }
}

/// Room in `i128` for one hop and the rotation accumulation at this level.
pub open spec fn hop_fits(p: V3, q: Q4, v: RV3) -> bool {
    let qm = q_max(q);
    let vm = v3_max(v.n);
    let pm = v3_max(p);
    &&& qm < 0x1_0000_0000_0000_0000
    &&& 4 * (qm * qm) <= i128::MAX
    &&& 16 * (qm * vm) <= i128::MAX
    &&& 16 * ((qm * qm) * vm) <= i128::MAX
    &&& 0 < v.d * q_norm2(q) <= i128::MAX
    &&& pm * (v.d * q_norm2(q)) <= i128::MAX
    &&& 16 * ((qm * qm) * vm) + pm * (v.d * q_norm2(q)) <= i128::MAX
}

/// Room in `i128` for the whole walk to the root.
pub open spec fn to_root_fits(frames: Seq<Frame>, i: int, v: RV3, t: int) -> bool
    decreases i,
{
    let pose = frames[i].pose_spec(t);
    let w = hop_to_parent(pose.0, pose.1, v);
    &&& hop_fits(pose.0, pose.1, v)
    &&& match frames[i].spec_parent() {
        None => true,
        Some(pa) => pa < i ==> {
            &&& to_root_fits(frames, pa as int, w, t)
            &&& 8 * (q_max(frame_to_root_rot(frames, pa as int, t)) * q_max(pose.1))
                <= i128::MAX
        },
    }
}

/// Room in `i128` for the inverse hop at this level.
pub open spec fn inv_hop_fits(p: V3, q: Q4, v: RV3) -> bool {
    let qm = q_max(q);
    let pm = v3_max(p);
    let sm = v3_max(v.n) + pm * v.d;
    &&& qm < 0x1_0000_0000_0000_0000
    &&& 4 * (qm * qm) <= i128::MAX
    &&& pm * v.d <= i128::MAX
    &&& v3_max(v.n) + pm * v.d <= i128::MAX
    &&& 16 * (qm * sm) <= i128::MAX
    &&& 16 * ((qm * qm) * sm) <= i128::MAX
    &&& 0 < v.d * q_norm2(q) <= i128::MAX
}

/// Room in `i128` for the whole walk from the root.
pub open spec fn from_root_fits(frames: Seq<Frame>, i: int, v: RV3, t: int) -> bool
    decreases i,
{
    let pose = frames[i].pose_spec(t);
    match frames[i].spec_parent() {
        None => inv_hop_fits(pose.0, pose.1, v),
        Some(pa) => pa < i ==> {
            &&& from_root_fits(frames, pa as int, v, t)
            &&& inv_hop_fits(pose.0, pose.1, root_to_frame_spec(frames, pa as int, v, t))
            &&& 8 * (q_max(q_conj(pose.1)) * q_max(root_to_frame_rot(frames, pa as int,
                t))) <= i128::MAX
        },
    }
}

/// Applies one forward hop in executable code.
fn hop_exec(pose: &crate::frame::Pose, v: &RVec3) -> (r: RVec3)
    requires
        v.wf(),
        q_norm2(pose.rotation@) > 0,
        hop_fits(pose.position@, pose.rotation@, v@),
    ensures
        r@ == hop_to_parent(pose.position@, pose.rotation@, v@),
        r.wf(),
{
    let n2 = pose.rotation.qnorm2();
    let rn = pose.rotation.rotate(&v.n);
    let d1 = v.d * n2;
    proof {
        lemma_v3_bounds(pose.position@);
        lemma_abs_mul(pose.position@.x, d1 as int, v3_max(pose.position@), d1 as int);
        lemma_abs_mul(pose.position@.y, d1 as int, v3_max(pose.position@), d1 as int);
        lemma_abs_mul(pose.position@.z, d1 as int, v3_max(pose.position@), d1 as int);
        lemma_v3_bounds(rn@);
    }
    let nx = rn.x + pose.position.x * d1;
    let ny = rn.y + pose.position.y * d1;
    let nz = rn.z + pose.position.z * d1;
    RVec3 { n: Vec3 { x: nx, y: ny, z: nz }, d: d1 }
}

/// Applies one inverse hop in executable code.
fn inv_hop_exec(pose: &crate::frame::Pose, v: &RVec3) -> (r: RVec3)
    requires
        v.wf(),
        q_norm2(pose.rotation@) > 0,
        inv_hop_fits(pose.position@, pose.rotation@, v@),
    ensures
        r@ == hop_from_parent(pose.position@, pose.rotation@, v@),
        r.wf(),
{
    proof {
        lemma_v3_bounds(pose.position@);
        lemma_abs_mul(pose.position@.x, v@.d, v3_max(pose.position@), v@.d);
        lemma_abs_mul(pose.position@.y, v@.d, v3_max(pose.position@), v@.d);
        lemma_abs_mul(pose.position@.z, v@.d, v3_max(pose.position@), v@.d);
        lemma_v3_bounds(v@.n);
        lemma_q_bounds(pose.rotation@);
    }
    let sx = v.n.x - pose.position.x * v.d;
    let sy = v.n.y - pose.position.y * v.d;
    let sz = v.n.z - pose.position.z * v.d;
    let sub = Vec3 { x: sx, y: sy, z: sz };
    proof {
        lemma_v3_bounds(sub@);
        lemma_q_bounds(q_conj(pose.rotation@));
        assert(q_max(q_conj(pose.rotation@)) == q_max(pose.rotation@));
        assert(q_norm2(q_conj(pose.rotation@)) == q_norm2(pose.rotation@))
            by (nonlinear_arith)
            requires q_conj(pose.rotation@).x == -pose.rotation@.x, q_conj(
                pose.rotation@).y == -pose.rotation@.y, q_conj(pose.rotation@).z
                == -pose.rotation@.z, q_conj(pose.rotation@).w == pose.rotation@.w,
        {}
    }
    proof {
        let qm = q_max(pose.rotation@);
        let sm = v3_max(v@.n) + v3_max(pose.position@) * v@.d;
        assert(16 * (qm * v3_max(sub@)) <= 16 * (qm * sm) && 16 * ((qm * qm) * v3_max(
            sub@)) <= 16 * ((qm * qm) * sm) && 4 * (q_max(q_conj(pose.rotation@))
            * q_max(q_conj(pose.rotation@))) == 4 * (qm * qm)) by (nonlinear_arith)
            requires
                v3_max(sub@) <= sm,
                qm >= 0,
                v3_max(sub@) >= 0,
                q_max(q_conj(pose.rotation@)) == qm,
        {}
    }
    let qc = pose.rotation.qconj();
    let rn = qc.rotate(&sub);
    let n2 = pose.rotation.qnorm2();
    let d1 = v.d * n2;
    RVec3 { n: rn, d: d1 }
}

/// Resolves `v`, expressed in frame `i` at time `t`, into root coordinates,
/// returning also the accumulated rotation from frame `i` to the root.
pub fn frame_to_root(frames: &Vec<Frame>, i: usize, v: &RVec3, t: i64) -> (r: (RVec3,
    Quat))
    requires
        arena_wf(frames@),
        i < frames@.len(),
        v.wf(),
        -0x400_0000_0000 <= t <= 0x400_0000_0000,
        to_root_fits(frames@, i as int, v@, t as int),
    ensures
        r.0@ == frame_to_root_spec(frames@, i as int, v@, t as int),
        r.1@ == frame_to_root_rot(frames@, i as int, t as int),
        r.0.wf(),
        q_norm2(r.1@) > 0,
    decreases i,
{
    let f = &frames[i];
    let pose = f.pose(t);
    let w = hop_exec(&pose, v);
    match f.parent() {
        None => (w, pose.rotation),
        Some(pa) => {
            let (rv, rq) = frame_to_root(frames, pa, &w, t);
            proof {
                crate::laws::lemma_norm2_mul_pos(rq@, pose.rotation@);
            }
            let acc = rq.qmul(&pose.rotation);
            (rv, acc)
        },
    }
}

/// Resolves `v`, expressed in root coordinates, into frame `i`'s
/// coordinates at time `t`, returning also the accumulated inverse
/// rotation.
pub fn root_to_frame(frames: &Vec<Frame>, i: usize, v: &RVec3, t: i64) -> (r: (RVec3,
    Quat))
    requires
        arena_wf(frames@),
        i < frames@.len(),
        v.wf(),
        -0x400_0000_0000 <= t <= 0x400_0000_0000,
        from_root_fits(frames@, i as int, v@, t as int),
    ensures
        r.0@ == root_to_frame_spec(frames@, i as int, v@, t as int),
        r.1@ == root_to_frame_rot(frames@, i as int, t as int),
        r.0.wf(),
        q_norm2(r.1@) > 0,
    decreases i,
{
    let f = &frames[i];
    let pose = f.pose(t);
    match f.parent() {
        None => {
            let w = inv_hop_exec(&pose, v);
            proof {
                crate::laws::lemma_norm2_conj(pose.rotation@);
            }
            let qc = pose.rotation.qconj();
            (w, qc)
        },
        Some(pa) => {
            let (pv, pq) = root_to_frame(frames, pa, v, t);
            let w = inv_hop_exec(&pose, &pv);
            proof {
                crate::laws::lemma_norm2_conj(pose.rotation@);
                crate::laws::lemma_norm2_mul_pos(q_conj(pose.rotation@), pq@);
            }
            let qc = pose.rotation.qconj();
            let acc = qc.qmul(&pq);
            (w, acc)
        },
    }
}

/// The root identity law: a parentless frame whose pose is the identity
/// returns every vector unchanged, with the identity as accumulated
/// rotation.
pub proof fn lemma_root_identity(frames: Seq<Frame>, i: int, v: RV3, t: int)
    requires
        0 <= i < frames.len(),
        frames[i].spec_parent() is None,
        frames[i].pose_spec(t) == (v3(0, 0, 0), q4(0, 0, 0, 1)),
        v.d > 0,
    ensures
        frame_to_root_spec(frames, i, v, t) == v,
        frame_to_root_rot(frames, i, t) == q4(0, 0, 0, 1),
{
    let q = q4(0, 0, 0, 1);
    crate::quat::lemma_rot_scalar(1, v.n);
    assert(q_norm2(q) == 1);
    assert(rot_v3(q, v.n) == v3(1 * 1 * v.n.x, 1 * 1 * v.n.y, 1 * 1 * v.n.z));
    assert(rot_v3(q, v.n) == v3(v.n.x, v.n.y, v.n.z));
    let d1 = v.d * q_norm2(q);
    assert(d1 == v.d) by (nonlinear_arith)
        requires d1 == v.d * 1,
    {}
    assert(v3_scale(d1, v3(0, 0, 0)) == v3(d1 * 0, d1 * 0, d1 * 0));
    assert(d1 * 0 == 0) by (nonlinear_arith);
    assert(v3_scale(d1, v3(0, 0, 0)) == v3(0, 0, 0));
    assert(hop_to_parent(v3(0, 0, 0), q, v).n == v3_add(v3(v.n.x, v.n.y, v.n.z), v3(0,
        0, 0)));
    assert(hop_to_parent(v3(0, 0, 0), q, v).n == v3(v.n.x, v.n.y, v.n.z));
    assert(v.n == v3(v.n.x, v.n.y, v.n.z));
    assert(v == RV3 { n: v.n, d: v.d });
    assert(hop_to_parent(v3(0, 0, 0), q, v) == v);
    assert(frame_to_root_spec(frames, i, v, t) == hop_to_parent(v3(0, 0, 0), q, v));
}

} // verus!
