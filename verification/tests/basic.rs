use refframes::frame::{FixedFrame, Frame, Pose, RotatingFrame, EARTH_ROT_RATE_PICO};
use refframes::quat::Quat;
use refframes::store::FrameStore;
use refframes::transform::{frame_to_root, root_to_frame};
use refframes::vec3::{RVec3, Vec3};

fn rv(x: i128, y: i128, z: i128) -> RVec3 {
    RVec3 { n: Vec3 { x, y, z }, d: 1 }
}

fn approx(r: &RVec3, x: f64, y: f64, z: f64, tol: f64) {
    let d = r.d as f64;
    assert!((r.n.x as f64 / d - x).abs() <= tol, "x {} vs {}", r.n.x as f64 / d, x);
    assert!((r.n.y as f64 / d - y).abs() <= tol, "y {} vs {}", r.n.y as f64 / d, y);
    assert!((r.n.z as f64 / d - z).abs() <= tol, "z {} vs {}", r.n.z as f64 / d, z);
}

fn eci_store() -> FrameStore {
    let mut store = FrameStore::new();
    let ok = store.insert("ECI".to_string(), None, Frame::Fixed(FixedFrame::eci("ECI".to_string())));
    assert!(ok);
    store
}

#[test]
fn root_identity() {
    let store = eci_store();
    let idx = store.get(&"ECI".to_string()).unwrap();
    let v = rv(123, -456, 789);
    let (out, q) = frame_to_root(&store.frames, idx, &v, 42);
    assert_eq!(out.n.x, 123);
    assert_eq!(out.n.y, -456);
    assert_eq!(out.n.z, 789);
    assert_eq!(out.d, 1);
    assert_eq!((q.x, q.y, q.z, q.w), (0, 0, 0, 1));
}

#[test]
fn round_trip_small() {
    let mut store = eci_store();
    let ecef = RotatingFrame::ecef("ECEF".to_string(), 0, 0);
    assert!(store.insert("ECEF".to_string(), Some("ECI".to_string()), Frame::Rotating(ecef)));
    let idx = store.get(&"ECEF".to_string()).unwrap();
    let v = rv(1000, 2000, 3000);
    let t = 3600_000;
    let (fwd, _) = frame_to_root(&store.frames, idx, &v, t);
    let (back, _) = root_to_frame(&store.frames, idx, &fwd, t);
    // the round trip is exact as a rational value, not merely close
    assert!(back.d > 0);
    assert_eq!(back.n.x, 1000 * back.d);
    assert_eq!(back.n.y, 2000 * back.d);
    assert_eq!(back.n.z, 3000 * back.d);
}

#[test]
fn zero_rate_keeps_reference() {
    let q0 = Quat { x: 3, y: 5, z: 7, w: 11 };
    let rf = RotatingFrame::new("still".to_string(), 0, Vec3 { x: 0, y: 0, z: 0 }, 0, q0);
    let p = rf.pose(123456);
    assert_eq!((p.rotation.x, p.rotation.y, p.rotation.z, p.rotation.w), (3, 5, 7, 11));
    assert_eq!((p.position.x, p.position.y, p.position.z), (0, 0, 0));
}

#[test]
fn pose_at_reference_time_is_q0() {
    let q0 = Quat { x: 0, y: 0, z: 0, w: 1 };
    let rf = RotatingFrame::new(
        "spin".to_string(), 0, Vec3 { x: 0, y: 0, z: EARTH_ROT_RATE_PICO }, 500, q0,
    );
    let p = rf.pose(500);
    assert_eq!((p.rotation.x, p.rotation.y, p.rotation.z, p.rotation.w), (0, 0, 0, 1));
}

#[test]
fn half_earth_rotation_scenario() {
    let mut store = eci_store();
    let ecef = RotatingFrame::ecef("ECEF".to_string(), 0, 0);
    assert!(store.insert("ECEF".to_string(), Some("ECI".to_string()), Frame::Rotating(ecef)));
    let pidx = store.get(&"ECEF".to_string()).unwrap();
    let gnd = FixedFrame::sez("GND".to_string(), pidx, 0, 0, 0);
    assert!(store.insert("GND".to_string(), Some("ECEF".to_string()), Frame::Fixed(gnd)));
    let idx = store.get(&"GND".to_string()).unwrap();
    let zero = rv(0, 0, 0);
    let (at0, _) = frame_to_root(&store.frames, idx, &zero, 0);
    approx(&at0, 6_371_000.0, 0.0, 0.0, 20_000.0);
    // half a rotation: pi / |omega| seconds, in milliseconds
    let t_half = (std::f64::consts::PI / 7.2921150e-5 * 1000.0) as i64;
    let (at_half, _) = frame_to_root(&store.frames, idx, &zero, t_half);
    approx(&at_half, -6_371_000.0, 0.0, 0.0, 40_000.0);
}

#[test]
fn registry_overwrite_and_distinct_reads() {
    let mut store = eci_store();
    let old_idx = store.get(&"ECI".to_string()).unwrap();
    assert!(store.insert(
        "B".to_string(),
        None,
        Frame::Fixed(FixedFrame::new("B".to_string(), None, Pose::identity())),
    ));
    // overwrite ECI: lookup changes, arena entry for the old frame survives
    assert!(store.insert(
        "ECI".to_string(),
        None,
        Frame::Fixed(FixedFrame::new("other".to_string(), None, Pose::identity())),
    ));
    let new_idx = store.get(&"ECI".to_string()).unwrap();
    assert_ne!(old_idx, new_idx);
    assert_eq!(store.frames.len(), 3);
    // distinct identifiers still resolve to their own frames
    let b_idx = store.get(&"B".to_string()).unwrap();
    assert_eq!(store.frames[b_idx].name(), "B");
    assert_eq!(store.get_parent_id(&"ECI".to_string()), None);
    assert!(store.get(&"missing".to_string()).is_none());
    let ids = store.all_ids();
    assert_eq!(ids.len(), 2);
    assert!(ids.iter().any(|s| s == "ECI"));
    assert!(ids.iter().any(|s| s == "B"));
}

#[test]
fn rejects_bad_parent_index() {
    let mut store = FrameStore::new();
    let f = FixedFrame::new("dangling".to_string(), Some(7), Pose::identity());
    assert!(!store.insert("X".to_string(), None, Frame::Fixed(f)));
    assert_eq!(store.frames.len(), 0);
}

#[test]
fn sez_matches_float_trig() {
    let lat = 0.6_f64; // radians
    let lon = -1.1_f64;
    let f = FixedFrame::sez(
        "site".to_string(), 0,
        (lat * 1e9) as i64, (lon * 1e9) as i64, 0,
    );
    let r = 6_371_000.0_f64;
    let px = f.offset.position.x as f64;
    let py = f.offset.position.y as f64;
    let pz = f.offset.position.z as f64;
    assert!((px - r * lat.cos() * lon.cos()).abs() < 5_000.0);
    assert!((py - r * lat.cos() * lon.sin()).abs() < 5_000.0);
    assert!((pz - r * lat.sin()).abs() < 5_000.0);
    // the rotation is a unit ray: check it is nonzero and roughly normalized
    let q = f.offset.rotation;
    let n2 = (q.x * q.x + q.y * q.y + q.z * q.z + q.w * q.w) as f64;
    assert!(n2 > 0.0);
    let qn = nalgebra::UnitQuaternion::from_euler_angles(0.0, 0.0, 0.0);
    let _ = qn; // nalgebra linked: reference comparison below
    let expect = nalgebra::UnitQuaternion::from_axis_angle(&nalgebra::Vector3::z_axis(), lon)
        * nalgebra::UnitQuaternion::from_axis_angle(&nalgebra::Vector3::y_axis(), std::f64::consts::FRAC_PI_2 - lat);
    let scale = n2.sqrt();
    let got = [q.x as f64 / scale, q.y as f64 / scale, q.z as f64 / scale, q.w as f64 / scale];
    let want = [expect.i, expect.j, expect.k, expect.w];
    let sign = if got[3] * want[3] < 0.0 { -1.0 } else { 1.0 };
    for k in 0..4 {
        assert!((got[k] - sign * want[k]).abs() < 2e-3, "{} vs {}", got[k], want[k]);
    }
}

#[test]
fn full_revolution_returns_to_reference() {
    // one sidereal revolution: 2*pi / omega seconds; the quaternion must be
    // proportional to the identity again (up to the double cover's sign)
    let rf = RotatingFrame::ecef("ECEF".to_string(), 0, 0);
    let t_full = (2.0 * std::f64::consts::PI / 7.2921150e-5 * 1000.0) as i64;
    let p = rf.pose(t_full);
    let q = p.rotation;
    let n = ((q.x * q.x + q.y * q.y + q.z * q.z + q.w * q.w) as f64).sqrt();
    assert!(n > 0.0);
    assert!((q.x as f64 / n).abs() < 2e-3);
    assert!((q.y as f64 / n).abs() < 2e-3);
    assert!((q.z as f64 / n).abs() < 2e-3);
    assert!((q.w as f64 / n).abs() > 0.999);
}

#[test]
fn sez_basis_orthonormal() {
    // dense latitude/longitude samples, poles included: the rotation's
    // columns (images of the axes) must be mutually orthogonal unit vectors
    // and match the South/East/Zenith directions
    let lats = [-1.5707, -1.2, -0.6, 0.0, 0.4, 0.9, 1.3, 1.5707];
    let lons = [-3.1415, -2.0, -1.1, 0.0, 0.7, 1.9, 2.8, 3.1415];
    for &lat in &lats {
        for &lon in &lons {
            let f = FixedFrame::sez(
                "site".to_string(), 0,
                (lat * 1e9_f64) as i64, (lon * 1e9_f64) as i64, 0,
            );
            let q = f.offset.rotation;
            let n2 = (q.x * q.x + q.y * q.y + q.z * q.z + q.w * q.w) as f64;
            assert!(n2 > 0.0);
            let axes = [
                Vec3 { x: 1, y: 0, z: 0 },
                Vec3 { x: 0, y: 1, z: 0 },
                Vec3 { x: 0, y: 0, z: 1 },
            ];
            let cols: Vec<[f64; 3]> = axes
                .iter()
                .map(|a| {
                    let r = q.rotate(a);
                    [r.x as f64 / n2, r.y as f64 / n2, r.z as f64 / n2]
                })
                .collect();
            for i in 0..3 {
                for j in 0..3 {
                    let dot: f64 = (0..3).map(|k| cols[i][k] * cols[j][k]).sum();
                    let expect = if i == j { 1.0 } else { 0.0 };
                    assert!(
                        (dot - expect).abs() < 4e-3,
                        "lat {} lon {} cols {} {} dot {}", lat, lon, i, j, dot
                    );
                }
            }
            let (sl, cl) = (lat.sin(), lat.cos());
            let (so, co) = (lon.sin(), lon.cos());
            let south = [sl * co, sl * so, -cl];
            let east = [-so, co, 0.0];
            let zenith = [cl * co, cl * so, sl];
            for (col, want) in cols.iter().zip([south, east, zenith].iter()) {
                for k in 0..3 {
                    assert!(
                        (col[k] - want[k]).abs() < 4e-3,
                        "lat {} lon {}: {} vs {}", lat, lon, col[k], want[k]
                    );
                }
            }
        }
    }
}
