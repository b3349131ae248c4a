//! A verified kernel for hierarchies of spatial reference frames.
//!
//! Frames (inertial roots, constant-offset children, and frames spinning at a
//! constant angular velocity) form a tree; the transform engine resolves a
//! vector expressed in any frame into the root frame's coordinates, and back,
//! at a given simulation time.  A registry owns frames and looks them up by
//! string identifier.
//!
//! All geometry is carried out in exact integer arithmetic: lengths are
//! integer multiples of a thousandth of a kilometre, times are milliseconds,
//! angular rates are nanoradians per second, and rotations are quaternions
//! with integer components, read projectively (a quaternion and any positive
//! multiple of it denote the same rotation).  Applying a rotation therefore
//! never divides: results carry an explicit positive denominator instead.

pub mod num;
pub mod quat;
pub mod vec3;
pub mod frame;
pub mod laws;
pub mod store;
pub mod transform;
