//! A 2D rigid-body collision engine over fixed-point integer coordinates.
//!
//! Bodies are rectangles, axis-aligned before rotation, with a position,
//! a rotation in whole degrees, an extent, a linear velocity and an
//! `anchored` flag.  The engine derives corners, edge midpoints and outward
//! normals under rotation, prunes body pairs with a circumscribed-circle
//! broad phase, detects contacts with a separating-axis narrow phase that
//! reports minimum penetration depth and contact normal, and resolves
//! contacts by positional correction and an impulse-based velocity change.
//!
//! Every scalar is a fixed-point integer counting thousandths of a unit
//! (see [`num::SCALE`]), so all arithmetic here is exact integer
//! arithmetic and every function carries a proved contract.

pub mod num;
pub mod trig;
pub mod vec2;
pub mod body;
pub mod collide;
pub mod resolve;
pub mod step;
