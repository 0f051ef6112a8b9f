//! The rigid body: a rectangle, axis-aligned before rotation, with a
//! pose, an extent, a velocity and an anchoring flag, and the derivation
//! of its world-space corners, edge midpoints and outward unit normals.
//!
//! Corners, edge midpoints and normals are never stored: they are derived
//! fresh from the five stored fields on every call, so no cached geometry
//! can go stale.

use vstd::prelude::*;
use crate::num::{
    SCALE, spec_tdiv, lemma_tdiv_mono, lemma_tdiv_neg, lemma_tdiv_separated,
};
use crate::trig::{
    spec_sin, spec_cos, sin_milli, cos_milli, lemma_trig_big_component, lemma_trig_period,
    lemma_trig_of_full_turns,
};
use crate::vec2::{
    Vec2, V2, v2, v2_add, v2_sub, v2_neg, spec_rotate_vec,
    spec_rotate_fine, spec_rot90, spec_normalize, spec_dot_raw,
    lemma_rotate_vec_bound, lemma_fine_rotation_scales_dot, lemma_rot90_perpendicular,
    lemma_rotate_identity, lemma_normalize_axes, lemma_rot90_normalize_near_perpendicular,
    normalize, rotate_point_around,
};
use vstd::arithmetic::mul::lemma_mul_inequality;

verus! {

/// Positions are kept within a billion units of the origin.
pub const MAX_POS: i64 = 1_000_000_000_000;

/// Extents must be at least a hundredth of a unit: anything smaller
/// rounds to degenerate geometry, which the engine refuses to create.
pub const MIN_SIZE: i64 = 10;

/// Extents are kept within a million units.
pub const MAX_SIZE: i64 = 1_000_000_000;

/// Velocities are kept within a billion units per second.
pub const MAX_VEL: i64 = 1_000_000_000_000;

/// Corners of a well-formed body stay within this coordinate bound.
pub const CORNER_ABS: i64 = 1_001_000_000_000;

/// A rigid rectangular body.
///
/// `rotation` is an angle in whole degrees, applied as a rigid rotation
/// about `position`; the physics core never changes it (there is no
/// angular dynamics).  `size` is the extent before rotation.  `anchored`
/// marks an immovable body: it takes part in collision detection but is
/// never translated or given velocity by the solver.
#[derive(Clone, Copy, PartialEq, Eq, Structural, Debug)]
pub struct Body {
    pub position: Vec2,
    pub rotation: i64,
    pub size: Vec2,
    pub velocity: Vec2,
    pub anchored: bool,
}

impl Body {
    /// The stored fields lie in the ranges the engine's arithmetic is
    /// proved against, and the extent is strictly positive.
    pub open spec fn well_formed(self) -> bool {
        &&& -MAX_POS <= self.position.x <= MAX_POS
        &&& -MAX_POS <= self.position.y <= MAX_POS
        &&& MIN_SIZE <= self.size.x <= MAX_SIZE
        &&& MIN_SIZE <= self.size.y <= MAX_SIZE
        &&& -MAX_VEL <= self.velocity.x <= MAX_VEL
        &&& -MAX_VEL <= self.velocity.y <= MAX_VEL
    }

    /// A unit body: a 50-by-50 square at the origin, at rest, unanchored.
    pub fn new() -> (r: Body)
        ensures
            r == (Body {
                position: Vec2 { x: 0, y: 0 },
                rotation: 0,
                size: Vec2 { x: 50_000, y: 50_000 },
                velocity: Vec2 { x: 0, y: 0 },
                anchored: false,
            }),
            r.well_formed(),
    {
        Body {
            position: Vec2 { x: 0, y: 0 },
            rotation: 0,
            size: Vec2 { x: 50_000, y: 50_000 },
            velocity: Vec2 { x: 0, y: 0 },
            anchored: false,
        }
    }

    /// Build a body from explicit state, refusing out-of-range or
    /// degenerate data: the result is `Some` exactly when the fields make
    /// a well-formed body.
    pub fn checked(position: Vec2, rotation: i64, size: Vec2, velocity: Vec2, anchored: bool)
        -> (r: Option<Body>)
        ensures
            ({
                let b = Body { position, rotation, size, velocity, anchored };
                if b.well_formed() {
                    r == Some(b)
                } else {
                    r == None::<Body>
                }
            }),
    {
        let b = Body { position, rotation, size, velocity, anchored };
        if -MAX_POS <= position.x && position.x <= MAX_POS
            && -MAX_POS <= position.y && position.y <= MAX_POS
            && MIN_SIZE <= size.x && size.x <= MAX_SIZE
            && MIN_SIZE <= size.y && size.y <= MAX_SIZE
            && -MAX_VEL <= velocity.x && velocity.x <= MAX_VEL
            && -MAX_VEL <= velocity.y && velocity.y <= MAX_VEL
        {
            Some(b)
        } else {
            None
        }
    }
}

/// Half of an extent, rounded down.
pub open spec fn spec_half(x: int) -> int {
    spec_tdiv(x, 2)
}

/// The four corner offsets before rotation, relative to the center, in a
/// fixed winding order: top-left, top-right, bottom-right, bottom-left.
pub open spec fn spec_corner_offset(size: V2, i: int) -> V2
    recommends
        0 <= i < 4,
{
    let hx = spec_half(size.x);
    let hy = spec_half(size.y);
    if i == 0 {
        v2(-hx, -hy)
    } else if i == 1 {
        v2(hx, -hy)
    } else if i == 2 {
        v2(hx, hy)
    } else {
        v2(-hx, hy)
    }
}

/// The four edge-midpoint offsets before rotation: top, right, bottom, left.
pub open spec fn spec_edge_offset(size: V2, i: int) -> V2
    recommends
        0 <= i < 4,
{
    let hx = spec_half(size.x);
    let hy = spec_half(size.y);
    if i == 0 {
        v2(0, -hy)
    } else if i == 1 {
        v2(hx, 0)
    } else if i == 2 {
        v2(0, hy)
    } else {
        v2(-hx, 0)
    }
}

/// World-space corner `i`: the corner offset rotated about the center and
/// translated to it.
pub open spec fn spec_corner(b: Body, i: int) -> V2
    recommends
        0 <= i < 4,
{
    v2_add(
        spec_rotate_vec(spec_corner_offset(b.size@, i), spec_sin(b.rotation as int), spec_cos(b.rotation as int)),
        b.position@,
    )
}

/// World-space edge midpoint `i`.
pub open spec fn spec_edge(b: Body, i: int) -> V2
    recommends
        0 <= i < 4,
{
    v2_add(
        spec_rotate_vec(spec_edge_offset(b.size@, i), spec_sin(b.rotation as int), spec_cos(b.rotation as int)),
        b.position@,
    )
}

/// Edge vector `i`: from corner `i` to the next corner in winding order.
pub open spec fn spec_edge_vec(b: Body, i: int) -> V2
    recommends
        0 <= i < 4,
{
    v2_sub(spec_corner(b, if i == 3 { 0 } else { i + 1 }), spec_corner(b, i))
}

/// Outward unit normal of side `i`: the edge vector turned a quarter turn
/// and scaled to unit length.
pub open spec fn spec_normal(b: Body, i: int) -> V2
    recommends
        0 <= i < 4,
{
    spec_normalize(spec_rot90(spec_edge_vec(b, i)))
}

/// A point within the coordinate range that corners of well-formed bodies
/// occupy.
pub open spec fn in_corner_range(p: Vec2) -> bool {
    &&& -CORNER_ABS <= p.x <= CORNER_ABS
    &&& -CORNER_ABS <= p.y <= CORNER_ABS
}

/// Half extents of a well-formed body lie in `[5, SCALE * 500_000]`.
pub proof fn lemma_half_extent_range(x: int)
    requires
        MIN_SIZE <= x <= MAX_SIZE,
    ensures
        5 <= spec_half(x) <= 500_000_000,
{
    lemma_tdiv_mono(10, x, 2);
    lemma_tdiv_mono(x, 1_000_000_000, 2);
}

impl Body {
    /// The four world-space corners, derived fresh from the stored state.
    pub fn get_corners(&self) -> (r: [Vec2; 4])
        requires
            self.well_formed(),
        ensures
            r@[0]@ == spec_corner(*self, 0),
            r@[1]@ == spec_corner(*self, 1),
            r@[2]@ == spec_corner(*self, 2),
            r@[3]@ == spec_corner(*self, 3),
            in_corner_range(r@[0]),
            in_corner_range(r@[1]),
            in_corner_range(r@[2]),
            in_corner_range(r@[3]),
    {
        let rotation_sin = sin_milli(self.rotation);
        let rotation_cos = cos_milli(self.rotation);
        let hx = half_extent(self.size.x);
        let hy = half_extent(self.size.y);
        proof {
            lemma_half_extent_range(self.size.x as int);
            lemma_half_extent_range(self.size.y as int);
        }
        let p0 = self.corner_at(-hx, -hy, rotation_sin, rotation_cos);
        let p1 = self.corner_at(hx, -hy, rotation_sin, rotation_cos);
        let p2 = self.corner_at(hx, hy, rotation_sin, rotation_cos);
        let p3 = self.corner_at(-hx, hy, rotation_sin, rotation_cos);
        [p0, p1, p2, p3]
    }

    /// The four world-space edge midpoints, derived fresh.
    pub fn get_edges(&self) -> (r: [Vec2; 4])
        requires
            self.well_formed(),
        ensures
            r@[0]@ == spec_edge(*self, 0),
            r@[1]@ == spec_edge(*self, 1),
            r@[2]@ == spec_edge(*self, 2),
            r@[3]@ == spec_edge(*self, 3),
            in_corner_range(r@[0]),
            in_corner_range(r@[1]),
            in_corner_range(r@[2]),
            in_corner_range(r@[3]),
    {
        let rotation_sin = sin_milli(self.rotation);
        let rotation_cos = cos_milli(self.rotation);
        let hx = half_extent(self.size.x);
        let hy = half_extent(self.size.y);
        proof {
            lemma_half_extent_range(self.size.x as int);
            lemma_half_extent_range(self.size.y as int);
        }
        let e0 = self.corner_at(0, -hy, rotation_sin, rotation_cos);
        let e1 = self.corner_at(hx, 0, rotation_sin, rotation_cos);
        let e2 = self.corner_at(0, hy, rotation_sin, rotation_cos);
        let e3 = self.corner_at(-hx, 0, rotation_sin, rotation_cos);
        [e0, e1, e2, e3]
    }

    /// Rotate the offset `(ox, oy)` about the body's center and translate
    /// it into world space.
    fn corner_at(&self, ox: i64, oy: i64, rotation_sin: i64, rotation_cos: i64) -> (r: Vec2)
        requires
            self.well_formed(),
            -500_000_000 <= ox <= 500_000_000,
            -500_000_000 <= oy <= 500_000_000,
            rotation_sin == spec_sin(self.rotation as int),
            rotation_cos == spec_cos(self.rotation as int),
            -SCALE <= rotation_sin <= SCALE,
            -SCALE <= rotation_cos <= SCALE,
        ensures
            r@ == v2_add(
                spec_rotate_vec(v2(ox as int, oy as int), spec_sin(self.rotation as int), spec_cos(self.rotation as int)),
                self.position@,
            ),
            in_corner_range(r),
    {
        let p = Vec2 { x: self.position.x + ox, y: self.position.y + oy };
        let r = rotate_point_around(p, self.position, rotation_sin, rotation_cos);
        proof {
            let off = v2(ox as int, oy as int);
            assert(v2_sub(p@, self.position@) == off);
            lemma_rotate_vec_bound(
                off,
                spec_sin(self.rotation as int),
                spec_cos(self.rotation as int),
                500_000_000,
            );
        }
        r
    }

    /// The four outward unit normals, one per side, in winding order.
    pub fn get_normals(&self) -> (r: [Vec2; 4])
        requires
            self.well_formed(),
        ensures
            r@[0]@ == spec_normal(*self, 0),
            r@[1]@ == spec_normal(*self, 1),
            r@[2]@ == spec_normal(*self, 2),
            r@[3]@ == spec_normal(*self, 3),
            unit_range(r@[0]),
            unit_range(r@[1]),
            unit_range(r@[2]),
            unit_range(r@[3]),
    {
        proof {
            lemma_edges_nondegenerate(*self);
            assert(spec_edge_vec(*self, 0) != v2(0, 0));
            assert(spec_edge_vec(*self, 1) != v2(0, 0));
            assert(spec_edge_vec(*self, 2) != v2(0, 0));
            assert(spec_edge_vec(*self, 3) != v2(0, 0));
        }
        let corners = self.get_corners();
        proof {
            assert(v2_sub(corners@[1]@, corners@[0]@) == spec_edge_vec(*self, 0));
            assert(v2_sub(corners@[2]@, corners@[1]@) == spec_edge_vec(*self, 1));
            assert(v2_sub(corners@[3]@, corners@[2]@) == spec_edge_vec(*self, 2));
            assert(v2_sub(corners@[0]@, corners@[3]@) == spec_edge_vec(*self, 3));
        }
        let n0 = side_normal(corners[0], corners[1]);
        let n1 = side_normal(corners[1], corners[2]);
        let n2 = side_normal(corners[2], corners[3]);
        let n3 = side_normal(corners[3], corners[0]);
        [n0, n1, n2, n3]
    }
}

/// A vector whose components are bounded by the fixed-point unit.
pub open spec fn unit_range(p: Vec2) -> bool {
    &&& -SCALE <= p.x <= SCALE
    &&& -SCALE <= p.y <= SCALE
}

/// Outward unit normal of the side from corner `a` to corner `b`.
fn side_normal(a: Vec2, b: Vec2) -> (r: Vec2)
    requires
        in_corner_range(a),
        in_corner_range(b),
        !(a.x == b.x && a.y == b.y),
    ensures
        r@ == spec_normalize(spec_rot90(v2_sub(b@, a@))),
        unit_range(r),
{
    let ex = b.x - a.x;
    let ey = b.y - a.y;
    normalize(Vec2 { x: ey, y: -ex })
}

/// Half of an extent, rounded down, executable.
fn half_extent(x: i64) -> (r: i64)
    requires
        0 < x,
    ensures
        r == spec_half(x as int),
{
    ((x as u64) / 2) as i64
}

/// No side of a well-formed body collapses: its two corners differ.
///
/// The rotation keeps at least one trigonometric component at magnitude
/// 705 or more, so a half extent of at least 5 fixed-point steps moves
/// the two corners of each side at least one whole step apart along some
/// coordinate, even after rounding.
pub proof fn lemma_edges_nondegenerate(b: Body)
    requires
        b.well_formed(),
    ensures
        forall|i: int| 0 <= i < 4 ==> spec_edge_vec(b, i) != v2(0, 0),
{
    let s = spec_sin(b.rotation as int);
    let c = spec_cos(b.rotation as int);
    let hx = spec_half(b.size@.x);
    let hy = spec_half(b.size@.y);
    lemma_half_extent_range(b.size@.x);
    lemma_half_extent_range(b.size@.y);
    lemma_trig_big_component(b.rotation as int);
    vstd::arithmetic::mul::lemma_mul_unary_negation(hx, c);
    vstd::arithmetic::mul::lemma_mul_unary_negation(hx, s);
    vstd::arithmetic::mul::lemma_mul_unary_negation(hy, c);
    vstd::arithmetic::mul::lemma_mul_unary_negation(hy, s);
    assert forall|i: int| 0 <= i < 4 implies spec_edge_vec(b, i) != v2(0, 0) by {
        if c >= 705 || c <= -705 {
            lemma_sep_product(hx, c);
            lemma_sep_product(hy, c);
            if i == 0 {
                lemma_offset_pair_separate_x(b, 0, 2 * (hx * c));
            } else if i == 1 {
                lemma_offset_pair_separate_y(b, 1, 2 * (hy * c));
            } else if i == 2 {
                lemma_offset_pair_separate_x(b, 2, -(2 * (hx * c)));
            } else {
                lemma_offset_pair_separate_y(b, 3, -(2 * (hy * c)));
            }
        } else {
            lemma_sep_product(hx, s);
            lemma_sep_product(hy, s);
            if i == 0 {
                lemma_offset_pair_separate_y(b, 0, 2 * (hx * s));
            } else if i == 1 {
                lemma_offset_pair_separate_x(b, 1, -(2 * (hy * s)));
            } else if i == 2 {
                lemma_offset_pair_separate_y(b, 2, -(2 * (hx * s)));
            } else {
                lemma_offset_pair_separate_x(b, 3, 2 * (hy * s));
            }
        }
    }
}

/// A half extent of 5 or more and a trigonometric component of magnitude
/// 705 or more put their doubled product beyond the rounding slack.
proof fn lemma_sep_product(h: int, t: int)
    requires
        h >= 5,
        t >= 705 || t <= -705,
    ensures
        2 * (h * t) >= 3 * 1000 - 2 || -(2 * (h * t)) >= 3 * 1000 - 2,
{
    if t >= 705 {
        lemma_mul_inequality(5, h, t);
        assert(5 * t >= 5 * 705);
    } else {
        lemma_mul_inequality(5, h, -t);
        assert(h * (-t) == -(h * t)) by (nonlinear_arith);
        assert(5 * (-t) >= 5 * 705);
    }
}

/// If the fine x-numerators of the two corners of side `i` differ by `d`,
/// beyond the rounding slack, the rounded corners differ in x.
proof fn lemma_offset_pair_separate_x(b: Body, i: int, d: int)
    requires
        b.well_formed(),
        0 <= i < 4,
        d == fine_x(b, if i == 3 { 0 } else { i + 1 }) - fine_x(b, i),
        d >= 3 * 1000 - 2 || -d >= 3 * 1000 - 2,
    ensures
        spec_edge_vec(b, i) != v2(0, 0),
{
    let j = if i == 3 { 0int } else { i + 1 };
    if d >= 3 * 1000 - 2 {
        lemma_tdiv_separated(fine_x(b, i), fine_x(b, j), 1000);
    } else {
        lemma_tdiv_separated(fine_x(b, j), fine_x(b, i), 1000);
    }
}

/// Mirror image of [`lemma_offset_pair_separate_x`] for the y coordinate.
proof fn lemma_offset_pair_separate_y(b: Body, i: int, d: int)
    requires
        b.well_formed(),
        0 <= i < 4,
        d == fine_y(b, if i == 3 { 0 } else { i + 1 }) - fine_y(b, i),
        d >= 3 * 1000 - 2 || -d >= 3 * 1000 - 2,
    ensures
        spec_edge_vec(b, i) != v2(0, 0),
{
    let j = if i == 3 { 0int } else { i + 1 };
    if d >= 3 * 1000 - 2 {
        lemma_tdiv_separated(fine_y(b, i), fine_y(b, j), 1000);
    } else {
        lemma_tdiv_separated(fine_y(b, j), fine_y(b, i), 1000);
    }
}

/// Corner offset `i` under the exact scaled rotation, before the
/// scale-down division: the rounded corner is this, divided by `SCALE`
/// componentwise and translated to the center.
pub open spec fn spec_fine_corner(b: Body, i: int) -> V2
    recommends
        0 <= i < 4,
{
    spec_rotate_fine(
        spec_corner_offset(b.size@, i),
        spec_sin(b.rotation as int),
        spec_cos(b.rotation as int),
    )
}

/// Fine (unrounded) x-numerator of corner `i` under the body's rotation.
spec fn fine_x(b: Body, i: int) -> int {
    spec_fine_corner(b, i).x
}

/// Fine (unrounded) y-numerator of corner `i` under the body's rotation.
spec fn fine_y(b: Body, i: int) -> int {
    spec_fine_corner(b, i).y
}


/// At a whole number of turns the rotation is the identity: corners sit
/// at their axis-aligned offsets and the four outward normals are the
/// unit axes in winding order (up, right, down, left in the stored
/// orientation).
pub proof fn lemma_axis_aligned_geometry(b: Body)
    requires
        b.well_formed(),
        (b.rotation as int) % 360 == 0,
    ensures
        forall|i: int| 0 <= i < 4 ==> #[trigger] spec_corner(b, i)
            == v2_add(spec_corner_offset(b.size@, i), b.position@),
        spec_normal(b, 0) == v2(0, -1000),
        spec_normal(b, 1) == v2(1000, 0),
        spec_normal(b, 2) == v2(0, 1000),
        spec_normal(b, 3) == v2(-1000, 0),
{
    lemma_trig_of_full_turns(b.rotation as int);
    let hx = spec_half(b.size@.x);
    let hy = spec_half(b.size@.y);
    lemma_half_extent_range(b.size@.x);
    lemma_half_extent_range(b.size@.y);
    assert forall|i: int| 0 <= i < 4 implies #[trigger] spec_corner(b, i)
        == v2_add(spec_corner_offset(b.size@, i), b.position@) by {
        lemma_rotate_identity(spec_corner_offset(b.size@, i));
    }
    assert(spec_edge_vec(b, 0) == v2(2 * hx, 0));
    assert(spec_edge_vec(b, 1) == v2(0, 2 * hy));
    assert(spec_edge_vec(b, 2) == v2(-(2 * hx), 0));
    assert(spec_edge_vec(b, 3) == v2(0, -(2 * hy)));
    lemma_normalize_axes(hx);
    lemma_normalize_axes(hy);
}

/// Quantitatively, the derived quadrilateral is a rectangle up to
/// rounding: each side vector, scaled up by `SCALE`, lies within two
/// fixed-point steps per component of the exact rotation image of the
/// matching axis-aligned side — and those images form an exact
/// rectangle, with right angles
/// ([`lemma_adjacent_sides_fine_perpendicular`]) and opposite sides
/// equal ([`lemma_opposite_sides`]).
pub proof fn lemma_edge_vec_near_fine(b: Body)
    requires
        b.well_formed(),
    ensures
        forall|i: int| 0 <= i < 4 ==> ({
            let e = #[trigger] spec_edge_vec(b, i);
            let f = v2_sub(
                spec_fine_corner(b, if i == 3 { 0 } else { i + 1 }),
                spec_fine_corner(b, i),
            );
            &&& f.x - 2000 < 1000 * e.x < f.x + 2000
            &&& f.y - 2000 < 1000 * e.y < f.y + 2000
        }),
{
    assert forall|i: int| 0 <= i < 4 implies ({
        let e = #[trigger] spec_edge_vec(b, i);
        let f = v2_sub(
            spec_fine_corner(b, if i == 3 { 0 } else { i + 1 }),
            spec_fine_corner(b, i),
        );
        &&& f.x - 2000 < 1000 * e.x < f.x + 2000
        &&& f.y - 2000 < 1000 * e.y < f.y + 2000
    }) by {
        let j = if i == 3 { 0int } else { i + 1 };
        crate::num::lemma_tdiv_range(spec_fine_corner(b, i).x, 1000);
        crate::num::lemma_tdiv_range(spec_fine_corner(b, i).y, 1000);
        crate::num::lemma_tdiv_range(spec_fine_corner(b, j).x, 1000);
        crate::num::lemma_tdiv_range(spec_fine_corner(b, j).y, 1000);
    }
}

/// Shape is invariant under full turns: the corners at rotation
/// `r + 360` equal the corners at rotation `r`.
pub proof fn lemma_corners_full_turn(b: Body)
    requires
        b.well_formed(),
        b.rotation + 360 <= i64::MAX,
    ensures
        forall|i: int| 0 <= i < 4 ==>
            spec_corner(Body { rotation: (b.rotation + 360) as i64, ..b }, i) == spec_corner(b, i),
{
    lemma_trig_period(b.rotation as int);
}

/// Opposite sides of the derived quadrilateral are exact negatives of one
/// another — in particular they have equal length, as a rectangle's must.
pub proof fn lemma_opposite_sides(b: Body)
    requires
        b.well_formed(),
    ensures
        spec_edge_vec(b, 2) == v2_neg(spec_edge_vec(b, 0)),
        spec_edge_vec(b, 3) == v2_neg(spec_edge_vec(b, 1)),
{
    let s = spec_sin(b.rotation as int);
    let c = spec_cos(b.rotation as int);
    let o0 = spec_corner_offset(b.size@, 0);
    let o1 = spec_corner_offset(b.size@, 1);
    let o2 = spec_corner_offset(b.size@, 2);
    let o3 = spec_corner_offset(b.size@, 3);
    let hx = spec_half(b.size@.x);
    let hy = spec_half(b.size@.y);
    vstd::arithmetic::mul::lemma_mul_unary_negation(hx, c);
    vstd::arithmetic::mul::lemma_mul_unary_negation(hx, s);
    vstd::arithmetic::mul::lemma_mul_unary_negation(hy, c);
    vstd::arithmetic::mul::lemma_mul_unary_negation(hy, s);
    lemma_tdiv_neg(o0.x * c - o0.y * s, 1000);
    lemma_tdiv_neg(o0.x * s + o0.y * c, 1000);
    lemma_tdiv_neg(o1.x * c - o1.y * s, 1000);
    lemma_tdiv_neg(o1.x * s + o1.y * c, 1000);
    assert(o2.x * c - o2.y * s == -(o0.x * c - o0.y * s));
    assert(o2.x * s + o2.y * c == -(o0.x * s + o0.y * c));
    assert(o3.x * c - o3.y * s == -(o1.x * c - o1.y * s));
    assert(o3.x * s + o3.y * c == -(o1.x * s + o1.y * c));
}

/// Before rounding, adjacent sides of the rotated rectangle are exactly
/// perpendicular: the scaled rotation matrix preserves the right angles
/// of the axis-aligned offsets.
pub proof fn lemma_adjacent_sides_fine_perpendicular(b: Body)
    requires
        b.well_formed(),
    ensures
        ({
            let s = spec_sin(b.rotation as int);
            let c = spec_cos(b.rotation as int);
            let u = v2_sub(spec_corner_offset(b.size@, 1), spec_corner_offset(b.size@, 0));
            let v = v2_sub(spec_corner_offset(b.size@, 2), spec_corner_offset(b.size@, 1));
            spec_dot_raw(spec_rotate_fine(u, s, c), spec_rotate_fine(v, s, c)) == 0
        }),
{
    let s = spec_sin(b.rotation as int);
    let c = spec_cos(b.rotation as int);
    let u = v2_sub(spec_corner_offset(b.size@, 1), spec_corner_offset(b.size@, 0));
    let v = v2_sub(spec_corner_offset(b.size@, 2), spec_corner_offset(b.size@, 1));
    lemma_fine_rotation_scales_dot(u, v, s, c);
    vstd::arithmetic::mul::lemma_mul_by_zero_is_zero(u.x);
    vstd::arithmetic::mul::lemma_mul_by_zero_is_zero(v.y);
    assert(spec_dot_raw(u, v) == 0);
    vstd::arithmetic::mul::lemma_mul_by_zero_is_zero(c * c + s * s);
}

/// Each normal stays nearly perpendicular to its edge after the rounding
/// of normalization: the raw dot product of edge and unit normal is
/// bounded by the sum of the edge's component magnitudes, a rounding
/// remainder three orders of magnitude below the product of the lengths.
pub proof fn lemma_normal_near_perpendicular(b: Body)
    requires
        b.well_formed(),
    ensures
        forall|i: int| 0 <= i < 4 ==> ({
            let e = #[trigger] spec_edge_vec(b, i);
            &&& -(vstd::math::abs(e.x) + vstd::math::abs(e.y))
                <= spec_dot_raw(e, spec_normal(b, i))
            &&& spec_dot_raw(e, spec_normal(b, i))
                <= vstd::math::abs(e.x) + vstd::math::abs(e.y)
        }),
{
    lemma_edges_nondegenerate(b);
    assert forall|i: int| 0 <= i < 4 implies ({
        let e = #[trigger] spec_edge_vec(b, i);
        &&& -(vstd::math::abs(e.x) + vstd::math::abs(e.y))
            <= spec_dot_raw(e, spec_normal(b, i))
        &&& spec_dot_raw(e, spec_normal(b, i))
            <= vstd::math::abs(e.x) + vstd::math::abs(e.y)
    }) by {
        let e = spec_edge_vec(b, i);
        assert(e != v2(0, 0));
        lemma_rot90_normalize_near_perpendicular(e);
    }
}

/// Each normal is exactly perpendicular to its edge before the final
/// unit scaling: the quarter turn makes the raw dot product vanish.
pub proof fn lemma_normal_perpendicular_raw(b: Body)
    requires
        b.well_formed(),
    ensures
        forall|i: int| 0 <= i < 4 ==>
            spec_dot_raw(#[trigger] spec_edge_vec(b, i), spec_rot90(spec_edge_vec(b, i))) == 0,
{
    assert forall|i: int| 0 <= i < 4 implies
        spec_dot_raw(#[trigger] spec_edge_vec(b, i), spec_rot90(spec_edge_vec(b, i))) == 0 by {
        lemma_rot90_perpendicular(spec_edge_vec(b, i));
    }
}

} // verus!
