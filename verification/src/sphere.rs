use vstd::prelude::*;

use crate::fixed::{tdiv, lemma_tdiv_bound, isqrt, POS_MAX};
use crate::transform::{apply_model, Transform};
use crate::vec3::{V3M, Vec3};

verus! {

/// Largest radius a bounding sphere built from map points may reach (2^35).
pub const SPHERE_RADIUS_MAX: i64 = 0x8_0000_0000;

/// Sum of the x components of the first `n` points.
pub open spec fn sum_x(s: Seq<Vec3>, n: int) -> int
    decreases n,
{
    if n <= 0 {
        0
    } else {
        sum_x(s, n - 1) + s[n - 1]@.x
    }
}

pub open spec fn sum_y(s: Seq<Vec3>, n: int) -> int
    decreases n,
{
    if n <= 0 {
        0
    } else {
        sum_y(s, n - 1) + s[n - 1]@.y
    }
}

pub open spec fn sum_z(s: Seq<Vec3>, n: int) -> int
    decreases n,
{
    if n <= 0 {
        0
    } else {
        sum_z(s, n - 1) + s[n - 1]@.z
    }
}

/// Square of a three-term sum, expanded.
proof fn lemma_sq_sum3(x: int, y: int, z: int)
    ensures
        (x + y + z) * (x + y + z) == x * x + y * y + z * z + 2 * (x * y) + 2 * (x * z) + 2 * (y
            * z),
{
    assert((x + y + z) * (x + y + z) == x * x + y * y + z * z + 2 * (x * y) + 2 * (x * z) + 2 * (y
        * z)) by (nonlinear_arith);
}

/// Square of a difference, expanded.
proof fn lemma_sq_diff(u: int, v: int)
    ensures
        (u - v) * (u - v) == u * u - 2 * (u * v) + v * v,
{
    assert((u - v) * (u - v) == u * u - 2 * (u * v) + v * v) by (nonlinear_arith);
}

/// Product regroupings the Lagrange identity needs.
proof fn lemma_regroup(p: int, q: int, r: int, t: int)
    ensures
        (p * t) * (q * r) == (p * r) * (q * t),
        (p * t) * (p * t) == (p * p) * (t * t),
        (q * r) * (q * r) == (q * q) * (r * r),
{
    assert((p * t) * (q * r) == (p * r) * (q * t)) by (nonlinear_arith);
    assert((p * t) * (p * t) == (p * p) * (t * t)) by (nonlinear_arith);
    assert((q * r) * (q * r) == (q * q) * (r * r)) by (nonlinear_arith);
}

/// The two-dimensional Lagrange identity.
proof fn lemma_lagrange_2d(p: int, q: int, r: int, t: int)
    ensures
        (p * t - q * r) * (p * t - q * r) == (p * p) * (t * t) + (q * q) * (r * r) - 2 * ((p * r)
            * (q * t)),
{
    lemma_sq_diff(p * t, q * r);
    lemma_regroup(p, q, r, t);
}

/// Cauchy-Schwarz for integer 3-vectors, via the Lagrange identity.
proof fn lemma_cauchy_schwarz(ax: int, ay: int, az: int, bx: int, by: int, bz: int)
    ensures
        (ax * bx + ay * by + az * bz) * (ax * bx + ay * by + az * bz) <= (ax * ax + ay * ay + az
            * az) * (bx * bx + by * by + bz * bz),
{
    lemma_lagrange_2d(ax, ay, bx, by);
    lemma_lagrange_2d(ax, az, bx, bz);
    lemma_lagrange_2d(ay, az, by, bz);
    assert((ax * by - ay * bx) * (ax * by - ay * bx) >= 0) by (nonlinear_arith);
    assert((ax * bz - az * bx) * (ax * bz - az * bx) >= 0) by (nonlinear_arith);
    assert((ay * bz - az * by) * (ay * bz - az * by) >= 0) by (nonlinear_arith);
    lemma_sq_sum3(ax * bx, ay * by, az * bz);
    assert((ax * bx) * (ax * bx) == (ax * ax) * (bx * bx) && (ay * by) * (ay * by) == (ay * ay) * (
    by * by) && (az * bz) * (az * bz) == (az * az) * (bz * bz)) by (nonlinear_arith);
    assert((ax * ax + ay * ay + az * az) * (bx * bx + by * by + bz * bz) == (ax * ax) * (bx * bx)
        + (ax * ax) * (by * by) + (ax * ax) * (bz * bz) + (ay * ay) * (bx * bx) + (ay * ay) * (by
        * by) + (ay * ay) * (bz * bz) + (az * az) * (bx * bx) + (az * az) * (by * by) + (az * az)
        * (bz * bz)) by (nonlinear_arith);
}

/// A point within `r1` of one center lies within `r1 + d` of any center at
/// squared distance at most `d * d` from the first: the triangle inequality,
/// squared, from Cauchy-Schwarz.
proof fn lemma_enclose(p: Vec3, c1: Vec3, c2: Vec3, r1: int, d: int)
    requires
        r1 >= 0,
        d >= 0,
        p.dist_sq_spec(c1) <= r1 * r1,
        c1.dist_sq_spec(c2) <= d * d,
    ensures
        p.dist_sq_spec(c2) <= (r1 + d) * (r1 + d),
{
    let ux = p@.x - c1@.x;
    let uy = p@.y - c1@.y;
    let uz = p@.z - c1@.z;
    let vx = c1@.x - c2@.x;
    let vy = c1@.y - c2@.y;
    let vz = c1@.z - c2@.z;
    let uu = ux * ux + uy * uy + uz * uz;
    let vv = vx * vx + vy * vy + vz * vz;
    let uv = ux * vx + uy * vy + uz * vz;
    lemma_cauchy_schwarz(ux, uy, uz, vx, vy, vz);
    assert(ux * ux >= 0 && uy * uy >= 0 && uz * uz >= 0 && vx * vx >= 0 && vy * vy >= 0 && vz * vz
        >= 0) by (nonlinear_arith);
    assert(uu * vv <= (r1 * r1) * (d * d)) by (nonlinear_arith)
        requires
            0 <= uu <= r1 * r1,
            0 <= vv <= d * d,
    ;
    assert((r1 * r1) * (d * d) == (r1 * d) * (r1 * d)) by (nonlinear_arith);
    assert(r1 * d >= 0) by (nonlinear_arith)
        requires r1 >= 0, d >= 0;
    crate::fixed::lemma_sq_bound(uv, r1 * d);
    assert((ux + vx) * (ux + vx) == ux * ux + 2 * (ux * vx) + vx * vx) by (nonlinear_arith);
    assert((uy + vy) * (uy + vy) == uy * uy + 2 * (uy * vy) + vy * vy) by (nonlinear_arith);
    assert((uz + vz) * (uz + vz) == uz * uz + 2 * (uz * vz) + vz * vz) by (nonlinear_arith);
    assert((r1 + d) * (r1 + d) == r1 * r1 + 2 * (r1 * d) + d * d) by (nonlinear_arith);
    assert(p@.x - c2@.x == ux + vx && p@.y - c2@.y == uy + vy && p@.z - c2@.z == uz + vz);
}

/// The minimal known enclosing sphere of a point set: a center and a radius,
/// with a negative radius as the explicit empty marker.
#[derive(Clone, Copy, PartialEq, Eq, Structural, Debug)]
pub struct Sphere3D {
    pub center: Vec3,
    pub radius: i64,
}

impl Sphere3D {
    /// The explicit empty-marker state: a zero center and a negative radius.
    pub fn empty() -> (r: Sphere3D)
        ensures
            r.is_empty_spec(),
            r.radius == -1,
            r.center@ == (V3M { x: 0, y: 0, z: 0 }),
    {
        Sphere3D { center: Vec3 { x: 0, y: 0, z: 0 }, radius: -1 }
    }

    pub open spec fn is_empty_spec(self) -> bool {
        self.radius < 0
    }

    pub fn is_empty(&self) -> (r: bool)
        ensures
            r == self.is_empty_spec(),
    {
        self.radius < 0
    }

    /// The enclosing sphere of a point set: the component-wise mean as the
    /// center, and the distance to the farthest point, rounded down, as the
    /// radius. Every point lies within `radius + 1`. An empty set yields the
    /// empty marker.
    pub fn from_points(points: &Vec<Vec3>) -> (r: Sphere3D)
        requires
            points@.len() <= 0x10_0000_0000,
            forall|i: int|
                0 <= i < points@.len() ==> (#[trigger] points@[i])@.all_within(POS_MAX as int),
        ensures
            points@.len() == 0 ==> r.is_empty_spec(),
            points@.len() > 0 ==> {
                &&& !r.is_empty_spec()
                &&& r.center@.x == tdiv(sum_x(points@, points@.len() as int),
                    points@.len() as int)
                &&& r.center@.y == tdiv(sum_y(points@, points@.len() as int),
                    points@.len() as int)
                &&& r.center@.z == tdiv(sum_z(points@, points@.len() as int),
                    points@.len() as int)
                &&& r.center@.all_within(POS_MAX as int)
                &&& 0 <= r.radius <= SPHERE_RADIUS_MAX
                &&& forall|i: int|
                    0 <= i < points@.len() ==> (#[trigger] points@[i]).dist_sq_spec(r.center)
                        <= r.radius * r.radius
                &&& (r.radius >= 1 ==> exists|i: int|
                    0 <= i < points@.len() && (#[trigger] points@[i]).dist_sq_spec(r.center) > (
                    r.radius - 1) * (r.radius - 1))
            },
    {
        let n = points.len();
        if n == 0 {
            return Sphere3D::empty();
        }
        let mut sx: i128 = 0;
        let mut sy: i128 = 0;
        let mut sz: i128 = 0;
        let mut i: usize = 0;
        while i < n
            invariant
                n == points@.len(),
                n <= 0x10_0000_0000,
                i <= n,
                forall|j: int|
                    0 <= j < points@.len() ==> (#[trigger] points@[j])@.all_within(POS_MAX as int),
                sx == sum_x(points@, i as int),
                sy == sum_y(points@, i as int),
                sz == sum_z(points@, i as int),
                -(i as int) * (POS_MAX as int) <= sx <= (i as int) * (POS_MAX as int),
                -(i as int) * (POS_MAX as int) <= sy <= (i as int) * (POS_MAX as int),
                -(i as int) * (POS_MAX as int) <= sz <= (i as int) * (POS_MAX as int),
            decreases n - i,
        {
            let p = points[i];
            proof {
                assert(((i as int) + 1) * (POS_MAX as int) == (i as int) * (POS_MAX as int) + (
                POS_MAX as int)) by (nonlinear_arith);
                assert((i as int) * (POS_MAX as int) <= 0x10_0000_0000 * (POS_MAX as int))
                    by (nonlinear_arith)
                    requires 0 <= i as int <= 0x10_0000_0000;
            }
            sx = sx + (p.x as i128);
            sy = sy + (p.y as i128);
            sz = sz + (p.z as i128);
            i = i + 1;
        }
        proof {
            assert((n as int) * (POS_MAX as int) <= 0x10_0000_0000 * (POS_MAX as int))
                by (nonlinear_arith)
                requires 0 < n as int <= 0x10_0000_0000;
            lemma_tdiv_bound(sx as int, n as int, POS_MAX as int);
            lemma_tdiv_bound(sy as int, n as int, POS_MAX as int);
            lemma_tdiv_bound(sz as int, n as int, POS_MAX as int);
        }
        let cx = crate::fixed::div_round_zero_wide(sx, n as i128);
        let cy = crate::fixed::div_round_zero_wide(sy, n as i128);
        let cz = crate::fixed::div_round_zero_wide(sz, n as i128);
        let center = Vec3 { x: cx as i64, y: cy as i64, z: cz as i64 };
        let mut maxd: i128 = 0;
        let mut i: usize = 0;
        while i < n
            invariant
                n == points@.len(),
                i <= n,
                forall|j: int|
                    0 <= j < points@.len() ==> (#[trigger] points@[j])@.all_within(POS_MAX as int),
                center@.all_within(POS_MAX as int),
                0 <= maxd <= 12 * ((POS_MAX as int) * (POS_MAX as int)),
                i == 0 ==> maxd == 0,
                forall|j: int|
                    0 <= j < i ==> (#[trigger] points@[j]).dist_sq_spec(center) <= maxd,
                i >= 1 ==> exists|j: int|
                    0 <= j < i && (#[trigger] points@[j]).dist_sq_spec(center) == maxd,
            decreases n - i,
        {
            let d = points[i].dist_sq(&center, POS_MAX);
            if d > maxd {
                maxd = d;
            } else {
                proof {
                    if i == 0 {
                        assert(points@[0].dist_sq_spec(center) == maxd);
                    }
                }
            }
            i = i + 1;
        }
        proof {
            assert(12 * ((POS_MAX as int) * (POS_MAX as int)) < 0x1_0000_0000_0000_0000_0000);
        }
        let rad = isqrt(maxd as u128);
        proof {
            assert((rad as int) * (rad as int) <= 12 * ((POS_MAX as int) * (POS_MAX as int)));
            assert((rad as int) < SPHERE_RADIUS_MAX as int) by (nonlinear_arith)
                requires
                    (rad as int) * (rad as int) <= 12 * ((POS_MAX as int) * (POS_MAX as int)),
                    rad >= 0,
            ;
        }
        // Round the square root up so every point lies inside the radius.
        let radius: i64 = if (rad as i128) * (rad as i128) == maxd {
            rad as i64
        } else {
            rad as i64 + 1
        };
        proof {
            assert(maxd <= (radius as int) * (radius as int));
            if radius as int == rad as int {
                assert(rad >= 1 ==> (rad as int) * (rad as int) > ((rad as int) - 1) * ((
                rad as int) - 1)) by (nonlinear_arith);
            }
            assert(radius >= 1 ==> maxd > ((radius as int) - 1) * ((radius as int) - 1));
            assert forall|j: int| 0 <= j < points@.len() implies (
            #[trigger] points@[j]).dist_sq_spec(Vec3 { x: cx as i64, y: cy as i64, z: cz as i64 })
                <= (radius as int) * (radius as int) by {
                assert(points@[j].dist_sq_spec(center) <= maxd);
            };
        }
        Sphere3D { center, radius }
    }

    /// The same construction from a collected point sequence, with the same
    /// mean center and farthest-point radius as `from_points`.
    pub fn from_point_iter(points: &Vec<Vec3>) -> (r: Sphere3D)
        requires
            points@.len() <= 0x10_0000_0000,
            forall|i: int|
                0 <= i < points@.len() ==> (#[trigger] points@[i])@.all_within(POS_MAX as int),
        ensures
            points@.len() == 0 ==> r.is_empty_spec(),
            points@.len() > 0 ==> {
                &&& !r.is_empty_spec()
                &&& r.center@.x == tdiv(sum_x(points@, points@.len() as int),
                    points@.len() as int)
                &&& r.center@.y == tdiv(sum_y(points@, points@.len() as int),
                    points@.len() as int)
                &&& r.center@.z == tdiv(sum_z(points@, points@.len() as int),
                    points@.len() as int)
                &&& r.center@.all_within(POS_MAX as int)
                &&& 0 <= r.radius <= SPHERE_RADIUS_MAX
                &&& forall|i: int|
                    0 <= i < points@.len() ==> (#[trigger] points@[i]).dist_sq_spec(r.center)
                        <= r.radius * r.radius
                &&& (r.radius >= 1 ==> exists|i: int|
                    0 <= i < points@.len() && (#[trigger] points@[i]).dist_sq_spec(r.center) > (
                    r.radius - 1) * (r.radius - 1))
            },
    {
        Sphere3D::from_points(points)
    }

    /// The smallest known sphere containing both operands: centered at the
    /// midpoint of the two centers, its radius the larger operand radius
    /// plus the distance to the farther center, rounded up, so every point
    /// of either operand lies inside. An empty operand leaves the other
    /// unchanged.
    pub fn add(&self, other: &Sphere3D) -> (r: Sphere3D)
        requires
            !self.is_empty_spec() ==> self.center@.all_within(POS_MAX as int) && self.radius
                <= SPHERE_RADIUS_MAX,
            !other.is_empty_spec() ==> other.center@.all_within(POS_MAX as int) && other.radius
                <= SPHERE_RADIUS_MAX,
        ensures
            self.is_empty_spec() ==> r == *other,
            !self.is_empty_spec() && other.is_empty_spec() ==> r == *self,
            !self.is_empty_spec() && !other.is_empty_spec() ==> {
                &&& r.center@.x == tdiv(self.center@.x + other.center@.x, 2)
                &&& r.center@.y == tdiv(self.center@.y + other.center@.y, 2)
                &&& r.center@.z == tdiv(self.center@.z + other.center@.z, 2)
                &&& r.radius >= if self.radius >= other.radius {
                    self.radius as int
                } else {
                    other.radius as int
                }
                &&& 0 <= r.radius <= 2 * SPHERE_RADIUS_MAX
                &&& forall|q: Vec3|
                    q.dist_sq_spec(self.center) <= self.radius * self.radius ==> #[trigger] q.dist_sq_spec(
                        r.center) <= r.radius * r.radius
                &&& forall|q: Vec3|
                    q.dist_sq_spec(other.center) <= other.radius * other.radius
                        ==> #[trigger] q.dist_sq_spec(r.center) <= r.radius * r.radius
                &&& {
                    let base = if self.radius >= other.radius {
                        self.radius as int
                    } else {
                        other.radius as int
                    };
                    let dm = if self.center.dist_sq_spec(r.center) >= other.center.dist_sq_spec(
                        r.center) {
                        self.center.dist_sq_spec(r.center)
                    } else {
                        other.center.dist_sq_spec(r.center)
                    };
                    let d = r.radius - base;
                    &&& d >= 0
                    &&& dm <= d * d
                    &&& (d >= 1 ==> dm > (d - 1) * (d - 1))
                }
            },
    {
        if self.is_empty() {
            return *other;
        }
        if other.is_empty() {
            return *self;
        }
        let cx = crate::fixed::half(self.center.x + other.center.x);
        let cy = crate::fixed::half(self.center.y + other.center.y);
        let cz = crate::fixed::half(self.center.z + other.center.z);
        let mid = Vec3 { x: cx, y: cy, z: cz };
        proof {
            lemma_tdiv_bound(self.center@.x + other.center@.x, 2, POS_MAX as int);
            lemma_tdiv_bound(self.center@.y + other.center@.y, 2, POS_MAX as int);
            lemma_tdiv_bound(self.center@.z + other.center@.z, 2, POS_MAX as int);
        }
        let d1 = self.center.dist_sq(&mid, POS_MAX);
        let d2 = other.center.dist_sq(&mid, POS_MAX);
        let dmax = if d1 >= d2 {
            d1
        } else {
            d2
        };
        proof {
            assert(12 * ((POS_MAX as int) * (POS_MAX as int)) < 0x1_0000_0000_0000_0000_0000);
        }
        let drf = isqrt(dmax as u128);
        proof {
            assert((drf as int) * (drf as int) <= 12 * ((POS_MAX as int) * (POS_MAX as int)));
            assert((drf as int) < SPHERE_RADIUS_MAX as int) by (nonlinear_arith)
                requires
                    (drf as int) * (drf as int) <= 12 * ((POS_MAX as int) * (POS_MAX as int)),
                    drf >= 0,
            ;
        }
        // Round the center distance up so neither operand's far side leaks.
        let dr: i64 = if (drf as i128) * (drf as i128) == dmax {
            drf as i64
        } else {
            drf as i64 + 1
        };
        proof {
            assert(dmax <= (dr as int) * (dr as int));
            if dr as int == drf as int {
                assert(drf >= 1 ==> (drf as int) * (drf as int) > ((drf as int) - 1) * ((
                drf as int) - 1)) by (nonlinear_arith);
            }
            assert(dr >= 1 ==> dmax > ((dr as int) - 1) * ((dr as int) - 1));
        }
        let base = if self.radius >= other.radius {
            self.radius
        } else {
            other.radius
        };
        let radius = dr + base;
        proof {
            assert forall|q: Vec3|
                q.dist_sq_spec(self.center) <= self.radius * self.radius implies #[trigger] q.dist_sq_spec(
                    mid) <= (radius as int) * (radius as int) by {
                lemma_enclose(q, self.center, mid, self.radius as int, dr as int);
                assert(((self.radius as int) + (dr as int)) * ((self.radius as int) + (
                dr as int)) <= (radius as int) * (radius as int)) by (nonlinear_arith)
                    requires
                        0 <= (self.radius as int) + (dr as int) <= radius as int,
                ;
            };
            assert forall|q: Vec3|
                q.dist_sq_spec(other.center) <= other.radius * other.radius implies #[trigger] q.dist_sq_spec(
                    mid) <= (radius as int) * (radius as int) by {
                lemma_enclose(q, other.center, mid, other.radius as int, dr as int);
                assert(((other.radius as int) + (dr as int)) * ((other.radius as int) + (
                dr as int)) <= (radius as int) * (radius as int)) by (nonlinear_arith)
                    requires
                        0 <= (other.radius as int) + (dr as int) <= radius as int,
                ;
            };
        }
        Sphere3D { center: mid, radius }
    }

    /// A rigid transform moves the center and keeps the radius.
    pub fn transformed(&self, t: &Transform) -> (r: Sphere3D)
        requires
            t.wf(),
            self.center@.all_within(POS_MAX as int),
        ensures
            r.center@ == apply_model(t@, self.center@),
            r.radius == self.radius,
    {
        Sphere3D { center: t.transform_vector(&self.center), radius: self.radius }
    }
}

} // verus!
