use vstd::prelude::*;

use crate::fixed::{tdiv, lemma_tdiv_bound, lemma_abs_mul, div_round_zero_wide, SCALE, COORD_MAX};
use crate::vec3::Vec3;

verus! {

/// Largest focal length, in fixed-point pixels per unit (2^26).
pub const FOCAL_MAX: i64 = 0x400_0000;

/// Largest principal-point and pixel magnitude, in whole pixels (2^16).
pub const CENTER_MAX: i64 = 0x1_0000;

/// Largest camera-space coordinate the projection accepts (2^42).
pub const PROJ_IN_MAX: i64 = 0x400_0000_0000;

/// Pinhole intrinsics in fixed-point: focal lengths are scaled by SCALE,
/// the principal point is in whole pixels.
#[derive(Clone, Copy, PartialEq, Eq, Structural, Debug)]
pub struct Camera {
    pub fx: i64,
    pub fy: i64,
    pub cx: i64,
    pub cy: i64,
}

/// A depth scaled into the fixed-point pixel domain.
pub open spec fn depth_scaled(z: int) -> int {
    z * (SCALE as int)
}

impl Camera {
    pub open spec fn wf(self) -> bool {
        &&& 1 <= self.fx <= FOCAL_MAX
        &&& 1 <= self.fy <= FOCAL_MAX
        &&& -CENTER_MAX <= self.cx <= CENTER_MAX
        &&& -CENTER_MAX <= self.cy <= CENTER_MAX
    }

    /// Horizontal pixel of a camera-space point, rounded toward zero.
    pub open spec fn project_u_spec(self, p: Vec3) -> int {
        tdiv(self.fx * p@.x, depth_scaled(p@.z)) + self.cx
    }

    /// Vertical pixel of a camera-space point, rounded toward zero.
    pub open spec fn project_v_spec(self, p: Vec3) -> int {
        tdiv(self.fy * p@.y, depth_scaled(p@.z)) + self.cy
    }

    pub fn from_simple_intrinsic(fx: i64, fy: i64, cx: i64, cy: i64) -> (r: Camera)
        requires
            1 <= fx <= FOCAL_MAX,
            1 <= fy <= FOCAL_MAX,
            -CENTER_MAX <= cx <= CENTER_MAX,
            -CENTER_MAX <= cy <= CENTER_MAX,
        ensures
            r.wf(),
            r == (Camera { fx, fy, cx, cy }),
    {
        Camera { fx, fy, cx, cy }
    }

    /// Project a camera-space point with positive depth onto the pixel grid.
    /// Association reads only points in front of the reference view, so the
    /// projection is stated for positive depth alone.
    pub fn project(&self, p: &Vec3) -> (r: (i64, i64))
        requires
            self.wf(),
            p@.all_within(PROJ_IN_MAX as int),
            p@.z >= 1,
        ensures
            r.0 == self.project_u_spec(*p),
            r.1 == self.project_v_spec(*p),
            -0x20_0000_0000_0000 <= r.0 <= 0x20_0000_0000_0000,
            -0x20_0000_0000_0000 <= r.1 <= 0x20_0000_0000_0000,
    {
        proof {
            lemma_abs_mul(self.fx as int, p@.x, FOCAL_MAX as int, PROJ_IN_MAX as int);
            lemma_abs_mul(self.fy as int, p@.y, FOCAL_MAX as int, PROJ_IN_MAX as int);
            let zb = p@.z * (SCALE as int);
            assert(p@.z * (SCALE as int) >= 65536) by (nonlinear_arith)
                requires p@.z >= 1;
            assert((FOCAL_MAX as int) * (PROJ_IN_MAX as int) <= 0x10_0000_0000_0000 * zb)
                by (nonlinear_arith)
                requires zb >= 65536;
            lemma_tdiv_bound(self.fx as int * p@.x, zb, 0x10_0000_0000_0000);
            lemma_tdiv_bound(self.fy as int * p@.y, zb, 0x10_0000_0000_0000);
        }
        let zs = (p.z as i128) * (SCALE as i128);
        let u = div_round_zero_wide((self.fx as i128) * (p.x as i128), zs);
        let v = div_round_zero_wide((self.fy as i128) * (p.y as i128), zs);
        ((u as i64) + self.cx, (v as i64) + self.cy)
    }

    /// Scale the intrinsics by a fixed-point factor, rounding toward zero;
    /// both down- and up-scaling factors are accepted.
    pub fn scale(&self, factor: i64) -> (r: Camera)
        requires
            self.wf(),
            1 <= factor <= 0x4000_0000,
        ensures
            r.fx == tdiv(self.fx * factor, SCALE as int),
            r.fy == tdiv(self.fy * factor, SCALE as int),
            r.cx == tdiv(self.cx * factor, SCALE as int),
            r.cy == tdiv(self.cy * factor, SCALE as int),
    {
        proof {
            lemma_abs_mul(self.fx as int, factor as int, FOCAL_MAX as int, 0x4000_0000);
            lemma_abs_mul(self.fy as int, factor as int, FOCAL_MAX as int, 0x4000_0000);
            lemma_abs_mul(self.cx as int, factor as int, CENTER_MAX as int, 0x4000_0000);
            lemma_abs_mul(self.cy as int, factor as int, CENTER_MAX as int, 0x4000_0000);
            lemma_tdiv_bound(self.fx as int * factor, SCALE as int, 0x100_0000_0000);
            lemma_tdiv_bound(self.fy as int * factor, SCALE as int, 0x100_0000_0000);
            lemma_tdiv_bound(self.cx as int * factor, SCALE as int, 0x100_0000_0000);
            lemma_tdiv_bound(self.cy as int * factor, SCALE as int, 0x100_0000_0000);
            assert((FOCAL_MAX as int) * 0x4000_0000 <= 0x100_0000_0000 * (SCALE as int))
                by (nonlinear_arith);
            assert((CENTER_MAX as int) * 0x4000_0000 <= 0x100_0000_0000 * (SCALE as int))
                by (nonlinear_arith);
        }
        Camera {
            fx: div_round_zero_wide((self.fx as i128) * (factor as i128), SCALE as i128) as i64,
            fy: div_round_zero_wide((self.fy as i128) * (factor as i128), SCALE as i128) as i64,
            cx: div_round_zero_wide((self.cx as i128) * (factor as i128), SCALE as i128) as i64,
            cy: div_round_zero_wide((self.cy as i128) * (factor as i128), SCALE as i128) as i64,
        }
    }

    /// Back-project a pixel with a known depth into camera space; a zero
    /// depth back-projects to the origin.
    pub fn backproject(&self, u: i64, v: i64, z: i64) -> (r: Vec3)
        requires
            self.wf(),
            -CENTER_MAX <= u <= CENTER_MAX,
            -CENTER_MAX <= v <= CENTER_MAX,
            0 <= z <= COORD_MAX,
        ensures
            r@.x == tdiv((u - self.cx) * depth_scaled(z as int), self.fx as int),
            r@.y == tdiv((v - self.cy) * depth_scaled(z as int), self.fy as int),
            r@.z == z,
    {
        proof {
            let zs = depth_scaled(z as int);
            lemma_abs_mul(z as int, SCALE as int, COORD_MAX as int, SCALE as int);
            lemma_abs_mul((u - self.cx) as int, zs, 2 * (CENTER_MAX as int),
                (COORD_MAX as int) * (SCALE as int));
            lemma_abs_mul((v - self.cy) as int, zs, 2 * (CENTER_MAX as int),
                (COORD_MAX as int) * (SCALE as int));
            let bm = 2 * (CENTER_MAX as int) * ((COORD_MAX as int) * (SCALE as int));
            assert(bm <= bm * (self.fx as int)) by (nonlinear_arith)
                requires self.fx >= 1, bm == 0x800_0000_0000_0000;
            assert(bm <= bm * (self.fy as int)) by (nonlinear_arith)
                requires self.fy >= 1, bm == 0x800_0000_0000_0000;
            lemma_tdiv_bound((u - self.cx) * zs, self.fx as int, bm);
            lemma_tdiv_bound((v - self.cy) * zs, self.fy as int, bm);
        }
        let zs = (z as i128) * (SCALE as i128);
        let x = div_round_zero_wide(((u - self.cx) as i128) * zs, self.fx as i128);
        let y = div_round_zero_wide(((v - self.cy) as i128) * zs, self.fy as i128);
        Vec3 { x: x as i64, y: y as i64, z }
    }
}

} // verus!
