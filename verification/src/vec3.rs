use vstd::prelude::*;

verus! {

/// The mathematical value of a 3D vector: three unbounded integers, each a
/// count of 1/SCALE units.
pub ghost struct V3M {
    pub x: int,
    pub y: int,
    pub z: int,
}

impl V3M {
    pub open spec fn all_within(self, m: int) -> bool {
        -m <= self.x <= m && -m <= self.y <= m && -m <= self.z <= m
    }
}

/// A 3D vector in fixed-point coordinates.
#[derive(Clone, Copy, PartialEq, Eq, Structural, Debug)]
pub struct Vec3 {
    pub x: i64,
    pub y: i64,
    pub z: i64,
}

impl View for Vec3 {
    type V = V3M;

    open spec fn view(&self) -> V3M {
        V3M { x: self.x as int, y: self.y as int, z: self.z as int }
    }
}

impl Vec3 {
    pub fn new(x: i64, y: i64, z: i64) -> (r: Vec3)
        ensures
            r@ == (V3M { x: x as int, y: y as int, z: z as int }),
    {
        Vec3 { x, y, z }
    }

    pub fn zero() -> (r: Vec3)
        ensures
            r@ == (V3M { x: 0, y: 0, z: 0 }),
    {
        Vec3 { x: 0, y: 0, z: 0 }
    }

    /// Squared Euclidean length, exact.
    pub open spec fn norm_sq_spec(self) -> int {
        self@.x * self@.x + self@.y * self@.y + self@.z * self@.z
    }

    pub fn norm_sq(&self, m: i64) -> (r: i128)
        requires
            0 <= m <= 0x800_0000_0000,
            self@.all_within(m as int),
        ensures
            r == self.norm_sq_spec(),
            0 <= r <= 3 * ((m as int) * (m as int)),
    {
        proof {
            assert((m as int) * (m as int) <= 0x40_0000_0000_0000_0000_0000) by (nonlinear_arith)
                requires 0 <= m <= 0x800_0000_0000;
            crate::fixed::lemma_abs_mul(self@.x, self@.x, m as int, m as int);
            crate::fixed::lemma_abs_mul(self@.y, self@.y, m as int, m as int);
            crate::fixed::lemma_abs_mul(self@.z, self@.z, m as int, m as int);
            assert(self@.x * self@.x >= 0) by (nonlinear_arith);
            assert(self@.y * self@.y >= 0) by (nonlinear_arith);
            assert(self@.z * self@.z >= 0) by (nonlinear_arith);
        }
        (self.x as i128) * (self.x as i128) + (self.y as i128) * (self.y as i128) + (self.z
            as i128) * (self.z as i128)
    }

    /// Component-wise sum, exact.
    pub fn add(&self, other: &Vec3) -> (r: Vec3)
        requires
            self@.all_within(0x2000_0000_0000_0000),
            other@.all_within(0x2000_0000_0000_0000),
        ensures
            r@ == (V3M {
                x: self@.x + other@.x,
                y: self@.y + other@.y,
                z: self@.z + other@.z,
            }),
    {
        Vec3 { x: self.x + other.x, y: self.y + other.y, z: self.z + other.z }
    }

    /// Component-wise difference, exact.
    pub fn sub(&self, other: &Vec3) -> (r: Vec3)
        requires
            self@.all_within(0x2000_0000_0000_0000),
            other@.all_within(0x2000_0000_0000_0000),
        ensures
            r@ == (V3M {
                x: self@.x - other@.x,
                y: self@.y - other@.y,
                z: self@.z - other@.z,
            }),
    {
        Vec3 { x: self.x - other.x, y: self.y - other.y, z: self.z - other.z }
    }

    /// Squared distance to another vector, exact.
    pub open spec fn dist_sq_spec(self, other: Vec3) -> int {
        (self@.x - other@.x) * (self@.x - other@.x) + (self@.y - other@.y) * (self@.y - other@.y)
            + (self@.z - other@.z) * (self@.z - other@.z)
    }

    pub fn dist_sq(&self, other: &Vec3, m: i64) -> (r: i128)
        requires
            0 <= m <= 0x400_0000_0000,
            self@.all_within(m as int),
            other@.all_within(m as int),
        ensures
            r == self.dist_sq_spec(*other),
            0 <= r <= 12 * ((m as int) * (m as int)),
    {
        let d = self.sub(other);
        proof {
            assert(d@.all_within(2 * m));
            assert(2 * (m as int) <= 0x800_0000_0000 < 0x2000_0000_0000_0000);
        }
        let dm: i64 = 2 * m;
        let r = d.norm_sq(dm);
        proof {
            assert(3 * ((2 * (m as int)) * (2 * (m as int))) == 12 * ((m as int) * (m as int)))
                by (nonlinear_arith);
        }
        r
    }

    /// Dot product, exact.
    pub open spec fn dot_spec(self, other: Vec3) -> int {
        self@.x * other@.x + self@.y * other@.y + self@.z * other@.z
    }

    pub fn dot(&self, other: &Vec3, m: i64) -> (r: i128)
        requires
            0 <= m <= 0x800_0000_0000,
            self@.all_within(m as int),
            other@.all_within(m as int),
        ensures
            r == self.dot_spec(*other),
            -3 * ((m as int) * (m as int)) <= r <= 3 * ((m as int) * (m as int)),
    {
        proof {
            assert((m as int) * (m as int) <= 0x40_0000_0000_0000_0000_0000) by (nonlinear_arith)
                requires 0 <= m <= 0x800_0000_0000;
            crate::fixed::lemma_abs_mul(self@.x, other@.x, m as int, m as int);
            crate::fixed::lemma_abs_mul(self@.y, other@.y, m as int, m as int);
            crate::fixed::lemma_abs_mul(self@.z, other@.z, m as int, m as int);
        }
        let r = (self.x as i128) * (other.x as i128) + (self.y as i128) * (other.y as i128) + (
        self.z as i128) * (other.z as i128);
        proof {
            let mm = (m as int) * (m as int);
            assert(r == self.dot_spec(*other));
            assert(-mm <= self@.x * other@.x <= mm);
            assert(-mm <= self@.y * other@.y <= mm);
            assert(-mm <= self@.z * other@.z <= mm);
            assert(r == self@.x * other@.x + self@.y * other@.y + self@.z * other@.z);
            assert(r >= -3 * mm && r <= 3 * mm) by (nonlinear_arith)
                requires
                    r == self@.x * other@.x + self@.y * other@.y + self@.z * other@.z,
                    -mm <= self@.x * other@.x <= mm,
                    -mm <= self@.y * other@.y <= mm,
                    -mm <= self@.z * other@.z <= mm,
            ;
        }
        r
    }
}

} // verus!
