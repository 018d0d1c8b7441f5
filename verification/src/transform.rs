use vstd::prelude::*;

use crate::fixed::{tdiv, lemma_tdiv_bound, lemma_tdiv_exact, lemma_abs_mul, lemma_sq_bound,
    lemma_prod_within_norm, div_round_zero_wide, half, SCALE};
use crate::vec3::{V3M, Vec3};

verus! {

/// Largest allowed squared norm of a stored rotation quaternion (2^40).
pub const QUAT_NORM_MAX: i64 = 0x100_0000_0000;

/// Largest magnitude of a stored quaternion component that the norm cap
/// admits (2^20).
pub const QUAT_COMP_MAX: i64 = 0x10_0000;

/// Largest translation magnitude a well-formed transform may carry (2^41).
pub const TRANS_MAX: i64 = 0x200_0000_0000;

/// Largest translation magnitude accepted by `compose` and `inverse` (2^35).
pub const TRANS_SAFE: i64 = 0x8_0000_0000;

/// Largest coordinate magnitude accepted by `transform_vector` (2^35).
pub const VEC_IN_MAX: i64 = 0x8_0000_0000;

/// Largest rotation component accepted by `se3_exp` (2^19).
pub const ROT_IN_MAX: i64 = 0x8_0000;

/// The mathematical value of a rotation: an integer quaternion read
/// projectively, i.e. `q` and `c*q` denote the same rotation for `c > 0`.
pub ghost struct QuatM {
    pub w: int,
    pub x: int,
    pub y: int,
    pub z: int,
}

/// The mathematical value of a rigid transform: a projective rotation
/// quaternion and a fixed-point translation.
pub ghost struct TransformM {
    pub q: QuatM,
    pub t: V3M,
}

/// The mathematical value of a tangent-space increment: translation and
/// scaled-axis rotation, three fixed-point components each.
pub ghost struct TangentM {
    pub t: V3M,
    pub r: V3M,
}

pub open spec fn quat_norm_sq(q: QuatM) -> int {
    q.w * q.w + q.x * q.x + q.y * q.y + q.z * q.z
}

pub open spec fn quat_conj(q: QuatM) -> QuatM {
    QuatM { w: q.w, x: -q.x, y: -q.y, z: -q.z }
}

/// Hamilton product of two quaternions, exact.
pub open spec fn quat_mul(a: QuatM, b: QuatM) -> QuatM {
    QuatM {
        w: a.w * b.w - a.x * b.x - a.y * b.y - a.z * b.z,
        x: a.w * b.x + a.x * b.w + a.y * b.z - a.z * b.y,
        y: a.w * b.y - a.x * b.z + a.y * b.w + a.z * b.x,
        z: a.w * b.z + a.x * b.y - a.y * b.x + a.z * b.w,
    }
}

pub open spec fn quat_half(q: QuatM) -> QuatM {
    QuatM { w: tdiv(q.w, 2), x: tdiv(q.x, 2), y: tdiv(q.y, 2), z: tdiv(q.z, 2) }
}

/// Halving a component at least quarters its square.
proof fn lemma_half_sq(c: int)
    ensures
        4 * (tdiv(c, 2) * tdiv(c, 2)) <= c * c,
        tdiv(c, 2) * tdiv(c, 2) >= 0,
{
    let h = tdiv(c, 2);
    if c >= 0 {
        vstd::arithmetic::div_mod::lemma_fundamental_div_mod(c, 2);
        assert(4 * (h * h) <= c * c && h * h >= 0) by (nonlinear_arith)
            requires c == 2 * h + c % 2, 0 <= c % 2 < 2, h >= 0;
    } else {
        vstd::arithmetic::div_mod::lemma_fundamental_div_mod(-c, 2);
        assert(4 * (h * h) <= c * c && h * h >= 0) by (nonlinear_arith)
            requires -c == 2 * (-h) + (-c) % 2, 0 <= (-c) % 2 < 2, -h >= 0;
    }
}

proof fn lemma_norm_nonneg(q: QuatM)
    ensures
        quat_norm_sq(q) >= 0,
        q.w * q.w >= 0,
        q.x * q.x >= 0,
        q.y * q.y >= 0,
        q.z * q.z >= 0,
        q.w * q.w <= quat_norm_sq(q),
        q.x * q.x <= quat_norm_sq(q),
        q.y * q.y <= quat_norm_sq(q),
        q.z * q.z <= quat_norm_sq(q),
{
    assert(q.w * q.w >= 0) by (nonlinear_arith);
    assert(q.x * q.x >= 0) by (nonlinear_arith);
    assert(q.y * q.y >= 0) by (nonlinear_arith);
    assert(q.z * q.z >= 0) by (nonlinear_arith);
}

proof fn lemma_half_norm(q: QuatM)
    ensures
        4 * quat_norm_sq(quat_half(q)) <= quat_norm_sq(q),
        quat_norm_sq(quat_half(q)) >= 0,
{
    lemma_half_sq(q.w);
    lemma_half_sq(q.x);
    lemma_half_sq(q.y);
    lemma_half_sq(q.z);
}

/// Scale a quaternion down by halving until its squared norm is within the
/// storage cap. Pure scalars stay pure scalars, so this never changes the
/// rotation that the quaternion denotes beyond fixed-point rounding.
pub open spec fn quat_renorm(q: QuatM) -> QuatM
    decreases quat_norm_sq(q) via lemma_quat_renorm_dec
{
    if quat_norm_sq(q) > QUAT_NORM_MAX {
        quat_renorm(quat_half(q))
    } else {
        q
    }
}

#[via_fn]
proof fn lemma_quat_renorm_dec(q: QuatM) {
    lemma_half_norm(q);
    lemma_norm_nonneg(q);
}

/// A vector as a pure (real-part-zero) quaternion.
pub open spec fn quat_pure(v: V3M) -> QuatM {
    QuatM { w: 0, x: v.x, y: v.y, z: v.z }
}

/// The rotation a quaternion denotes, applied to a vector: the sandwich
/// product `q v q*` with each component divided by the squared norm,
/// rounding toward zero.
pub open spec fn rotate_model(q: QuatM, v: V3M) -> V3M {
    let s = quat_mul(quat_mul(q, quat_pure(v)), quat_conj(q));
    let n = quat_norm_sq(q);
    V3M { x: tdiv(s.x, n), y: tdiv(s.y, n), z: tdiv(s.z, n) }
}

/// A rigid transform applied to a point: rotate, then translate.
pub open spec fn apply_model(t: TransformM, v: V3M) -> V3M {
    let r = rotate_model(t.q, v);
    V3M { x: r.x + t.t.x, y: r.y + t.t.y, z: r.z + t.t.z }
}

pub open spec fn identity_quat() -> QuatM {
    QuatM { w: 1, x: 0, y: 0, z: 0 }
}

/// Composition applying `b` first, then `a`.
pub open spec fn compose_model(a: TransformM, b: TransformM) -> TransformM {
    let p = quat_renorm(quat_mul(a.q, b.q));
    let q = if quat_norm_sq(p) >= 1 {
        p
    } else {
        identity_quat()
    };
    let rt = rotate_model(a.q, b.t);
    TransformM { q, t: V3M { x: rt.x + a.t.x, y: rt.y + a.t.y, z: rt.z + a.t.z } }
}

/// The inverse transform: conjugate rotation, and the old translation
/// rotated back and negated.
pub open spec fn inverse_model(t: TransformM) -> TransformM {
    let r = rotate_model(quat_conj(t.q), t.t);
    TransformM { q: quat_conj(t.q), t: V3M { x: -r.x, y: -r.y, z: -r.z } }
}

/// First-order retraction of a tangent increment onto the rigid transforms:
/// the rotation quaternion is `(2*SCALE, rx, ry, rz)` and the translation is
/// taken directly.
pub open spec fn exp_model(v: TangentM) -> TransformM {
    TransformM { q: QuatM { w: 2 * (SCALE as int), x: v.r.x, y: v.r.y, z: v.r.z }, t: v.t }
}

/// Inverse of the retraction for rotations with a positive real part.
pub open spec fn log_model(t: TransformM) -> TangentM {
    TangentM {
        t: t.t,
        r: V3M {
            x: tdiv(2 * (SCALE as int) * t.q.x, t.q.w),
            y: tdiv(2 * (SCALE as int) * t.q.y, t.q.w),
            z: tdiv(2 * (SCALE as int) * t.q.z, t.q.w),
        },
    }
}

/// A rigid transform: rotation held as an integer quaternion read
/// projectively, translation in fixed-point coordinates. The quaternion norm
/// is capped so that all sandwich products fit in 128-bit intermediates.
#[derive(Clone, Copy, PartialEq, Eq, Structural, Debug)]
pub struct Transform {
    pub qw: i64,
    pub qx: i64,
    pub qy: i64,
    pub qz: i64,
    pub t: Vec3,
}

/// A tangent-space pose increment: translation plus scaled-axis rotation.
#[derive(Clone, Copy, PartialEq, Eq, Structural, Debug)]
pub struct TangentVec {
    pub t: Vec3,
    pub r: Vec3,
}

impl View for TangentVec {
    type V = TangentM;

    open spec fn view(&self) -> TangentM {
        TangentM { t: self.t@, r: self.r@ }
    }
}

impl View for Transform {
    type V = TransformM;

    open spec fn view(&self) -> TransformM {
        TransformM {
            q: QuatM { w: self.qw as int, x: self.qx as int, y: self.qy as int, z: self.qz as int },
            t: self.t@,
        }
    }
}

impl Transform {
    /// Well-formedness: the quaternion denotes a rotation (nonzero) and is
    /// within the storage caps, and the translation is bounded.
    pub open spec fn wf(self) -> bool {
        &&& 1 <= quat_norm_sq(self@.q) <= QUAT_NORM_MAX
        &&& self@.t.all_within(TRANS_MAX as int)
    }

    /// The identity transform.
    pub fn eye() -> (r: Transform)
        ensures
            r.wf(),
            r@.q == identity_quat(),
            r@.t == (V3M { x: 0, y: 0, z: 0 }),
    {
        Transform { qw: 1, qx: 0, qy: 0, qz: 0, t: Vec3::zero() }
    }

    /// A transform from an explicit quaternion and translation.
    pub fn new(qw: i64, qx: i64, qy: i64, qz: i64, t: Vec3) -> (r: Transform)
        requires
            -ROT_IN_MAX <= qw <= ROT_IN_MAX,
            -ROT_IN_MAX <= qx <= ROT_IN_MAX,
            -ROT_IN_MAX <= qy <= ROT_IN_MAX,
            -ROT_IN_MAX <= qz <= ROT_IN_MAX,
            quat_norm_sq(
                QuatM { w: qw as int, x: qx as int, y: qy as int, z: qz as int },
            ) >= 1,
            t@.all_within(TRANS_MAX as int),
        ensures
            r.wf(),
            r@.q == (QuatM { w: qw as int, x: qx as int, y: qy as int, z: qz as int }),
            r@.t == t@,
    {
        proof {
            let q = QuatM { w: qw as int, x: qx as int, y: qy as int, z: qz as int };
            lemma_abs_mul(q.w, q.w, ROT_IN_MAX as int, ROT_IN_MAX as int);
            lemma_abs_mul(q.x, q.x, ROT_IN_MAX as int, ROT_IN_MAX as int);
            lemma_abs_mul(q.y, q.y, ROT_IN_MAX as int, ROT_IN_MAX as int);
            lemma_abs_mul(q.z, q.z, ROT_IN_MAX as int, ROT_IN_MAX as int);
        }
        Transform { qw, qx, qy, qz, t }
    }

    pub fn translation(&self) -> (r: Vec3)
        ensures
            r@ == self@.t,
    {
        self.t
    }

    /// Retraction of a tangent increment onto the rigid transforms.
    pub fn se3_exp(v: &TangentVec) -> (r: Transform)
        requires
            v.r@.all_within(ROT_IN_MAX as int),
            v.t@.all_within(TRANS_MAX as int),
        ensures
            r.wf(),
            r@ == exp_model(v@),
            r@.q.w >= 1,
    {
        let r = Transform { qw: 2 * SCALE, qx: v.r.x, qy: v.r.y, qz: v.r.z, t: v.t };
        proof {
            let q = r@.q;
            assert(q.w == 131072);
            lemma_abs_mul(q.x, q.x, ROT_IN_MAX as int, ROT_IN_MAX as int);
            lemma_abs_mul(q.y, q.y, ROT_IN_MAX as int, ROT_IN_MAX as int);
            lemma_abs_mul(q.z, q.z, ROT_IN_MAX as int, ROT_IN_MAX as int);
            lemma_norm_nonneg(q);
            assert(quat_norm_sq(q) >= q.w * q.w);
            assert(q.w * q.w == 131072 * 131072) by (nonlinear_arith)
                requires q.w == 131072;
        }
        r
    }

    /// Inverse of the retraction; defined for rotations with a positive real
    /// part, which covers every result of `se3_exp`.
    pub fn se3_log(&self) -> (r: TangentVec)
        requires
            self.wf(),
            self@.q.w >= 1,
        ensures
            r@ == log_model(self@),
    {
        proof {
            lemma_norm_nonneg(self@.q);
            lemma_sq_bound(self@.q.x, QUAT_COMP_MAX as int);
            lemma_sq_bound(self@.q.y, QUAT_COMP_MAX as int);
            lemma_sq_bound(self@.q.z, QUAT_COMP_MAX as int);
            assert((QUAT_COMP_MAX as int) * (QUAT_COMP_MAX as int) == QUAT_NORM_MAX as int)
                by (nonlinear_arith);
            let m: int = 2 * (SCALE as int) * (QUAT_COMP_MAX as int);
            assert(m <= m * self@.q.w) by (nonlinear_arith)
                requires self@.q.w >= 1, m >= 0;
        }
        let s2: i64 = 2 * SCALE;
        let rx128 = div_round_zero_wide((s2 as i128) * (self.qx as i128), self.qw as i128);
        let ry128 = div_round_zero_wide((s2 as i128) * (self.qy as i128), self.qw as i128);
        let rz128 = div_round_zero_wide((s2 as i128) * (self.qz as i128), self.qw as i128);
        proof {
            lemma_tdiv_bound(2 * (SCALE as int) * self@.q.x, self@.q.w as int,
                2 * (SCALE as int) * QUAT_COMP_MAX);
            lemma_tdiv_bound(2 * (SCALE as int) * self@.q.y, self@.q.w as int,
                2 * (SCALE as int) * QUAT_COMP_MAX);
            lemma_tdiv_bound(2 * (SCALE as int) * self@.q.z, self@.q.w as int,
                2 * (SCALE as int) * QUAT_COMP_MAX);
        }
        TangentVec {
            t: self.t,
            r: Vec3 { x: rx128 as i64, y: ry128 as i64, z: rz128 as i64 },
        }
    }
}

pub open spec fn abs_int(x: int) -> int {
    if x < 0 {
        -x
    } else {
        x
    }
}

/// The rotated image of a vector stays within 16 times the vector's bound,
/// whatever the quaternion's scale.
pub proof fn lemma_rotate_bound(q: QuatM, v: V3M, m: int)
    requires
        1 <= quat_norm_sq(q),
        m >= 0,
        v.all_within(m),
    ensures
        rotate_model(q, v).all_within(16 * m),
{
    let n = quat_norm_sq(q);
    let a = {
        let aw = abs_int(q.w);
        let ax = abs_int(q.x);
        let ay = abs_int(q.y);
        let az = abs_int(q.z);
        let m1 = if aw >= ax { aw } else { ax };
        let m2 = if m1 >= ay { m1 } else { ay };
        if m2 >= az { m2 } else { az }
    };
    lemma_norm_nonneg(q);
    assert(abs_int(q.w) * abs_int(q.w) == q.w * q.w) by (nonlinear_arith);
    assert(abs_int(q.x) * abs_int(q.x) == q.x * q.x) by (nonlinear_arith);
    assert(abs_int(q.y) * abs_int(q.y) == q.y * q.y) by (nonlinear_arith);
    assert(abs_int(q.z) * abs_int(q.z) == q.z * q.z) by (nonlinear_arith);
    assert(a * a <= n);
    assert(a >= 0);
    let p = quat_mul(q, quat_pure(v));
    let am = a * m;
    assert(a * m >= 0) by (nonlinear_arith)
        requires a >= 0, m >= 0;
    lemma_abs_mul(q.w, v.x, a, m);
    lemma_abs_mul(q.w, v.y, a, m);
    lemma_abs_mul(q.w, v.z, a, m);
    lemma_abs_mul(q.x, v.x, a, m);
    lemma_abs_mul(q.x, v.y, a, m);
    lemma_abs_mul(q.x, v.z, a, m);
    lemma_abs_mul(q.y, v.x, a, m);
    lemma_abs_mul(q.y, v.y, a, m);
    lemma_abs_mul(q.y, v.z, a, m);
    lemma_abs_mul(q.z, v.x, a, m);
    lemma_abs_mul(q.z, v.y, a, m);
    lemma_abs_mul(q.z, v.z, a, m);
    let pb = 4 * am;
    assert(-pb <= p.w <= pb);
    assert(-pb <= p.x <= pb);
    assert(-pb <= p.y <= pb);
    assert(-pb <= p.z <= pb);
    let c = quat_conj(q);
    let s = quat_mul(p, c);
    lemma_abs_mul(p.w, c.w, pb, a);
    lemma_abs_mul(p.w, c.x, pb, a);
    lemma_abs_mul(p.w, c.y, pb, a);
    lemma_abs_mul(p.w, c.z, pb, a);
    lemma_abs_mul(p.x, c.w, pb, a);
    lemma_abs_mul(p.x, c.x, pb, a);
    lemma_abs_mul(p.x, c.y, pb, a);
    lemma_abs_mul(p.x, c.z, pb, a);
    lemma_abs_mul(p.y, c.w, pb, a);
    lemma_abs_mul(p.y, c.x, pb, a);
    lemma_abs_mul(p.y, c.y, pb, a);
    lemma_abs_mul(p.y, c.z, pb, a);
    lemma_abs_mul(p.z, c.w, pb, a);
    lemma_abs_mul(p.z, c.x, pb, a);
    lemma_abs_mul(p.z, c.y, pb, a);
    lemma_abs_mul(p.z, c.z, pb, a);
    let sb = 4 * (pb * a);
    assert(-sb <= s.x <= sb);
    assert(-sb <= s.y <= sb);
    assert(-sb <= s.z <= sb);
    assert(sb <= (16 * m) * n) by (nonlinear_arith)
        requires
            sb == 4 * ((4 * (a * m)) * a),
            a * a <= n,
            m >= 0,
            a >= 0,
            n >= 1,
    ;
    lemma_tdiv_bound(s.x, n, 16 * m);
    lemma_tdiv_bound(s.y, n, 16 * m);
    lemma_tdiv_bound(s.z, n, 16 * m);
}

/// Scaling a pure-scalar quaternion into range keeps it a pure scalar with a
/// positive real part.
proof fn lemma_renorm_scalar(w: int)
    requires
        w >= 1,
    ensures
        quat_renorm(QuatM { w, x: 0, y: 0, z: 0 }).w >= 1,
        quat_renorm(QuatM { w, x: 0, y: 0, z: 0 }).x == 0,
        quat_renorm(QuatM { w, x: 0, y: 0, z: 0 }).y == 0,
        quat_renorm(QuatM { w, x: 0, y: 0, z: 0 }).z == 0,
    decreases w,
{
    let s = QuatM { w, x: 0, y: 0, z: 0 };
    assert(quat_norm_sq(s) == w * w);
    if quat_norm_sq(s) > QUAT_NORM_MAX {
        assert(w >= 2) by (nonlinear_arith)
            requires w >= 1, w * w > 0x100_0000_0000;
        let h = tdiv(w, 2);
        vstd::arithmetic::div_mod::lemma_fundamental_div_mod(w, 2);
        assert(h >= 1 && h < w);
        assert(quat_half(s) == (QuatM { w: h, x: 0, y: 0, z: 0 }));
        lemma_renorm_scalar(h);
        assert(quat_renorm(s) == quat_renorm(quat_half(s)));
    }
}

/// Inverting and then composing recovers the identity action exactly: the
/// rounding of the inverse's translation cancels against the composition's,
/// and the quaternion collapses to a pure scalar, which acts as the identity
/// on every vector.
pub proof fn lemma_inverse_compose_identity(t: TransformM, v: V3M)
    requires
        1 <= quat_norm_sq(t.q),
    ensures
        apply_model(compose_model(inverse_model(t), t), v) == v,
{
    let q = t.q;
    let n = quat_norm_sq(q);
    let iq = quat_conj(q);
    let prod = quat_mul(iq, q);
    assert(prod.w == q.w * q.w + q.x * q.x + q.y * q.y + q.z * q.z) by (nonlinear_arith)
        requires prod == quat_mul(quat_conj(q), q);
    assert(prod.x == 0) by (nonlinear_arith)
        requires prod == quat_mul(quat_conj(q), q);
    assert(prod.y == 0) by (nonlinear_arith)
        requires prod == quat_mul(quat_conj(q), q);
    assert(prod.z == 0) by (nonlinear_arith)
        requires prod == quat_mul(quat_conj(q), q);
    assert(prod == (QuatM { w: n, x: 0, y: 0, z: 0 }));
    lemma_renorm_scalar(n);
    let p = quat_renorm(prod);
    let d = p.w;
    assert(d >= 1);
    assert(quat_norm_sq(p) == d * d);
    assert(d * d >= 1) by (nonlinear_arith)
        requires d >= 1;
    let inv = inverse_model(t);
    let comp = compose_model(inv, t);
    assert(comp.q == p);
    assert(comp.t == (V3M { x: 0, y: 0, z: 0 }));
    lemma_scalar_rotate(d, v);
    assert(rotate_model(comp.q, v) == v);
}

/// A pure-scalar quaternion acts as the identity rotation, exactly.
proof fn lemma_scalar_rotate(d: int, v: V3M)
    requires
        d >= 1,
    ensures
        rotate_model(QuatM { w: d, x: 0, y: 0, z: 0 }, v) == v,
{
    let p = QuatM { w: d, x: 0, y: 0, z: 0 };
    let pv = quat_mul(p, quat_pure(v));
    assert(pv.w == d * 0 - 0 * v.x - 0 * v.y - 0 * v.z);
    assert(pv.x == d * v.x + 0 * 0 + 0 * v.z - 0 * v.y);
    assert(pv.y == d * v.y - 0 * v.z + 0 * 0 + 0 * v.x);
    assert(pv.z == d * v.z + 0 * v.y - 0 * v.x + 0 * 0);
    assert(d * 0 - 0 * v.x - 0 * v.y - 0 * v.z == 0) by (nonlinear_arith);
    assert(d * v.x + 0 * 0 + 0 * v.z - 0 * v.y == d * v.x) by (nonlinear_arith);
    assert(d * v.y - 0 * v.z + 0 * 0 + 0 * v.x == d * v.y) by (nonlinear_arith);
    assert(d * v.z + 0 * v.y - 0 * v.x + 0 * 0 == d * v.z) by (nonlinear_arith);
    let sv = quat_mul(pv, quat_conj(p));
    assert(quat_conj(p) == (QuatM { w: d, x: 0, y: 0, z: 0 }));
    assert(sv.x == pv.w * 0 + pv.x * d + pv.y * 0 - pv.z * 0);
    assert(sv.y == pv.w * 0 - pv.x * 0 + pv.y * d + pv.z * 0);
    assert(sv.z == pv.w * 0 + pv.x * 0 - pv.y * 0 + pv.z * d);
    assert(sv.x == 0 * 0 + (d * v.x) * d + (d * v.y) * 0 - (d * v.z) * 0);
    assert(sv.y == 0 * 0 - (d * v.x) * 0 + (d * v.y) * d + (d * v.z) * 0);
    assert(sv.z == 0 * 0 + (d * v.x) * 0 - (d * v.y) * 0 + (d * v.z) * d);
    assert(0 * 0 + (d * v.x) * d + (d * v.y) * 0 - (d * v.z) * 0 == (d * d) * v.x)
        by (nonlinear_arith);
    assert(0 * 0 - (d * v.x) * 0 + (d * v.y) * d + (d * v.z) * 0 == (d * d) * v.y)
        by (nonlinear_arith);
    assert(0 * 0 + (d * v.x) * 0 - (d * v.y) * 0 + (d * v.z) * d == (d * d) * v.z)
        by (nonlinear_arith);
    assert(quat_norm_sq(p) == d * d + 0 * 0 + 0 * 0 + 0 * 0);
    assert(d * d + 0 * 0 + 0 * 0 + 0 * 0 == d * d) by (nonlinear_arith);
    assert(d * d >= 1) by (nonlinear_arith)
        requires d >= 1;
    lemma_tdiv_exact(v.x, d * d);
    lemma_tdiv_exact(v.y, d * d);
    lemma_tdiv_exact(v.z, d * d);
}

impl Transform {
    /// Squared norm of the rotation quaternion.
    fn quat_norm_sq_exec(&self) -> (n: i64)
        requires
            self.wf(),
        ensures
            n == quat_norm_sq(self@.q),
            1 <= n <= QUAT_NORM_MAX,
    {
        proof {
            lemma_norm_nonneg(self@.q);
            lemma_sq_bound(self@.q.w, QUAT_COMP_MAX as int);
            lemma_sq_bound(self@.q.x, QUAT_COMP_MAX as int);
            lemma_sq_bound(self@.q.y, QUAT_COMP_MAX as int);
            lemma_sq_bound(self@.q.z, QUAT_COMP_MAX as int);
            assert((QUAT_COMP_MAX as int) * (QUAT_COMP_MAX as int) == QUAT_NORM_MAX as int)
                by (nonlinear_arith);
        }
        let n128 = (self.qw as i128) * (self.qw as i128) + (self.qx as i128) * (self.qx as i128)
            + (self.qy as i128) * (self.qy as i128) + (self.qz as i128) * (self.qz as i128);
        n128 as i64
    }

    /// The rotation part applied to a vector: the quaternion sandwich product
    /// scaled back by the squared norm, exactly as `rotate_model` states.
    pub fn transform_normal(&self, v: &Vec3) -> (r: Vec3)
        requires
            self.wf(),
            v@.all_within(VEC_IN_MAX as int),
        ensures
            r@ == rotate_model(self@.q, v@),
            r@.all_within(16 * (VEC_IN_MAX as int)),
    {
        proof {
            lemma_norm_nonneg(self@.q);
            lemma_sq_bound(self@.q.w, QUAT_COMP_MAX as int);
            lemma_sq_bound(self@.q.x, QUAT_COMP_MAX as int);
            lemma_sq_bound(self@.q.y, QUAT_COMP_MAX as int);
            lemma_sq_bound(self@.q.z, QUAT_COMP_MAX as int);
            assert((QUAT_COMP_MAX as int) * (QUAT_COMP_MAX as int) == QUAT_NORM_MAX as int)
                by (nonlinear_arith);
            lemma_rotate_bound(self@.q, v@, VEC_IN_MAX as int);
        }
        let qw = self.qw as i128;
        let qx = self.qx as i128;
        let qy = self.qy as i128;
        let qz = self.qz as i128;
        let vx = v.x as i128;
        let vy = v.y as i128;
        let vz = v.z as i128;
        proof {
            let qm = QUAT_COMP_MAX as int;
            let vm = VEC_IN_MAX as int;
            lemma_abs_mul(qw as int, vx as int, qm, vm);
            lemma_abs_mul(qw as int, vy as int, qm, vm);
            lemma_abs_mul(qw as int, vz as int, qm, vm);
            lemma_abs_mul(qx as int, vx as int, qm, vm);
            lemma_abs_mul(qx as int, vy as int, qm, vm);
            lemma_abs_mul(qx as int, vz as int, qm, vm);
            lemma_abs_mul(qy as int, vx as int, qm, vm);
            lemma_abs_mul(qy as int, vy as int, qm, vm);
            lemma_abs_mul(qy as int, vz as int, qm, vm);
            lemma_abs_mul(qz as int, vx as int, qm, vm);
            lemma_abs_mul(qz as int, vy as int, qm, vm);
            lemma_abs_mul(qz as int, vz as int, qm, vm);
        }
        let pw = qw * 0 - qx * vx - qy * vy - qz * vz;
        let px = qw * vx + qx * 0 + qy * vz - qz * vy;
        let py = qw * vy - qx * vz + qy * 0 + qz * vx;
        let pz = qw * vz + qx * vy - qy * vx + qz * 0;
        proof {
            let qm = QUAT_COMP_MAX as int;
            let pb = 0x200_0000_0000_0000;
            lemma_abs_mul(pw as int, -(qx as int), pb, qm);
            lemma_abs_mul(pw as int, -(qy as int), pb, qm);
            lemma_abs_mul(pw as int, -(qz as int), pb, qm);
            lemma_abs_mul(px as int, qw as int, pb, qm);
            lemma_abs_mul(px as int, -(qy as int), pb, qm);
            lemma_abs_mul(px as int, -(qz as int), pb, qm);
            lemma_abs_mul(py as int, qw as int, pb, qm);
            lemma_abs_mul(py as int, -(qx as int), pb, qm);
            lemma_abs_mul(py as int, -(qz as int), pb, qm);
            lemma_abs_mul(pz as int, qw as int, pb, qm);
            lemma_abs_mul(pz as int, -(qx as int), pb, qm);
            lemma_abs_mul(pz as int, -(qy as int), pb, qm);
        }
        let sx = pw * (-qx) + px * qw + py * (-qz) - pz * (-qy);
        let sy = pw * (-qy) - px * (-qz) + py * qw + pz * (-qx);
        let sz = pw * (-qz) + px * (-qy) - py * (-qx) + pz * qw;
        let n = self.quat_norm_sq_exec() as i128;
        let rx = div_round_zero_wide(sx, n);
        let ry = div_round_zero_wide(sy, n);
        let rz = div_round_zero_wide(sz, n);
        proof {
            assert(rotate_model(self@.q, v@).x == tdiv(sx as int, n as int));
            assert(rotate_model(self@.q, v@).y == tdiv(sy as int, n as int));
            assert(rotate_model(self@.q, v@).z == tdiv(sz as int, n as int));
        }
        Vec3 { x: rx as i64, y: ry as i64, z: rz as i64 }
    }

    /// The whole transform applied to a point: rotate, then translate.
    pub fn transform_vector(&self, v: &Vec3) -> (r: Vec3)
        requires
            self.wf(),
            v@.all_within(VEC_IN_MAX as int),
        ensures
            r@ == apply_model(self@, v@),
            r@.all_within(16 * (VEC_IN_MAX as int) + (TRANS_MAX as int)),
    {
        let rot = self.transform_normal(v);
        rot.add(&self.t)
    }

    /// The whole transform applied to every point of a buffer.
    pub fn transform_points(&self, points: &Vec<Vec3>) -> (r: Vec<Vec3>)
        requires
            self.wf(),
            forall|i: int|
                0 <= i < points@.len() ==> (#[trigger] points@[i])@.all_within(VEC_IN_MAX as int),
        ensures
            r@.len() == points@.len(),
            forall|i: int|
                0 <= i < points@.len() ==> (#[trigger] r@[i])@ == apply_model(
                    self@, points@[i]@),
    {
        let mut r: Vec<Vec3> = Vec::new();
        let mut i: usize = 0;
        while i < points.len()
            invariant
                self.wf(),
                i <= points@.len(),
                r@.len() == i,
                forall|j: int|
                    0 <= j < points@.len() ==> (#[trigger] points@[j])@.all_within(
                        VEC_IN_MAX as int),
                forall|j: int|
                    0 <= j < i ==> (#[trigger] r@[j])@ == apply_model(self@, points@[j]@),
            decreases points@.len() - i,
        {
            let p = self.transform_vector(&points[i]);
            r.push(p);
            i = i + 1;
        }
        r
    }

    /// Composition applying `rhs` first, then `self`.
    pub fn compose(&self, rhs: &Transform) -> (r: Transform)
        requires
            self.wf(),
            rhs.wf(),
            self@.t.all_within(TRANS_SAFE as int),
            rhs@.t.all_within(TRANS_SAFE as int),
        ensures
            r.wf(),
            r@ == compose_model(self@, rhs@),
    {
        proof {
            lemma_norm_nonneg(self@.q);
            lemma_norm_nonneg(rhs@.q);
            lemma_sq_bound(self@.q.w, QUAT_COMP_MAX as int);
            lemma_sq_bound(self@.q.x, QUAT_COMP_MAX as int);
            lemma_sq_bound(self@.q.y, QUAT_COMP_MAX as int);
            lemma_sq_bound(self@.q.z, QUAT_COMP_MAX as int);
            lemma_sq_bound(rhs@.q.w, QUAT_COMP_MAX as int);
            lemma_sq_bound(rhs@.q.x, QUAT_COMP_MAX as int);
            lemma_sq_bound(rhs@.q.y, QUAT_COMP_MAX as int);
            lemma_sq_bound(rhs@.q.z, QUAT_COMP_MAX as int);
            assert((QUAT_COMP_MAX as int) * (QUAT_COMP_MAX as int) == QUAT_NORM_MAX as int)
                by (nonlinear_arith);
        }
        let aw = self.qw as i128;
        let ax = self.qx as i128;
        let ay = self.qy as i128;
        let az = self.qz as i128;
        let bw = rhs.qw as i128;
        let bx = rhs.qx as i128;
        let by128 = rhs.qy as i128;
        let bz = rhs.qz as i128;
        proof {
            let qm = QUAT_COMP_MAX as int;
            lemma_abs_mul(aw as int, bw as int, qm, qm);
            lemma_abs_mul(aw as int, bx as int, qm, qm);
            lemma_abs_mul(aw as int, by128 as int, qm, qm);
            lemma_abs_mul(aw as int, bz as int, qm, qm);
            lemma_abs_mul(ax as int, bw as int, qm, qm);
            lemma_abs_mul(ax as int, bx as int, qm, qm);
            lemma_abs_mul(ax as int, by128 as int, qm, qm);
            lemma_abs_mul(ax as int, bz as int, qm, qm);
            lemma_abs_mul(ay as int, bw as int, qm, qm);
            lemma_abs_mul(ay as int, bx as int, qm, qm);
            lemma_abs_mul(ay as int, by128 as int, qm, qm);
            lemma_abs_mul(ay as int, bz as int, qm, qm);
            lemma_abs_mul(az as int, bw as int, qm, qm);
            lemma_abs_mul(az as int, bx as int, qm, qm);
            lemma_abs_mul(az as int, by128 as int, qm, qm);
            lemma_abs_mul(az as int, bz as int, qm, qm);
        }
        let mut w = (aw * bw - ax * bx - ay * by128 - az * bz) as i64;
        let mut x = (aw * bx + ax * bw + ay * bz - az * by128) as i64;
        let mut y = (aw * by128 - ax * bz + ay * bw + az * bx) as i64;
        let mut z = (aw * bz + ax * by128 - ay * bx + az * bw) as i64;
        let ghost orig = QuatM { w: w as int, x: x as int, y: y as int, z: z as int };
        proof {
            assert(orig == quat_mul(self@.q, rhs@.q));
        }
        let mut nfin: i64 = 0;
        loop
            invariant
                -0x4000_0000_0000 <= w <= 0x4000_0000_0000,
                -0x4000_0000_0000 <= x <= 0x4000_0000_0000,
                -0x4000_0000_0000 <= y <= 0x4000_0000_0000,
                -0x4000_0000_0000 <= z <= 0x4000_0000_0000,
                quat_renorm(orig) == quat_renorm(
                    QuatM { w: w as int, x: x as int, y: y as int, z: z as int },
                ),
            ensures
                -0x4000_0000_0000 <= w <= 0x4000_0000_0000,
                -0x4000_0000_0000 <= x <= 0x4000_0000_0000,
                -0x4000_0000_0000 <= y <= 0x4000_0000_0000,
                -0x4000_0000_0000 <= z <= 0x4000_0000_0000,
                quat_renorm(orig) == (QuatM { w: w as int, x: x as int, y: y as int, z: z as int }),
                nfin == quat_norm_sq(QuatM { w: w as int, x: x as int, y: y as int, z: z as int }),
                0 <= nfin <= QUAT_NORM_MAX,
            decreases quat_norm_sq(QuatM { w: w as int, x: x as int, y: y as int, z: z as int }),
        {
            let ghost cur = QuatM { w: w as int, x: x as int, y: y as int, z: z as int };
            proof {
                lemma_norm_nonneg(cur);
                lemma_abs_mul(cur.w, cur.w, 0x4000_0000_0000, 0x4000_0000_0000);
                lemma_abs_mul(cur.x, cur.x, 0x4000_0000_0000, 0x4000_0000_0000);
                lemma_abs_mul(cur.y, cur.y, 0x4000_0000_0000, 0x4000_0000_0000);
                lemma_abs_mul(cur.z, cur.z, 0x4000_0000_0000, 0x4000_0000_0000);
            }
            let n128 = (w as i128) * (w as i128) + (x as i128) * (x as i128) + (y as i128) * (y
                as i128) + (z as i128) * (z as i128);
            if n128 <= QUAT_NORM_MAX as i128 {
                nfin = n128 as i64;
                proof {
                    assert(quat_renorm(cur) == cur);
                }
                break;
            }
            proof {
                lemma_half_norm(cur);
                lemma_tdiv_bound(cur.w, 2, 0x4000_0000_0000);
                lemma_tdiv_bound(cur.x, 2, 0x4000_0000_0000);
                lemma_tdiv_bound(cur.y, 2, 0x4000_0000_0000);
                lemma_tdiv_bound(cur.z, 2, 0x4000_0000_0000);
                assert(quat_renorm(cur) == quat_renorm(quat_half(cur)));
                assert(quat_norm_sq(quat_half(cur)) < quat_norm_sq(cur)) by {
                    lemma_half_norm(cur);
                    lemma_norm_nonneg(quat_half(cur));
                };
            }
            w = half(w);
            x = half(x);
            y = half(y);
            z = half(z);
        }
        let ghost settled = QuatM { w: w as int, x: x as int, y: y as int, z: z as int };
        proof {
            assert(quat_renorm(orig) == settled);
            lemma_norm_nonneg(settled);
            assert((QUAT_COMP_MAX as int) * (QUAT_COMP_MAX as int) == QUAT_NORM_MAX as int)
                by (nonlinear_arith);
            lemma_sq_bound(settled.w, QUAT_COMP_MAX as int);
            lemma_sq_bound(settled.x, QUAT_COMP_MAX as int);
            lemma_sq_bound(settled.y, QUAT_COMP_MAX as int);
            lemma_sq_bound(settled.z, QUAT_COMP_MAX as int);
        }
        let (qw, qx, qy, qz) = if nfin >= 1 {
            (w, x, y, z)
        } else {
            (1i64, 0i64, 0i64, 0i64)
        };
        let rt = self.transform_normal(&rhs.t);
        let t = rt.add(&self.t);
        Transform { qw, qx, qy, qz, t }
    }

    /// The inverse transform: conjugate quaternion, translation rotated back
    /// and negated with the same rounding the forward maps use.
    pub fn inverse(&self) -> (r: Transform)
        requires
            self.wf(),
            self@.t.all_within(TRANS_SAFE as int),
        ensures
            r.wf(),
            r@ == inverse_model(self@),
    {
        proof {
            lemma_norm_nonneg(self@.q);
            lemma_sq_bound(self@.q.w, QUAT_COMP_MAX as int);
            lemma_sq_bound(self@.q.x, QUAT_COMP_MAX as int);
            lemma_sq_bound(self@.q.y, QUAT_COMP_MAX as int);
            lemma_sq_bound(self@.q.z, QUAT_COMP_MAX as int);
            assert((QUAT_COMP_MAX as int) * (QUAT_COMP_MAX as int) == QUAT_NORM_MAX as int)
                by (nonlinear_arith);
        }
        let conj = Transform { qw: self.qw, qx: -self.qx, qy: -self.qy, qz: -self.qz, t: Vec3::zero() };
        proof {
            assert(quat_norm_sq(conj@.q) == quat_norm_sq(self@.q)) by (nonlinear_arith)
                requires
                    conj@.q.w == self@.q.w,
                    conj@.q.x == -self@.q.x,
                    conj@.q.y == -self@.q.y,
                    conj@.q.z == -self@.q.z,
            ;
        }
        let rt = conj.transform_normal(&self.t);
        Transform { qw: self.qw, qx: -self.qx, qy: -self.qy, qz: -self.qz, t: Vec3 { x: -rt.x, y: -rt.y, z: -rt.z } }
    }

    /// Scale the translation by a fixed-point factor of either sign,
    /// rounding toward zero; the rotation part is untouched.
    pub fn scale_translation(&mut self, factor: i64)
        requires
            old(self).wf(),
            -0x20_0000 <= factor <= 0x20_0000,
            old(self)@.t.all_within(TRANS_SAFE as int),
        ensures
            final(self).wf(),
            final(self)@.q == old(self)@.q,
            final(self)@.t.x == tdiv(old(self)@.t.x * factor, SCALE as int),
            final(self)@.t.y == tdiv(old(self)@.t.y * factor, SCALE as int),
            final(self)@.t.z == tdiv(old(self)@.t.z * factor, SCALE as int),
    {
        proof {
            lemma_abs_mul(self@.t.x, factor as int, TRANS_SAFE as int, 0x20_0000);
            lemma_abs_mul(self@.t.y, factor as int, TRANS_SAFE as int, 0x20_0000);
            lemma_abs_mul(self@.t.z, factor as int, TRANS_SAFE as int, 0x20_0000);
            lemma_tdiv_bound(self@.t.x * factor, SCALE as int, 0x100_0000_0000);
            lemma_tdiv_bound(self@.t.y * factor, SCALE as int, 0x100_0000_0000);
            lemma_tdiv_bound(self@.t.z * factor, SCALE as int, 0x100_0000_0000);
            assert((TRANS_SAFE as int) * 0x20_0000 <= 0x100_0000_0000 * (SCALE as int))
                by (nonlinear_arith);
        }
        let x = div_round_zero_wide((self.t.x as i128) * (factor as i128), SCALE as i128);
        let y = div_round_zero_wide((self.t.y as i128) * (factor as i128), SCALE as i128);
        let z = div_round_zero_wide((self.t.z as i128) * (factor as i128), SCALE as i128);
        self.t = Vec3 { x: x as i64, y: y as i64, z: z as i64 };
    }

    /// Whether every translation component lies within `m`.
    pub fn translation_within(&self, m: i64) -> (r: bool)
        requires
            m >= 0,
        ensures
            r == self@.t.all_within(m as int),
    {
        -m <= self.t.x && self.t.x <= m && -m <= self.t.y && self.t.y <= m && -m <= self.t.z
            && self.t.z <= m
    }
}

/// Recovering the increment after a retraction is exact: the two rational
/// maps cancel with no rounding at all.
pub proof fn lemma_exp_log_roundtrip(v: TangentM)
    ensures
        log_model(exp_model(v)) == v,
{
    let t = exp_model(v);
    lemma_tdiv_exact(v.r.x, 2 * (SCALE as int));
    lemma_tdiv_exact(v.r.y, 2 * (SCALE as int));
    lemma_tdiv_exact(v.r.z, 2 * (SCALE as int));
    assert(2 * (SCALE as int) * v.r.x == (2 * (SCALE as int)) * v.r.x);
    assert(log_model(t).r.x == v.r.x);
    assert(log_model(t).r.y == v.r.y);
    assert(log_model(t).r.z == v.r.z);
}

} // verus!
