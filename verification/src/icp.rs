use vstd::prelude::*;

use crate::camera::Camera;
use crate::fixed::{tdiv, lemma_tdiv_bound, lemma_abs_mul, div_round_zero_wide, SCALE};
use crate::fusion::{Observation, POSE_T_MAX};
use crate::indexmap::IndexMap;
use crate::surfel::SurfelModel;
use crate::transform::{apply_model, rotate_model, Transform, TransformM, TangentVec};
use crate::vec3::{V3M, Vec3};

verus! {

/// 3x3 determinant, exact, expanded along the first row.
pub open spec fn det3(
    a00: int, a01: int, a02: int,
    a10: int, a11: int, a12: int,
    a20: int, a21: int, a22: int,
) -> int {
    a00 * (a11 * a22 - a12 * a21) - a01 * (a10 * a22 - a12 * a20) + a02 * (a10 * a21 - a11 * a20)
}

/// Truncating division under a divisor of either sign.
pub open spec fn tdiv_s(a: int, b: int) -> int {
    if b >= 0 {
        tdiv(a, b)
    } else {
        tdiv(-a, -b)
    }
}

/// Squared distance between two vector values.
pub open spec fn dist3_sq(a: V3M, b: V3M) -> int {
    (a.x - b.x) * (a.x - b.x) + (a.y - b.y) * (a.y - b.y) + (a.z - b.z) * (a.z - b.z)
}

/// Cap on the normal-matrix entries handed to the solver (2^28).
pub const SOLVE_A_MAX: i128 = 0x1000_0000;

/// Cap on the right-hand side handed to the solver (2^60).
pub const SOLVE_B_MAX: i128 = 0x1000_0000_0000_0000;

/// One 3x3 determinant whose first column is bounded by `m0` and whose
/// other entries are bounded by `m`.
fn det3_exec(
    a00: i128, a01: i128, a02: i128,
    a10: i128, a11: i128, a12: i128,
    a20: i128, a21: i128, a22: i128,
    m0: i128, m: i128,
) -> (d: i128)
    requires
        0 <= m0 <= 0x1000_0000_0000_0000,
        0 <= m <= 0x1000_0000,
        -m0 <= a00 <= m0, -m <= a01 <= m, -m <= a02 <= m,
        -m0 <= a10 <= m0, -m <= a11 <= m, -m <= a12 <= m,
        -m0 <= a20 <= m0, -m <= a21 <= m, -m <= a22 <= m,
    ensures
        d == det3(a00 as int, a01 as int, a02 as int, a10 as int, a11 as int, a12 as int,
            a20 as int, a21 as int, a22 as int),
        -(6 * ((m0 as int) * ((m as int) * (m as int)))) <= d <= 6 * ((m0 as int) * ((m as int) * (
        m as int))),
{
    proof {
        let m0i = m0 as int;
        let mi = m as int;
        lemma_abs_mul(a11 as int, a22 as int, mi, mi);
        lemma_abs_mul(a12 as int, a21 as int, mi, mi);
        lemma_abs_mul(a10 as int, a22 as int, m0i, mi);
        lemma_abs_mul(a12 as int, a20 as int, mi, m0i);
        lemma_abs_mul(a10 as int, a21 as int, m0i, mi);
        lemma_abs_mul(a11 as int, a20 as int, mi, m0i);
        assert(mi * m0i == m0i * mi) by (nonlinear_arith);
        lemma_abs_mul(a00 as int, a11 as int * a22 - a12 as int * a21, m0i, 2 * (mi * mi));
        lemma_abs_mul(a01 as int, a10 as int * a22 - a12 as int * a20, mi, 2 * (m0i * mi));
        lemma_abs_mul(a02 as int, a10 as int * a21 - a11 as int * a20, mi, 2 * (m0i * mi));
        assert(m0i * (2 * (mi * mi)) == 2 * (m0i * (mi * mi))) by (nonlinear_arith);
        assert(mi * (2 * (m0i * mi)) == 2 * (m0i * (mi * mi))) by (nonlinear_arith);
        assert(m0i * (mi * mi) <= 0x1000_0000_0000_0000 * (0x1000_0000 * 0x1000_0000))
            by (nonlinear_arith)
            requires 0 <= m0i <= 0x1000_0000_0000_0000, 0 <= mi <= 0x1000_0000;
        assert(m0i * (mi * mi) >= 0) by (nonlinear_arith)
            requires m0i >= 0, mi >= 0;
        assert(mi * mi <= 0x100_0000_0000_0000) by (nonlinear_arith)
            requires 0 <= mi <= 0x1000_0000;
        assert(m0i * mi <= 0x100_0000_0000_0000_0000_0000) by (nonlinear_arith)
            requires 0 <= m0i <= 0x1000_0000_0000_0000, 0 <= mi <= 0x1000_0000;
        assert(0x1000_0000_0000_0000 * (0x1000_0000 * 0x1000_0000)
            == 0x10_0000_0000_0000_0000_0000_0000_0000) by (nonlinear_arith);
    }
    a00 * (a11 * a22 - a12 * a21) - a01 * (a10 * a22 - a12 * a20) + a02 * (a10 * a21 - a11 * a20)
}

/// Solve a 3x3 linear system by Cramer's rule, each component rounded
/// toward zero; a singular system yields `None`.
pub fn solve3(
    a00: i128, a01: i128, a02: i128,
    a10: i128, a11: i128, a12: i128,
    a20: i128, a21: i128, a22: i128,
    b0: i128, b1: i128, b2: i128,
) -> (r: Option<(i128, i128, i128)>)
    requires
        -SOLVE_A_MAX <= a00 <= SOLVE_A_MAX, -SOLVE_A_MAX <= a01 <= SOLVE_A_MAX,
        -SOLVE_A_MAX <= a02 <= SOLVE_A_MAX, -SOLVE_A_MAX <= a10 <= SOLVE_A_MAX,
        -SOLVE_A_MAX <= a11 <= SOLVE_A_MAX, -SOLVE_A_MAX <= a12 <= SOLVE_A_MAX,
        -SOLVE_A_MAX <= a20 <= SOLVE_A_MAX, -SOLVE_A_MAX <= a21 <= SOLVE_A_MAX,
        -SOLVE_A_MAX <= a22 <= SOLVE_A_MAX,
        -SOLVE_B_MAX <= b0 <= SOLVE_B_MAX, -SOLVE_B_MAX <= b1 <= SOLVE_B_MAX,
        -SOLVE_B_MAX <= b2 <= SOLVE_B_MAX,
    ensures
        ({
            let d = det3(a00 as int, a01 as int, a02 as int, a10 as int, a11 as int, a12 as int,
                a20 as int, a21 as int, a22 as int);
            match r {
                None => d == 0,
                Some(t) => d != 0 && t.0 == tdiv_s(
                    det3(b0 as int, a01 as int, a02 as int, b1 as int, a11 as int, a12 as int,
                        b2 as int, a21 as int, a22 as int),
                    d,
                ) && t.1 == tdiv_s(
                    det3(b0 as int, a00 as int, a02 as int, b1 as int, a10 as int, a12 as int,
                        b2 as int, a20 as int, a22 as int) * -1,
                    d,
                ) && t.2 == tdiv_s(
                    det3(b0 as int, a00 as int, a01 as int, b1 as int, a10 as int, a11 as int,
                        b2 as int, a20 as int, a21 as int),
                    d,
                ),
            }
        }),
{
    let d = det3_exec(a00, a01, a02, a10, a11, a12, a20, a21, a22, SOLVE_A_MAX, SOLVE_A_MAX);
    if d == 0 {
        return None;
    }
    let d0 = det3_exec(b0, a01, a02, b1, a11, a12, b2, a21, a22, SOLVE_B_MAX, SOLVE_A_MAX);
    let d1m = det3_exec(b0, a00, a02, b1, a10, a12, b2, a20, a22, SOLVE_B_MAX, SOLVE_A_MAX);
    let d2 = det3_exec(b0, a00, a01, b1, a10, a11, b2, a20, a21, SOLVE_B_MAX, SOLVE_A_MAX);
    let d1 = -d1m;
    let (dn, d0n, d1n, d2n) = if d < 0 {
        (-d, -d0, -d1, -d2)
    } else {
        (d, d0, d1, d2)
    };
    let t0 = div_round_zero_wide(d0n, dn);
    let t1 = div_round_zero_wide(d1n, dn);
    let t2 = div_round_zero_wide(d2n, dn);
    Some((t0, t1, t2))
}

/// The reference-view cell an observation projects to at this pose.
pub open spec fn obs_cell(
    imap: IndexMap,
    view_pose: TransformM,
    cam: Camera,
    pose: TransformM,
    o: Observation,
) -> int {
    let vp = apply_model(view_pose, apply_model(pose, o.pos@));
    let u = tdiv(cam.fx * vp.x, crate::camera::depth_scaled(vp.z)) + cam.cx;
    let v = tdiv(cam.fy * vp.y, crate::camera::depth_scaled(vp.z)) + cam.cy;
    v * imap.width_spec() + u
}

/// Whether one observation is accepted as a correspondence at this pose: it
/// projects with positive depth onto an occupied cell of the reference view
/// whose live surfel passes the distance and normal gates.
pub open spec fn accepted(
    model: SurfelModel,
    imap: IndexMap,
    view_pose: TransformM,
    cam: Camera,
    params: IcpParams,
    pose: TransformM,
    o: Observation,
) -> bool {
    let vp = apply_model(view_pose, apply_model(pose, o.pos@));
    let u = tdiv(cam.fx * vp.x, crate::camera::depth_scaled(vp.z)) + cam.cx;
    let v = tdiv(cam.fy * vp.y, crate::camera::depth_scaled(vp.z)) + cam.cy;
    let cell = v * imap.width_spec() + u;
    &&& vp.z >= 1
    &&& 0 <= u < imap.width_spec()
    &&& 0 <= v < imap.height_spec()
    &&& imap.cell_at(cell) is Some
    &&& model.contains(imap.cell_at(cell)->Some_0.id)
    &&& {
        let s = model.surfel_at(imap.cell_at(cell)->Some_0.id);
        let mp = apply_model(pose, o.pos@);
        let mn = rotate_model(pose.q, o.normal@);
        &&& dist3_sq(mp, s.pos@) <= params.dist_sq_max
        &&& mn.all_within(2 * (SCALE as int))
        &&& mn.x * s.normal@.x + mn.y * s.normal@.y + mn.z * s.normal@.z
            >= params.normal_dot_min
    }
}

/// The point-to-plane normal equations and acceptance count accumulated
/// over a frame prefix at one pose estimate.
pub ghost struct AccumM {
    pub a00: int,
    pub a01: int,
    pub a02: int,
    pub a11: int,
    pub a12: int,
    pub a22: int,
    pub b0: int,
    pub b1: int,
    pub b2: int,
    pub n: int,
}

pub open spec fn accum_upto(
    model: SurfelModel,
    imap: IndexMap,
    view_pose: TransformM,
    cam: Camera,
    params: IcpParams,
    pose: TransformM,
    frame: Seq<Observation>,
    k: int,
) -> AccumM
    decreases k,
{
    if k <= 0 {
        AccumM { a00: 0, a01: 0, a02: 0, a11: 0, a12: 0, a22: 0, b0: 0, b1: 0, b2: 0, n: 0 }
    } else {
        let prev = accum_upto(model, imap, view_pose, cam, params, pose, frame, k - 1);
        let o = frame[k - 1];
        if accepted(model, imap, view_pose, cam, params, pose, o) {
            let cell = obs_cell(imap, view_pose, cam, pose, o);
            let s = model.surfel_at(imap.cell_at(cell)->Some_0.id);
            let mp = apply_model(pose, o.pos@);
            let nx = s.normal@.x;
            let ny = s.normal@.y;
            let nz = s.normal@.z;
            let resid = nx * (mp.x - s.pos@.x) + ny * (mp.y - s.pos@.y) + nz * (mp.z - s.pos@.z);
            AccumM {
                a00: prev.a00 + nx * nx,
                a01: prev.a01 + nx * ny,
                a02: prev.a02 + nx * nz,
                a11: prev.a11 + ny * ny,
                a12: prev.a12 + ny * nz,
                a22: prev.a22 + nz * nz,
                b0: prev.b0 - resid * nx,
                b1: prev.b1 - resid * ny,
                b2: prev.b2 - resid * nz,
                n: prev.n + 1,
            }
        } else {
            prev
        }
    }
}

/// The accumulated system scaled down by one squared fixed-point unit.
pub open spec fn scaled_accum(acc: AccumM) -> AccumM {
    AccumM {
        a00: tdiv(acc.a00, 0x1_0000_0000),
        a01: tdiv(acc.a01, 0x1_0000_0000),
        a02: tdiv(acc.a02, 0x1_0000_0000),
        a11: tdiv(acc.a11, 0x1_0000_0000),
        a12: tdiv(acc.a12, 0x1_0000_0000),
        a22: tdiv(acc.a22, 0x1_0000_0000),
        b0: tdiv(acc.b0, 0x1_0000_0000),
        b1: tdiv(acc.b1, 0x1_0000_0000),
        b2: tdiv(acc.b2, 0x1_0000_0000),
        n: acc.n,
    }
}

pub open spec fn within_solve_caps(sa: AccumM) -> bool {
    &&& -SOLVE_A_MAX <= sa.a00 <= SOLVE_A_MAX
    &&& -SOLVE_A_MAX <= sa.a01 <= SOLVE_A_MAX
    &&& -SOLVE_A_MAX <= sa.a02 <= SOLVE_A_MAX
    &&& -SOLVE_A_MAX <= sa.a11 <= SOLVE_A_MAX
    &&& -SOLVE_A_MAX <= sa.a12 <= SOLVE_A_MAX
    &&& -SOLVE_A_MAX <= sa.a22 <= SOLVE_A_MAX
    &&& -SOLVE_B_MAX <= sa.b0 <= SOLVE_B_MAX
    &&& -SOLVE_B_MAX <= sa.b1 <= SOLVE_B_MAX
    &&& -SOLVE_B_MAX <= sa.b2 <= SOLVE_B_MAX
}

/// Cramer's solution of the scaled translational normal equations.
pub open spec fn solved_increment(acc: AccumM) -> Option<V3M> {
    let sa = scaled_accum(acc);
    let d = det3(sa.a00, sa.a01, sa.a02, sa.a01, sa.a11, sa.a12, sa.a02, sa.a12, sa.a22);
    if d == 0 {
        None
    } else {
        Some(
            V3M {
                x: tdiv_s(
                    det3(sa.b0, sa.a01, sa.a02, sa.b1, sa.a11, sa.a12, sa.b2, sa.a12, sa.a22),
                    d,
                ),
                y: tdiv_s(
                    det3(sa.b0, sa.a00, sa.a02, sa.b1, sa.a01, sa.a12, sa.b2, sa.a02, sa.a22)
                        * -1,
                    d,
                ),
                z: tdiv_s(
                    det3(sa.b0, sa.a00, sa.a01, sa.b1, sa.a01, sa.a11, sa.b2, sa.a02, sa.a12),
                    d,
                ),
            },
        )
    }
}

/// A vector halved toward zero `k` times.
pub open spec fn halve3(v: V3M, k: int) -> V3M
    decreases k,
{
    if k <= 0 {
        v
    } else {
        let p = halve3(v, k - 1);
        V3M { x: tdiv(p.x, 2), y: tdiv(p.y, 2), z: tdiv(p.z, 2) }
    }
}

/// The convergence certificate: at this pose, enough correspondences are
/// accepted, the scaled normal system fits the solver caps, and the solved
/// translation increment, damped `dd` times, has squared magnitude within
/// the configured epsilon.
pub open spec fn converged_at(
    model: SurfelModel,
    imap: IndexMap,
    view_pose: TransformM,
    cam: Camera,
    params: IcpParams,
    frame: Seq<Observation>,
    pose: TransformM,
    dd: int,
) -> bool {
    let acc = accum_upto(model, imap, view_pose, cam, params, pose, frame, frame.len() as int);
    &&& acc.n >= params.min_correspondences
    &&& within_solve_caps(scaled_accum(acc))
    &&& solved_increment(acc) is Some
    &&& {
        let t = solved_increment(acc)->Some_0;
        &&& t.all_within(0x4_0000_0000)
        &&& {
            let h = halve3(t, dd);
            h.x * h.x + h.y * h.y + h.z * h.z <= params.conv_eps_sq
        }
    }
}

/// How a registration attempt ended.
#[derive(Clone, Copy, PartialEq, Debug)]
pub enum IcpResult {
    /// The increment magnitude fell below the configured epsilon.
    Converged(Transform),
    /// The residual stopped decreasing and the retry budget ran out, or the
    /// normal system degenerated; the last best pose is reported.
    DivergedExhausted(Transform),
    /// Fewer accepted correspondences than the solver needs.
    InsufficientCorrespondences,
}

/// Tunable registration parameters.
#[derive(Clone, Copy, PartialEq, Eq, Structural, Debug)]
pub struct IcpParams {
    /// Hard iteration cap.
    pub max_iterations: u32,
    /// Fewest accepted correspondences the solve needs.
    pub min_correspondences: usize,
    /// Association distance gate, squared fixed-point units.
    pub dist_sq_max: i64,
    /// Association gate on the raw normal inner product.
    pub normal_dot_min: i64,
    /// Squared increment magnitude below which the pose has converged.
    pub conv_eps_sq: i64,
    /// Damping retries allowed after a residual increase.
    pub max_retries: u32,
}

impl IcpParams {
    pub open spec fn wf(self) -> bool {
        &&& 1 <= self.max_iterations <= 1000
        &&& 6 <= self.min_correspondences
        &&& 0 <= self.dist_sq_max
        &&& 0 <= self.conv_eps_sq
        &&& self.max_retries <= 100
    }
}

/// Point-to-plane iterative registration of a camera-space frame against
/// the live map, associated through the index map's reference view. The
/// linearization solves the translational block of the normal equations by
/// exact Cramer elimination; a rotation estimate is not solved for, so only
/// translational motion is corrected, and rotation enters solely through
/// increments composed into the estimate. A converged pose carries a
/// certificate: at that pose the accepted correspondences fill the normal
/// equations whose damped solution has a squared magnitude within the
/// configured epsilon. A degenerate first association (fewer accepted
/// pixels than the solver needs) fails the frame; whatever path ends the
/// iteration, the reported pose is a well-formed rigid transform with a
/// bounded translation.
#[verifier::rlimit(60)]
#[verifier::spinoff_prover]
pub fn register(
    frame: &Vec<Observation>,
    model: &SurfelModel,
    imap: &IndexMap,
    view_pose: &Transform,
    cam: &Camera,
    params: &IcpParams,
    init: &Transform,
) -> (r: IcpResult)
    requires
        model.wf(),
        imap.wf(),
        imap.entries_live(*model),
        view_pose.wf(),
        cam.wf(),
        params.wf(),
        init.wf(),
        init@.t.all_within(POSE_T_MAX as int),
        forall|j: int|
            0 <= j < frame@.len() ==> (#[trigger] frame@[j]).wf()
                && frame@[j].pos@.all_within(crate::fixed::COORD_MAX as int),
    ensures
        r matches IcpResult::Converged(p) ==> p.wf() && p@.t.all_within(POSE_T_MAX as int)
            && exists|dd: int|
            0 <= dd <= params.max_retries && converged_at(*model, *imap, view_pose@, *cam,
                *params, frame@, p@, dd),
        r matches IcpResult::DivergedExhausted(p) ==> p.wf() && p@.t.all_within(POSE_T_MAX as int),
        r is InsufficientCorrespondences ==> accum_upto(*model, *imap, view_pose@, *cam, *params,
            init@, frame@, frame@.len() as int).n < params.min_correspondences,
        frame@.len() <= 2048 && converged_at(*model, *imap, view_pose@, *cam, *params, frame@,
            init@, 0) ==> r == IcpResult::Converged(*init),
{
    let mut pose = *init;
    let mut best = *init;
    let mut best_res: i128 = i128::MAX;
    let mut retries: u32 = 0;
    let mut iter: u32 = 0;
    while iter < params.max_iterations
        invariant
            model.wf(),
            imap.wf(),
            imap.entries_live(*model),
            view_pose.wf(),
            cam.wf(),
            params.wf(),
            pose.wf(),
            pose@.t.all_within(POSE_T_MAX as int),
            best.wf(),
            best@.t.all_within(POSE_T_MAX as int),
            forall|j: int|
                0 <= j < frame@.len() ==> (#[trigger] frame@[j]).wf()
                    && frame@[j].pos@.all_within(crate::fixed::COORD_MAX as int),
            retries <= params.max_retries,
            iter <= params.max_iterations,
            iter == 0 ==> pose == *init && retries == 0,
            iter >= 1 ==> !(frame@.len() <= 2048 && converged_at(*model, *imap, view_pose@, *cam,
                *params, frame@, init@, 0)),
        decreases params.max_iterations - iter,
    {
        let mut a00: i128 = 0;
        let mut a01: i128 = 0;
        let mut a02: i128 = 0;
        let mut a11: i128 = 0;
        let mut a12: i128 = 0;
        let mut a22: i128 = 0;
        let mut b0: i128 = 0;
        let mut b1: i128 = 0;
        let mut b2: i128 = 0;
        let mut res_sum: i128 = 0;
        let mut accepted_n: usize = 0;
        let lim: i128 = 0x8000_0000_0000_0000_0000_0000;
        let mut j: usize = 0;
        while j < frame.len()
            invariant
                model.wf(),
                imap.wf(),
                imap.entries_live(*model),
                view_pose.wf(),
                cam.wf(),
                params.wf(),
                pose.wf(),
                pose@.t.all_within(POSE_T_MAX as int),
                best.wf(),
                best@.t.all_within(POSE_T_MAX as int),
                forall|jj: int|
                    0 <= jj < frame@.len() ==> (#[trigger] frame@[jj]).wf()
                        && frame@[jj].pos@.all_within(crate::fixed::COORD_MAX as int),
                j <= frame@.len(),
                accepted_n <= j,
                lim == 0x8000_0000_0000_0000_0000_0000,
                -2 * lim <= a00 <= 2 * lim, -2 * lim <= a01 <= 2 * lim,
                -2 * lim <= a02 <= 2 * lim, -2 * lim <= a11 <= 2 * lim,
                -2 * lim <= a12 <= 2 * lim, -2 * lim <= a22 <= 2 * lim,
                -2 * lim <= b0 <= 2 * lim, -2 * lim <= b1 <= 2 * lim,
                -2 * lim <= b2 <= 2 * lim,
                0 <= res_sum <= 2 * lim,
                -((j as int) * 0x4_0000_0000) <= a00 <= (j as int) * 0x4_0000_0000,
                -((j as int) * 0x4_0000_0000) <= a01 <= (j as int) * 0x4_0000_0000,
                -((j as int) * 0x4_0000_0000) <= a02 <= (j as int) * 0x4_0000_0000,
                -((j as int) * 0x4_0000_0000) <= a11 <= (j as int) * 0x4_0000_0000,
                -((j as int) * 0x4_0000_0000) <= a12 <= (j as int) * 0x4_0000_0000,
                -((j as int) * 0x4_0000_0000) <= a22 <= (j as int) * 0x4_0000_0000,
                -((j as int) * 0x8_0000_0000_0000_0000_0000) <= b0 <= (j as int)
                    * 0x8_0000_0000_0000_0000_0000,
                -((j as int) * 0x8_0000_0000_0000_0000_0000) <= b1 <= (j as int)
                    * 0x8_0000_0000_0000_0000_0000,
                -((j as int) * 0x8_0000_0000_0000_0000_0000) <= b2 <= (j as int)
                    * 0x8_0000_0000_0000_0000_0000,
                0 <= res_sum <= (j as int) * 0x8_0000_0000_0000_0000_0000,
                (AccumM {
                    a00: a00 as int,
                    a01: a01 as int,
                    a02: a02 as int,
                    a11: a11 as int,
                    a12: a12 as int,
                    a22: a22 as int,
                    b0: b0 as int,
                    b1: b1 as int,
                    b2: b2 as int,
                    n: accepted_n as int,
                }) == accum_upto(*model, *imap, view_pose@, *cam, *params, pose@, frame@,
                    j as int),
            decreases frame@.len() - j,
        {
            let obs = &frame[j];
            let mp = pose.transform_vector(&obs.pos);
            proof {
                crate::transform::lemma_rotate_bound(pose@.q, obs.pos@,
                    crate::fixed::COORD_MAX as int);
                assert(mp@.all_within(crate::fixed::POS_MAX as int));
                assert(((j as int) + 1) * 0x4_0000_0000 == (j as int) * 0x4_0000_0000
                    + 0x4_0000_0000) by (nonlinear_arith);
                assert(((j as int) + 1) * 0x8_0000_0000_0000_0000_0000 == (j as int)
                    * 0x8_0000_0000_0000_0000_0000 + 0x8_0000_0000_0000_0000_0000)
                    by (nonlinear_arith);
            }
            let vp = view_pose.transform_vector(&mp);
            if vp.z >= 1 {
                let (u, v) = cam.project(&vp);
                if 0 <= u && u < imap.width() as i64 && 0 <= v && v < imap.height() as i64 {
                    match imap.lookup(u as usize, v as usize) {
                        Some(e) => {
                            match model.get(e.id) {
                                Some(sref) => {
                                    let s = *sref;
                                    proof {
                                        crate::surfel::lemma_live_wf(*model, e.id);
                                    }
                                    let dist = mp.dist_sq(&s.pos, crate::fixed::POS_MAX);
                                    let mn = pose.transform_normal(&obs.normal);
                                    let two_scale: i64 = 2 * SCALE;
                                    let n_ok = -two_scale <= mn.x && mn.x <= two_scale
                                        && -two_scale <= mn.y && mn.y <= two_scale && -two_scale
                                        <= mn.z && mn.z <= two_scale;
                                    if dist <= params.dist_sq_max as i128 && n_ok {
                                        let dot = mn.dot(&s.normal, two_scale);
                                        if dot >= params.normal_dot_min as i128 {
                                            proof {
                                                assert(accepted(*model, *imap, view_pose@, *cam,
                                                    *params, pose@, frame@[j as int]));
                                                assert(s == model.surfel_at(imap.cell_at(
                                                    obs_cell(*imap, view_pose@, *cam, pose@,
                                                        frame@[j as int]))->Some_0.id));
                                            }
                                            let diff = mp.sub(&s.pos);
                                            let wide: i64 = 0x1_0000_0000;
                                            let resid = s.normal.dot(&diff, wide);
                                            let nx = s.normal.x as i128;
                                            let ny = s.normal.y as i128;
                                            let nz = s.normal.z as i128;
                                            proof {
                                                let wm = (wide as int) * (wide as int);
                                                lemma_abs_mul(resid as int, nx as int, 3 * wm,
                                                    0x2_0000);
                                                lemma_abs_mul(resid as int, ny as int, 3 * wm,
                                                    0x2_0000);
                                                lemma_abs_mul(resid as int, nz as int, 3 * wm,
                                                    0x2_0000);
                                                lemma_abs_mul(nx as int, nx as int, 0x2_0000,
                                                    0x2_0000);
                                                lemma_abs_mul(nx as int, ny as int, 0x2_0000,
                                                    0x2_0000);
                                                lemma_abs_mul(nx as int, nz as int, 0x2_0000,
                                                    0x2_0000);
                                                lemma_abs_mul(ny as int, ny as int, 0x2_0000,
                                                    0x2_0000);
                                                lemma_abs_mul(ny as int, nz as int, 0x2_0000,
                                                    0x2_0000);
                                                lemma_abs_mul(nz as int, nz as int, 0x2_0000,
                                                    0x2_0000);
                                            }
                                            if !(a00 < lim && a01 < lim && a02 < lim && a11 < lim
                                                && a12 < lim && a22 < lim && -lim < a00 && -lim
                                                < a01 && -lim < a02 && -lim < a11 && -lim < a12
                                                && -lim < a22 && -lim < b0 && b0 < lim && -lim
                                                < b1 && b1 < lim && -lim < b2 && b2 < lim
                                                && res_sum < lim) {
                                                proof {
                                                    if frame@.len() <= 2048 {
                                                        assert(0 <= j as int <= 2048);
                                                        assert((j as int) * 0x4_0000_0000 <= 2048
                                                            * 0x4_0000_0000 && -(2048
                                                            * 0x4_0000_0000) <= -((j as int)
                                                            * 0x4_0000_0000)) by (nonlinear_arith)
                                                            requires 0 <= j as int <= 2048;
                                                        assert((j as int)
                                                            * 0x8_0000_0000_0000_0000_0000
                                                            <= 2048
                                                            * 0x8_0000_0000_0000_0000_0000)
                                                            by (nonlinear_arith)
                                                            requires 0 <= j as int <= 2048;
                                                        assert(a00 < lim && a01 < lim && a02 < lim
                                                            && a11 < lim && a12 < lim && a22
                                                            < lim);
                                                        assert(-lim < a00 && -lim < a01 && -lim
                                                            < a02 && -lim < a11 && -lim < a12
                                                            && -lim < a22);
                                                        assert(-lim < b0 && b0 < lim && -lim < b1
                                                            && b1 < lim && -lim < b2 && b2 < lim);
                                                        assert(res_sum < lim);
                                                        assert(false);
                                                    }
                                                }
                                                return IcpResult::DivergedExhausted(best);
                                            }
                                            a00 = a00 + nx * nx;
                                            a01 = a01 + nx * ny;
                                            a02 = a02 + nx * nz;
                                            a11 = a11 + ny * ny;
                                            a12 = a12 + ny * nz;
                                            a22 = a22 + nz * nz;
                                            b0 = b0 - resid * nx;
                                            b1 = b1 - resid * ny;
                                            b2 = b2 - resid * nz;
                                            res_sum = res_sum + (if resid >= 0 {
                                                resid
                                            } else {
                                                -resid
                                            });
                                            accepted_n = accepted_n + 1;
                                        } else {
                                            proof {
                                                assert(!accepted(*model, *imap, view_pose@, *cam,
                                                    *params, pose@, frame@[j as int]));
                                            }
                                        }
                                    } else {
                                        proof {
                                            assert(!accepted(*model, *imap, view_pose@, *cam,
                                                *params, pose@, frame@[j as int]));
                                        }
                                    }
                                },
                                None => {
                                    proof {
                                        assert(!accepted(*model, *imap, view_pose@, *cam,
                                            *params, pose@, frame@[j as int]));
                                    }
                                },
                            }
                        },
                        None => {
                            proof {
                                assert(!accepted(*model, *imap, view_pose@, *cam, *params, pose@,
                                    frame@[j as int]));
                            }
                        },
                    }
                } else {
                    proof {
                        assert(!accepted(*model, *imap, view_pose@, *cam, *params, pose@,
                            frame@[j as int]));
                    }
                }
            } else {
                proof {
                    assert(!accepted(*model, *imap, view_pose@, *cam, *params, pose@,
                        frame@[j as int]));
                }
            }
            j = j + 1;
        }
        if accepted_n < params.min_correspondences {
            if iter == 0 {
                return IcpResult::InsufficientCorrespondences;
            }
            return IcpResult::DivergedExhausted(best);
        }
        let ghost acc = accum_upto(*model, *imap, view_pose@, *cam, *params, pose@, frame@,
            frame@.len() as int);
        let s2: i128 = 0x1_0000_0000;
        let sa00 = div_round_zero_wide(a00, s2);
        let sa01 = div_round_zero_wide(a01, s2);
        let sa02 = div_round_zero_wide(a02, s2);
        let sa11 = div_round_zero_wide(a11, s2);
        let sa12 = div_round_zero_wide(a12, s2);
        let sa22 = div_round_zero_wide(a22, s2);
        let sb0 = div_round_zero_wide(b0, s2);
        let sb1 = div_round_zero_wide(b1, s2);
        let sb2 = div_round_zero_wide(b2, s2);
        proof {
            lemma_tdiv_bound(a00 as int, s2 as int, 0x1_0000_0000_0000_0000);
            lemma_tdiv_bound(a01 as int, s2 as int, 0x1_0000_0000_0000_0000);
            lemma_tdiv_bound(a02 as int, s2 as int, 0x1_0000_0000_0000_0000);
            lemma_tdiv_bound(a11 as int, s2 as int, 0x1_0000_0000_0000_0000);
            lemma_tdiv_bound(a12 as int, s2 as int, 0x1_0000_0000_0000_0000);
            lemma_tdiv_bound(a22 as int, s2 as int, 0x1_0000_0000_0000_0000);
            lemma_tdiv_bound(b0 as int, s2 as int, 0x1_0000_0000_0000_0000);
            lemma_tdiv_bound(b1 as int, s2 as int, 0x1_0000_0000_0000_0000);
            lemma_tdiv_bound(b2 as int, s2 as int, 0x1_0000_0000_0000_0000);
            assert(scaled_accum(acc) == (AccumM {
                a00: sa00 as int,
                a01: sa01 as int,
                a02: sa02 as int,
                a11: sa11 as int,
                a12: sa12 as int,
                a22: sa22 as int,
                b0: sb0 as int,
                b1: sb1 as int,
                b2: sb2 as int,
                n: accepted_n as int,
            }));
        }
        let a_ok = -SOLVE_A_MAX <= sa00 && sa00 <= SOLVE_A_MAX && -SOLVE_A_MAX <= sa01 && sa01
            <= SOLVE_A_MAX && -SOLVE_A_MAX <= sa02 && sa02 <= SOLVE_A_MAX && -SOLVE_A_MAX <= sa11
            && sa11 <= SOLVE_A_MAX && -SOLVE_A_MAX <= sa12 && sa12 <= SOLVE_A_MAX && -SOLVE_A_MAX
            <= sa22 && sa22 <= SOLVE_A_MAX && -SOLVE_B_MAX <= sb0 && sb0 <= SOLVE_B_MAX
            && -SOLVE_B_MAX <= sb1 && sb1 <= SOLVE_B_MAX && -SOLVE_B_MAX <= sb2 && sb2
            <= SOLVE_B_MAX;
        if !a_ok {
            return IcpResult::DivergedExhausted(best);
        }
        let sol = solve3(sa00, sa01, sa02, sa01, sa11, sa12, sa02, sa12, sa22, sb0, sb1, sb2);
        let (tx, ty, tz) = match sol {
            None => {
                return IcpResult::DivergedExhausted(best);
            },
            Some(t) => t,
        };
        proof {
            assert(solved_increment(acc) == Some(
                V3M { x: tx as int, y: ty as int, z: tz as int },
            ));
        }
        let tcap: i128 = 0x4_0000_0000;
        let t_ok = -tcap <= tx && tx <= tcap && -tcap <= ty && ty <= tcap && -tcap <= tz && tz
            <= tcap;
        if !t_ok {
            return IcpResult::DivergedExhausted(best);
        }
        let ghost t0 = V3M { x: tx as int, y: ty as int, z: tz as int };
        let damp = retries;
        let mut itx = tx as i64;
        let mut ity = ty as i64;
        let mut itz = tz as i64;
        let mut dd: u32 = 0;
        while dd < damp
            invariant
                dd <= damp,
                -0x4_0000_0000 <= itx <= 0x4_0000_0000,
                -0x4_0000_0000 <= ity <= 0x4_0000_0000,
                -0x4_0000_0000 <= itz <= 0x4_0000_0000,
                halve3(t0, dd as int) == (V3M { x: itx as int, y: ity as int, z: itz as int }),
            decreases damp - dd,
        {
            proof {
                lemma_tdiv_bound(itx as int, 2, 0x4_0000_0000);
                lemma_tdiv_bound(ity as int, 2, 0x4_0000_0000);
                lemma_tdiv_bound(itz as int, 2, 0x4_0000_0000);
            }
            itx = crate::fixed::half(itx);
            ity = crate::fixed::half(ity);
            itz = crate::fixed::half(itz);
            dd = dd + 1;
        }
        proof {
            lemma_abs_mul(itx as int, itx as int, 0x4_0000_0000, 0x4_0000_0000);
            lemma_abs_mul(ity as int, ity as int, 0x4_0000_0000, 0x4_0000_0000);
            lemma_abs_mul(itz as int, itz as int, 0x4_0000_0000, 0x4_0000_0000);
        }
        let mag = (itx as i128) * (itx as i128) + (ity as i128) * (ity as i128) + (itz as i128) * (
        itz as i128);
        if mag <= params.conv_eps_sq as i128 {
            proof {
                assert(acc.n >= params.min_correspondences);
                assert(within_solve_caps(scaled_accum(acc)));
                assert(solved_increment(acc) is Some);
                assert(solved_increment(acc)->Some_0 == t0);
                assert(t0.all_within(0x4_0000_0000));
                assert(halve3(t0, damp as int) == (V3M {
                    x: itx as int,
                    y: ity as int,
                    z: itz as int,
                }));
                assert({
                    let h = halve3(t0, damp as int);
                    h.x * h.x + h.y * h.y + h.z * h.z <= params.conv_eps_sq
                });
                assert(converged_at(*model, *imap, view_pose@, *cam, *params, frame@, pose@,
                    damp as int));
                assert(0 <= damp as int <= params.max_retries);
                assert(exists|ddw: int|
                    0 <= ddw <= params.max_retries && converged_at(*model, *imap, view_pose@,
                        *cam, *params, frame@, pose@, ddw)) by {
                    assert(converged_at(*model, *imap, view_pose@, *cam, *params, frame@, pose@,
                        damp as int));
                };
                if iter == 0 {
                    assert(pose == *init);
                } else {
                    assert(!(frame@.len() <= 2048 && converged_at(*model, *imap, view_pose@,
                        *cam, *params, frame@, init@, 0)));
                }
            }
            return IcpResult::Converged(pose);
        }
        let inc = Transform::se3_exp(
            &TangentVec { t: Vec3 { x: itx, y: ity, z: itz }, r: Vec3 { x: 0, y: 0, z: 0 } },
        );
        let cand = inc.compose(&pose);
        if !cand.translation_within(POSE_T_MAX) {
            return IcpResult::DivergedExhausted(best);
        }
        if res_sum < best_res {
            best_res = res_sum;
            best = cand;
            pose = cand;
        } else {
            if retries < params.max_retries {
                retries = retries + 1;
                pose = cand;
            } else {
                return IcpResult::DivergedExhausted(best);
            }
        }
        proof {
            if iter == 0 && frame@.len() <= 2048 && converged_at(*model, *imap, view_pose@, *cam,
                *params, frame@, init@, 0) {
                assert(halve3(t0, 0) == t0);
                assert(false);
            }
        }
        iter = iter + 1;
    }
    IcpResult::DivergedExhausted(best)
}

} // verus!
