use vstd::prelude::*;

use crate::camera::Camera;
use crate::fixed::{tdiv, lemma_tdiv_bound, lemma_tdiv_exact, lemma_abs_mul, div_round_zero_wide,
    POS_MAX, SCALE};
use crate::indexmap::IndexMap;
use crate::surfel::{id_key, Surfel, SurfelId, SurfelModel, RADIUS_MAX};
use crate::transform::{apply_model, rotate_model, Transform, TransformM};
use crate::vec3::Vec3;

verus! {

pub use crate::surfel::CONF_CAP_MAX;

/// One valid frame observation, already expressed in map space.
#[derive(Clone, Copy, PartialEq, Eq, Structural, Debug)]
pub struct Observation {
    pub pos: Vec3,
    pub normal: Vec3,
    pub radius: i64,
    pub color_r: u8,
    pub color_g: u8,
    pub color_b: u8,
}

impl Observation {
    pub open spec fn wf(self) -> bool {
        &&& self.pos@.all_within(POS_MAX as int)
        &&& self.normal@.all_within(2 * (SCALE as int))
        &&& 0x4000_0000 <= self.normal.norm_sq_spec() <= 0x4_0000_0000
        &&& 0 <= self.radius <= RADIUS_MAX
    }
}

/// Tunable fusion parameters: association thresholds, the confidence cap,
/// and the maintenance rule.
#[derive(Clone, Copy, PartialEq, Eq, Structural, Debug)]
pub struct FusionConfig {
    /// A candidate farther than this (squared fixed-point distance) is not
    /// associated.
    pub assoc_dist_sq_max: i64,
    /// A candidate whose raw normal inner product falls below this is not
    /// associated.
    pub normal_dot_min: i64,
    /// Confidence saturates here.
    pub conf_cap: u32,
    /// Maintenance removes surfels still below this confidence...
    pub min_confidence: u32,
    /// ...once they are at least this many frames old.
    pub stale_after: u64,
}

impl FusionConfig {
    pub open spec fn wf(self) -> bool {
        &&& 1 <= self.conf_cap <= CONF_CAP_MAX
        &&& 0 <= self.assoc_dist_sq_max
    }
}

/// The confidence-weighted running average the fusion rule uses, rounded
/// toward zero: `(conf * old + obs) / (conf + 1)`.
pub open spec fn fuse_avg(conf: int, old: int, obs: int) -> int {
    tdiv(conf * old + obs, conf + 1)
}

/// What fusing an observation into a surfel yields: `None` when the averaged
/// normal is degenerate (the update is rejected and the prior state kept),
/// otherwise the averaged surfel with confidence bumped and capped.
pub open spec fn spec_fuse(s: Surfel, obs: Observation, cap: u32, now: u64) -> Option<Surfel> {
    let c = s.confidence as int;
    let n = Vec3 {
        x: fuse_avg(c, s.normal@.x, obs.normal@.x) as i64,
        y: fuse_avg(c, s.normal@.y, obs.normal@.y) as i64,
        z: fuse_avg(c, s.normal@.z, obs.normal@.z) as i64,
    };
    if 0x4000_0000 <= n.norm_sq_spec() <= 0x4_0000_0000 {
        Some(
            Surfel {
                pos: Vec3 {
                    x: fuse_avg(c, s.pos@.x, obs.pos@.x) as i64,
                    y: fuse_avg(c, s.pos@.y, obs.pos@.y) as i64,
                    z: fuse_avg(c, s.pos@.z, obs.pos@.z) as i64,
                },
                normal: n,
                radius: fuse_avg(c, s.radius as int, obs.radius as int) as i64,
                color_r: fuse_avg(c, s.color_r as int, obs.color_r as int) as u8,
                color_g: fuse_avg(c, s.color_g as int, obs.color_g as int) as u8,
                color_b: fuse_avg(c, s.color_b as int, obs.color_b as int) as u8,
                confidence: if s.confidence < cap {
                    (s.confidence + 1) as u32
                } else {
                    s.confidence
                },
                created_at: s.created_at,
                last_update: now,
            },
        )
    } else {
        None
    }
}

/// The weighted average of two values lies between them, so it keeps any
/// symmetric bound they share.
proof fn lemma_fuse_avg_within(conf: int, a: int, b: int, m: int)
    requires
        0 <= conf,
        m >= 0,
        -m <= a <= m,
        -m <= b <= m,
    ensures
        -m <= fuse_avg(conf, a, b) <= m,
{
    assert(-(m * (conf + 1)) <= conf * a + b <= m * (conf + 1)) by (nonlinear_arith)
        requires 0 <= conf, m >= 0, -m <= a <= m, -m <= b <= m;
    lemma_tdiv_bound(conf * a + b, conf + 1, m);
}

/// Averaging a value with itself gives it back exactly.
proof fn lemma_fuse_avg_identical(conf: int, v: int)
    requires
        0 <= conf,
    ensures
        fuse_avg(conf, v, v) == v,
{
    assert(conf * v + v == (conf + 1) * v) by (nonlinear_arith);
    lemma_tdiv_exact(v, conf + 1);
}

/// One confidence-weighted fusion step, exactly as `spec_fuse` states it.
pub fn fuse_surfel(s: &Surfel, obs: &Observation, cap: u32, now: u64) -> (r: Option<Surfel>)
    requires
        s.wf(),
        obs.wf(),
        s.confidence <= CONF_CAP_MAX,
        cap <= CONF_CAP_MAX,
    ensures
        r == spec_fuse(*s, *obs, cap, now),
        r is Some ==> r->Some_0.wf() && r->Some_0.confidence <= CONF_CAP_MAX,
    {
        let c = s.confidence as i64;
        let nx = avg_exec(c, s.normal.x, obs.normal.x, 2 * SCALE);
        let ny = avg_exec(c, s.normal.y, obs.normal.y, 2 * SCALE);
        let nz = avg_exec(c, s.normal.z, obs.normal.z, 2 * SCALE);
        let n = Vec3 { x: nx, y: ny, z: nz };
        let nsq = n.norm_sq(2 * SCALE);
        if 0x4000_0000 <= nsq && nsq <= 0x4_0000_0000 {
            let px = avg_exec(c, s.pos.x, obs.pos.x, POS_MAX);
            let py = avg_exec(c, s.pos.y, obs.pos.y, POS_MAX);
            let pz = avg_exec(c, s.pos.z, obs.pos.z, POS_MAX);
            let rad = avg_exec(c, s.radius, obs.radius, RADIUS_MAX);
            let cr = avg_exec(c, s.color_r as i64, obs.color_r as i64, 255);
            let cg = avg_exec(c, s.color_g as i64, obs.color_g as i64, 255);
            let cb = avg_exec(c, s.color_b as i64, obs.color_b as i64, 255);
            proof {
                lemma_fuse_avg_within(c as int, s.color_r as int, obs.color_r as int, 255);
                lemma_fuse_avg_within(c as int, s.color_g as int, obs.color_g as int, 255);
                lemma_fuse_avg_within(c as int, s.color_b as int, obs.color_b as int, 255);
                assert(c as int * (s.color_r as int) + obs.color_r >= 0) by (nonlinear_arith)
                    requires c >= 0, s.color_r >= 0, obs.color_r >= 0;
                crate::fixed::lemma_tdiv_nonneg(c as int * (s.color_r as int) + obs.color_r,
                    c as int + 1);
                assert(c as int * (s.color_g as int) + obs.color_g >= 0) by (nonlinear_arith)
                    requires c >= 0, s.color_g >= 0, obs.color_g >= 0;
                crate::fixed::lemma_tdiv_nonneg(c as int * (s.color_g as int) + obs.color_g,
                    c as int + 1);
                assert(c as int * (s.color_b as int) + obs.color_b >= 0) by (nonlinear_arith)
                    requires c >= 0, s.color_b >= 0, obs.color_b >= 0;
                crate::fixed::lemma_tdiv_nonneg(c as int * (s.color_b as int) + obs.color_b,
                    c as int + 1);
                assert(c as int * (s.radius as int) + obs.radius >= 0) by (nonlinear_arith)
                    requires c >= 0, s.radius >= 0, obs.radius >= 0;
                crate::fixed::lemma_tdiv_nonneg(c as int * (s.radius as int) + obs.radius,
                    c as int + 1);
            }
            Some(
                Surfel {
                    pos: Vec3 { x: px, y: py, z: pz },
                    normal: n,
                    radius: rad,
                    color_r: cr as u8,
                    color_g: cg as u8,
                    color_b: cb as u8,
                    confidence: if s.confidence < cap {
                        s.confidence + 1
                    } else {
                        s.confidence
                    },
                    created_at: s.created_at,
                    last_update: now,
                },
            )
        } else {
            None
        }
    }

/// The weighted average of two bounded scalars, exact per `fuse_avg`.
fn avg_exec(conf: i64, a: i64, b: i64, m: i64) -> (r: i64)
    requires
        0 <= conf <= CONF_CAP_MAX,
        0 <= m <= 0x400_0000_0000,
        -m <= a <= m,
        -m <= b <= m,
    ensures
        r == fuse_avg(conf as int, a as int, b as int),
        -m <= r <= m,
{
    proof {
        lemma_abs_mul(conf as int, a as int, CONF_CAP_MAX as int, m as int);
        lemma_fuse_avg_within(conf as int, a as int, b as int, m as int);
    }
    let num = (conf as i128) * (a as i128) + (b as i128);
    div_round_zero_wide(num, (conf as i128) + 1) as i64
}

/// Fusing an observation identical to the surfel's own state leaves the
/// position, normal, radius and color exactly unchanged, while the
/// confidence rises by one until it saturates at the cap.
pub proof fn lemma_fuse_identical(s: Surfel, obs: Observation, cap: u32, now: u64)
    requires
        s.wf(),
        obs.pos == s.pos,
        obs.normal == s.normal,
        obs.radius == s.radius,
        obs.color_r == s.color_r,
        obs.color_g == s.color_g,
        obs.color_b == s.color_b,
    ensures
        spec_fuse(s, obs, cap, now) is Some,
        spec_fuse(s, obs, cap, now)->Some_0.pos == s.pos,
        spec_fuse(s, obs, cap, now)->Some_0.normal == s.normal,
        spec_fuse(s, obs, cap, now)->Some_0.radius == s.radius,
        spec_fuse(s, obs, cap, now)->Some_0.color_r == s.color_r,
        spec_fuse(s, obs, cap, now)->Some_0.color_g == s.color_g,
        spec_fuse(s, obs, cap, now)->Some_0.color_b == s.color_b,
        spec_fuse(s, obs, cap, now)->Some_0.confidence == if s.confidence < cap {
            s.confidence + 1
        } else {
            s.confidence as int
        },
{
    let c = s.confidence as int;
    lemma_fuse_avg_identical(c, s.pos@.x);
    lemma_fuse_avg_identical(c, s.pos@.y);
    lemma_fuse_avg_identical(c, s.pos@.z);
    lemma_fuse_avg_identical(c, s.normal@.x);
    lemma_fuse_avg_identical(c, s.normal@.y);
    lemma_fuse_avg_identical(c, s.normal@.z);
    lemma_fuse_avg_identical(c, s.radius as int);
    lemma_fuse_avg_identical(c, s.color_r as int);
    lemma_fuse_avg_identical(c, s.color_g as int);
    lemma_fuse_avg_identical(c, s.color_b as int);
}


/// Whether a map-space observation associates with a live surfel: it
/// projects with positive depth onto an occupied cell of the reference
/// view, and the cell's surfel passes both the distance and the normal
/// gates.
pub open spec fn associates(
    model: SurfelModel,
    imap: IndexMap,
    view_pose: TransformM,
    cam: Camera,
    cfg: FusionConfig,
    o: Observation,
) -> bool {
    let vp = apply_model(view_pose, o.pos@);
    let u = tdiv(cam.fx * vp.x, crate::camera::depth_scaled(vp.z)) + cam.cx;
    let v = tdiv(cam.fy * vp.y, crate::camera::depth_scaled(vp.z)) + cam.cy;
    let cell = v * imap.width_spec() + u;
    &&& vp.z >= 1
    &&& 0 <= u < imap.width_spec()
    &&& 0 <= v < imap.height_spec()
    &&& imap.cell_at(cell) is Some
    &&& model.contains(imap.cell_at(cell)->Some_0.id)
    &&& {
        let s = model.surfel_at(imap.cell_at(cell)->Some_0.id);
        &&& o.pos.dist_sq_spec(s.pos) <= cfg.assoc_dist_sq_max
        &&& o.normal.dot_spec(s.normal) >= cfg.normal_dot_min
    }
}

/// A fresh surfel built directly from an unmatched observation.
pub open spec fn spec_new_surfel(obs: Observation, now: u64) -> Surfel {
    Surfel {
        pos: obs.pos,
        normal: obs.normal,
        radius: obs.radius,
        color_r: obs.color_r,
        color_g: obs.color_g,
        color_b: obs.color_b,
        confidence: 1,
        created_at: now,
        last_update: now,
    }
}

/// What one observation did to the map.
#[derive(Clone, Copy, PartialEq, Eq, Structural, Debug)]
pub enum IntegrateOutcome {
    /// The observation was fused into this matched surfel.
    Fused(SurfelId),
    /// No association: a new surfel was created under this fresh handle.
    Created(SurfelId),
    /// The match was found but the averaged normal was degenerate: the
    /// surfel kept its prior state.
    KeptPrior(SurfelId),
}

/// Classify one map-space observation against the index map and apply the
/// fusion rule: fuse into the associated surfel, or create a new one when
/// nothing associates. An observation farther than the association distance
/// threshold from every live surfel always creates a new surfel and mutates
/// none.
#[verifier::rlimit(100)]
#[verifier::spinoff_prover]
pub fn integrate_observation(
    model: &mut SurfelModel,
    imap: &IndexMap,
    view_pose: &Transform,
    cam: &Camera,
    obs: &Observation,
    cfg: &FusionConfig,
    now: u64,
) -> (r: IntegrateOutcome)
    requires
        old(model).wf(),
        old(model).slot_count() < usize::MAX,
        imap.wf(),
        imap.entries_live(*old(model)),
        view_pose.wf(),
        cam.wf(),
        obs.wf(),
        cfg.wf(),
    ensures
        final(model).wf(),
        final(model).retired_ids() == old(model).retired_ids(),
        final(model).slot_count() <= old(model).slot_count() + 1,
        final(model).live_count() == old(model).live_count() + (if r is Created {
            1int
        } else {
            0int
        }),
        imap.entries_live(*final(model)),
        (forall|c: int|
            0 <= c < imap.width_spec() * imap.height_spec() ==> !((#[trigger] imap.cell_at(
            c)) is Some)) ==> r is Created,
        associates(*old(model), *imap, view_pose@, *cam, *cfg, *obs) ==> !(r is Created),
        r matches IntegrateOutcome::Created(id) ==> !old(model).contains(id) && final(
            model).contains(id) && final(model).surfel_at(id) == spec_new_surfel(*obs, now) && (
        forall|o: SurfelId|
            o != id ==> (#[trigger] final(model).contains(o) == old(model).contains(o)) && (old(
            model).contains(o) ==> final(model).surfel_at(o) == old(model).surfel_at(o))),
        r matches IntegrateOutcome::Fused(id) ==> old(model).contains(id) && final(
            model).contains(id) && obs.pos.dist_sq_spec(old(model).surfel_at(id).pos)
            <= cfg.assoc_dist_sq_max && spec_fuse(old(model).surfel_at(id), *obs, cfg.conf_cap,
            now) == Some(final(model).surfel_at(id)) && (forall|o: SurfelId|
            o != id ==> (#[trigger] final(model).contains(o) == old(model).contains(o)) && (old(
            model).contains(o) ==> final(model).surfel_at(o) == old(model).surfel_at(o))),
        r matches IntegrateOutcome::KeptPrior(id) ==> old(model).contains(id)
            && obs.pos.dist_sq_spec(old(model).surfel_at(id).pos) <= cfg.assoc_dist_sq_max
            && spec_fuse(old(model).surfel_at(id), *obs, cfg.conf_cap, now) is None && *final(
            model) == *old(model),
        (forall|id: SurfelId|
            #[trigger] old(model).contains(id) ==> obs.pos.dist_sq_spec(
                old(model).surfel_at(id).pos) > cfg.assoc_dist_sq_max) ==> r is Created,
{
    let p = view_pose.transform_vector(&obs.pos);
    let mut candidate: Option<SurfelId> = None;
    if p.z >= 1 {
        let (u, v) = cam.project(&p);
        if 0 <= u && u < imap.width() as i64 && 0 <= v && v < imap.height() as i64 {
            match imap.lookup(u as usize, v as usize) {
                Some(e) => {
                    proof {
                        assert(0 <= (v as int) * imap.width_spec() + (u as int)
                            < imap.width_spec() * imap.height_spec()) by (nonlinear_arith)
                            requires
                                0 <= (u as int) < imap.width_spec(),
                                0 <= (v as int) < imap.height_spec(),
                        ;
                        assert(imap.cell_at((v as int) * imap.width_spec() + (u as int)) is Some);
                    }
                    candidate = Some(e.id);
                },
                None => {},
            }
        }
    }
    match candidate {
        Some(id) => {
            match model.get(id) {
                Some(sref) => {
                    let s = *sref;
                    proof {
                        crate::surfel::lemma_live_wf(*model, id);
                    }
                    let dist = obs.pos.dist_sq(&s.pos, POS_MAX, );
                    let dot = obs.normal.dot(&s.normal, 2 * SCALE);
                    if dist <= cfg.assoc_dist_sq_max as i128 && dot >= cfg.normal_dot_min as i128 {
                        match fuse_surfel(&s, obs, cfg.conf_cap, now) {
                            Some(upd) => {
                                let ok = model.update(id, upd);
                                proof {
                                    assert(ok);
                                }
                                IntegrateOutcome::Fused(id)
                            },
                            None => IntegrateOutcome::KeptPrior(id),
                        }
                    } else {
                        let nid = model.insert(spec_new_surfel_exec(obs, now));
                        IntegrateOutcome::Created(nid)
                    }
                },
                None => {
                    let nid = model.insert(spec_new_surfel_exec(obs, now));
                    IntegrateOutcome::Created(nid)
                },
            }
        },
        None => {
            let nid = model.insert(spec_new_surfel_exec(obs, now));
            IntegrateOutcome::Created(nid)
        },
    }
}

/// Build the surfel `spec_new_surfel` describes.
fn spec_new_surfel_exec(obs: &Observation, now: u64) -> (r: Surfel)
    requires
        obs.wf(),
    ensures
        r == spec_new_surfel(*obs, now),
        r.wf(),
{
    Surfel {
        pos: obs.pos,
        normal: obs.normal,
        radius: obs.radius,
        color_r: obs.color_r,
        color_g: obs.color_g,
        color_b: obs.color_b,
        confidence: 1,
        created_at: now,
        last_update: now,
    }
}

/// The maintenance rule: a surfel still below the minimum confidence after
/// the staleness timeout has run out is removed.
pub open spec fn is_stale(cfg: FusionConfig, s: Surfel, now: u64) -> bool {
    s.confidence < cfg.min_confidence && s.created_at <= now && now - s.created_at
        > cfg.stale_after
}


/// Largest pose translation the per-frame pipeline accepts (2^30).
pub const POSE_T_MAX: i64 = 0x4000_0000;

/// Whether a camera-space observation survives the mapping into map space:
/// its normal, rotated by the pose, keeps bounded components and a squared
/// norm within the unit band. Every such observation is integrated.
pub open spec fn integrable(pose: TransformM, o: Observation) -> bool {
    let mn = rotate_model(pose.q, o.normal@);
    &&& mn.all_within(2 * (SCALE as int))
    &&& 0x4000_0000 <= mn.x * mn.x + mn.y * mn.y + mn.z * mn.z <= 0x4_0000_0000
}

/// How many of the first `n` observations are integrable under the pose.
pub open spec fn count_integrable(pose: TransformM, obs: Seq<Observation>, n: int) -> int
    decreases n,
{
    if n <= 0 {
        0
    } else {
        count_integrable(pose, obs, n - 1) + if integrable(pose, obs[n - 1]) {
            1int
        } else {
            0int
        }
    }
}

/// The fusion controller: owns the surfel map and applies, per frame,
/// association, confidence-weighted update, creation, and periodic
/// maintenance.
pub struct SurfelFusion {
    model: SurfelModel,
    cfg: FusionConfig,
    frame_no: u64,
}

impl SurfelFusion {
    pub closed spec fn model_spec(self) -> SurfelModel {
        self.model
    }

    pub closed spec fn cfg_spec(self) -> FusionConfig {
        self.cfg
    }

    pub closed spec fn wf(self) -> bool {
        self.model.wf() && self.cfg.wf()
    }

    pub fn new(cfg: FusionConfig) -> (r: SurfelFusion)
        requires
            cfg.wf(),
        ensures
            r.wf(),
            forall|id: SurfelId| !r.model_spec().contains(id),
            r.cfg_spec() == cfg,
    {
        SurfelFusion { model: SurfelModel::new(), cfg, frame_no: 0 }
    }

    /// Read access to the live map for export and queries.
    pub fn model(&self) -> (r: &SurfelModel)
        ensures
            r == self.model_spec(),
            self.wf() ==> r.wf(),
    {
        &self.model
    }

    pub fn len(&self) -> (r: usize)
        ensures
            r == self.model_spec().live_count(),
    {
        self.model.len()
    }

    /// How many arena slots the map has ever grown to.
    pub fn slot_len(&self) -> (r: usize)
        ensures
            r == self.model_spec().slot_count(),
    {
        self.model.slot_len()
    }

    /// Integrate one frame of camera-space observations under a refined
    /// pose: every observation is transformed into map space, associated
    /// through a freshly rebuilt index map, and fused or inserted. No surfel
    /// is removed here, so every previously live handle still resolves.
    pub fn process_frame(
        &mut self,
        observations: &Vec<Observation>,
        pose: &Transform,
        cam: &Camera,
        width: usize,
        height: usize,
    ) -> (r: (usize, usize, usize))
        requires
            old(self).wf(),
            pose.wf(),
            pose@.t.all_within(POSE_T_MAX as int),
            cam.wf(),
            1 <= width <= crate::indexmap::VIEW_MAX,
            1 <= height <= crate::indexmap::VIEW_MAX,
            forall|j: int|
                0 <= j < observations@.len() ==> (#[trigger] observations@[j]).wf()
                    && observations@[j].pos@.all_within(crate::fixed::COORD_MAX as int),
            old(self).model_spec().slot_count() + observations@.len() < usize::MAX,
        ensures
            final(self).wf(),
            final(self).cfg_spec() == old(self).cfg_spec(),
            final(self).model_spec().retired_ids() == old(self).model_spec().retired_ids(),
            forall|id: SurfelId|
                old(self).model_spec().contains(id) ==> #[trigger] final(
                self).model_spec().contains(id),
            r.0 + r.1 + r.2 == count_integrable(pose@, observations@, observations@.len() as int),
            final(self).model_spec().live_count() == old(self).model_spec().live_count() + r.0,
            (forall|id: SurfelId| !old(self).model_spec().contains(id)) ==> r.1 == 0 && r.0
                == count_integrable(pose@, observations@, observations@.len() as int),
    {
        let now = if self.frame_no < 0xFFFF_FFFF_FFFF_FFFFu64 {
            self.frame_no + 1
        } else {
            self.frame_no
        };
        self.frame_no = now;
        let view_pose = pose.inverse();
        let imap = IndexMap::rebuild(&self.model, &view_pose, cam, width, height);
        let ghost empty_start = forall|id: SurfelId| !old(self).model_spec().contains(id);
        proof {
            if empty_start {
                assert forall|c: int|
                    0 <= c < imap.width_spec() * imap.height_spec() implies !((
                #[trigger] imap.cell_at(c)) is Some) by {
                    if imap.cell_at(c) is Some {
                        assert(crate::indexmap::visible(self.model, view_pose@, *cam,
                            width as int, height as int, imap.cell_at(c)->Some_0.id));
                    }
                };
            }
        }
        let mut created: usize = 0;
        let mut fused: usize = 0;
        let mut kept: usize = 0;
        let mut j: usize = 0;
        let ghost start_model = self.model;
        while j < observations.len()
            invariant
                self.model.wf(),
                self.cfg.wf(),
                self.cfg == old(self).cfg_spec(),
                self.frame_no == now,
                pose.wf(),
                pose@.t.all_within(POSE_T_MAX as int),
                view_pose.wf(),
                cam.wf(),
                imap.wf(),
                imap.entries_live(self.model),
                j <= observations@.len(),
                created + fused + kept <= j,
                forall|jj: int|
                    0 <= jj < observations@.len() ==> (#[trigger] observations@[jj]).wf()
                        && observations@[jj].pos@.all_within(crate::fixed::COORD_MAX as int),
                self.model.slot_count() <= start_model.slot_count() + j,
                start_model.slot_count() + observations@.len() < usize::MAX,
                self.model.retired_ids() == start_model.retired_ids(),
                forall|id: SurfelId|
                    start_model.contains(id) ==> #[trigger] self.model.contains(id),
                start_model == old(self).model_spec(),
                self.model.live_count() == start_model.live_count() + created,
                empty_start ==> (forall|c: int|
                    0 <= c < imap.width_spec() * imap.height_spec() ==> !((
                    #[trigger] imap.cell_at(c)) is Some)),
                empty_start ==> fused == 0 && created == count_integrable(pose@, observations@,
                    j as int),
                created + fused + kept == count_integrable(pose@, observations@, j as int),
            decreases observations@.len() - j,
        {
            let obs = &observations[j];
            let mp = pose.transform_vector(&obs.pos);
            let mn = pose.transform_normal(&obs.normal);
            proof {
                crate::transform::lemma_rotate_bound(pose@.q, obs.pos@,
                    crate::fixed::COORD_MAX as int);
            }
            let band_lo: i128 = 0x4000_0000;
            let band_hi: i128 = 0x4_0000_0000;
            let two_scale: i64 = 2 * SCALE;
            let n_ok = -two_scale <= mn.x && mn.x <= two_scale && -two_scale <= mn.y && mn.y
                <= two_scale && -two_scale <= mn.z && mn.z <= two_scale;
            if n_ok {
                let nsq = mn.norm_sq(two_scale);
                if band_lo <= nsq && nsq <= band_hi {
                    proof {
                        assert(integrable(pose@, observations@[j as int]));
                    }
                    let mobs = Observation {
                        pos: mp,
                        normal: mn,
                        radius: obs.radius,
                        color_r: obs.color_r,
                        color_g: obs.color_g,
                        color_b: obs.color_b,
                    };
                    let ghost before = self.model;
                    let outcome = integrate_observation(&mut self.model, &imap, &view_pose, cam,
                        &mobs, &self.cfg, now);
                    proof {
                        assert forall|id: SurfelId|
                            start_model.contains(id) implies #[trigger] self.model.contains(
                            id) by {
                            assert(before.contains(id));
                            match outcome {
                                IntegrateOutcome::Created(nid) => {
                                    assert(id != nid);
                                },
                                _ => {},
                            }
                        };
                    }
                    proof {
                        if empty_start {
                            assert(outcome is Created);
                        }
                    }
                    match outcome {
                        IntegrateOutcome::Created(_) => {
                            created = created + 1;
                        },
                        IntegrateOutcome::Fused(_) => {
                            fused = fused + 1;
                        },
                        IntegrateOutcome::KeptPrior(_) => {
                            kept = kept + 1;
                        },
                    }
                } else {
                    proof {
                        assert(!integrable(pose@, observations@[j as int]));
                    }
                }
            } else {
                proof {
                    assert(!integrable(pose@, observations@[j as int]));
                }
            }
            j = j + 1;
        }
        (created, fused, kept)
    }

    /// The periodic maintenance pass: remove every surfel whose confidence
    /// is still below the configured minimum once the staleness timeout has
    /// passed, and no other.
    pub fn maintain(&mut self) -> (removed: usize)
        requires
            old(self).wf(),
        ensures
            final(self).wf(),
            final(self).cfg_spec() == old(self).cfg_spec(),
            final(self).model_spec().slot_count() == old(self).model_spec().slot_count(),
            forall|id: SurfelId|
                #[trigger] final(self).model_spec().contains(id) == (old(
                self).model_spec().contains(id) && !is_stale(old(self).cfg_spec(), old(
                self).model_spec().surfel_at(id), old(self).frame_spec())),
            forall|id: SurfelId|
                #[trigger] final(self).model_spec().contains(id) ==> final(
                self).model_spec().surfel_at(id) == old(self).model_spec().surfel_at(id),
            forall|k: (int, int)|
                old(self).model_spec().retired_ids().contains(k) ==> final(
                self).model_spec().retired_ids().contains(k),
            forall|id: SurfelId|
                old(self).model_spec().contains(id) && is_stale(old(self).cfg_spec(), old(
                self).model_spec().surfel_at(id), old(self).frame_spec()) ==> final(
                self).model_spec().retired_ids().contains(id_key(id)),
    {
        let now = self.frame_no;
        let list = self.model.live_surfels();
        let ghost start_model = self.model;
        let mut removed: usize = 0;
        let mut k: usize = 0;
        while k < list.len()
            invariant
                self.model.wf(),
                self.cfg.wf(),
                self.cfg == old(self).cfg_spec(),
                self.frame_no == old(self).frame_spec(),
                now == old(self).frame_spec(),
                k <= list@.len(),
                removed <= k,
                forall|j: int|
                    0 <= j < list@.len() ==> start_model.contains(#[trigger] list@[j].0)
                        && start_model.surfel_at(list@[j].0) == list@[j].1,
                forall|id: SurfelId|
                    #[trigger] start_model.contains(id) ==> list@.contains(
                    (id, start_model.surfel_at(id))),
                forall|j1: int, j2: int|
                    0 <= j1 < j2 < list@.len() ==> (#[trigger] list@[j1].0) != (
                    #[trigger] list@[j2].0),
                self.model.slot_count() == start_model.slot_count(),
                forall|k: (int, int)|
                    start_model.retired_ids().contains(k) ==> self.model.retired_ids().contains(
                    k),
                forall|j: int|
                    0 <= j < k && is_stale(self.cfg, (#[trigger] list@[j]).1, now)
                        ==> self.model.retired_ids().contains(id_key(list@[j].0)),
                forall|id: SurfelId|
                    #[trigger] self.model.contains(id) ==> start_model.contains(id)
                        && self.model.surfel_at(id) == start_model.surfel_at(id),
                forall|j: int|
                    0 <= j < k ==> (#[trigger] self.model.contains(list@[j].0) == !is_stale(
                    self.cfg, start_model.surfel_at(list@[j].0), now)),
                forall|j: int|
                    k <= j < list@.len() ==> #[trigger] self.model.contains(list@[j].0),
            decreases list@.len() - k,
        {
            let (id, s) = list[k];
            let stale = s.confidence < self.cfg.min_confidence && s.created_at <= now && now
                - s.created_at > self.cfg.stale_after;
            if stale {
                self.model.remove(id);
                removed = removed + 1;
            }
            k = k + 1;
        }
        proof {
            assert forall|id: SurfelId|
                #[trigger] self.model.contains(id) == (start_model.contains(id) && !is_stale(
                self.cfg, start_model.surfel_at(id), now)) by {
                if start_model.contains(id) {
                    assert(list@.contains((id, start_model.surfel_at(id))));
                    let j = choose|j: int|
                        0 <= j < list@.len() && list@[j] == (id, start_model.surfel_at(id));
                    assert(self.model.contains(list@[j].0) == !is_stale(self.cfg,
                        start_model.surfel_at(list@[j].0), now));
                }
            };
            assert forall|id: SurfelId|
                start_model.contains(id) && is_stale(self.cfg, start_model.surfel_at(id), now)
                    implies self.model.retired_ids().contains(id_key(id)) by {
                assert(list@.contains((id, start_model.surfel_at(id))));
                let j = choose|j: int|
                    0 <= j < list@.len() && list@[j] == (id, start_model.surfel_at(id));
                assert(is_stale(self.cfg, list@[j].1, now));
            };
        }
        removed
    }

    pub closed spec fn frame_spec(self) -> u64 {
        self.frame_no
    }
}

} // verus!
