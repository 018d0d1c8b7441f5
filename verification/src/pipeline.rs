use vstd::prelude::*;

use crate::camera::Camera;
use crate::fixed::COORD_MAX;
use crate::fusion::{count_integrable, Observation, SurfelFusion, POSE_T_MAX};
use crate::icp::{register, IcpParams, IcpResult};
use crate::indexmap::IndexMap;
use crate::surfel::SurfelId;
use crate::transform::Transform;

verus! {

/// One frame of the sequential pipeline: refine the pose by point-to-plane
/// registration against the current map, then fuse the frame under the
/// refined pose. An empty map skips registration and fuses every integrable
/// observation directly under the prior pose. A failed registration — a
/// degenerate frame or exhausted retries — reports the frame as failed:
/// `None` comes back and the map is left exactly as it was, with no partial
/// mutation.
pub fn track_and_fuse(
    fusion: &mut SurfelFusion,
    frame: &Vec<Observation>,
    cam: &Camera,
    prev_pose: &Transform,
    params: &IcpParams,
    width: usize,
    height: usize,
) -> (r: Option<Transform>)
    requires
        old(fusion).wf(),
        cam.wf(),
        params.wf(),
        prev_pose.wf(),
        prev_pose@.t.all_within(POSE_T_MAX as int),
        1 <= width <= crate::indexmap::VIEW_MAX,
        1 <= height <= crate::indexmap::VIEW_MAX,
        forall|j: int|
            0 <= j < frame@.len() ==> (#[trigger] frame@[j]).wf() && frame@[j].pos@.all_within(
                COORD_MAX as int),
        old(fusion).model_spec().slot_count() + frame@.len() < usize::MAX,
    ensures
        final(fusion).wf(),
        final(fusion).cfg_spec() == old(fusion).cfg_spec(),
        r is None ==> *final(fusion) == *old(fusion),
        r matches Some(p) ==> {
            &&& p.wf()
            &&& p@.t.all_within(POSE_T_MAX as int)
            &&& final(fusion).model_spec().retired_ids() == old(
                fusion).model_spec().retired_ids()
            &&& (forall|id: SurfelId|
                old(fusion).model_spec().contains(id) ==> #[trigger] final(
                fusion).model_spec().contains(id))
            &&& old(fusion).model_spec().live_count() <= final(fusion).model_spec().live_count()
            &&& final(fusion).model_spec().live_count() <= old(
                fusion).model_spec().live_count() + count_integrable(p@, frame@,
                frame@.len() as int)
        },
        old(fusion).model_spec().live_count() == 0 ==> (r matches Some(p) ==> p == *prev_pose
            && final(fusion).model_spec().live_count() == count_integrable(prev_pose@, frame@,
            frame@.len() as int)),
    {
        if fusion.model().len() == 0 {
            let (created, _fused, _kept) = fusion.process_frame(frame, prev_pose, cam, width, height);
            return Some(*prev_pose);
        }
        let view_pose = prev_pose.inverse();
        let imap = IndexMap::rebuild(fusion.model(), &view_pose, cam, width, height);
        match register(frame, fusion.model(), &imap, &view_pose, cam, params, prev_pose) {
            IcpResult::Converged(p) => {
                let (created, _fused, _kept) = fusion.process_frame(frame, &p, cam, width, height);
                Some(p)
            },
            IcpResult::DivergedExhausted(_) => None,
            IcpResult::InsufficientCorrespondences => None,
        }
    }

} // verus!
