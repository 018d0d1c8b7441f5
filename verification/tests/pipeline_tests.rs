use surfel_fusion::camera::Camera;
use surfel_fusion::pipeline::track_and_fuse;
use surfel_fusion::spatial::{SpatialIndex, SpatialIndexError};
use surfel_fusion::fusion::{fuse_surfel, FusionConfig, Observation, SurfelFusion};
use surfel_fusion::icp::{register, solve3, IcpParams, IcpResult};
use surfel_fusion::indexmap::IndexMap;
use surfel_fusion::surfel::{Surfel, SurfelModel};
use surfel_fusion::transform::Transform;
use surfel_fusion::vec3::Vec3;

const S: i64 = 65536;

fn cfg() -> FusionConfig {
    FusionConfig {
        assoc_dist_sq_max: 1_000_000_000,
        normal_dot_min: 0,
        conf_cap: 10,
        min_confidence: 3,
        stale_after: 10,
    }
}

fn obs_at(pos: Vec3) -> Observation {
    Observation {
        pos,
        normal: Vec3::new(0, 0, S),
        radius: 655,
        color_r: 10,
        color_g: 20,
        color_b: 30,
    }
}

#[test]
fn fusing_identical_observation_converges() {
    // Fusing the surfel's own state N times leaves every field unchanged
    // while confidence climbs by one per step and saturates at the cap.
    let mut s = Surfel {
        pos: Vec3::new(100, 200, 65536),
        normal: Vec3::new(0, 0, S),
        radius: 655,
        color_r: 1,
        color_g: 2,
        color_b: 3,
        confidence: 1,
        created_at: 1,
        last_update: 1,
    };
    let obs = Observation {
        pos: s.pos,
        normal: s.normal,
        radius: s.radius,
        color_r: s.color_r,
        color_g: s.color_g,
        color_b: s.color_b,
    };
    for step in 0..15u32 {
        let next = fuse_surfel(&s, &obs, 10, 2).expect("identical fusion never degenerates");
        assert_eq!(next.pos, s.pos);
        assert_eq!(next.normal, s.normal);
        assert_eq!(next.radius, s.radius);
        assert_eq!((next.color_r, next.color_g, next.color_b), (1, 2, 3));
        let expected = if s.confidence < 10 { s.confidence + 1 } else { 10 };
        assert_eq!(next.confidence, expected);
        let _ = step;
        s = next;
    }
    assert_eq!(s.confidence, 10);
}

#[test]
fn degenerate_normal_keeps_prior_state() {
    // Averaging two opposite normals with equal weight yields the zero
    // vector: the update is rejected and the prior state kept.
    let s = Surfel {
        pos: Vec3::new(0, 0, 65536),
        normal: Vec3::new(0, 0, S),
        radius: 655,
        color_r: 0,
        color_g: 0,
        color_b: 0,
        confidence: 1,
        created_at: 1,
        last_update: 1,
    };
    let mut obs = obs_at(s.pos);
    obs.normal = Vec3::new(0, 0, -S);
    assert!(fuse_surfel(&s, &obs, 10, 2).is_none());
}

#[test]
fn far_observation_creates_new_surfel() {
    // An observation farther than the association threshold from every live
    // surfel creates a new surfel and mutates none.
    let mut f = SurfelFusion::new(FusionConfig { assoc_dist_sq_max: 100, ..cfg() });
    let cam = Camera::from_simple_intrinsic(S, S, 8, 8);
    let pose = Transform::eye();
    let first = vec![obs_at(Vec3::new(0, 0, S))];
    let (c, fu, _k) = f.process_frame(&first, &pose, &cam, 16, 16);
    assert_eq!((c, fu), (1, 0));
    // Same pixel, but farther than the association threshold allows.
    let second = vec![obs_at(Vec3::new(0, 0, S + 6554))];
    let (c, fu, _k) = f.process_frame(&second, &pose, &cam, 16, 16);
    assert_eq!((c, fu), (1, 0));
    assert_eq!(f.len(), 2);
}

#[test]
fn near_observation_fuses() {
    let mut f = SurfelFusion::new(cfg());
    let cam = Camera::from_simple_intrinsic(S, S, 8, 8);
    let pose = Transform::eye();
    let (c, fu, _k) = f.process_frame(&vec![obs_at(Vec3::new(0, 0, S))], &pose, &cam, 16, 16);
    assert_eq!((c, fu), (1, 0));
    let (c, fu, _k) = f.process_frame(&vec![obs_at(Vec3::new(0, 0, S + 60))], &pose, &cam, 16, 16);
    assert_eq!((c, fu), (0, 1));
    assert_eq!(f.len(), 1);
}

#[test]
fn empty_map_planar_frame_creates_all() {
    // An empty map with a single planar frame of 100 valid points: exactly
    // 100 surfels are created, none fused, and the maintenance pass removes
    // none because the staleness timeout has not run out.
    let mut f = SurfelFusion::new(cfg());
    let cam = Camera::from_simple_intrinsic(S, S, 32, 32);
    let pose = Transform::eye();
    let mut frame = Vec::new();
    for i in 0..10i64 {
        for j in 0..10i64 {
            frame.push(obs_at(Vec3::new(i * S, j * S, 20 * S)));
        }
    }
    let (created, fused, _kept) = f.process_frame(&frame, &pose, &cam, 64, 64);
    assert_eq!(created, 100);
    assert_eq!(fused, 0);
    assert_eq!(f.len(), 100);
    let removed = f.maintain();
    assert_eq!(removed, 0);
    assert_eq!(f.len(), 100);
}

#[test]
fn maintenance_removes_stale_low_confidence() {
    let mut f = SurfelFusion::new(FusionConfig { stale_after: 2, ..cfg() });
    let cam = Camera::from_simple_intrinsic(S, S, 8, 8);
    let pose = Transform::eye();
    f.process_frame(&vec![obs_at(Vec3::new(0, 0, S))], &pose, &cam, 16, 16);
    assert_eq!(f.len(), 1);
    // Advance four frames without re-observing the surfel.
    let empty: Vec<Observation> = Vec::new();
    for _ in 0..4 {
        f.process_frame(&empty, &pose, &cam, 16, 16);
    }
    let removed = f.maintain();
    assert_eq!(removed, 1);
    assert_eq!(f.len(), 0);
}

#[test]
fn solver_recovers_exact_solution() {
    // A diagonal system with an exact integer solution.
    let r = solve3(3, 0, 0, 0, 3, 0, 0, 0, 3, 19662, -30, 9).unwrap();
    assert_eq!(r, (6554, -10, 3));
    // A singular system is reported as such.
    assert!(solve3(1, 1, 0, 2, 2, 0, 0, 0, 1, 5, 5, 5).is_none());
}

#[test]
fn icp_recovers_pure_translation() {
    // A synthetic point set and its copy shifted by (0.1, 0, 0): the
    // registration converges to a pose whose translation recovers the shift
    // within 1e-3 units of length, in under 20 iterations.
    let shift = Vec3::new(6554, 0, 0);
    let mut model = SurfelModel::new();
    let normals = [Vec3::new(S, 0, 0), Vec3::new(0, S, 0), Vec3::new(0, 0, S)];
    let mut frame = Vec::new();
    for i in 0..3i64 {
        for j in 0..3i64 {
            let pos = Vec3::new(
                (10 + 2 * i) * S + 32768,
                (10 + 2 * j) * S + 32768,
                S,
            );
            let normal = normals[((i + j) % 3) as usize];
            model.insert(Surfel {
                pos,
                normal,
                radius: 655,
                color_r: 0,
                color_g: 0,
                color_b: 0,
                confidence: 5,
                created_at: 1,
                last_update: 1,
            });
            frame.push(Observation {
                pos: Vec3::new(pos.x - shift.x, pos.y, pos.z),
                normal,
                radius: 655,
                color_r: 0,
                color_g: 0,
                color_b: 0,
            });
        }
    }
    let cam = Camera::from_simple_intrinsic(S, S, 0, 0);
    let view_pose = Transform::eye();
    let imap = IndexMap::rebuild(&model, &view_pose, &cam, 64, 64);
    let params = IcpParams {
        max_iterations: 20,
        min_correspondences: 6,
        dist_sq_max: 1_000_000_000,
        normal_dot_min: 0,
        conv_eps_sq: 100,
        max_retries: 3,
    };
    let r = register(&frame, &model, &imap, &view_pose, &cam, &params, &Transform::eye());
    match r {
        IcpResult::Converged(pose) => {
            let t = pose.translation();
            assert!((t.x - 6554).abs() <= 65, "tx = {}", t.x);
            assert!(t.y.abs() <= 65, "ty = {}", t.y);
            assert!(t.z.abs() <= 65, "tz = {}", t.z);
        },
        other => panic!("expected convergence, got {:?}", other),
    }
}

#[test]
fn icp_fails_without_correspondences() {
    let model = SurfelModel::new();
    let cam = Camera::from_simple_intrinsic(S, S, 8, 8);
    let view_pose = Transform::eye();
    let imap = IndexMap::rebuild(&model, &view_pose, &cam, 16, 16);
    let params = IcpParams {
        max_iterations: 20,
        min_correspondences: 6,
        dist_sq_max: 1_000_000_000,
        normal_dot_min: 0,
        conv_eps_sq: 100,
        max_retries: 3,
    };
    let frame = vec![obs_at(Vec3::new(0, 0, S))];
    let r = register(&frame, &model, &imap, &view_pose, &cam, &params, &Transform::eye());
    assert_eq!(r, IcpResult::InsufficientCorrespondences);
}

#[test]
fn icp_reports_degenerate_system() {
    // Every surfel shares one normal, so the translational normal system is
    // singular: the engine reports exhaustion with the last best pose.
    let mut model = SurfelModel::new();
    let mut frame = Vec::new();
    for i in 0..3i64 {
        for j in 0..3i64 {
            let pos = Vec3::new((10 + 2 * i) * S + 32768, (10 + 2 * j) * S + 32768, S);
            model.insert(Surfel {
                pos,
                normal: Vec3::new(0, 0, S),
                radius: 655,
                color_r: 0,
                color_g: 0,
                color_b: 0,
                confidence: 5,
                created_at: 1,
                last_update: 1,
            });
            frame.push(obs_at(pos));
        }
    }
    let cam = Camera::from_simple_intrinsic(S, S, 0, 0);
    let view_pose = Transform::eye();
    let imap = IndexMap::rebuild(&model, &view_pose, &cam, 64, 64);
    let params = IcpParams {
        max_iterations: 20,
        min_correspondences: 6,
        dist_sq_max: 1_000_000_000,
        normal_dot_min: 0,
        conv_eps_sq: 100,
        max_retries: 3,
    };
    let init = Transform::eye();
    let r = register(&frame, &model, &imap, &view_pose, &cam, &params, &init);
    assert_eq!(r, IcpResult::DivergedExhausted(init));
}

#[test]
fn fusing_near_origin_observation() {
    // A map surfel at the origin with normal (0, 0, 1), radius 0.01 and
    // confidence 5; an observation at (0, 0, 0.001) with a matching normal
    // fuses to a position still at the origin within the observation offset,
    // the same normal, and confidence 6.
    let s = Surfel {
        pos: Vec3::new(0, 0, 0),
        normal: Vec3::new(0, 0, S),
        radius: 655,
        color_r: 0,
        color_g: 0,
        color_b: 0,
        confidence: 5,
        created_at: 1,
        last_update: 1,
    };
    let obs = Observation {
        pos: Vec3::new(0, 0, 66),
        normal: Vec3::new(0, 0, S),
        radius: 655,
        color_r: 0,
        color_g: 0,
        color_b: 0,
    };
    let fused = fuse_surfel(&s, &obs, 100, 2).expect("matching normal fuses");
    assert_eq!(fused.confidence, 6);
    assert_eq!(fused.normal, Vec3::new(0, 0, S));
    assert_eq!(fused.pos, Vec3::new(0, 0, 11));
    assert!(fused.pos.z.abs() <= 66);
}

#[test]
fn spatial_index_nearest_and_radius() {
    let idx = SpatialIndex::build(vec![
        Vec3::new(0, 0, 0),
        Vec3::new(10, 0, 0),
        Vec3::new(0, 20, 0),
    ]);
    let (i, p) = idx.nearest(&Vec3::new(9, 1, 0)).unwrap();
    assert_eq!(i, 1);
    assert_eq!(p, Vec3::new(10, 0, 0));
    let near = idx.within_radius(&Vec3::new(0, 0, 0), 150);
    assert_eq!(near, vec![0, 1]);
    let empty = SpatialIndex::build(Vec::new());
    assert_eq!(empty.nearest(&Vec3::new(0, 0, 0)), Err(SpatialIndexError::EmptyIndex));
}

#[test]
fn pipeline_empty_map_fuses_directly() {
    let mut f = SurfelFusion::new(cfg());
    let cam = Camera::from_simple_intrinsic(S, S, 8, 8);
    let prev = Transform::eye();
    let params = IcpParams {
        max_iterations: 20,
        min_correspondences: 6,
        dist_sq_max: 1_000_000_000,
        normal_dot_min: 0,
        conv_eps_sq: 100,
        max_retries: 3,
    };
    let frame = vec![obs_at(Vec3::new(0, 0, S)), obs_at(Vec3::new(S, 0, S))];
    let r = track_and_fuse(&mut f, &frame, &cam, &prev, &params, 16, 16);
    assert_eq!(r, Some(prev));
    assert_eq!(f.len(), 2);
}

#[test]
fn pipeline_failed_registration_leaves_map_untouched() {
    let mut f = SurfelFusion::new(cfg());
    let cam = Camera::from_simple_intrinsic(S, S, 0, 0);
    let prev = Transform::eye();
    let params = IcpParams {
        max_iterations: 20,
        min_correspondences: 6,
        dist_sq_max: 1_000_000_000,
        normal_dot_min: 0,
        conv_eps_sq: 100,
        max_retries: 3,
    };
    // Seed the map; every surfel shares one normal, so the next frame's
    // registration degenerates and the frame must be dropped atomically.
    let mut seed = Vec::new();
    for i in 0..3i64 {
        for j in 0..3i64 {
            seed.push(obs_at(Vec3::new((10 + 2 * i) * S + 32768, (10 + 2 * j) * S + 32768, S)));
        }
    }
    f.process_frame(&seed, &prev, &cam, 64, 64);
    assert_eq!(f.len(), 9);
    let r = track_and_fuse(&mut f, &seed, &cam, &prev, &params, 64, 64);
    assert_eq!(r, None);
    assert_eq!(f.len(), 9);
}

#[test]
fn pipeline_converged_registration_fuses() {
    let mut f = SurfelFusion::new(cfg());
    let cam = Camera::from_simple_intrinsic(S, S, 0, 0);
    let prev = Transform::eye();
    let params = IcpParams {
        max_iterations: 20,
        min_correspondences: 6,
        dist_sq_max: 1_000_000_000,
        normal_dot_min: 0,
        conv_eps_sq: 100,
        max_retries: 3,
    };
    let normals = [Vec3::new(S, 0, 0), Vec3::new(0, S, 0), Vec3::new(0, 0, S)];
    let mut seed = Vec::new();
    let mut shifted = Vec::new();
    for i in 0..3i64 {
        for j in 0..3i64 {
            let pos = Vec3::new((10 + 2 * i) * S + 32768, (10 + 2 * j) * S + 32768, S);
            let normal = normals[((i + j) % 3) as usize];
            let mut o = obs_at(pos);
            o.normal = normal;
            seed.push(o);
            let mut o2 = obs_at(Vec3::new(pos.x - 6554, pos.y, pos.z));
            o2.normal = normal;
            shifted.push(o2);
        }
    }
    f.process_frame(&seed, &prev, &cam, 64, 64);
    assert_eq!(f.len(), 9);
    let r = track_and_fuse(&mut f, &shifted, &cam, &prev, &params, 64, 64);
    let p = r.expect("mixed normals register and converge");
    assert!((p.translation().x - 6554).abs() <= 65);
    assert!(p.translation().y.abs() <= 65);
    assert!(p.translation().z.abs() <= 65);
}
