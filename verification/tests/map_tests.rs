use surfel_fusion::camera::Camera;
use surfel_fusion::frame::FrameBuffer;
use surfel_fusion::fusion::Observation;
use surfel_fusion::dataset::{create_dataset_from_string, DatasetError, DatasetFormat};
use surfel_fusion::indexmap::IndexMap;
use surfel_fusion::sphere::Sphere3D;
use surfel_fusion::surfel::{Surfel, SurfelId, SurfelModel};
use surfel_fusion::transform::Transform;
use surfel_fusion::vec3::Vec3;

const S: i64 = 65536;

fn surfel_at(pos: Vec3, confidence: u32) -> Surfel {
    Surfel {
        pos,
        normal: Vec3::new(0, 0, S),
        radius: 655,
        color_r: 10,
        color_g: 20,
        color_b: 30,
        confidence,
        created_at: 1,
        last_update: 1,
    }
}

#[test]
fn arena_insert_and_get() {
    let mut m = SurfelModel::new();
    assert_eq!(m.len(), 0);
    let id = m.insert(surfel_at(Vec3::new(1, 2, 3), 1));
    assert_eq!(m.len(), 1);
    let got = m.get(id).expect("live handle must resolve");
    assert_eq!(got.pos, Vec3::new(1, 2, 3));
}

#[test]
fn removed_id_never_resolves_after_reuse() {
    let mut m = SurfelModel::new();
    let id1 = m.insert(surfel_at(Vec3::new(1, 0, 0), 1));
    assert!(m.remove(id1));
    assert!(m.get(id1).is_none());
    // The slot is reused for a different surfel under a new identifier.
    let id2 = m.insert(surfel_at(Vec3::new(2, 0, 0), 1));
    assert_eq!(id2.slot, id1.slot);
    assert_ne!(id2, id1);
    assert!(m.get(id1).is_none());
    assert_eq!(m.get(id2).expect("new handle resolves").pos, Vec3::new(2, 0, 0));
    // Removing twice fails distinctly, and a never-issued handle fails too.
    assert!(!m.remove(id1));
    assert!(m.get(SurfelId { slot: 99, gen: 0 }).is_none());
}

#[test]
fn index_map_keeps_nearest_of_two() {
    let mut m = SurfelModel::new();
    let near = m.insert(surfel_at(Vec3::new(0, 0, S), 3));
    let far = m.insert(surfel_at(Vec3::new(0, 0, 2 * S), 3));
    let cam = Camera::from_simple_intrinsic(S, S, 8, 8);
    let imap = IndexMap::rebuild(&m, &Transform::eye(), &cam, 16, 16);
    // Both project to pixel (8, 8); only the nearer one is retained.
    let e = imap.lookup(8, 8).expect("cell must be occupied");
    assert_eq!(e.id, near);
    assert_eq!(e.depth, S);
    assert_ne!(e.id, far);
}

#[test]
fn index_map_drops_removed_surfels() {
    let mut m = SurfelModel::new();
    let id = m.insert(surfel_at(Vec3::new(0, 0, S), 3));
    m.remove(id);
    let cam = Camera::from_simple_intrinsic(S, S, 8, 8);
    let imap = IndexMap::rebuild(&m, &Transform::eye(), &cam, 16, 16);
    assert!(imap.lookup(8, 8).is_none());
}

#[test]
fn camera_projects_and_backprojects() {
    let cam = Camera::from_simple_intrinsic(S, S, 8, 8);
    let p = Vec3::new(2 * S, -S, S);
    let (u, v) = cam.project(&p);
    assert_eq!((u, v), (10, 7));
    let b = cam.backproject(10, 7, S);
    assert_eq!(b, Vec3::new(2 * S, -S, S));
}

#[test]
fn camera_scale_halves_intrinsics() {
    let cam = Camera::from_simple_intrinsic(S, S, 8, 8);
    let half = cam.scale(32768);
    assert_eq!(half.fx, S / 2);
    assert_eq!(half.fy, S / 2);
    assert_eq!(half.cx, 4);
    assert_eq!(half.cy, 4);
}

#[test]
fn sphere_from_points_encloses_all() {
    let pts = vec![
        Vec3::new(0, 0, 0),
        Vec3::new(2 * S, 0, 0),
        Vec3::new(S, S, 0),
        Vec3::new(S, -S, 0),
    ];
    let sp = Sphere3D::from_points(&pts);
    assert!(!sp.is_empty());
    assert_eq!(sp.center, Vec3::new(S, 0, 0));
    // The farthest point is at distance S from the center.
    assert_eq!(sp.radius, S);
}

#[test]
fn sphere_from_point_iter_matches_from_points() {
    let pts = vec![Vec3::new(0, 0, 0), Vec3::new(2 * S, 0, 0), Vec3::new(S, S, 0)];
    assert_eq!(Sphere3D::from_point_iter(&pts), Sphere3D::from_points(&pts));
    let none: Vec<Vec3> = Vec::new();
    assert!(Sphere3D::from_point_iter(&none).is_empty());
}

#[test]
fn sphere_empty_marker() {
    let none: Vec<Vec3> = Vec::new();
    assert!(Sphere3D::from_points(&none).is_empty());
    let sp = Sphere3D::empty();
    assert!(sp.is_empty());
    assert_eq!(sp.center, Vec3::new(0, 0, 0));
    // Merging with the empty marker returns the other operand unchanged.
    let full = Sphere3D::from_points(&vec![Vec3::new(0, 0, 0), Vec3::new(S, 0, 0)]);
    assert_eq!(sp.add(&full), full);
    assert_eq!(full.add(&sp), full);
}

#[test]
fn sphere_merge_covers_both_centers() {
    let a = Sphere3D::from_points(&vec![Vec3::new(0, 0, 0)]);
    let b = Sphere3D::from_points(&vec![Vec3::new(4 * S, 0, 0)]);
    let m = a.add(&b);
    assert_eq!(m.center, Vec3::new(2 * S, 0, 0));
    assert!(m.radius >= 2 * S);
}

#[test]
fn dataset_format_selection() {
    let ok = create_dataset_from_string("slamtb".to_owned(), "data/a".to_owned()).unwrap();
    assert_eq!(ok.format, DatasetFormat::SlamTb);
    assert_eq!(ok.path, "data/a".to_owned());
    let ok = create_dataset_from_string("ilrgbd".to_owned(), "d".to_owned()).unwrap();
    assert_eq!(ok.format, DatasetFormat::IndoorLidar);
    let ok = create_dataset_from_string("tum".to_owned(), "d".to_owned()).unwrap();
    assert_eq!(ok.format, DatasetFormat::TumRgbd);
    let err = create_dataset_from_string("kitti".to_owned(), "d".to_owned());
    assert_eq!(err, Err(DatasetError::InvalidFormat("kitti".to_owned())));
}

#[test]
fn frame_buffer_views() {
    let obs = |z: i64| Observation {
        pos: Vec3::new(0, 0, z),
        normal: Vec3::new(0, 0, S),
        radius: 100,
        color_r: 1,
        color_g: 2,
        color_b: 3,
    };
    // A 3x2 grid with three valid pixels.
    let pixels = vec![Some(obs(1)), None, Some(obs(2)), None, None, Some(obs(3))];
    let f = FrameBuffer::new(3, 2, pixels).ok().expect("matching length");
    assert_eq!(f.width(), 3);
    assert_eq!(f.height(), 2);
    assert_eq!(f.valid_points_count(), 3);
    assert_eq!(f.get_point(0, 0).unwrap().pos.z, 1);
    assert!(f.get_point(0, 1).is_none());
    assert_eq!(f.get_point(1, 2).unwrap().pos.z, 3);
    assert!(f.get_point(2, 0).is_none());
    let view = f.point_view();
    let zs: Vec<i64> = view.iter().map(|o| o.pos.z).collect();
    assert_eq!(zs, vec![1, 2, 3]);
    // A mismatched length is rejected with the vector handed back.
    let bad = FrameBuffer::new(3, 2, vec![None]);
    assert!(bad.is_err());
}

#[test]
fn sphere_encloses_inexact_distances() {
    // Distances that are not perfect squares: the radius rounds up, so the
    // far point still lies inside.
    let pts = vec![Vec3::new(0, 0, 0), Vec3::new(1, 1, 1)];
    let sp = Sphere3D::from_points(&pts);
    assert_eq!(sp.center, Vec3::new(0, 0, 0));
    assert_eq!(sp.radius, 2);
    for p in &pts {
        let d = (p.x - sp.center.x).pow(2) + (p.y - sp.center.y).pow(2)
            + (p.z - sp.center.z).pow(2);
        assert!(d <= sp.radius * sp.radius);
    }
    // Merging two unit-offset spheres keeps both inside as well.
    let a = Sphere3D::from_points(&vec![Vec3::new(0, 0, 0), Vec3::new(1, 1, 1)]);
    let b = Sphere3D::from_points(&vec![Vec3::new(7, 5, 3), Vec3::new(8, 6, 4)]);
    let m = a.add(&b);
    for p in [Vec3::new(0, 0, 0), Vec3::new(1, 1, 1), Vec3::new(7, 5, 3), Vec3::new(8, 6, 4)] {
        let d = (p.x - m.center.x).pow(2) + (p.y - m.center.y).pow(2) + (p.z - m.center.z).pow(2);
        assert!(d <= m.radius * m.radius, "point outside merged sphere");
    }
}
