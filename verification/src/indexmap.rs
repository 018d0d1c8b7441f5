use vstd::prelude::*;

use crate::camera::Camera;
use crate::surfel::{SurfelId, SurfelModel};
use crate::transform::{apply_model, Transform, TransformM};

verus! {

/// Largest side length of the rasterized reference view, in pixels.
pub const VIEW_MAX: usize = 4096;

/// One occupied cell: the surfel seen through this pixel and its depth in
/// the reference view.
#[derive(Clone, Copy, PartialEq, Eq, Structural, Debug)]
pub struct CellEntry {
    pub id: SurfelId,
    pub depth: i64,
}

/// Whether a live surfel projects into the reference view at all: positive
/// depth and a pixel inside the raster.
pub open spec fn visible(
    m: SurfelModel,
    pose: TransformM,
    cam: Camera,
    w: int,
    h: int,
    id: SurfelId,
) -> bool {
    let p = apply_model(pose, m.surfel_at(id).pos@);
    &&& m.contains(id)
    &&& p.z >= 1
    &&& 0 <= proj_u(cam, pose, m, id) < w
    &&& 0 <= proj_v(cam, pose, m, id) < h
}

pub open spec fn proj_u(cam: Camera, pose: TransformM, m: SurfelModel, id: SurfelId) -> int {
    let p = apply_model(pose, m.surfel_at(id).pos@);
    crate::fixed::tdiv(cam.fx * p.x, crate::camera::depth_scaled(p.z)) + cam.cx
}

pub open spec fn proj_v(cam: Camera, pose: TransformM, m: SurfelModel, id: SurfelId) -> int {
    let p = apply_model(pose, m.surfel_at(id).pos@);
    crate::fixed::tdiv(cam.fy * p.y, crate::camera::depth_scaled(p.z)) + cam.cy
}

/// The raster cell a visible surfel lands in, row-major.
pub open spec fn proj_cell(cam: Camera, pose: TransformM, m: SurfelModel, w: int, id: SurfelId) -> int {
    proj_v(cam, pose, m, id) * w + proj_u(cam, pose, m, id)
}

/// The projected depth of a surfel in the reference view.
pub open spec fn proj_depth(pose: TransformM, m: SurfelModel, id: SurfelId) -> int {
    apply_model(pose, m.surfel_at(id).pos@).z
}

/// The per-frame rasterized projection of the live surfels: one cell per
/// pixel of the reference view, each holding the depth-nearest live surfel
/// that projects there.
pub struct IndexMap {
    width: usize,
    height: usize,
    cells: Vec<Option<CellEntry>>,
}

impl IndexMap {
    pub closed spec fn width_spec(self) -> int {
        self.width as int
    }

    pub closed spec fn height_spec(self) -> int {
        self.height as int
    }

    pub closed spec fn cell_at(self, c: int) -> Option<CellEntry> {
        self.cells@[c]
    }

    pub closed spec fn wf(self) -> bool {
        &&& self.cells@.len() == self.width_spec() * self.height_spec()
        &&& self.width <= VIEW_MAX
        &&& self.height <= VIEW_MAX
    }

    pub fn width(&self) -> (r: usize)
        ensures
            r == self.width_spec(),
            self.wf() ==> r <= VIEW_MAX,
    {
        self.width
    }

    pub fn height(&self) -> (r: usize)
        ensures
            r == self.height_spec(),
            self.wf() ==> r <= VIEW_MAX,
    {
        self.height
    }

    /// Constant-time lookup of one pixel's cell.
    pub fn lookup(&self, u: usize, v: usize) -> (r: Option<CellEntry>)
        requires
            self.wf(),
            u < self.width_spec(),
            v < self.height_spec(),
        ensures
            r == self.cell_at(v * self.width_spec() + u),
    {
        proof {
            lemma_cell_in_range(u as int, v as int, self.width_spec(), self.height_spec());
            assert(self.width_spec() * self.height_spec() <= 0x100_0000) by (nonlinear_arith)
                requires self.width_spec() <= 4096, self.height_spec() <= 4096;
        }
        self.cells[v * self.width + u]
    }

    /// Rasterize every live surfel into the reference view: a cell ends up
    /// holding a live surfel that projects onto it with the smallest
    /// projected depth, so nearer surfels occlude farther ones, and removed
    /// surfels never appear.
    pub fn rebuild(
        model: &SurfelModel,
        pose: &Transform,
        cam: &Camera,
        width: usize,
        height: usize,
    ) -> (r: IndexMap)
        requires
            model.wf(),
            pose.wf(),
            cam.wf(),
            1 <= width <= VIEW_MAX,
            1 <= height <= VIEW_MAX,
        ensures
            r.wf(),
            r.width_spec() == width,
            r.height_spec() == height,
            r.entries_live(*model),
            forall|c: int|
                0 <= c < r.width_spec() * r.height_spec() && (#[trigger] r.cell_at(c)) is Some
                    ==> visible(*model, pose@, *cam, width as int, height as int,
                    r.cell_at(c)->Some_0.id) && proj_cell(*cam, pose@, *model, width as int,
                    r.cell_at(c)->Some_0.id) == c && r.cell_at(c)->Some_0.depth == proj_depth(
                    pose@, *model, r.cell_at(c)->Some_0.id),
            forall|id: SurfelId|
                #[trigger] visible(*model, pose@, *cam, width as int, height as int, id) ==> {
                    let c = proj_cell(*cam, pose@, *model, width as int, id);
                    r.cell_at(c) is Some && r.cell_at(c)->Some_0.depth <= proj_depth(
                        pose@, *model, id)
                },
    {
        proof {
            assert((width as int) * (height as int) <= 4096 * 4096) by (nonlinear_arith)
                requires width <= 4096, height <= 4096;
            assert((width as int) * (height as int) >= 0) by (nonlinear_arith)
                requires width >= 1, height >= 1;
        }
        let n: usize = width * height;
        let mut cells: Vec<Option<CellEntry>> = Vec::new();
        let mut f: usize = 0;
        while f < n
            invariant
                cells@.len() == f,
                f <= n,
                forall|c: int| 0 <= c < f ==> (#[trigger] cells@[c]) is None,
            decreases n - f,
        {
            cells.push(None);
            f = f + 1;
        }
        let list = model.live_surfels();
        let ghost wi = width as int;
        let ghost hi = height as int;
        let mut k: usize = 0;
        while k < list.len()
            invariant
                model.wf(),
                pose.wf(),
                cam.wf(),
                1 <= width <= VIEW_MAX,
                1 <= height <= VIEW_MAX,
                n == (width as int) * (height as int),
                wi == width as int,
                hi == height as int,
                k <= list@.len(),
                cells@.len() == n,
                forall|j: int|
                    0 <= j < list@.len() ==> model.contains(#[trigger] list@[j].0)
                        && model.surfel_at(list@[j].0) == list@[j].1,
                forall|id: SurfelId|
                    #[trigger] model.contains(id) ==> list@.contains((id, model.surfel_at(id))),
                forall|c: int|
                    0 <= c < n && (#[trigger] cells@[c]) is Some ==> visible(*model, pose@, *cam,
                        wi, hi, cells@[c]->Some_0.id) && proj_cell(*cam, pose@, *model, wi,
                        cells@[c]->Some_0.id) == c && cells@[c]->Some_0.depth == proj_depth(
                        pose@, *model, cells@[c]->Some_0.id),
                forall|j: int|
                    0 <= j < k && visible(*model, pose@, *cam, wi, hi, #[trigger] list@[j].0) ==> {
                        let c = proj_cell(*cam, pose@, *model, wi, list@[j].0);
                        cells@[c] is Some && cells@[c]->Some_0.depth <= proj_depth(
                            pose@, *model, list@[j].0)
                    },
            decreases list@.len() - k,
        {
            let (id, s) = list[k];
            proof {
                crate::surfel::lemma_live_wf(*model, id);
            }
            let p = pose.transform_vector(&s.pos);
            if p.z >= 1 {
                let (u, v) = cam.project(&p);
                proof {
                    assert(u == proj_u(*cam, pose@, *model, id));
                    assert(v == proj_v(*cam, pose@, *model, id));
                }
                if 0 <= u && u < width as i64 && 0 <= v && v < height as i64 {
                    let uu = u as usize;
                    let vv = v as usize;
                    proof {
                        lemma_cell_in_range(uu as int, vv as int, wi, hi);
                    }
                    let idx: usize = vv * width + uu;
                    let take = match &cells[idx] {
                        None => true,
                        Some(e) => p.z < e.depth,
                    };
                    let ghost oldcells = cells@;
                    if take {
                        cells[idx] = Some(CellEntry { id, depth: p.z });
                    }
                    proof {
                        assert(visible(*model, pose@, *cam, wi, hi, id));
                        assert(proj_cell(*cam, pose@, *model, wi, id) == idx);
                        assert forall|j: int|
                            0 <= j < k + 1 && visible(*model, pose@, *cam, wi, hi,
                            #[trigger] list@[j].0) implies {
                            let c = proj_cell(*cam, pose@, *model, wi, list@[j].0);
                            cells@[c] is Some && cells@[c]->Some_0.depth <= proj_depth(
                                pose@, *model, list@[j].0)
                        } by {
                            let c = proj_cell(*cam, pose@, *model, wi, list@[j].0);
                            lemma_cell_in_range(proj_u(*cam, pose@, *model, list@[j].0),
                                proj_v(*cam, pose@, *model, list@[j].0), wi, hi);
                            if j < k {
                                assert(oldcells[c] is Some);
                                if c != idx {
                                    assert(cells@[c] == oldcells[c]);
                                }
                            } else {
                                assert(list@[j].0 == id && c == idx);
                                if !take {
                                    assert(cells@[c] == oldcells[c]);
                                }
                            }
                        };
                    }
                } else {
                    proof {
                        assert(!visible(*model, pose@, *cam, wi, hi, id));
                    }
                }
            } else {
                proof {
                    assert(!visible(*model, pose@, *cam, wi, hi, id));
                }
            }
            k = k + 1;
        }
        let r = IndexMap { width, height, cells };
        proof {
            assert forall|id: SurfelId|
                #[trigger] visible(*model, pose@, *cam, wi, hi, id) implies {
                let c = proj_cell(*cam, pose@, *model, wi, id);
                r.cell_at(c) is Some && r.cell_at(c)->Some_0.depth <= proj_depth(pose@, *model, id)
            } by {
                assert(model.contains(id));
                assert(list@.contains((id, model.surfel_at(id))));
                let j = choose|j: int|
                    0 <= j < list@.len() && list@[j] == (id, model.surfel_at(id));
                assert(list@[j].0 == id);
            };
        }
        r
    }
}

impl IndexMap {
    /// Every occupied cell names a currently live surfel.
    pub open spec fn entries_live(self, m: SurfelModel) -> bool {
        forall|c: int|
            0 <= c < self.width_spec() * self.height_spec() && (#[trigger] self.cell_at(c))
                is Some ==> m.contains(self.cell_at(c)->Some_0.id)
    }
}

/// A pixel inside the raster indexes a cell inside the buffer.
proof fn lemma_cell_in_range(u: int, v: int, w: int, h: int)
    requires
        0 <= u < w,
        0 <= v < h,
    ensures
        0 <= v * w + u < w * h,
{
    assert(0 <= v * w + u < w * h) by (nonlinear_arith)
        requires 0 <= u < w, 0 <= v < h;
}

} // verus!
