use vstd::prelude::*;

use crate::fixed::POS_MAX;
use crate::vec3::Vec3;

verus! {

/// Querying an index built over zero points.
#[derive(Clone, Copy, PartialEq, Eq, Structural, Debug)]
pub enum SpatialIndexError {
    EmptyIndex,
}

/// A static nearest/radius-neighbor structure over an unorganized point set,
/// read-only after construction; a map change requires a full rebuild.
pub struct SpatialIndex {
    points: Vec<Vec3>,
}

impl SpatialIndex {
    pub closed spec fn points_spec(self) -> Seq<Vec3> {
        self.points@
    }

    pub closed spec fn wf(self) -> bool {
        forall|i: int|
            0 <= i < self.points@.len() ==> (#[trigger] self.points@[i])@.all_within(POS_MAX as int)
    }

    /// Build the index over a finite point set.
    pub fn build(points: Vec<Vec3>) -> (r: SpatialIndex)
        requires
            forall|i: int|
                0 <= i < points@.len() ==> (#[trigger] points@[i])@.all_within(POS_MAX as int),
        ensures
            r.wf(),
            r.points_spec() == points@,
    {
        SpatialIndex { points }
    }

    pub fn len(&self) -> (r: usize)
        ensures
            r == self.points_spec().len(),
    {
        self.points.len()
    }

    /// The indexed point nearest to the query: no indexed point is strictly
    /// closer than the returned one. An empty index is the one failure.
    pub fn nearest(&self, q: &Vec3) -> (r: Result<(usize, Vec3), SpatialIndexError>)
        requires
            self.wf(),
            q@.all_within(POS_MAX as int),
        ensures
            r matches Ok(p) ==> (p.0 as int) < self.points_spec().len() && p.1
                == self.points_spec()[p.0 as int] && forall|j: int|
                0 <= j < self.points_spec().len() ==> q.dist_sq_spec(
                    #[trigger] self.points_spec()[j]) >= q.dist_sq_spec(p.1),
            r is Err <==> self.points_spec().len() == 0,
    {
        if self.points.len() == 0 {
            return Err(SpatialIndexError::EmptyIndex);
        }
        let mut best: usize = 0;
        let mut best_d = q.dist_sq(&self.points[0], POS_MAX);
        let mut i: usize = 1;
        while i < self.points.len()
            invariant
                self.wf(),
                q@.all_within(POS_MAX as int),
                1 <= i <= self.points@.len(),
                (best as int) < i,
                best_d == q.dist_sq_spec(self.points@[best as int]),
                forall|j: int|
                    0 <= j < i ==> q.dist_sq_spec(#[trigger] self.points@[j]) >= best_d,
            decreases self.points@.len() - i,
        {
            let d = q.dist_sq(&self.points[i], POS_MAX);
            if d < best_d {
                best = i;
                best_d = d;
            }
            i = i + 1;
        }
        Ok((best, self.points[best]))
    }

    /// Every indexed point within the given squared radius of the query, by
    /// index, in order: exactly those whose squared distance is within.
    pub fn within_radius(&self, q: &Vec3, radius_sq: i128) -> (r: Vec<usize>)
        requires
            self.wf(),
            q@.all_within(POS_MAX as int),
        ensures
            forall|k: int|
                0 <= k < r@.len() ==> (#[trigger] r@[k] as int) < self.points_spec().len()
                    && q.dist_sq_spec(self.points_spec()[r@[k] as int]) <= radius_sq,
            forall|j: int|
                0 <= j < self.points_spec().len() && q.dist_sq_spec(
                    #[trigger] self.points_spec()[j]) <= radius_sq ==> r@.contains(j as usize),
    {
        let mut out: Vec<usize> = Vec::new();
        let mut i: usize = 0;
        while i < self.points.len()
            invariant
                self.wf(),
                q@.all_within(POS_MAX as int),
                i <= self.points@.len(),
                forall|k: int|
                    0 <= k < out@.len() ==> (#[trigger] out@[k] as int) < self.points_spec().len()
                        && q.dist_sq_spec(self.points_spec()[out@[k] as int]) <= radius_sq,
                forall|j: int|
                    0 <= j < i && q.dist_sq_spec(#[trigger] self.points_spec()[j]) <= radius_sq
                        ==> out@.contains(j as usize),
            decreases self.points@.len() - i,
        {
            let d = q.dist_sq(&self.points[i], POS_MAX);
            if d <= radius_sq {
                let ghost oldout = out@;
                out.push(i);
                proof {
                    assert(out@[out@.len() - 1] == i);
                    assert(forall|v: usize|
                        oldout.contains(v) ==> #[trigger] out@.contains(v)) by {
                        assert(forall|k: int|
                            0 <= k < oldout.len() ==> out@[k] == #[trigger] oldout[k]);
                    };
                }
            }
            i = i + 1;
        }
        out
    }
}

} // verus!
