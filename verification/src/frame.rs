use vstd::prelude::*;

use crate::fusion::Observation;

verus! {

/// An organized frame of observations, aligned with the sensor's pixel grid
/// in row-major order: each pixel is either invalid or one observation.
/// Acquisition fills it in the outer layer; the core only reads it.
pub struct FrameBuffer {
    width: usize,
    height: usize,
    pixels: Vec<Option<Observation>>,
}

impl FrameBuffer {
    pub closed spec fn width_spec(self) -> int {
        self.width as int
    }

    pub closed spec fn height_spec(self) -> int {
        self.height as int
    }

    pub closed spec fn pixel_at(self, c: int) -> Option<Observation> {
        self.pixels@[c]
    }

    /// The whole pixel grid, row-major.
    pub closed spec fn pixels_spec(self) -> Seq<Option<Observation>> {
        self.pixels@
    }

    /// Whether some pixel of the frame holds exactly this observation.
    pub open spec fn holds_observation(self, o: Observation) -> bool {
        exists|c: int| 0 <= c < self.pixels_spec().len() && self.pixel_at(c) == Some(o)
    }

    pub closed spec fn wf(self) -> bool {
        &&& self.pixels@.len() == self.width_spec() * self.height_spec()
        &&& self.width <= 0x8000
        &&& self.height <= 0x8000
    }

    /// Wrap a row-major pixel vector whose length matches the grid.
    pub fn new(width: usize, height: usize, pixels: Vec<Option<Observation>>) -> (r: Result<
        FrameBuffer,
        Vec<Option<Observation>>,
    >)
        requires
            width <= 0x8000,
            height <= 0x8000,
        ensures
            r matches Ok(f) ==> f.wf() && f.width_spec() == width && f.height_spec() == height
                && forall|c: int| 0 <= c < pixels@.len() ==> f.pixel_at(c) == pixels@[c],
            r matches Err(p) ==> p == pixels && pixels@.len() != width * height,
    {
        proof {
            assert((width as int) * (height as int) <= 0x4000_0000) by (nonlinear_arith)
                requires width <= 0x8000, height <= 0x8000;
            assert((width as int) * (height as int) >= 0) by (nonlinear_arith)
                requires width >= 0, height >= 0;
        }
        let n: usize = width * height;
        if pixels.len() != n {
            return Err(pixels);
        }
        Ok(FrameBuffer { width, height, pixels })
    }

    pub fn width(&self) -> (r: usize)
        ensures
            r == self.width_spec(),
    {
        self.width
    }

    pub fn height(&self) -> (r: usize)
        ensures
            r == self.height_spec(),
    {
        self.height
    }

    /// The observation at one pixel, or `None` when the pixel is invalid or
    /// out of bounds.
    pub fn get_point(&self, row: usize, col: usize) -> (r: Option<Observation>)
        requires
            self.wf(),
        ensures
            (row < self.height_spec() && col < self.width_spec()) ==> r == self.pixel_at(
                row * self.width_spec() + col),
            !(row < self.height_spec() && col < self.width_spec()) ==> r is None,
    {
        if row < self.height && col < self.width {
            proof {
                assert(0 <= (row as int) * (self.width as int) + (col as int) < (self.width as int)
                    * (self.height as int)) by (nonlinear_arith)
                    requires
                        0 <= (row as int) < (self.height as int),
                        0 <= (col as int) < (self.width as int),
                ;
                assert((self.width as int) * (self.height as int) <= 0x4000_0000)
                    by (nonlinear_arith)
                    requires self.width <= 0x8000, self.height <= 0x8000;
            }
            self.pixels[row * self.width + col]
        } else {
            None
        }
    }

    /// How many pixels carry a valid observation.
    pub fn valid_points_count(&self) -> (r: usize)
        requires
            self.wf(),
        ensures
            r == count_valid(self.pixels_spec(), self.pixels_spec().len() as int),
    {
        let mut n: usize = 0;
        let mut i: usize = 0;
        while i < self.pixels.len()
            invariant
                i <= self.pixels@.len(),
                n <= i,
                n == count_valid(self.pixels@, i as int),
            decreases self.pixels@.len() - i,
        {
            if self.pixels[i].is_some() {
                n = n + 1;
            }
            i = i + 1;
        }
        n
    }

    /// The flattened, validity-filtered view of the frame: exactly the valid
    /// observations, in row-major order.
    #[verifier::rlimit(50)]
    pub fn point_view(&self) -> (list: Vec<Observation>)
        requires
            self.wf(),
        ensures
            list@ == filtered_valid(self.pixels_spec(), self.pixels_spec().len() as int),
            list@.len() == count_valid(self.pixels_spec(), self.pixels_spec().len() as int),
            forall|j: int|
                0 <= j < list@.len() ==> self.holds_observation(#[trigger] list@[j]),
            forall|c: int|
                0 <= c < self.pixels_spec().len() && (#[trigger] self.pixel_at(c)) is Some
                    ==> list@.contains(self.pixel_at(c)->Some_0),
    {
        let mut list: Vec<Observation> = Vec::new();
        let mut i: usize = 0;
        while i < self.pixels.len()
            invariant
                i <= self.pixels@.len(),
                list@ == filtered_valid(self.pixels@, i as int),
                list@.len() == count_valid(self.pixels@, i as int),
                forall|j: int|
                    0 <= j < list@.len() ==> self.holds_observation(#[trigger] list@[j]),
                forall|c: int|
                    0 <= c < i && (#[trigger] self.pixel_at(c)) is Some ==> list@.contains(
                    self.pixel_at(c)->Some_0),
            decreases self.pixels@.len() - i,
        {
            let ghost oldlist = list@;
            match &self.pixels[i] {
                Some(o) => {
                    list.push(*o);
                    proof {
                        assert(list@[list@.len() - 1] == self.pixels@[i as int]->Some_0);
                        assert(0 <= (i as int) < self.pixels_spec().len() && self.pixel_at(
                            i as int) == Some(list@[list@.len() - 1]));
                        assert forall|j: int| 0 <= j < list@.len() implies self.holds_observation(
                            #[trigger] list@[j]) by {
                            if j < oldlist.len() {
                                assert(list@[j] == oldlist[j]);
                            } else {
                                assert(self.pixel_at(i as int) == Some(list@[j]));
                            }
                        };
                        assert(forall|p: Observation|
                            oldlist.contains(p) ==> #[trigger] list@.contains(p)) by {
                            assert(forall|j: int|
                                0 <= j < oldlist.len() ==> list@[j] == #[trigger] oldlist[j]);
                        };
                    }
                },
                None => {},
            }
            i = i + 1;
        }
        list
    }
}

/// The valid observations among the first `n` pixels, in row-major order.
pub open spec fn filtered_valid(s: Seq<Option<Observation>>, n: int) -> Seq<Observation>
    decreases n,
{
    if n <= 0 {
        Seq::empty()
    } else {
        let prefix = filtered_valid(s, n - 1);
        if s[n - 1] is Some {
            prefix.push(s[n - 1]->Some_0)
        } else {
            prefix
        }
    }
}

/// How many of the first `n` pixels are valid.
pub open spec fn count_valid(s: Seq<Option<Observation>>, n: int) -> int
    decreases n,
{
    if n <= 0 {
        0
    } else {
        count_valid(s, n - 1) + if s[n - 1] is Some {
            1int
        } else {
            0int
        }
    }
}

} // verus!
