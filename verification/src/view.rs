//! What a caller asks for: a view of the plane and a sampling grid.

use vstd::prelude::*;

verus! {

/// A square view of the plane, given by its centre and a zoom factor. The view
/// reaches `1 / zoom` from the centre in each direction; its lower edges belong
/// to it, its upper edges do not.
#[derive(Clone, Copy, Debug)]
pub struct ViewRectangle {
    pub center_x: i64,
    pub center_y: i64,
    pub zoom: i64,
}

/// The edges of a view.
#[derive(Clone, Copy, Debug)]
pub struct PlaneBounds {
    pub x_min: i64,
    pub x_max: i64,
    pub y_min: i64,
    pub y_max: i64,
}

/// The number of samples along each axis.
///
/// Every strip has all `resolution_y` rows and `resolution_y / workers`
/// columns, so a view is sampled in `workers * (resolution_y / workers)`
/// columns: the columns that the division leaves over are dropped, not handed
/// to any strip. `resolution_x` is the number of columns of one strip as the
/// caller derived it, as a rule `resolution_y / workers`; the strips are cut
/// with `resolution_y / workers` columns whatever it holds.
#[derive(Clone, Copy, Debug)]
pub struct GridSpec {
    pub resolution_x: u32,
    pub resolution_y: u32,
}

impl ViewRectangle {
    /// A view is valid when its zoom factor is positive.
    pub open spec fn is_valid(&self) -> bool {
        self.zoom > 0
    }

    /// The distance from the centre to each edge: `1 / zoom`, rounded toward
    /// zero. In raw units that is `2^64 / zoom`.
    pub open spec fn half_extent(&self) -> int {
        0x1_0000_0000_0000_0000int / (self.zoom as int)
    }

    pub open spec fn x_min(&self) -> int {
        self.center_x - self.half_extent()
    }

    pub open spec fn x_max(&self) -> int {
        self.center_x + self.half_extent()
    }

    pub open spec fn y_min(&self) -> int {
        self.center_y - self.half_extent()
    }

    pub open spec fn y_max(&self) -> int {
        self.center_y + self.half_extent()
    }

    /// The edges of a valid view are coordinates: none leaves the range of
    /// `i64`. Nothing is asked of a view that is not valid.
    pub open spec fn fits_plane(&self) -> bool {
        self.is_valid() ==> {
            &&& i64::MIN <= self.x_min()
            &&& self.x_max() <= i64::MAX
            &&& i64::MIN <= self.y_min()
            &&& self.y_max() <= i64::MAX
        }
    }

    /// The half extent of a valid view is at least two raw units and at most
    /// `2^64`.
    pub proof fn lemma_half_extent_range(&self)
        requires
            self.is_valid(),
        ensures
            2 <= self.half_extent() <= 0x1_0000_0000_0000_0000,
    {
        let z: int = self.zoom as int;
        assert(2 <= 0x1_0000_0000_0000_0000int / z <= 0x1_0000_0000_0000_0000) by (nonlinear_arith)
            requires
                0 < z < 0x8000_0000_0000_0000,
        ;
    }

    /// The distance from the centre of a valid view to each of its edges.
    pub fn half_width(&self) -> (h: i128)
        requires
            self.is_valid(),
        ensures
            h == self.half_extent(),
    {
        0x1_0000_0000_0000_0000i128 / (self.zoom as i128)
    }

    /// Whether the edges of the view are coordinates.
    pub fn fits(&self) -> (r: bool)
        ensures
            r == self.fits_plane(),
    {
        if self.zoom <= 0 {
            return true;
        }
        proof {
            self.lemma_half_extent_range();
        }
        let h: i128 = self.half_width();
        let low: i128 = i64::MIN as i128;
        let high: i128 = i64::MAX as i128;
        low <= self.center_x as i128 - h && self.center_x as i128 + h <= high && low
            <= self.center_y as i128 - h && self.center_y as i128 + h <= high
    }

    /// The edges of a valid view: the centre, less and plus the half extent, on
    /// each axis.
    pub fn bounds(&self) -> (b: PlaneBounds)
        requires
            self.is_valid(),
            self.fits_plane(),
        ensures
            b.x_min == self.x_min(),
            b.x_max == self.x_max(),
            b.y_min == self.y_min(),
            b.y_max == self.y_max(),
    {
        proof {
            self.lemma_half_extent_range();
        }
        let h: i128 = self.half_width();
        PlaneBounds {
            x_min: (self.center_x as i128 - h) as i64,
            x_max: (self.center_x as i128 + h) as i64,
            y_min: (self.center_y as i128 - h) as i64,
            y_max: (self.center_y as i128 + h) as i64,
        }
    }
}

impl GridSpec {
    /// Both resolutions of a grid are positive.
    pub open spec fn wf(&self) -> bool {
        self.resolution_x > 0 && self.resolution_y > 0
    }

    /// The columns of one strip when the grid is split among `workers` strips.
    pub open spec fn strip_columns(&self, workers: int) -> int {
        (self.resolution_y as int) / workers
    }

    /// The columns of the whole view that are sampled when the grid is split
    /// among `workers` strips.
    pub open spec fn sampled_columns(&self, workers: int) -> int {
        workers * self.strip_columns(workers)
    }

    /// Whether both resolutions are positive.
    pub fn is_well_formed(&self) -> (r: bool)
        ensures
            r == self.wf(),
    {
        self.resolution_x > 0 && self.resolution_y > 0
    }

    /// The columns of one strip when the grid is split among `workers` strips.
    pub fn columns_per_strip(&self, workers: u32) -> (r: u32)
        requires
            workers >= 1,
        ensures
            r == self.strip_columns(workers as int),
            workers * r <= self.resolution_y,
    {
        let r: u32 = self.resolution_y / workers;
        assert(workers * r <= self.resolution_y) by (nonlinear_arith)
            requires
                workers >= 1,
                r == self.resolution_y as int / workers as int,
        ;
        r
    }
}

} // verus!
