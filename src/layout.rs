use vstd::prelude::*;

verus! {

/// What happens at the edges of the domain.
#[derive(Debug, Clone, Copy, PartialEq, Eq, Structural)]
pub enum Boundary {
    /// First-order Mur one-way-wave condition on every edge cell.
    Absorbing,
    /// Edge cells are left out of the update and keep their value.
    Reflecting,
}

/// An axis-aligned rectangle of cells, half-open: `x_min <= x < x_max`,
/// `y_min <= y < y_max`. One with `x_min >= x_max` or `y_min >= y_max` covers no cell.
#[derive(Debug, Clone, Copy, PartialEq, Eq, Structural)]
pub struct Region {
    pub x_min: usize,
    pub x_max: usize,
    pub y_min: usize,
    pub y_max: usize,
}

/// The grid position of a point source.
#[derive(Debug, Clone, Copy, PartialEq, Eq, Structural)]
pub struct Site {
    pub x: usize,
    pub y: usize,
}

/// Why a configuration was refused.
#[derive(Debug, Clone, Copy, PartialEq, Eq, Structural)]
pub enum ConfigError {
    /// No columns or no rows; or, on an absorbing boundary, fewer than three of
    /// either, where edge cells would read each other instead of an interior cell.
    GridTooSmall,
    /// More cells than an address can count.
    GridTooLarge,
    /// An obstacle rectangle with a coordinate past the grid.
    ObstacleOutsideGrid,
    /// A source position past the grid.
    SourceOutsideGrid,
}

impl Region {
    pub open spec fn holds(self, x: int, y: int) -> bool {
        self.x_min <= x < self.x_max && self.y_min <= y < self.y_max
    }

    pub open spec fn fits(self, width: int, height: int) -> bool {
        self.x_min <= width && self.x_max <= width && self.y_min <= height && self.y_max <= height
    }

    /// Whether cell `(x, y)` lies in the rectangle.
    pub fn contains(&self, x: usize, y: usize) -> (r: bool)
        ensures
            r == self.holds(x as int, y as int),
    {
        self.x_min <= x && x < self.x_max && self.y_min <= y && y < self.y_max
    }
}

impl Site {
    pub open spec fn is_at(self, x: int, y: int) -> bool {
        self.x == x && self.y == y
    }
}

/// A grid of `width` by `height` cells cannot carry `boundary`.
pub open spec fn too_small(width: int, height: int, boundary: Boundary) -> bool {
    width == 0 || height == 0 || (boundary == Boundary::Absorbing && (width < 3 || height < 3))
}

/// Whether some obstacle of `obstacles` covers cell `(x, y)`.
pub open spec fn covered(obstacles: Seq<Region>, x: int, y: int) -> bool {
    exists|i: int| 0 <= i < obstacles.len() && (#[trigger] obstacles[i]).holds(x, y)
}

/// `j` is the last source of `sources` placed at `(x, y)`.
pub open spec fn last_source_at(sources: Seq<Site>, j: int, x: int, y: int) -> bool {
    &&& 0 <= j < sources.len()
    &&& sources[j].is_at(x, y)
    &&& forall|k: int| j < k < sources.len() ==> !(#[trigger] sources[k]).is_at(x, y)
}

/// No source of `sources` is placed at `(x, y)`.
pub open spec fn no_source_at(sources: Seq<Site>, x: int, y: int) -> bool {
    forall|k: int| 0 <= k < sources.len() ==> !(#[trigger] sources[k]).is_at(x, y)
}

/// The validated static configuration of a simulation: grid size, boundary
/// mode, obstacle rectangles and source positions (in order).
pub struct Layout {
    width: usize,
    height: usize,
    boundary: Boundary,
    obstacles: Vec<Region>,
    sources: Vec<Site>,
}

impl Layout {
    pub closed spec fn cols(&self) -> nat {
        self.width as nat
    }

    pub closed spec fn rows(&self) -> nat {
        self.height as nat
    }

    pub closed spec fn mode(&self) -> Boundary {
        self.boundary
    }

    pub closed spec fn obstacle_list(&self) -> Seq<Region> {
        self.obstacles@
    }

    pub closed spec fn source_list(&self) -> Seq<Site> {
        self.sources@
    }

    pub open spec fn cell_count(&self) -> nat {
        self.cols() * self.rows()
    }

    pub open spec fn wf(&self) -> bool {
        &&& !too_small(self.cols() as int, self.rows() as int, self.mode())
        &&& self.cell_count() <= usize::MAX
        &&& forall|i: int|
            0 <= i < self.obstacle_list().len() ==> (#[trigger] self.obstacle_list()[i]).fits(
                self.cols() as int,
                self.rows() as int,
            )
        &&& forall|i: int|
            0 <= i < self.source_list().len() ==> (#[trigger] self.source_list()[i]).x
                < self.cols() && self.source_list()[i].y < self.rows()
    }

    /// Builds a configuration after checking it against the grid size.
    /// The checks run in order: size, obstacles, sources.
    pub fn new(
        width: usize,
        height: usize,
        boundary: Boundary,
        obstacles: Vec<Region>,
        sources: Vec<Site>,
    ) -> (r: Result<Layout, ConfigError>)
        ensures
            too_small(width as int, height as int, boundary) ==> r == Err::<Layout, _>(ConfigError::GridTooSmall),
            (!too_small(width as int, height as int, boundary) && width * height > usize::MAX) ==> r == Err::<Layout, _>(
                ConfigError::GridTooLarge,
            ),
            (!too_small(width as int, height as int, boundary) && width * height <= usize::MAX && exists|i: int|
                0 <= i < obstacles@.len() && !(#[trigger] obstacles@[i]).fits(
                    width as int,
                    height as int,
                )) ==> r == Err::<Layout, _>(ConfigError::ObstacleOutsideGrid),
            (!too_small(width as int, height as int, boundary) && width * height <= usize::MAX && (forall|i: int|
                0 <= i < obstacles@.len() ==> (#[trigger] obstacles@[i]).fits(
                    width as int,
                    height as int,
                )) && exists|i: int|
                0 <= i < sources@.len() && ((#[trigger] sources@[i]).x >= width || sources@[i].y
                    >= height)) ==> r == Err::<Layout, _>(ConfigError::SourceOutsideGrid),
            r is Ok <==> (!too_small(width as int, height as int, boundary) && width * height <= usize::MAX && (forall|i: int|
                0 <= i < obstacles@.len() ==> (#[trigger] obstacles@[i]).fits(
                    width as int,
                    height as int,
                )) && forall|i: int|
                0 <= i < sources@.len() ==> (#[trigger] sources@[i]).x < width && sources@[i].y
                    < height),
            r matches Ok(l) ==> {
                &&& l.wf()
                &&& l.cols() == width
                &&& l.rows() == height
                &&& l.mode() == boundary
                &&& l.obstacle_list() == obstacles@
                &&& l.source_list() == sources@
            },
    {
        if width == 0 || height == 0 || (boundary == Boundary::Absorbing && (width < 3 || height < 3)) {
            return Err(ConfigError::GridTooSmall);
        }
        if width.checked_mul(height).is_none() {
            return Err(ConfigError::GridTooLarge);
        }
        let mut i: usize = 0;
        while i < obstacles.len()
            invariant
                !too_small(width as int, height as int, boundary),
                width * height <= usize::MAX,
                i <= obstacles@.len(),
                forall|j: int| 0 <= j < i ==> (#[trigger] obstacles@[j]).fits(width as int, height as int),
            decreases obstacles@.len() - i,
        {
            let o = obstacles[i];
            if !(o.x_min <= width && o.x_max <= width && o.y_min <= height && o.y_max <= height) {
                return Err(ConfigError::ObstacleOutsideGrid);
            }
            i = i + 1;
        }
        let mut i: usize = 0;
        while i < sources.len()
            invariant
                !too_small(width as int, height as int, boundary),
                width * height <= usize::MAX,
                forall|j: int| 0 <= j < obstacles@.len() ==> (#[trigger] obstacles@[j]).fits(width as int, height as int),
                i <= sources@.len(),
                forall|j: int| 0 <= j < i ==> (#[trigger] sources@[j]).x < width && sources@[j].y < height,
            decreases sources@.len() - i,
        {
            if sources[i].x >= width || sources[i].y >= height {
                return Err(ConfigError::SourceOutsideGrid);
            }
            i = i + 1;
        }
        Ok(Layout { width, height, boundary, obstacles, sources })
    }

    pub fn width(&self) -> (r: usize)
        ensures
            r == self.cols(),
    {
        self.width
    }

    pub fn height(&self) -> (r: usize)
        ensures
            r == self.rows(),
    {
        self.height
    }

    pub fn boundary(&self) -> (r: Boundary)
        ensures
            r == self.mode(),
    {
        self.boundary
    }

    pub fn source_count(&self) -> (r: usize)
        ensures
            r == self.source_list().len(),
    {
        self.sources.len()
    }

    /// Whether some obstacle covers cell `(x, y)`.
    pub fn in_obstacle(&self, x: usize, y: usize) -> (r: bool)
        ensures
            r == covered(self.obstacle_list(), x as int, y as int),
    {
        let mut i: usize = 0;
        while i < self.obstacles.len()
            invariant
                i <= self.obstacles@.len(),
                forall|j: int| 0 <= j < i ==> !(#[trigger] self.obstacles@[j]).holds(x as int, y as int),
            decreases self.obstacles@.len() - i,
        {
            if self.obstacles[i].contains(x, y) {
                return true;
            }
            i = i + 1;
        }
        false
    }

    /// The index of the last source placed at `(x, y)`, if any: where sources
    /// share a cell, the one listed last is stamped last and wins.
    pub fn source_at(&self, x: usize, y: usize) -> (r: Option<usize>)
        ensures
            r matches Some(j) ==> last_source_at(self.source_list(), j as int, x as int, y as int),
            r is None ==> no_source_at(self.source_list(), x as int, y as int),
    {
        let mut i: usize = self.sources.len();
        while i > 0
            invariant
                i <= self.sources@.len(),
                forall|k: int| i <= k < self.sources@.len() ==> !(#[trigger] self.sources@[k]).is_at(x as int, y as int),
            decreases i,
        {
            i = i - 1;
            if self.sources[i].x == x && self.sources[i].y == y {
                return Some(i);
            }
        }
        None
    }
}

} // verus!
