use vstd::prelude::*;

verus! {

/// Linear position of cell `(x, y)` in a row-major buffer of rows `width` wide.
pub open spec fn offset_of(width: nat, x: nat, y: nat) -> nat {
    x + y * width
}

/// Failures of grid construction and of bounds-checked access.
#[derive(Debug, Clone, Copy, PartialEq, Eq, Structural)]
pub enum GridError {
    /// A zero dimension, or more cells than an address can count.
    InvalidDimensions,
    /// A coordinate or offset past the end of the grid.
    IndexOutOfBounds,
}

/// A fixed-size dense 2-D array of samples, stored row by row.
pub struct Grid<T> {
    width: usize,
    height: usize,
    cells: Vec<T>,
}

impl<T: Copy> Grid<T> {
    /// Number of columns.
    pub closed spec fn cols(&self) -> nat {
        self.width as nat
    }

    /// Number of rows.
    pub closed spec fn rows(&self) -> nat {
        self.height as nat
    }

    /// The samples, row by row.
    pub closed spec fn samples(&self) -> Seq<T> {
        self.cells@
    }

    pub open spec fn wf(&self) -> bool {
        &&& self.cols() > 0
        &&& self.rows() > 0
        &&& self.samples().len() == self.cols() * self.rows()
        &&& self.cols() * self.rows() <= usize::MAX
    }

    pub open spec fn in_bounds(&self, x: int, y: int) -> bool {
        0 <= x < self.cols() && 0 <= y < self.rows()
    }

    /// The sample at column `x`, row `y`.
    pub open spec fn cell(&self, x: int, y: int) -> T {
        self.samples()[offset_of(self.cols(), x as nat, y as nat) as int]
    }

    /// A `width` by `height` grid with every sample set to `fill`.
    pub fn new(width: usize, height: usize, fill: T) -> (r: Result<Grid<T>, GridError>)
        ensures
            r is Err <==> (width == 0 || height == 0 || width * height > usize::MAX),
            r is Err ==> r->Err_0 == GridError::InvalidDimensions,
            r matches Ok(g) ==> {
                &&& g.wf()
                &&& g.cols() == width
                &&& g.rows() == height
                &&& forall|i: int| 0 <= i < g.samples().len() ==> g.samples()[i] == fill
            },
    {
        if width == 0 || height == 0 {
            return Err(GridError::InvalidDimensions);
        }
        let n = match width.checked_mul(height) {
            Some(n) => n,
            None => return Err(GridError::InvalidDimensions),
        };
        let mut cells: Vec<T> = Vec::with_capacity(n);
        let mut i: usize = 0;
        while i < n
            invariant
                i <= n,
                cells@.len() == i,
                forall|j: int| 0 <= j < i ==> cells@[j] == fill,
            decreases n - i,
        {
            cells.push(fill);
            i = i + 1;
        }
        Ok(Grid { width, height, cells })
    }

    pub fn width(&self) -> (r: usize)
        ensures
            r == self.cols(),
    {
        self.width
    }

    pub fn height(&self) -> (r: usize)
        ensures
            r == self.rows(),
    {
        self.height
    }

    /// Number of samples.
    pub fn len(&self) -> (r: usize)
        requires
            self.wf(),
        ensures
            r == self.samples().len(),
    {
        self.cells.len()
    }

    /// Linear offset of `(x, y)`, or `IndexOutOfBounds`.
    pub fn offset(&self, x: usize, y: usize) -> (r: Result<usize, GridError>)
        requires
            self.wf(),
        ensures
            r is Ok <==> self.in_bounds(x as int, y as int),
            r matches Ok(k) ==> k == offset_of(self.cols(), x as nat, y as nat),
            r matches Ok(k) ==> k < self.samples().len(),
            r is Err ==> r->Err_0 == GridError::IndexOutOfBounds,
    {
        if x >= self.width || y >= self.height {
            return Err(GridError::IndexOutOfBounds);
        }
        proof {
            assert(x + y * self.width < self.width * self.height) by (nonlinear_arith)
                requires
                    x < self.width,
                    y < self.height,
            ;
        }
        Ok(x + y * self.width)
    }

    /// The sample at `(x, y)`, or `IndexOutOfBounds`.
    pub fn read(&self, x: usize, y: usize) -> (r: Result<T, GridError>)
        requires
            self.wf(),
        ensures
            r is Ok <==> self.in_bounds(x as int, y as int),
            r matches Ok(v) ==> v == self.cell(x as int, y as int),
            r is Err ==> r->Err_0 == GridError::IndexOutOfBounds,
    {
        let k = self.offset(x, y)?;
        Ok(self.cells[k])
    }

    /// Sets the sample at `(x, y)`; out of range the grid is left as it was.
    pub fn write(&mut self, x: usize, y: usize, value: T) -> (r: Result<(), GridError>)
        requires
            old(self).wf(),
        ensures
            final(self).wf(),
            final(self).cols() == old(self).cols(),
            final(self).rows() == old(self).rows(),
            r is Ok <==> old(self).in_bounds(x as int, y as int),
            r is Ok ==> final(self).samples() == old(self).samples().update(
                offset_of(old(self).cols(), x as nat, y as nat) as int,
                value,
            ),
            r is Err ==> final(self).samples() == old(self).samples(),
            r is Err ==> r->Err_0 == GridError::IndexOutOfBounds,
    {
        let k = self.offset(x, y)?;
        self.cells.set(k, value);
        Ok(())
    }

    /// The sample at linear offset `k`, or `IndexOutOfBounds`.
    pub fn read_at(&self, k: usize) -> (r: Result<T, GridError>)
        requires
            self.wf(),
        ensures
            r is Ok <==> k < self.samples().len(),
            r matches Ok(v) ==> v == self.samples()[k as int],
            r is Err ==> r->Err_0 == GridError::IndexOutOfBounds,
    {
        if k >= self.cells.len() {
            return Err(GridError::IndexOutOfBounds);
        }
        Ok(self.cells[k])
    }

    /// Sets the sample at linear offset `k`; out of range the grid is left as it was.
    pub fn write_at(&mut self, k: usize, value: T) -> (r: Result<(), GridError>)
        requires
            old(self).wf(),
        ensures
            final(self).wf(),
            final(self).cols() == old(self).cols(),
            final(self).rows() == old(self).rows(),
            r is Ok <==> k < old(self).samples().len(),
            r is Ok ==> final(self).samples() == old(self).samples().update(k as int, value),
            r is Err ==> final(self).samples() == old(self).samples(),
            r is Err ==> r->Err_0 == GridError::IndexOutOfBounds,
    {
        if k >= self.cells.len() {
            return Err(GridError::IndexOutOfBounds);
        }
        self.cells.set(k, value);
        Ok(())
    }

    /// A deep copy, taken before a step overwrites the samples.
    pub fn snapshot(&self) -> (r: Grid<T>)
        requires
            self.wf(),
        ensures
            r.wf(),
            r.cols() == self.cols(),
            r.rows() == self.rows(),
            r.samples() == self.samples(),
    {
        let n = self.cells.len();
        let mut cells: Vec<T> = Vec::with_capacity(n);
        let mut i: usize = 0;
        while i < n
            invariant
                i <= n,
                n == self.cells@.len(),
                cells@ == self.cells@.subrange(0, i as int),
            decreases n - i,
        {
            cells.push(self.cells[i]);
            i = i + 1;
            assert(cells@ =~= self.cells@.subrange(0, i as int));
        }
        assert(cells@ =~= self.cells@);
        Grid { width: self.width, height: self.height, cells }
    }
}

} // verus!
