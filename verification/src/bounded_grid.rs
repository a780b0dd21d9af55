//! A dense grid of fixed size.
//!
//! The cell `(x, y)` of a grid `w` wide lies at place `x + y * w` of one
//! buffer. A cell outside the grid may not be accessed.
use crate::auto_index_impl::{
    ImplIndexForRef, IndexForRef, IndexRefContainer, IndexRefContainerMut, IndexedStore,
    IndexedStoreMut,
};
use crate::element::{clone_is_copy, is_default};
use crate::slice::{
    lemma_traversal_index, traversal_index, window_key, FromGridSlice, GridSlice,
};
use std::ops::{Bound, Range};
use vstd::prelude::*;

verus! {

/// 2d grid of fixed size, stored row by row in one buffer.
#[derive(Debug, Hash, PartialEq, Eq)]
pub struct Grid<T> {
    data: Vec<T>,
    dims: (usize, usize),
}

/// `std::ops::Bound`, one end of a range of indices, made known to the
/// verifier, which reads its three variants from the standard library.
#[verifier::external_type_specification]
#[verifier::reject_recursive_types(T)]
pub struct ExBound<T>(Bound<T>);

/// An immutable view of part of a [`Grid`].
pub type GridSliceRef<'a, T> = GridSlice<IndexRefContainer<'a, Grid<T>>, usize>;

/// A mutable view of part of a [`Grid`].
pub type GridSliceMut<'a, T> = GridSlice<IndexRefContainerMut<'a, Grid<T>>, usize>;

/// The first index of a range that starts at `bound`.
pub open spec fn spec_range_start(bound: Bound<usize>) -> int {
    match bound {
        Bound::Included(x) => x as int,
        Bound::Excluded(x) => x + 1,
        Bound::Unbounded => 0,
    }
}

/// The index just past a range that ends at `bound`, on an axis of length
/// `len`.
pub open spec fn spec_range_end(bound: Bound<usize>, len: usize) -> int {
    match bound {
        Bound::Included(x) => x + 1,
        Bound::Excluded(x) => x as int,
        Bound::Unbounded => len as int,
    }
}

/// Where the cell `(x, y)` of a grid `w` wide lies in the buffer.
pub open spec fn spec_flat_offset(key: (usize, usize), dims: (usize, usize)) -> int {
    key.0 + key.1 * dims.0
}

/// Two cells of a grid lie at the same place in the buffer only if they are
/// the same cell, and every cell lies within the buffer.
pub proof fn lemma_flat_offset(a: (usize, usize), b: (usize, usize), dims: (usize, usize))
    requires
        a.0 < dims.0,
        a.1 < dims.1,
        b.0 < dims.0,
        b.1 < dims.1,
    ensures
        0 <= spec_flat_offset(a, dims) < dims.0 * dims.1,
        spec_flat_offset(a, dims) == spec_flat_offset(b, dims) ==> a == b,
{
    let w = dims.0 as int;
    let h = dims.1 as int;
    let (ax, ay) = (a.0 as int, a.1 as int);
    let (bx, by) = (b.0 as int, b.1 as int);
    assert(ax + ay * w < w * h) by (nonlinear_arith)
        requires
            0 <= ax < w,
            0 <= ay < h,
    ;
    assert(ax + ay * w == bx + by * w ==> ay == by) by (nonlinear_arith)
        requires
            0 <= ax < w,
            0 <= bx < w,
            0 <= ay,
            0 <= by,
    ;
}

/// The place of the cell `(x, y)` in the buffer of a grid of `w` by `h`
/// cells.
pub fn flat_offset(key: (usize, usize), dims: (usize, usize)) -> (offset: usize)
    requires
        key.0 < dims.0,
        key.1 < dims.1,
        dims.0 * dims.1 <= usize::MAX,
    ensures
        offset == spec_flat_offset(key, dims),
        offset < dims.0 * dims.1,
{
    let (x, y) = key;
    let (w, h) = dims;
    proof {
        lemma_flat_offset(key, key, dims);
    }
    x + y * w
}

impl<T> Grid<T> {
    /// The grid's shape: width, then height.
    pub closed spec fn spec_dims(&self) -> (usize, usize) {
        self.dims
    }

    /// The grid's cells, row by row.
    pub closed spec fn cells(&self) -> Seq<T> {
        self.data@
    }

    /// Get grid shape
    #[verifier::when_used_as_spec(spec_dims)]
    pub fn dims(&self) -> (d: (usize, usize))
        ensures
            d == self.spec_dims(),
    {
        self.dims
    }
}

impl<T> Grid<T> {
    /// The half-open pair of indices for the range from `start` to `end` on
    /// an axis of length `len`. The range may not reach past `len`.
    pub fn range_bound_to_pair(start: Bound<usize>, end: Bound<usize>, len: usize) -> (pair: (
        usize,
        usize,
    ))
        requires
            spec_range_end(end, len) <= len,
            spec_range_start(start) <= usize::MAX,
        ensures
            pair.0 == spec_range_start(start),
            pair.1 == spec_range_end(end, len),
    {
        let end = match end {
            Bound::Included(x) => x + 1,
            Bound::Excluded(x) => x,
            Bound::Unbounded => len,
        };
        let start = match start {
            Bound::Included(x) => x,
            Bound::Excluded(x) => x + 1,
            Bound::Unbounded => 0,
        };
        (start, end)
    }

    /// Get immutable view of the columns `x` and the rows `y` of the grid
    pub fn slice(&self, x: Range<usize>, y: Range<usize>) -> (s: GridSliceRef<'_, T>)
        requires
            self.wf(),
            x.start <= x.end <= self.dims().0,
            y.start <= y.end <= self.dims().1,
        ensures
            *s.handle().inner() == *self,
            s.spec_x_range() == x,
            s.spec_y_range() == y,
            s.wf(),
            s.covered(),
    {
        let (x1, x2) = Self::range_bound_to_pair(
            Bound::Included(x.start),
            Bound::Excluded(x.end),
            self.dims.0,
        );
        let (y1, y2) = Self::range_bound_to_pair(
            Bound::Included(y.start),
            Bound::Excluded(y.end),
            self.dims.1,
        );
        GridSlice::new(IndexForRef::new(self), x1..x2, y1..y2)
    }

    /// Get mutable view of the columns `x` and the rows `y` of the grid.
    /// When the view is done with, the grid is what the view's store has
    /// become.
    pub fn slice_mut(&mut self, x: Range<usize>, y: Range<usize>) -> (s: GridSliceMut<'_, T>)
        requires
            old(self).wf(),
            x.start <= x.end <= old(self).dims().0,
            y.start <= y.end <= old(self).dims().1,
        ensures
            *s.handle().inner() == *old(self),
            *final(self) == *final(s.handle().inner()),
            s.spec_x_range() == x,
            s.spec_y_range() == y,
            s.wf(),
            s.covered(),
    {
        let (x1, x2) = Self::range_bound_to_pair(
            Bound::Included(x.start),
            Bound::Excluded(x.end),
            self.dims.0,
        );
        let (y1, y2) = Self::range_bound_to_pair(
            Bound::Included(y.start),
            Bound::Excluded(y.end),
            self.dims.1,
        );
        GridSlice::new(IndexForRef::new(self), x1..x2, y1..y2)
    }

    /// Create immutable slice over all grid
    ///
    /// same as `.slice(0..width, 0..height)`
    pub fn as_slice(&self) -> (s: GridSliceRef<'_, T>)
        requires
            self.wf(),
        ensures
            *s.handle().inner() == *self,
            s.spec_x_range() == (0usize..self.dims().0),
            s.spec_y_range() == (0usize..self.dims().1),
            s.wf(),
            s.covered(),
    {
        GridSlice::new(IndexForRef::new(self), 0..self.dims.0, 0..self.dims.1)
    }

    /// Create mutable slice over all grid
    ///
    /// same as `.slice_mut(0..width, 0..height)`
    pub fn as_slice_mut(&mut self) -> (s: GridSliceMut<'_, T>)
        requires
            old(self).wf(),
        ensures
            *s.handle().inner() == *old(self),
            *final(self) == *final(s.handle().inner()),
            s.spec_x_range() == (0usize..old(self).dims().0),
            s.spec_y_range() == (0usize..old(self).dims().1),
            s.wf(),
            s.covered(),
    {
        let x = 0..self.dims.0;
        let y = 0..self.dims.1;
        GridSlice::new(IndexForRef::new(self), x, y)
    }
}

impl<T: Default> Grid<T> {
    /// Create new instance of grid filled with default elements
    pub fn new_default(dims: (usize, usize)) -> (grid: Self)
        requires
            dims.0 * dims.1 <= usize::MAX,
        ensures
            grid.wf(),
            grid.dims() == dims,
            forall|key: (usize, usize)|
                grid.in_domain(key) ==> is_default(#[trigger] grid.cell(key)),
    {
        let (width, height) = dims;
        let n = width * height;
        let mut data = Vec::with_capacity(n);
        for i in 0..n
            invariant
                data.len() == i,
                forall|j: int| 0 <= j < i ==> is_default(#[trigger] data[j]),
        {
            data.push(T::default());
        }
        let grid = Grid { data, dims: (width, height) };
        proof {
            assert forall|key: (usize, usize)| grid.in_domain(key) implies is_default(
                #[trigger] grid.cell(key),
            ) by {
                lemma_flat_offset(key, key, dims);
            }
        }
        grid
    }
}

impl<T: Clone> Grid<T> {
    /// Create new instance of grid with every cell a clone of `fill_with`
    pub fn new(dims: (usize, usize), fill_with: T) -> (grid: Self)
        requires
            dims.0 * dims.1 <= usize::MAX,
        ensures
            grid.wf(),
            grid.dims() == dims,
            forall|key: (usize, usize)|
                grid.in_domain(key) ==> cloned(fill_with, #[trigger] grid.cell(key)),
            clone_is_copy::<T>() ==> forall|key: (usize, usize)|
                grid.in_domain(key) ==> #[trigger] grid.cell(key) == fill_with,
    {
        let (width, height) = dims;
        let n = width * height;
        let mut data = Vec::with_capacity(n);
        for i in 0..n
            invariant
                data.len() == i,
                forall|j: int| 0 <= j < i ==> cloned(fill_with, #[trigger] data[j]),
        {
            data.push(fill_with.clone());
        }
        let grid = Grid { data, dims: (width, height) };
        proof {
            assert forall|key: (usize, usize)| grid.in_domain(key) implies cloned(
                fill_with,
                #[trigger] grid.cell(key),
            ) by {
                lemma_flat_offset(key, key, dims);
            }
        }
        grid
    }
}

impl<T: Clone> Clone for Grid<T> {
    /// A grid of the same shape whose cells are clones of this one's.
    fn clone(&self) -> (grid: Self)
        ensures
            grid.dims() == self.dims(),
            grid.cells().len() == self.cells().len(),
            forall|i: int|
                0 <= i < self.cells().len() ==> cloned(self.cells()[i], #[trigger] grid.cells()[i]),
    {
        Grid { data: self.data.clone(), dims: (self.dims.0, self.dims.1) }
    }
}

impl<T> IndexedStore<(usize, usize)> for Grid<T> {
    type Output = T;

    /// The buffer holds exactly one element for each cell, and its length
    /// fits in a `usize`.
    open spec fn wf(&self) -> bool {
        &&& self.cells().len() == self.dims().0 * self.dims().1
        &&& self.dims().0 * self.dims().1 <= usize::MAX
    }

    open spec fn in_domain(&self, key: (usize, usize)) -> bool {
        key.0 < self.dims().0 && key.1 < self.dims().1
    }

    open spec fn cell(&self, key: (usize, usize)) -> T {
        self.cells()[spec_flat_offset(key, self.dims())]
    }

    fn accessible(&self, key: (usize, usize)) -> (b: bool) {
        key.0 < self.dims.0 && key.1 < self.dims.1
    }

    fn index(&self, key: (usize, usize)) -> (r: &T) {
        assert(self.data.len() <= usize::MAX);
        &self.data[flat_offset(key, self.dims)]
    }
}

impl<T> IndexedStoreMut<(usize, usize)> for Grid<T> {
    fn index_mut(&mut self, key: (usize, usize)) -> (r: &mut T)
        ensures
            final(self).dims() == old(self).dims(),
            final(self).cells() == old(self).cells().update(
                spec_flat_offset(key, old(self).dims()),
                *final(r),
            ),
    {
        assert(self.data.len() <= usize::MAX);
        let offset = flat_offset(key, self.dims);
        proof {
            assert forall|k: (usize, usize)| k != key && old(self).in_domain(k) implies {
                &&& #[trigger] spec_flat_offset(k, old(self).dims()) != offset
                &&& 0 <= spec_flat_offset(k, old(self).dims()) < old(self).cells().len()
            } by {
                lemma_flat_offset(k, key, old(self).dims());
            }
        }
        &mut self.data[offset]
    }
}

impl<T> ImplIndexForRef<(usize, usize)> for Grid<T> {
}

impl<I: Clone> FromGridSlice<usize, I> for Grid<I> {
    /// The buffer's length fits in a `usize`.
    open spec fn can_hold(width: int, height: int) -> bool {
        width * height <= usize::MAX
    }

    open spec fn holds_window(&self, width: int, height: int) -> bool {
        self.wf() && self.dims().0 == width && self.dims().1 == height
    }

    open spec fn element(&self, col: int, row: int) -> I {
        self.cell((col as usize, row as usize))
    }

    /// A grid of the view's shape whose cells are clones of the view's
    /// elements.
    fn from_slice<T>(slice: &GridSlice<T, usize>) -> (grid: Self) where
        T: IndexedStore<(usize, usize), Output = I>,
     {
        let xr = slice.x_range();
        let yr = slice.y_range();
        let w = xr.end - xr.start;
        let h = yr.end - yr.start;
        let mut data = Vec::with_capacity(w * h);
        proof {
            assert(0 * w == 0) by (nonlinear_arith);
        }
        for row in 0..h
            invariant
                slice.wf(),
                slice.covered(),
                w == slice.width(),
                h == slice.height(),
                xr == slice.spec_x_range(),
                yr == slice.spec_y_range(),
                data.len() == row * w,
                forall|i: int|
                    0 <= i < data.len() ==> cloned(
                        slice.at(i % (w as int), i / (w as int)),
                        #[trigger] data[i],
                    ),
        {
            for col in 0..w
                invariant
                    slice.wf(),
                    slice.covered(),
                    w == slice.width(),
                    h == slice.height(),
                    xr == slice.spec_x_range(),
                    yr == slice.spec_y_range(),
                    0 <= row < h,
                    data.len() == row * w + col,
                    forall|i: int|
                        0 <= i < data.len() ==> cloned(
                            slice.at(i % (w as int), i / (w as int)),
                            #[trigger] data[i],
                        ),
            {
                proof {
                    assert(window_key(xr.start, yr.start, col as int, row as int) == slice.key_at(
                        col as int,
                        row as int,
                    ));
                    lemma_traversal_index(col as int, row as int, w as int, h as int);
                }
                data.push(slice.index((col, row)).clone());
            }
            proof {
                assert((row + 1) * w == row * w + w) by (nonlinear_arith);
            }
        }
        let grid = Self { data, dims: (w, h) };
        proof {
            assert(h * w == w * h) by (nonlinear_arith);
            assert forall|col: int, row: int| 0 <= col < w && 0 <= row < h implies cloned(
                slice.at(col, row),
                #[trigger] grid.element(col, row),
            ) by {
                lemma_traversal_index(col, row, w as int, h as int);
                assert(spec_flat_offset((col as usize, row as usize), grid.dims())
                    == traversal_index(col, row, w as int)) by (nonlinear_arith)
                    requires
                        spec_flat_offset((col as usize, row as usize), grid.dims()) == col + row
                            * w,
                        traversal_index(col, row, w as int) == row * w + col,
                ;
            }
        }
        grid
    }
}

/// Materializing a view and slicing the whole of the result gives the
/// view's content back, where cloning an element gives an equal element:
/// `grid` stands for what [`GridSlice::clone_into`] returns for `slice`, and
/// `again` for what [`Grid::as_slice`] returns for `grid`.
pub proof fn lemma_materialize_round_trip<T, I: Clone>(
    slice: &GridSlice<T, usize>,
    grid: &Grid<I>,
    again: &GridSliceRef<'_, I>,
) where T: IndexedStore<(usize, usize), Output = I>
    requires
        slice.ordered(),
        clone_is_copy::<I>(),
        grid.holds_window(slice.width(), slice.height()),
        forall|col: int, row: int|
            0 <= col < slice.width() && 0 <= row < slice.height() ==> cloned(
                slice.at(col, row),
                #[trigger] grid.element(col, row),
            ),
        *again.handle().inner() == *grid,
        again.spec_x_range() == (0usize..grid.dims().0),
        again.spec_y_range() == (0usize..grid.dims().1),
    ensures
        again.content_eq(slice),
        again@ == slice@,
{
    assert forall|col: int, row: int|
        0 <= col < again.width() && 0 <= row < again.height() implies #[trigger] again.at(col, row)
        == slice.at(col, row) by {
        assert(again.at(col, row) == grid.element(col, row));
    }
    again.lemma_content_eq_is_traversal_eq(slice);
}

} // verus!
