//! An unbounded grid addressed by signed coordinates, stored sparsely in
//! square chunks that are allocated when first written.
use crate::auto_index_impl::{
    ImplIndexForRef, IndexForRef, IndexRefContainer, IndexRefContainerMut, IndexedStore,
    IndexedStoreMut,
};
use crate::cache_map::{key_model, CacheMap};
use crate::element::{clone_is_copy, default_is_unique, is_default};
use crate::slice::{window_key, FromGridSlice, GridSlice};
use std::ops::Range;
use vstd::laws_eq::obeys_concrete_eq;
use vstd::prelude::*;

verus! {

broadcast use vstd::std_specs::hash::group_hash_axioms;

/// The side of a chunk.
pub const CHUNK_SIDE: i32 = 64;

/// The number of bits of a coordinate that address a cell within its chunk.
pub const CHUNK_SIDE_LG2: i32 = 6;

/// Those bits.
pub const CHUNK_SIDE_MASK: i32 = 63;

/// The number of cells in a chunk.
pub const CHUNK_CELLS: usize = 4096;

/// 2d grid without bounds. A cell that was never written holds the grid's
/// default element.
pub struct InfiniteGrid<T> {
    data: CacheMap<u64, Vec<T>>,
    default: T,
}

/// An immutable view of part of an [`InfiniteGrid`].
pub type InfiniteGridSliceRef<'a, T> = GridSlice<IndexRefContainer<'a, InfiniteGrid<T>>, i32>;

/// A mutable view of part of an [`InfiniteGrid`].
pub type InfiniteGridSliceMut<'a, T> = GridSlice<IndexRefContainerMut<'a, InfiniteGrid<T>>, i32>;

/// The chunk that holds the coordinate `c` along one axis: `c` divided by
/// the chunk side, rounded towards negative infinity.
pub open spec fn spec_chunk_of(c: i32) -> int {
    c as int / 64
}

/// The place of the coordinate `c` within its chunk along one axis: never
/// negative, also where `c` is.
pub open spec fn spec_local_of(c: i32) -> int {
    c as int % 64
}

/// Where the cell at the local position `pos` lies in its chunk's buffer.
pub open spec fn spec_chunk_offset(pos: (i32, i32)) -> int {
    pos.0 + pos.1 * 64
}

/// A chunk coordinate as a natural number: 0, -1, 1, -2, 2, ... count as
/// 0, 1, 2, 3, 4, ...
pub open spec fn spec_fold(c: int) -> int {
    if c >= 0 {
        2 * c
    } else {
        -2 * c - 1
    }
}

/// The key under which the chunk `id` is stored. The chunk `(0, 0)` has
/// the key 0.
pub open spec fn spec_chunk_key(id: (i32, i32)) -> int {
    spec_fold(id.0 as int) * 0x1_0000_0000 + spec_fold(id.1 as int)
}

/// Different chunks are stored under different keys.
pub proof fn lemma_chunk_key_injective(a: (i32, i32), b: (i32, i32))
    requires
        spec_chunk_key(a) == spec_chunk_key(b),
    ensures
        a == b,
{
}

/// A coordinate is given by its chunk and its place within the chunk, and
/// the place lies within the chunk's side.
pub proof fn lemma_split(c: i32)
    ensures
        0 <= spec_local_of(c) < 64,
        -0x200_0000 <= spec_chunk_of(c) < 0x200_0000,
        c == spec_chunk_of(c) * 64 + spec_local_of(c),
{
}

impl<T> InfiniteGrid<T> {
    /// The place in a chunk's buffer of the cell at the local position
    /// `pos`.
    pub fn chunk_offset(pos: (i32, i32)) -> (offset: usize)
        requires
            0 <= pos.0 < CHUNK_SIDE,
            0 <= pos.1 < CHUNK_SIDE,
        ensures
            offset == spec_chunk_offset(pos),
            offset < CHUNK_CELLS,
    {
        let (x, y) = pos;
        (x + y * CHUNK_SIDE) as usize
    }

    /// Splits a coordinate into the local position within its chunk and the
    /// chunk's id. The local position is the low six bits of each
    /// coordinate, the id is the coordinate shifted right by six bits, sign
    /// kept: `-1` lies at place 63 of chunk `-1`.
    pub fn split_coords(key: (i32, i32)) -> (r: ((i32, i32), (i32, i32)))
        ensures
            r.0 == (key.0 & CHUNK_SIDE_MASK, key.1 & CHUNK_SIDE_MASK),
            r.1 == (key.0 >> CHUNK_SIDE_LG2, key.1 >> CHUNK_SIDE_LG2),
            r.0.0 == spec_local_of(key.0),
            r.0.1 == spec_local_of(key.1),
            r.1.0 == spec_chunk_of(key.0),
            r.1.1 == spec_chunk_of(key.1),
    {
        let (x, y) = key;
        assert(x & 63 == x % 64 && x >> 6 == x / 64) by (bit_vector);
        assert(y & 63 == y % 64 && y >> 6 == y / 64) by (bit_vector);
        ((x & CHUNK_SIDE_MASK, y & CHUNK_SIDE_MASK), (x >> CHUNK_SIDE_LG2, y >> CHUNK_SIDE_LG2))
    }

    /// A chunk coordinate as a natural number.
    fn fold(c: i32) -> (n: u64)
        requires
            -0x200_0000 <= c < 0x200_0000,
        ensures
            n == spec_fold(c as int),
    {
        if c >= 0 {
            2 * (c as u64)
        } else {
            let below: i64 = 0 - (c as i64);
            (2 * below - 1) as u64
        }
    }

    /// The key under which the chunk `id` is stored.
    fn chunk_key(id: (i32, i32)) -> (key: u64)
        requires
            -0x200_0000 <= id.0 < 0x200_0000,
            -0x200_0000 <= id.1 < 0x200_0000,
        ensures
            key == spec_chunk_key(id),
    {
        Self::fold(id.0) * 0x1_0000_0000 + Self::fold(id.1)
    }
}

/// A chunk in which nothing was written yet: every cell holds a default
/// value.
fn new_chunk<T: Default>() -> (chunk: Vec<T>)
    ensures
        chunk@.len() == CHUNK_CELLS,
        forall|i: int| 0 <= i < chunk@.len() ==> is_default(#[trigger] chunk@[i]),
{
    let size = CHUNK_CELLS;
    let mut data = Vec::with_capacity(size);
    for i in 0..size
        invariant
            data@.len() == i,
            forall|j: int| 0 <= j < i ==> is_default(#[trigger] data@[j]),
    {
        data.push(T::default());
    }
    data
}

impl<T: Default> InfiniteGrid<T> {
    /// The element that cells hold before they are written.
    pub closed spec fn default_value(&self) -> T {
        self.default
    }

    /// Whether the chunk `id` has been allocated.
    pub closed spec fn allocated(&self, id: (i32, i32)) -> bool {
        self.data@.contains_key(spec_chunk_key(id) as u64)
    }

    /// The cells of the allocated chunk `id`, row by row.
    pub closed spec fn chunk(&self, id: (i32, i32)) -> Seq<T> {
        self.data@[spec_chunk_key(id) as u64]@
    }

    /// The key of the chunk that is kept at hand: the chunk read or written
    /// last with exclusive access to the grid.
    pub closed spec fn at_hand(&self) -> u64 {
        self.data.placement().cached_key
    }

    /// The chunk that holds the cell at `key`.
    pub open spec fn chunk_id(key: (i32, i32)) -> (i32, i32) {
        (spec_chunk_of(key.0) as i32, spec_chunk_of(key.1) as i32)
    }

    /// The place of the cell at `key` in its chunk's buffer.
    pub open spec fn offset_in_chunk(key: (i32, i32)) -> int {
        spec_local_of(key.0) + spec_local_of(key.1) * 64
    }

    /// The default element of a well-formed grid is the one default value
    /// of the element type: it is what `T::default()` returns, every time.
    pub proof fn lemma_default_value(&self)
        requires
            self.wf(),
        ensures
            is_default(self.default_value()),
            default_is_unique::<T>(),
    {
    }

    /// A grid in which no chunk is allocated: every cell holds the default
    /// element.
    pub fn new() -> (grid: Self)
        ensures
            default_is_unique::<T>() ==> grid.wf(),
            is_default(grid.default_value()),
            grid.at_hand() == 0,
            forall|id: (i32, i32)| !#[trigger] grid.allocated(id),
            forall|key: (i32, i32)| #[trigger] grid.cell(key) == grid.default_value(),
    {
        proof {
            reveal(obeys_concrete_eq);
        }
        Self { data: CacheMap::new(), default: T::default() }
    }

    /// Get immutable view of the columns `x` and the rows `y` of the grid.
    /// Any coordinates will do, negative ones too.
    pub fn slice(&self, x: Range<i32>, y: Range<i32>) -> (s: InfiniteGridSliceRef<'_, T>)
        ensures
            *s.handle().inner() == *self,
            s.spec_x_range() == x,
            s.spec_y_range() == y,
            s.covered(),
            self.wf() && x.start <= x.end && y.start <= y.end ==> s.wf(),
    {
        GridSlice::new(IndexForRef::new(self), x, y)
    }

    /// Get mutable view of the columns `x` and the rows `y` of the grid.
    /// Any coordinates will do, negative ones too. When the view is done
    /// with, the grid is what the view's store has become.
    pub fn slice_mut(&mut self, x: Range<i32>, y: Range<i32>) -> (s: InfiniteGridSliceMut<'_, T>)
        ensures
            *s.handle().inner() == *old(self),
            *final(self) == *final(s.handle().inner()),
            s.spec_x_range() == x,
            s.spec_y_range() == y,
            s.covered(),
            old(self).wf() && x.start <= x.end && y.start <= y.end ==> s.wf(),
    {
        GridSlice::new(IndexForRef::new(self), x, y)
    }

    /// Reads the cell at `key` and keeps its chunk at hand for the accesses
    /// that follow. No cell changes, and nothing is allocated.
    pub fn read(&mut self, key: (i32, i32)) -> (r: &T)
        requires
            old(self).wf(),
        ensures
            *r == old(self).cell(key),
            final(self).wf(),
            final(self).default_value() == old(self).default_value(),
            final(self).at_hand() == spec_chunk_key(Self::chunk_id(key)),
            forall|id: (i32, i32)| #[trigger] final(self).allocated(id) == old(self).allocated(id),
            forall|k: (i32, i32)| #[trigger] final(self).cell(k) == old(self).cell(k),
    {
        let (pos, chunk_id) = Self::split_coords(key);
        let offset = Self::chunk_offset(pos);
        proof {
            lemma_split(key.0);
            lemma_split(key.1);
        }
        let found = self.data.get(Self::chunk_key(chunk_id));
        match found {
            Some(chunk) => &chunk[offset],
            None => &self.default,
        }
    }
}

impl<T: Default> Default for InfiniteGrid<T> {
    /// A grid in which no chunk is allocated.
    fn default() -> (grid: Self)
        ensures
            default_is_unique::<T>() ==> grid.wf(),
            is_default(grid.default_value()),
            forall|id: (i32, i32)| !#[trigger] grid.allocated(id),
            forall|key: (i32, i32)| #[trigger] grid.cell(key) == grid.default_value(),
    {
        Self::new()
    }
}

impl<T: Default> IndexedStore<(i32, i32)> for InfiniteGrid<T> {
    type Output = T;

    /// The grid's invariant. The chunk store is well formed, every
    /// allocated chunk has all its cells, and the element type has a single
    /// default value, which is the grid's.
    closed spec fn wf(&self) -> bool {
        &&& self.data.wf()
        &&& default_is_unique::<T>()
        &&& is_default(self.default)
        &&& forall|k: u64| #[trigger]
            self.data@.contains_key(k) ==> self.data@[k]@.len() == CHUNK_CELLS
    }

    /// Every coordinate can be accessed.
    open spec fn in_domain(&self, key: (i32, i32)) -> bool {
        true
    }

    /// What the chunk of `key` holds at the place of `key`, or the default
    /// element where that chunk is not allocated.
    open spec fn cell(&self, key: (i32, i32)) -> T {
        if self.allocated(Self::chunk_id(key)) {
            self.chunk(Self::chunk_id(key))[Self::offset_in_chunk(key)]
        } else {
            self.default_value()
        }
    }

    fn accessible(&self, key: (i32, i32)) -> (b: bool) {
        true
    }

    /// Reads the cell at `key`: the default element where nothing was
    /// written in its chunk yet.
    fn index(&self, key: (i32, i32)) -> (r: &T) {
        let (pos, chunk_id) = Self::split_coords(key);
        let offset = Self::chunk_offset(pos);
        proof {
            lemma_split(key.0);
            lemma_split(key.1);
        }
        let chunk_key = Self::chunk_key(chunk_id);
        match self.data.peek(&chunk_key) {
            Some(chunk) => &chunk[offset],
            None => &self.default,
        }
    }
}

impl<T: Default> IndexedStoreMut<(i32, i32)> for InfiniteGrid<T> {
    /// Hands out the cell at `key` for writing. Its chunk is allocated if
    /// it was not, every cell of it holding the default element.
    fn index_mut(&mut self, key: (i32, i32)) -> (r: &mut T)
        ensures
            final(self).default_value() == old(self).default_value(),
            final(self).at_hand() == spec_chunk_key(Self::chunk_id(key)),
            forall|id: (i32, i32)| #[trigger]
                final(self).allocated(id) == (old(self).allocated(id) || id == Self::chunk_id(
                    key,
                )),
    {
        let (pos, chunk_id) = Self::split_coords(key);
        let offset = Self::chunk_offset(pos);
        proof {
            lemma_split(key.0);
            lemma_split(key.1);
        }
        let chunk_key = Self::chunk_key(chunk_id);
        let chunk = self.data.get_mut_or_insert(chunk_key, new_chunk::<T>);
        proof {
            assert forall|k: (i32, i32)| k != key implies (Self::chunk_id(k) != Self::chunk_id(key)
                || Self::offset_in_chunk(k) != offset) by {
                lemma_split(k.0);
                lemma_split(k.1);
            }
            assert forall|a: (i32, i32)| a != chunk_id implies spec_chunk_key(a) as u64
                != chunk_key by {
                if spec_chunk_key(a) == spec_chunk_key(chunk_id) {
                    lemma_chunk_key_injective(a, chunk_id);
                }
            }
        }
        &mut chunk[offset]
    }
}

impl<T: Default> ImplIndexForRef<(i32, i32)> for InfiniteGrid<T> {
}

impl<I: Clone + Default> FromGridSlice<i32, I> for InfiniteGrid<I> {
    /// The window's width and height are coordinates, and the element type
    /// has a single default value.
    open spec fn can_hold(width: int, height: int) -> bool {
        width <= i32::MAX && height <= i32::MAX && default_is_unique::<I>()
    }

    /// Every cell outside the window, which starts at the origin, holds the
    /// grid's default element, which is the default value of the element
    /// type.
    open spec fn holds_window(&self, width: int, height: int) -> bool {
        &&& self.wf()
        &&& is_default(self.default_value())
        &&& forall|key: (i32, i32)|
            !(0 <= key.0 < width && 0 <= key.1 < height) ==> #[trigger] self.cell(key)
                == self.default_value()
    }

    open spec fn element(&self, col: int, row: int) -> I {
        self.cell((col as i32, row as i32))
    }

    /// A grid that holds clones of the view's elements in the window of the
    /// view's shape at the origin.
    fn from_slice<T>(slice: &GridSlice<T, i32>) -> (grid: Self) where
        T: IndexedStore<(i32, i32), Output = I>,
     {
        let xr = slice.x_range();
        let yr = slice.y_range();
        let w: i32 = (xr.end as i64 - xr.start as i64) as i32;
        let h: i32 = (yr.end as i64 - yr.start as i64) as i32;
        let mut res = Self::new();
        let ghost default = res.default_value();
        for y in 0..h
            invariant
                slice.wf(),
                slice.covered(),
                w == slice.width(),
                h == slice.height(),
                xr == slice.spec_x_range(),
                yr == slice.spec_y_range(),
                res.wf(),
                res.default_value() == default,
                is_default(default),
                forall|c: int, r: int|
                    0 <= c < w && 0 <= r < y ==> cloned(
                        slice.at(c, r),
                        #[trigger] res.element(c, r),
                    ),
                forall|key: (i32, i32)|
                    !(0 <= key.0 < w && 0 <= key.1 < y) ==> #[trigger] res.cell(key) == default,
        {
            for x in 0..w
                invariant
                    slice.wf(),
                    slice.covered(),
                    w == slice.width(),
                    h == slice.height(),
                    xr == slice.spec_x_range(),
                    yr == slice.spec_y_range(),
                    0 <= y < h,
                    res.wf(),
                    res.default_value() == default,
                    is_default(default),
                is_default(default),
                    forall|c: int, r: int|
                        0 <= c < w && 0 <= r < y ==> cloned(
                            slice.at(c, r),
                            #[trigger] res.element(c, r),
                        ),
                    forall|c: int|
                        0 <= c < x ==> cloned(
                            slice.at(c, y as int),
                            #[trigger] res.element(c, y as int),
                        ),
                    forall|key: (i32, i32)|
                        !(0 <= key.0 < w && 0 <= key.1 < y) && !(key.1 == y && 0 <= key.0 < x)
                            ==> #[trigger] res.cell(key) == default,
            {
                proof {
                    assert(window_key(xr.start, yr.start, x as int, y as int) == slice.key_at(
                        x as int,
                        y as int,
                    ));
                }
                let value = slice.index((x, y)).clone();
                let ghost before = res;
                *res.index_mut((x, y)) = value;
                proof {
                    assert forall|c: int, r: int| 0 <= c < w && 0 <= r < y implies cloned(
                        slice.at(c, r),
                        #[trigger] res.element(c, r),
                    ) by {
                        assert(res.element(c, r) == before.element(c, r));
                    }
                    assert forall|c: int| 0 <= c < x + 1 implies cloned(
                        slice.at(c, y as int),
                        #[trigger] res.element(c, y as int),
                    ) by {
                        if c < x {
                            assert(res.element(c, y as int) == before.element(c, y as int));
                        }
                    }
                }
            }
        }
        res
    }
}

/// Materializing a view and slicing the result at the origin in the view's
/// shape gives the view's content back, where cloning an element gives an
/// equal element: `grid` stands for what [`GridSlice::clone_into`] returns
/// for `slice`, and `again` for what [`InfiniteGrid::slice`] returns for
/// `grid` and the ranges from 0 to the view's width and height.
pub proof fn lemma_materialize_round_trip<T, I: Clone + Default>(
    slice: &GridSlice<T, i32>,
    grid: &InfiniteGrid<I>,
    again: &InfiniteGridSliceRef<'_, I>,
) where T: IndexedStore<(i32, i32), Output = I>
    requires
        slice.ordered(),
        clone_is_copy::<I>(),
        slice.width() <= i32::MAX,
        slice.height() <= i32::MAX,
        grid.holds_window(slice.width(), slice.height()),
        forall|col: int, row: int|
            0 <= col < slice.width() && 0 <= row < slice.height() ==> cloned(
                slice.at(col, row),
                #[trigger] grid.element(col, row),
            ),
        *again.handle().inner() == *grid,
        again.spec_x_range() == (0i32..(slice.width() as i32)),
        again.spec_y_range() == (0i32..(slice.height() as i32)),
    ensures
        again.content_eq(slice),
        again@ == slice@,
{
    assert forall|col: int, row: int|
        0 <= col < again.width() && 0 <= row < again.height() implies #[trigger] again.at(col, row)
        == slice.at(col, row) by {
        assert(again.at(col, row) == grid.element(col, row));
    }
    again.lemma_content_eq_is_traversal_eq(slice);
}

} // verus!
