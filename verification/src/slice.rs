//! A rectangular window onto a store.
//!
//! A view owns no elements: it holds a store, or a handle that owns or
//! borrows one. Positions inside a view are counted from its origin:
//! column 0, row 0 is the element at the start of both ranges. A view is
//! traversed row by row, each row from its first column to its last; that
//! same order is what equality compares.
use crate::auto_index_impl::{
    is_write, lemma_write_through_borrow, lemma_write_through_owner, ImplIndexForRef, IndexForRef,
    IndexedStore, IndexedStoreMut,
};
use crate::element::clone_is_copy;
use crate::coordinate::Coordinate;
use std::ops::Range;
use vstd::arithmetic::div_mod::lemma_fundamental_div_mod_converse;
use vstd::laws_eq::obeys_concrete_eq;
use vstd::prelude::*;
use vstd::std_specs::cmp::PartialEqSpec;

verus! {

/// A window onto the store behind the handle `T`: the columns `x` and the
/// rows `y`, both half-open.
pub struct GridSlice<T, K> {
    grid: T,
    x: Range<K>,
    y: Range<K>,
}

/// The place of column `col` of row `row` in a row-by-row traversal of a
/// window `width` wide.
pub open spec fn traversal_index(col: int, row: int, width: int) -> int {
    row * width + col
}

/// A traversal visits the cells of a window one after another: the place of
/// a cell determines its column and row, and lies before the window's size.
pub proof fn lemma_traversal_index(col: int, row: int, width: int, height: int)
    requires
        0 <= col < width,
        0 <= row < height,
    ensures
        0 <= traversal_index(col, row, width) < width * height,
        traversal_index(col, row, width) % width == col,
        traversal_index(col, row, width) / width == row,
        traversal_index(0, row + 1, width) == traversal_index(col, row, width) + (width - col),
{
    lemma_fundamental_div_mod_converse(traversal_index(col, row, width), width, row, col);
    assert(0 <= row * width + col < width * height) by (nonlinear_arith)
        requires
            0 <= col < width,
            0 <= row < height,
    ;
    assert((row + 1) * width == row * width + width) by (nonlinear_arith);
}

/// Every place before a window's size is the place of one of its cells.
pub proof fn lemma_traversal_cell(i: int, width: int, height: int)
    requires
        0 <= i < width * height,
        0 <= width,
        0 <= height,
    ensures
        0 <= i % width < width,
        0 <= i / width < height,
        traversal_index(i % width, i / width, width) == i,
{
    assert(width > 0) by (nonlinear_arith)
        requires
            0 <= i < width * height,
            0 <= width,
    ;
    vstd::arithmetic::div_mod::lemma_fundamental_div_mod(i, width);
    vstd::arithmetic::div_mod::lemma_mod_bound(i, width);
    let q = i / width;
    let r = i % width;
    assert(0 <= q < height) by (nonlinear_arith)
        requires
            i == width * q + r,
            0 <= r < width,
            0 <= i < width * height,
    ;
    assert(width * q == q * width) by (nonlinear_arith);
}

/// The key of column `col` of row `row` of a window whose origin is
/// `(x0, y0)`.
pub open spec fn window_key<K: Coordinate>(x0: K, y0: K, col: int, row: int) -> (K, K) {
    (K::of_int(x0.as_int() + col), K::of_int(y0.as_int() + row))
}

/// Whether `key` lies in the window of `width` by `height` cells whose
/// origin is `(x0, y0)`.
pub open spec fn in_window<K: Coordinate>(
    x0: K,
    y0: K,
    width: int,
    height: int,
    key: (K, K),
) -> bool {
    &&& 0 <= key.0.as_int() - x0.as_int() < width
    &&& 0 <= key.1.as_int() - y0.as_int() < height
}

impl<T, K> GridSlice<T, K> {
    /// The handle through which the view reaches its store.
    pub closed spec fn handle(&self) -> T {
        self.grid
    }

    /// The view's columns.
    pub closed spec fn spec_x_range(&self) -> Range<K> {
        self.x
    }

    /// The view's rows.
    pub closed spec fn spec_y_range(&self) -> Range<K> {
        self.y
    }

    /// A view of the columns `x` and the rows `y` of the store behind `grid`.
    pub fn new(grid: T, x: Range<K>, y: Range<K>) -> (s: Self)
        ensures
            s.handle() == grid,
            s.spec_x_range() == x,
            s.spec_y_range() == y,
    {
        Self { grid, x, y }
    }

    /// The view's columns.
    pub fn x_range(&self) -> (r: Range<K>) where K: Copy
        ensures
            r == self.spec_x_range(),
    {
        Range { start: self.x.start, end: self.x.end }
    }

    /// The view's rows.
    pub fn y_range(&self) -> (r: Range<K>) where K: Copy
        ensures
            r == self.spec_y_range(),
    {
        Range { start: self.y.start, end: self.y.end }
    }
}

impl<T: Clone, K: Copy> Clone for GridSlice<T, K> {
    /// A view of the same window through a clone of the handle.
    fn clone(&self) -> (s: Self)
        ensures
            cloned(self.handle(), s.handle()),
            s.spec_x_range() == self.spec_x_range(),
            s.spec_y_range() == self.spec_y_range(),
    {
        Self {
            grid: self.grid.clone(),
            x: Range { start: self.x.start, end: self.x.end },
            y: Range { start: self.y.start, end: self.y.end },
        }
    }
}

impl<T, K: Coordinate> GridSlice<T, K> {
    /// The number of columns.
    pub open spec fn width(&self) -> int {
        self.spec_x_range().end.as_int() - self.spec_x_range().start.as_int()
    }

    /// The number of rows.
    pub open spec fn height(&self) -> int {
        self.spec_y_range().end.as_int() - self.spec_y_range().start.as_int()
    }

    /// Neither range ends before it starts.
    pub open spec fn ordered(&self) -> bool {
        0 <= self.width() && 0 <= self.height()
    }

    /// Whether neither range ends before it starts.
    pub fn is_ordered(&self) -> (b: bool)
        ensures
            b == self.ordered(),
    {
        !self.x.end.less(self.x.start) && !self.y.end.less(self.y.start)
    }

    /// The key, in the store, of column `col` of row `row` of the view.
    pub open spec fn key_at(&self, col: int, row: int) -> (K, K) {
        window_key(self.spec_x_range().start, self.spec_y_range().start, col, row)
    }

    /// Whether `key`, a key of the store, lies in the view's window.
    pub open spec fn contains_key(&self, key: (K, K)) -> bool {
        in_window(
            self.spec_x_range().start,
            self.spec_y_range().start,
            self.width(),
            self.height(),
            key,
        )
    }

}

impl<T: IndexedStore<(K, K)>, K: Coordinate> GridSlice<T, K> {
    /// Every cell of the window may be accessed in the store.
    pub open spec fn covered(&self) -> bool {
        forall|col: int, row: int|
            0 <= col < self.width() && 0 <= row < self.height() ==> self.handle().in_domain(
                #[trigger] window_key(
                    self.spec_x_range().start,
                    self.spec_y_range().start,
                    col,
                    row,
                ),
            )
    }

    /// The element at column `col` of row `row` of the view.
    pub open spec fn at(&self, col: int, row: int) -> T::Output {
        self.handle().cell(self.key_at(col, row))
    }
}

impl<T: IndexedStore<(K, K)>, K: Coordinate> GridSlice<T, K> {
    /// Whether `other` has the same shape as this view and the same element
    /// at every position. Where either window lies in its store plays no
    /// part.
    pub open spec fn content_eq<T2: IndexedStore<(K2, K2), Output = T::Output>, K2: Coordinate>(
        &self,
        other: &GridSlice<T2, K2>,
    ) -> bool {
        &&& self.width() == other.width()
        &&& self.height() == other.height()
        &&& forall|col: int, row: int|
            0 <= col < self.width() && 0 <= row < self.height() ==> #[trigger] self.at(col, row)
                == other.at(col, row)
    }

    /// Whether `other` has the same shape as this view and, at every
    /// position, an element that the element type's `==` holds equal to
    /// this view's. Where either window lies in its store plays no part.
    pub open spec fn elements_eq<T2: IndexedStore<(K2, K2), Output = T::Output>, K2: Coordinate>(
        &self,
        other: &GridSlice<T2, K2>,
    ) -> bool where T::Output: PartialEq {
        &&& self.width() == other.width()
        &&& self.height() == other.height()
        &&& forall|col: int, row: int|
            0 <= col < self.width() && 0 <= row < self.height() ==> (#[trigger] self.at(
                col,
                row,
            )).eq_spec(&other.at(col, row))
    }

    /// Where `==` on elements is equality of values, two views are equal by
    /// `==` exactly if they have the same content.
    pub proof fn lemma_elements_eq_is_content_eq<
        T2: IndexedStore<(K2, K2), Output = T::Output>,
        K2: Coordinate,
    >(&self, other: &GridSlice<T2, K2>) where T::Output: PartialEq
        ensures
            obeys_concrete_eq::<T::Output>() ==> (self.elements_eq(other) <==> self.content_eq(
                other,
            )),
    {
        reveal(obeys_concrete_eq);
        if obeys_concrete_eq::<T::Output>() {
            if self.elements_eq(other) {
                assert forall|col: int, row: int|
                    0 <= col < self.width() && 0 <= row < self.height() implies #[trigger] self.at(
                    col,
                    row,
                ) == other.at(col, row) by {
                    assert(self.at(col, row).eq_spec(&other.at(col, row)));
                }
            }
            if self.content_eq(other) {
                assert forall|col: int, row: int|
                    0 <= col < self.width() && 0 <= row < self.height() implies (#[trigger] self.at(
                    col,
                    row,
                )).eq_spec(&other.at(col, row)) by {
                    assert(self.at(col, row) == other.at(col, row));
                }
            }
        }
    }

    /// Whether every cell of the window may be accessed in the store.
    pub fn is_covered(&self) -> (b: bool)
        requires
            self.ordered(),
        ensures
            b == self.covered(),
    {
        let ghost w = self.width();
        let ghost h = self.height();
        let mut y = self.y.start;
        let ghost mut row: int = 0;
        proof {
            self.y.end.lemma_as_int();
            self.x.end.lemma_as_int();
        }
        while y.less(self.y.end)
            invariant
                w == self.width(),
                h == self.height(),
                0 <= row <= h,
                0 <= w,
                y.as_int() == self.y.start.as_int() + row,
                self.y.end.as_int() <= K::highest(),
                self.x.end.as_int() <= K::highest(),
                forall|c: int, r: int|
                    0 <= c < w && 0 <= r < row ==> self.handle().in_domain(
                        #[trigger] window_key(self.x.start, self.y.start, c, r),
                    ),
            decreases h - row,
        {
            let mut x = self.x.start;
            let ghost mut col: int = 0;
            while x.less(self.x.end)
                invariant
                    w == self.width(),
                    h == self.height(),
                    0 <= row < h,
                    0 <= col <= w,
                    y.as_int() == self.y.start.as_int() + row,
                    x.as_int() == self.x.start.as_int() + col,
                    self.x.end.as_int() <= K::highest(),
                    forall|c: int, r: int|
                        0 <= c < w && 0 <= r < row ==> self.handle().in_domain(
                            #[trigger] window_key(self.x.start, self.y.start, c, r),
                        ),
                    forall|c: int|
                        0 <= c < col ==> self.handle().in_domain(
                            #[trigger] window_key(self.x.start, self.y.start, c, row),
                        ),
                decreases w - col,
            {
                proof {
                    x.lemma_as_int();
                    y.lemma_as_int();
                    assert(window_key(self.x.start, self.y.start, col, row) == (x, y));
                }
                if !self.grid.accessible((x, y)) {
                    return false;
                }
                x = x.successor();
                proof {
                    col = col + 1;
                }
            }
            y = y.successor();
            proof {
                row = row + 1;
            }
        }
        true
    }

    /// Create a traversal of the slice's elements: row by row, each row from
    /// its first column to its last.
    pub fn iter(&self) -> (out: Vec<&T::Output>)
        requires
            self.wf(),
            self.covered(),
            self.width() * self.height() <= usize::MAX,
        ensures
            out@.len() == self@.len(),
            forall|i: int| 0 <= i < out@.len() ==> *#[trigger] out@[i] == self@[i],
    {
        let pairs = self.iter_indices();
        let mut out: Vec<&T::Output> = Vec::new();
        for i in 0..pairs.len()
            invariant
                pairs@.len() == self@.len(),
                forall|j: int| 0 <= j < pairs@.len() ==> *(#[trigger] pairs@[j]).1 == self@[j],
                out@.len() == i,
                forall|j: int| 0 <= j < i ==> *#[trigger] out@[j] == self@[j],
        {
            out.push(pairs[i].1);
        }
        out
    }

    /// Create a traversal of the slice's elements, each with its key in the
    /// store, in the order of [`Self::iter`].
    pub fn iter_indices(&self) -> (out: Vec<((K, K), &T::Output)>)
        requires
            self.wf(),
            self.covered(),
            self.width() * self.height() <= usize::MAX,
        ensures
            out@.len() == self@.len(),
            forall|i: int|
                0 <= i < out@.len() ==> {
                    &&& (#[trigger] out@[i]).0 == self.key_at(i % self.width(), i / self.width())
                    &&& *out@[i].1 == self@[i]
                },
    {
        let ghost w = self.width();
        let ghost h = self.height();
        let mut out: Vec<((K, K), &T::Output)> = Vec::new();
        let mut y = self.y.start;
        let ghost mut row: int = 0;
        proof {
            self.y.end.lemma_as_int();
            self.x.end.lemma_as_int();
            assert(0 * w == 0) by (nonlinear_arith);
        }
        while y.less(self.y.end)
            invariant
                self.wf(),
                self.covered(),
                w == self.width(),
                h == self.height(),
                0 <= row <= h,
                y.as_int() == self.y.start.as_int() + row,
                self.y.end.as_int() <= K::highest(),
                self.x.end.as_int() <= K::highest(),
                out@.len() == row * w,
                forall|i: int|
                    0 <= i < out@.len() ==> {
                        &&& (#[trigger] out@[i]).0 == self.key_at(i % w, i / w)
                        &&& *out@[i].1 == self.at(i % w, i / w)
                    },
            decreases h - row,
        {
            let mut x = self.x.start;
            let ghost mut col: int = 0;
            while x.less(self.x.end)
                invariant
                    self.wf(),
                    self.covered(),
                    w == self.width(),
                    h == self.height(),
                    0 <= row < h,
                    0 <= col <= w,
                    y.as_int() == self.y.start.as_int() + row,
                    x.as_int() == self.x.start.as_int() + col,
                    self.x.end.as_int() <= K::highest(),
                    out@.len() == row * w + col,
                    forall|i: int|
                        0 <= i < out@.len() ==> {
                            &&& (#[trigger] out@[i]).0 == self.key_at(i % w, i / w)
                            &&& *out@[i].1 == self.at(i % w, i / w)
                        },
                decreases w - col,
            {
                proof {
                    x.lemma_as_int();
                    y.lemma_as_int();
                    assert(self.key_at(col, row) == (x, y));
                    lemma_traversal_index(col, row, w, h);
                }
                out.push(((x, y), self.grid.index((x, y))));
                x = x.successor();
                proof {
                    col = col + 1;
                }
            }
            y = y.successor();
            proof {
                assert((row + 1) * w == row * w + w) by (nonlinear_arith);
                row = row + 1;
            }
        }
        proof {
            assert(h * w == w * h && 0 <= w * h) by (nonlinear_arith)
                requires
                    0 <= w,
                    0 <= h,
            ;
        }
        out
    }

    /// Whether the two views have the same shape and equal elements at every
    /// position, compared with the element type's `==` in the order of
    /// traversal. Where `==` is equality of values, that is equality of
    /// content.
    pub fn eq<T2: IndexedStore<(K2, K2), Output = T::Output>, K2: Coordinate>(
        &self,
        other: &GridSlice<T2, K2>,
    ) -> (b: bool) where T::Output: PartialEq
        requires
            self.wf(),
            self.covered(),
            other.wf(),
            other.covered(),
        ensures
            <T::Output>::obeys_eq_spec() ==> b == self.elements_eq(other),
            obeys_concrete_eq::<T::Output>() ==> b == self.content_eq(other),
            b ==> self.width() == other.width() && self.height() == other.height(),
    {
        let ghost obeys = <T::Output>::obeys_eq_spec();
        let ghost w = self.width();
        let ghost h = self.height();
        proof {
            self.lemma_elements_eq_is_content_eq(other);
            assert(obeys_concrete_eq::<T::Output>() ==> obeys) by {
                reveal(obeys_concrete_eq);
            }
        }
        if self.x.start.distance(self.x.end) != other.x.start.distance(other.x.end)
            || self.y.start.distance(self.y.end) != other.y.start.distance(other.y.end) {
            return false;
        }
        let mut y1 = self.y.start;
        let mut y2 = other.y.start;
        let ghost mut row: int = 0;
        proof {
            self.y.end.lemma_as_int();
            self.x.end.lemma_as_int();
            other.y.end.lemma_as_int();
            other.x.end.lemma_as_int();
        }
        while y1.less(self.y.end)
            invariant
                self.wf(),
                self.covered(),
                other.wf(),
                other.covered(),
                w == self.width(),
                h == self.height(),
                w == other.width(),
                h == other.height(),
                0 <= row <= h,
                y1.as_int() == self.y.start.as_int() + row,
                y2.as_int() == other.y.start.as_int() + row,
                self.y.end.as_int() <= K::highest(),
                self.x.end.as_int() <= K::highest(),
                other.y.end.as_int() <= K2::highest(),
                other.x.end.as_int() <= K2::highest(),
                obeys == <T::Output>::obeys_eq_spec(),
                obeys_concrete_eq::<T::Output>() ==> obeys,
                obeys_concrete_eq::<T::Output>() ==> (self.elements_eq(other) <==> self.content_eq(
                    other,
                )),
                obeys ==> forall|c: int, r: int|
                    0 <= c < w && 0 <= r < row ==> (#[trigger] self.at(c, r)).eq_spec(
                        &other.at(c, r),
                    ),
            decreases h - row,
        {
            let mut x1 = self.x.start;
            let mut x2 = other.x.start;
            let ghost mut col: int = 0;
            while x1.less(self.x.end)
                invariant
                    self.wf(),
                    self.covered(),
                    other.wf(),
                    other.covered(),
                    w == self.width(),
                    h == self.height(),
                    w == other.width(),
                    h == other.height(),
                    0 <= row < h,
                    0 <= col <= w,
                    y1.as_int() == self.y.start.as_int() + row,
                    y2.as_int() == other.y.start.as_int() + row,
                    x1.as_int() == self.x.start.as_int() + col,
                    x2.as_int() == other.x.start.as_int() + col,
                    self.x.end.as_int() <= K::highest(),
                    other.x.end.as_int() <= K2::highest(),
                    obeys == <T::Output>::obeys_eq_spec(),
                    obeys_concrete_eq::<T::Output>() ==> obeys,
                    obeys_concrete_eq::<T::Output>() ==> (self.elements_eq(other)
                        <==> self.content_eq(other)),
                    obeys ==> forall|c: int, r: int|
                        0 <= c < w && 0 <= r < row ==> (#[trigger] self.at(c, r)).eq_spec(
                            &other.at(c, r),
                        ),
                    obeys ==> forall|c: int|
                        0 <= c < col ==> (#[trigger] self.at(c, row)).eq_spec(&other.at(c, row)),
                decreases w - col,
            {
                proof {
                    x1.lemma_as_int();
                    y1.lemma_as_int();
                    x2.lemma_as_int();
                    y2.lemma_as_int();
                    assert(self.key_at(col, row) == (x1, y1));
                    assert(other.key_at(col, row) == (x2, y2));
                }
                let a = self.grid.index((x1, y1));
                let b = other.grid.index((x2, y2));
                if !(*a == *b) {
                    assert(obeys ==> !self.at(col, row).eq_spec(&other.at(col, row)));
                    return false;
                }
                x1 = x1.successor();
                x2 = x2.successor();
                proof {
                    col = col + 1;
                }
            }
            y1 = y1.successor();
            y2 = y2.successor();
            proof {
                row = row + 1;
            }
        }
        true
    }
}

impl<T: IndexedStore<(K, K)>, K: Coordinate> GridSlice<T, K> {
    /// A view has the same content as itself.
    pub proof fn lemma_content_eq_reflexive(&self)
        ensures
            self.content_eq(self),
    {
    }

    /// If a view has the same content as another, the other has the same
    /// content as it.
    pub proof fn lemma_content_eq_symmetric<
        T2: IndexedStore<(K2, K2), Output = T::Output>,
        K2: Coordinate,
    >(
        &self,
        other: &GridSlice<T2, K2>,
    )
        requires
            self.content_eq(other),
        ensures
            other.content_eq(self),
    {
    }

    /// Two views with the same content as a third have the same content.
    pub proof fn lemma_content_eq_transitive<
        T2: IndexedStore<(K2, K2), Output = T::Output>,
        K2: Coordinate,
        T3: IndexedStore<(K3, K3), Output = T::Output>,
        K3: Coordinate,
    >(&self, second: &GridSlice<T2, K2>, third: &GridSlice<T3, K3>)
        requires
            self.content_eq(second),
            second.content_eq(third),
        ensures
            self.content_eq(third),
    {
    }

    /// Where a window lies plays no part in equality: two windows of one
    /// shape, wherever they start and whatever stores they look into, have
    /// the same content if the stores agree cell by cell across the two
    /// windows.
    pub proof fn lemma_content_eq_ignores_position<
        T2: IndexedStore<(K2, K2), Output = T::Output>,
        K2: Coordinate,
    >(
        &self,
        other: &GridSlice<T2, K2>,
    )
        requires
            self.width() == other.width(),
            self.height() == other.height(),
            forall|col: int, row: int|
                0 <= col < self.width() && 0 <= row < self.height() ==> self.handle().cell(
                    #[trigger] window_key(
                        self.spec_x_range().start,
                        self.spec_y_range().start,
                        col,
                        row,
                    ),
                ) == other.handle().cell(
                    window_key(other.spec_x_range().start, other.spec_y_range().start, col, row),
                ),
        ensures
            self.content_eq(other),
    {
        assert forall|col: int, row: int|
            0 <= col < self.width() && 0 <= row < self.height() implies #[trigger] self.at(
            col,
            row,
        ) == other.at(col, row) by {
            assert(self.key_at(col, row) == window_key(
                self.spec_x_range().start,
                self.spec_y_range().start,
                col,
                row,
            ));
        }
    }

    /// Where `==` holds every element equal to itself, it holds a view
    /// equal to itself.
    pub proof fn lemma_elements_eq_reflexive(&self) where T::Output: PartialEq
        requires
            forall|x: T::Output| #[trigger] x.eq_spec(&x),
        ensures
            self.elements_eq(self),
    {
    }

    /// Where `==` on elements is symmetric, so is `==` on views.
    pub proof fn lemma_elements_eq_symmetric<
        T2: IndexedStore<(K2, K2), Output = T::Output>,
        K2: Coordinate,
    >(&self, other: &GridSlice<T2, K2>) where T::Output: PartialEq
        requires
            forall|x: T::Output, y: T::Output| #[trigger] x.eq_spec(&y) ==> y.eq_spec(&x),
            self.elements_eq(other),
        ensures
            other.elements_eq(self),
    {
        assert forall|col: int, row: int|
            0 <= col < other.width() && 0 <= row < other.height() implies (#[trigger] other.at(
            col,
            row,
        )).eq_spec(&self.at(col, row)) by {
            assert(self.at(col, row).eq_spec(&other.at(col, row)));
        }
    }

    /// Where `==` on elements is transitive, so is `==` on views.
    pub proof fn lemma_elements_eq_transitive<
        T2: IndexedStore<(K2, K2), Output = T::Output>,
        K2: Coordinate,
        T3: IndexedStore<(K3, K3), Output = T::Output>,
        K3: Coordinate,
    >(&self, second: &GridSlice<T2, K2>, third: &GridSlice<T3, K3>) where T::Output: PartialEq
        requires
            forall|x: T::Output, y: T::Output, z: T::Output|
                #[trigger] x.eq_spec(&y) && #[trigger] y.eq_spec(&z) ==> x.eq_spec(&z),
            self.elements_eq(second),
            second.elements_eq(third),
        ensures
            self.elements_eq(third),
    {
        assert forall|col: int, row: int|
            0 <= col < self.width() && 0 <= row < self.height() implies (#[trigger] self.at(
            col,
            row,
        )).eq_spec(&third.at(col, row)) by {
            assert(self.at(col, row).eq_spec(&second.at(col, row)));
            assert(second.at(col, row).eq_spec(&third.at(col, row)));
        }
    }

    /// Where a window lies plays no part in `==` either: two windows of one
    /// shape, wherever they start and whatever stores they look into, are
    /// equal if `==` holds the stores' cells equal position by position
    /// across the two windows.
    pub proof fn lemma_elements_eq_ignores_position<
        T2: IndexedStore<(K2, K2), Output = T::Output>,
        K2: Coordinate,
    >(&self, other: &GridSlice<T2, K2>) where T::Output: PartialEq
        requires
            self.width() == other.width(),
            self.height() == other.height(),
            forall|col: int, row: int|
                0 <= col < self.width() && 0 <= row < self.height() ==> self.handle().cell(
                    #[trigger] window_key(
                        self.spec_x_range().start,
                        self.spec_y_range().start,
                        col,
                        row,
                    ),
                ).eq_spec(
                    &other.handle().cell(
                        window_key(
                            other.spec_x_range().start,
                            other.spec_y_range().start,
                            col,
                            row,
                        ),
                    ),
                ),
        ensures
            self.elements_eq(other),
    {
        assert forall|col: int, row: int|
            0 <= col < self.width() && 0 <= row < self.height() implies (#[trigger] self.at(
            col,
            row,
        )).eq_spec(&other.at(col, row)) by {
            assert(self.key_at(col, row) == window_key(
                self.spec_x_range().start,
                self.spec_y_range().start,
                col,
                row,
            ));
        }
    }

    /// Two views have the same content exactly if they have the same shape
    /// and their traversals give the same sequence of elements.
    pub proof fn lemma_content_eq_is_traversal_eq<
        T2: IndexedStore<(K2, K2), Output = T::Output>,
        K2: Coordinate,
    >(
        &self,
        other: &GridSlice<T2, K2>,
    )
        requires
            self.ordered(),
            other.ordered(),
        ensures
            self.content_eq(other) <==> (self.width() == other.width() && self.height()
                == other.height() && self@ == other@),
    {
        let w = self.width();
        let h = self.height();
        if self.content_eq(other) {
            assert forall|i: int| 0 <= i < self@.len() implies self@[i] == other@[i] by {
                lemma_traversal_cell(i, w, h);
            }
            assert(self@ =~= other@);
        }
        if w == other.width() && h == other.height() && self@ == other@ {
            assert forall|col: int, row: int|
                0 <= col < w && 0 <= row < h implies #[trigger] self.at(col, row) == other.at(
                col,
                row,
            ) by {
                lemma_traversal_index(col, row, w, h);
                let i = traversal_index(col, row, w);
                assert(other@[i] == other.at(col, row));
            }
        }
    }
}

/// A view is itself a store, read at positions counted from its origin.
impl<T: IndexedStore<(K, K)>, K: Coordinate> IndexedStore<(K, K)> for GridSlice<T, K> {
    type Output = T::Output;

    /// The view's invariant: its store is well formed and its ranges are
    /// ordered.
    open spec fn wf(&self) -> bool {
        self.handle().wf() && self.ordered()
    }

    /// The view's ranges are ordered, the position can be added to the
    /// view's origin, and the store may be accessed at the key this gives.
    /// The position need not lie inside the window.
    open spec fn in_domain(&self, key: (K, K)) -> bool {
        &&& self.ordered()
        &&& K::lowest() <= self.spec_x_range().start.as_int() + key.0.as_int() <= K::highest()
        &&& K::lowest() <= self.spec_y_range().start.as_int() + key.1.as_int() <= K::highest()
        &&& self.handle().in_domain(self.key_at(key.0.as_int(), key.1.as_int()))
    }

    open spec fn cell(&self, key: (K, K)) -> T::Output {
        self.at(key.0.as_int(), key.1.as_int())
    }

    fn accessible(&self, key: (K, K)) -> (b: bool) {
        if !self.is_ordered() {
            return false;
        }
        match (self.x.start.checked_shifted(key.0), self.y.start.checked_shifted(key.1)) {
            (Some(x), Some(y)) => {
                proof {
                    x.lemma_as_int();
                    y.lemma_as_int();
                }
                self.grid.accessible((x, y))
            },
            _ => false,
        }
    }

    fn index(&self, key: (K, K)) -> (r: &T::Output) {
        self.grid.index(self.store_key(key))
    }
}

/// What copying the window `source` into the window of equal shape at
/// `(x0, y0)` makes of the store `before`: every cell of the window is a
/// clone of the source's cell at the same position, and every other cell of
/// the store is as it was.
pub open spec fn is_window_copy<S, T2, K, K2>(
    before: S,
    after: S,
    x0: K,
    y0: K,
    source: &GridSlice<T2, K2>,
) -> bool where
    S: IndexedStoreMut<(K, K)>,
    T2: IndexedStore<(K2, K2), Output = S::Output>,
    S::Output: Clone,
    K: Coordinate,
    K2: Coordinate,
 {
    &&& after.wf()
    &&& forall|k: (K, K)| #[trigger] after.in_domain(k) == before.in_domain(k)
    &&& forall|col: int, row: int|
        0 <= col < source.width() && 0 <= row < source.height() ==> cloned(
            source.at(col, row),
            #[trigger] after.cell(window_key(x0, y0, col, row)),
        )
    &&& forall|k: (K, K)|
        before.in_domain(k) && !in_window(x0, y0, source.width(), source.height(), k)
            ==> #[trigger] after.cell(k) == before.cell(k)
}

/// Copies the window `source` into the window of equal shape of `dst` whose
/// origin is `(x0, y0)`, cell by cell.
fn copy_window<S, T2, K, K2>(
    dst: &mut S,
    x: &Range<K>,
    y: &Range<K>,
    source: &GridSlice<T2, K2>,
) where
    S: IndexedStoreMut<(K, K)>,
    T2: IndexedStore<(K2, K2), Output = S::Output>,
    S::Output: Clone,
    K: Coordinate,
    K2: Coordinate,

    requires
        old(dst).wf(),
        source.wf(),
        source.covered(),
        source.width() == x.end.as_int() - x.start.as_int(),
        source.height() == y.end.as_int() - y.start.as_int(),
        forall|col: int, row: int|
            0 <= col < source.width() && 0 <= row < source.height() ==> old(dst).in_domain(
                #[trigger] window_key(x.start, y.start, col, row),
            ),
    ensures
        is_window_copy(*old(dst), *final(dst), x.start, y.start, source),
{
    let x0 = x.start;
    let y0 = y.start;
    let ghost w = source.width();
    let ghost h = source.height();
    proof {
        x.end.lemma_as_int();
        y.end.lemma_as_int();
    }
    let mut y1 = y0;
    let mut y2 = source.y.start;
    let ghost mut row: int = 0;
    proof {
        source.y.end.lemma_as_int();
        source.x.end.lemma_as_int();
        x0.lemma_as_int();
        y0.lemma_as_int();
    }
    while y2.less(source.y.end)
        invariant
            dst.wf(),
            source.wf(),
            source.covered(),
            w == source.width(),
            h == source.height(),
            0 <= row <= h,
            y1.as_int() == y0.as_int() + row,
            y2.as_int() == source.y.start.as_int() + row,
            K::lowest() <= x0.as_int(),
            K::lowest() <= y0.as_int(),
            x0.as_int() + w <= K::highest(),
            y0.as_int() + h <= K::highest(),
            source.y.end.as_int() <= K2::highest(),
            source.x.end.as_int() <= K2::highest(),
            forall|k: (K, K)| #[trigger] dst.in_domain(k) == old(dst).in_domain(k),
            forall|col: int, row: int|
                0 <= col < w && 0 <= row < h ==> old(dst).in_domain(
                    #[trigger] window_key(x0, y0, col, row),
                ),
            forall|c: int, r: int|
                0 <= c < w && 0 <= r < row ==> cloned(
                    source.at(c, r),
                    #[trigger] dst.cell(window_key(x0, y0, c, r)),
                ),
            forall|k: (K, K)|
                old(dst).in_domain(k) && !in_window(x0, y0, w, row, k) ==> #[trigger] dst.cell(k)
                    == old(dst).cell(k),
        decreases h - row,
    {
        let mut x1 = x0;
        let mut x2 = source.x.start;
        let ghost mut col: int = 0;
        while x2.less(source.x.end)
            invariant
                dst.wf(),
                source.wf(),
                source.covered(),
                w == source.width(),
                h == source.height(),
                0 <= row < h,
                0 <= col <= w,
                y1.as_int() == y0.as_int() + row,
                y2.as_int() == source.y.start.as_int() + row,
                x1.as_int() == x0.as_int() + col,
                x2.as_int() == source.x.start.as_int() + col,
                K::lowest() <= x0.as_int(),
                K::lowest() <= y0.as_int(),
                x0.as_int() + w <= K::highest(),
                y0.as_int() + h <= K::highest(),
                source.x.end.as_int() <= K2::highest(),
                forall|k: (K, K)| #[trigger] dst.in_domain(k) == old(dst).in_domain(k),
                forall|col: int, row: int|
                    0 <= col < w && 0 <= row < h ==> old(dst).in_domain(
                        #[trigger] window_key(x0, y0, col, row),
                    ),
                forall|c: int, r: int|
                    0 <= c < w && 0 <= r < row ==> cloned(
                        source.at(c, r),
                        #[trigger] dst.cell(window_key(x0, y0, c, r)),
                    ),
                forall|c: int|
                    0 <= c < col ==> cloned(
                        source.at(c, row),
                        #[trigger] dst.cell(window_key(x0, y0, c, row)),
                    ),
                forall|k: (K, K)|
                    old(dst).in_domain(k) && !in_window(x0, y0, w, row, k) && !(k.1.as_int()
                        == y1.as_int() && 0 <= k.0.as_int() - x0.as_int() < col)
                        ==> #[trigger] dst.cell(k) == old(dst).cell(k),
            decreases w - col,
        {
            let ghost mid = *dst;
            proof {
                x1.lemma_as_int();
                y1.lemma_as_int();
                x2.lemma_as_int();
                y2.lemma_as_int();
                assert(window_key(x0, y0, col, row) == (x1, y1));
                assert(source.key_at(col, row) == (x2, y2));
            }
            let value = source.grid.index((x2, y2)).clone();
            *dst.index_mut((x1, y1)) = value;
            proof {
                assert forall|c: int, r: int| 0 <= c < w && 0 <= r < row implies cloned(
                    source.at(c, r),
                    #[trigger] dst.cell(window_key(x0, y0, c, r)),
                ) by {
                    K::lemma_of_int(x0.as_int() + c);
                    K::lemma_of_int(y0.as_int() + r);
                    assert(mid.in_domain(window_key(x0, y0, c, r)) == old(dst).in_domain(
                        window_key(x0, y0, c, r),
                    ));
                }
                assert forall|c: int| 0 <= c < col + 1 implies cloned(
                    source.at(c, row),
                    #[trigger] dst.cell(window_key(x0, y0, c, row)),
                ) by {
                    K::lemma_of_int(x0.as_int() + c);
                    K::lemma_of_int(y0.as_int() + row);
                    assert(mid.in_domain(window_key(x0, y0, c, row)) == old(dst).in_domain(
                        window_key(x0, y0, c, row),
                    ));
                }
            }
            x1 = x1.successor();
            x2 = x2.successor();
            proof {
                col = col + 1;
            }
        }
        y1 = y1.successor();
        y2 = y2.successor();
        proof {
            row = row + 1;
        }
    }
}

impl<T: IndexedStore<(K, K)>, K: Coordinate> GridSlice<T, K> {
    /// What [`clone_from`](GridSlice::clone_from) asks: both views are well
    /// formed, every cell of both windows may be accessed, and the windows
    /// have the same shape.
    pub open spec fn can_copy_from<T2, K2>(&self, source: &GridSlice<T2, K2>) -> bool where
        T2: IndexedStore<(K2, K2), Output = T::Output>,
        K2: Coordinate,
     {
        &&& self.wf()
        &&& self.covered()
        &&& source.wf()
        &&& source.covered()
        &&& source.width() == self.width()
        &&& source.height() == self.height()
    }

    /// What [`clone_from`](GridSlice::clone_from) makes of the view `before`:
    /// the same window on the same store, the store changed by the copy.
    pub open spec fn is_copy_of<S, T2, K2>(
        &self,
        before: &Self,
        store_before: S,
        store_after: S,
        source: &GridSlice<T2, K2>,
    ) -> bool where
        S: IndexedStoreMut<(K, K), Output = T::Output>,
        T2: IndexedStore<(K2, K2), Output = T::Output>,
        T::Output: Clone,
        K2: Coordinate,
     {
        &&& self.spec_x_range() == before.spec_x_range()
        &&& self.spec_y_range() == before.spec_y_range()
        &&& is_window_copy(
            store_before,
            store_after,
            before.spec_x_range().start,
            before.spec_y_range().start,
            source,
        )
    }
}

impl<S: ImplIndexForRef<(K, K)>, K: Coordinate> GridSlice<S, K> {
    /// Copy elements from other slice of same size: the element at each
    /// position of `source` is cloned into the same position of this view.
    /// Nothing outside this view's window changes.
    pub fn clone_from<T2, K2>(&mut self, source: &GridSlice<T2, K2>) where
        T2: IndexedStore<(K2, K2), Output = S::Output>,
        S::Output: Clone,
        K2: Coordinate,

        requires
            old(self).can_copy_from(source),
        ensures
            final(self).is_copy_of(old(self), old(self).handle(), final(self).handle(), source),
            final(self).wf(),
            final(self).covered(),
            clone_is_copy::<S::Output>() ==> final(self).content_eq(source),
    {
        copy_window(&mut self.grid, &self.x, &self.y, source);
    }
}

impl<S: ImplIndexForRef<(K, K)>, K: Coordinate> GridSlice<IndexForRef<S, S>, K> {
    /// Copy elements from other slice of same size: the element at each
    /// position of `source` is cloned into the same position of this view.
    /// Nothing outside this view's window changes.
    pub fn clone_from<T2, K2>(&mut self, source: &GridSlice<T2, K2>) where
        T2: IndexedStore<(K2, K2), Output = S::Output>,
        S::Output: Clone,
        K2: Coordinate,

        requires
            old(self).can_copy_from(source),
        ensures
            final(self).is_copy_of(
                old(self),
                old(self).handle().inner(),
                final(self).handle().inner(),
                source,
            ),
            final(self).wf(),
            final(self).covered(),
            clone_is_copy::<S::Output>() ==> final(self).content_eq(source),
    {
        copy_window(self.grid.get_mut(), &self.x, &self.y, source);
    }
}

impl<'a, S: ImplIndexForRef<(K, K)>, K: Coordinate> GridSlice<IndexForRef<&'a mut S, S>, K> {
    /// Copy elements from other slice of same size: the element at each
    /// position of `source` is cloned into the same position of this view.
    /// Nothing outside this view's window changes, and the view goes on
    /// borrowing the same store.
    pub fn clone_from<T2, K2>(&mut self, source: &GridSlice<T2, K2>) where
        T2: IndexedStore<(K2, K2), Output = S::Output>,
        S::Output: Clone,
        K2: Coordinate,

        requires
            old(self).can_copy_from(source),
        ensures
            final(self).is_copy_of(
                old(self),
                *old(self).handle().inner(),
                *final(self).handle().inner(),
                source,
            ),
            final(self).wf(),
            final(self).covered(),
            clone_is_copy::<S::Output>() ==> final(self).content_eq(source),
            *final(final(self).handle().inner()) == *final(old(self).handle().inner()),
    {
        copy_window(self.grid.get_mut(), &self.x, &self.y, source);
    }
}

impl<T: IndexedStore<(K, K)>, K: Coordinate> GridSlice<T, K> {
    /// Two positions of a view that can be accessed reach two cells of the
    /// store, unless they are one position.
    pub proof fn lemma_positions_apart(&self, a: (K, K), b: (K, K))
        requires
            self.in_domain(a),
            self.in_domain(b),
            a != b,
        ensures
            self.key_at(a.0.as_int(), a.1.as_int()) != self.key_at(b.0.as_int(), b.1.as_int()),
    {
        K::lemma_of_int(self.spec_x_range().start.as_int() + a.0.as_int());
        K::lemma_of_int(self.spec_y_range().start.as_int() + a.1.as_int());
        K::lemma_of_int(self.spec_x_range().start.as_int() + b.0.as_int());
        K::lemma_of_int(self.spec_y_range().start.as_int() + b.1.as_int());
        a.0.lemma_as_int();
        a.1.lemma_as_int();
        b.0.lemma_as_int();
        b.1.lemma_as_int();
    }

    /// The key in the store of the position `key` of the view.
    fn store_key(&self, key: (K, K)) -> (k: (K, K))
        requires
            self.in_domain(key),
        ensures
            k == self.key_at(key.0.as_int(), key.1.as_int()),
            forall|other: (K, K)|
                other != key && self.in_domain(other) ==> #[trigger] self.key_at(
                    other.0.as_int(),
                    other.1.as_int(),
                ) != k,
    {
        let x = self.x.start.shifted(key.0);
        let y = self.y.start.shifted(key.1);
        proof {
            x.lemma_as_int();
            y.lemma_as_int();
            assert forall|other: (K, K)|
                other != key && self.in_domain(other) implies #[trigger] self.key_at(
                other.0.as_int(),
                other.1.as_int(),
            ) != (x, y) by {
                self.lemma_positions_apart(other, key);
            }
        }
        (x, y)
    }
}

/// A view that holds its store itself can be written at positions counted
/// from its origin. The write is a write to the store at the key of the
/// position: no other cell of the store changes, inside the window or
/// outside it.
impl<S: ImplIndexForRef<(K, K)>, K: Coordinate> IndexedStoreMut<(K, K)> for GridSlice<S, K> {
    fn index_mut(&mut self, key: (K, K)) -> (r: &mut S::Output)
        ensures
            final(self).spec_x_range() == old(self).spec_x_range(),
            final(self).spec_y_range() == old(self).spec_y_range(),
            is_write(
                old(self).handle(),
                final(self).handle(),
                old(self).key_at(key.0.as_int(), key.1.as_int()),
                *final(r),
            ),
    {
        let k = self.store_key(key);
        self.grid.index_mut(k)
    }
}

/// A view that holds its store itself is a store that views can look into.
impl<S: ImplIndexForRef<(K, K)>, K: Coordinate> ImplIndexForRef<(K, K)> for GridSlice<S, K> {
}

/// A view that owns its store through a handle can be written at positions
/// counted from its origin. The write is a write to the store at the key of
/// the position: no other cell of the store changes, inside the window or
/// outside it.
impl<S: ImplIndexForRef<(K, K)>, K: Coordinate> IndexedStoreMut<(K, K)> for GridSlice<
    IndexForRef<S, S>,
    K,
> {
    fn index_mut(&mut self, key: (K, K)) -> (r: &mut S::Output)
        ensures
            final(self).spec_x_range() == old(self).spec_x_range(),
            final(self).spec_y_range() == old(self).spec_y_range(),
            is_write(
                old(self).handle().inner(),
                final(self).handle().inner(),
                old(self).key_at(key.0.as_int(), key.1.as_int()),
                *final(r),
            ),
    {
        broadcast use lemma_write_through_owner;

        let k = self.store_key(key);
        self.grid.index_mut(k)
    }
}

/// A view that borrows its store exclusively can be written at positions
/// counted from its origin, and goes on borrowing the same store. The write
/// is a write to the store at the key of the position: no other cell of the
/// store changes, inside the window or outside it.
impl<'a, S: ImplIndexForRef<(K, K)>, K: Coordinate> IndexedStoreMut<(K, K)> for GridSlice<
    IndexForRef<&'a mut S, S>,
    K,
> {
    fn index_mut(&mut self, key: (K, K)) -> (r: &mut S::Output)
        ensures
            final(self).spec_x_range() == old(self).spec_x_range(),
            final(self).spec_y_range() == old(self).spec_y_range(),
            is_write(
                *old(self).handle().inner(),
                *final(self).handle().inner(),
                old(self).key_at(key.0.as_int(), key.1.as_int()),
                *final(r),
            ),
            *final(final(self).handle().inner()) == *final(old(self).handle().inner()),
    {
        broadcast use lemma_write_through_borrow;

        let k = self.store_key(key);
        self.grid.index_mut(k)
    }
}

/// A kind of grid that can be built from the elements of a view.
pub trait FromGridSlice<K: Coordinate, I: Clone>: Sized {
    /// Whether a grid of this kind can hold a window of `width` by `height`
    /// cells.
    spec fn can_hold(width: int, height: int) -> bool;

    /// The grid is a well-formed grid that holds a window of `width` by
    /// `height` cells and nothing else.
    spec fn holds_window(&self, width: int, height: int) -> bool;

    /// The grid's element at column `col` of row `row`.
    spec fn element(&self, col: int, row: int) -> I;

    /// Builds a grid whose cell at each position is a clone of the view's
    /// element at that position.
    fn from_slice<T>(slice: &GridSlice<T, K>) -> (grid: Self) where
        T: IndexedStore<(K, K), Output = I>,

        requires
            slice.wf(),
            slice.covered(),
            Self::can_hold(slice.width(), slice.height()),
        ensures
            grid.holds_window(slice.width(), slice.height()),
            forall|col: int, row: int|
                0 <= col < slice.width() && 0 <= row < slice.height() ==> cloned(
                    slice.at(col, row),
                    #[trigger] grid.element(col, row),
                ),
    ;
}

impl<T: IndexedStore<(K, K)>, K: Coordinate> GridSlice<T, K> where T::Output: Clone {
    /// Create new grid owning copies of slice elements
    pub fn clone_into<X: FromGridSlice<K, T::Output>>(&self) -> (grid: X)
        requires
            self.wf(),
            self.covered(),
            X::can_hold(self.width(), self.height()),
        ensures
            grid.holds_window(self.width(), self.height()),
            forall|col: int, row: int|
                0 <= col < self.width() && 0 <= row < self.height() ==> cloned(
                    self.at(col, row),
                    #[trigger] grid.element(col, row),
                ),
            clone_is_copy::<T::Output>() ==> forall|col: int, row: int|
                0 <= col < self.width() && 0 <= row < self.height() ==> #[trigger] grid.element(
                    col,
                    row,
                ) == self.at(col, row),
    {
        X::from_slice(self)
    }
}

/// Once a view that borrows its store exclusively is no longer used, the
/// store is left as the view last saw it.
pub broadcast proof fn lemma_slice_resolved<'a, S, K>(s: GridSlice<IndexForRef<&'a mut S, S>, K>)
    ensures
        #[trigger] has_resolved(s) ==> has_resolved(s.handle()),
{
}

/// What verified code needs in scope to learn, once a view that borrows its
/// store exclusively is done with, what has become of the store.
pub broadcast group group_view_resolved {
    lemma_slice_resolved,
    crate::auto_index_impl::lemma_handle_resolved,
}

impl<T: IndexedStore<(K, K)>, K: Coordinate> View for GridSlice<T, K> {
    type V = Seq<T::Output>;

    /// The view's elements in the order of traversal: row by row, each row
    /// from its first column to its last.
    open spec fn view(&self) -> Seq<T::Output> {
        Seq::new(
            (self.width() * self.height()) as nat,
            |i: int| self.at(i % self.width(), i / self.width()),
        )
    }
}

} // verus!
