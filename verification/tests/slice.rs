use grid::auto_index_impl::{IndexForRef, IndexedStore, IndexedStoreMut};
use grid::bounded_grid::Grid;
use grid::infinite_grid::InfiniteGrid;
use grid::slice::GridSlice;

fn sample() -> Grid<i32> {
    let mut grid: Grid<i32> = Grid::new((6, 5), 0);
    let mut n = 0;
    for y in 0..5 {
        for x in 0..6 {
            *grid.index_mut((x, y)) = n;
            n += 1;
        }
    }
    grid
}

#[test]
fn new_keeps_the_ranges() {
    let grid = sample();
    let view: GridSlice<IndexForRef<&Grid<i32>, Grid<i32>>, usize> =
        GridSlice::new(IndexForRef::new(&grid), 1..4, 2..3);
    assert_eq!(view.x_range(), 1..4);
    assert_eq!(view.y_range(), 2..3);
    let seen: Vec<i32> = view.iter().into_iter().copied().collect();
    assert_eq!(seen, vec![13, 14, 15]);
}

#[test]
fn view_over_an_owned_store() {
    let mut view: GridSlice<IndexForRef<Grid<i32>, Grid<i32>>, usize> =
        GridSlice::new(IndexForRef::new(sample()), 2..4, 1..3);
    assert_eq!(*view.index((0, 0)), 8);
    *view.index_mut((1, 1)) = -1;
    let seen: Vec<i32> = view.iter().into_iter().copied().collect();
    assert_eq!(seen, vec![8, 9, 14, -1]);
    let other = sample();
    view.clone_from(&other.slice(0..2, 0..2));
    let seen: Vec<i32> = view.iter().into_iter().copied().collect();
    assert_eq!(seen, vec![0, 1, 6, 7]);
}

#[test]
fn iter_indices_pairs_elements_with_store_keys() {
    let grid = sample();
    let seen: Vec<((usize, usize), i32)> =
        grid.slice(4..6, 3..5).iter_indices().into_iter().map(|(k, v)| (k, *v)).collect();
    assert_eq!(seen, vec![((4, 3), 22), ((5, 3), 23), ((4, 4), 28), ((5, 4), 29)]);
}

#[test]
fn iter_indices_on_negative_window() {
    let mut grid: InfiniteGrid<u8> = InfiniteGrid::new();
    *grid.index_mut((-1, 0)) = 2;
    let seen: Vec<((i32, i32), u8)> =
        grid.slice(-2..0, -1..1).iter_indices().into_iter().map(|(k, v)| (k, *v)).collect();
    assert_eq!(seen, vec![((-2, -1), 0), ((-1, -1), 0), ((-2, 0), 0), ((-1, 0), 2)]);
}

#[test]
fn empty_window_iterates_nothing() {
    let grid = sample();
    assert!(grid.slice(2..2, 0..5).iter().is_empty());
    assert!(grid.slice(0..6, 3..3).iter_indices().is_empty());
    assert!(grid.slice(2..2, 0..5).eq(&grid.slice(4..4, 0..5)));
    assert!(!grid.slice(2..2, 0..5).eq(&grid.slice(2..2, 0..4)));
}

#[test]
fn equality_is_reflexive_symmetric_transitive() {
    let a = sample();
    let b = sample();
    let mut c: InfiniteGrid<i32> = InfiniteGrid::new();
    for y in 0..2 {
        for x in 0..3 {
            *c.index_mut((x - 100, y - 200)) = *a.index((x as usize + 1, y as usize + 2));
        }
    }
    let va = a.slice(1..4, 2..4);
    let vb = b.slice(1..4, 2..4);
    assert!(va.eq(&va));
    assert!(va.eq(&vb));
    assert!(vb.eq(&va));
    let mut d: Grid<i32> = Grid::new((3, 2), 0);
    d.as_slice_mut().clone_from(&va);
    let vd = d.as_slice();
    assert!(vb.eq(&vd));
    assert!(va.eq(&vd));
    assert!(vd.eq(&va));
}

#[test]
fn equality_ignores_position_and_store_kind() {
    let mut dense: Grid<u8> = Grid::new((8, 8), 0);
    *dense.index_mut((5, 6)) = 1;
    *dense.index_mut((6, 7)) = 2;
    let mut sparse: InfiniteGrid<u8> = InfiniteGrid::new();
    *sparse.index_mut((-65, 63)) = 1;
    *sparse.index_mut((-64, 64)) = 2;
    let left = dense.slice(5..7, 6..8);
    let right = sparse.slice(-65..-63, 63..65);
    assert!(left.eq(&right));
    assert!(right.eq(&left));
    assert!(!left.eq(&sparse.slice(-64..-62, 63..65)));
    assert!(left.eq(&left));
}

#[test]
fn equality_needs_the_same_shape() {
    let grid: Grid<u8> = Grid::new((4, 4), 0);
    assert!(!grid.slice(0..2, 0..3).eq(&grid.slice(0..3, 0..2)));
    assert!(!grid.slice(0..2, 0..2).eq(&grid.slice(0..2, 0..3)));
    assert!(grid.slice(0..2, 0..3).eq(&grid.slice(2..4, 1..4)));
}

#[test]
fn equality_compares_every_element() {
    let a = sample();
    let mut b = sample();
    assert!(a.slice(0..6, 0..5).eq(&b.slice(0..6, 0..5)));
    *b.index_mut((5, 4)) = -7;
    assert!(!a.slice(0..6, 0..5).eq(&b.slice(0..6, 0..5)));
    assert!(a.slice(0..5, 0..5).eq(&b.slice(0..5, 0..5)));
}

#[test]
fn copy_reproduces_the_source_and_touches_nothing_else() {
    let source = sample();
    let mut target: Grid<i32> = Grid::new((6, 5), -1);
    {
        let mut view = target.slice_mut(3..5, 1..4);
        view.clone_from(&source.slice(0..2, 0..3));
        assert!(view.eq(&source.slice(0..2, 0..3)));
    }
    for y in 0..5 {
        for x in 0..6 {
            let expected = if (3..5).contains(&x) && (1..4).contains(&y) {
                *source.index((x - 3, y - 1))
            } else {
                -1
            };
            assert_eq!(*target.index((x, y)), expected);
        }
    }
}

#[test]
fn round_trip_through_a_dense_grid() {
    let source = sample();
    let view = source.slice(2..5, 1..4);
    let owned: Grid<i32> = view.clone_into();
    assert!(owned.as_slice().eq(&view));
    let before: Vec<i32> = view.iter().into_iter().copied().collect();
    let after: Vec<i32> = owned.as_slice().iter().into_iter().copied().collect();
    assert_eq!(before, after);
}

#[test]
fn round_trip_through_an_unbounded_grid() {
    let mut source: InfiniteGrid<i32> = InfiniteGrid::new();
    *source.index_mut((-1, -1)) = 1;
    *source.index_mut((0, 0)) = 2;
    *source.index_mut((70, 0)) = 3;
    let view = source.slice(-1..71, -1..1);
    let owned: InfiniteGrid<i32> = view.clone_into();
    assert!(owned.slice(0..72, 0..2).eq(&view));
    assert_eq!(*owned.index((71, 1)), 3);
}

#[test]
fn view_of_a_view_counts_from_both_origins() {
    let grid = sample();
    let outer = grid.slice(1..6, 1..5);
    let inner: GridSlice<_, usize> = GridSlice::new(outer, 1..3, 2..4);
    let seen: Vec<i32> = inner.iter().into_iter().copied().collect();
    assert_eq!(seen, vec![20, 21, 26, 27]);
    assert_eq!(*inner.index((0, 0)), 20);
}

#[test]
fn cloned_view_shows_the_same_window() {
    let view: GridSlice<Grid<i32>, usize> = GridSlice::new(sample(), 1..3, 2..4);
    let copy = view.clone();
    assert_eq!(copy.x_range(), 1..3);
    assert_eq!(copy.y_range(), 2..4);
    assert!(copy.eq(&view));
    let seen: Vec<i32> = copy.iter().into_iter().copied().collect();
    assert_eq!(seen, vec![13, 14, 19, 20]);
}

#[test]
fn view_that_holds_its_grid_can_be_written() {
    let mut view: GridSlice<Grid<i32>, usize> = GridSlice::new(sample(), 2..4, 1..3);
    *view.index_mut((1, 1)) = -1;
    assert_eq!(*view.index((1, 1)), -1);
    assert_eq!(*view.index((0, 0)), 8);
    let other = sample();
    view.clone_from(&other.slice(4..6, 3..5));
    let seen: Vec<i32> = view.iter().into_iter().copied().collect();
    assert_eq!(seen, vec![22, 23, 28, 29]);
}

#[test]
fn view_of_a_view_can_be_written() {
    let outer: GridSlice<Grid<i32>, usize> = GridSlice::new(sample(), 1..6, 1..5);
    let mut inner: GridSlice<_, usize> = GridSlice::new(outer, 1..3, 2..4);
    *inner.index_mut((0, 1)) = 100;
    let seen: Vec<i32> = inner.iter().into_iter().copied().collect();
    assert_eq!(seen, vec![20, 21, 100, 27]);
}

#[test]
fn write_through_a_view_changes_one_cell_of_the_grid() {
    let mut grid: Grid<i32> = Grid::new((5, 5), 0);
    {
        let mut view = grid.slice_mut(1..3, 2..4);
        assert_eq!(view.x_range(), 1..3);
        assert_eq!(view.y_range(), 2..4);
        *view.index_mut((1, 0)) = 9;
    }
    for y in 0..5 {
        for x in 0..5 {
            assert_eq!(*grid.index((x, y)), if (x, y) == (2, 2) { 9 } else { 0 });
        }
    }
}

#[test]
fn order_and_coverage_can_be_tested() {
    let grid = sample();
    assert!(grid.slice(1..3, 2..4).is_ordered());
    assert!(grid.slice(1..3, 2..4).is_covered());
    assert!(grid.slice(3..3, 0..0).is_ordered());
    let reversed: GridSlice<&Grid<i32>, usize> = GridSlice::new(&grid, 3..1, 0..2);
    assert!(!reversed.is_ordered());
    let wide: GridSlice<Grid<i32>, usize> = GridSlice::new(sample(), 4..7, 0..2);
    assert!(wide.is_ordered());
    assert!(!wide.is_covered());
    let tall: GridSlice<Grid<i32>, usize> = GridSlice::new(sample(), 0..6, 4..6);
    assert!(!tall.is_covered());
    let whole: GridSlice<Grid<i32>, usize> = GridSlice::new(sample(), 0..6, 0..5);
    assert!(whole.is_covered());
}

#[test]
fn positions_that_can_be_accessed() {
    let grid = sample();
    let view = grid.slice(4..6, 3..5);
    assert!(view.accessible((0, 0)));
    assert!(view.accessible((1, 1)));
    assert!(!view.accessible((2, 0)));
    assert!(!view.accessible((0, 2)));
    assert!(!view.accessible((usize::MAX, 0)));
    let mut sparse: InfiniteGrid<u8> = InfiniteGrid::new();
    *sparse.index_mut((0, 0)) = 1;
    let far = sparse.slice(i32::MAX - 1..i32::MAX, 0..1);
    assert!(far.accessible((0, 0)));
    assert!(far.accessible((1, 0)));
    assert!(!far.accessible((2, 0)));
    assert!(far.accessible((-5, -5)));
}
