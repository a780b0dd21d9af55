use grid::auto_index_impl::{IndexedStore, IndexedStoreMut};
use grid::bounded_grid::{flat_offset, Grid};
use grid::infinite_grid::InfiniteGrid;
use std::ops::Bound;

#[test]
fn filled_grid_reads_fill_value_everywhere() {
    let grid: Grid<u8> = Grid::new((4, 3), 9);
    assert_eq!(grid.dims(), (4, 3));
    for y in 0..3 {
        for x in 0..4 {
            assert_eq!(*grid.index((x, y)), 9);
        }
    }
}

#[test]
fn default_grid_reads_default_everywhere() {
    let grid: Grid<i64> = Grid::new_default((3, 5));
    assert_eq!(grid.dims(), (3, 5));
    for y in 0..5 {
        for x in 0..3 {
            assert_eq!(*grid.index((x, y)), 0);
        }
    }
}

#[test]
fn empty_grid_has_no_cells() {
    let grid: Grid<u8> = Grid::new((0, 7), 1);
    assert_eq!(grid.dims(), (0, 7));
    assert_eq!(grid.as_slice().iter().len(), 0);
}

#[test]
fn flat_offset_is_x_plus_y_times_width() {
    assert_eq!(flat_offset((0, 0), (10, 10)), 0);
    assert_eq!(flat_offset((1, 2), (10, 10)), 21);
    assert_eq!(flat_offset((9, 9), (10, 10)), 99);
    assert_eq!(flat_offset((2, 1), (3, 7)), 5);
}

#[test]
fn write_changes_one_cell_only() {
    let mut grid: Grid<i32> = Grid::new((10, 10), 0);
    *grid.index_mut((1, 2)) = 3;
    *grid.index_mut((2, 2)) = 1;
    for y in 0..10 {
        for x in 0..10 {
            let expected = match (x, y) {
                (1, 2) => 3,
                (2, 2) => 1,
                _ => 0,
            };
            assert_eq!(*grid.index((x, y)), expected);
        }
    }
}

#[test]
fn range_bounds_become_half_open_pairs() {
    type G = Grid<u8>;
    assert_eq!(G::range_bound_to_pair(Bound::Unbounded, Bound::Unbounded, 10), (0, 10));
    assert_eq!(G::range_bound_to_pair(Bound::Included(1), Bound::Excluded(3), 10), (1, 3));
    assert_eq!(G::range_bound_to_pair(Bound::Included(1), Bound::Included(3), 10), (1, 4));
    assert_eq!(G::range_bound_to_pair(Bound::Excluded(1), Bound::Unbounded, 10), (2, 10));
    assert_eq!(G::range_bound_to_pair(Bound::Unbounded, Bound::Included(9), 10), (0, 10));
    assert_eq!(G::range_bound_to_pair(Bound::Included(0), Bound::Excluded(0), 0), (0, 0));
}

#[test]
fn slice_iterates_row_by_row() {
    let mut grid: Grid<i32> = Grid::new((10, 10), 0);
    *grid.index_mut((1, 2)) = 3;
    *grid.index_mut((2, 2)) = 1;
    let seen: Vec<i32> = grid.slice(1..3, 1..3).iter().into_iter().copied().collect();
    assert_eq!(seen, vec![0, 0, 3, 1]);
}

#[test]
fn slice_reads_at_positions_from_its_origin() {
    let mut grid: Grid<i32> = Grid::new((10, 10), 0);
    *grid.index_mut((1, 2)) = 3;
    let slice = grid.slice(0..10, 1..10);
    assert_eq!(*slice.index((1, 1)), 3);
    assert_eq!(*slice.index((1, 0)), 0);
}

#[test]
fn as_slice_covers_the_whole_grid() {
    let mut grid: Grid<u8> = Grid::new((3, 2), 0);
    *grid.index_mut((2, 0)) = 5;
    *grid.index_mut((0, 1)) = 6;
    let slice = grid.as_slice();
    assert_eq!(slice.x_range(), 0..3);
    assert_eq!(slice.y_range(), 0..2);
    let seen: Vec<u8> = slice.iter().into_iter().copied().collect();
    assert_eq!(seen, vec![0, 0, 5, 6, 0, 0]);
}

#[test]
fn as_slice_mut_writes_through_to_the_grid() {
    let mut grid: Grid<u8> = Grid::new((3, 2), 0);
    {
        let mut slice = grid.as_slice_mut();
        *slice.index_mut((1, 1)) = 8;
    }
    assert_eq!(*grid.index((1, 1)), 8);
    assert_eq!(*grid.index((1, 0)), 0);
}

#[test]
fn slice_mut_copies_from_another_grid() {
    let mut grid: Grid<i32> = Grid::new((10, 10), 0);
    *grid.index_mut((1, 2)) = 3;
    *grid.index_mut((2, 2)) = 1;
    let mut grid2: Grid<i32> = Grid::new((5, 5), 0);
    grid2.slice_mut(0..2, 0..2).clone_from(&grid.slice(1..3, 1..3));
    let seen: Vec<i32> = grid2.slice(0..2, 0..2).iter().into_iter().copied().collect();
    assert_eq!(seen, vec![0, 0, 3, 1]);
    assert_eq!(*grid2.index((0, 1)), 3);
    assert_eq!(*grid2.index((2, 1)), 0);
}

#[test]
fn clone_gives_an_equal_grid() {
    let mut grid: Grid<u8> = Grid::new((3, 2), 1);
    *grid.index_mut((2, 1)) = 4;
    let copy = grid.clone();
    assert_eq!(copy, grid);
    assert_eq!(copy.dims(), (3, 2));
    assert_eq!(*copy.index((2, 1)), 4);
}

#[test]
fn materialized_grid_has_the_views_shape_and_content() {
    let mut grid: Grid<i32> = Grid::new((10, 10), 0);
    *grid.index_mut((1, 2)) = 3;
    *grid.index_mut((2, 2)) = 1;
    *grid.index_mut((3, 1)) = 7;
    let view = grid.slice(1..4, 1..3);
    let owned: Grid<i32> = view.clone_into();
    assert_eq!(owned.dims(), (3, 2));
    assert_eq!(*owned.index((0, 1)), 3);
    assert_eq!(*owned.index((1, 1)), 1);
    assert_eq!(*owned.index((2, 0)), 7);
    assert!(owned.as_slice().eq(&view));
    let seen: Vec<i32> = owned.as_slice().iter().into_iter().copied().collect();
    assert_eq!(seen, vec![0, 0, 7, 3, 1, 0]);
}

#[test]
fn dense_grid_copies_from_an_unbounded_one() {
    let mut source: InfiniteGrid<i32> = InfiniteGrid::new();
    *source.index_mut((-1, -1)) = 5;
    *source.index_mut((0, 0)) = 6;
    let mut grid: Grid<i32> = Grid::new((3, 3), 1);
    grid.slice_mut(1..3, 0..2).clone_from(&source.slice(-1..1, -1..1));
    let seen: Vec<i32> = grid.as_slice().iter().into_iter().copied().collect();
    assert_eq!(seen, vec![1, 5, 0, 1, 0, 6, 1, 1, 1]);
}

#[test]
fn grid_can_be_accessed_within_its_shape() {
    let grid: Grid<u8> = Grid::new((4, 3), 0);
    assert!(grid.accessible((0, 0)));
    assert!(grid.accessible((3, 2)));
    assert!(!grid.accessible((4, 2)));
    assert!(!grid.accessible((3, 3)));
    let sparse: InfiniteGrid<u8> = InfiniteGrid::new();
    assert!(sparse.accessible((i32::MIN, i32::MAX)));
}
