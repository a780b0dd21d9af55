use grid::auto_index_impl::{IndexedStore, IndexedStoreMut};
use grid::bounded_grid::Grid;
use grid::infinite_grid::{InfiniteGrid, CHUNK_CELLS, CHUNK_SIDE, CHUNK_SIDE_LG2, CHUNK_SIDE_MASK};

#[test]
fn chunk_constants_agree() {
    assert_eq!(CHUNK_SIDE, 1 << CHUNK_SIDE_LG2);
    assert_eq!(CHUNK_SIDE_MASK, CHUNK_SIDE - 1);
    assert_eq!(CHUNK_CELLS, (CHUNK_SIDE * CHUNK_SIDE) as usize);
}

#[test]
fn fresh_grid_reads_default_everywhere() {
    let grid: InfiniteGrid<i32> = InfiniteGrid::new();
    for &c in &[(0, 0), (1, 1), (-1, -1), (63, 64), (i32::MAX, i32::MIN), (i32::MIN, i32::MAX)] {
        assert_eq!(*grid.index(c), 0);
    }
}

#[test]
fn write_then_read_same_chunk() {
    let mut grid: InfiniteGrid<i32> = InfiniteGrid::new();
    *grid.index_mut((130, 130)) = 7;
    assert_eq!(*grid.index((130, 130)), 7);
    assert_eq!(*grid.index((129, 130)), 0);
    assert_eq!(*grid.read((130, 130)), 7);
    assert_eq!(*grid.read((129, 130)), 0);
}

#[test]
fn write_then_read_negative_coordinates() {
    let mut grid: InfiniteGrid<i32> = InfiniteGrid::new();
    *grid.index_mut((-1, -1)) = 4;
    *grid.index_mut((-64, -65)) = 5;
    *grid.index_mut((i32::MIN, i32::MAX)) = 6;
    *grid.index_mut((0, 0)) = 7;
    assert_eq!(*grid.index((-1, -1)), 4);
    assert_eq!(*grid.index((-64, -65)), 5);
    assert_eq!(*grid.index((i32::MIN, i32::MAX)), 6);
    assert_eq!(*grid.index((0, 0)), 7);
    assert_eq!(*grid.index((-1, 0)), 0);
    assert_eq!(*grid.index((0, -1)), 0);
    assert_eq!(*grid.index((-2, -1)), 0);
    assert_eq!(*grid.index((63, 63)), 0);
}

#[test]
fn split_negative_one() {
    assert_eq!(InfiniteGrid::<i32>::split_coords((-1, -1)), ((63, 63), (-1, -1)));
}

#[test]
fn split_examples() {
    type G = InfiniteGrid<u8>;
    assert_eq!(G::split_coords((0, 0)), ((0, 0), (0, 0)));
    assert_eq!(G::split_coords((63, 64)), ((63, 0), (0, 1)));
    assert_eq!(G::split_coords((130, 130)), ((2, 2), (2, 2)));
    assert_eq!(G::split_coords((-64, -65)), ((0, 63), (-1, -2)));
    assert_eq!(G::split_coords((i32::MIN, i32::MAX)), ((0, 63), (-33554432, 33554431)));
}

#[test]
fn split_gives_back_the_coordinate() {
    for &c in &[0, 1, 63, 64, 65, -1, -63, -64, -65, 4095, -4097, i32::MAX, i32::MIN] {
        let ((lx, _), (cx, _)) = InfiniteGrid::<u8>::split_coords((c, 0));
        assert!(0 <= lx && lx < 64);
        assert_eq!(cx as i64 * 64 + lx as i64, c as i64);
    }
}

#[test]
fn chunk_offset_is_x_plus_y_times_side() {
    type G = InfiniteGrid<u8>;
    assert_eq!(G::chunk_offset((0, 0)), 0);
    assert_eq!(G::chunk_offset((2, 2)), 130);
    assert_eq!(G::chunk_offset((63, 0)), 63);
    assert_eq!(G::chunk_offset((0, 1)), 64);
    assert_eq!(G::chunk_offset((63, 63)), 4095);
}

#[test]
fn cached_read_leaves_every_cell_as_it_was() {
    let mut grid: InfiniteGrid<i32> = InfiniteGrid::new();
    *grid.index_mut((0, 0)) = 1;
    *grid.index_mut((64, 0)) = 2;
    *grid.index_mut((0, 64)) = 3;
    assert_eq!(*grid.read((1000, 1000)), 0);
    assert_eq!(*grid.read((64, 0)), 2);
    assert_eq!(*grid.read((0, 0)), 1);
    assert_eq!(*grid.read((0, 64)), 3);
    assert_eq!(*grid.read((0, 64)), 3);
    assert_eq!(*grid.index((0, 0)), 1);
    assert_eq!(*grid.index((64, 0)), 2);
    assert_eq!(*grid.index((0, 64)), 3);
    assert_eq!(*grid.index((1000, 1000)), 0);
}

#[test]
fn writes_to_many_chunks_all_stay() {
    let mut grid: InfiniteGrid<i64> = InfiniteGrid::new();
    for i in -20..20 {
        *grid.index_mut((i * 37, -i * 91)) = i as i64 + 100;
    }
    for i in -20..20 {
        assert_eq!(*grid.index((i * 37, -i * 91)), i as i64 + 100);
        assert_eq!(*grid.read((i * 37, -i * 91)), i as i64 + 100);
    }
}

#[test]
fn overwrite_keeps_the_last_value() {
    let mut grid: InfiniteGrid<u8> = InfiniteGrid::new();
    *grid.index_mut((5, -5)) = 1;
    *grid.index_mut((500, 500)) = 2;
    *grid.index_mut((5, -5)) = 3;
    assert_eq!(*grid.index((5, -5)), 3);
    assert_eq!(*grid.index((500, 500)), 2);
}

#[test]
fn slice_over_negative_ranges() {
    let mut grid: InfiniteGrid<i32> = InfiniteGrid::new();
    *grid.index_mut((-2, -1)) = 9;
    let view = grid.slice(-2..1, -2..0);
    assert_eq!(view.x_range(), -2..1);
    assert_eq!(view.y_range(), -2..0);
    let seen: Vec<i32> = view.iter().into_iter().copied().collect();
    assert_eq!(seen, vec![0, 0, 0, 9, 0, 0]);
    assert_eq!(*view.index((0, 1)), 9);
}

#[test]
fn slice_mut_writes_through_to_the_grid() {
    let mut grid: InfiniteGrid<i32> = InfiniteGrid::new();
    {
        let mut view = grid.slice_mut(-70..-60, 60..70);
        *view.index_mut((3, 4)) = 11;
        *view.index_mut((9, 9)) = 12;
    }
    assert_eq!(*grid.index((-67, 64)), 11);
    assert_eq!(*grid.index((-61, 69)), 12);
    assert_eq!(*grid.index((-66, 64)), 0);
}

#[test]
fn slice_mut_copies_from_a_dense_grid() {
    let mut dense: Grid<i32> = Grid::new((10, 10), 0);
    *dense.index_mut((1, 2)) = 3;
    *dense.index_mut((2, 2)) = 1;
    let mut grid: InfiniteGrid<i32> = InfiniteGrid::new();
    *grid.index_mut((-1, -1)) = 99;
    grid.slice_mut(-1..1, -1..1).clone_from(&dense.slice(1..3, 1..3));
    assert_eq!(*grid.index((-1, -1)), 0);
    assert_eq!(*grid.index((0, -1)), 0);
    assert_eq!(*grid.index((-1, 0)), 3);
    assert_eq!(*grid.index((0, 0)), 1);
    assert_eq!(*grid.index((1, 0)), 0);
    assert_eq!(*dense.index((1, 2)), 3);
}

#[test]
fn materialized_unbounded_grid_starts_at_the_origin() {
    let mut grid: InfiniteGrid<i32> = InfiniteGrid::new();
    *grid.index_mut((-3, 10)) = 1;
    *grid.index_mut((-2, 11)) = 2;
    let view = grid.slice(-3..-1, 10..12);
    let owned: InfiniteGrid<i32> = view.clone_into();
    assert_eq!(*owned.index((0, 0)), 1);
    assert_eq!(*owned.index((1, 1)), 2);
    assert_eq!(*owned.index((1, 0)), 0);
    assert_eq!(*owned.index((0, 1)), 0);
    assert_eq!(*owned.index((-3, 10)), 0);
    assert_eq!(*owned.index((2, 2)), 0);
    assert!(owned.slice(0..2, 0..2).eq(&view));
}

#[test]
fn default_grid_is_a_fresh_grid() {
    let mut grid: InfiniteGrid<u16> = Default::default();
    assert_eq!(*grid.index((7, -7)), 0);
    *grid.index_mut((7, -7)) = 2;
    assert_eq!(*grid.index((7, -7)), 2);
    assert_eq!(*grid.index((-7, 7)), 0);
}

#[test]
fn first_write_to_the_origin_chunk() {
    let mut grid: InfiniteGrid<i32> = InfiniteGrid::new();
    assert_eq!(*grid.read((0, 0)), 0);
    *grid.index_mut((0, 0)) = 1;
    *grid.index_mut((63, 63)) = 2;
    assert_eq!(*grid.read((0, 0)), 1);
    assert_eq!(*grid.index((63, 63)), 2);
    assert_eq!(*grid.index((64, 63)), 0);
    assert_eq!(*grid.index((-1, 0)), 0);
}

#[test]
fn materialized_grid_reads_default_outside_the_window() {
    let mut grid: InfiniteGrid<i32> = InfiniteGrid::new();
    *grid.index_mut((-1, -1)) = 4;
    let view = grid.slice(-2..0, -2..0);
    let owned: InfiniteGrid<i32> = view.clone_into();
    assert_eq!(*owned.index((1, 1)), 4);
    assert_eq!(*owned.index((0, 0)), 0);
    assert_eq!(*owned.index((1, 0)), 0);
    assert_eq!(*owned.index((0, 1)), 0);
    assert_eq!(*owned.index((-1, -1)), 0);
    assert!(owned.slice(0..2, 0..2).eq(&view));
}
