use cell_codec::{neighbour_count, pack, unpack, CoordinateSet};

fn cells(side: u32, alive: &[(u32, u32)]) -> CoordinateSet {
    let mut set = CoordinateSet::new();
    for &(x, y) in alive {
        set.insert(pack(x, y, side).unwrap());
    }
    set
}

#[test]
fn pack_is_row_times_side_plus_column() {
    assert_eq!(pack(511, 511, 512), Some(511 * 512 + 511));
    assert_eq!(pack(511, 511, 512), Some(262143));
    assert_eq!(pack(0, 0, 512), Some(0));
    assert_eq!(pack(1, 0, 512), Some(512));
    assert_eq!(pack(0, 1, 512), Some(1));
    assert_eq!(pack(2, 2, 3), Some(8));
}

#[test]
fn pack_on_a_power_of_two_is_shift_and_or() {
    for (x, y) in [(0u32, 0u32), (1, 2), (300, 7), (511, 511), (256, 255)] {
        assert_eq!(pack(x, y, 512), Some(x << 9 | y));
    }
}

#[test]
fn pack_refuses_cells_off_the_grid() {
    assert_eq!(pack(512, 0, 512), None);
    assert_eq!(pack(0, 512, 512), None);
    assert_eq!(pack(0, 0, 0), None);
    assert_eq!(pack(65536, 0, 65537), None);
    assert_eq!(pack(65535, 65535, 65536), Some(u32::MAX));
}

#[test]
fn unpack_undoes_pack() {
    assert_eq!(unpack(262143, 512), Some((511, 511)));
    assert_eq!(unpack(512, 512), Some((1, 0)));
    assert_eq!(unpack(8, 3), Some((2, 2)));
    assert_eq!(unpack(9, 3), None);
    assert_eq!(unpack(0, 0), None);
    assert_eq!(unpack(262144, 512), None);
    assert_eq!(unpack(u32::MAX, 65536), Some((65535, 65535)));
}

#[test]
fn neighbour_beside() {
    let set = cells(3, &[(0, 0), (1, 0)]);
    assert_eq!(neighbour_count(&set, (0, 0), 3), 1);
}

#[test]
fn neighbour_across_the_corner() {
    let set = cells(3, &[(0, 0), (2, 2)]);
    assert_eq!(neighbour_count(&set, (0, 0), 3), 1);
}

#[test]
fn neighbours_wrap_on_both_axes() {
    let set = cells(512, &[(511, 511), (0, 511), (511, 0), (1, 1), (0, 0), (2, 0), (0, 2)]);
    assert_eq!(neighbour_count(&set, (0, 0), 512), 4);
    assert_eq!(neighbour_count(&set, (511, 511), 512), 3);
    assert_eq!(neighbour_count(&set, (1, 0), 512), 4);
    assert_eq!(neighbour_count(&set, (256, 256), 512), 0);
}

#[test]
fn full_grid_has_eight_neighbours_everywhere() {
    let mut alive = Vec::new();
    for x in 0..4 {
        for y in 0..4 {
            alive.push((x, y));
        }
    }
    let set = cells(4, &alive);
    for &(x, y) in &alive {
        assert_eq!(neighbour_count(&set, (x, y), 4), 8);
    }
}

#[test]
fn cell_is_not_its_own_neighbour() {
    let set = cells(3, &[(1, 1)]);
    assert_eq!(neighbour_count(&set, (1, 1), 3), 0);
    let lone = cells(1, &[(0, 0)]);
    assert_eq!(neighbour_count(&lone, (0, 0), 1), 0);
}

#[test]
fn two_by_two_grid_counts_each_offset() {
    let set = cells(2, &[(0, 0), (1, 0), (0, 1), (1, 1)]);
    assert_eq!(neighbour_count(&set, (0, 0), 2), 8);
    let pair = cells(2, &[(0, 0), (1, 0)]);
    assert_eq!(neighbour_count(&pair, (0, 0), 2), 2);
    assert_eq!(neighbour_count(&pair, (0, 1), 2), 6);
}

#[test]
fn grid_without_cells_has_no_neighbours() {
    let mut set = CoordinateSet::new();
    set.insert(0);
    assert_eq!(neighbour_count(&set, (0, 0), 0), 0);
    assert_eq!(set.neighbours(0, 0), 0);
}

#[test]
fn cell_off_the_grid_is_wrapped_onto_it() {
    let set = cells(3, &[(0, 0), (1, 0), (2, 2)]);
    assert_eq!(neighbour_count(&set, (3, 3), 3), neighbour_count(&set, (0, 0), 3));
    assert_eq!(neighbour_count(&set, (4, 6), 3), neighbour_count(&set, (1, 0), 3));
    assert_eq!(neighbour_count(&set, (u32::MAX, u32::MAX), 3), 2);
}

#[test]
fn empty_set_has_no_neighbours() {
    let set = CoordinateSet::new();
    assert_eq!(neighbour_count(&set, (5, 5), 512), 0);
}

#[test]
fn neighbours_by_position_in_the_set() {
    let set = cells(3, &[(0, 0), (1, 0), (2, 2)]);
    assert_eq!(set.neighbours(0, 3), 2);
    assert_eq!(set.neighbours(1, 3), 2);
    assert_eq!(set.neighbours(2, 3), 2);
    let line = cells(512, &[(10, 10), (10, 11), (10, 12), (300, 300)]);
    assert_eq!(line.neighbours(0, 512), 1);
    assert_eq!(line.neighbours(1, 512), 2);
    assert_eq!(line.neighbours(2, 512), 1);
    assert_eq!(line.neighbours(3, 512), 0);
}
