use easymill::edges::{
    detect_edges, orient_edges, row_distances, trace_edges, OrientedPixel, EAST, NORTH, SOUTH, STATE_BOUNDARY,
    STATE_EXTERIOR, STATE_INTERIOR, WEST,
};

/// A 5 by 5 mask with a 3 by 3 block of material in the middle.
fn block_mask() -> Vec<bool> {
    let mut mask = vec![false; 25];
    for y in 1..4 {
        for x in 1..4 {
            mask[y * 5 + x] = true;
        }
    }
    mask
}

#[test]
fn detect_edges_marks_cells_next_to_a_change() {
    let states = detect_edges(&block_mask(), 5, 5);
    let mut expected = vec![STATE_BOUNDARY; 25];
    expected[12] = STATE_INTERIOR;
    assert_eq!(states, expected);
}

#[test]
fn detect_edges_of_uniform_masks() {
    assert_eq!(detect_edges(&vec![true; 4], 2, 2), vec![STATE_INTERIOR; 4]);
    assert_eq!(detect_edges(&vec![false; 6], 3, 2), vec![STATE_EXTERIOR; 6]);
}

#[test]
fn detect_edges_single_cell_of_material() {
    let mut mask = vec![false; 25];
    mask[12] = true;
    let states = detect_edges(&mask, 5, 5);
    for y in 0..5 {
        for x in 0..5 {
            let ring = x >= 1 && x <= 3 && y >= 1 && y <= 3;
            let expected = if ring { STATE_BOUNDARY } else { STATE_EXTERIOR };
            assert_eq!(states[y * 5 + x], expected);
        }
    }
}

fn pixel(ns: u8, ew: u8) -> (u8, u8, u8) {
    (ns, ew, 0)
}

fn flags(p: &OrientedPixel) -> (u8, u8, u8) {
    (p.northsouth, p.eastwest, p.startstop)
}

#[test]
fn orient_edges_around_a_block() {
    let states = detect_edges(&block_mask(), 5, 5);
    let oriented = orient_edges(&states, 5, 5);
    assert_eq!(oriented.len(), 25);
    let at = |x: usize, y: usize| flags(&oriented[y * 5 + x]);
    assert_eq!(at(1, 1), pixel(0, EAST));
    assert_eq!(at(2, 1), pixel(0, EAST));
    assert_eq!(at(3, 1), pixel(SOUTH, 0));
    assert_eq!(at(3, 2), pixel(SOUTH, 0));
    assert_eq!(at(3, 3), pixel(0, WEST));
    assert_eq!(at(2, 3), pixel(0, WEST));
    assert_eq!(at(1, 3), pixel(NORTH, 0));
    assert_eq!(at(1, 2), pixel(NORTH, 0));
    assert_eq!(at(2, 2), pixel(0, 0));
    for i in 0..5 {
        assert_eq!(at(i, 0), pixel(0, 0));
        assert_eq!(at(i, 4), pixel(0, 0));
        assert_eq!(at(0, i), pixel(0, 0));
        assert_eq!(at(4, i), pixel(0, 0));
    }
}

#[test]
fn trace_edges_follows_and_clears_the_flags() {
    let states = detect_edges(&block_mask(), 5, 5);
    let mut oriented = orient_edges(&states, 5, 5);
    let paths = trace_edges(&mut oriented, 5, 5);
    assert_eq!(
        paths,
        vec![
            vec![(1, 1), (2, 1), (3, 1), (3, 0)],
            vec![(1, 2), (1, 3), (1, 4)],
            vec![(3, 2), (3, 1)],
            vec![(2, 3), (1, 3)],
            vec![(3, 3), (2, 3)],
        ]
    );
    for p in &oriented {
        assert_eq!(p.northsouth, 0);
        assert_eq!(p.eastwest, 0);
    }
}

#[test]
fn trace_edges_without_flags_finds_nothing() {
    let mut oriented = vec![OrientedPixel { northsouth: 0, eastwest: 0, startstop: 0 }; 9];
    assert!(trace_edges(&mut oriented, 3, 3).is_empty());
}

#[test]
fn row_distances_measure_to_the_nearest_material_cell() {
    let mask = vec![false, true, false, false, false];
    assert_eq!(row_distances(&mask, 5, 1), vec![1, 0, 1, 2, 3]);
}

#[test]
fn row_distances_of_a_row_without_material() {
    assert_eq!(row_distances(&vec![false; 3], 3, 1), vec![3, 4, 4]);
}

#[test]
fn orientable_grids() {
    let states = detect_edges(&block_mask(), 5, 5);
    assert!(easymill::edges::orientable_grid(&states, 5, 5));
    assert!(!easymill::edges::orientable_grid(&states, 0, 5));
    assert!(!easymill::edges::orientable_grid(&states, 6, 5));
    assert!(!easymill::edges::orientable_grid(&vec![STATE_EXTERIOR, STATE_BOUNDARY, STATE_EXTERIOR], 3, 1));
    assert!(easymill::edges::orientable_grid(&vec![STATE_BOUNDARY, STATE_EXTERIOR, STATE_BOUNDARY], 3, 1));
}

#[test]
fn flags_pointing_out_of_the_grid_are_found() {
    let states = detect_edges(&block_mask(), 5, 5);
    let oriented = orient_edges(&states, 5, 5);
    assert!(easymill::edges::flags_point_inward(&oriented, 5, 5));
    let mut outward = vec![OrientedPixel { northsouth: 0, eastwest: 0, startstop: 0 }; 4];
    outward[3].northsouth = NORTH;
    assert!(!easymill::edges::flags_point_inward(&outward, 2, 2));
    outward[3].northsouth = SOUTH;
    assert!(easymill::edges::flags_point_inward(&outward, 2, 2));
}

#[test]
fn traced_contours_run_along_flagged_cells() {
    let states = detect_edges(&block_mask(), 5, 5);
    let oriented = orient_edges(&states, 5, 5);
    let before = oriented.clone();
    let mut traced = oriented;
    let paths = trace_edges(&mut traced, 5, 5);
    for path in &paths {
        for &(x, y) in &path[..path.len() - 1] {
            let p = before[y * 5 + x];
            assert!(p.northsouth != 0 || p.eastwest != 0, "({x}, {y}) had no flag");
        }
    }
}
