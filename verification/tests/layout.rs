use sysmon::layout::{pack, row_count};

#[test]
fn packs_singles_left_to_right_then_wraps() {
    let items = [(1, 1); 5];
    let placed = pack(&items, 2);
    assert_eq!(placed, vec![(0, 0), (1, 0), (0, 1), (1, 1), (0, 2)]);
    assert_eq!(row_count(&placed, &items), 3);
}

#[test]
fn wide_widget_wraps_to_next_row_when_it_cannot_fit() {
    // 1x1, then a 2x1 that can't share row 0 in a 2-col grid.
    let items = [(1, 1), (2, 1)];
    let placed = pack(&items, 2);
    assert_eq!(placed, vec![(0, 0), (0, 1)]);
}

#[test]
fn small_widget_backfills_gap_left_by_a_tall_one() {
    let items = [(1, 1), (2, 2), (1, 1)];
    let placed = pack(&items, 2);
    assert_eq!(placed[0], (0, 0));
    assert_eq!(placed[1], (0, 1));
    assert_eq!(placed[2], (1, 0)); // backfilled the gap next to the first
    assert_eq!(row_count(&placed, &items), 3);
}

#[test]
fn footprint_wider_than_grid_is_clamped() {
    let items = [(4, 1)];
    let placed = pack(&items, 2);
    assert_eq!(placed, vec![(0, 0)]);
}

#[test]
fn empty_input_has_no_rows() {
    let placed = pack(&[], 3);
    assert!(placed.is_empty());
    assert_eq!(row_count(&placed, &[]), 0);
}

#[test]
fn zero_columns_count_as_one() {
    let placed = pack(&[(2, 1), (1, 2)], 0);
    assert_eq!(placed, vec![(0, 0), (0, 1)]);
}

#[test]
fn zero_sized_footprint_counts_as_one_cell() {
    let placed = pack(&[(0, 0), (0, 0), (0, 0)], 2);
    assert_eq!(placed, vec![(0, 0), (1, 0), (0, 1)]);
}

#[test]
fn large_then_smalls_fill_beside_it() {
    // A 2x2 in a 3-column grid leaves column 2 free on rows 0 and 1.
    let items = [(2, 2), (1, 1), (1, 1), (1, 1)];
    let placed = pack(&items, 3);
    assert_eq!(placed, vec![(0, 0), (2, 0), (2, 1), (0, 2)]);
    assert_eq!(row_count(&placed, &items), 3);
}

#[test]
fn placements_never_overlap_and_stay_in_grid() {
    let items = [(1, 1), (2, 2), (1, 1), (2, 1), (3, 1), (1, 2), (2, 2), (1, 1)];
    for columns in 1..5usize {
        let placed = pack(&items, columns);
        let mut cells = std::collections::HashSet::new();
        for (i, &(col, row)) in placed.iter().enumerate() {
            let w = (items[i].0 as usize).clamp(1, columns);
            let h = (items[i].1 as usize).max(1);
            assert!(col + w <= columns);
            for r in row..row + h {
                for c in col..col + w {
                    assert!(cells.insert((c, r)), "cell ({c},{r}) used twice");
                }
            }
        }
    }
}

#[test]
fn appending_keeps_earlier_placements() {
    let items = [(1, 1), (2, 2), (1, 1), (2, 1), (1, 2)];
    let full = pack(&items, 3);
    for k in 0..=items.len() {
        assert_eq!(pack(&items[..k], 3), full[..k].to_vec());
    }
}

#[test]
fn row_count_counts_zero_heights_as_one_and_uses_shorter_list() {
    assert_eq!(row_count(&[(0, 2), (1, 0)], &[(1, 0), (1, 3)]), 3);
    assert_eq!(row_count(&[(0, 5)], &[(1, 1), (1, 9)]), 6);
    let items = [(1, 0)];
    let placed = pack(&items, 1);
    assert_eq!(placed, vec![(0, 0)]);
    assert_eq!(row_count(&placed, &items), 1);
}
