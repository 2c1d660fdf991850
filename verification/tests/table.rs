use worm_rs::agent::Agent;
use worm_rs::table::{QTable, CELL_BYTES};

#[test]
fn fresh_table_is_all_zero() {
    let table = QTable::new(&vec![2, 3], 4).unwrap();
    for i in 0..2 {
        for j in 0..3 {
            for a in 0..4 {
                assert_eq!(table.value(&vec![i, j], a), 0);
            }
        }
    }
    assert_eq!(f32::from_bits(table.value(&vec![1, 2], 3)), 0.0);
}

#[test]
fn set_changes_exactly_one_cell() {
    let mut table = QTable::new(&vec![2, 3], 4).unwrap();
    table.set(&vec![1, 2, 3], 1.5f32.to_bits());
    table.set(&vec![0, 1, 2], (-2.0f32).to_bits());
    for i in 0..2 {
        for j in 0..3 {
            for a in 0..4 {
                let expected = match (i, j, a) {
                    (1, 2, 3) => 1.5f32.to_bits(),
                    (0, 1, 2) => (-2.0f32).to_bits(),
                    _ => 0,
                };
                assert_eq!(table.value(&vec![i, j], a), expected);
            }
        }
    }
    table.set(&vec![1, 2, 3], 7.0f32.to_bits());
    assert_eq!(table.value(&vec![1, 2], 3), 7.0f32.to_bits());
    assert_eq!(table.value(&vec![0, 1], 2), (-2.0f32).to_bits());
}

#[test]
fn row_shows_the_cells_of_one_state() {
    let mut table = QTable::new(&vec![2, 3], 4).unwrap();
    table.set(&vec![1, 0, 0], 1.0f32.to_bits());
    table.set(&vec![1, 0, 1], 3.0f32.to_bits());
    table.set(&vec![1, 0, 2], 2.0f32.to_bits());
    table.set(&vec![1, 0, 3], (-1.0f32).to_bits());
    table.set(&vec![1, 1, 2], 9.0f32.to_bits());
    table.set(&vec![0, 0, 3], 8.0f32.to_bits());
    assert_eq!(Agent::max(table.row(&vec![1, 0])), 3.0f32.to_bits());
    assert_eq!(Agent::argmax(table.row(&vec![1, 0])), 1);
    assert_eq!(Agent::max(table.row(&vec![1, 1])), 9.0f32.to_bits());
    assert_eq!(Agent::argmax(table.row(&vec![1, 1])), 2);
    assert_eq!(Agent::max(table.row(&vec![0, 0])), 8.0f32.to_bits());
    assert_eq!(Agent::argmax(table.row(&vec![0, 0])), 3);
    assert_eq!(Agent::max(table.row(&vec![0, 2])), 0);
    assert_eq!(Agent::argmax(table.row(&vec![0, 2])), 0);
}

#[test]
fn table_without_grid_axes_is_one_row() {
    let mut table = QTable::new(&vec![], 3).unwrap();
    table.set(&vec![2], 4.0f32.to_bits());
    assert_eq!(table.value(&vec![], 2), 4.0f32.to_bits());
    assert_eq!(Agent::argmax(table.row(&vec![])), 2);
}

#[test]
fn empty_axis_cannot_be_built() {
    assert!(QTable::new(&vec![2, 0, 3], 4).is_none());
    assert!(QTable::new(&vec![2, 3], 0).is_none());
    assert!(!QTable::can_build(&vec![0], 1));
    assert!(QTable::can_build(&vec![1], 1));
}

#[test]
fn oversized_table_cannot_be_built() {
    assert!(QTable::new(&vec![usize::MAX, usize::MAX], 5).is_none());
    assert!(QTable::new(&vec![usize::MAX], 1).is_none());
    let limit = isize::MAX as usize / CELL_BYTES;
    assert!(!QTable::can_build(&vec![limit], 2));
    assert!(!QTable::can_build(&vec![limit + 1], 1));
    assert!(QTable::can_build(&vec![limit], 1));
    assert!(QTable::can_build(&vec![10, 10, 10, 10, 10, 10], 5));
    assert!(!QTable::can_build(&vec![1 << 20, 1 << 20, 1 << 20, 1 << 20], 5));
}

#[test]
fn zeros_builds_what_can_be_built() {
    let table = QTable::zeros(&vec![3], 2);
    for i in 0..3 {
        assert_eq!(table.value(&vec![i], 0), 0);
        assert_eq!(table.value(&vec![i], 1), 0);
    }
}
