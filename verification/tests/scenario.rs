use mine_rs::cell::Cell;
use mine_rs::field::Field;

/// A 5-by-5 field with mines fixed at (0,4), (2,4) and (4,2), built cell by
/// cell so the placement is deterministic.
fn five_by_five_with_fixed_mines() -> Field {
    let mut grid = Vec::new();
    for row_index in 0..5u8 {
        let mut row = Vec::new();
        for column_index in 0..5u8 {
            let mut cell = Cell::new((row_index, column_index));
            let position = (row_index, column_index);
            if position == (0, 4) || position == (2, 4) || position == (4, 2) {
                cell.mine();
            }
            row.push(cell);
        }
        grid.push(row);
    }
    Field {
        grid,
        mines_amount: 3,
    }
}

#[test]
fn the_fixed_field_gets_the_expected_counts() {
    let mut field = five_by_five_with_fixed_mines();
    field.update_mines_around_values();

    assert_eq!(
        field.get_cell((0, 3)).unwrap().get_mines_around_amount(),
        Some(1)
    );
    assert_eq!(
        field.get_cell((1, 3)).unwrap().get_mines_around_amount(),
        Some(2)
    );
    assert_eq!(
        field.get_cell((3, 3)).unwrap().get_mines_around_amount(),
        Some(2)
    );
    assert_eq!(
        field.get_cell((4, 4)).unwrap().get_mines_around_amount(),
        Some(0)
    );
    assert_eq!(
        field.get_cell((1, 1)).unwrap().get_mines_around_amount(),
        Some(0)
    );
    assert_eq!(field.get_cell((0, 4)).unwrap().get_mines_around_amount(), None);
}

#[test]
fn opening_the_empty_region_opens_exactly_the_connected_cells() {
    let mut field = five_by_five_with_fixed_mines();
    field.update_mines_around_values();
    field.open_cell((1, 1));

    // The flood reaches the zero-count cells connected to (1,1) and the
    // numbered cells bordering them: 18 cells in all.
    let expected_open = [
        (0u8, 0u8),
        (0, 1),
        (0, 2),
        (0, 3),
        (1, 0),
        (1, 1),
        (1, 2),
        (1, 3),
        (2, 0),
        (2, 1),
        (2, 2),
        (2, 3),
        (3, 0),
        (3, 1),
        (3, 2),
        (3, 3),
        (4, 0),
        (4, 1),
    ];
    // The two mines on the right, the isolated bottom-right corner and the
    // numbered cells around it stay closed: 7 cells in all.
    let expected_closed = [
        (0u8, 4u8),
        (1, 4),
        (2, 4),
        (3, 4),
        (4, 2),
        (4, 3),
        (4, 4),
    ];

    assert_eq!(expected_open.len() + expected_closed.len(), 25);

    for position in expected_open {
        assert!(
            field.get_cell(position).unwrap().is_open(),
            "{:?} should be open",
            position
        );
    }
    for position in expected_closed {
        assert!(
            !field.get_cell(position).unwrap().is_open(),
            "{:?} should stay closed",
            position
        );
    }
}
