use mine_rs::cell::Cell;
use mine_rs::field::{Field, FieldError};

#[test]
fn create_field_instance_correct_params() {
    let field = Field::new(3, 3, 3);
    assert!(field.is_ok());

    assert_eq!(
        field.unwrap(),
        Field {
            grid: vec![
                vec![Cell::new((0, 0)), Cell::new((0, 1)), Cell::new((0, 2)),],
                vec![Cell::new((1, 0)), Cell::new((1, 1)), Cell::new((1, 2)),],
                vec![Cell::new((2, 0)), Cell::new((2, 1)), Cell::new((2, 2)),],
            ],
            mines_amount: 3
        }
    )
}

#[test]
fn create_field_fails_when_not_enough_cells() {
    let field = Field::new(1, 1, 1);
    assert!(field.is_err_and(|err| err == FieldError::NotEnoughCells));
}

#[test]
fn create_field_fails_when_not_enough_mines() {
    let field = Field::new(3, 3, 0);
    assert!(field.is_err_and(|err| err == FieldError::InvalidMinesAmount(8)));
}

#[test]
fn create_field_fails_when_too_many_mines() {
    let field = Field::new(3, 3, 9);
    assert!(field.is_err_and(|err| err == FieldError::InvalidMinesAmount(8)));
}

fn create_stub_mined_field(enlarged: bool) -> Field {
    // "mine", "mine", "none"
    // "none", "none", "mine"
    // "none", "none", "none"
    // "none", "none", "none" <- only when enlarged
    let mut grid = vec![
        vec![
            {
                let mut cell = Cell::new((0, 0));
                cell.mine();
                cell
            },
            {
                let mut cell = Cell::new((0, 1));
                cell.mine();
                cell
            },
            Cell::new((0, 2)),
        ],
        vec![Cell::new((1, 0)), Cell::new((1, 1)), {
            let mut cell = Cell::new((1, 2));
            cell.mine();
            cell
        }],
        vec![Cell::new((2, 0)), Cell::new((2, 1)), Cell::new((2, 2))],
    ];

    if enlarged {
        // Add a row of empty cells.
        let empty_row = vec![Cell::new((3, 0)), Cell::new((3, 1)), Cell::new((3, 2))];
        grid.push(empty_row);
    }

    Field {
        grid,
        mines_amount: 3,
    }
}

#[test]
fn mines_around_values_get_updated_correctly() {
    let mut field = create_stub_mined_field(false);
    field.update_mines_around_values();

    let result = field
        .grid
        .iter()
        .flatten()
        .map(|cell| cell.get_mines_around_amount())
        .collect::<Vec<Option<u8>>>();

    assert_eq!(
        result,
        [
            None,
            None,
            Some(2),
            Some(2),
            Some(3),
            None,
            Some(0),
            Some(1),
            Some(1)
        ]
    );
}

#[test]
fn get_size_correctly_calculates_dimensions() {
    let field = Field::new(3, 3, 3).unwrap();
    let size = field.get_size();

    assert_eq!(size, (3, 3, 9));
}

#[test]
fn get_cell_correctly_finds_the_cell_by_its_position() {
    let field = Field::new(3, 3, 3).unwrap();
    let cell = field.get_cell((0, 0));

    assert!(cell.is_some());
    assert_eq!(cell.unwrap(), &field.grid[0][0])
}

#[test]
fn get_cell_returns_none_for_non_existing_cells() {
    let field = Field::new(3, 3, 3).unwrap();
    let cell = field.get_cell((10, 10));

    assert!(cell.is_none());
}

#[test]
fn get_cell_mut_correctly_finds_the_cell_by_its_position() {
    // A mutable borrow of a cell cannot be compared against the field that
    // lends it, so there is nothing to assert here.
}

#[test]
fn get_cell_mut_returns_none_for_non_existing_cells() {
    let mut field = Field::new(3, 3, 3).unwrap();
    let cell = field.get_cell_mut((10, 10));

    assert!(cell.is_none());
}

#[test]
fn open_cell_opens_the_requested_cell() {
    let mut field = create_stub_mined_field(false);
    field.update_mines_around_values();
    field.open_cell((0, 2));

    // First, make sure the target cell is opened.
    assert!(field.get_cell((0, 2)).unwrap().is_open());

    // Then get all the cells...
    let mut all_cells: Vec<_> = field.grid.iter_mut().flatten().collect();

    // ...And remove the target one. Make sure all the remaining cells are closed (no chain-opening in this case,
    // because the target cell has two mines around it).
    all_cells.remove(2);
    assert!(all_cells.iter().all(|cell| !cell.is_open()))
}

#[test]
fn open_cell_chain_opens_empty_cells() {
    let mut field = create_stub_mined_field(true);
    field.update_mines_around_values();
    field.open_cell((2, 0));

    let open_cells_positions = [(2u8, 0u8), (3, 0), (3, 1), (3, 2)];
    let closed_cells_positions = [
        (0u8, 0u8),
        (0, 1),
        (0, 2),
        (1, 0),
        (1, 1),
        (1, 2),
        (2, 2),
        (2, 3),
    ];

    // A meta-assertion. Make sure we're not forgetting any cells.
    assert_eq!(
        field.get_size().2,
        (open_cells_positions.len() + closed_cells_positions.len()) as u16
    );

    // Make sure all the cells which need to be open are open.
    open_cells_positions
        .into_iter()
        .map(|pos| field.get_cell(pos))
        .all(|cell| cell.unwrap().is_open());

    // Make sure all the cells which need to be closed are closed.

    closed_cells_positions
        .into_iter()
        .map(|pos| field.get_cell(pos))
        .all(|cell| !cell.unwrap().is_open());
}

#[test]
fn open_surrounding_cells_opens_correct_cells() {
    let mut field = create_stub_mined_field(false);
    field.update_mines_around_values();
    field.get_cell_mut((0, 0)).unwrap().toggle_flag();
    field.get_cell_mut((0, 1)).unwrap().toggle_flag();
    field.get_cell_mut((1, 2)).unwrap().toggle_flag();
    field.open_cell((1, 1));
    field.open_surrounding_cells((1, 1));

    // The above is the winning strategy. All the non-flagged cells should be opened by now.
    assert!(field
        .grid
        .iter()
        .flatten()
        .filter(|cell| !cell.is_flagged())
        .all(|cell| cell.is_open()));
}

#[test]
fn open_surrounding_cells_for_a_closed_cell_has_no_effect() {
    let mut field = create_stub_mined_field(false);
    field.update_mines_around_values();
    field.get_cell_mut((0, 0)).unwrap().toggle_flag();
    field.get_cell_mut((0, 1)).unwrap().toggle_flag();
    field.get_cell_mut((1, 2)).unwrap().toggle_flag();
    // don't open the target cell
    field.open_surrounding_cells((1, 1));

    // All the cells must remain closed.
    assert!(field.grid.iter().flatten().all(|cell| !cell.is_open()));
}

#[test]
fn open_surrounding_cells_for_a_flagged_cell_has_no_effect() {
    let mut field = create_stub_mined_field(false);
    field.update_mines_around_values();
    field.get_cell_mut((0, 0)).unwrap().toggle_flag();
    field.get_cell_mut((0, 1)).unwrap().toggle_flag();
    field.get_cell_mut((1, 2)).unwrap().toggle_flag();
    field.get_cell_mut((1, 1)).unwrap().toggle_flag(); // flag the target cell
    field.open_surrounding_cells((1, 1));

    // All the cells must remain closed.
    assert!(field.grid.iter().flatten().all(|cell| !cell.is_open()));
}

#[test]
fn open_surrounding_cells_has_no_effect_on_incorrect_mines_around_amount() {
    let mut field = create_stub_mined_field(false);
    field.update_mines_around_values();
    field.get_cell_mut((0, 0)).unwrap().toggle_flag();
    field.get_cell_mut((0, 1)).unwrap().toggle_flag();
    field.get_cell_mut((1, 2)).unwrap().toggle_flag();
    field.open_cell((1, 1));

    // So far so good, but add an excessive flag somewhere around
    field.get_cell_mut((2, 0)).unwrap().toggle_flag();

    field.open_surrounding_cells((1, 1));

    // All the cells (except for the target one) must remain closed.
    let mut all_cells: Vec<_> = field.grid.iter().flatten().collect();
    all_cells.remove(4);
    assert!(all_cells.into_iter().all(|cell| !cell.is_open()));
}

#[test]
fn toggle_cell_flag_correctly_toggles_the_flag() {
    let mut field = Field::new(3, 3, 3).unwrap();
    assert!(!field.get_cell((1, 1)).unwrap().is_flagged());

    field.toggle_cell_flag((1, 1));
    assert!(field.get_cell((1, 1)).unwrap().is_flagged());

    field.toggle_cell_flag((1, 1));
    assert!(!field.get_cell((1, 1)).unwrap().is_flagged());
}

#[test]
fn toggle_cell_flag_has_no_effect_if_the_cell_is_not_found() {
    let mut field = Field::new(3, 3, 3).unwrap();

    field.toggle_cell_flag((5, 5));
    assert!(field.grid.iter().flatten().all(|cell| !cell.is_flagged()));
}

#[test]
fn get_flagged_cells_amount_returns_the_correct_amount_of_flagged_cells() {
    let mut field = Field::new(3, 3, 3).unwrap();

    field.toggle_cell_flag((0, 0));
    field.toggle_cell_flag((0, 1));
    field.toggle_cell_flag((0, 2));
    field.toggle_cell_flag((1, 0));

    assert_eq!(field.get_flagged_cells_amount(), 4);
}

#[test]
fn open_mines_amount_is_determined_correctly() {
    let mut field = create_stub_mined_field(false);
    field.update_mines_around_values();

    assert!(!field.check_open_mines_exist());

    // Open a mined cell.
    field.open_cell((0, 1));

    assert!(field.check_open_mines_exist());
}

#[test]
fn the_win_condition_is_checked_correctly() {
    let mut field = create_stub_mined_field(false);
    field.update_mines_around_values();

    assert!(!field.check_all_non_mines_open());

    field.get_cell_mut((0, 0)).unwrap().toggle_flag();
    field.get_cell_mut((0, 1)).unwrap().toggle_flag();
    field.get_cell_mut((1, 2)).unwrap().toggle_flag();
    field.open_cell((1, 1));
    field.open_surrounding_cells((1, 1));

    // The above actions lead to winning the game. So by now the game is considered to be won, which is exactly what
    // the method checks.
    assert!(field.check_all_non_mines_open());
}

#[test]
fn missed_mines_get_opened_correctly() {
    let mut field = create_stub_mined_field(false);
    field.update_mines_around_values();

    // There are 3 mines on the field. Flag only one of them, then call the `open_missed_mines` method and check
    // that only the other two are open.
    field.toggle_cell_flag((0, 1));
    field.open_missed_mines();

    assert!(field.get_cell((0, 0)).unwrap().is_open());
    assert!(field.get_cell((1, 2)).unwrap().is_open());

    // The total number of open cells by now should be two.
    assert_eq!(
        field
            .grid
            .iter()
            .flatten()
            .filter(|cell| cell.is_open())
            .collect::<Vec<_>>()
            .len(),
        2
    );
}

#[test]
fn field_new_yields_all_fresh_cells() {
    let field = Field::new(7, 4, 5).unwrap();
    assert_eq!(field.get_size(), (7, 4, 28));
    assert_eq!(field.get_mines_amount(), 5);
    for row in field.grid.iter() {
        for cell in row.iter() {
            assert!(!cell.is_open());
            assert!(!cell.is_flagged());
            assert_eq!(cell.get_mines_around_amount(), Some(0));
        }
    }
}
