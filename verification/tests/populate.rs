use mine_rs::cell::Cell;
use mine_rs::field::{Field, FieldError};

#[test]
fn the_field_gets_correctly_populated_with_mines() {
    let mut field = Field::new(3, 3, 3).unwrap();
    let result = field.populate_with_mines(None);

    assert!(result.is_ok());
    assert_eq!(
        field.mines_amount,
        field
            .grid
            .iter()
            .flatten()
            .filter(|cell| cell.is_mined())
            .collect::<Vec<&Cell>>()
            .len() as u16
    );
}

#[test]
fn populate_with_mines_correctly_excepts_a_cell() {
    for _ in 0..100 {
        let mut field = Field::new(3, 3, 3).unwrap();
        let result = field.populate_with_mines(Some((0, 0)));

        assert!(result.is_ok());
        assert!(!field.grid[0][0].is_mined())
    }
}

#[test]
fn populate_with_mines_fails_on_invalid_excepted_cell_position() {
    let mut field = Field::new(3, 3, 3).unwrap();
    let result = field.populate_with_mines(Some((5, 5)));

    assert!(result.is_err_and(|err| err == FieldError::InvalidExceptedCellPosition((5, 5))));
}

#[test]
fn populate_with_mines_fails_when_there_are_mines_already() {
    let mut field = Field::new(3, 3, 3).unwrap();
    field.populate_with_mines(None).unwrap();
    let result = field.populate_with_mines(None);

    assert!(result.is_err_and(|err| err == FieldError::MinesAlreadyExist));
}

/// Recounts the mined neighbours of a cell straight from the grid.
fn count_mined_neighbours(field: &Field, row: i16, column: i16) -> u8 {
    let mut count: u8 = 0;
    for dr in [-1i16, 0, 1] {
        for dc in [-1i16, 0, 1] {
            if dr == 0 && dc == 0 {
                continue;
            }
            let (nr, nc) = (row + dr, column + dc);
            if nr < 0 || nc < 0 {
                continue;
            }
            if let Some(cell) = field.get_cell((nr as u8, nc as u8)) {
                if cell.is_mined() {
                    count += 1;
                }
            }
        }
    }
    count
}

#[test]
fn counts_match_the_neighbourhood_after_populating() {
    let mut field = Field::new(9, 9, 10).unwrap();
    field.populate_with_mines(None).unwrap();

    for row in 0..9i16 {
        for column in 0..9i16 {
            let cell = field.get_cell((row as u8, column as u8)).unwrap();
            match cell.get_mines_around_amount() {
                Some(amount) => {
                    assert_eq!(amount, count_mined_neighbours(&field, row, column));
                }
                None => assert!(cell.is_mined()),
            }
        }
    }
}

#[test]
fn populating_leaves_every_cell_closed_and_unflagged() {
    let mut field = Field::new(6, 6, 12).unwrap();
    field.populate_with_mines(Some((3, 3))).unwrap();

    for row in field.grid.iter() {
        for cell in row.iter() {
            assert!(!cell.is_open());
            assert!(!cell.is_flagged());
        }
    }
}
