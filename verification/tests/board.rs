use game2048::board::{Board, BOARD_SIZE};

fn board_from_rows(rows: [[Option<u32>; BOARD_SIZE]; BOARD_SIZE]) -> Board {
    let mut board = Board::default();
    for (row, row_cells) in rows.iter().enumerate() {
        for (col, value) in row_cells.iter().enumerate() {
            *board.cell_mut(row, col) = *value;
        }
    }
    board
}

#[test]
fn iter_cells_is_row_major_with_coordinates() {
    let board = board_from_rows([
        [Some(2), None, Some(4), None],
        [None, Some(8), None, None],
        [Some(16), None, None, Some(32)],
        [None, None, None, Some(64)],
    ]);

    let cells: Vec<((usize, usize), Option<u32>)> = board
        .iter_cells()
        .into_iter()
        .map(|(coord, value)| (coord, value))
        .collect();

    let expected_coords: Vec<(usize, usize)> = (0..BOARD_SIZE)
        .flat_map(|row| (0..BOARD_SIZE).map(move |col| (row, col)))
        .collect();

    assert_eq!(cells.len(), BOARD_SIZE * BOARD_SIZE);
    assert_eq!(
        cells.iter().map(|(coord, _)| *coord).collect::<Vec<_>>(),
        expected_coords
    );
    assert_eq!(cells[0], ((0, 0), Some(2)));
    assert_eq!(cells[5], ((1, 1), Some(8)));
    assert_eq!(cells[15], ((3, 3), Some(64)));
}

#[test]
fn col_filters_empty_values_and_can_reverse() {
    let board = board_from_rows([
        [Some(2), None, None, None],
        [None, None, None, None],
        [Some(4), None, None, None],
        [Some(8), None, None, None],
    ]);

    assert_eq!(board.col(0).into_iter().collect::<Vec<_>>(), vec![2, 4, 8]);
    assert_eq!(
        board.col(0).into_iter().rev().collect::<Vec<_>>(),
        vec![8, 4, 2]
    );
}

#[test]
fn row_filters_empty_values_and_can_reverse() {
    let board = board_from_rows([
        [None, None, None, None],
        [None, None, None, None],
        [None, Some(4), None, Some(8)],
        [None, None, None, None],
    ]);

    assert_eq!(board.row(2).into_iter().collect::<Vec<_>>(), vec![4, 8]);
    assert_eq!(
        board.row(2).into_iter().rev().collect::<Vec<_>>(),
        vec![8, 4]
    );
}

#[test]
fn cell_and_cell_mut_round_trip() {
    let mut board = Board::default();

    assert_eq!(board.cell(1, 2), None);
    *board.cell_mut(1, 2) = Some(32);
    assert_eq!(board.cell(1, 2), Some(32));
    *board.cell_mut(1, 2) = None;
    assert_eq!(board.cell(1, 2), None);
}

#[test]
fn default_board_is_empty() {
    let board = Board::default();
    for ((row, col), value) in board.iter_cells() {
        assert_eq!(value, None, "cell ({row}, {col})");
    }
    for i in 0..BOARD_SIZE {
        assert!(board.row(i).is_empty());
        assert!(board.col(i).is_empty());
    }
}

#[test]
fn cell_mut_changes_one_cell_only() {
    let mut board = board_from_rows([
        [Some(2), Some(4), Some(8), Some(16)],
        [None, None, None, None],
        [Some(32), None, Some(64), None],
        [None, Some(128), None, Some(256)],
    ]);
    *board.cell_mut(2, 1) = Some(512);
    let expected = [
        [Some(2), Some(4), Some(8), Some(16)],
        [None, None, None, None],
        [Some(32), Some(512), Some(64), None],
        [None, Some(128), None, Some(256)],
    ];
    for ((row, col), value) in board.iter_cells() {
        assert_eq!(value, expected[row][col]);
    }
}

#[test]
fn full_row_and_column_keep_their_order() {
    let board = board_from_rows([
        [Some(2), Some(4), Some(8), Some(16)],
        [Some(32), None, None, None],
        [Some(64), None, None, None],
        [Some(128), None, None, None],
    ]);
    assert_eq!(board.row(0), vec![2, 4, 8, 16]);
    assert_eq!(board.col(0), vec![2, 32, 64, 128]);
    assert_eq!(board.col(3), vec![16]);
    assert_eq!(board.row(3), vec![128]);
}
