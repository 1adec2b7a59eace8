use game2048::board::{Board, BOARD_SIZE};
use game2048::game::{
    ActionOutcome, CellResult, Game, GameAction, STARTING_TILE_COUNT, STARTING_TILE_FOUR,
    STARTING_TILE_TWO, TITLE,
};

type Rows = [[Option<u32>; BOARD_SIZE]; BOARD_SIZE];

const FULL_WITHOUT_PAIRS: Rows = [
    [Some(2), Some(4), Some(8), Some(16)],
    [Some(32), Some(64), Some(128), Some(256)],
    [Some(512), Some(1024), Some(2048), Some(4096)],
    [Some(3), Some(6), Some(12), Some(24)],
];

fn game_of(rows: Rows, score: u32, game_over: bool) -> Game {
    let mut board = Board::default();
    for row in 0..BOARD_SIZE {
        for col in 0..BOARD_SIZE {
            *board.cell_mut(row, col) = rows[row][col];
        }
    }
    Game::from_parts(board, score, game_over)
}

fn rows_of(outcome: &ActionOutcome) -> Rows {
    let mut rows = [[None; BOARD_SIZE]; BOARD_SIZE];
    for row in 0..BOARD_SIZE {
        for col in 0..BOARD_SIZE {
            rows[row][col] = outcome.board[row][col].value;
        }
    }
    rows
}

fn board_rows(game: &Game) -> Rows {
    let mut rows = [[None; BOARD_SIZE]; BOARD_SIZE];
    for ((row, col), value) in game.board().iter_cells() {
        rows[row][col] = value;
    }
    rows
}

fn total(rows: &Rows) -> u64 {
    rows.iter()
        .flat_map(|row| row.iter())
        .map(|cell| cell.unwrap_or(0) as u64)
        .sum()
}

fn tiles(rows: &Rows) -> usize {
    rows.iter()
        .flat_map(|row| row.iter())
        .filter(|cell| cell.is_some())
        .count()
}

fn slid(rows: Rows, direction: GameAction) -> ActionOutcome {
    let game = game_of(rows, 0, false);
    let mut outcome = ActionOutcome::default();
    game.slide_and_merge(direction, &mut outcome);
    outcome
}

fn directions() -> [GameAction; 4] {
    [
        GameAction::Up,
        GameAction::Down,
        GameAction::Left,
        GameAction::Right,
    ]
}

#[test]
fn sliding_a_line_left_and_right_is_symmetric() {
    let rows = [
        [Some(2), Some(2), Some(4), Some(4)],
        [None, None, None, None],
        [None, None, None, None],
        [None, None, None, None],
    ];

    let left = slid(rows, GameAction::Left);
    assert_eq!(rows_of(&left)[0], [Some(4), Some(8), None, None]);
    assert_eq!(left.score, 12);
    assert!(left.board[0][0].merged && left.board[0][1].merged);

    let right = slid(rows, GameAction::Right);
    assert_eq!(rows_of(&right)[0], [None, None, Some(4), Some(8)]);
    assert_eq!(right.score, 12);
    assert!(right.board[0][2].merged && right.board[0][3].merged);
}

#[test]
fn four_equal_tiles_merge_into_two_in_every_direction() {
    let row = [
        [Some(2), Some(2), Some(2), Some(2)],
        [None, None, None, None],
        [None, None, None, None],
        [None, None, None, None],
    ];
    let right = slid(row, GameAction::Right);
    assert_eq!(rows_of(&right)[0], [None, None, Some(4), Some(4)]);
    assert_eq!(right.score, 8);
    assert!(right.board[0][2].merged && right.board[0][3].merged);
    assert!(!right.board[0][0].merged && !right.board[0][1].merged);

    let column = [
        [None, Some(2), None, None],
        [None, Some(2), None, None],
        [None, Some(2), None, None],
        [None, Some(2), None, None],
    ];
    let up = slid(column, GameAction::Up);
    assert_eq!(
        rows_of(&up),
        [
            [None, Some(4), None, None],
            [None, Some(4), None, None],
            [None, None, None, None],
            [None, None, None, None],
        ]
    );
    assert_eq!(up.score, 8);
    let down = slid(column, GameAction::Down);
    assert_eq!(
        rows_of(&down),
        [
            [None, None, None, None],
            [None, None, None, None],
            [None, Some(4), None, None],
            [None, Some(4), None, None],
        ]
    );
    assert_eq!(down.score, 8);
}

#[test]
fn a_merged_tile_does_not_merge_again() {
    let rows = [
        [Some(4), Some(4), Some(8), None],
        [Some(2), Some(2), Some(4), Some(8)],
        [None, None, None, None],
        [None, None, None, None],
    ];
    let left = slid(rows, GameAction::Left);
    assert_eq!(rows_of(&left)[0], [Some(8), Some(8), None, None]);
    assert!(left.board[0][0].merged);
    assert!(!left.board[0][1].merged);
    assert_eq!(rows_of(&left)[1], [Some(4), Some(4), Some(8), None]);
    assert!(left.board[1][0].merged);
    assert!(!left.board[1][1].merged && !left.board[1][2].merged);
    assert_eq!(left.score, 8 + 4);
}

#[test]
fn three_equal_tiles_merge_at_the_leading_edge() {
    let rows = [
        [Some(2), Some(2), Some(2), None],
        [None, None, None, None],
        [None, None, None, None],
        [None, None, None, None],
    ];
    let left = slid(rows, GameAction::Left);
    assert_eq!(rows_of(&left)[0], [Some(4), Some(2), None, None]);
    assert!(left.board[0][0].merged && !left.board[0][1].merged);
    assert_eq!(left.score, 4);

    let right = slid(rows, GameAction::Right);
    assert_eq!(rows_of(&right)[0], [None, None, Some(2), Some(4)]);
    assert!(right.board[0][3].merged && !right.board[0][2].merged);
    assert_eq!(right.score, 4);
}

#[test]
fn tiles_slide_across_gaps_in_every_line() {
    let rows = [
        [None, Some(2), None, Some(4)],
        [Some(8), None, None, Some(8)],
        [None, None, None, Some(16)],
        [Some(2), Some(4), Some(2), Some(4)],
    ];
    let left = slid(rows, GameAction::Left);
    assert_eq!(
        rows_of(&left),
        [
            [Some(2), Some(4), None, None],
            [Some(16), None, None, None],
            [Some(16), None, None, None],
            [Some(2), Some(4), Some(2), Some(4)],
        ]
    );
    assert_eq!(left.score, 16);

    let up = slid(rows, GameAction::Up);
    assert_eq!(
        rows_of(&up),
        [
            [Some(8), Some(2), Some(2), Some(4)],
            [Some(2), Some(4), None, Some(8)],
            [None, None, None, Some(16)],
            [None, None, None, Some(4)],
        ]
    );
    assert_eq!(up.score, 0);

    let down = slid(rows, GameAction::Down);
    assert_eq!(
        rows_of(&down),
        [
            [None, None, None, Some(4)],
            [None, None, None, Some(8)],
            [Some(8), Some(2), None, Some(16)],
            [Some(2), Some(4), Some(2), Some(4)],
        ]
    );
    assert_eq!(down.score, 0);
}

#[test]
fn sliding_writes_over_what_the_outcome_held_and_keeps_the_rest() {
    let game = game_of(
        [
            [Some(2), Some(2), None, None],
            [None, None, None, None],
            [None, None, None, Some(4)],
            [None, None, None, None],
        ],
        0,
        false,
    );
    let mut outcome = ActionOutcome::default();
    for row in 0..BOARD_SIZE {
        for col in 0..BOARD_SIZE {
            outcome.board[row][col] = CellResult {
                value: Some(1024),
                merged: true,
            };
        }
    }
    outcome.score = 100;
    outcome.changed = true;
    outcome.game_over = true;

    game.slide_and_merge(GameAction::Left, &mut outcome);

    assert_eq!(
        rows_of(&outcome),
        [
            [Some(4), Some(1024), Some(1024), Some(1024)],
            [Some(1024), Some(1024), Some(1024), Some(1024)],
            [Some(4), Some(1024), Some(1024), Some(1024)],
            [Some(1024), Some(1024), Some(1024), Some(1024)],
        ]
    );
    assert!(outcome.board[0][0].merged);
    assert!(!outcome.board[2][0].merged);
    assert_eq!(outcome.score, 104);
    assert!(outcome.changed);
    assert!(outcome.game_over);
    assert_eq!(game.board().cell(0, 1), Some(2));
}

#[test]
fn a_line_fills_only_as_many_cells_as_it_is_given() {
    let game = Game::default();
    let mut board = [[CellResult::default(); BOARD_SIZE]; BOARD_SIZE];
    let mut score = 5;
    game.slide_and_merge_line(vec![2, 4, 8], vec![(1, 1), (2, 2)], &mut board, &mut score);
    assert_eq!(score, 5);
    assert_eq!(board[1][1].value, Some(2));
    assert_eq!(board[2][2].value, Some(4));
    assert_eq!(
        board
            .iter()
            .flat_map(|row| row.iter())
            .filter(|cell| cell.value.is_some())
            .count(),
        2
    );

    let mut board = [[CellResult::default(); BOARD_SIZE]; BOARD_SIZE];
    let mut score = 0;
    game.slide_and_merge_line(vec![2, 2, 4, 4], vec![(3, 0)], &mut board, &mut score);
    assert_eq!(score, 4);
    assert_eq!(board[3][0].value, Some(4));
    assert!(board[3][0].merged);

    let mut board = [[CellResult::default(); BOARD_SIZE]; BOARD_SIZE];
    let mut score = 0;
    game.slide_and_merge_line(vec![2, 2], vec![], &mut board, &mut score);
    assert_eq!(score, 0);
    game.slide_and_merge_line(vec![], vec![(0, 0), (0, 1)], &mut board, &mut score);
    assert!(board
        .iter()
        .flat_map(|row| row.iter())
        .all(|cell| cell.value.is_none()));
}

#[test]
fn a_position_given_twice_keeps_the_later_tile() {
    let game = Game::default();
    let mut board = [[CellResult::default(); BOARD_SIZE]; BOARD_SIZE];
    let mut score = 0;
    game.slide_and_merge_line(
        vec![8, 8, 2, 4],
        vec![(0, 0), (1, 1), (0, 0)],
        &mut board,
        &mut score,
    );
    assert_eq!(score, 16);
    assert_eq!(board[0][0].value, Some(4));
    assert!(!board[0][0].merged);
    assert_eq!(board[1][1].value, Some(2));
}

#[test]
fn moves_conserve_the_sum_of_the_tiles() {
    let rows = [
        [Some(2), Some(2), Some(4), None],
        [Some(4), None, Some(4), Some(8)],
        [None, Some(16), None, Some(16)],
        [Some(2), None, None, Some(2)],
    ];
    for direction in directions() {
        let mut game = game_of(rows, 7, false);
        let before = total(&board_rows(&game));
        let outcome = game.apply_move(direction).unwrap();
        assert!(outcome.changed);
        let after = total(&board_rows(&game));
        assert!(after == before + 2 || after == before + 4);
        assert_eq!(total(&rows_of(&outcome)), after);
    }
    let left = slid(rows, GameAction::Left);
    assert_eq!(total(&rows_of(&left)), total(&rows));
    assert_eq!(left.score, 4 + 8 + 32 + 4);
}

#[test]
fn a_move_that_changes_nothing_leaves_the_game_as_it_was() {
    let rows = [
        [Some(2), Some(4), None, None],
        [Some(8), None, None, None],
        [Some(2), Some(8), Some(2), None],
        [None, None, None, None],
    ];
    let mut game = game_of(rows, 40, false);
    let outcome = game.apply_move(GameAction::Left).unwrap();
    assert!(!outcome.changed);
    assert!(!outcome.game_over);
    assert_eq!(outcome.score, 40);
    assert_eq!(rows_of(&outcome), rows);
    assert!(outcome
        .board
        .iter()
        .flat_map(|row| row.iter())
        .all(|cell| !cell.merged));
    assert_eq!(board_rows(&game), rows);
    assert_eq!(game.score(), 40);
    assert!(!game.is_game_over());
}

#[test]
fn a_finished_game_ignores_every_move() {
    let mut game = game_of(FULL_WITHOUT_PAIRS, 77, true);
    for _ in 0..3 {
        for direction in directions() {
            let outcome = game.apply_move(direction).unwrap();
            assert!(!outcome.changed);
            assert!(outcome.game_over);
            assert_eq!(outcome.score, 77);
            assert_eq!(rows_of(&outcome), FULL_WITHOUT_PAIRS);
            assert_eq!(board_rows(&game), FULL_WITHOUT_PAIRS);
            assert_eq!(game.score(), 77);
            assert!(game.is_game_over());
        }
    }
    let outcome = game.restart();
    assert!(outcome.changed);
    assert!(!game.is_game_over());
}

#[test]
fn a_finished_game_ignores_moves_even_if_its_board_could_move() {
    let rows = [
        [Some(2), Some(2), None, None],
        [None, None, None, None],
        [None, None, None, None],
        [None, None, None, None],
    ];
    let mut game = game_of(rows, 3, true);
    let outcome = game.apply_move(GameAction::Left).unwrap();
    assert!(!outcome.changed);
    assert!(outcome.game_over);
    assert_eq!(outcome.score, 3);
    assert_eq!(board_rows(&game), rows);
}

#[test]
fn a_changing_move_spawns_one_tile_on_a_cell_left_empty() {
    let rows = [
        [None, Some(2), None, Some(2)],
        [Some(4), Some(4), Some(8), None],
        [None, None, None, None],
        [Some(16), None, Some(16), Some(2)],
    ];
    for _ in 0..50 {
        for direction in directions() {
            let expected = match direction {
                GameAction::Up => slid(rows, GameAction::Up),
                GameAction::Down => slid(rows, GameAction::Down),
                GameAction::Left => slid(rows, GameAction::Left),
                GameAction::Right => slid(rows, GameAction::Right),
            };
            let mut game = game_of(rows, 0, false);
            let outcome = game.apply_move(direction).unwrap();
            assert!(outcome.changed);
            assert_eq!(outcome.score, expected.score);
            let mut spawned = Vec::new();
            for row in 0..BOARD_SIZE {
                for col in 0..BOARD_SIZE {
                    let cell = outcome.board[row][col];
                    let slid_cell = expected.board[row][col];
                    if cell.value != slid_cell.value {
                        assert_eq!(slid_cell.value, None);
                        assert!(!cell.merged);
                        spawned.push(cell.value.unwrap());
                    } else {
                        assert_eq!(cell.merged, slid_cell.merged);
                    }
                }
            }
            assert_eq!(spawned.len(), 1);
            assert!(spawned[0] == 2 || spawned[0] == 4);
            assert_eq!(tiles(&rows_of(&outcome)), tiles(&rows_of(&expected)) + 1);
            assert_eq!(board_rows(&game), rows_of(&outcome));
        }
    }
}

#[test]
fn a_new_game_starts_with_two_tiles() {
    for _ in 0..100 {
        let game = Game::new();
        let rows = board_rows(&game);
        assert_eq!(tiles(&rows), STARTING_TILE_COUNT);
        assert!(rows
            .iter()
            .flat_map(|row| row.iter())
            .flatten()
            .all(|tile| *tile == STARTING_TILE_TWO || *tile == STARTING_TILE_FOUR));
        assert_eq!(game.score(), 0);
        assert!(!game.is_game_over());
        let outcome = game.outcome();
        assert!(!outcome.changed);
        assert_eq!(rows_of(&outcome), rows);
    }
}

#[test]
fn restart_always_reports_a_change() {
    let mut game = Game::new();
    for _ in 0..100 {
        let outcome = game.restart();
        assert!(outcome.changed);
        assert_eq!(outcome.score, 0);
        assert!(!outcome.game_over);
        assert_eq!(tiles(&rows_of(&outcome)), 2);
        assert_eq!(rows_of(&outcome), board_rows(&game));
        assert!(outcome
            .board
            .iter()
            .flat_map(|row| row.iter())
            .all(|cell| !cell.merged && matches!(cell.value, None | Some(2 | 4))));
    }
}

#[test]
fn starting_tiles_land_on_different_cells_over_many_games() {
    let mut seen = [[false; BOARD_SIZE]; BOARD_SIZE];
    for _ in 0..2000 {
        let game = Game::new();
        for ((row, col), value) in game.board().iter_cells() {
            if value.is_some() {
                seen[row][col] = true;
            }
        }
    }
    assert!(seen.iter().flat_map(|row| row.iter()).all(|hit| *hit));
}

#[test]
fn a_full_board_without_pairs_ends_the_game() {
    let mut game = game_of(FULL_WITHOUT_PAIRS, 12, false);
    let outcome = game.apply_move(GameAction::Up).unwrap();
    assert!(!outcome.changed);
    assert!(outcome.game_over);
    assert!(game.is_game_over());
    assert_eq!(outcome.score, 12);
    assert_eq!(rows_of(&outcome), FULL_WITHOUT_PAIRS);
}

#[test]
fn a_full_board_with_one_pair_goes_on() {
    let mut with_row_pair = FULL_WITHOUT_PAIRS;
    with_row_pair[2][1] = Some(512);
    let mut game = game_of(with_row_pair, 0, false);
    let outcome = game.apply_move(GameAction::Up).unwrap();
    assert!(!outcome.changed);
    assert!(!outcome.game_over);
    assert!(!game.is_game_over());

    let mut with_column_pair = FULL_WITHOUT_PAIRS;
    with_column_pair[1][3] = Some(16);
    let mut game = game_of(with_column_pair, 0, false);
    let outcome = game.apply_move(GameAction::Left).unwrap();
    assert!(!outcome.changed);
    assert!(!outcome.game_over);
    assert!(!game.is_game_over());

    let mut outcome = ActionOutcome::default();
    game.check_game_over(&mut outcome);
    assert!(!outcome.game_over);
}

#[test]
fn checking_for_the_end_keeps_a_flag_that_is_set() {
    let mut game = game_of(
        [
            [Some(2), None, None, None],
            [None, None, None, None],
            [None, None, None, None],
            [None, None, None, None],
        ],
        9,
        true,
    );
    let mut outcome = ActionOutcome::default();
    outcome.score = 5;
    outcome.changed = true;
    game.check_game_over(&mut outcome);
    assert!(game.is_game_over());
    assert!(!outcome.game_over);
    assert_eq!(outcome.score, 5);
    assert!(outcome.changed);
    assert_eq!(game.score(), 9);
}

#[test]
fn update_board_copies_every_cell_and_keeps_a_set_flag() {
    let mut game = game_of(FULL_WITHOUT_PAIRS, 1, false);
    let mut outcome = ActionOutcome::default();
    outcome.board[3][3].value = Some(24);
    outcome.board[0][1] = CellResult {
        value: Some(4),
        merged: true,
    };
    game.update_board(&mut outcome);
    assert!(outcome.changed);
    let mut expected = [[None; BOARD_SIZE]; BOARD_SIZE];
    expected[3][3] = Some(24);
    expected[0][1] = Some(4);
    assert_eq!(board_rows(&game), expected);
    assert_eq!(game.score(), 1);

    game.update_board(&mut outcome);
    assert!(outcome.changed);
    assert_eq!(board_rows(&game), expected);
    assert!(outcome.board[0][1].merged);
}

#[test]
fn the_outcome_of_a_game_shows_it_unmerged_and_unchanged() {
    let rows = [
        [Some(2), None, None, Some(4)],
        [None, Some(64), None, None],
        [None, None, None, None],
        [Some(8), None, None, Some(2)],
    ];
    let game = game_of(rows, 321, true);
    let outcome = game.outcome();
    assert_eq!(outcome.score, 321);
    assert!(outcome.game_over);
    assert!(!outcome.changed);
    assert_eq!(rows_of(&outcome), rows);
    assert!(outcome
        .board
        .iter()
        .flat_map(|row| row.iter())
        .all(|cell| !cell.merged));
    let listed = outcome.iter_cells();
    assert_eq!(listed.len(), 16);
    assert_eq!(listed[3].0, (0, 3));
    assert_eq!(listed[3].1.value, Some(4));
    assert_eq!(listed[12].0, (3, 0));
    assert_eq!(listed[12].1.value, Some(8));
}

#[test]
fn an_outcome_can_be_made_from_a_game() {
    let rows = [
        [None, Some(4), None, None],
        [None, None, None, Some(2)],
        [None, None, None, None],
        [Some(32), None, None, None],
    ];
    let game = game_of(rows, 36, false);
    let outcome = ActionOutcome::from(&game);
    assert_eq!(outcome.score, 36);
    assert!(!outcome.game_over);
    assert!(!outcome.changed);
    assert_eq!(rows_of(&outcome), rows);
    assert_eq!(rows_of(&game.outcome()), rows);
}

#[test]
fn defaults_are_empty() {
    let cell = CellResult::default();
    assert_eq!(cell.value, None);
    assert!(!cell.merged);
    let outcome = ActionOutcome::default();
    assert_eq!(outcome.score, 0);
    assert!(!outcome.changed);
    assert!(!outcome.game_over);
    assert_eq!(tiles(&rows_of(&outcome)), 0);
    let game = Game::default();
    assert_eq!(game.score(), 0);
    assert!(!game.is_game_over());
    assert_eq!(tiles(&board_rows(&game)), 0);
    assert_eq!(TITLE, " 2048 ");
}

#[test]
fn empty_cells_are_listed_in_row_major_order() {
    let mut outcome = ActionOutcome::default();
    for row in 0..BOARD_SIZE {
        for col in 0..BOARD_SIZE {
            outcome.board[row][col].value = Some(2);
        }
    }
    assert!(outcome.empty_cells().is_empty());
    outcome.board[3][1].value = None;
    outcome.board[0][2].value = None;
    outcome.board[2][0].value = None;
    assert_eq!(outcome.empty_cells(), vec![(0, 2), (2, 0), (3, 1)]);
    assert_eq!(ActionOutcome::default().empty_cells().len(), 16);
}

#[test]
fn placing_a_tile_changes_one_cell() {
    let mut outcome = ActionOutcome::default();
    outcome.board[1][1] = CellResult {
        value: Some(8),
        merged: true,
    };
    outcome.score = 3;
    outcome.place_tile(1, 1, 4);
    outcome.place_tile(2, 3, 2);
    assert_eq!(outcome.board[1][1].value, Some(4));
    assert!(!outcome.board[1][1].merged);
    assert_eq!(outcome.board[2][3].value, Some(2));
    assert_eq!(tiles(&rows_of(&outcome)), 2);
    assert_eq!(outcome.score, 3);
}

#[test]
fn spawned_tiles_are_twos_and_fours() {
    assert_eq!(Game::tile_for(true), 2);
    assert_eq!(Game::tile_for(false), 4);
    let mut twos = 0;
    let mut fours = 0;
    for _ in 0..4000 {
        match Game::spawn_tile() {
            2 => twos += 1,
            4 => fours += 1,
            other => panic!("spawned {other}"),
        }
    }
    assert!(twos > fours);
    assert!(fours > 0);
}

#[test]
fn spawning_fills_the_board_cell_by_cell_and_then_fails() {
    let game = Game::default();
    let mut outcome = ActionOutcome::default();
    outcome.score = 11;
    for filled in 0..BOARD_SIZE * BOARD_SIZE {
        assert_eq!(tiles(&rows_of(&outcome)), filled);
        assert!(game.spawn_random_tile(&mut outcome).is_ok());
    }
    assert_eq!(tiles(&rows_of(&outcome)), 16);
    let before = rows_of(&outcome);
    let error = game.spawn_random_tile(&mut outcome).unwrap_err();
    assert_eq!(error, game2048::game::SpawnError::NoEmptyCell);
    assert_eq!(rows_of(&outcome), before);
    assert_eq!(outcome.score, 11);
    assert!(before
        .iter()
        .flat_map(|row| row.iter())
        .all(|cell| matches!(cell, Some(2 | 4))));
}

#[test]
fn a_move_is_possible_as_long_as_the_numbers_fit() {
    let big = 1u32 << 31;
    let rows = [
        [Some(big), Some(big), None, None],
        [None, None, None, None],
        [None, None, None, None],
        [None, None, None, None],
    ];
    let game = game_of(rows, 0, false);
    assert!(!game.can_apply(&GameAction::Left));
    assert!(!game.can_apply(&GameAction::Right));
    assert!(game.can_apply(&GameAction::Up));
    assert!(game.can_apply(&GameAction::Down));
    assert!(game_of(rows, 0, true).can_apply(&GameAction::Left));

    let pair = [
        [Some(2), Some(2), None, None],
        [None, None, None, None],
        [None, Some(4), None, None],
        [None, Some(4), None, None],
    ];
    assert!(game_of(pair, u32::MAX - 4, false).can_apply(&GameAction::Left));
    assert!(!game_of(pair, u32::MAX - 3, false).can_apply(&GameAction::Left));
    assert!(game_of(pair, u32::MAX - 8, false).can_apply(&GameAction::Up));
    assert!(!game_of(pair, u32::MAX - 7, false).can_apply(&GameAction::Down));

    let mut game = game_of(pair, u32::MAX - 4, false);
    let outcome = game.apply_move(GameAction::Left).unwrap();
    assert_eq!(outcome.score, u32::MAX);
    assert_eq!(game.score(), u32::MAX);

    let half = 1u32 << 30;
    let rows = [
        [Some(half), Some(half), Some(half), Some(half)],
        [None, None, None, None],
        [None, None, None, None],
        [None, None, None, None],
    ];
    let game = game_of(rows, 0, false);
    assert!(!game.can_apply(&GameAction::Left));
    assert!(game_of(rows, 0, false).can_apply(&GameAction::Up));
    let mut outcome = ActionOutcome::default();
    game_of(
        [
            [Some(half), Some(half), None, None],
            [None, None, None, None],
            [None, None, None, None],
            [None, None, None, None],
        ],
        0,
        false,
    )
    .slide_and_merge(GameAction::Right, &mut outcome);
    assert_eq!(outcome.board[0][3].value, Some(big));
    assert_eq!(outcome.score, big);
}
