//! The game engine: moves, spawning, scoring and the end of the game.

use crate::board::{
    empty_grid, is_grid, lemma_occupied_whole, on_board, Board, Grid, BOARD_SIZE,
};
use crate::merge::{earned, front_pair, lemma_merged_len, merged, merges_fit, written};
use crate::random::{choose_one, drawn_from, random_ratio, sample_fill};
use crate::slide::{
    earned_by_lines, lemma_changed_slide_leaves_room, lemma_earned_by_lines_grows,
    lemma_line_tiles, lemma_written_on_line, line_cell, line_cells, line_of, line_tiles, slid,
    slid_over, slide_earned, slide_fits,
};
use vstd::prelude::*;

verus! {

/// The title shown above the board.
pub const TITLE: &'static str = " 2048 ";

/// Number of tiles on the board when a game starts.
pub const STARTING_TILE_COUNT: usize = 2;

/// The tile that is spawned most of the time.
pub const STARTING_TILE_TWO: u32 = 2;

/// The tile that is spawned now and then.
pub const STARTING_TILE_FOUR: u32 = 4;

/// A spawned tile is a two in `STARTING_TILE_TWO_CHANCES` cases out of
/// `STARTING_TILE_CHANCES`, that is nine times in ten.
pub const STARTING_TILE_TWO_CHANCES: u32 = 9;

/// See [`STARTING_TILE_TWO_CHANCES`].
pub const STARTING_TILE_CHANCES: u32 = 10;

/// Why a tile could not be spawned.
#[derive(Clone, Copy, Debug, PartialEq, Eq)]
pub enum SpawnError {
    /// Every cell holds a tile already.
    NoEmptyCell,
}

impl SpawnError {
    /// The error in words.
    pub fn message(&self) -> (text: &'static str)
        ensures
            text == "No empty cell available to spawn a random tile",
    {
        "No empty cell available to spawn a random tile"
    }
}

/// A direction in which the player pushes the tiles.
#[derive(Debug)]
pub enum GameAction {
    Up,
    Down,
    Left,
    Right,
}

/// What one cell shows after an operation: its tile, and whether that tile is the product of
/// a merge in this very operation.
#[derive(Clone, Copy, Debug)]
pub struct CellResult {
    pub value: Option<u32>,
    pub merged: bool,
}

impl Default for CellResult {
    /// An empty cell.
    fn default() -> (cell: CellResult)
        ensures
            cell == (CellResult { value: None, merged: false }),
    {
        CellResult { value: None, merged: false }
    }
}

/// The cells of an outcome, row by row.
pub type Cells = Seq<Seq<CellResult>>;

/// The tiles that a board of cell results shows.
pub open spec fn values(cells: Cells) -> Grid {
    Seq::new(
        BOARD_SIZE as nat,
        |row: int| Seq::new(BOARD_SIZE as nat, |col: int| cells[row][col].value),
    )
}

/// A grid shown with no cell marked as merged.
pub open spec fn unmerged(grid: Grid) -> Cells {
    Seq::new(
        BOARD_SIZE as nat,
        |row: int|
            Seq::new(
                BOARD_SIZE as nat,
                |col: int| CellResult { value: grid[row][col], merged: false },
            ),
    )
}

/// The mathematical content of an [`ActionOutcome`].
pub ghost struct Snapshot {
    pub score: u32,
    pub changed: bool,
    pub game_over: bool,
    pub cells: Cells,
}

/// The snapshot handed to the caller after every operation.
#[derive(Debug)]
pub struct ActionOutcome {
    pub score: u32,
    pub changed: bool,
    pub game_over: bool,
    pub board: [[CellResult; BOARD_SIZE]; BOARD_SIZE],
}

impl View for ActionOutcome {
    type V = Snapshot;

    open spec fn view(&self) -> Snapshot {
        Snapshot {
            score: self.score,
            changed: self.changed,
            game_over: self.game_over,
            cells: Seq::new(
                BOARD_SIZE as nat,
                |row: int| Seq::new(BOARD_SIZE as nat, |col: int| self.board[row][col]),
            ),
        }
    }
}

impl Default for ActionOutcome {
    /// Score zero, nothing changed, game not over, every cell empty.
    fn default() -> (outcome: ActionOutcome)
        ensures
            outcome@ == (Snapshot {
                score: 0,
                changed: false,
                game_over: false,
                cells: unmerged(empty_grid()),
            }),
    {
        let outcome = ActionOutcome {
            score: 0,
            changed: false,
            game_over: false,
            board: [[CellResult::default(); BOARD_SIZE]; BOARD_SIZE],
        };
        assert(outcome@.cells =~~= unmerged(empty_grid()));
        outcome
    }
}

impl ActionOutcome {
    /// The coordinates of the empty cells, in row-major order.
    pub fn empty_cells(&self) -> (empty: Vec<(usize, usize)>)
        ensures
            forall|i: int|
                0 <= i < empty.len() ==> (#[trigger] empty[i]).0 < BOARD_SIZE && empty[i].1
                    < BOARD_SIZE && self@.cells[empty[i].0 as int][empty[i].1 as int].value
                    is None,
            forall|row: usize, col: usize|
                row < BOARD_SIZE && col < BOARD_SIZE && self@.cells[row as int][col as int].value
                    is None ==> #[trigger] empty@.contains((row, col)),
            forall|i: int, j: int|
                0 <= i < j < empty.len() ==> {
                    (#[trigger] empty[i]).0 * BOARD_SIZE + empty[i].1 < (#[trigger] empty[j]).0
                        * BOARD_SIZE + empty[j].1
                },
    {
        let cells = self.iter_cells();
        let mut empty: Vec<(usize, usize)> = Vec::new();
        for i in 0..cells.len()
            invariant
                cells.len() == BOARD_SIZE * BOARD_SIZE,
                forall|j: int|
                    0 <= j < cells.len() ==> {
                        &&& (#[trigger] cells[j]).0.0 == j / (BOARD_SIZE as int)
                        &&& cells[j].0.1 == j % (BOARD_SIZE as int)
                        &&& cells[j].1 == self@.cells[j / (BOARD_SIZE as int)][j % (BOARD_SIZE
                            as int)]
                    },
                forall|k: int|
                    0 <= k < empty.len() ==> (#[trigger] empty[k]).0 < BOARD_SIZE && empty[k].1
                        < BOARD_SIZE && self@.cells[empty[k].0 as int][empty[k].1 as int].value
                        is None && empty[k].0 * BOARD_SIZE + empty[k].1 < i,
                forall|row: usize, col: usize|
                    row < BOARD_SIZE && col < BOARD_SIZE && row * BOARD_SIZE + col < i
                        && self@.cells[row as int][col as int].value is None
                        ==> #[trigger] empty@.contains((row, col)),
                forall|k: int, j: int|
                    0 <= k < j < empty.len() ==> (#[trigger] empty[k]).0 * BOARD_SIZE
                        + empty[k].1 < (#[trigger] empty[j]).0 * BOARD_SIZE + empty[j].1,
        {
            let (position, cell) = cells[i];
            if cell.value.is_none() {
                let ghost before = empty@;
                empty.push(position);
                assert(empty@.last() == position);
                assert forall|row: usize, col: usize|
                    row < BOARD_SIZE && col < BOARD_SIZE && row * BOARD_SIZE + col < i + 1
                        && self@.cells[row as int][col as int].value
                        is None implies #[trigger] empty@.contains((row, col)) by {
                    if row * BOARD_SIZE + col < i {
                        assert(before.contains((row, col)));
                        let k = choose|k: int| 0 <= k < before.len() && before[k] == (row, col);
                        assert(empty@[k] == (row, col));
                    } else {
                        assert(position == (row, col));
                    }
                }
            }
        }
        empty
    }

    /// Puts a fresh tile on the cell at `(row, col)`, whatever that cell held.
    pub fn place_tile(&mut self, row: usize, col: usize, tile: u32)
        requires
            row < BOARD_SIZE,
            col < BOARD_SIZE,
        ensures
            final(self)@ == (Snapshot {
                cells: with_tile(old(self)@.cells, row as int, col as int, tile),
                ..old(self)@
            }),
    {
        self.board[row][col] = CellResult { value: Some(tile), ..Default::default() };
        assert(self@.cells =~~= with_tile(old(self)@.cells, row as int, col as int, tile));
    }

    /// Every cell with its coordinates, in row-major order.
    pub fn iter_cells(&self) -> (cells: Vec<((usize, usize), CellResult)>)
        ensures
            cells.len() == BOARD_SIZE * BOARD_SIZE,
            forall|i: int|
                0 <= i < cells.len() ==> {
                    &&& (#[trigger] cells[i]).0.0 == i / (BOARD_SIZE as int)
                    &&& cells[i].0.1 == i % (BOARD_SIZE as int)
                    &&& cells[i].1 == self@.cells[i / (BOARD_SIZE as int)][i % (BOARD_SIZE
                        as int)]
                },
    {
        let mut cells: Vec<((usize, usize), CellResult)> = Vec::new();
        for row in 0..BOARD_SIZE
            invariant
                cells.len() == row * BOARD_SIZE,
                forall|i: int|
                    0 <= i < cells.len() ==> {
                        &&& (#[trigger] cells[i]).0.0 == i / (BOARD_SIZE as int)
                        &&& cells[i].0.1 == i % (BOARD_SIZE as int)
                        &&& cells[i].1 == self@.cells[i / (BOARD_SIZE as int)][i % (BOARD_SIZE
                            as int)]
                    },
        {
            for col in 0..BOARD_SIZE
                invariant
                    row < BOARD_SIZE,
                    cells.len() == row * BOARD_SIZE + col,
                    forall|i: int|
                        0 <= i < cells.len() ==> {
                            &&& (#[trigger] cells[i]).0.0 == i / (BOARD_SIZE as int)
                            &&& cells[i].0.1 == i % (BOARD_SIZE as int)
                            &&& cells[i].1 == self@.cells[i / (BOARD_SIZE as int)][i % (
                            BOARD_SIZE as int)]
                        },
            {
                cells.push(((row, col), self.board[row][col]));
            }
        }
        cells
    }
}

/// Whether no move can change the grid any more: no cell is empty, and no two cells that
/// share an edge hold equal tiles.
pub open spec fn is_terminal(grid: Grid) -> bool {
    &&& forall|row: int, col: int|
        on_board(row, col) ==> (#[trigger] grid[row][col]) is Some
    &&& forall|row: int, col: int|
        0 <= row < BOARD_SIZE && 0 <= col < BOARD_SIZE - 1 ==> #[trigger] grid[row][col]
            != grid[row][col + 1]
    &&& forall|row: int, col: int|
        0 <= row < BOARD_SIZE - 1 && 0 <= col < BOARD_SIZE ==> #[trigger] grid[row][col]
            != grid[row + 1][col]
}

/// Cells come in `BOARD_SIZE` rows of `BOARD_SIZE`, as the tiles of a grid do.
pub open spec fn is_board(cells: Cells) -> bool {
    &&& cells.len() == BOARD_SIZE
    &&& forall|row: int| 0 <= row < BOARD_SIZE ==> (#[trigger] cells[row]).len() == BOARD_SIZE
}

/// Whether some cell is empty.
pub open spec fn has_empty(cells: Cells) -> bool {
    exists|row: int, col: int|
        on_board(row, col) && (#[trigger] cells[row][col]).value
            is None
}

/// The cells with a fresh tile put at `(row, col)`.
pub open spec fn with_tile(cells: Cells, row: int, col: int, tile: u32) -> Cells {
    cells.update(row, cells[row].update(col, CellResult { value: Some(tile), merged: false }))
}

/// Whether `after` is `before` with the tile `tile` spawned at `(row, col)`: a 2 or a 4, on
/// a cell that was empty, and nothing else changed.
pub open spec fn spawns(before: Cells, row: int, col: int, tile: u32, after: Cells) -> bool {
    &&& 0 <= row < BOARD_SIZE
    &&& 0 <= col < BOARD_SIZE
    &&& before[row][col].value is None
    &&& tile == STARTING_TILE_TWO || tile == STARTING_TILE_FOUR
    &&& after == with_tile(before, row, col, tile)
}

/// Whether `after` is `before` with one tile spawned.
pub open spec fn is_spawn(before: Cells, after: Cells) -> bool {
    exists|row: int, col: int, tile: u32| #[trigger] spawns(before, row, col, tile, after)
}

/// Whether exactly the two cells `first` and `second` of `grid` hold a tile.
pub open spec fn tiles_at(grid: Grid, first: (int, int), second: (int, int)) -> bool {
    &&& 0 <= first.0 < BOARD_SIZE && 0 <= first.1 < BOARD_SIZE
    &&& 0 <= second.0 < BOARD_SIZE && 0 <= second.1 < BOARD_SIZE
    &&& first != second
    &&& forall|row: int, col: int|
        on_board(row, col) ==> ((#[trigger] grid[row][col]) is Some
            <==> (row, col) == first || (row, col) == second)
}

/// Whether `grid` is a board on which a game starts: two tiles, each a 2 or a 4, on two
/// different cells, and nothing else.
pub open spec fn is_opening(grid: Grid) -> bool {
    &&& is_grid(grid)
    &&& exists|first: (int, int), second: (int, int)| #[trigger] tiles_at(grid, first, second)
    &&& forall|row: int, col: int|
        on_board(row, col) ==> {
            ||| (#[trigger] grid[row][col]) is None
            ||| grid[row][col] == Some(STARTING_TILE_TWO)
            ||| grid[row][col] == Some(STARTING_TILE_FOUR)
        }
}

/// The mathematical content of a [`Game`].
pub ghost struct GameState {
    pub cells: Grid,
    pub score: u32,
    pub game_over: bool,
}

impl GameState {
    /// The state as a snapshot: no cell marked as merged, and `changed` unset.
    pub open spec fn snapshot(self) -> Snapshot {
        Snapshot {
            score: self.score,
            changed: false,
            game_over: self.game_over,
            cells: unmerged(self.cells),
        }
    }

    /// Whether a move in `direction` stays within the range of `u32`: every tile that a
    /// merge produces does, and so does the score. A game that is over accepts every move,
    /// since it ignores them all.
    pub open spec fn move_fits(self, direction: GameAction) -> bool {
        self.game_over || (slide_fits(self.cells, direction) && self.score + slide_earned(
            self.cells,
            direction,
        ) <= u32::MAX)
    }

    /// Whether a move in `direction` may lead from this state to `next` and report
    /// `outcome`.
    ///
    /// A game that is over stays as it is. Otherwise the tiles slide and merge, the score
    /// grows by what the merges earned, one tile is spawned on an empty cell if and only if
    /// the slide changed the grid, and the game is over from then on if and only if the
    /// resulting grid is terminal. The choice of the spawned tile and of its cell is all
    /// that is left open.
    pub open spec fn moves_to(
        self,
        direction: GameAction,
        next: GameState,
        outcome: Snapshot,
    ) -> bool {
        if self.game_over {
            next == self && outcome == self.snapshot()
        } else {
            let after = slid(self.cells, direction);
            &&& next.score == self.score + slide_earned(self.cells, direction)
            &&& outcome.score == next.score
            &&& outcome.changed == (values(after) != self.cells)
            &&& if outcome.changed {
                is_spawn(after, outcome.cells)
            } else {
                outcome.cells == after
            }
            &&& next.cells == values(outcome.cells)
            &&& next.game_over == is_terminal(next.cells)
            &&& outcome.game_over == next.game_over
        }
    }
}

/// A game in progress: the board, the cumulative score, and whether the game has ended.
#[derive(Debug)]
pub struct Game {
    board: Board,
    score: u32,
    game_over: bool,
}

impl View for Game {
    type V = GameState;

    closed spec fn view(&self) -> GameState {
        GameState { cells: self.board@, score: self.score, game_over: self.game_over }
    }
}

impl From<&Game> for ActionOutcome {
    /// The game as a snapshot: its score, its flag, its tiles with none marked as merged, and
    /// `changed` unset.
    fn from(game: &Game) -> (outcome: ActionOutcome)
        ensures
            outcome@ == game@.snapshot(),
    {
        let mut outcome = ActionOutcome {
            score: game.score,
            changed: false,
            game_over: game.game_over,
            board: [[CellResult::default(); BOARD_SIZE]; BOARD_SIZE],
        };
        let cells = game.board.iter_cells();
        for i in 0..cells.len()
            invariant
                cells.len() == BOARD_SIZE * BOARD_SIZE,
                forall|j: int|
                    0 <= j < cells.len() ==> {
                        &&& (#[trigger] cells[j]).0.0 == j / (BOARD_SIZE as int)
                        &&& cells[j].0.1 == j % (BOARD_SIZE as int)
                        &&& cells[j].1 == game.board@[j / (BOARD_SIZE as int)][j % (BOARD_SIZE
                            as int)]
                    },
                outcome.score == game.score,
                !outcome.changed,
                outcome.game_over == game.game_over,
                forall|row: int, col: int|
                    on_board(row, col) ==> #[trigger] outcome.board[row][col]
                        == (CellResult {
                        value: if row * BOARD_SIZE + col < i {
                            game.board@[row][col]
                        } else {
                            None
                        },
                        merged: false,
                    }),
        {
            let ((row, col), value) = cells[i];
            outcome.board[row][col].value = value;
        }
        proof {
            assert(outcome@.cells =~~= unmerged(game.board@));
            let chosen = choose|chosen: ActionOutcome| chosen@ == game@.snapshot();
            assert forall|row: int| 0 <= row < BOARD_SIZE implies #[trigger] chosen.board[row]
                == outcome.board[row] by {
                assert forall|col: int| 0 <= col < BOARD_SIZE implies chosen.board[row][col]
                    == outcome.board[row][col] by {
                    assert(chosen@.cells[row][col] == outcome@.cells[row][col]);
                }
                assert(chosen.board[row] =~= outcome.board[row]);
            }
            assert(chosen.board =~= outcome.board);
        }
        outcome
    }
}

impl vstd::std_specs::convert::FromSpecImpl<&Game> for ActionOutcome {
    open spec fn obeys_from_spec() -> bool {
        true
    }

    open spec fn from_spec(game: &Game) -> ActionOutcome {
        choose|outcome: ActionOutcome| outcome@ == game@.snapshot()
    }
}

impl Default for Game {
    /// A game with an empty board, score zero, not over.
    fn default() -> (game: Game)
        ensures
            game@ == (GameState { cells: empty_grid(), score: 0, game_over: false }),
    {
        Game { board: Board::default(), score: 0, game_over: false }
    }
}

impl Game {
    /// The cells of a game always form a grid.
    pub proof fn lemma_cells_form_a_grid(self)
        ensures
            is_grid(self@.cells),
    {
    }

    /// A game made of the given parts, whatever they are.
    pub fn from_parts(board: Board, score: u32, game_over: bool) -> (game: Game)
        ensures
            game@ == (GameState { cells: board@, score, game_over }),
    {
        Game { board, score, game_over }
    }

    /// A game at its start: score zero, not over, and two tiles on the board.
    pub fn new() -> (game: Game)
        ensures
            game@.score == 0,
            !game@.game_over,
            is_opening(game@.cells),
    {
        Game { board: Game::initialize_board(), score: 0, game_over: false }
    }

    /// Starts the game over: score zero, not over, and a fresh board with two tiles. The
    /// snapshot reports a change whatever the board was before.
    pub fn restart(&mut self) -> (outcome: ActionOutcome)
        ensures
            final(self)@.score == 0,
            !final(self)@.game_over,
            is_opening(final(self)@.cells),
            outcome@ == (Snapshot { changed: true, ..final(self)@.snapshot() }),
    {
        self.score = 0;
        self.game_over = false;
        self.board = Game::initialize_board();

        let mut outcome = self.outcome();
        outcome.changed = true;
        outcome
    }

    /// Plays one move. See [`GameState::moves_to`] for what it does; it never fails, since a
    /// slide that changes the grid always leaves an empty cell for the tile to be spawned.
    pub fn apply_move(&mut self, direction: GameAction) -> (res: Result<ActionOutcome, SpawnError>)
        requires
            old(self)@.move_fits(direction),
        ensures
            res is Ok,
            old(self)@.moves_to(direction, final(self)@, res->Ok_0@),
    {
        if self.is_game_over() {
            return Ok(self.outcome());
        }
        let ghost grid = self.board@;

        let mut outcome = ActionOutcome::default();
        self.slide_and_merge(direction, &mut outcome);
        self.update_board(&mut outcome);

        self.update_score(&mut outcome);

        if outcome.changed {
            proof {
                lemma_changed_slide_leaves_room(grid, direction);
            }
            match self.spawn_random_tile(&mut outcome) {
                Ok(()) => {},
                Err(error) => {
                    return Err(error);
                },
            }
            self.update_board(&mut outcome);
        }
        self.check_game_over(&mut outcome);

        Ok(outcome)
    }

    /// Whether a move in `direction` stays within the range of `u32`, which is what
    /// [`Game::apply_move`] asks of its caller.
    pub fn can_apply(&self, direction: &GameAction) -> (fits: bool)
        ensures
            fits == self@.move_fits(*direction),
    {
        if self.game_over {
            return true;
        }
        let ghost grid = self.board@;
        let mut total: u64 = self.score as u64;
        for line in 0..BOARD_SIZE
            invariant
                !self.game_over,
                grid == self.board@,
                total == self.score + earned_by_lines(grid, *direction, line as nat),
                total <= u32::MAX,
                forall|l: int|
                    0 <= l < line ==> merges_fit(
                        #[trigger] line_tiles(grid, *direction, l),
                        BOARD_SIZE as nat,
                    ),
        {
            let tiles = self.travel_tiles(direction, line);
            proof {
                lemma_occupied_whole(line_cells(grid, *direction, line as int));
                lemma_earned_by_lines_grows(grid, *direction, (line + 1) as nat);
            }
            match Game::line_earnings(&tiles) {
                None => {
                    assert(!merges_fit(
                        line_tiles(grid, *direction, line as int),
                        BOARD_SIZE as nat,
                    ));
                    return false;
                },
                Some(earnings) => {
                    total = total + earnings;
                    if total > u32::MAX as u64 {
                        return false;
                    }
                },
            }
        }
        true
    }

    /// What merging a line's tiles earns, or nothing if one of the merged tiles would not
    /// fit into a `u32`.
    fn line_earnings(tiles: &Vec<u32>) -> (earnings: Option<u64>)
        requires
            tiles.len() <= BOARD_SIZE,
        ensures
            earnings is Some <==> merges_fit(tiles@, BOARD_SIZE as nat),
            earnings matches Some(sum) ==> sum == earned(tiles@, BOARD_SIZE as nat) && sum
                <= BOARD_SIZE * u32::MAX,
    {
        let ghost room = BOARD_SIZE as nat;
        let mut sum: u64 = 0;
        let mut next: usize = 0;
        let ghost mut filled: nat = 0;
        assert(tiles@.skip(0) =~= tiles@);
        while next < tiles.len()
            invariant
                room == BOARD_SIZE,
                tiles.len() <= BOARD_SIZE,
                next <= tiles.len(),
                filled <= next,
                filled + (tiles.len() - next) <= room,
                sum <= next * u32::MAX,
                earned(tiles@, room) == sum + earned(
                    tiles@.skip(next as int),
                    (room - filled) as nat,
                ),
                merges_fit(tiles@, room) == merges_fit(
                    tiles@.skip(next as int),
                    (room - filled) as nat,
                ),
            decreases tiles.len() - next,
        {
            let ghost rest = tiles@.skip(next as int);
            let tile = tiles[next];
            if next + 1 < tiles.len() && tiles[next + 1] == tile {
                assert(front_pair(rest));
                assert(rest.skip(2) =~= tiles@.skip(next + 2));
                let tile_sum = tile as u64 + tiles[next + 1] as u64;
                if tile_sum > u32::MAX as u64 {
                    return None;
                }
                sum = sum + tile_sum;
                next += 2;
            } else {
                assert(!front_pair(rest));
                assert(rest.skip(1) =~= tiles@.skip(next + 1));
                next += 1;
            }
            proof {
                filled = filled + 1;
            }
        }
        Some(sum)
    }

    /// The tile for one Bernoulli trial: a two if it came out `true`, a four otherwise.
    pub fn tile_for(two: bool) -> (tile: u32)
        ensures
            tile == if two {
                STARTING_TILE_TWO
            } else {
                STARTING_TILE_FOUR
            },
    {
        if two {
            STARTING_TILE_TWO
        } else {
            STARTING_TILE_FOUR
        }
    }

    /// Draws the value of a new tile: mostly a two, now and then a four.
    pub fn spawn_tile() -> (tile: u32)
        ensures
            tile == STARTING_TILE_TWO || tile == STARTING_TILE_FOUR,
    {
        let mut rng = rand::rng();
        Game::tile_for(random_ratio(&mut rng, STARTING_TILE_TWO_CHANCES, STARTING_TILE_CHANCES))
    }

    /// Spawns one tile on an empty cell of `outcome.board`, picked at random. Fails, and
    /// leaves the outcome alone, exactly if no cell is empty.
    pub fn spawn_random_tile(&self, outcome: &mut ActionOutcome) -> (res: Result<(), SpawnError>)
        ensures
            res is Err <==> !has_empty(old(outcome)@.cells),
            res is Err ==> res == Err::<(), SpawnError>(SpawnError::NoEmptyCell) && *final(outcome)
                == *old(outcome),
            res is Ok ==> is_spawn(old(outcome)@.cells, final(outcome)@.cells) && final(outcome)@
                == (Snapshot { cells: final(outcome)@.cells, ..old(outcome)@ }),
    {
        let empty = outcome.empty_cells();
        let mut rng = rand::rng();
        match choose_one(&mut rng, &empty) {
            None => {
                assert(!has_empty(outcome@.cells)) by {
                    if has_empty(outcome@.cells) {
                        let (row, col) = choose|row: int, col: int|
                            on_board(row, col) && (
                            #[trigger] outcome@.cells[row][col]).value is None;
                        assert(empty@.contains((row as usize, col as usize)));
                    }
                }
                Err(SpawnError::NoEmptyCell)
            },
            Some((row, col)) => {
                let tile = Game::spawn_tile();
                outcome.place_tile(row, col, tile);
                assert(spawns(old(outcome)@.cells, row as int, col as int, tile, outcome@.cells));
                Ok(())
            },
        }
    }

    /// A board with `STARTING_TILE_COUNT` tiles on cells picked at random, each tile drawn
    /// as [`Game::spawn_tile`] draws it.
    fn initialize_board() -> (board: Board)
        ensures
            is_opening(board@),
    {
        let mut cells: [Option<(usize, usize)>; STARTING_TILE_COUNT] = [None;STARTING_TILE_COUNT];
        let mut board = Board::default();

        let listed = board.iter_cells();
        let mut coordinates: Vec<(usize, usize)> = Vec::new();
        for i in 0..listed.len()
            invariant
                listed.len() == BOARD_SIZE * BOARD_SIZE,
                forall|j: int|
                    0 <= j < listed.len() ==> (#[trigger] listed[j]).0.0 == j / (BOARD_SIZE
                        as int) && listed[j].0.1 == j % (BOARD_SIZE as int),
                coordinates.len() == i,
                forall|j: int|
                    0 <= j < i ==> (#[trigger] coordinates[j]).0 == j / (BOARD_SIZE as int)
                        && coordinates[j].1 == j % (BOARD_SIZE as int),
        {
            coordinates.push(listed[i].0);
        }
        let mut rng = rand::rng();
        let filled = sample_fill(&mut rng, &coordinates, &mut cells);
        let ghost source = choose|source: Seq<int>|
            source.len() == filled && #[trigger] drawn_from(coordinates@, source, cells@);
        let ghost first = (source[0] / (BOARD_SIZE as int), source[0] % (BOARD_SIZE as int));
        let ghost second = (source[1] / (BOARD_SIZE as int), source[1] % (BOARD_SIZE as int));
        assert(cells[0] == Some(coordinates[source[0]]));
        assert(cells[1] == Some(coordinates[source[1]]));
        assert(source[0] != source[1]);

        for slot in 0..STARTING_TILE_COUNT
            invariant
                is_grid(board@),
                cells[0] == Some((first.0 as usize, first.1 as usize)),
                cells[1] == Some((second.0 as usize, second.1 as usize)),
                0 <= first.0 < BOARD_SIZE && 0 <= first.1 < BOARD_SIZE,
                0 <= second.0 < BOARD_SIZE && 0 <= second.1 < BOARD_SIZE,
                forall|row: int, col: int|
                    on_board(row, col) ==> ((
                    #[trigger] board@[row][col]) is Some <==> ((row, col) == first && slot > 0)
                        || ((row, col) == second && slot > 1)),
                forall|row: int, col: int|
                    on_board(row, col) ==> {
                        ||| (#[trigger] board@[row][col]) is None
                        ||| board@[row][col] == Some(STARTING_TILE_TWO)
                        ||| board@[row][col] == Some(STARTING_TILE_FOUR)
                    },
        {
            if let Some((row, col)) = cells[slot] {
                let tile = Game::spawn_tile();
                *board.cell_mut(row, col) = Some(tile);
            }
        }
        assert(tiles_at(board@, first, second));
        board
    }

    /// The board as it stands.
    pub fn board(&self) -> (board: &Board)
        ensures
            board@ == self@.cells,
    {
        &self.board
    }

    /// The cumulative score.
    pub fn score(&self) -> (score: u32)
        ensures
            score == self@.score,
    {
        self.score
    }

    /// Whether the game has ended.
    pub fn is_game_over(&self) -> (over: bool)
        ensures
            over == self@.game_over,
    {
        self.game_over
    }

    /// The game as a snapshot: its score, its flag, its tiles with none marked as merged, and
    /// `changed` unset.
    pub fn outcome(&self) -> (outcome: ActionOutcome)
        ensures
            outcome@ == self@.snapshot(),
    {
        ActionOutcome::from(self)
    }

    /// Adds what the operation earned, found in `outcome.score`, to the game's score, and
    /// reports the new total.
    fn update_score(&mut self, outcome: &mut ActionOutcome)
        requires
            old(self)@.score + old(outcome).score <= u32::MAX,
        ensures
            final(self)@ == (GameState {
                score: (old(self)@.score + old(outcome).score) as u32,
                ..old(self)@
            }),
            final(outcome)@ == (Snapshot {
                score: (old(self)@.score + old(outcome).score) as u32,
                ..old(outcome)@
            }),
    {
        self.score += outcome.score;
        outcome.score = self.score;
    }

    /// Ends the game if the board is terminal: both the game's flag and the outcome's are then
    /// set. Otherwise nothing changes.
    pub fn check_game_over(&mut self, outcome: &mut ActionOutcome)
        ensures
            final(self)@ == (GameState {
                game_over: old(self)@.game_over || is_terminal(old(self)@.cells),
                ..old(self)@
            }),
            final(outcome)@ == (Snapshot {
                game_over: old(outcome).game_over || is_terminal(old(self)@.cells),
                ..old(outcome)@
            }),
    {
        let ghost grid = self.board@;
        for row in 0..BOARD_SIZE
            invariant
                *self == *old(self),
                *outcome == *old(outcome),
                grid == self.board@,
                forall|r: int, c: int|
                    0 <= r < row && 0 <= c < BOARD_SIZE ==> (#[trigger] grid[r][c]) is Some,
                forall|r: int, c: int|
                    0 <= r < row && 0 <= c < BOARD_SIZE - 1 ==> #[trigger] grid[r][c] != grid[r][c
                        + 1],
                forall|r: int, c: int|
                    0 <= r < row && r < BOARD_SIZE - 1 && 0 <= c < BOARD_SIZE
                        ==> #[trigger] grid[r][c] != grid[r + 1][c],
        {
            for col in 0..BOARD_SIZE
                invariant
                    row < BOARD_SIZE,
                    *self == *old(self),
                    *outcome == *old(outcome),
                    grid == self.board@,
                    forall|r: int, c: int|
                        on_board(r, c) && (r < row || (r == row && c
                            < col)) ==> (#[trigger] grid[r][c]) is Some,
                    forall|r: int, c: int|
                        0 <= r < BOARD_SIZE && 0 <= c < BOARD_SIZE - 1 && (r < row || (r == row
                            && c < col)) ==> #[trigger] grid[r][c] != grid[r][c + 1],
                    forall|r: int, c: int|
                        0 <= r < BOARD_SIZE - 1 && 0 <= c < BOARD_SIZE && (r < row || (r == row
                            && c < col)) ==> #[trigger] grid[r][c] != grid[r + 1][c],
            {
                let current_tile = match self.board.cell(row, col) {
                    Some(tile) => tile,
                    None => {
                        assert(grid[row as int][col as int] is None);
                        return ;
                    },
                };
                if col + 1 < BOARD_SIZE && self.board.cell(row, col + 1) == Some(current_tile) {
                    assert(grid[row as int][col as int] == grid[row as int][col + 1]);
                    return ;
                }
                if row + 1 < BOARD_SIZE && self.board.cell(row + 1, col) == Some(current_tile) {
                    assert(grid[row as int][col as int] == grid[row + 1][col as int]);
                    return ;
                }
            }
        }
        assert(is_terminal(grid));
        outcome.game_over = true;
        self.game_over = self.game_over || outcome.game_over;
    }

    /// Makes the game's board show the tiles of `outcome`, and sets `outcome.changed` if
    /// that altered any cell of the board.
    pub fn update_board(&mut self, outcome: &mut ActionOutcome)
        ensures
            final(self)@ == (GameState { cells: values(old(outcome)@.cells), ..old(self)@ }),
            final(outcome)@ == (Snapshot {
                changed: old(outcome).changed || values(old(outcome)@.cells) != old(self)@.cells,
                ..old(outcome)@
            }),
    {
        let ghost before = self.board@;
        let ghost shown = values(outcome@.cells);
        let mut changed = false;
        let cells = outcome.iter_cells();
        for i in 0..cells.len()
            invariant
                cells.len() == BOARD_SIZE * BOARD_SIZE,
                forall|j: int|
                    0 <= j < cells.len() ==> {
                        &&& (#[trigger] cells[j]).0.0 == j / (BOARD_SIZE as int)
                        &&& cells[j].0.1 == j % (BOARD_SIZE as int)
                        &&& cells[j].1.value == shown[j / (BOARD_SIZE as int)][j % (BOARD_SIZE
                            as int)]
                    },
                *outcome == *old(outcome),
                self.score == old(self).score,
                self.game_over == old(self).game_over,
                before == old(self).board@,
                forall|row: int, col: int|
                    on_board(row, col) ==> #[trigger] self.board@[row][col]
                        == if row * BOARD_SIZE + col < i {
                        shown[row][col]
                    } else {
                        before[row][col]
                    },
                changed <==> exists|row: int, col: int|
                    on_board(row, col) && row * BOARD_SIZE + col < i
                        && #[trigger] shown[row][col] != before[row][col],
        {
            let ((row, col), cell) = cells[i];
            if cell.value != self.board.cell(row, col) {
                *self.board.cell_mut(row, col) = cell.value;
                changed = true;
            }
        }
        outcome.changed = outcome.changed || changed;
        proof {
            assert(self.board@ =~~= shown);
            if !changed {
                assert(shown =~~= before);
            }
        }
    }

    /// Pushes one run of tiles against an edge: the cells at `positions` are filled, in that
    /// order, with what the tiles merge into, and what merging earns is added to `score`.
    /// Positions for which no tile is left keep what they held.
    pub fn slide_and_merge_line(
        &self,
        tiles: Vec<u32>,
        positions: Vec<(usize, usize)>,
        board: &mut [[CellResult; BOARD_SIZE]; BOARD_SIZE],
        score: &mut u32,
    )
        requires
            forall|i: int|
                0 <= i < merged(tiles@, positions.len() as nat).len() ==> {
                    &&& (#[trigger] positions[i]).0 < BOARD_SIZE
                    &&& positions[i].1 < BOARD_SIZE
                },
            merges_fit(tiles@, positions.len() as nat),
            *old(score) + earned(tiles@, positions.len() as nat) <= u32::MAX,
        ensures
            *final(score) == *old(score) + earned(tiles@, positions.len() as nat),
            forall|row: int, col: int|
                on_board(row, col) ==> #[trigger] final(board)[row][col]
                    == written(
                    old(board)[row][col],
                    positions@,
                    merged(tiles@, positions.len() as nat),
                    row,
                    col,
                ),
    {
        let ghost room = positions.len() as nat;
        let ghost mut done: Seq<CellResult> = Seq::empty();
        let mut next: usize = 0;
        let mut filled: usize = 0;
        assert(tiles@.skip(0) =~= tiles@);
        assert(done + merged(tiles@, room) =~= merged(tiles@, room));
        while filled < positions.len() && next < tiles.len()
            invariant
                room == positions.len(),
                next <= tiles.len(),
                filled <= positions.len(),
                done.len() == filled,
                merged(tiles@, room) == done + merged(
                    tiles@.skip(next as int),
                    (room - filled) as nat,
                ),
                *old(score) + earned(tiles@, room) == *score + earned(
                    tiles@.skip(next as int),
                    (room - filled) as nat,
                ),
                *old(score) + earned(tiles@, room) <= u32::MAX,
                merges_fit(tiles@.skip(next as int), (room - filled) as nat),
                forall|i: int|
                    0 <= i < merged(tiles@, room).len() ==> (#[trigger] positions[i]).0
                        < BOARD_SIZE && positions[i].1 < BOARD_SIZE,
                forall|row: int, col: int|
                    on_board(row, col) ==> #[trigger] board[row][col]
                        == written(old(board)[row][col], positions@, done, row, col),
            decreases tiles.len() - next,
        {
            let ghost rest = tiles@.skip(next as int);
            let tile = tiles[next];
            let (row, col) = positions[filled];
            let cell: CellResult;
            if next + 1 < tiles.len() && tiles[next + 1] == tile {
                assert(front_pair(rest));
                assert(rest.skip(2) =~= tiles@.skip(next + 2));
                let tile_sum = tile + tiles[next + 1];
                cell = CellResult { value: Some(tile_sum), merged: true };
                *score += tile_sum;
                next += 2;
            } else {
                assert(!front_pair(rest));
                assert(rest.skip(1) =~= tiles@.skip(next + 1));
                cell = CellResult { value: Some(tile), merged: false };
                next += 1;
            }
            proof {
                assert(merged(tiles@, room) =~= done.push(cell) + merged(
                    tiles@.skip(next as int),
                    (room - filled - 1) as nat,
                ));
                assert(done.push(cell).drop_last() =~= done);
                done = done.push(cell);
            }
            board[row][col] = cell;
            filled += 1;
        }
        assert(merged(tiles@, room) =~= done);
    }

    /// Slides and merges all tiles of the board in `direction`, writing what comes to rest
    /// into `outcome.board` and adding what the merges earn to `outcome.score`. The game's
    /// own board is left alone, and so are the cells of `outcome.board` where nothing comes
    /// to rest.
    pub fn slide_and_merge(&self, direction: GameAction, outcome: &mut ActionOutcome)
        requires
            slide_fits(self@.cells, direction),
            old(outcome).score + slide_earned(self@.cells, direction) <= u32::MAX,
        ensures
            final(outcome)@ == (Snapshot {
                score: (old(outcome).score + slide_earned(self@.cells, direction)) as u32,
                cells: slid_over(self@.cells, direction, old(outcome)@.cells),
                ..old(outcome)@
            }),
    {
        let ghost grid = self.board@;
        let ghost under = outcome@.cells;
        for line in 0..BOARD_SIZE
            invariant
                grid == self.board@,
                slide_fits(grid, direction),
                old(outcome).score + slide_earned(grid, direction) <= u32::MAX,
                outcome.score == old(outcome).score + earned_by_lines(grid, direction, line as nat),
                outcome.changed == old(outcome).changed,
                outcome.game_over == old(outcome).game_over,
                under == old(outcome)@.cells,
                forall|row: int, col: int|
                    on_board(row, col) ==> #[trigger] outcome.board[row][col]
                        == if line_of(direction, row, col).0 < line {
                        slid_over(grid, direction, under)[row][col]
                    } else {
                        under[row][col]
                    },
        {
            let tiles = self.travel_tiles(&direction, line);
            let positions = Game::travel_positions(&direction, line);
            let ghost before = outcome.board;
            proof {
                lemma_merged_len(tiles@, BOARD_SIZE as nat);
                lemma_earned_by_lines_grows(grid, direction, (line + 1) as nat);
                assert forall|row: int, col: int|
                    on_board(row, col) implies written(
                    before[row][col],
                    positions@,
                    merged(tiles@, BOARD_SIZE as nat),
                    row,
                    col,
                ) == if line_of(direction, row, col).0 < line + 1 {
                    slid_over(grid, direction, under)[row][col]
                } else {
                    under[row][col]
                } by {
                    lemma_written_on_line(
                        before[row][col],
                        positions@,
                        merged(tiles@, BOARD_SIZE as nat),
                        direction,
                        line as int,
                        row,
                        col,
                    );
                }
            }
            self.slide_and_merge_line(tiles, positions, &mut outcome.board, &mut outcome.score);
        }
        assert(outcome@.cells =~~= slid_over(grid, direction, under));
    }

    /// The tiles of one line of the board in the order in which `direction` makes them
    /// travel.
    fn travel_tiles(&self, direction: &GameAction, line: usize) -> (tiles: Vec<u32>)
        requires
            line < BOARD_SIZE,
        ensures
            tiles@ == line_tiles(self@.cells, *direction, line as int),
    {
        proof {
            lemma_line_tiles(self.board@, *direction, line as int);
        }
        match direction {
            GameAction::Up => self.board.col(line),
            GameAction::Down => reversed(self.board.col(line)),
            GameAction::Left => self.board.row(line),
            GameAction::Right => reversed(self.board.row(line)),
        }
    }

    /// The coordinates of the cells of one line, starting at the edge that `direction`
    /// pushes toward.
    fn travel_positions(direction: &GameAction, line: usize) -> (positions: Vec<(usize, usize)>)
        requires
            line < BOARD_SIZE,
        ensures
            positions.len() == BOARD_SIZE,
            forall|place: int|
                0 <= place < BOARD_SIZE ==> (#[trigger] positions[place]).0 == line_cell(
                    *direction,
                    line as int,
                    place,
                ).0 && positions[place].1 == line_cell(*direction, line as int, place).1,
    {
        let mut positions: Vec<(usize, usize)> = Vec::new();
        for place in 0..BOARD_SIZE
            invariant
                line < BOARD_SIZE,
                positions.len() == place,
                forall|p: int|
                    0 <= p < place ==> (#[trigger] positions[p]).0 == line_cell(
                        *direction,
                        line as int,
                        p,
                    ).0 && positions[p].1 == line_cell(*direction, line as int, p).1,
        {
            let position = match direction {
                GameAction::Up => (place, line),
                GameAction::Down => (BOARD_SIZE - 1 - place, line),
                GameAction::Left => (line, place),
                GameAction::Right => (line, BOARD_SIZE - 1 - place),
            };
            positions.push(position);
        }
        positions
    }
}

/// The same tiles in the opposite order.
fn reversed(tiles: Vec<u32>) -> (turned: Vec<u32>)
    ensures
        turned@ == tiles@.reverse(),
{
    let mut turned: Vec<u32> = Vec::new();
    let mut left: usize = tiles.len();
    while left > 0
        invariant
            left <= tiles.len(),
            turned.len() == tiles.len() - left,
            forall|i: int| 0 <= i < turned.len() ==> turned[i] == tiles[tiles.len() - 1 - i],
        decreases left,
    {
        left -= 1;
        turned.push(tiles[left]);
    }
    assert(turned@ =~= tiles@.reverse());
    turned
}

} // verus!
