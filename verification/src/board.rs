//! The grid of tiles: a passive container that imposes no game rules.

use vstd::prelude::*;

verus! {

/// Number of rows, and of columns, of the grid.
pub const BOARD_SIZE: usize = 4;

/// What the cells of a grid hold, row by row.
pub type Grid = Seq<Seq<Option<u32>>>;

/// A grid has `BOARD_SIZE` rows of `BOARD_SIZE` cells each.
pub open spec fn is_grid(grid: Grid) -> bool {
    &&& grid.len() == BOARD_SIZE
    &&& forall|row: int| 0 <= row < BOARD_SIZE ==> (#[trigger] grid[row]).len() == BOARD_SIZE
}

/// Whether `(row, col)` are the coordinates of a cell.
#[verifier::inline]
pub open spec fn on_board(row: int, col: int) -> bool {
    0 <= row < BOARD_SIZE && 0 <= col < BOARD_SIZE
}

/// The grid with no tile on it.
pub open spec fn empty_grid() -> Grid {
    Seq::new(BOARD_SIZE as nat, |row: int| Seq::new(BOARD_SIZE as nat, |col: int| None))
}

/// The cells of one column, top to bottom.
pub open spec fn column(grid: Grid, col: int) -> Seq<Option<u32>> {
    Seq::new(BOARD_SIZE as nat, |row: int| grid[row][col])
}

/// The tiles found in a run of cells, in the order of the cells, empty cells skipped.
pub open spec fn occupied(cells: Seq<Option<u32>>) -> Seq<u32>
    decreases cells.len(),
{
    if cells.len() == 0 {
        Seq::empty()
    } else {
        match cells.last() {
            Some(tile) => occupied(cells.drop_last()).push(tile),
            None => occupied(cells.drop_last()),
        }
    }
}

/// The sum of a run of tiles.
pub open spec fn sum_of(tiles: Seq<u32>) -> nat
    decreases tiles.len(),
{
    if tiles.len() == 0 {
        0
    } else {
        tiles[0] as nat + sum_of(tiles.skip(1))
    }
}

/// The number of tiles on a grid.
pub open spec fn tile_count(grid: Grid) -> nat
    decreases grid.len(),
{
    if grid.len() == 0 {
        0
    } else {
        tile_count(grid.drop_last()) + occupied(grid.last()).len()
    }
}

/// The sum of all tiles on a grid.
pub open spec fn tile_sum(grid: Grid) -> nat
    decreases grid.len(),
{
    if grid.len() == 0 {
        0
    } else {
        tile_sum(grid.drop_last()) + sum_of(occupied(grid.last()))
    }
}

/// Skipping empty cells can be done piecewise.
pub proof fn lemma_occupied_concat(front: Seq<Option<u32>>, back: Seq<Option<u32>>)
    ensures
        occupied(front + back) == occupied(front) + occupied(back),
    decreases back.len(),
{
    if back.len() == 0 {
        assert(front + back =~= front);
        assert(occupied(front) + occupied(back) =~= occupied(front));
    } else {
        assert((front + back).drop_last() =~= front + back.drop_last());
        lemma_occupied_concat(front, back.drop_last());
        match back.last() {
            Some(tile) => {
                assert((occupied(front) + occupied(back.drop_last())).push(tile) =~= occupied(front)
                    + occupied(back.drop_last()).push(tile));
            },
            None => {},
        }
    }
}

/// Reading a run of cells from its other end yields the same tiles in the opposite order.
pub proof fn lemma_occupied_reverse(cells: Seq<Option<u32>>)
    ensures
        occupied(cells.reverse()) == occupied(cells).reverse(),
    decreases cells.len(),
{
    if cells.len() == 0 {
        assert(cells.reverse() =~= cells);
        assert(occupied(cells).reverse() =~= occupied(cells));
    } else {
        reveal_with_fuel(occupied, 2);
        let head = seq![cells.last()];
        let rest = cells.drop_last();
        assert(cells.reverse() =~= head + rest.reverse());
        lemma_occupied_concat(head, rest.reverse());
        lemma_occupied_reverse(rest);
        assert(head.drop_last() =~= Seq::<Option<u32>>::empty());
        match cells.last() {
            Some(tile) => {
                assert(occupied(head) =~= seq![tile]);
                assert(occupied(rest).push(tile).reverse() =~= seq![tile] + occupied(
                    rest,
                ).reverse());
            },
            None => {
                assert(occupied(head) =~= Seq::<u32>::empty());
                assert(Seq::<u32>::empty() + occupied(rest).reverse() =~= occupied(rest).reverse());
            },
        }
    }
}

/// Every tile found in a run of cells is the tile of one of the cells.
pub proof fn lemma_occupied_comes_from_cells(cells: Seq<Option<u32>>, i: int)
    requires
        0 <= i < occupied(cells).len(),
    ensures
        cells.contains(Some(occupied(cells)[i])),
    decreases cells.len(),
{
    if cells.len() > 0 {
        let front = cells.drop_last();
        if i < occupied(front).len() {
            lemma_occupied_comes_from_cells(front, i);
            let k = choose|k: int| 0 <= k < front.len() && front[k] == Some(occupied(front)[i]);
            assert(cells[k] == Some(occupied(cells)[i]));
        } else {
            assert(cells[cells.len() - 1] == Some(occupied(cells)[i]));
        }
    }
}

/// A run of cells holds at most as many tiles as it has cells, and exactly as many only if
/// no cell is empty.
pub proof fn lemma_occupied_whole(cells: Seq<Option<u32>>)
    ensures
        occupied(cells).len() <= cells.len(),
        occupied(cells).len() == cells.len() ==> forall|i: int|
            0 <= i < cells.len() ==> #[trigger] cells[i] == Some(occupied(cells)[i]),
    decreases cells.len(),
{
    if cells.len() > 0 {
        let front = cells.drop_last();
        lemma_occupied_whole(front);
        if occupied(cells).len() == cells.len() {
            assert forall|i: int| 0 <= i < cells.len() implies #[trigger] cells[i] == Some(
                occupied(cells)[i],
            ) by {
                if i < front.len() {
                    assert(cells[i] == front[i]);
                }
            }
        }
    }
}

/// A 4x4 grid of cells, each empty or holding a tile value.
#[derive(Debug)]
pub struct Board {
    pub(crate) cells: [[Option<u32>; BOARD_SIZE]; BOARD_SIZE],
}

impl View for Board {
    type V = Grid;

    open(crate) spec fn view(&self) -> Grid {
        Seq::new(
            BOARD_SIZE as nat,
            |row: int| Seq::new(BOARD_SIZE as nat, |col: int| self.cells[row][col]),
        )
    }
}

impl Default for Board {
    /// The board with every cell empty.
    fn default() -> (board: Board)
        ensures
            board@ == empty_grid(),
    {
        let board = Board { cells: [[None; BOARD_SIZE]; BOARD_SIZE] };
        assert(board@ =~~= empty_grid());
        board
    }
}

impl Board {
    /// The cells of a board always form a grid.
    pub proof fn lemma_cells_form_a_grid(self)
        ensures
            is_grid(self@),
    {
    }

    /// Every cell with its coordinates, in row-major order.
    pub fn iter_cells(&self) -> (cells: Vec<((usize, usize), Option<u32>)>)
        ensures
            cells.len() == BOARD_SIZE * BOARD_SIZE,
            forall|i: int|
                0 <= i < cells.len() ==> {
                    &&& (#[trigger] cells[i]).0.0 == i / (BOARD_SIZE as int)
                    &&& cells[i].0.1 == i % (BOARD_SIZE as int)
                    &&& cells[i].1 == self@[i / (BOARD_SIZE as int)][i % (BOARD_SIZE as int)]
                },
    {
        let mut cells: Vec<((usize, usize), Option<u32>)> = Vec::new();
        for row in 0..BOARD_SIZE
            invariant
                cells.len() == row * BOARD_SIZE,
                forall|i: int|
                    0 <= i < cells.len() ==> {
                        &&& (#[trigger] cells[i]).0.0 == i / (BOARD_SIZE as int)
                        &&& cells[i].0.1 == i % (BOARD_SIZE as int)
                        &&& cells[i].1 == self@[i / (BOARD_SIZE as int)][i % (BOARD_SIZE as int)]
                    },
        {
            for col in 0..BOARD_SIZE
                invariant
                    row < BOARD_SIZE,
                    cells.len() == row * BOARD_SIZE + col,
                    forall|i: int|
                        0 <= i < cells.len() ==> {
                            &&& (#[trigger] cells[i]).0.0 == i / (BOARD_SIZE as int)
                            &&& cells[i].0.1 == i % (BOARD_SIZE as int)
                            &&& cells[i].1 == self@[i / (BOARD_SIZE as int)][i % (BOARD_SIZE
                                as int)]
                        },
            {
                cells.push(((row, col), self.cells[row][col]));
            }
        }
        cells
    }

    /// The tiles of one column, top to bottom, empty cells skipped.
    pub fn col(&self, col: usize) -> (tiles: Vec<u32>)
        requires
            col < BOARD_SIZE,
        ensures
            tiles@ == occupied(column(self@, col as int)),
    {
        let ghost cells = column(self@, col as int);
        let mut tiles: Vec<u32> = Vec::new();
        for row in 0..BOARD_SIZE
            invariant
                col < BOARD_SIZE,
                cells == column(self@, col as int),
                tiles@ == occupied(cells.take(row as int)),
        {
            assert(cells.take(row + 1).drop_last() =~= cells.take(row as int));
            if let Some(tile) = self.cells[row][col] {
                tiles.push(tile);
            }
        }
        assert(cells.take(BOARD_SIZE as int) =~= cells);
        tiles
    }

    /// The tiles of one row, left to right, empty cells skipped.
    pub fn row(&self, row: usize) -> (tiles: Vec<u32>)
        requires
            row < BOARD_SIZE,
        ensures
            tiles@ == occupied(self@[row as int]),
    {
        let ghost cells = self@[row as int];
        let mut tiles: Vec<u32> = Vec::new();
        for col in 0..BOARD_SIZE
            invariant
                row < BOARD_SIZE,
                cells == self@[row as int],
                tiles@ == occupied(cells.take(col as int)),
        {
            assert(cells.take(col + 1).drop_last() =~= cells.take(col as int));
            if let Some(tile) = self.cells[row][col] {
                tiles.push(tile);
            }
        }
        assert(cells.take(BOARD_SIZE as int) =~= cells);
        tiles
    }

    /// Reads one cell.
    pub fn cell(&self, row: usize, col: usize) -> (value: Option<u32>)
        requires
            row < BOARD_SIZE,
            col < BOARD_SIZE,
        ensures
            value == self@[row as int][col as int],
    {
        self.cells[row][col]
    }

    /// Hands out one cell for writing; whatever is left in it replaces the cell's content, and
    /// no other cell changes.
    pub fn cell_mut(&mut self, row: usize, col: usize) -> (slot: &mut Option<u32>)
        requires
            row < BOARD_SIZE,
            col < BOARD_SIZE,
        ensures
            *slot == old(self)@[row as int][col as int],
            final(self)@ =~~= old(self)@.update(
                row as int,
                old(self)@[row as int].update(col as int, *final(slot)),
            ),
    {
        &mut self.cells[row][col]
    }
}

} // verus!
