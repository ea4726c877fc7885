//! The grid game in which a genome can prove itself: a snake on a board of
//! cells, where apples make it grow.

use crate::random::draw;
use crate::snake::{is_pow2, neighbour, origin, SnakeView};
pub use crate::snake::{Dir, Pos, Snake};
use rand::rngs::ThreadRng;
use vstd::prelude::*;

verus! {

/// What a cell of the board holds.
#[derive(Clone, Copy, Debug, PartialEq, Eq, Structural)]
pub enum Cell {
    Empty,
    Apple,
    Snake,
}

/// The cell of the board `cells` at `p`. Rows are indexed by `y`.
pub open spec fn cell_at(cells: Seq<Seq<Cell>>, p: Pos) -> Cell {
    cells[p.y as int][p.x as int]
}

/// The board `cells` with `c` at `p`.
pub open spec fn with_cell(cells: Seq<Seq<Cell>>, p: Pos, c: Cell) -> Seq<Seq<Cell>> {
    cells.update(p.y as int, cells[p.y as int].update(p.x as int, c))
}

/// `cells` has `h` rows of `w` cells.
pub open spec fn is_board(cells: Seq<Seq<Cell>>, w: int, h: int) -> bool {
    &&& cells.len() == h
    &&& forall|y: int| 0 <= y < h ==> (#[trigger] cells[y]).len() == w
}

/// `p` lies on a board of `w` by `h` cells.
pub open spec fn on_board(p: Pos, w: int, h: int) -> bool {
    p.x < w && p.y < h
}

/// Some cell of the board is empty.
pub open spec fn has_empty(cells: Seq<Seq<Cell>>, w: int, h: int) -> bool {
    exists|p: Pos| on_board(p, w, h) && #[trigger] cell_at(cells, p) == Cell::Empty
}

/// The game: a snake and the board it moves on.
#[verifier::ext_equal]
pub struct GameView {
    pub snake: SnakeView,
    pub cells: Seq<Seq<Cell>>,
}

impl GameView {
    /// The position of the snake's head.
    pub open spec fn head(self) -> Pos {
        self.snake.body[self.snake.head]
    }

    /// The position in the slot of the snake's tail.
    pub open spec fn tail(self) -> Pos {
        self.snake.body[self.snake.tail]
    }

    /// The board has `w` by `h` cells, and every slot of the snake's buffer
    /// holds a position on it.
    pub open spec fn wf(self, w: int, h: int) -> bool {
        &&& self.snake.wf()
        &&& is_board(self.cells, w, h)
        &&& forall|i: int|
            0 <= i < self.snake.body.len() ==> on_board(#[trigger] self.snake.body[i], w, h)
    }

    /// A step in direction `d` can be taken: the snake's buffer can still
    /// double, the head does not leave the board at its far edges, and where
    /// the head reaches an apple there is an empty cell for the next one.
    pub open spec fn can_step(self, d: Dir, w: int, h: int) -> bool {
        &&& self.snake.body.len() <= usize::MAX / 2
        &&& match neighbour(self.head(), d) {
            None => true,
            Some(to) => {
                &&& on_board(to, w, h)
                &&& cell_at(self.cells, to) == Cell::Apple ==> has_empty(self.cells, w, h)
            },
        }
    }

    /// The game after the head has gone on to `to`, which held no part of the
    /// snake. Where it held an apple, the snake grows and the next apple lies
    /// at `apple`. The head's cell becomes part of the snake, and the cell
    /// that the tail's slot named before the step becomes empty.
    pub open spec fn stepped(self, to: Pos, apple: Pos) -> GameView {
        let eats = cell_at(self.cells, to) == Cell::Apple;
        let placed = if eats {
            with_cell(self.cells, apple, Cell::Apple)
        } else {
            self.cells
        };
        GameView {
            snake: self.snake.advanced(to, eats),
            cells: with_cell(with_cell(placed, to, Cell::Snake), self.tail(), Cell::Empty),
        }
    }
}

/// The number of empty cells among the first `upto` cells of `row`.
pub open spec fn row_empties(row: Seq<Cell>, upto: int) -> int
    decreases upto,
{
    if upto <= 0 {
        0
    } else {
        row_empties(row, upto - 1) + if row[upto - 1] == Cell::Empty {
            1int
        } else {
            0int
        }
    }
}

/// The number of empty cells in the first `upto` rows of `cells`.
pub open spec fn board_empties(cells: Seq<Seq<Cell>>, upto: int) -> int
    decreases upto,
{
    if upto <= 0 {
        0
    } else {
        board_empties(cells, upto - 1) + row_empties(cells[upto - 1], cells[upto - 1].len() as int)
    }
}

/// The number of empty cells that come before `p` on the board, row by row.
pub open spec fn empties_before(cells: Seq<Seq<Cell>>, p: Pos) -> int {
    board_empties(cells, p.y as int) + row_empties(cells[p.y as int], p.x as int)
}

/// A row has no more empty cells among its first `upto` than `upto`.
proof fn lemma_row_empties_bound(row: Seq<Cell>, upto: int)
    requires
        0 <= upto,
    ensures
        0 <= row_empties(row, upto) <= upto,
    decreases upto,
{
    if upto > 0 {
        lemma_row_empties_bound(row, upto - 1);
    }
}

/// An empty cell among the first `upto` of a row is counted.
proof fn lemma_row_counts_empty(row: Seq<Cell>, upto: int, x: int)
    requires
        0 <= x < upto,
        row[x] == Cell::Empty,
    ensures
        row_empties(row, upto) >= 1,
    decreases upto,
{
    lemma_row_empties_bound(row, upto - 1);
    if x < upto - 1 {
        lemma_row_counts_empty(row, upto - 1, x);
    }
}

/// A board of rows of at most 255 cells has at most 255 empty cells a row.
proof fn lemma_board_empties_bound(cells: Seq<Seq<Cell>>, w: int, upto: int)
    requires
        0 <= upto <= cells.len(),
        forall|y: int| 0 <= y < cells.len() ==> (#[trigger] cells[y]).len() == w,
        0 <= w <= 255,
    ensures
        0 <= board_empties(cells, upto) <= 255 * upto,
    decreases upto,
{
    if upto > 0 {
        lemma_board_empties_bound(cells, w, upto - 1);
        lemma_row_empties_bound(cells[upto - 1], w);
    }
}

/// An empty cell in the first `upto` rows of a board is counted.
proof fn lemma_board_counts_empty(cells: Seq<Seq<Cell>>, w: int, upto: int, p: Pos)
    requires
        0 <= upto <= cells.len(),
        forall|y: int| 0 <= y < cells.len() ==> (#[trigger] cells[y]).len() == w,
        0 <= w <= 255,
        p.y < upto,
        p.x < w,
        cell_at(cells, p) == Cell::Empty,
    ensures
        board_empties(cells, upto) >= 1,
    decreases upto,
{
    lemma_board_empties_bound(cells, w, upto - 1);
    lemma_row_empties_bound(cells[upto - 1], w);
    if p.y < upto - 1 {
        lemma_board_counts_empty(cells, w, upto - 1, p);
    } else {
        lemma_row_counts_empty(cells[upto - 1], w, p.x as int);
    }
}

/// The rows of a board, each as a sequence.
pub open spec fn rows_of(cells: Seq<Vec<Cell>>) -> Seq<Seq<Cell>> {
    Seq::new(cells.len(), |y: int| cells[y]@)
}

/// The game on a board of `W` by `H` cells.
pub struct Game<const W: u8, const H: u8> {
    snake: Snake,
    cells: Vec<Vec<Cell>>,
}

impl<const W: u8, const H: u8> View for Game<W, H> {
    type V = GameView;

    closed spec fn view(&self) -> GameView {
        GameView { snake: self.snake@, cells: rows_of(self.cells@) }
    }
}

/// Writes `c` into the cell at `p`.
fn set_cell(cells: &mut Vec<Vec<Cell>>, p: Pos, c: Cell)
    requires
        p.y < old(cells)@.len(),
        p.x < old(cells)@[p.y as int]@.len(),
    ensures
        rows_of(final(cells)@) == with_cell(rows_of(old(cells)@), p, c),
{
    cells[p.y as usize][p.x as usize] = c;
}

/// Counts the empty cells of a board of `w` by `h` cells.
pub fn count_empties(cells: &Vec<Vec<Cell>>, w: u8, h: u8) -> (n: usize)
    requires
        is_board(rows_of(cells@), w as int, h as int),
    ensures
        n == board_empties(rows_of(cells@), h as int),
{
    let ghost board = rows_of(cells@);
    let mut n: usize = 0;
    let mut y: usize = 0;
    while y < h as usize
        invariant
            board == rows_of(cells@),
            is_board(board, w as int, h as int),
            y <= h,
            n == board_empties(board, y as int),
            n <= 255 * y,
        decreases h - y,
    {
        let row = &cells[y];
        assert(row@ == board[y as int]);
        let mut x: usize = 0;
        let mut m: usize = 0;
        while x < w as usize
            invariant
                row@.len() == w,
                x <= w,
                m == row_empties(row@, x as int),
                m <= x,
            decreases w - x,
        {
            if row[x] == Cell::Empty {
                m += 1;
            }
            x += 1;
        }
        n += m;
        y += 1;
    }
    n
}

/// Turns the empty cell that `k` empty cells precede, row by row, into an
/// apple, and returns its position.
pub fn place_at_empty(cells: &mut Vec<Vec<Cell>>, w: u8, h: u8, k: usize) -> (at: Pos)
    requires
        is_board(rows_of(old(cells)@), w as int, h as int),
        k < board_empties(rows_of(old(cells)@), h as int),
    ensures
        on_board(at, w as int, h as int),
        cell_at(rows_of(old(cells)@), at) == Cell::Empty,
        empties_before(rows_of(old(cells)@), at) == k,
        rows_of(final(cells)@) == with_cell(rows_of(old(cells)@), at, Cell::Apple),
{
    let ghost board = rows_of(cells@);
    let mut seen: usize = 0;
    let mut y: usize = 0;
    while y < h as usize
        invariant
            cells@ == old(cells)@,
            board == rows_of(cells@),
            is_board(board, w as int, h as int),
            y <= h,
            seen == board_empties(board, y as int),
            seen <= k < board_empties(board, h as int),
        decreases h - y,
    {
        let mut x: usize = 0;
        let ghost before = seen;
        while x < w as usize
            invariant
                cells@ == old(cells)@,
                board == rows_of(cells@),
                is_board(board, w as int, h as int),
                y < h,
                x <= w,
                before == board_empties(board, y as int),
                seen == before + row_empties(board[y as int], x as int),
                seen <= k,
            decreases w - x,
        {
            if cells[y][x] == Cell::Empty {
                if seen == k {
                    let p = Pos::new(x as u8, y as u8);
                    set_cell(cells, p, Cell::Apple);
                    return p;
                }
                seen += 1;
            }
            x += 1;
        }
        y += 1;
    }
    // All empty cells have been passed, and there are more than `k` of them.
    unreached()
}

impl<const W: u8, const H: u8> Game<W, H> {
    /// Puts an apple on an empty cell of the board, chosen at random, each
    /// with the same chance.
    fn place_apple(&mut self)
        requires
            old(self)@.wf(W as int, H as int),
            has_empty(old(self)@.cells, W as int, H as int),
        ensures
            final(self)@.wf(W as int, H as int),
            final(self)@.snake == old(self)@.snake,
            exists|p: Pos|
                on_board(p, W as int, H as int) && #[trigger] cell_at(old(self)@.cells, p)
                    == Cell::Empty && final(self)@.cells == with_cell(
                    old(self)@.cells,
                    p,
                    Cell::Apple,
                ),
    {
        let n = count_empties(&self.cells, W, H);
        proof {
            let p = choose|p: Pos|
                on_board(p, W as int, H as int) && #[trigger] cell_at(self@.cells, p)
                    == Cell::Empty;
            lemma_board_counts_empty(self@.cells, W as int, H as int, p);
        }
        let mut rng: ThreadRng = rand::thread_rng();
        let k = draw(&mut rng, 0, n);
        let at = place_at_empty(&mut self.cells, W, H, k);
    }

    /// Moves the snake one step in `direction`.
    ///
    /// Returns `true` if the snake lives: its head has reached a cell that
    /// held no part of it. Returns `false`, with the board as it was, where
    /// the step would leave the range of the coordinates, which leaves the
    /// snake untouched too, or where the head has run into the snake.
    pub fn step(&mut self, direction: Dir) -> (alive: bool)
        requires
            old(self)@.wf(W as int, H as int),
            old(self)@.can_step(direction, W as int, H as int),
        ensures
            final(self)@.wf(W as int, H as int),
            match neighbour(old(self)@.head(), direction) {
                None => !alive && final(self)@ == old(self)@,
                Some(to) => match cell_at(old(self)@.cells, to) {
                    Cell::Snake => {
                        &&& !alive
                        &&& final(self)@.cells == old(self)@.cells
                        &&& final(self)@.snake == old(self)@.snake.advanced(to, false)
                    },
                    Cell::Empty => alive && final(self)@ == old(self)@.stepped(to, to),
                    Cell::Apple => {
                        &&& alive
                        &&& exists|apple: Pos|
                            {
                                &&& on_board(apple, W as int, H as int)
                                &&& #[trigger] cell_at(old(self)@.cells, apple) == Cell::Empty
                                &&& final(self)@ == old(self)@.stepped(to, apple)
                            }
                    },
                },
            },
    {
        let cells = &self.cells;
        let on_apple = |p: Pos| -> (b: bool)
            requires
                on_board(p, W as int, H as int),
            ensures
                b == (cell_at(rows_of(cells@), p) == Cell::Apple),
            { cells[p.y as usize][p.x as usize] == Cell::Apple };
        match self.snake.mov(on_apple, direction) {
            Some((head, tail)) => {
                match self.cells[head.y as usize][head.x as usize] {
                    Cell::Empty => (),
                    Cell::Apple => self.place_apple(),
                    Cell::Snake => return false,
                }
                assert(rows_of(self.cells@)[head.y as int] == self.cells@[head.y as int]@);
                set_cell(&mut self.cells, head, Cell::Snake);
                assert(is_board(rows_of(self.cells@), W as int, H as int));
                assert(rows_of(self.cells@)[tail.y as int] == self.cells@[tail.y as int]@);
                set_cell(&mut self.cells, tail, Cell::Empty);
                true
            },
            None => false,
        }
    }
}

/// The board on which a game starts, before the first apple is placed: the
/// snake stands upright in the middle column, three cells long.
pub open spec fn start_cells(w: int, h: int) -> Seq<Seq<Cell>> {
    Seq::new(
        h as nat,
        |y: int|
            Seq::new(
                w as nat,
                |x: int|
                    if x == w / 2 && h / 2 - 1 <= y <= h / 2 + 1 {
                        Cell::Snake
                    } else {
                        Cell::Empty
                    },
            ),
    )
}

/// The snake with which a game starts: its tail below the middle of the
/// board, its head above it.
pub open spec fn start_snake(w: int, h: int) -> SnakeView {
    let x = (w / 2) as u8;
    let y = h / 2;
    SnakeView {
        body: seq![
            Pos { x, y: (y + 1) as u8 },
            Pos { x, y: y as u8 },
            Pos { x, y: (y - 1) as u8 },
            origin(),
        ],
        head: 2,
        tail: 0,
    }
}

/// The character that stands for a cell.
pub open spec fn glyph(c: Cell) -> char {
    match c {
        Cell::Empty => '_',
        Cell::Apple => 'A',
        Cell::Snake => 's',
    }
}

/// The first `upto` rows of the board as text: a character for each cell,
/// and a line feed between two rows.
pub open spec fn board_text(cells: Seq<Seq<Cell>>, upto: int) -> Seq<char>
    decreases upto,
{
    if upto <= 0 {
        Seq::empty()
    } else {
        let row = Seq::new(cells[upto - 1].len(), |x: int| glyph(cells[upto - 1][x]));
        if upto == 1 {
            row
        } else {
            board_text(cells, upto - 1).push('\n') + row
        }
    }
}

/// `String::push`: the string with `c` behind its last character.
#[verifier::external_body]
fn push_char(s: &mut String, c: char)
    ensures
        final(s)@ == old(s)@.push(c),
{
    s.push(c)
}

impl<const W: u8, const H: u8> Game<W, H> {
    /// A new game: the snake in the middle of the board, and one apple on a
    /// cell chosen at random. The board must hold the snake, which takes
    /// three rows, and leave a cell for the apple.
    pub fn default() -> (game: Self)
        requires
            W >= 1,
            H >= 3,
            W >= 2 || H >= 4,
        ensures
            game@.wf(W as int, H as int),
            game@.snake == start_snake(W as int, H as int),
            exists|apple: Pos|
                {
                    &&& on_board(apple, W as int, H as int)
                    &&& #[trigger] cell_at(start_cells(W as int, H as int), apple) == Cell::Empty
                    &&& game@.cells == with_cell(
                        start_cells(W as int, H as int),
                        apple,
                        Cell::Apple,
                    )
                },
    {
        let mut cells: Vec<Vec<Cell>> = Vec::with_capacity(H as usize);
        while cells.len() < H as usize
            invariant
                cells@.len() <= H,
                forall|y: int|
                    0 <= y < cells@.len() ==> (#[trigger] cells@[y])@ == Seq::new(
                        W as nat,
                        |x: int| Cell::Empty,
                    ),
            decreases H - cells@.len(),
        {
            let mut row: Vec<Cell> = Vec::with_capacity(W as usize);
            while row.len() < W as usize
                invariant
                    row@.len() <= W,
                    forall|x: int| 0 <= x < row@.len() ==> #[trigger] row@[x] == Cell::Empty,
                decreases W - row@.len(),
            {
                row.push(Cell::Empty);
            }
            cells.push(row);
        }
        let x = W / 2;
        let y = H / 2;
        let mut body: Vec<Pos> = Vec::with_capacity(3);
        body.push(Pos::new(x, y + 1));
        body.push(Pos::new(x, y));
        body.push(Pos::new(x, y - 1));
        let mut i: usize = 0;
        while i < body.len()
            invariant
                i <= 3,
                W >= 1,
                H >= 3,
                body@ == seq![
                    Pos { x: W / 2, y: (H / 2 + 1) as u8 },
                    Pos { x: W / 2, y: H / 2 },
                    Pos { x: W / 2, y: (H / 2 - 1) as u8 },
                ],
                is_board(rows_of(cells@), W as int, H as int),
                forall|p: Pos|
                    on_board(p, W as int, H as int) ==> #[trigger] cell_at(rows_of(cells@), p) == (
                    if p.x == W / 2 && H / 2 + 1 - i < p.y <= H / 2 + 1 {
                        Cell::Snake
                    } else {
                        Cell::Empty
                    }),
            decreases 3 - i,
        {
            let p = body[i];
            let ghost before = rows_of(cells@);
            assert(before[p.y as int] == cells@[p.y as int]@);
            set_cell(&mut cells, p, Cell::Snake);
            assert forall|q: Pos| on_board(q, W as int, H as int) implies #[trigger] cell_at(
                rows_of(cells@),
                q,
            ) == (if q == p {
                Cell::Snake
            } else {
                cell_at(before, q)
            }) by {}
            i += 1;
        }
        let snake = Snake::new(body);
        let ghost start = rows_of(cells@);
        assert(start =~~= start_cells(W as int, H as int)) by {
            assert forall|y: int, x: int| 0 <= y < H && 0 <= x < W implies start[y][x]
                == start_cells(W as int, H as int)[y][x] by {
                let p = Pos { x: x as u8, y: y as u8 };
                assert(cell_at(start, p) == start[y][x]);
            }
        }
        let mut game = Game { snake, cells };
        proof {
            let free = if W >= 2 {
                Pos { x: 0, y: H / 2 }
            } else {
                Pos { x: W / 2, y: 0 }
            };
            assert(on_board(free, W as int, H as int) && cell_at(game@.cells, free) == Cell::Empty);
        }
        game.place_apple();
        game
    }

    /// The snake.
    pub fn snake(&self) -> (snake: &Snake)
        ensures
            snake@ == self@.snake,
    {
        &self.snake
    }

    /// The position of the snake's head.
    pub fn head(&self) -> (pos: Pos)
        requires
            self@.wf(W as int, H as int),
        ensures
            pos == self@.head(),
    {
        self.snake.head()
    }

    /// What the cell at `p` holds, or `None` where `p` lies off the board.
    pub fn get(&self, p: Pos) -> (cell: Option<Cell>)
        requires
            self@.wf(W as int, H as int),
        ensures
            cell == if on_board(p, W as int, H as int) {
                Some(cell_at(self@.cells, p))
            } else {
                None
            },
    {
        if p.x < W && p.y < H {
            Some(self.cells[p.y as usize][p.x as usize])
        } else {
            None
        }
    }

    /// The board as text: `_` for an empty cell, `A` for an apple, `s` for
    /// the snake, and a line feed between two rows.
    pub fn render(&self) -> (text: String)
        requires
            self@.wf(W as int, H as int),
        ensures
            text@ == board_text(self@.cells, H as int),
    {
        let ghost board = self@.cells;
        let mut text = String::new();
        let mut y: usize = 0;
        while y < H as usize
            invariant
                board == rows_of(self.cells@),
                is_board(board, W as int, H as int),
                y <= H,
                text@ == board_text(board, y as int),
            decreases H - y,
        {
            if y > 0 {
                push_char(&mut text, '\n');
            }
            let ghost lead = text@;
            let row = &self.cells[y];
            assert(row@ == board[y as int]);
            let mut x: usize = 0;
            while x < W as usize
                invariant
                    row@.len() == W,
                    x <= W,
                    text@ == lead + Seq::new(x as nat, |j: int| glyph(row@[j])),
                decreases W - x,
            {
                let c = match row[x] {
                    Cell::Empty => '_',
                    Cell::Apple => 'A',
                    Cell::Snake => 's',
                };
                push_char(&mut text, c);
                x += 1;
            }
            y += 1;
        }
        text
    }
}

} // verus!
