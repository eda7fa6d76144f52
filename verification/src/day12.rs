use vstd::prelude::*;

use crate::reply::Reply;
use crate::text::push_char;

verus! {

/// Symbol drawn for the wall around the board.
pub const WALL: char = '\u{2B1C}';

/// Symbol drawn for an empty cell.
pub const EMPTY: char = '\u{2B1B}';

/// Symbol drawn for a cookie.
pub const COOKIE: char = '\u{1F36A}';

/// Symbol drawn for a glass of milk.
pub const MILK: char = '\u{1F95B}';

/// Seed of the generator that a fresh board draws random boards from.
pub const RANDOM_SEED: u64 = 2024;

#[verifier::external_type_specification]
#[verifier::external_body]
pub struct ExStdRng(rand::rngs::StdRng);

/// What a cell of the board holds; also names a team.
#[derive(Debug, Clone, Copy, PartialEq, Eq, Structural)]
pub enum BoardValue {
    Cookie,
    Milk,
    Empty,
}

impl Default for BoardValue {
    fn default() -> (v: Self)
        ensures
            v == BoardValue::Empty,
    {
        BoardValue::Empty
    }
}

/// The symbol that stands for a value.
pub open spec fn symbol(v: BoardValue) -> char {
    match v {
        BoardValue::Empty => EMPTY,
        BoardValue::Cookie => COOKIE,
        BoardValue::Milk => MILK,
    }
}

impl BoardValue {
    /// The symbol that stands for this value on the rendered board.
    pub fn convert_to_char(&self) -> (c: char)
        ensures
            c == symbol(*self),
    {
        match self {
            BoardValue::Empty => EMPTY,
            BoardValue::Cookie => COOKIE,
            BoardValue::Milk => MILK,
        }
    }
}

/// Four rows of four cells; row 0 is the top, row 3 the bottom.
pub type Grid = [[BoardValue; 4]; 4];

/// The game: the grid, the outcome once the game is over, and the generator
/// that random boards are drawn from.
///
/// `winner` is `None` while the game goes on, `Some(BoardValue::Empty)` when
/// it ended without a winner, and `Some(team)` when `team` won.
pub struct Board {
    pub grid: Grid,
    pub winner: Option<BoardValue>,
    pub rng: rand::rngs::StdRng,
}

/// Every cell of row `r` holds `v`.
pub open spec fn row_all(g: Grid, r: int, v: BoardValue) -> bool {
    g[r][0] == v && g[r][1] == v && g[r][2] == v && g[r][3] == v
}

/// Every cell of column `c` holds `v`.
pub open spec fn col_all(g: Grid, c: int, v: BoardValue) -> bool {
    g[0][c] == v && g[1][c] == v && g[2][c] == v && g[3][c] == v
}

/// Every cell of the diagonal from top left to bottom right holds `v`.
pub open spec fn diag_all(g: Grid, v: BoardValue) -> bool {
    g[0][0] == v && g[1][1] == v && g[2][2] == v && g[3][3] == v
}

/// Every cell of the diagonal from bottom left to top right holds `v`.
pub open spec fn anti_diag_all(g: Grid, v: BoardValue) -> bool {
    g[3][0] == v && g[2][1] == v && g[1][2] == v && g[0][3] == v
}

/// No cell of row `r` is empty.
pub open spec fn row_filled(g: Grid, r: int) -> bool {
    g[r][0] != BoardValue::Empty && g[r][1] != BoardValue::Empty && g[r][2] != BoardValue::Empty
        && g[r][3] != BoardValue::Empty
}

/// No cell of the grid is empty.
pub open spec fn is_full(g: Grid) -> bool {
    row_filled(g, 0) && row_filled(g, 1) && row_filled(g, 2) && row_filled(g, 3)
}

/// Every cell of the grid is empty.
pub open spec fn is_clear(g: Grid) -> bool {
    forall|r: int, c: int| 0 <= r < 4 && 0 <= c < 4 ==> #[trigger] g[r][c] == BoardValue::Empty
}

/// The row where a piece dropped into column `c` comes to rest: the lowest
/// empty cell of the column, if there is one.
pub open spec fn landing_row(g: Grid, c: int) -> Option<int> {
    if g[3][c] == BoardValue::Empty {
        Some(3)
    } else if g[2][c] == BoardValue::Empty {
        Some(2)
    } else if g[1][c] == BoardValue::Empty {
        Some(1)
    } else if g[0][c] == BoardValue::Empty {
        Some(0)
    } else {
        None
    }
}

/// `after` is `before` with cell (`r`, `c`) set to `v`.
pub open spec fn grid_with(before: Grid, after: Grid, r: int, c: int, v: BoardValue) -> bool {
    forall|i: int, j: int|
        0 <= i < 4 && 0 <= j < 4 ==> #[trigger] after[i][j] == (if i == r && j == c {
            v
        } else {
            before[i][j]
        })
}

/// The outcome of a game after `team` dropped a piece that landed at
/// (`r`, `c`) of grid `g`: a full grid ends the game without a winner;
/// otherwise `team` wins when the piece's row, the piece's column or either
/// diagonal is all `team`.
pub open spec fn outcome_after_drop(g: Grid, r: int, c: int, team: BoardValue) -> Option<
    BoardValue,
> {
    if is_full(g) {
        Some(BoardValue::Empty)
    } else if row_all(g, r, team) || col_all(g, c, team) || diag_all(g, team) || anti_diag_all(
        g,
        team,
    ) {
        Some(team)
    } else {
        None
    }
}

/// The team that a line of four cells belongs to, if it is all cookies or all
/// milk.
pub open spec fn line_owner(a: BoardValue, b: BoardValue, c: BoardValue, d: BoardValue) -> Option<
    BoardValue,
> {
    if a == BoardValue::Cookie && b == BoardValue::Cookie && c == BoardValue::Cookie && d
        == BoardValue::Cookie {
        Some(BoardValue::Cookie)
    } else if a == BoardValue::Milk && b == BoardValue::Milk && c == BoardValue::Milk && d
        == BoardValue::Milk {
        Some(BoardValue::Milk)
    } else {
        None
    }
}

/// `first` if it is there, else `rest`.
pub open spec fn or_next(first: Option<BoardValue>, rest: Option<BoardValue>) -> Option<
    BoardValue,
> {
    match first {
        Some(v) => Some(v),
        None => rest,
    }
}

/// The owner of the first line that has one, lines taken in this order:
/// rows from the top, columns from the left, the diagonal from top left,
/// the diagonal from bottom left.
pub open spec fn first_owned_line(g: Grid) -> Option<BoardValue> {
    or_next(
        line_owner(g[0][0], g[0][1], g[0][2], g[0][3]),
        or_next(
            line_owner(g[1][0], g[1][1], g[1][2], g[1][3]),
            or_next(
                line_owner(g[2][0], g[2][1], g[2][2], g[2][3]),
                or_next(
                    line_owner(g[3][0], g[3][1], g[3][2], g[3][3]),
                    or_next(
                        line_owner(g[0][0], g[1][0], g[2][0], g[3][0]),
                        or_next(
                            line_owner(g[0][1], g[1][1], g[2][1], g[3][1]),
                            or_next(
                                line_owner(g[0][2], g[1][2], g[2][2], g[3][2]),
                                or_next(
                                    line_owner(g[0][3], g[1][3], g[2][3], g[3][3]),
                                    or_next(
                                        line_owner(g[0][0], g[1][1], g[2][2], g[3][3]),
                                        line_owner(g[3][0], g[2][1], g[1][2], g[0][3]),
                                    ),
                                ),
                            ),
                        ),
                    ),
                ),
            ),
        ),
    )
}

/// The outcome of a random board: the owner of the first owned line, or no
/// winner.
pub open spec fn random_outcome(g: Grid) -> BoardValue {
    match first_owned_line(g) {
        Some(v) => v,
        None => BoardValue::Empty,
    }
}

/// The grid that a sequence of sixteen coin draws gives, in row order: a
/// cookie for `true`, milk for `false`.
pub open spec fn drawn_grid(g: Grid, draws: Seq<bool>) -> bool {
    forall|r: int, c: int|
        0 <= r < 4 && 0 <= c < 4 ==> #[trigger] g[r][c] == (if draws[4 * r + c] {
            BoardValue::Cookie
        } else {
            BoardValue::Milk
        })
}

/// One rendered row: the wall, the row's four symbols, the wall, a newline.
pub open spec fn row_text(g: Grid, r: int) -> Seq<char> {
    seq![WALL, symbol(g[r][0]), symbol(g[r][1]), symbol(g[r][2]), symbol(g[r][3]), WALL, '\n']
}

/// The rendered bottom wall.
pub open spec fn bottom_text() -> Seq<char> {
    seq![WALL, WALL, WALL, WALL, WALL, WALL, '\n']
}

/// The rendered board: its four rows from the top, then the bottom wall.
pub open spec fn board_text(g: Grid) -> Seq<char> {
    row_text(g, 0) + row_text(g, 1) + row_text(g, 2) + row_text(g, 3) + bottom_text()
}

/// The line that announces the outcome of a game, if it is over.
pub open spec fn outcome_text(w: Option<BoardValue>) -> Seq<char> {
    match w {
        None => Seq::empty(),
        Some(BoardValue::Empty) => "No winner.\n"@,
        Some(v) => seq![symbol(v)] + " wins!\n"@,
    }
}

/// The rendered state of a game: the board, then the outcome line.
pub open spec fn state_text(g: Grid, w: Option<BoardValue>) -> Seq<char> {
    board_text(g) + outcome_text(w)
}

/// The generator that `StdRng::seed_from_u64` gives for a seed. rand's
/// `StdRng` is a deterministic generator: the seed fixes its state.
pub uninterp spec fn seeded_generator(seed: u64) -> rand::rngs::StdRng;

/// What one fair-coin draw from a generator in a given state gives: the coin
/// and the generator's next state. rand's `StdRng` computes both from its
/// state alone.
pub uninterp spec fn coin_draw(rng: rand::rngs::StdRng) -> (bool, rand::rngs::StdRng);

/// The first `n` coins drawn from a generator in a given state.
pub open spec fn draws_from(rng: rand::rngs::StdRng, n: nat) -> Seq<bool>
    decreases n,
{
    if n == 0 {
        Seq::empty()
    } else {
        seq![coin_draw(rng).0] + draws_from(coin_draw(rng).1, (n - 1) as nat)
    }
}

/// The state of a generator after `n` coin draws.
pub open spec fn rng_after(rng: rand::rngs::StdRng, n: nat) -> rand::rngs::StdRng
    decreases n,
{
    if n == 0 {
        rng
    } else {
        coin_draw(rng_after(rng, (n - 1) as nat)).1
    }
}

/// `StdRng::seed_from_u64` (rand's `SeedableRng`): the generator whose state
/// the seed fixes, named by [`seeded_generator`].
#[verifier::external_body]
fn seeded_rng(seed: u64) -> (rng: rand::rngs::StdRng)
    ensures
        rng == seeded_generator(seed),
{
    <rand::rngs::StdRng as rand::SeedableRng>::seed_from_u64(seed)
}

/// `Rng::gen::<bool>` (rand): draws a fair coin and advances the generator;
/// coin and next state are those named by [`coin_draw`] for the state before
/// the call.
#[verifier::external_body]
fn draw_bool(rng: &mut rand::rngs::StdRng) -> (b: bool)
    ensures
        (b, *final(rng)) == coin_draw(*old(rng)),
{
    rand::Rng::gen::<bool>(rng)
}

fn empty_row() -> (row: [BoardValue; 4])
    ensures
        forall|c: int| 0 <= c < 4 ==> #[trigger] row[c] == BoardValue::Empty,
{
    [BoardValue::Empty, BoardValue::Empty, BoardValue::Empty, BoardValue::Empty]
}

impl Default for Board {
    /// A fresh game: every cell empty, no outcome, and a generator seeded
    /// with [`RANDOM_SEED`].
    fn default() -> (b: Self)
        ensures
            is_clear(b.grid),
            b.winner is None,
            b.rng == seeded_generator(RANDOM_SEED),
    {
        let grid = [empty_row(), empty_row(), empty_row(), empty_row()];
        Board { grid, winner: None, rng: seeded_rng(RANDOM_SEED) }
    }
}

/// The owner of a line of four cells, computed.
fn owner_of(a: BoardValue, b: BoardValue, c: BoardValue, d: BoardValue) -> (o: Option<BoardValue>)
    ensures
        o == line_owner(a, b, c, d),
{
    if a == BoardValue::Cookie && b == BoardValue::Cookie && c == BoardValue::Cookie && d
        == BoardValue::Cookie {
        Some(BoardValue::Cookie)
    } else if a == BoardValue::Milk && b == BoardValue::Milk && c == BoardValue::Milk && d
        == BoardValue::Milk {
        Some(BoardValue::Milk)
    } else {
        None
    }
}

/// Appends the rendering of one row.
fn push_row(s: &mut String, row: &[BoardValue; 4])
    ensures
        final(s)@ == old(s)@ + seq![
            WALL,
            symbol(row[0]),
            symbol(row[1]),
            symbol(row[2]),
            symbol(row[3]),
            WALL,
            '\n',
        ],
{
    push_char(s, WALL);
    push_char(s, row[0].convert_to_char());
    push_char(s, row[1].convert_to_char());
    push_char(s, row[2].convert_to_char());
    push_char(s, row[3].convert_to_char());
    push_char(s, WALL);
    push_char(s, '\n');
    assert(s@ =~= old(s)@ + seq![
        WALL,
        symbol(row[0]),
        symbol(row[1]),
        symbol(row[2]),
        symbol(row[3]),
        WALL,
        '\n',
    ]);
}

impl Board {
    /// The board drawn as text: each row framed by walls, then a wall below.
    pub fn build_to_string(&self) -> (s: String)
        ensures
            s@ == board_text(self.grid),
    {
        let mut s = String::new();
        push_row(&mut s, &self.grid[0]);
        push_row(&mut s, &self.grid[1]);
        push_row(&mut s, &self.grid[2]);
        push_row(&mut s, &self.grid[3]);
        let ghost rows = s@;
        let mut i: usize = 0;
        while i < 6
            invariant
                i <= 6,
                s@ == rows + Seq::new(i as nat, |k: int| WALL),
            decreases 6 - i,
        {
            push_char(&mut s, WALL);
            i = i + 1;
            assert(s@ =~= rows + Seq::new(i as nat, |k: int| WALL));
        }
        push_char(&mut s, '\n');
        assert(s@ =~= board_text(self.grid));
        s
    }

    /// The board drawn as text, followed by the outcome line once the game is
    /// over.
    pub fn get_current_state(&self) -> (s: String)
        ensures
            s@ == state_text(self.grid, self.winner),
    {
        let mut state = self.build_to_string();
        match self.winner {
            Some(w) => {
                if w != BoardValue::Empty {
                    push_char(&mut state, w.convert_to_char());
                    state.append(" wins!\n");
                } else {
                    state.append("No winner.\n");
                }
            },
            None => {},
        }
        assert(state@ =~= state_text(self.grid, self.winner));
        state
    }

    /// Fills the grid from sixteen coin draws taken in row order (a cookie for
    /// `true`, milk for `false`) and records the outcome of the new board.
    pub fn apply_draws(&mut self, draws: &[bool; 16])
        ensures
            drawn_grid(final(self).grid, draws@),
            final(self).winner == Some(random_outcome(final(self).grid)),
            final(self).rng == old(self).rng,
    {
        let mut r: usize = 0;
        while r < 4
            invariant
                r <= 4,
                self.rng == old(self).rng,
                forall|i: int, j: int|
                    0 <= i < r && 0 <= j < 4 ==> #[trigger] self.grid[i][j] == (if draws@[4 * i
                        + j] {
                        BoardValue::Cookie
                    } else {
                        BoardValue::Milk
                    }),
            decreases 4 - r,
        {
            let mut row = empty_row();
            let mut c: usize = 0;
            while c < 4
                invariant
                    r < 4,
                    c <= 4,
                    forall|j: int|
                        0 <= j < c ==> #[trigger] row[j] == (if draws@[4 * r + j] {
                            BoardValue::Cookie
                        } else {
                            BoardValue::Milk
                        }),
                decreases 4 - c,
            {
                let v = if draws[4 * r + c] {
                    BoardValue::Cookie
                } else {
                    BoardValue::Milk
                };
                row[c] = v;
                c = c + 1;
            }
            self.grid[r] = row;
            r = r + 1;
        }
        let w = first_owner(&self.grid);
        self.winner = Some(w);
    }

    /// Draws a new random board from the generator: sixteen coins in row
    /// order, a cookie for heads and milk for tails; the outcome is that of
    /// the new board.
    pub fn generate_random_board(&mut self)
        ensures
            drawn_grid(final(self).grid, draws_from(old(self).rng, 16)),
            final(self).winner == Some(random_outcome(final(self).grid)),
            final(self).rng == rng_after(old(self).rng, 16),
    {
        let mut draws = [false; 16];
        let mut i: usize = 0;
        let ghost start = self.rng;
        assert(draws@.take(0) + draws_from(self.rng, 16) =~= draws_from(start, 16));
        while i < 16
            invariant
                i <= 16,
                draws_from(start, 16) == draws@.take(i as int) + draws_from(self.rng, (16 - i) as nat),
                self.rng == rng_after(start, i as nat),
            decreases 16 - i,
        {
            let ghost before = self.rng;
            let b = draw_bool(&mut self.rng);
            assert(draws_from(before, (16 - i) as nat) =~= seq![b] + draws_from(
                self.rng,
                (16 - i - 1) as nat,
            ));
            let ghost prefix = draws@.take(i as int);
            draws[i] = b;
            assert(draws@.take(i + 1) =~= prefix.push(b));
            i = i + 1;
            assert(draws_from(start, 16) =~= draws@.take(i as int) + draws_from(
                self.rng,
                (16 - i) as nat,
            ));
        }
        assert(draws@ =~= draws_from(start, 16)) by {
            assert(draws_from(self.rng, 0) =~= Seq::<bool>::empty());
            assert(draws@.take(16) =~= draws@);
        }
        self.apply_draws(&draws);
    }
}

/// The outcome of a random board, computed.
fn first_owner(g: &Grid) -> (w: BoardValue)
    ensures
        w == random_outcome(*g),
{
    let lines = [
        owner_of(g[0][0], g[0][1], g[0][2], g[0][3]),
        owner_of(g[1][0], g[1][1], g[1][2], g[1][3]),
        owner_of(g[2][0], g[2][1], g[2][2], g[2][3]),
        owner_of(g[3][0], g[3][1], g[3][2], g[3][3]),
        owner_of(g[0][0], g[1][0], g[2][0], g[3][0]),
        owner_of(g[0][1], g[1][1], g[2][1], g[3][1]),
        owner_of(g[0][2], g[1][2], g[2][2], g[3][2]),
        owner_of(g[0][3], g[1][3], g[2][3], g[3][3]),
        owner_of(g[0][0], g[1][1], g[2][2], g[3][3]),
        owner_of(g[3][0], g[2][1], g[1][2], g[0][3]),
    ];
    let mut k: usize = 10;
    let mut found: Option<BoardValue> = None;
    while k > 0
        invariant
            k <= 10,
            found == chain_from(lines@, k as int),
        decreases k,
    {
        k = k - 1;
        found = match lines[k] {
            Some(v) => Some(v),
            None => found,
        };
    }
    assert(first_owned_line(*g) == chain_from(lines@, 0)) by {
        reveal_with_fuel(chain_from, 11);
    }
    match found {
        Some(v) => v,
        None => BoardValue::Empty,
    }
}

/// The first owner found among `lines[k..]`.
spec fn chain_from(lines: Seq<Option<BoardValue>>, k: int) -> Option<BoardValue>
    decreases 10 - k,
{
    if k >= 10 || k < 0 {
        None
    } else {
        or_next(lines[k], chain_from(lines, k + 1))
    }
}


/// Whether every cell of row `r` holds `v`, computed.
fn row_is(g: &Grid, r: usize, v: BoardValue) -> (b: bool)
    requires
        r < 4,
    ensures
        b == row_all(*g, r as int, v),
{
    g[r][0] == v && g[r][1] == v && g[r][2] == v && g[r][3] == v
}

/// Whether every cell of column `c` holds `v`, computed.
fn col_is(g: &Grid, c: usize, v: BoardValue) -> (b: bool)
    requires
        c < 4,
    ensures
        b == col_all(*g, c as int, v),
{
    g[0][c] == v && g[1][c] == v && g[2][c] == v && g[3][c] == v
}

/// Whether the grid has no empty cell, computed.
fn full(g: &Grid) -> (b: bool)
    ensures
        b == is_full(*g),
{
    let mut r: usize = 0;
    while r < 4
        invariant
            r <= 4,
            forall|i: int| 0 <= i < r ==> row_filled(*g, i),
        decreases 4 - r,
    {
        if g[r][0] == BoardValue::Empty || g[r][1] == BoardValue::Empty || g[r][2]
            == BoardValue::Empty || g[r][3] == BoardValue::Empty {
            return false;
        }
        r = r + 1;
    }
    true
}

/// Answers with the current state of the game.
pub fn board(game: &Board) -> (r: Reply)
    ensures
        r.is_text(200, state_text(game.grid, game.winner)),
{
    Reply::text(200, game.get_current_state())
}

/// Starts a fresh game and answers with its state.
pub fn reset(game: &mut Board) -> (r: Reply)
    ensures
        is_clear(final(game).grid),
        final(game).winner is None,
        final(game).rng == seeded_generator(RANDOM_SEED),
        r.is_text(200, state_text(final(game).grid, None)),
{
    *game = Board::default();
    Reply::text(200, game.get_current_state())
}

/// Draws a random board and answers with its state.
pub fn random_board(game: &mut Board) -> (r: Reply)
    ensures
        drawn_grid(final(game).grid, draws_from(old(game).rng, 16)),
        final(game).rng == rng_after(old(game).rng, 16),
        final(game).winner == Some(random_outcome(final(game).grid)),
        r.is_text(200, state_text(final(game).grid, final(game).winner)),
{
    game.generate_random_board();
    Reply::text(200, game.get_current_state())
}

/// `team` drops a piece into `column` (numbered 1 to 4 from the left).
///
/// A column outside 1 to 4 is refused with 400. Once the game is over, or
/// when the column is full, the move is refused with 503 and the current
/// state. Otherwise the piece lands in the lowest empty cell of the column,
/// the outcome is updated, and the answer is 200 with the new state.
pub fn place(game: &mut Board, team: BoardValue, column: u8) -> (r: Reply)
    ensures
        !(1 <= column <= 4) ==> r.is_bare(400) && *final(game) == *old(game),
        1 <= column <= 4 && old(game).winner is Some ==> r.is_text(
            503,
            state_text(old(game).grid, old(game).winner),
        ) && *final(game) == *old(game),
        1 <= column <= 4 && old(game).winner is None && landing_row(old(game).grid, column - 1)
            is None ==> r.is_text(503, state_text(old(game).grid, old(game).winner))
            && *final(game) == *old(game),
        1 <= column <= 4 && old(game).winner is None ==> (landing_row(
            old(game).grid,
            column - 1,
        ) matches Some(y) ==> {
            &&& grid_with(old(game).grid, final(game).grid, y, column - 1, team)
            &&& final(game).winner == outcome_after_drop(final(game).grid, y, column - 1, team)
            &&& final(game).rng == old(game).rng
            &&& r.is_text(200, state_text(final(game).grid, final(game).winner))
        }),
{
    if column < 1 || column > 4 {
        return Reply::bare(400);
    }
    let col = (column - 1) as usize;
    if game.winner.is_some() {
        return Reply::text(503, game.get_current_state());
    }
    let y: usize = if game.grid[3][col] == BoardValue::Empty {
        3
    } else if game.grid[2][col] == BoardValue::Empty {
        2
    } else if game.grid[1][col] == BoardValue::Empty {
        1
    } else if game.grid[0][col] == BoardValue::Empty {
        0
    } else {
        return Reply::text(503, game.get_current_state());
    };
    let ghost before = game.grid;
    game.grid[y][col] = team;
    assert(grid_with(before, game.grid, y as int, col as int, team));
    let mut outcome: Option<BoardValue> = None;
    if row_is(&game.grid, y, team) {
        outcome = Some(team);
    }
    if col_is(&game.grid, col, team) {
        outcome = Some(team);
    }
    if game.grid[0][0] == team && game.grid[1][1] == team && game.grid[2][2] == team
        && game.grid[3][3] == team {
        outcome = Some(team);
    }
    if game.grid[3][0] == team && game.grid[2][1] == team && game.grid[1][2] == team
        && game.grid[0][3] == team {
        outcome = Some(team);
    }
    if full(&game.grid) {
        outcome = Some(BoardValue::Empty);
    }
    game.winner = outcome;
    Reply::text(200, game.get_current_state())
}

/// A piece that was placed rests on the bottom row or on a non-empty cell.
pub proof fn lemma_piece_rests_on_support(
    before: Grid,
    after: Grid,
    c: int,
    y: int,
    team: BoardValue,
)
    requires
        0 <= c < 4,
        landing_row(before, c) == Some(y),
        grid_with(before, after, y, c, team),
    ensures
        0 <= y < 4,
        after[y][c] == team,
        y == 3 || after[y + 1][c] != BoardValue::Empty,
{
    assert(after[y][c] == team);
    if y < 3 {
        assert(after[y + 1][c] == before[y + 1][c]);
    }
}

/// On a clear grid, the first piece of a team lands on the bottom row and
/// does not end the game.
pub proof fn lemma_first_move_keeps_game_open(before: Grid, after: Grid, c: int, team: BoardValue)
    requires
        0 <= c < 4,
        is_clear(before),
        team != BoardValue::Empty,
        grid_with(before, after, 3, c, team),
    ensures
        landing_row(before, c) == Some(3int),
        outcome_after_drop(after, 3, c, team) is None,
{
    assert(before[3][c] == BoardValue::Empty);
    assert(after[0][0] == BoardValue::Empty);
    assert(after[0][3] == BoardValue::Empty);
    assert(after[2][c] == BoardValue::Empty);
    let other = if c == 0 { 1int } else { 0int };
    assert(after[3][other] == BoardValue::Empty);
    assert(!row_filled(after, 0));
}

/// The rendered board is five lines of six symbols each.
pub proof fn lemma_board_text_shape(g: Grid)
    ensures
        board_text(g).len() == 35,
        forall|k: int| 0 <= k < 5 ==> #[trigger] board_text(g)[7 * k + 6] == '\n',
{
    assert forall|k: int| 0 <= k < 5 implies #[trigger] board_text(g)[7 * k + 6] == '\n' by {
        if k == 0 {
        } else if k == 1 {
        } else if k == 2 {
        } else if k == 3 {
        } else {
        }
    }
}


/// A random board is the one its sixteen draws give: boards drawn from
/// generators in the same state are the same board with the same outcome
/// (and both generators end in the state sixteen draws leave). With
/// [`lemma_rng_after_compose`], the sequence of random boards after a reset
/// is always the same.
pub proof fn lemma_random_board_replays(g1: Grid, g2: Grid, rng: rand::rngs::StdRng)
    requires
        drawn_grid(g1, draws_from(rng, 16)),
        drawn_grid(g2, draws_from(rng, 16)),
    ensures
        g1 == g2,
        random_outcome(g1) == random_outcome(g2),
{
    assert forall|r: int| 0 <= r < 4 implies #[trigger] g1[r] == g2[r] by {
        assert forall|c: int| 0 <= c < 4 implies g1[r][c] == g2[r][c] by {
            assert(g1[r][c] == g2[r][c]);
        }
        assert(g1[r] =~= g2[r]);
    }
    assert(g1 =~= g2);
}

/// Drawing `a` coins and then `b` more leaves the generator as drawing
/// `a + b` coins does: the `k`-th random board after a reset is drawn from the
/// seeded generator advanced by `16 * (k - 1)` coins, the same every time.
pub proof fn lemma_rng_after_compose(rng: rand::rngs::StdRng, a: nat, b: nat)
    ensures
        rng_after(rng_after(rng, a), b) == rng_after(rng, a + b),
    decreases b,
{
    if b > 0 {
        lemma_rng_after_compose(rng, a, (b - 1) as nat);
        assert((a + b - 1) as nat == a + (b - 1) as nat);
    }
}

/// Every piece rests on the bottom row or on another piece.
pub open spec fn gravity_consistent(g: Grid) -> bool {
    forall|r: int, c: int|
        0 <= r < 3 && 0 <= c < 4 && #[trigger] g[r][c] != BoardValue::Empty ==> g[r + 1][c]
            != BoardValue::Empty
}

/// 1 for a filled cell, 0 for an empty one.
pub open spec fn filled(v: BoardValue) -> int {
    if v == BoardValue::Empty {
        0
    } else {
        1
    }
}

/// The number of filled cells of row `r`.
pub open spec fn row_filled_count(g: Grid, r: int) -> int {
    filled(g[r][0]) + filled(g[r][1]) + filled(g[r][2]) + filled(g[r][3])
}

/// The number of filled cells of the grid.
pub open spec fn filled_count(g: Grid) -> int {
    row_filled_count(g, 0) + row_filled_count(g, 1) + row_filled_count(g, 2) + row_filled_count(
        g,
        3,
    )
}

/// A piece of a team dropped into a column of a grid where pieces rest on
/// pieces keeps pieces resting on pieces, and fills exactly one more cell.
pub proof fn lemma_drop_keeps_gravity(before: Grid, after: Grid, c: int, y: int, team: BoardValue)
    requires
        0 <= c < 4,
        team != BoardValue::Empty,
        gravity_consistent(before),
        landing_row(before, c) == Some(y),
        grid_with(before, after, y, c, team),
    ensures
        gravity_consistent(after),
        filled_count(after) == filled_count(before) + 1,
{
    lemma_drop_gravity(before, after, c, y, team);
    lemma_drop_count(before, after, c, y, team);
}

proof fn lemma_drop_gravity(before: Grid, after: Grid, c: int, y: int, team: BoardValue)
    requires
        0 <= c < 4,
        team != BoardValue::Empty,
        gravity_consistent(before),
        landing_row(before, c) == Some(y),
        grid_with(before, after, y, c, team),
    ensures
        gravity_consistent(after),
{
    assert forall|r: int, k: int|
        0 <= r < 3 && 0 <= k < 4 && #[trigger] after[r][k] != BoardValue::Empty implies after[r
            + 1][k] != BoardValue::Empty by {
        assert(after[r + 1][k] == (if r + 1 == y && k == c { team } else { before[r + 1][k] }));
        assert(after[r][k] == (if r == y && k == c { team } else { before[r][k] }));
        if r == y && k == c {
            assert(before[y + 1][c] != BoardValue::Empty);
        } else if !(r + 1 == y && k == c) {
            assert(before[r][k] != BoardValue::Empty);
        }
    }
}

/// Row `r` of `after` has one more filled cell than that of `before` when it
/// is the row of the dropped piece, and as many otherwise.
proof fn lemma_row_count(before: Grid, after: Grid, r: int, c: int, y: int, team: BoardValue)
    requires
        0 <= r < 4,
        0 <= c < 4,
        team != BoardValue::Empty,
        0 <= y < 4,
        before[y][c] == BoardValue::Empty,
        grid_with(before, after, y, c, team),
    ensures
        row_filled_count(after, r) == row_filled_count(before, r) + (if r == y { 1int } else { 0 }),
{
    assert(after[r][0] == (if r == y && c == 0 { team } else { before[r][0] }));
    assert(after[r][1] == (if r == y && c == 1 { team } else { before[r][1] }));
    assert(after[r][2] == (if r == y && c == 2 { team } else { before[r][2] }));
    assert(after[r][3] == (if r == y && c == 3 { team } else { before[r][3] }));
}

proof fn lemma_drop_count(before: Grid, after: Grid, c: int, y: int, team: BoardValue)
    requires
        0 <= c < 4,
        team != BoardValue::Empty,
        landing_row(before, c) == Some(y),
        grid_with(before, after, y, c, team),
    ensures
        filled_count(after) == filled_count(before) + 1,
{
    assert(0 <= y < 4 && before[y][c] == BoardValue::Empty);
    lemma_row_count(before, after, 0, c, y, team);
    lemma_row_count(before, after, 1, c, y, team);
    lemma_row_count(before, after, 2, c, y, team);
    lemma_row_count(before, after, 3, c, y, team);
}

/// The draws of the first `n` random boards drawn from a generator in state
/// `rng`, one sequence of sixteen coins per board.
pub open spec fn board_draws(rng: rand::rngs::StdRng, n: nat) -> Seq<Seq<bool>>
    decreases n,
{
    if n == 0 {
        Seq::empty()
    } else {
        board_draws(rng, (n - 1) as nat).push(draws_from(rng_after(rng, 16 * (n - 1) as nat), 16))
    }
}

/// A game whose generator has given `k` random boards since state `rng`
/// draws its next random board as the next entry of [`board_draws`] and is
/// then at the state of `k + 1` boards. From a reset, whose generator is
/// `seeded_generator(RANDOM_SEED)`, the `n` random boards that follow are
/// thus always those of `board_draws(seeded_generator(RANDOM_SEED), n)`.
pub proof fn lemma_next_random_board(rng: rand::rngs::StdRng, k: nat)
    ensures
        rng_after(rng_after(rng, 16 * k), 16) == rng_after(rng, 16 * (k + 1)),
        board_draws(rng, k + 1).len() == k + 1,
        board_draws(rng, k + 1)[k as int] == draws_from(rng_after(rng, 16 * k), 16),
        forall|j: int| 0 <= j < k ==> #[trigger] board_draws(rng, k + 1)[j] == board_draws(rng, k)[j],
    decreases k,
{
    lemma_rng_after_compose(rng, 16 * k, 16);
    assert(16 * k + 16 == 16 * (k + 1));
    lemma_board_draws_len(rng, k);
}

/// [`board_draws`] holds one entry per board.
proof fn lemma_board_draws_len(rng: rand::rngs::StdRng, n: nat)
    ensures
        board_draws(rng, n).len() == n,
    decreases n,
{
    if n > 0 {
        lemma_board_draws_len(rng, (n - 1) as nat);
    }
}

/// A drawn board holds only cookies and milk.
pub proof fn lemma_drawn_board_is_full(g: Grid, draws: Seq<bool>)
    requires
        drawn_grid(g, draws),
    ensures
        forall|r: int, c: int| 0 <= r < 4 && 0 <= c < 4 ==> #[trigger] g[r][c] != BoardValue::Empty,
        is_full(g),
{
    assert(g[0][0] != BoardValue::Empty && g[0][1] != BoardValue::Empty && g[0][2] != BoardValue::Empty && g[0][3] != BoardValue::Empty);
    assert(g[1][0] != BoardValue::Empty && g[1][1] != BoardValue::Empty && g[1][2] != BoardValue::Empty && g[1][3] != BoardValue::Empty);
    assert(g[2][0] != BoardValue::Empty && g[2][1] != BoardValue::Empty && g[2][2] != BoardValue::Empty && g[2][3] != BoardValue::Empty);
    assert(g[3][0] != BoardValue::Empty && g[3][1] != BoardValue::Empty && g[3][2] != BoardValue::Empty && g[3][3] != BoardValue::Empty);
}


/// How a dropped piece ends the game, cell by cell: a grid with no empty
/// cell ends without a winner; otherwise the team wins exactly when all four
/// cells of the piece's row, of its column, of the diagonal (0,0)..(3,3) or of
/// the diagonal (3,0)..(0,3) hold the team; else the game goes on.
pub proof fn lemma_drop_outcome(g: Grid, r: int, c: int, team: BoardValue)
    requires
        0 <= r < 4,
        0 <= c < 4,
    ensures
        (forall|i: int, j: int| 0 <= i < 4 && 0 <= j < 4 ==> #[trigger] g[i][j] != BoardValue::Empty)
            ==> outcome_after_drop(g, r, c, team) == Some(BoardValue::Empty),
        (exists|i: int, j: int| 0 <= i < 4 && 0 <= j < 4 && #[trigger] g[i][j] == BoardValue::Empty)
            ==> {
            let wins = (forall|j: int| 0 <= j < 4 ==> #[trigger] g[r][j] == team) || (forall|i: int|
                0 <= i < 4 ==> #[trigger] g[i][c] == team) || (forall|i: int|
                0 <= i < 4 ==> #[trigger] g[i][i] == team) || (forall|i: int|
                0 <= i < 4 ==> #[trigger] g[3 - i][i] == team);
            &&& wins ==> outcome_after_drop(g, r, c, team) == Some(team)
            &&& !wins ==> outcome_after_drop(g, r, c, team) is None
        },
{
    lemma_full_cells(g);
    lemma_row_cells(g, r, team);
    lemma_col_cells(g, c, team);
    lemma_diag_cells(g, team);
    lemma_anti_diag_cells(g, team);
}

proof fn lemma_full_cells(g: Grid)
    ensures
        is_full(g) == (forall|i: int, j: int|
            0 <= i < 4 && 0 <= j < 4 ==> #[trigger] g[i][j] != BoardValue::Empty),
        !is_full(g) == (exists|i: int, j: int|
            0 <= i < 4 && 0 <= j < 4 && #[trigger] g[i][j] == BoardValue::Empty),
{
    if is_full(g) {
        assert forall|i: int, j: int| 0 <= i < 4 && 0 <= j < 4 implies #[trigger] g[i][j] != BoardValue::Empty by {
            assert(row_filled(g, i));
            if j == 0 {} else if j == 1 {} else if j == 2 {} else {}
        }
    } else {
        let i: int = if !row_filled(g, 0) { 0 } else if !row_filled(g, 1) { 1 } else if !row_filled(g, 2) { 2 } else { 3 };
        let j: int = if g[i][0] == BoardValue::Empty { 0 } else if g[i][1] == BoardValue::Empty { 1 } else if g[i][2] == BoardValue::Empty { 2 } else { 3 };
        assert(g[i][j] == BoardValue::Empty);
    }
}

proof fn lemma_row_cells(g: Grid, r: int, team: BoardValue)
    requires
        0 <= r < 4,
    ensures
        (forall|j: int| 0 <= j < 4 ==> #[trigger] g[r][j] == team) == row_all(g, r, team),
{
    if row_all(g, r, team) {
        assert forall|j: int| 0 <= j < 4 implies #[trigger] g[r][j] == team by {
            if j == 0 {} else if j == 1 {} else if j == 2 {} else {}
        }
    }
}

proof fn lemma_col_cells(g: Grid, c: int, team: BoardValue)
    requires
        0 <= c < 4,
    ensures
        (forall|i: int| 0 <= i < 4 ==> #[trigger] g[i][c] == team) == col_all(g, c, team),
{
    if col_all(g, c, team) {
        assert forall|i: int| 0 <= i < 4 implies #[trigger] g[i][c] == team by {
            if i == 0 {} else if i == 1 {} else if i == 2 {} else {}
        }
    }
}

proof fn lemma_diag_cells(g: Grid, team: BoardValue)
    ensures
        (forall|i: int| 0 <= i < 4 ==> #[trigger] g[i][i] == team) == diag_all(g, team),
{
    if diag_all(g, team) {
        assert forall|i: int| 0 <= i < 4 implies #[trigger] g[i][i] == team by {
            if i == 0 {} else if i == 1 {} else if i == 2 {} else {}
        }
    }
}

proof fn lemma_anti_diag_cells(g: Grid, team: BoardValue)
    ensures
        (forall|i: int| 0 <= i < 4 ==> #[trigger] g[3 - i][i] == team) == anti_diag_all(g, team),
{
    if anti_diag_all(g, team) {
        assert forall|i: int| 0 <= i < 4 implies #[trigger] g[3 - i][i] == team by {
            if i == 0 {} else if i == 1 {} else if i == 2 {} else {}
        }
    } else {
        if forall|i: int| 0 <= i < 4 ==> #[trigger] g[3 - i][i] == team {
            assert(g[3 - 0][0] == team && g[3 - 1][1] == team && g[3 - 2][2] == team && g[3 - 3][3] == team);
        }
    }
}

/// The symbols of the rendered board: a white square for the wall, a black
/// square for an empty cell, a cookie and a glass of milk; all four differ.
pub proof fn lemma_symbols()
    ensures
        symbol(BoardValue::Empty) == '\u{2B1B}',
        symbol(BoardValue::Cookie) == '\u{1F36A}',
        symbol(BoardValue::Milk) == '\u{1F95B}',
        WALL == '\u{2B1C}',
        forall|v: BoardValue| #[trigger] symbol(v) != WALL,
        forall|v: BoardValue, w: BoardValue| #[trigger] symbol(v) == #[trigger] symbol(w) ==> v == w,
{
}

/// Where each cell is drawn: the rendering has five lines of seven characters
/// (six symbols and a newline); line `r` of the first four is a wall, the
/// symbols of cells (r, 0) to (r, 3) in order, a wall; the last line is six
/// walls.
pub proof fn lemma_board_text_cells(g: Grid)
    ensures
        board_text(g).len() == 35,
        forall|r: int, c: int|
            0 <= r < 4 && 0 <= c < 4 ==> #[trigger] board_text(g)[7 * r + c + 1] == symbol(g[r][c]),
        forall|r: int| 0 <= r < 4 ==> #[trigger] board_text(g)[7 * r] == '\u{2B1C}' && board_text(g)[7 * r + 5] == '\u{2B1C}',
        forall|k: int| 0 <= k < 5 ==> #[trigger] board_text(g)[7 * k + 6] == '\n',
        forall|c: int| 0 <= c < 6 ==> #[trigger] board_text(g)[28 + c] == '\u{2B1C}',
{
    let t = board_text(g);
    assert forall|r: int, c: int| 0 <= r < 4 && 0 <= c < 4 implies #[trigger] t[7 * r + c + 1] == symbol(g[r][c]) by {
        if r == 0 {} else if r == 1 {} else if r == 2 {} else {}
    }
    assert forall|r: int| 0 <= r < 4 implies #[trigger] t[7 * r] == '\u{2B1C}' && t[7 * r + 5] == '\u{2B1C}' by {
        if r == 0 {} else if r == 1 {} else if r == 2 {} else {}
    }
    assert forall|k: int| 0 <= k < 5 implies #[trigger] t[7 * k + 6] == '\n' by {
        if k == 0 {} else if k == 1 {} else if k == 2 {} else if k == 3 {} else {}
    }
}

/// The state of a game is the rendered board, followed by nothing while the
/// game goes on, by "No winner." when it ended without a winner, and by the
/// winner's symbol and " wins!" when a team won, each line ended by a newline.
pub proof fn lemma_state_text(g: Grid, w: Option<BoardValue>)
    ensures
        w is None ==> state_text(g, w) == board_text(g),
        w == Some(BoardValue::Empty) ==> state_text(g, w) == board_text(g) + "No winner.\n"@,
        forall|v: BoardValue| v != BoardValue::Empty && w == Some(v) ==> state_text(g, w) == board_text(g) + seq![#[trigger] symbol(v)] + " wins!\n"@,
{
    assert(board_text(g) + Seq::<char>::empty() =~= board_text(g));
}

/// Where a dropped piece comes to rest: a row whose cell in the column is
/// empty, below which every cell of the column is filled; when no cell of the
/// column is empty, it has no place.
pub proof fn lemma_landing_row(g: Grid, c: int)
    requires
        0 <= c < 4,
    ensures
        landing_row(g, c) matches Some(y) ==> {
            &&& 0 <= y < 4
            &&& g[y][c] == BoardValue::Empty
            &&& forall|i: int| y < i < 4 ==> #[trigger] g[i][c] != BoardValue::Empty
        },
        landing_row(g, c) is None <==> forall|i: int| 0 <= i < 4 ==> #[trigger] g[i][c] != BoardValue::Empty,
{
    if forall|i: int| 0 <= i < 4 ==> #[trigger] g[i][c] != BoardValue::Empty {
        assert(g[0][c] != BoardValue::Empty && g[1][c] != BoardValue::Empty && g[2][c] != BoardValue::Empty && g[3][c] != BoardValue::Empty);
    }
}


/// Cell `i` (0 to 3) of line `k` of the grid, lines numbered as a random
/// board is read: rows 0 to 3 from the top (`k` 0 to 3), columns 0 to 3 from
/// the left (`k` 4 to 7), the diagonal (0,0)..(3,3) (`k` 8), and the diagonal
/// (3,0)..(0,3) (`k` 9).
pub open spec fn line_cell(g: Grid, k: int, i: int) -> BoardValue {
    if k < 4 {
        g[k][i]
    } else if k < 8 {
        g[i][k - 4]
    } else if k == 8 {
        g[i][i]
    } else {
        g[3 - i][i]
    }
}

/// All four cells of line `k` hold `v`.
pub open spec fn line_is(g: Grid, k: int, v: BoardValue) -> bool {
    forall|i: int| 0 <= i < 4 ==> #[trigger] line_cell(g, k, i) == v
}

/// The owners of the ten lines, in the order a random board is read.
spec fn owner_seq(g: Grid) -> Seq<Option<BoardValue>> {
    seq![
        line_owner(g[0][0], g[0][1], g[0][2], g[0][3]),
        line_owner(g[1][0], g[1][1], g[1][2], g[1][3]),
        line_owner(g[2][0], g[2][1], g[2][2], g[2][3]),
        line_owner(g[3][0], g[3][1], g[3][2], g[3][3]),
        line_owner(g[0][0], g[1][0], g[2][0], g[3][0]),
        line_owner(g[0][1], g[1][1], g[2][1], g[3][1]),
        line_owner(g[0][2], g[1][2], g[2][2], g[3][2]),
        line_owner(g[0][3], g[1][3], g[2][3], g[3][3]),
        line_owner(g[0][0], g[1][1], g[2][2], g[3][3]),
        line_owner(g[3][0], g[2][1], g[1][2], g[0][3]),
    ]
}

/// The owner of line `k` is the team that all its cells hold, if any.
proof fn lemma_owner_of_line(g: Grid, k: int)
    requires
        0 <= k < 10,
    ensures
        owner_seq(g)[k] == (if line_is(g, k, BoardValue::Cookie) {
            Some(BoardValue::Cookie)
        } else if line_is(g, k, BoardValue::Milk) {
            Some(BoardValue::Milk)
        } else {
            None
        }),
{
    let a = line_cell(g, k, 0);
    let b = line_cell(g, k, 1);
    let c = line_cell(g, k, 2);
    let d = line_cell(g, k, 3);
    assert(owner_seq(g)[k] == line_owner(a, b, c, d)) by {
        if k == 0 {} else if k == 1 {} else if k == 2 {} else if k == 3 {}
        else if k == 4 {} else if k == 5 {} else if k == 6 {} else if k == 7 {}
        else if k == 8 {} else {
            assert(a == g[3][0] && b == g[2][1] && c == g[1][2] && d == g[0][3]);
        }
    }
    assert forall|v: BoardValue| line_is(g, k, v) == (a == v && b == v && c == v && d == v) by {
        if a == v && b == v && c == v && d == v {
            assert forall|i: int| 0 <= i < 4 implies #[trigger] line_cell(g, k, i) == v by {
                if i == 0 {} else if i == 1 {} else if i == 2 {} else {}
            }
        }
    }
}

/// The first owner found from position `m` on is that of the first owned
/// line at or after `m`.
proof fn lemma_chain_first(lines: Seq<Option<BoardValue>>, m: int, k: int)
    requires
        0 <= m <= k < 10,
        lines[k] is Some,
        forall|j: int| m <= j < k ==> #[trigger] lines[j] is None,
    ensures
        chain_from(lines, m) == lines[k],
    decreases k - m,
{
    if m < k {
        lemma_chain_first(lines, m + 1, k);
    }
}

/// With no owned line from `m` on, nothing is found.
proof fn lemma_chain_none(lines: Seq<Option<BoardValue>>, m: int)
    requires
        0 <= m <= 10,
        forall|j: int| m <= j < 10 ==> #[trigger] lines[j] is None,
    ensures
        chain_from(lines, m) is None,
    decreases 10 - m,
{
    if m < 10 {
        lemma_chain_none(lines, m + 1);
    }
}

/// Who wins a random board, cell by cell: the team that holds all four cells
/// of the first line, in the order rows, columns, diagonal (0,0)..(3,3),
/// diagonal (3,0)..(0,3), whose cells are all cookies or all milk; nobody
/// when no line is.
pub proof fn lemma_random_outcome(g: Grid)
    ensures
        forall|k: int, v: BoardValue|
            0 <= k < 10 && (v == BoardValue::Cookie || v == BoardValue::Milk) && #[trigger] line_is(g, k, v)
                && (forall|j: int| 0 <= j < k ==> !line_is(g, j, BoardValue::Cookie) && !line_is(g, j, BoardValue::Milk))
                ==> random_outcome(g) == v,
        (forall|k: int| 0 <= k < 10 ==> !line_is(g, k, BoardValue::Cookie) && !line_is(g, k, BoardValue::Milk))
            ==> random_outcome(g) == BoardValue::Empty,
{
    let lines = owner_seq(g);
    assert(first_owned_line(g) == chain_from(lines, 0)) by {
        reveal_with_fuel(chain_from, 11);
    }
    assert forall|k: int| 0 <= k < 10 implies #[trigger] lines[k] == (if line_is(g, k, BoardValue::Cookie) {
        Some(BoardValue::Cookie)
    } else if line_is(g, k, BoardValue::Milk) {
        Some(BoardValue::Milk)
    } else {
        None
    }) by {
        lemma_owner_of_line(g, k);
    }
    assert forall|k: int, v: BoardValue|
        0 <= k < 10 && (v == BoardValue::Cookie || v == BoardValue::Milk) && #[trigger] line_is(g, k, v)
            && (forall|j: int| 0 <= j < k ==> !line_is(g, j, BoardValue::Cookie) && !line_is(g, j, BoardValue::Milk))
        implies random_outcome(g) == v by {
        if v == BoardValue::Milk && line_is(g, k, BoardValue::Cookie) {
            assert(line_cell(g, k, 0) == BoardValue::Milk);
        }
        assert(lines[k] == Some(v));
        assert forall|j: int| 0 <= j < k implies #[trigger] lines[j] is None by {
            assert(!line_is(g, j, BoardValue::Cookie) && !line_is(g, j, BoardValue::Milk));
        }
        lemma_chain_first(lines, 0, k);
    }
    if forall|k: int| 0 <= k < 10 ==> !line_is(g, k, BoardValue::Cookie) && !line_is(g, k, BoardValue::Milk) {
        assert forall|j: int| 0 <= j < 10 implies #[trigger] lines[j] is None by {
            assert(!line_is(g, j, BoardValue::Cookie) && !line_is(g, j, BoardValue::Milk));
        }
        lemma_chain_none(lines, 0);
    }
}


/// A board drawn from coins holds, at (r, c), a cookie exactly when coin
/// 4 * r + c came up true, and milk otherwise.
pub proof fn lemma_drawn_cells(g: Grid, draws: Seq<bool>)
    requires
        drawn_grid(g, draws),
    ensures
        forall|r: int, c: int|
            0 <= r < 4 && 0 <= c < 4 ==> (#[trigger] g[r][c] == BoardValue::Cookie) == draws[4 * r + c]
                && (g[r][c] == BoardValue::Cookie || g[r][c] == BoardValue::Milk),
{
}

} // verus!
