//! The board engine: a move shifts each of the four lines that run along its
//! direction and lets the spawner refill them.
//!
//! A board is modelled as a `Seq<Seq<nat>>` of four rows of four cells. For
//! a direction, line `i` is the column or row `i`, read from the end that
//! the tiles slide to: position 0 of a line is the cell they collect in.

use crate::laws::{all_tiles, is_tile};
use crate::line::{checked_shift_arr, fits, line_view, shift_arr, shift_line, total};
use crate::board_laws::{lemma_move_keeps_tiles, lemma_move_total};
use crate::spawn::{add_new_tiles, add_new_tiles_with, rolls_view, spawn_count, spawn_line};
use vstd::arithmetic::power2::lemma2_to64;
use vstd::prelude::*;

verus! {

/// The direction of a move.
#[derive(Clone, Copy, Debug, PartialEq, Eq, Structural)]
pub enum Direction {
    UP,
    DOWN,
    LEFT,
    RIGHT,
}

/// A game session: the board, a score, the time the session began at and
/// the spawn frequency N, by which an empty cell has a chance of 1 in N to
/// get a new tile after a shift.
#[derive(Clone, Copy, Debug)]
pub struct GameObjects {
    pub board: [[u32; 4]; 4],
    pub score: u32,
    /// Seconds since the Unix epoch, as the caller's clock gave them.
    pub start_time: u64,
    pub frequency: u32,
}

/// The model of a session.
pub ghost struct Session {
    pub board: Seq<Seq<nat>>,
    pub score: nat,
    pub start_time: nat,
    pub frequency: nat,
}

impl View for GameObjects {
    type V = Session;

    open spec fn view(&self) -> Session {
        Session {
            board: board_view(self.board),
            score: self.score as nat,
            start_time: self.start_time as nat,
            frequency: self.frequency as nat,
        }
    }
}

impl GameObjects {
    /// The session can be played: its frequency is at least 1 and every cell
    /// of its board is empty or a power of two from 2 on.
    pub open spec fn wf(&self) -> bool {
        self.frequency >= 1 && valid_board(self@.board)
    }
}

/// The model of a board.
pub open spec fn board_view(board: [[u32; 4]; 4]) -> Seq<Seq<nat>> {
    Seq::new(4, |r: int| Seq::new(4, |c: int| board[r][c] as nat))
}

/// The model of the rolls of a move: `rolls[i][k]` is the roll for position
/// `k` of line `i`.
pub open spec fn rolls_grid_view(rolls: [[usize; 4]; 4]) -> Seq<Seq<nat>> {
    Seq::new(4, |i: int| Seq::new(4, |k: int| rolls[i][k] as nat))
}

/// Four rows of four cells.
pub open spec fn is_grid(board: Seq<Seq<nat>>) -> bool {
    board.len() == 4 && forall|r: int| 0 <= r < 4 ==> (#[trigger] board[r]).len() == 4
}

/// Every cell of the board is empty or a power of two from 2 on.
pub open spec fn valid_board(board: Seq<Seq<nat>>) -> bool {
    forall|r: int| 0 <= r < board.len() ==> all_tiles(#[trigger] board[r])
}

/// The sum of the tile values of a board.
pub open spec fn board_total(board: Seq<Seq<nat>>) -> nat {
    total(board[0]) + total(board[1]) + total(board[2]) + total(board[3])
}

/// The row of position `k` of line `i`.
pub open spec fn cell_row(dir: Direction, i: int, k: int) -> int {
    match dir {
        Direction::UP => k,
        Direction::DOWN => 3 - k,
        Direction::LEFT => i,
        Direction::RIGHT => i,
    }
}

/// The column of position `k` of line `i`.
pub open spec fn cell_col(dir: Direction, i: int, k: int) -> int {
    match dir {
        Direction::UP => i,
        Direction::DOWN => i,
        Direction::LEFT => k,
        Direction::RIGHT => 3 - k,
    }
}

/// The line that the cell in row `r` and column `c` lies on.
pub open spec fn line_index(dir: Direction, r: int, c: int) -> int {
    match dir {
        Direction::UP => c,
        Direction::DOWN => c,
        Direction::LEFT => r,
        Direction::RIGHT => r,
    }
}

/// The position on its line of the cell in row `r` and column `c`.
pub open spec fn line_pos(dir: Direction, r: int, c: int) -> int {
    match dir {
        Direction::UP => r,
        Direction::DOWN => 3 - r,
        Direction::LEFT => c,
        Direction::RIGHT => 3 - c,
    }
}

/// Line `i` of the board for a direction: UP reads column `i` from the top,
/// DOWN reads it from the bottom, LEFT reads row `i` from the left and RIGHT
/// reads it from the right.
pub open spec fn line_of(board: Seq<Seq<nat>>, dir: Direction, i: int) -> Seq<nat> {
    Seq::new(4, |k: int| board[cell_row(dir, i, k)][cell_col(dir, i, k)])
}

/// Line `i` after the move: shifted, then refilled by the rolls `rolls[i]`.
pub open spec fn next_line(
    board: Seq<Seq<nat>>,
    dir: Direction,
    rolls: Seq<Seq<nat>>,
    frequency: nat,
    i: int,
) -> Seq<nat> {
    spawn_line(shift_line(line_of(board, dir, i)), rolls[i], frequency)
}

/// The board after a move in direction `dir` with the rolls `rolls`: every
/// cell holds what its line holds at its position after the move.
pub open spec fn next_board(
    board: Seq<Seq<nat>>,
    dir: Direction,
    rolls: Seq<Seq<nat>>,
    frequency: nat,
) -> Seq<Seq<nat>> {
    Seq::new(
        4,
        |r: int|
            Seq::new(
                4,
                |c: int|
                    next_line(board, dir, rolls, frequency, line_index(dir, r, c))[line_pos(
                        dir,
                        r,
                        c,
                    )],
            ),
    )
}

/// The number of tiles that the rolls add in a move.
pub open spec fn move_spawns(
    board: Seq<Seq<nat>>,
    dir: Direction,
    rolls: Seq<Seq<nat>>,
    frequency: nat,
) -> nat {
    spawn_count(shift_line(line_of(board, dir, 0)), rolls[0], frequency) + spawn_count(
        shift_line(line_of(board, dir, 1)),
        rolls[1],
        frequency,
    ) + spawn_count(shift_line(line_of(board, dir, 2)), rolls[2], frequency) + spawn_count(
        shift_line(line_of(board, dir, 3)),
        rolls[3],
        frequency,
    )
}

/// In a move in direction `dir`, every merged tile can be stored in a `u32`.
pub open spec fn move_fits(board: Seq<Seq<nat>>, dir: Direction) -> bool {
    forall|i: int| 0 <= i < 4 ==> fits(#[trigger] line_of(board, dir, i))
}

/// The board while a move is under way: the lines before line `i` are done,
/// the others are as they were.
spec fn partial_board(
    board: Seq<Seq<nat>>,
    dir: Direction,
    rolls: Seq<Seq<nat>>,
    frequency: nat,
    i: int,
) -> Seq<Seq<nat>> {
    Seq::new(
        4,
        |r: int|
            Seq::new(
                4,
                |c: int|
                    if line_index(dir, r, c) < i {
                        next_line(board, dir, rolls, frequency, line_index(dir, r, c))[line_pos(
                            dir,
                            r,
                            c,
                        )]
                    } else {
                        board[r][c]
                    },
            ),
    )
}

/// The board with line `i` replaced by `line`.
spec fn with_line(board: Seq<Seq<nat>>, dir: Direction, i: int, line: Seq<nat>) -> Seq<Seq<nat>> {
    Seq::new(
        4,
        |r: int|
            Seq::new(
                4,
                |c: int|
                    if line_index(dir, r, c) == i {
                        line[line_pos(dir, r, c)]
                    } else {
                        board[r][c]
                    },
            ),
    )
}

/// Reads line `i` of the board for a direction.
fn read_line(board: &[[u32; 4]; 4], dir: Direction, i: usize) -> (line: [u32; 4])
    requires
        i < 4,
    ensures
        line_view(line) == line_of(board_view(*board), dir, i as int),
{
    let line = match dir {
        Direction::UP => [board[0][i], board[1][i], board[2][i], board[3][i]],
        Direction::DOWN => [board[3][i], board[2][i], board[1][i], board[0][i]],
        Direction::LEFT => [board[i][0], board[i][1], board[i][2], board[i][3]],
        Direction::RIGHT => [board[i][3], board[i][2], board[i][1], board[i][0]],
    };
    assert(line_view(line) =~= line_of(board_view(*board), dir, i as int));
    line
}

/// Writes `line` back as line `i` of the board for a direction.
fn write_line(board: &mut [[u32; 4]; 4], dir: Direction, i: usize, line: [u32; 4])
    requires
        i < 4,
    ensures
        board_view(*final(board)) == with_line(
            board_view(*old(board)),
            dir,
            i as int,
            line_view(line),
        ),
{
    match dir {
        Direction::UP => {
            board[0][i] = line[0];
            board[1][i] = line[1];
            board[2][i] = line[2];
            board[3][i] = line[3];
        },
        Direction::DOWN => {
            board[3][i] = line[0];
            board[2][i] = line[1];
            board[1][i] = line[2];
            board[0][i] = line[3];
        },
        Direction::LEFT => {
            board[i][0] = line[0];
            board[i][1] = line[1];
            board[i][2] = line[2];
            board[i][3] = line[3];
        },
        Direction::RIGHT => {
            board[i][3] = line[0];
            board[i][2] = line[1];
            board[i][1] = line[2];
            board[i][0] = line[3];
        },
    }
    assert forall|r: int| 0 <= r < 4 implies #[trigger] board_view(*board)[r] =~= with_line(
        board_view(*old(board)),
        dir,
        i as int,
        line_view(line),
    )[r] by {}
    assert(board_view(*board) =~= with_line(
        board_view(*old(board)),
        dir,
        i as int,
        line_view(line),
    ));
}

proof fn lemma_line_untouched(
    board: Seq<Seq<nat>>,
    dir: Direction,
    rolls: Seq<Seq<nat>>,
    frequency: nat,
    i: int,
)
    requires
        0 <= i < 4,
    ensures
        line_of(partial_board(board, dir, rolls, frequency, i), dir, i) == line_of(board, dir, i),
{
    assert(line_of(partial_board(board, dir, rolls, frequency, i), dir, i) =~= line_of(
        board,
        dir,
        i,
    ));
}

proof fn lemma_line_done(
    board: Seq<Seq<nat>>,
    dir: Direction,
    rolls: Seq<Seq<nat>>,
    frequency: nat,
    i: int,
)
    requires
        0 <= i < 4,
    ensures
        with_line(
            partial_board(board, dir, rolls, frequency, i),
            dir,
            i,
            next_line(board, dir, rolls, frequency, i),
        ) == partial_board(board, dir, rolls, frequency, i + 1),
{
    let done = with_line(
        partial_board(board, dir, rolls, frequency, i),
        dir,
        i,
        next_line(board, dir, rolls, frequency, i),
    );
    let then = partial_board(board, dir, rolls, frequency, i + 1);
    assert forall|r: int| 0 <= r < 4 implies #[trigger] done[r] =~= then[r] by {}
    assert(done =~= then);
}

proof fn lemma_partial_ends(
    board: Seq<Seq<nat>>,
    dir: Direction,
    rolls: Seq<Seq<nat>>,
    frequency: nat,
)
    ensures
        is_grid(board) ==> partial_board(board, dir, rolls, frequency, 0) == board,
        partial_board(board, dir, rolls, frequency, 4) == next_board(board, dir, rolls, frequency),
{
    let first = partial_board(board, dir, rolls, frequency, 0);
    let last = partial_board(board, dir, rolls, frequency, 4);
    let next = next_board(board, dir, rolls, frequency);
    if is_grid(board) {
        assert forall|r: int| 0 <= r < 4 implies #[trigger] first[r] =~= board[r] by {}
        assert(first =~= board);
    }
    assert forall|r: int| 0 <= r < 4 implies #[trigger] last[r] =~= next[r] by {}
    assert(last =~= next);
}

/// The rolls of the lines from `i` on do not show in the board before line
/// `i` is done.
proof fn lemma_partial_reads(
    board: Seq<Seq<nat>>,
    dir: Direction,
    rolls: Seq<Seq<nat>>,
    other: Seq<Seq<nat>>,
    frequency: nat,
    i: int,
)
    requires
        forall|j: int| 0 <= j < i ==> rolls[j] == other[j],
    ensures
        partial_board(board, dir, rolls, frequency, i) == partial_board(
            board,
            dir,
            other,
            frequency,
            i,
        ),
{
    let a = partial_board(board, dir, rolls, frequency, i);
    let b = partial_board(board, dir, other, frequency, i);
    assert forall|r: int| 0 <= r < 4 implies #[trigger] a[r] =~= b[r] by {}
    assert(a =~= b);
}

/// Makes a move in direction `dir` with the rolls given: every line that
/// runs along `dir` is shifted, and then refilled by its own four rolls,
/// `rolls[i][k]` deciding position `k` of line `i`.
pub fn shift_dir_with(game: &mut GameObjects, dir: Direction, rolls: &[[usize; 4]; 4])
    requires
        old(game).frequency >= 1,
        move_fits(old(game)@.board, dir),
    ensures
        final(game)@ == (Session {
            board: next_board(
                old(game)@.board,
                dir,
                rolls_grid_view(*rolls),
                old(game)@.frequency,
            ),
            ..old(game)@
        }),
{
    let ghost start = game@.board;
    let ghost grid = rolls_grid_view(*rolls);
    let ghost frequency = game@.frequency;
    proof {
        lemma_partial_ends(start, dir, grid, frequency);
    }
    for i in 0..4usize
        invariant
            game.frequency == old(game).frequency,
            game.score == old(game).score,
            game.start_time == old(game).start_time,
            game.frequency >= 1,
            start == old(game)@.board,
            frequency == old(game)@.frequency,
            grid == rolls_grid_view(*rolls),
            move_fits(start, dir),
            game@.board == partial_board(start, dir, grid, frequency, i as int),
    {
        proof {
            lemma_line_untouched(start, dir, grid, frequency, i as int);
            lemma_line_done(start, dir, grid, frequency, i as int);
            assert(fits(line_of(start, dir, i as int)));
            assert(rolls_view(rolls[i as int]) =~= grid[i as int]);
        }
        let mut new_stack = read_line(&game.board, dir, i);
        new_stack = shift_arr(new_stack);
        new_stack = add_new_tiles_with(new_stack, rolls[i], game.frequency);
        write_line(&mut game.board, dir, i, new_stack);
    }
    proof {
        lemma_partial_ends(start, dir, grid, frequency);
    }
}

/// Makes a move in direction `dir`: every line that runs along `dir` is
/// shifted, and then refilled at random, one roll for each cell that the
/// shift left empty. The move is made whether or not it changes the board.
///
/// The board that results is the one that some rolls give. It holds no less
/// value than the old one, and if every cell of the old board was empty or
/// a power of two from 2 on, the same holds of the new one.
pub fn shift_dir(game: &mut GameObjects, dir: Direction)
    requires
        old(game).frequency >= 1,
        move_fits(old(game)@.board, dir),
    ensures
        exists|rolls: Seq<Seq<nat>>|
            final(game)@ == (Session {
                board: #[trigger] next_board(old(game)@.board, dir, rolls, old(game)@.frequency),
                ..old(game)@
            }),
        board_total(final(game)@.board) >= board_total(old(game)@.board),
        valid_board(old(game)@.board) ==> valid_board(final(game)@.board),
{
    let ghost start = game@.board;
    let ghost frequency = game@.frequency;
    let ghost mut drawn: Seq<Seq<nat>> = Seq::new(4, |i: int| Seq::new(4, |k: int| 0nat));
    proof {
        lemma_partial_ends(start, dir, drawn, frequency);
    }
    for i in 0..4usize
        invariant
            game.frequency == old(game).frequency,
            game.score == old(game).score,
            game.start_time == old(game).start_time,
            game.frequency >= 1,
            start == old(game)@.board,
            frequency == old(game)@.frequency,
            drawn.len() == 4,
            forall|j: int| 0 <= j < 4 ==> (#[trigger] drawn[j]).len() == 4,
            move_fits(start, dir),
            game@.board == partial_board(start, dir, drawn, frequency, i as int),
    {
        let ghost before = drawn;
        proof {
            lemma_line_untouched(start, dir, drawn, frequency, i as int);
            assert(fits(line_of(start, dir, i as int)));
        }
        let mut new_stack = read_line(&game.board, dir, i);
        new_stack = shift_arr(new_stack);
        let ghost shifted = line_view(new_stack);
        new_stack = add_new_tiles(new_stack, game.frequency);
        proof {
            let line_rolls = choose|line_rolls: Seq<nat>|
                line_rolls.len() == 4 && line_view(new_stack) == #[trigger] spawn_line(
                    shifted,
                    line_rolls,
                    frequency,
                );
            drawn = drawn.update(i as int, line_rolls);
            lemma_partial_reads(start, dir, before, drawn, frequency, i as int);
            lemma_line_done(start, dir, drawn, frequency, i as int);
        }
        write_line(&mut game.board, dir, i, new_stack);
    }
    proof {
        lemma_partial_ends(start, dir, drawn, frequency);
        lemma_move_total(start, dir, drawn, frequency);
        if valid_board(start) {
            lemma_move_keeps_tiles(start, dir, drawn, frequency);
        }
    }
}

/// Whether a move in direction `dir` can be made: whether every tile that
/// it merges can be stored.
pub fn shift_fits(game: &GameObjects, dir: Direction) -> (ok: bool)
    ensures
        ok == move_fits(game@.board, dir),
{
    for i in 0..4usize
        invariant
            forall|j: int| 0 <= j < i ==> fits(#[trigger] line_of(game@.board, dir, j)),
    {
        let line = read_line(&game.board, dir, i);
        if checked_shift_arr(line).is_none() {
            assert(!fits(line_of(game@.board, dir, i as int)));
            return false;
        }
    }
    true
}

/// Makes a move in direction `dir` where it can be made, and says whether
/// it was: where a merge would exceed a `u32`, the session is left as it is.
pub fn try_shift_dir(game: &mut GameObjects, dir: Direction) -> (moved: bool)
    requires
        old(game).frequency >= 1,
    ensures
        moved == move_fits(old(game)@.board, dir),
        !moved ==> *final(game) == *old(game),
        moved ==> exists|rolls: Seq<Seq<nat>>|
            final(game)@ == (Session {
                board: #[trigger] next_board(old(game)@.board, dir, rolls, old(game)@.frequency),
                ..old(game)@
            }),
        board_total(final(game)@.board) >= board_total(old(game)@.board),
        valid_board(old(game)@.board) ==> valid_board(final(game)@.board),
{
    if shift_fits(game, dir) {
        shift_dir(game, dir);
        true
    } else {
        false
    }
}

/// Whether the cell in row `r` and column `c` holds a tile when a session
/// begins: the top and the bottom row are full, and between them stand the
/// third cell of the second row and the last two cells of the third.
pub open spec fn is_initial_tile(r: int, c: int) -> bool {
    r == 0 || r == 3 || (r == 1 && c == 2) || (r == 2 && (c == 2 || c == 3))
}

/// The board with a 2 in each cell of the initial layout.
pub open spec fn with_initial_tiles(board: Seq<Seq<nat>>) -> Seq<Seq<nat>> {
    Seq::new(
        4,
        |r: int|
            Seq::new(
                4,
                |c: int|
                    if is_initial_tile(r, c) {
                        2nat
                    } else {
                        board[r][c]
                    },
            ),
    )
}

/// The board that a session begins with.
pub open spec fn initial_board() -> Seq<Seq<nat>> {
    seq![seq![2nat, 2, 2, 2], seq![0nat, 0, 2, 0], seq![0nat, 0, 2, 2], seq![2nat, 2, 2, 2]]
}

/// Puts a 2 in each cell of the initial layout; the other cells keep what
/// they hold.
pub fn set_initial_tiles(game: &mut GameObjects)
    ensures
        final(game)@ == (Session { board: with_initial_tiles(old(game)@.board), ..old(game)@ }),
        valid_board(old(game)@.board) ==> valid_board(final(game)@.board),
{
    game.board[0][0] = 2;
    game.board[0][1] = 2;
    game.board[0][2] = 2;
    game.board[0][3] = 2;
    game.board[1][2] = 2;
    game.board[2][2] = 2;
    game.board[2][3] = 2;
    game.board[3][0] = 2;
    game.board[3][1] = 2;
    game.board[3][2] = 2;
    game.board[3][3] = 2;
    proof {
        let before = old(game)@.board;
        let after = game@.board;
        assert forall|r: int| 0 <= r < 4 implies #[trigger] after[r] =~= with_initial_tiles(
            before,
        )[r] by {}
        assert(after =~= with_initial_tiles(before));
        if valid_board(before) {
            lemma2_to64();
            assert(is_tile(2));
            assert forall|r: int| 0 <= r < after.len() implies all_tiles(#[trigger] after[r]) by {
                assert(all_tiles(before[r]));
                assert forall|c: int| 0 <= c < after[r].len() implies is_tile(
                    #[trigger] after[r][c],
                ) by {
                    assert(is_tile(before[r][c]));
                }
            }
        }
    }
}

/// Why a session cannot begin.
#[derive(Clone, Copy, Debug, PartialEq, Eq, Structural)]
pub enum ConfigError {
    /// The frequency is 0: the spawner would divide by it.
    ZeroFrequency,
}

impl GameObjects {
    /// Begins a session: the initial layout on the board, a score of 0, and
    /// the frequency given, which must be at least 1.
    pub fn new(frequency: u32, start_time: u64) -> (made: Result<GameObjects, ConfigError>)
        ensures
            frequency == 0 <==> made == Err::<GameObjects, ConfigError>(ConfigError::ZeroFrequency),
            frequency >= 1 <==> made is Ok,
            made matches Ok(game) ==> game.wf() && game@ == (Session {
                board: initial_board(),
                score: 0,
                start_time: start_time as nat,
                frequency: frequency as nat,
            }),
    {
        if frequency == 0 {
            return Err(ConfigError::ZeroFrequency);
        }
        let mut game = GameObjects {
            board: [[0;4], [0;4], [0;4], [0;4]],
            score: 0,
            start_time,
            frequency,
        };
        proof {
            let empty = game@.board;
            assert forall|r: int| 0 <= r < empty.len() implies all_tiles(#[trigger] empty[r]) by {
                assert forall|c: int| 0 <= c < empty[r].len() implies is_tile(
                    #[trigger] empty[r][c],
                ) by {}
            }
        }
        set_initial_tiles(&mut game);
        proof {
            let board = game@.board;
            assert forall|r: int| 0 <= r < 4 implies #[trigger] board[r] =~= initial_board()[r] by {}
            assert(board =~= initial_board());
        }
        Ok(game)
    }
}

} // verus!
