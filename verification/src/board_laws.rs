//! What holds of every move: it is made line by line, it adds to the value
//! on the board exactly what the spawner adds, and it keeps tiles tiles.

use crate::board::{
    board_total, cell_col, cell_row, is_grid, line_index, line_of, line_pos, move_fits,
    move_spawns, next_board, next_line, valid_board, Direction,
};
use crate::laws::{
    all_tiles, bounded, is_tile, lemma_shift_bounded, lemma_shift_conserves_total,
    lemma_shift_keeps_tiles,
};
use crate::line::{fits, shift_line, total};
use crate::spawn::{lemma_spawn_keeps_tiles, lemma_spawn_total, spawn_count};
use vstd::prelude::*;

verus! {

proof fn lemma_total_of_four(line: Seq<nat>)
    requires
        line.len() == 4,
    ensures
        total(line) == line[0] + line[1] + line[2] + line[3],
{
    let a = line.drop_first();
    let b = a.drop_first();
    let c = b.drop_first();
    let d = c.drop_first();
    assert(total(d) == 0);
    assert(total(c) == c[0] + total(d));
    assert(total(b) == b[0] + total(c));
    assert(total(a) == a[0] + total(b));
}

/// The value on a board is the value on its four lines, whichever way they
/// run.
pub proof fn lemma_total_by_lines(board: Seq<Seq<nat>>, dir: Direction)
    requires
        is_grid(board),
    ensures
        board_total(board) == total(line_of(board, dir, 0)) + total(line_of(board, dir, 1))
            + total(line_of(board, dir, 2)) + total(line_of(board, dir, 3)),
{
    lemma_total_of_four(board[0]);
    lemma_total_of_four(board[1]);
    lemma_total_of_four(board[2]);
    lemma_total_of_four(board[3]);
    lemma_total_of_four(line_of(board, dir, 0));
    lemma_total_of_four(line_of(board, dir, 1));
    lemma_total_of_four(line_of(board, dir, 2));
    lemma_total_of_four(line_of(board, dir, 3));
}

/// A move is made line by line: each line of the new board is the same line
/// of the old one, shifted and refilled, and no line reads another.
pub proof fn lemma_move_by_lines(
    board: Seq<Seq<nat>>,
    dir: Direction,
    rolls: Seq<Seq<nat>>,
    frequency: nat,
    i: int,
)
    requires
        0 <= i < 4,
    ensures
        is_grid(next_board(board, dir, rolls, frequency)),
        line_of(next_board(board, dir, rolls, frequency), dir, i) == next_line(
            board,
            dir,
            rolls,
            frequency,
            i,
        ),
{
    assert(line_of(next_board(board, dir, rolls, frequency), dir, i) =~= next_line(
        board,
        dir,
        rolls,
        frequency,
        i,
    ));
}

/// A move adds to the value on the board 2 for each tile that the rolls
/// spawn, and nothing else: merging conserves value. So the value never
/// goes down.
pub proof fn lemma_move_total(
    board: Seq<Seq<nat>>,
    dir: Direction,
    rolls: Seq<Seq<nat>>,
    frequency: nat,
)
    requires
        is_grid(board),
        rolls.len() == 4,
        forall|i: int| 0 <= i < 4 ==> (#[trigger] rolls[i]).len() == 4,
    ensures
        board_total(next_board(board, dir, rolls, frequency)) == board_total(board) + 2
            * move_spawns(board, dir, rolls, frequency),
        board_total(next_board(board, dir, rolls, frequency)) >= board_total(board),
{
    let next = next_board(board, dir, rolls, frequency);
    lemma_total_by_lines(board, dir);
    lemma_move_by_lines(board, dir, rolls, frequency, 0);
    lemma_total_by_lines(next, dir);
    assert forall|i: int| 0 <= i < 4 implies total(#[trigger] line_of(next, dir, i)) == total(
        line_of(board, dir, i),
    ) + 2 * spawn_count(shift_line(line_of(board, dir, i)), rolls[i], frequency) by {
        lemma_move_by_lines(board, dir, rolls, frequency, i);
        lemma_shift_conserves_total(line_of(board, dir, i));
        lemma_spawn_total(shift_line(line_of(board, dir, i)), rolls[i], frequency);
    }
    assert(total(line_of(next, dir, 0)) == total(line_of(board, dir, 0)) + 2
        * spawn_count(shift_line(line_of(board, dir, 0)), rolls[0], frequency));
    assert(total(line_of(next, dir, 1)) == total(line_of(board, dir, 1)) + 2
        * spawn_count(shift_line(line_of(board, dir, 1)), rolls[1], frequency));
    assert(total(line_of(next, dir, 2)) == total(line_of(board, dir, 2)) + 2
        * spawn_count(shift_line(line_of(board, dir, 2)), rolls[2], frequency));
    assert(total(line_of(next, dir, 3)) == total(line_of(board, dir, 3)) + 2
        * spawn_count(shift_line(line_of(board, dir, 3)), rolls[3], frequency));
}

/// A move never makes a cell that is neither empty nor a power of two from
/// 2 on: if the board held none, the next board holds none.
pub proof fn lemma_move_keeps_tiles(
    board: Seq<Seq<nat>>,
    dir: Direction,
    rolls: Seq<Seq<nat>>,
    frequency: nat,
)
    requires
        is_grid(board),
        valid_board(board),
    ensures
        valid_board(next_board(board, dir, rolls, frequency)),
{
    let next = next_board(board, dir, rolls, frequency);
    assert forall|i: int| 0 <= i < 4 implies all_tiles(
        #[trigger] next_line(board, dir, rolls, frequency, i),
    ) by {
        let line = line_of(board, dir, i);
        assert forall|k: int| 0 <= k < 4 implies is_tile(#[trigger] line[k]) by {
            let row = board[cell_row(dir, i, k)];
            assert(all_tiles(row));
            assert(is_tile(row[cell_col(dir, i, k)]));
        }
        lemma_shift_keeps_tiles(line);
        lemma_spawn_keeps_tiles(shift_line(line), rolls[i], frequency);
    }
    assert forall|r: int| 0 <= r < next.len() implies all_tiles(#[trigger] next[r]) by {
        assert forall|c: int| 0 <= c < next[r].len() implies is_tile(#[trigger] next[r][c]) by {
            let i = line_index(dir, r, c);
            let k = line_pos(dir, r, c);
            assert(all_tiles(next_line(board, dir, rolls, frequency, i)));
            assert(is_tile(next_line(board, dir, rolls, frequency, i)[k]));
        }
    }
}

/// A move in any direction can be made on a board whose cells are all
/// below 2^31: no merge on it exceeds a `u32`.
pub proof fn lemma_move_fits(board: Seq<Seq<nat>>, dir: Direction)
    requires
        is_grid(board),
        forall|r: int| 0 <= r < 4 ==> bounded(#[trigger] board[r], 0x7fff_ffff),
    ensures
        move_fits(board, dir),
{
    assert forall|i: int| 0 <= i < 4 implies fits(#[trigger] line_of(board, dir, i)) by {
        let line = line_of(board, dir, i);
        assert forall|k: int| 0 <= k < line.len() implies #[trigger] line[k] <= 0x7fff_ffff by {
            let row = board[cell_row(dir, i, k)];
            assert(bounded(row, 0x7fff_ffff));
            assert(row[cell_col(dir, i, k)] <= 0x7fff_ffff);
        }
        lemma_shift_bounded(line, 0x7fff_ffff);
    }
}

} // verus!
