//! The frames that show a board on a terminal, as text. A frame is built
//! here; writing it to the terminal is left to the caller.
//!
//! A cell shows its value in decimal, right-aligned in three columns; a
//! longer number is shown in full.

use crate::board::GameObjects;
use crate::line::line_view;
use vstd::prelude::*;

verus! {

/// The character of a decimal digit.
pub open spec fn digit(d: nat) -> char {
    if d == 0 {
        '0'
    } else if d == 1 {
        '1'
    } else if d == 2 {
        '2'
    } else if d == 3 {
        '3'
    } else if d == 4 {
        '4'
    } else if d == 5 {
        '5'
    } else if d == 6 {
        '6'
    } else if d == 7 {
        '7'
    } else if d == 8 {
        '8'
    } else {
        '9'
    }
}

/// A number in decimal, without leading zeros.
pub open spec fn decimal(n: nat) -> Seq<char>
    decreases n,
{
    if n < 10 {
        seq![digit(n)]
    } else {
        decimal(n / 10).push(digit(n % 10))
    }
}

/// `text` with spaces before it up to `width` characters; a longer text is
/// kept as it is.
pub open spec fn right_aligned(text: Seq<char>, width: nat) -> Seq<char> {
    if text.len() >= width {
        text
    } else {
        Seq::new((width - text.len()) as nat, |k: int| ' ') + text
    }
}

/// A cell value as the frames show it.
pub open spec fn number_text(v: nat) -> Seq<char> {
    right_aligned(decimal(v), 3)
}

/// A cell of the game frame: an empty cell in the terminal's plain style, a
/// tile in bold black on white.
pub open spec fn cell_text(v: nat) -> Seq<char> {
    if v == 0 {
        " \x1B[0m"@ + number_text(v) + " \x1B[0m"@
    } else {
        " \x1B[47m\x1B[30m\x1B[1m"@ + number_text(v) + " \x1B[0m"@
    }
}

/// A row of the game frame: the terminal's line is cleared, the four cells
/// follow, and an empty line is left below.
pub open spec fn row_text(row: Seq<nat>) -> Seq<char> {
    "\x1B[2K"@ + cell_text(row[0]) + cell_text(row[1]) + cell_text(row[2]) + cell_text(row[3])
        + "\n\n"@
}

/// The game frame: the screen is cleared, the title stands on the second
/// line, and the four rows follow from the third.
pub open spec fn frame_text(board: Seq<Seq<nat>>) -> Seq<char> {
    "\x1B[2J\x1B[2;H --A Rusty 2048--\x1B[3;H\n"@ + row_text(board[0]) + row_text(board[1])
        + row_text(board[2]) + row_text(board[3]) + "\n"@
}

/// A row of the plain frame: each cell and a space, then the end of the line.
pub open spec fn plain_row_text(row: Seq<nat>) -> Seq<char> {
    number_text(row[0]) + " "@ + number_text(row[1]) + " "@ + number_text(row[2]) + " "@
        + number_text(row[3]) + " "@ + "\n"@
}

/// The plain frame: the four rows and an empty line, with no escape sequence.
pub open spec fn plain_frame_text(board: Seq<Seq<nat>>) -> Seq<char> {
    plain_row_text(board[0]) + plain_row_text(board[1]) + plain_row_text(board[2])
        + plain_row_text(board[3]) + "\n"@
}

proof fn lemma_decimal_len(n: nat)
    ensures
        n < 10 ==> decimal(n).len() == 1,
        10 <= n < 100 ==> decimal(n).len() == 2,
        100 <= n ==> decimal(n).len() >= 3,
    decreases n,
{
    if n >= 10 {
        lemma_decimal_len(n / 10);
    }
}

fn digit_str(d: u32) -> (text: &'static str)
    requires
        d < 10,
    ensures
        text@ == seq![digit(d as nat)],
{
    proof {
        reveal_strlit("0");
        reveal_strlit("1");
        reveal_strlit("2");
        reveal_strlit("3");
        reveal_strlit("4");
        reveal_strlit("5");
        reveal_strlit("6");
        reveal_strlit("7");
        reveal_strlit("8");
        reveal_strlit("9");
    }
    let text = if d == 0 {
        "0"
    } else if d == 1 {
        "1"
    } else if d == 2 {
        "2"
    } else if d == 3 {
        "3"
    } else if d == 4 {
        "4"
    } else if d == 5 {
        "5"
    } else if d == 6 {
        "6"
    } else if d == 7 {
        "7"
    } else if d == 8 {
        "8"
    } else {
        "9"
    };
    assert(text@ =~= seq![digit(d as nat)]);
    text
}

/// Appends `n` in decimal to `out`.
fn push_decimal(out: &mut String, n: u32)
    ensures
        final(out)@ == old(out)@ + decimal(n as nat),
    decreases n,
{
    if n >= 10 {
        push_decimal(out, n / 10);
        out.append(digit_str(n % 10));
        assert(old(out)@ + decimal((n / 10) as nat) + seq![digit((n % 10) as nat)] =~= old(out)@
            + decimal(n as nat));
    } else {
        out.append(digit_str(n));
    }
}

/// Appends a cell value to `out` as the frames show it.
fn push_number(out: &mut String, v: u32)
    ensures
        final(out)@ == old(out)@ + number_text(v as nat),
{
    proof {
        lemma_decimal_len(v as nat);
        reveal_strlit("  ");
        reveal_strlit(" ");
    }
    if v < 10 {
        out.append("  ");
    } else if v < 100 {
        out.append(" ");
    }
    push_decimal(out, v);
    proof {
        let digits = decimal(v as nat);
        if v < 10 {
            assert("  "@ =~= Seq::new(2, |k: int| ' '));
            assert(old(out)@ + "  "@ + digits =~= old(out)@ + ("  "@ + digits));
        } else if v < 100 {
            assert(" "@ =~= Seq::new(1, |k: int| ' '));
            assert(old(out)@ + " "@ + digits =~= old(out)@ + (" "@ + digits));
        }
    }
}

/// Appends a cell of the game frame to `out`.
fn push_cell(out: &mut String, v: u32)
    ensures
        final(out)@ == old(out)@ + cell_text(v as nat),
{
    if v == 0 {
        out.append(" \x1B[0m");
    } else {
        out.append(" \x1B[47m\x1B[30m\x1B[1m");
    }
    push_number(out, v);
    out.append(" \x1B[0m");
    assert(out@ =~= old(out)@ + cell_text(v as nat));
}

/// Appends a row of the game frame to `out`.
fn push_row(out: &mut String, row: &[u32; 4])
    ensures
        final(out)@ == old(out)@ + row_text(line_view(*row)),
{
    out.append("\x1B[2K");
    for col in 0..4usize
        invariant
            col == 0 ==> out@ == old(out)@ + "\x1B[2K"@,
            col == 1 ==> out@ == old(out)@ + "\x1B[2K"@ + cell_text(row[0] as nat),
            col == 2 ==> out@ == old(out)@ + "\x1B[2K"@ + cell_text(row[0] as nat) + cell_text(
                row[1] as nat,
            ),
            col == 3 ==> out@ == old(out)@ + "\x1B[2K"@ + cell_text(row[0] as nat) + cell_text(
                row[1] as nat,
            ) + cell_text(row[2] as nat),
            col == 4 ==> out@ == old(out)@ + "\x1B[2K"@ + cell_text(row[0] as nat) + cell_text(
                row[1] as nat,
            ) + cell_text(row[2] as nat) + cell_text(row[3] as nat),
    {
        push_cell(out, row[col]);
    }
    out.append("\n\n");
    assert(out@ =~= old(out)@ + row_text(line_view(*row)));
}

/// Appends a row of the plain frame to `out`.
fn push_plain_row(out: &mut String, row: &[u32; 4])
    ensures
        final(out)@ == old(out)@ + plain_row_text(line_view(*row)),
{
    for col in 0..4usize
        invariant
            col == 0 ==> out@ == old(out)@,
            col == 1 ==> out@ == old(out)@ + number_text(row[0] as nat) + " "@,
            col == 2 ==> out@ == old(out)@ + number_text(row[0] as nat) + " "@ + number_text(
                row[1] as nat,
            ) + " "@,
            col == 3 ==> out@ == old(out)@ + number_text(row[0] as nat) + " "@ + number_text(
                row[1] as nat,
            ) + " "@ + number_text(row[2] as nat) + " "@,
            col == 4 ==> out@ == old(out)@ + number_text(row[0] as nat) + " "@ + number_text(
                row[1] as nat,
            ) + " "@ + number_text(row[2] as nat) + " "@ + number_text(row[3] as nat) + " "@,
    {
        push_number(out, row[col]);
        out.append(" ");
    }
    out.append("\n");
    assert(out@ =~= old(out)@ + plain_row_text(line_view(*row)));
}

/// The game frame of the session's board: what the terminal is sent to show
/// it, from clearing the screen to the empty line below the last row.
pub fn render_board(game: &GameObjects) -> (frame: String)
    ensures
        frame@ == frame_text(game@.board),
{
    let mut frame = String::from_str("\x1B[2J\x1B[2;H --A Rusty 2048--\x1B[3;H\n");
    let ghost board = game@.board;
    for row in 0..4usize
        invariant
            board == game@.board,
            row == 0 ==> frame@ == "\x1B[2J\x1B[2;H --A Rusty 2048--\x1B[3;H\n"@,
            row == 1 ==> frame@ == "\x1B[2J\x1B[2;H --A Rusty 2048--\x1B[3;H\n"@ + row_text(
                board[0],
            ),
            row == 2 ==> frame@ == "\x1B[2J\x1B[2;H --A Rusty 2048--\x1B[3;H\n"@ + row_text(
                board[0],
            ) + row_text(board[1]),
            row == 3 ==> frame@ == "\x1B[2J\x1B[2;H --A Rusty 2048--\x1B[3;H\n"@ + row_text(
                board[0],
            ) + row_text(board[1]) + row_text(board[2]),
            row == 4 ==> frame@ == "\x1B[2J\x1B[2;H --A Rusty 2048--\x1B[3;H\n"@ + row_text(
                board[0],
            ) + row_text(board[1]) + row_text(board[2]) + row_text(board[3]),
    {
        assert(line_view(game.board[row as int]) =~= board[row as int]);
        push_row(&mut frame, &game.board[row]);
    }
    frame.append("\n");
    frame
}

/// The plain frame of the session's board: the numbers alone, row by row.
pub fn render_board_debug(game: &GameObjects) -> (frame: String)
    ensures
        frame@ == plain_frame_text(game@.board),
{
    let mut frame = String::new();
    let ghost board = game@.board;
    for row in 0..4usize
        invariant
            board == game@.board,
            row == 0 ==> frame@ == Seq::<char>::empty(),
            row == 1 ==> frame@ == plain_row_text(board[0]),
            row == 2 ==> frame@ == plain_row_text(board[0]) + plain_row_text(board[1]),
            row == 3 ==> frame@ == plain_row_text(board[0]) + plain_row_text(board[1])
                + plain_row_text(board[2]),
            row == 4 ==> frame@ == plain_row_text(board[0]) + plain_row_text(board[1])
                + plain_row_text(board[2]) + plain_row_text(board[3]),
    {
        assert(line_view(game.board[row as int]) =~= board[row as int]);
        push_plain_row(&mut frame, &game.board[row]);
        assert(Seq::<char>::empty() + plain_row_text(board[0]) =~= plain_row_text(board[0]));
    }
    frame.append("\n");
    frame
}

} // verus!
