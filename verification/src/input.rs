//! The input loop's decisions: what each byte of the terminal's raw input
//! means, and what the session does on it.
//!
//! An arrow key arrives as ESC, `[` and a letter from `A` to `D`. The decoder
//! keeps no state: it drops the two prefix bytes and reads the letter alone,
//! so a letter typed by itself moves the tiles as the arrow does.

use crate::board::{
    board_total, move_fits, next_board, shift_dir, valid_board, Direction, GameObjects, Session,
};
use vstd::prelude::*;

verus! {

/// What one byte of input asks for.
#[derive(Clone, Copy, Debug, PartialEq, Eq, Structural)]
pub enum Command {
    /// Make a move.
    Shift(Direction),
    /// End the session.
    Quit,
    /// Nothing: a prefix byte of an arrow key, or a byte with no meaning.
    Ignore,
}

/// What the input loop does after one input.
#[derive(Clone, Copy, Debug, PartialEq, Eq, Structural)]
pub enum Step {
    /// A move was made: draw the board again.
    Moved(Direction),
    /// Nothing was done: read on.
    Idle,
    /// The session is over.
    Stop,
}

/// The meaning of an input: `None` is the end of the stream, which ends the
/// session as `q` does.
pub open spec fn decode(input: Option<u8>) -> Command {
    match input {
        None => Command::Quit,
        Some(byte) => if byte == 65 {
            Command::Shift(Direction::UP)
        } else if byte == 66 {
            Command::Shift(Direction::DOWN)
        } else if byte == 67 {
            Command::Shift(Direction::RIGHT)
        } else if byte == 68 {
            Command::Shift(Direction::LEFT)
        } else if byte == 113 {
            Command::Quit
        } else {
            Command::Ignore
        },
    }
}

/// The moves that the input loop makes on a stream of bytes: one for each
/// direction byte that comes before the first `q`.
pub open spec fn moves_of(bytes: Seq<u8>) -> Seq<Direction>
    decreases bytes.len(),
{
    if bytes.len() == 0 {
        Seq::empty()
    } else {
        match decode(Some(bytes[0])) {
            Command::Quit => Seq::empty(),
            Command::Ignore => moves_of(bytes.drop_first()),
            Command::Shift(dir) => seq![dir] + moves_of(bytes.drop_first()),
        }
    }
}

/// Decodes one input: a byte of the stream, or `None` at its end.
pub fn decode_input(input: Option<u8>) -> (command: Command)
    ensures
        command == decode(input),
{
    match input {
        Some(65) => Command::Shift(Direction::UP),
        Some(66) => Command::Shift(Direction::DOWN),
        Some(67) => Command::Shift(Direction::RIGHT),
        Some(68) => Command::Shift(Direction::LEFT),
        Some(27) | Some(91) => Command::Ignore,
        Some(113) => Command::Quit,
        Some(_) => Command::Ignore,
        None => Command::Quit,
    }
}

/// One turn of the input loop: decodes the input and, where it asks for a
/// move, makes it. On every other input the session stays as it is.
pub fn step(game: &mut GameObjects, input: Option<u8>) -> (next: Step)
    requires
        old(game).frequency >= 1,
        decode(input) matches Command::Shift(dir) ==> move_fits(old(game)@.board, dir),
    ensures
        match decode(input) {
            Command::Shift(dir) => next == Step::Moved(dir) && exists|rolls: Seq<Seq<nat>>|
                final(game)@ == (Session {
                    board: #[trigger] next_board(
                        old(game)@.board,
                        dir,
                        rolls,
                        old(game)@.frequency,
                    ),
                    ..old(game)@
                }),
            Command::Quit => next == Step::Stop && *final(game) == *old(game),
            Command::Ignore => next == Step::Idle && *final(game) == *old(game),
        },
        board_total(final(game)@.board) >= board_total(old(game)@.board),
        valid_board(old(game)@.board) ==> valid_board(final(game)@.board),
{
    match decode_input(input) {
        Command::Shift(dir) => {
            shift_dir(game, dir);
            Step::Moved(dir)
        },
        Command::Quit => Step::Stop,
        Command::Ignore => Step::Idle,
    }
}

/// The moves that the input loop makes on `bytes`, in their order: the
/// directions decoded up to the first `q` or the end of the stream.
pub fn decode_stream(bytes: &[u8]) -> (moves: Vec<Direction>)
    ensures
        moves@ == moves_of(bytes@),
{
    let mut moves: Vec<Direction> = Vec::new();
    let mut i: usize = 0;
    proof {
        assert(bytes@.skip(0) =~= bytes@);
        assert(moves@ + moves_of(bytes@) =~= moves_of(bytes@));
    }
    while i < bytes.len()
        invariant
            i <= bytes.len(),
            moves_of(bytes@) == moves@ + moves_of(bytes@.skip(i as int)),
        decreases bytes.len() - i,
    {
        proof {
            assert(bytes@.skip(i as int).drop_first() =~= bytes@.skip(i + 1));
        }
        match decode_input(Some(bytes[i])) {
            Command::Shift(dir) => {
                let ghost before = moves@;
                moves.push(dir);
                proof {
                    let rest = moves_of(bytes@.skip(i + 1));
                    assert(before + (seq![dir] + rest) =~= moves@ + rest);
                }
            },
            Command::Quit => {
                assert(moves@ + Seq::<Direction>::empty() =~= moves@);
                return moves;
            },
            Command::Ignore => {},
        }
        i += 1;
    }
    assert(moves@ + Seq::<Direction>::empty() =~= moves@);
    moves
}

/// The two prefix bytes of an arrow key ask for nothing, and the letter
/// that follows them asks for exactly one move: an arrow key is one move.
pub proof fn lemma_arrow_key_is_one_move(letter: u8)
    requires
        65 <= letter <= 68,
    ensures
        decode(Some(27u8)) == Command::Ignore,
        decode(Some(91u8)) == Command::Ignore,
        decode(Some(letter)) is Shift,
        moves_of(seq![27u8, 91u8, letter]) == seq![decode(Some(letter))->Shift_0],
{
    let keys = seq![27u8, 91u8, letter];
    let dir = decode(Some(letter))->Shift_0;
    reveal_with_fuel(moves_of, 4);
    assert(keys.drop_first() =~= seq![91u8, letter]);
    assert(keys.drop_first().drop_first() =~= seq![letter]);
    assert(keys.drop_first().drop_first().drop_first() =~= Seq::<u8>::empty());
    assert(seq![dir] + Seq::<Direction>::empty() =~= seq![dir]);
}

/// No byte after a `q` is read: the moves of a stream are those of its
/// part before the first `q`.
pub proof fn lemma_quit_ends_stream(before: Seq<u8>, after: Seq<u8>)
    ensures
        moves_of(before + seq![113u8] + after) == moves_of(before + seq![113u8]),
    decreases before.len(),
{
    let long = before + seq![113u8] + after;
    let short = before + seq![113u8];
    if before.len() == 0 {
        assert(long[0] == 113u8);
        assert(short[0] == 113u8);
    } else {
        assert(long[0] == before[0] && short[0] == before[0]);
        assert(long.drop_first() =~= before.drop_first() + seq![113u8] + after);
        assert(short.drop_first() =~= before.drop_first() + seq![113u8]);
        lemma_quit_ends_stream(before.drop_first(), after);
    }
}

} // verus!
