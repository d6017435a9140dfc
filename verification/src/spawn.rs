//! The tile spawner: after a shift, each empty cell of a line gets one roll,
//! and becomes a tile of value 2 when the roll is a multiple of the frequency.
//!
//! The rolls come from a random source, so the model takes them as an
//! argument: `spawn_line(line, rolls, frequency)` is what the spawner makes of
//! a line when `rolls[k]` is the roll for cell `k`. Rolls for cells that hold
//! a tile are not read.

use crate::laws::{all_tiles, is_tile};
use crate::line::{line_view, total};
use vstd::arithmetic::power2::lemma2_to64;
use vstd::prelude::*;

verus! {

/// What a cell holds after its roll: an empty cell becomes a 2 on a roll
/// that is a multiple of the frequency; any other cell is kept.
pub open spec fn spawn_cell(cell: nat, roll: nat, frequency: nat) -> nat {
    if cell == 0 && roll % frequency == 0 {
        2
    } else {
        cell
    }
}

/// What a line holds after the rolls `rolls`, one for each cell.
pub open spec fn spawn_line(line: Seq<nat>, rolls: Seq<nat>, frequency: nat) -> Seq<nat> {
    Seq::new(line.len(), |k: int| spawn_cell(line[k], rolls[k], frequency))
}

/// The number of tiles that the rolls add to the line.
pub open spec fn spawn_count(line: Seq<nat>, rolls: Seq<nat>, frequency: nat) -> nat
    decreases line.len(),
{
    if line.len() == 0 {
        0
    } else {
        let first: nat = if line[0] == 0 && rolls[0] % frequency == 0 {
            1
        } else {
            0
        };
        first + spawn_count(line.drop_first(), rolls.drop_first(), frequency)
    }
}

/// The model of four rolls.
pub open spec fn rolls_view(rolls: [usize; 4]) -> Seq<nat> {
    Seq::new(4, |k: int| rolls[k] as nat)
}

/// The rolls only add value: each new tile adds 2, and no tile changes.
pub proof fn lemma_spawn_total(line: Seq<nat>, rolls: Seq<nat>, frequency: nat)
    requires
        rolls.len() == line.len(),
    ensures
        total(spawn_line(line, rolls, frequency)) == total(line) + 2 * spawn_count(
            line,
            rolls,
            frequency,
        ),
    decreases line.len(),
{
    if line.len() > 0 {
        let after = spawn_line(line, rolls, frequency);
        assert(after.drop_first() =~= spawn_line(line.drop_first(), rolls.drop_first(), frequency));
        lemma_spawn_total(line.drop_first(), rolls.drop_first(), frequency);
    }
}

/// The rolls keep every tile where it is and fill empty cells with 2s only,
/// so a line of tiles stays a line of tiles.
pub proof fn lemma_spawn_keeps_tiles(line: Seq<nat>, rolls: Seq<nat>, frequency: nat)
    requires
        all_tiles(line),
    ensures
        all_tiles(spawn_line(line, rolls, frequency)),
        forall|k: int|
            0 <= k < line.len() && line[k] != 0 ==> #[trigger] spawn_line(
                line,
                rolls,
                frequency,
            )[k] == line[k],
        forall|k: int|
            0 <= k < line.len() && line[k] == 0 ==> #[trigger] spawn_line(
                line,
                rolls,
                frequency,
            )[k] == 0 || spawn_line(line, rolls, frequency)[k] == 2,
{
    let after = spawn_line(line, rolls, frequency);
    lemma2_to64();
    assert(is_tile(2));
    assert forall|k: int| 0 <= k < after.len() implies is_tile(#[trigger] after[k]) by {
        assert(is_tile(line[k]));
    }
}

/// At frequency 1 every roll spawns: no cell of the line stays empty.
pub proof fn lemma_spawn_always(line: Seq<nat>, rolls: Seq<nat>)
    ensures
        forall|k: int|
            0 <= k < line.len() ==> #[trigger] spawn_line(line, rolls, 1)[k] == if line[k] == 0 {
                2
            } else {
                line[k]
            },
{
}

/// One roll: a value of `rand::random::<usize>()`, which draws from the
/// thread's generator. Nothing is claimed of the value, and two calls may
/// differ. The generator seeds itself from the operating system on first use
/// and panics if that fails.
#[verifier::external_body]
fn random_roll() -> (roll: usize) {
    rand::random::<usize>()
}

/// What an empty cell becomes on the roll `roll`: a 2 when the roll is a
/// multiple of `frequency`, and empty again otherwise.
pub fn spawn_tile(roll: usize, frequency: u32) -> (tile: u32)
    requires
        frequency >= 1,
    ensures
        tile == spawn_cell(0, roll as nat, frequency as nat),
{
    if roll % (frequency as usize) == 0 {
        2
    } else {
        0
    }
}

/// Fills the empty cells of `arr` by the rolls given: cell `k` is decided by
/// `rolls[k]`.
pub fn add_new_tiles_with(arr: [u32; 4], rolls: [usize; 4], frequency: u32) -> (out: [u32; 4])
    requires
        frequency >= 1,
    ensures
        line_view(out) == spawn_line(line_view(arr), rolls_view(rolls), frequency as nat),
{
    let mut out: [u32; 4] = arr;
    for i in 0..4usize
        invariant
            frequency >= 1,
            forall|k: int| i <= k < 4 ==> out[k] == arr[k],
            forall|k: int|
                0 <= k < i ==> out[k] as nat == spawn_cell(
                    arr[k] as nat,
                    rolls[k] as nat,
                    frequency as nat,
                ),
    {
        if out[i] == 0 {
            out[i] = spawn_tile(rolls[i], frequency);
        }
    }
    assert(line_view(out) =~= spawn_line(line_view(arr), rolls_view(rolls), frequency as nat));
    out
}

/// Fills the empty cells of `arr` at random: each empty cell gets one roll of
/// its own, a cell that holds a tile gets none. The result is what some four
/// rolls make of the line.
pub fn add_new_tiles(arr: [u32; 4], frequency: u32) -> (out: [u32; 4])
    requires
        frequency >= 1,
    ensures
        exists|rolls: Seq<nat>|
            rolls.len() == 4 && line_view(out) == #[trigger] spawn_line(
                line_view(arr),
                rolls,
                frequency as nat,
            ),
{
    let mut out: [u32; 4] = arr;
    let ghost mut drawn: Seq<nat> = Seq::new(4, |k: int| 0nat);
    for i in 0..4usize
        invariant
            frequency >= 1,
            drawn.len() == 4,
            forall|k: int| i <= k < 4 ==> out[k] == arr[k],
            forall|k: int|
                0 <= k < i ==> out[k] as nat == spawn_cell(
                    arr[k] as nat,
                    drawn[k],
                    frequency as nat,
                ),
    {
        if out[i] == 0 {
            let roll = random_roll();
            out[i] = spawn_tile(roll, frequency);
            proof {
                drawn = drawn.update(i as int, roll as nat);
            }
        }
    }
    assert(line_view(out) =~= spawn_line(line_view(arr), drawn, frequency as nat));
    out
}

} // verus!
