//! What holds of every shift of a line: the value on it is conserved, tiles
//! stay tiles, and a second shift changes nothing exactly when the first one
//! left no two equal tiles side by side.

use crate::line::{compact, merge, pad, shift_line, total};
use vstd::arithmetic::power2::{lemma_pow2_unfold, pow2};
use vstd::prelude::*;

verus! {

/// A cell value that the game can hold: empty, or a power of two from 2 on.
pub open spec fn is_tile(v: nat) -> bool {
    v == 0 || exists|e: nat| e >= 1 && v == #[trigger] pow2(e)
}

/// Every cell of the line is empty or a power of two from 2 on.
pub open spec fn all_tiles(line: Seq<nat>) -> bool {
    forall|k: int| 0 <= k < line.len() ==> is_tile(#[trigger] line[k])
}

/// No cell of the sequence is empty.
pub open spec fn no_gaps(tiles: Seq<nat>) -> bool {
    forall|k: int| 0 <= k < tiles.len() ==> #[trigger] tiles[k] != 0
}

/// No two neighbours of the sequence are equal.
pub open spec fn no_equal_neighbours(tiles: Seq<nat>) -> bool {
    forall|k: int| 0 <= k < tiles.len() - 1 ==> #[trigger] tiles[k] != tiles[k + 1]
}

/// No two tiles of the line are equal with nothing but empty cells between
/// them: a shift of the line merges nothing.
pub open spec fn settled(line: Seq<nat>) -> bool {
    no_equal_neighbours(compact(line))
}

proof fn lemma_total_concat(a: Seq<nat>, b: Seq<nat>)
    ensures
        total(a + b) == total(a) + total(b),
    decreases a.len(),
{
    if a.len() == 0 {
        assert(a + b =~= b);
    } else {
        assert((a + b).drop_first() =~= a.drop_first() + b);
        lemma_total_concat(a.drop_first(), b);
    }
}

proof fn lemma_total_one(v: nat)
    ensures
        total(seq![v]) == v,
{
    assert(seq![v].drop_first() =~= Seq::<nat>::empty());
    assert(total(seq![v].drop_first()) == 0);
}

proof fn lemma_compact_props(line: Seq<nat>)
    ensures
        total(compact(line)) == total(line),
        compact(line).len() <= line.len(),
        no_gaps(compact(line)),
        all_tiles(line) ==> all_tiles(compact(line)),
    decreases line.len(),
{
    if line.len() > 0 {
        let rest = line.drop_first();
        lemma_compact_props(rest);
        if line[0] != 0 {
            lemma_total_concat(seq![line[0]], compact(rest));
            lemma_total_one(line[0]);
        }
        if all_tiles(line) {
            assert forall|k: int| 0 <= k < rest.len() implies is_tile(#[trigger] rest[k]) by {
                assert(rest[k] == line[k + 1]);
            }
            assert(is_tile(line[0]));
        }
    }
}

proof fn lemma_merge_props(tiles: Seq<nat>)
    ensures
        total(merge(tiles)) == total(tiles),
        merge(tiles).len() <= tiles.len(),
        no_gaps(tiles) ==> no_gaps(merge(tiles)),
        all_tiles(tiles) ==> all_tiles(merge(tiles)),
        no_equal_neighbours(tiles) ==> merge(tiles) == tiles,
        !no_equal_neighbours(tiles) ==> merge(tiles).len() < tiles.len(),
    decreases tiles.len(),
{
    if tiles.len() > 0 {
        if tiles.len() >= 2 && tiles[0] == tiles[1] {
            let rest = tiles.skip(2);
            lemma_merge_props(rest);
            assert(tiles.drop_first().drop_first() =~= rest);
            assert(tiles.drop_first()[0] == tiles[1]);
            lemma_total_concat(seq![2 * tiles[0]], merge(rest));
            lemma_total_one(2 * tiles[0]);
            if no_gaps(tiles) {
                assert(tiles[0] != 0);
                assert forall|k: int| 0 <= k < rest.len() implies #[trigger] rest[k] != 0 by {
                    assert(rest[k] == tiles[k + 2]);
                }
            }
            if all_tiles(tiles) {
                assert forall|k: int| 0 <= k < rest.len() implies is_tile(#[trigger] rest[k]) by {
                    assert(rest[k] == tiles[k + 2]);
                }
                lemma_double_is_tile(tiles[0]);
            }
            assert(!no_equal_neighbours(tiles)) by {
                assert(tiles[0int] == tiles[0int + 1]);
            }
        } else {
            let rest = tiles.skip(1);
            lemma_merge_props(rest);
            assert(tiles.drop_first() =~= rest);
            lemma_total_concat(seq![tiles[0]], merge(rest));
            lemma_total_one(tiles[0]);
            if no_gaps(tiles) {
                assert(tiles[0] != 0);
                assert forall|k: int| 0 <= k < rest.len() implies #[trigger] rest[k] != 0 by {
                    assert(rest[k] == tiles[k + 1]);
                }
            }
            if all_tiles(tiles) {
                assert(is_tile(tiles[0]));
                assert forall|k: int| 0 <= k < rest.len() implies is_tile(#[trigger] rest[k]) by {
                    assert(rest[k] == tiles[k + 1]);
                }
            }
            if no_equal_neighbours(tiles) {
                assert forall|k: int| 0 <= k < rest.len() - 1 implies #[trigger] rest[k]
                    != rest[k + 1] by {
                    assert(tiles[k + 1] != tiles[k + 1 + 1]);
                }
                assert(seq![tiles[0]] + rest =~= tiles);
            } else {
                let k = choose|k: int| 0 <= k < tiles.len() - 1 && #[trigger] tiles[k] == tiles[k + 1];
                assert(k >= 1);
                assert(rest[k - 1] == rest[k - 1 + 1]);
            }
        }
    }
}

proof fn lemma_double_is_tile(v: nat)
    requires
        is_tile(v),
    ensures
        is_tile(2 * v),
{
    if v != 0 {
        let e = choose|e: nat| e >= 1 && v == #[trigger] pow2(e);
        lemma_pow2_unfold(e + 1);
        assert(2 * v == pow2(e + 1));
    }
}

proof fn lemma_pad_props(tiles: Seq<nat>, len: nat)
    requires
        tiles.len() <= len,
    ensures
        total(pad(tiles, len)) == total(tiles),
        no_gaps(tiles) ==> compact(pad(tiles, len)) == tiles,
        all_tiles(tiles) ==> all_tiles(pad(tiles, len)),
    decreases len,
{
    let padded = pad(tiles, len);
    if all_tiles(tiles) {
        assert forall|k: int| 0 <= k < padded.len() implies is_tile(#[trigger] padded[k]) by {
            if k < tiles.len() {
                assert(is_tile(tiles[k]));
            }
        }
    }
    if len == 0 {
        assert(tiles =~= Seq::<nat>::empty());
    } else if tiles.len() == 0 {
        assert(padded.drop_first() =~= pad(tiles, (len - 1) as nat));
        lemma_pad_props(tiles, (len - 1) as nat);
    } else {
        let rest = tiles.drop_first();
        assert(padded.drop_first() =~= pad(rest, (len - 1) as nat));
        lemma_pad_props(rest, (len - 1) as nat);
        if no_gaps(tiles) {
            assert(tiles[0] != 0);
            assert forall|k: int| 0 <= k < rest.len() implies #[trigger] rest[k] != 0 by {
                assert(rest[k] == tiles[k + 1]);
            }
            assert(seq![tiles[0]] + rest =~= tiles);
        }
    }
}

/// A shift conserves the value on the line: two tiles of value v become one
/// tile of value 2v, and nothing else changes a value.
pub proof fn lemma_shift_conserves_total(line: Seq<nat>)
    ensures
        total(shift_line(line)) == total(line),
{
    lemma_compact_props(line);
    lemma_merge_props(compact(line));
    lemma_pad_props(merge(compact(line)), line.len());
}

/// A shift of a line of tiles gives a line of tiles: every cell is still
/// empty or a power of two from 2 on.
pub proof fn lemma_shift_keeps_tiles(line: Seq<nat>)
    requires
        all_tiles(line),
    ensures
        all_tiles(shift_line(line)),
{
    lemma_compact_props(line);
    lemma_merge_props(compact(line));
    lemma_pad_props(merge(compact(line)), line.len());
}

/// A shift of a line on which nothing can merge only closes its gaps; with no
/// gap either, it gives the line back.
pub proof fn lemma_shift_of_settled(line: Seq<nat>)
    requires
        settled(line),
    ensures
        shift_line(line) == pad(compact(line), line.len()),
        settled(shift_line(line)),
        no_gaps(line) ==> shift_line(line) == line,
{
    lemma_compact_props(line);
    lemma_merge_props(compact(line));
    lemma_pad_props(compact(line), line.len());
    if no_gaps(line) {
        lemma_pad_props(line, line.len());
        assert(pad(line, line.len()) =~= line);
    }
}

/// A second shift changes nothing, provided the first one left no two equal
/// tiles side by side.
pub proof fn lemma_shift_idempotent(line: Seq<nat>)
    requires
        settled(shift_line(line)),
    ensures
        shift_line(shift_line(line)) == shift_line(line),
{
    let once = shift_line(line);
    lemma_shift_of_settled(once);
    lemma_compact_props(line);
    lemma_merge_props(compact(line));
    lemma_pad_props(merge(compact(line)), line.len());
}

/// Where the first shift left two equal tiles side by side, the second one
/// merges them, and its result differs from that of the first.
pub proof fn lemma_second_shift_merges(line: Seq<nat>)
    requires
        !settled(shift_line(line)),
    ensures
        shift_line(shift_line(line)) != shift_line(line),
{
    let once = shift_line(line);
    let tiles = merge(compact(line));
    lemma_compact_props(line);
    lemma_merge_props(compact(line));
    lemma_pad_props(tiles, line.len());
    assert(compact(once) == tiles);
    lemma_merge_props(tiles);
    let twice = shift_line(once);
    let gap = merge(tiles).len() as int;
    assert(twice[gap] == 0);
    assert(once[gap] == tiles[gap]);
}

/// No cell of the line is above `bound`.
pub open spec fn bounded(line: Seq<nat>, bound: nat) -> bool {
    forall|k: int| 0 <= k < line.len() ==> #[trigger] line[k] <= bound
}

proof fn lemma_compact_bounded(line: Seq<nat>, bound: nat)
    requires
        bounded(line, bound),
    ensures
        bounded(compact(line), bound),
    decreases line.len(),
{
    if line.len() > 0 {
        let rest = line.drop_first();
        assert forall|k: int| 0 <= k < rest.len() implies #[trigger] rest[k] <= bound by {
            assert(rest[k] == line[k + 1]);
        }
        lemma_compact_bounded(rest, bound);
        assert(line[0] <= bound);
    }
}

proof fn lemma_merge_bounded(tiles: Seq<nat>, bound: nat)
    requires
        bounded(tiles, bound),
    ensures
        bounded(merge(tiles), 2 * bound),
    decreases tiles.len(),
{
    if tiles.len() > 0 {
        assert(tiles[0] <= bound);
        let rest = if tiles.len() >= 2 && tiles[0] == tiles[1] {
            tiles.skip(2)
        } else {
            tiles.skip(1)
        };
        assert forall|k: int| 0 <= k < rest.len() implies #[trigger] rest[k] <= bound by {
            assert(rest[k] == tiles[k + tiles.len() - rest.len()]);
        }
        lemma_merge_bounded(rest, bound);
    }
}

/// A shift at most doubles a tile: where no cell of the line is above
/// `bound`, no cell of the shifted line is above twice `bound`. So a line
/// whose cells are all below 2^31 can be shifted in a `u32`.
pub proof fn lemma_shift_bounded(line: Seq<nat>, bound: nat)
    requires
        bounded(line, bound),
    ensures
        bounded(shift_line(line), 2 * bound),
        2 * bound <= u32::MAX ==> crate::line::fits(line),
{
    lemma_compact_bounded(line, bound);
    lemma_merge_bounded(compact(line), bound);
    let tiles = merge(compact(line));
    let shifted = shift_line(line);
    assert forall|k: int| 0 <= k < shifted.len() implies #[trigger] shifted[k] <= 2 * bound by {
        if k < tiles.len() {
            assert(tiles[k] <= 2 * bound);
        }
    }
}

} // verus!
