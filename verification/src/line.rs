//! The tile line algorithm: a line of four cells slides toward index 0 and
//! equal neighbours merge once.
//!
//! A line is modelled as a `Seq<nat>` in which 0 stands for an empty cell.
//! One shift is `shift_line`: drop the empty cells, merge equal neighbours
//! pairwise from the front, and fill up with empty cells to the old length.

use vstd::prelude::*;

verus! {

/// The tiles of a line without its empty cells, in their order.
pub open spec fn compact(line: Seq<nat>) -> Seq<nat>
    decreases line.len(),
{
    if line.len() == 0 {
        Seq::empty()
    } else if line[0] == 0 {
        compact(line.drop_first())
    } else {
        seq![line[0]] + compact(line.drop_first())
    }
}

/// Merges equal neighbours pairwise, front first. A merged tile is final: it
/// is never compared with the tile that follows it.
pub open spec fn merge(tiles: Seq<nat>) -> Seq<nat>
    decreases tiles.len(),
{
    if tiles.len() == 0 {
        Seq::empty()
    } else if tiles.len() >= 2 && tiles[0] == tiles[1] {
        seq![2 * tiles[0]] + merge(tiles.skip(2))
    } else {
        seq![tiles[0]] + merge(tiles.skip(1))
    }
}

/// `tiles` followed by empty cells up to length `len`.
pub open spec fn pad(tiles: Seq<nat>, len: nat) -> Seq<nat> {
    Seq::new(
        len,
        |k: int|
            if k < tiles.len() {
                tiles[k]
            } else {
                0
            },
    )
}

/// One shift of a line toward index 0.
pub open spec fn shift_line(line: Seq<nat>) -> Seq<nat> {
    pad(merge(compact(line)), line.len())
}

/// Every tile of the shifted line can be stored in a `u32`.
pub open spec fn fits(line: Seq<nat>) -> bool {
    forall|k: int| 0 <= k < line.len() ==> #[trigger] shift_line(line)[k] <= u32::MAX
}

/// The sum of the tile values of a line.
pub open spec fn total(line: Seq<nat>) -> nat
    decreases line.len(),
{
    if line.len() == 0 {
        0
    } else {
        line[0] + total(line.drop_first())
    }
}

/// The model of an array of four cells.
pub open spec fn line_view(arr: [u32; 4]) -> Seq<nat> {
    Seq::new(4, |k: int| arr[k] as nat)
}

/// The tiles already closed by the cursor: the cells before it.
spec fn closed(arr: [u32; 4], cursor: int) -> Seq<nat> {
    Seq::new(cursor as nat, |k: int| arr[k] as nat)
}

/// The tile under the cursor, which may still merge, if there is one.
spec fn pending(arr: [u32; 4], cursor: int) -> Seq<nat> {
    if arr[cursor] == 0 {
        Seq::empty()
    } else {
        seq![arr[cursor] as nat]
    }
}

/// What holds of the output `out` and its cursor when the first `i` cells of
/// `line` have been read: the cells before the cursor are final, the cell
/// under it may still merge, the cells behind it are empty, and merging what
/// is left of the line after the cell under the cursor completes the shift.
spec fn cursor_state(line: Seq<nat>, out: [u32; 4], cursor: int, i: int) -> bool {
    &&& line.len() == 4
    &&& 0 <= cursor < 4
    &&& cursor <= i <= 4
    &&& out[cursor] != 0 ==> cursor < i
    &&& forall|k: int| cursor < k < 4 ==> out[k] == 0
    &&& merge(compact(line)) == closed(out, cursor) + merge(
        pending(out, cursor) + compact(line.skip(i)),
    )
}

proof fn lemma_cursor_start(line: Seq<nat>, out: [u32; 4])
    requires
        line.len() == 4,
        forall|k: int| 0 <= k < 4 ==> out[k] == 0,
    ensures
        cursor_state(line, out, 0, 0),
{
    assert(line.skip(0) =~= line);
    assert(pending(out, 0) + compact(line) =~= compact(line));
    assert(closed(out, 0) + merge(compact(line)) =~= merge(compact(line)));
}

/// An empty cell of the line leaves the output as it is.
proof fn lemma_cursor_skip(line: Seq<nat>, out: [u32; 4], cursor: int, i: int)
    requires
        cursor_state(line, out, cursor, i),
        i < 4,
        line[i] == 0,
    ensures
        cursor_state(line, out, cursor, i + 1),
{
    assert(line.skip(i).drop_first() =~= line.skip(i + 1));
}

/// A tile goes into the empty cell under the cursor.
proof fn lemma_cursor_place(line: Seq<nat>, old_out: [u32; 4], out: [u32; 4], cursor: int, i: int)
    requires
        cursor_state(line, old_out, cursor, i),
        i < 4,
        line[i] != 0,
        old_out[cursor] == 0,
        out[cursor] as nat == line[i],
        forall|k: int| 0 <= k < 4 && k != cursor ==> out[k] == old_out[k],
    ensures
        cursor_state(line, out, cursor, i + 1),
{
    let rest = compact(line.skip(i + 1));
    assert(line.skip(i).drop_first() =~= line.skip(i + 1));
    assert(Seq::<nat>::empty() + (seq![line[i]] + rest) =~= seq![line[i]] + rest);
    assert(closed(out, cursor) =~= closed(old_out, cursor));
}

/// A tile equal to the one under the cursor doubles it: the shifted line
/// holds the double at the cursor.
proof fn lemma_cursor_double(line: Seq<nat>, out: [u32; 4], cursor: int, i: int)
    requires
        cursor_state(line, out, cursor, i),
        i < 4,
        line[i] != 0,
        out[cursor] as nat == line[i],
    ensures
        shift_line(line)[cursor] == 2 * line[i],
        merge(compact(line)) == (closed(out, cursor) + seq![2 * line[i]]) + merge(
            Seq::<nat>::empty() + compact(line.skip(i + 1)),
        ),
{
    let v = line[i];
    let rest = compact(line.skip(i + 1));
    let done = closed(out, cursor);
    assert(line.skip(i).drop_first() =~= line.skip(i + 1));
    let pair = seq![v] + (seq![v] + rest);
    assert(pair.skip(2) =~= rest);
    assert(Seq::<nat>::empty() + rest =~= rest);
    assert(done + (seq![2 * v] + merge(rest)) =~= (done + seq![2 * v]) + merge(rest));
    assert(merge(compact(line))[cursor] == 2 * v);
}

/// The doubled tile is final, and the cursor moves on to an empty cell.
proof fn lemma_cursor_merge(line: Seq<nat>, old_out: [u32; 4], out: [u32; 4], cursor: int, i: int)
    requires
        cursor_state(line, old_out, cursor, i),
        i < 4,
        line[i] != 0,
        old_out[cursor] as nat == line[i],
        out[cursor] as nat == 2 * line[i],
        forall|k: int| 0 <= k < 4 && k != cursor ==> out[k] == old_out[k],
    ensures
        cursor_state(line, out, cursor + 1, i + 1),
{
    lemma_cursor_double(line, old_out, cursor, i);
    assert(closed(out, cursor + 1) =~= closed(old_out, cursor) + seq![2 * line[i]]);
}

/// A tile that differs from the one under the cursor goes into the next cell.
proof fn lemma_cursor_advance(line: Seq<nat>, old_out: [u32; 4], out: [u32; 4], cursor: int, i: int)
    requires
        cursor_state(line, old_out, cursor, i),
        i < 4,
        line[i] != 0,
        old_out[cursor] != 0,
        old_out[cursor] as nat != line[i],
        out[cursor + 1] as nat == line[i],
        forall|k: int| 0 <= k < 4 && k != cursor + 1 ==> out[k] == old_out[k],
    ensures
        cursor_state(line, out, cursor + 1, i + 1),
{
    let p = old_out[cursor] as nat;
    let v = line[i];
    let rest = compact(line.skip(i + 1));
    let done = closed(old_out, cursor);
    assert(line.skip(i).drop_first() =~= line.skip(i + 1));
    let pair = seq![p] + (seq![v] + rest);
    assert(pair.skip(1) =~= seq![v] + rest);
    assert(closed(out, cursor + 1) =~= done + seq![p]);
    assert(done + (seq![p] + merge(seq![v] + rest)) =~= (done + seq![p]) + merge(seq![v] + rest));
}

/// With the whole line read, the output is the shifted line.
proof fn lemma_cursor_end(line: Seq<nat>, out: [u32; 4], cursor: int)
    requires
        cursor_state(line, out, cursor, 4),
    ensures
        line_view(out) == shift_line(line),
{
    let tail = pending(out, cursor);
    assert(tail + Seq::<nat>::empty() =~= tail);
    if tail.len() == 1 {
        assert(tail.skip(1) =~= Seq::<nat>::empty());
        assert(seq![tail[0]] + merge(tail.skip(1)) =~= tail);
    }
    assert(line_view(out) =~= pad(closed(out, cursor) + tail, 4));
}

/// Slides the tiles of `arr` toward index 0 and merges equal neighbours once.
///
/// A cursor walks the output: a tile goes into the cell under the cursor if
/// that is empty, doubles it and closes it if it holds the same value, and
/// otherwise goes into the next cell.
pub fn shift_arr(arr: [u32; 4]) -> (out: [u32; 4])
    requires
        fits(line_view(arr)),
    ensures
        line_view(out) == shift_line(line_view(arr)),
{
    let mut new_arr: [u32; 4] = [0;4];
    let mut new_index: usize = 0;
    let ghost line = line_view(arr);

    proof {
        lemma_cursor_start(line, new_arr);
    }
    for i in 0..4usize
        invariant
            line == line_view(arr),
            fits(line),
            cursor_state(line, new_arr, new_index as int, i as int),
    {
        let ghost before = new_arr;
        if arr[i] != 0 {
            if new_arr[new_index] == 0 {
                new_arr[new_index] = arr[i];
                proof {
                    lemma_cursor_place(line, before, new_arr, new_index as int, i as int);
                }
            } else if new_arr[new_index] == arr[i] {
                proof {
                    lemma_cursor_double(line, before, new_index as int, i as int);
                }
                new_arr[new_index] = new_arr[new_index] + arr[i];
                proof {
                    lemma_cursor_merge(line, before, new_arr, new_index as int, i as int);
                }
                new_index += 1;
            } else {
                new_index += 1;
                new_arr[new_index] = arr[i];
                proof {
                    lemma_cursor_advance(line, before, new_arr, new_index - 1, i as int);
                }
            }
        } else {
            proof {
                lemma_cursor_skip(line, new_arr, new_index as int, i as int);
            }
        }
    }
    proof {
        lemma_cursor_end(line, new_arr, new_index as int);
    }
    new_arr
}

/// Shifts `arr` as `shift_arr` does, where every merged tile can be stored;
/// where a merge would exceed a `u32`, there is no result.
pub fn checked_shift_arr(arr: [u32; 4]) -> (out: Option<[u32; 4]>)
    ensures
        out is Some <==> fits(line_view(arr)),
        out matches Some(shifted) ==> line_view(shifted) == shift_line(line_view(arr)),
{
    let mut new_arr: [u32; 4] = [0;4];
    let mut new_index: usize = 0;
    let ghost line = line_view(arr);

    proof {
        lemma_cursor_start(line, new_arr);
    }
    for i in 0..4usize
        invariant
            line == line_view(arr),
            cursor_state(line, new_arr, new_index as int, i as int),
    {
        let ghost before = new_arr;
        if arr[i] != 0 {
            if new_arr[new_index] == 0 {
                new_arr[new_index] = arr[i];
                proof {
                    lemma_cursor_place(line, before, new_arr, new_index as int, i as int);
                }
            } else if new_arr[new_index] == arr[i] {
                proof {
                    lemma_cursor_double(line, before, new_index as int, i as int);
                }
                match new_arr[new_index].checked_add(arr[i]) {
                    Some(double) => {
                        new_arr[new_index] = double;
                    },
                    None => {
                        return None;
                    },
                }
                proof {
                    lemma_cursor_merge(line, before, new_arr, new_index as int, i as int);
                }
                new_index += 1;
            } else {
                new_index += 1;
                new_arr[new_index] = arr[i];
                proof {
                    lemma_cursor_advance(line, before, new_arr, new_index - 1, i as int);
                }
            }
        } else {
            proof {
                lemma_cursor_skip(line, new_arr, new_index as int, i as int);
            }
        }
    }
    proof {
        lemma_cursor_end(line, new_arr, new_index as int);
    }
    Some(new_arr)
}

} // verus!
