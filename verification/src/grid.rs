//! The 13-by-13 range chart grid: hand names and the mapping between
//! class indices and grid cells.

use vstd::prelude::*;

use crate::abstraction::HandClass;
use crate::card::{spec_rank_char, char_to_string, rank_char_of};

verus! {

/// The name of a grid cell: pairs on the diagonal, suited hands above
/// it, offsuit hands below.  Rows and columns run from the ace down.
pub open spec fn spec_grid_name(row: int, col: int) -> Seq<char> {
    if row == col {
        seq![spec_rank_char(12 - row), spec_rank_char(12 - col)]
    } else if row < col {
        seq![spec_rank_char(12 - row), spec_rank_char(12 - col), 's']
    } else {
        seq![spec_rank_char(12 - col), spec_rank_char(12 - row), 'o']
    }
}

/// The grid cell of a hand class: `(row, col)` with the ace at the
/// top-left, suited hands above the diagonal and offsuit hands below.
pub fn hand_class_to_grid(class_idx: u8) -> (r: (usize, usize))
    requires
        class_idx < 169,
    ensures
        r.0 < 13,
        r.1 < 13,
        class_idx < 13 ==> r.0 == r.1,
        13 <= class_idx < 91 ==> r.0 < r.1,
        91 <= class_idx ==> r.0 > r.1,
{
    let hc = HandClass::from_index(class_idx);
    let high: usize = (12 - hc.rank1) as usize;
    let low: usize = (12 - hc.rank2) as usize;
    if hc.rank1 == hc.rank2 {
        (high, high)
    } else if hc.suited {
        (high, low)
    } else {
        (low, high)
    }
}

/// The hand name at a grid cell.
pub fn grid_to_hand_name(row: usize, col: usize) -> (r: String)
    requires
        row < 13,
        col < 13,
    ensures
        r@ == spec_grid_name(row as int, col as int),
{
    if row == col {
        let mut out = char_to_string(rank_char_of((12 - row) as u8));
        let second = char_to_string(rank_char_of((12 - col) as u8));
        out.append(second.as_str());
        proof {
            assert(out@ =~= spec_grid_name(row as int, col as int));
        }
        out
    } else if row < col {
        let mut out = char_to_string(rank_char_of((12 - row) as u8));
        let second = char_to_string(rank_char_of((12 - col) as u8));
        out.append(second.as_str());
        let suffix = char_to_string('s');
        out.append(suffix.as_str());
        proof {
            assert(out@ =~= spec_grid_name(row as int, col as int));
        }
        out
    } else {
        let mut out = char_to_string(rank_char_of((12 - col) as u8));
        let second = char_to_string(rank_char_of((12 - row) as u8));
        out.append(second.as_str());
        let suffix = char_to_string('o');
        out.append(suffix.as_str());
        proof {
            assert(out@ =~= spec_grid_name(row as int, col as int));
        }
        out
    }
}

/// All 169 hand names in grid order, row by row.
pub fn hand_names() -> (r: Vec<String>)
    ensures
        r@.len() == 169,
        forall|i: int|
            0 <= i < 169 ==> (#[trigger] r@[i])@ == spec_grid_name(i / 13, i % 13),
{
    let mut out: Vec<String> = Vec::new();
    let mut row: usize = 0;
    while row < 13
        invariant
            row <= 13,
            out@.len() == row * 13,
            forall|i: int|
                0 <= i < out@.len() ==> (#[trigger] out@[i])@ == spec_grid_name(i / 13, i % 13),
        decreases 13 - row,
    {
        let mut col: usize = 0;
        while col < 13
            invariant
                row < 13,
                col <= 13,
                out@.len() == row * 13 + col,
                forall|i: int|
                    0 <= i < out@.len() ==> (#[trigger] out@[i])@ == spec_grid_name(
                        i / 13,
                        i % 13,
                    ),
            decreases 13 - col,
        {
            let name = grid_to_hand_name(row, col);
            proof {
                assert((row * 13 + col) as int / 13 == row as int && (row * 13 + col) as int % 13
                    == col as int) by (nonlinear_arith)
                    requires
                        row < 13,
                        col < 13;
            }
            out.push(name);
            col = col + 1;
        }
        proof {
            assert((row + 1) * 13 == row * 13 + 13) by (nonlinear_arith);
        }
        row = row + 1;
    }
    out
}

} // verus!
