//! Grid resolution: turn an input count and optionally explicit row and
//! column counts into the concrete grid the sheet will use.

use vstd::prelude::*;

verus! {

/// Why a run was aborted. Every error is fatal to the whole run: no retry,
/// no partial output.
#[derive(Clone, Copy, Debug, PartialEq, Eq, Structural)]
pub enum Error {
    /// The input count was zero, or an explicit grid dimension was zero.
    InvalidArgument,
    /// An input file could not be read or was not a recognized image.
    DecodeError,
    /// The output file could not be created or written.
    WriteError,
}

/// A concrete grid layout: how many rows and columns of tiles the sheet has.
#[derive(Clone, Copy, Debug, PartialEq, Eq, Structural)]
pub struct GridSpec {
    pub rows: u32,
    pub columns: u32,
}

impl GridSpec {
    /// A usable grid has at least one row and one column.
    pub open spec fn wf(self) -> bool {
        self.rows >= 1 && self.columns >= 1
    }
}

/// The smallest `r` with `r * r >= num`: the ceiling of the square root.
pub fn nearest_square(num: u32) -> (r: u32)
    ensures
        r * r >= num,
        r >= 1 ==> (r - 1) * (r - 1) < num,
        num >= 1 ==> r >= 1,
{
    let mut result: u64 = 0;
    while result * result < num as u64
        invariant
            result <= 0x1_0000,
            result * result <= 0x1_0000_0000u64,
            result >= 1 ==> (result - 1) * (result - 1) < num,
        decreases 0x1_0000 - result,
    {
        assert(result < 0x1_0000) by (nonlinear_arith)
            requires
                result * result < num as u64;
        result = result + 1;
        assert(result * result <= 0x1_0000_0000u64) by (nonlinear_arith)
            requires
                result <= 0x1_0000;
    }
    result as u32
}

/// Resolve the grid to use for `input_count` images.
///
/// - Both dimensions given: used exactly as supplied, with no check that
///   they cover the input count.
/// - Only one given: the other is the input count floor-divided by it. The
///   computed dimension may come out zero when the given one exceeds the
///   count; `compose` asks for a well-formed grid, so such a grid must be
///   rejected by the caller.
/// - Neither given: both are the ceiling square root of the input count.
///   This inference is the only no-dimensions policy the crate offers; there
///   is no separate one-by-one minimal default.
///
/// Fails with `Error::InvalidArgument` exactly when the input count is zero
/// or an explicitly supplied dimension is zero.
pub fn resolve(input_count: u32, rows: Option<u32>, columns: Option<u32>) -> (r: Result<
    GridSpec,
    Error,
>)
    ensures
        r is Err <==> (input_count == 0 || rows == Some(0u32) || columns == Some(0u32)),
        r is Err ==> r == Err::<GridSpec, Error>(Error::InvalidArgument),
        r is Ok ==> {
            let g = r->Ok_0;
            match (rows, columns) {
                (Some(rr), Some(cc)) => g.rows == rr && g.columns == cc,
                (Some(rr), None) => g.rows == rr && g.columns == input_count / rr,
                (None, Some(cc)) => g.columns == cc && g.rows == input_count / cc,
                (None, None) => g.rows == g.columns && g.rows * g.rows >= input_count && (g.rows
                    - 1) * (g.rows - 1) < input_count,
            }
        },
{
    if input_count == 0 {
        return Err(Error::InvalidArgument);
    }
    match (rows, columns) {
        (Some(rr), Some(cc)) => {
            if rr == 0 || cc == 0 {
                Err(Error::InvalidArgument)
            } else {
                Ok(GridSpec { rows: rr, columns: cc })
            }
        },
        (Some(rr), None) => {
            if rr == 0 {
                Err(Error::InvalidArgument)
            } else {
                Ok(GridSpec { rows: rr, columns: input_count / rr })
            }
        },
        (None, Some(cc)) => {
            if cc == 0 {
                Err(Error::InvalidArgument)
            } else {
                Ok(GridSpec { rows: input_count / cc, columns: cc })
            }
        },
        (None, None) => {
            let n = nearest_square(input_count);
            Ok(GridSpec { rows: n, columns: n })
        },
    }
}

} // verus!
