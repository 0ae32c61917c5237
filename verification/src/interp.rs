//! Segment selection for the calibration interpolator.
//!
//! The gain at a query frequency is linearly interpolated between the two
//! bracketing table entries, and extrapolated along the nearest edge segment
//! outside the table's range — never clamped to the edge value. Which table
//! entries take part is exact integer work and is decided here; the linear
//! blend itself is floating point and stays outside this crate. A query that
//! hits a table frequency exactly is answered by that entry's own gain, with
//! no blend at all.

use vstd::prelude::*;

use crate::calibration::MicCalibrationData;
use crate::numbers::Micros;
use crate::numbers::micros_lt;

verus! {

/// How to evaluate the calibration gain at one query frequency.
#[derive(Clone, Copy, Debug, PartialEq, Eq, Structural)]
pub enum InterpPlan {
    /// The query equals the table frequency at `index`: answer with that
    /// entry's gain, exactly.
    Exact { index: usize },
    /// Blend linearly along the segment from entry `lo` to entry `lo + 1`
    /// (for a query outside the table's range this is the nearest edge
    /// segment, extended — not clamped).
    Segment { lo: usize },
}

/// Picks the table entries that answer a query frequency: the exact entry on
/// a hit, else the unique bracketing or nearest-edge segment.
#[verifier::loop_isolation(false)]
pub fn locate_segment(table: &MicCalibrationData, q: &Micros) -> (r: InterpPlan)
    requires
        table.wf(),
    ensures
        match r {
            InterpPlan::Exact { index } => index < table.frequency@.len()
                && table.freq_values()[index as int] == q.value(),
            InterpPlan::Segment { lo } => {
                &&& lo + 1 < table.frequency@.len()
                &&& forall|i: int|
                    0 <= i < table.frequency@.len() ==> #[trigger] table.freq_values()[i]
                        != q.value()
                &&& (table.freq_values()[lo as int] < q.value() || lo == 0)
                &&& (q.value() < table.freq_values()[lo + 1] || lo + 2
                    == table.frequency@.len())
            },
        },
{
    let n = table.frequency.len();
    let mut i: usize = 0;
    while i < n
        invariant
            i <= n,
            forall|k: int| 0 <= k < i ==> #[trigger] table.freq_values()[k] != q.value(),
        decreases n - i,
    {
        let fi = &table.frequency[i];
        if !micros_lt(fi, q) && !micros_lt(q, fi) {
            proof {
                assert(table.freq_values()[i as int] == table.frequency@[i as int].value());
            }
            return InterpPlan::Exact { index: i };
        }
        proof {
            assert(table.freq_values()[i as int] == table.frequency@[i as int].value());
        }
        i = i + 1;
    }
    let mut lo: usize = 0;
    while lo + 2 < n && micros_lt(&table.frequency[lo + 1], q)
        invariant
            lo + 2 <= n,
            table.freq_values()[lo as int] < q.value() || lo == 0,
        decreases n - lo,
    {
        proof {
            assert(table.freq_values()[lo + 1] == table.frequency@[lo + 1].value());
        }
        lo = lo + 1;
    }
    proof {
        assert(table.freq_values()[lo + 1] == table.frequency@[lo + 1].value());
    }
    InterpPlan::Segment { lo }
}

} // verus!
