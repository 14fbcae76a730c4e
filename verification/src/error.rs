//! The ways in which laying out a trace can fail.

use crate::constraint_system::Column;
use vstd::prelude::*;

verus! {

/// Why an assignment was refused.
#[derive(Clone, Copy, Debug, PartialEq, Eq, Structural)]
pub enum Error {
    /// A value was needed that is not there, or a cell was assigned twice.
    Synthesis,
    /// The constraint system does not have exactly one instance column.
    InvalidInstances,
    /// A row, a column or a selector that does not exist was named.
    BoundsFailure,
    /// The trace has no usable row left.
    NotEnoughRowsAvailable,
    /// There are more public inputs than usable rows.
    InstanceTooLarge,
    /// A constant was assigned, but no column holds constants.
    NotEnoughColumnsForConstants,
    /// A copy constraint touches a column that is not open to them.
    ColumnNotInPermutation(Column),
}

} // verus!
