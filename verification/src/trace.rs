//! The mathematical model of a witness trace: rows of cells, the constants
//! column, the public inputs, and the copy constraints declared so far.

use crate::constraint_system::{Column, ConstraintSystem, Gate};
use crate::error::Error;
use crate::field::modulus;
use vstd::prelude::*;

verus! {

/// A place in the trace.
#[derive(Clone, Copy, Debug, PartialEq, Eq, Structural)]
pub struct Cell {
    pub column: Column,
    pub row: usize,
}

/// A declared equality between two cells.
#[derive(Clone, Copy, Debug, PartialEq, Eq, Structural)]
pub struct CopyConstraint {
    pub left: Cell,
    pub right: Cell,
}

/// One row. An advice cell is `None` until it is assigned; an assigned cell
/// holds `None` while its value is unknown.
pub struct RowView {
    pub advice: Seq<Option<Option<nat>>>,
    pub selectors: Seq<bool>,
}

impl RowView {
    /// A row with nothing assigned and nothing enabled.
    pub open spec fn blank(num_advice: nat, num_selectors: nat) -> RowView {
        RowView {
            advice: Seq::new(num_advice, |i: int| None::<Option<nat>>),
            selectors: Seq::new(num_selectors, |i: int| false),
        }
    }

    /// The numbers in the row, with 0 where there is none.
    pub open spec fn values(self) -> Seq<nat> {
        Seq::new(
            self.advice.len(),
            |i: int|
                match self.advice[i] {
                    Some(Some(v)) => v,
                    _ => 0,
                },
        )
    }

    /// Which cells of the row hold a number.
    pub open spec fn known(self) -> Seq<bool> {
        Seq::new(self.advice.len(), |i: int| self.advice[i] matches Some(Some(_)))
    }

    /// The polynomial of a gate vanishes on the row, and where a selector
    /// switches it on every cell it reads holds a number.
    pub open spec fn meets(self, gate: Gate) -> bool {
        &&& gate.poly.active(self.selectors) ==> gate.poly.supplied(self.known())
        &&& gate.poly.eval(self.selectors, self.values()) == 0
    }
}

/// What keys are derived from: everything in a trace but the public
/// inputs and the values of the advice cells.
pub struct Shape {
    pub cs: ConstraintSystem,
    pub usable_rows: nat,
    /// Row by row, which selectors are enabled.
    pub selectors: Seq<Seq<bool>>,
    /// Row by row, which advice cells are assigned.
    pub assigned: Seq<Seq<bool>>,
    pub constants: Seq<nat>,
    pub copies: Seq<CopyConstraint>,
}

/// A witness trace under construction.
pub struct Trace {
    pub cs: ConstraintSystem,
    /// How many rows may be used.
    pub usable_rows: nat,
    /// The public inputs; `None` while only the shape is being fixed.
    pub instance: Option<Seq<nat>>,
    pub rows: Seq<RowView>,
    /// The cells of the constants column, from row 0.
    pub constants: Seq<nat>,
    pub copies: Seq<CopyConstraint>,
}

impl Trace {
    /// The shape of the trace.
    pub open spec fn shape(self) -> Shape {
        Shape {
            cs: self.cs,
            usable_rows: self.usable_rows,
            selectors: Seq::new(self.rows.len(), |r: int| self.rows[r].selectors),
            assigned: Seq::new(
                self.rows.len(),
                |r: int|
                    Seq::new(
                        self.rows[r].advice.len(),
                        |c: int| self.rows[r].advice[c].is_some(),
                    ),
            ),
            constants: self.constants,
            copies: self.copies,
        }
    }

    /// No value is known: the pass only fixes the shape of the circuit.
    pub open spec fn key_only(self) -> bool {
        self.instance.is_none()
    }

    /// What the instance column holds at a row: the public input of that
    /// slot, 0 past the last one, nothing in a key-only pass.
    pub open spec fn instance_value(self, slot: int) -> Option<nat> {
        match self.instance {
            None => None,
            Some(v) => Some(
                if 0 <= slot < v.len() {
                    v[slot]
                } else {
                    0
                },
            ),
        }
    }

    /// What a cell holds: `None` where nothing was assigned.
    pub open spec fn value_at(self, cell: Cell) -> Option<Option<nat>> {
        match cell.column {
            Column::Advice(c) => if cell.row < self.rows.len() && c < self.rows[cell.row as int].advice.len() {
                self.rows[cell.row as int].advice[c as int]
            } else {
                None
            },
            Column::Fixed(c) => if self.cs.constant_columns().len() > 0
                && self.cs.constant_columns()[0].index == c && cell.row < self.constants.len() {
                Some(Some(self.constants[cell.row as int]))
            } else {
                None
            },
            Column::Instance(c) => if c == 0 && cell.row < self.usable_rows {
                Some(self.instance_value(cell.row as int))
            } else {
                None
            },
        }
    }

    /// Both cells are assigned and hold the same.
    pub open spec fn copy_holds(self, copy: CopyConstraint) -> bool {
        self.value_at(copy.left).is_some() && self.value_at(copy.left) == self.value_at(
            copy.right,
        )
    }

    /// Every declared copy constraint links cells that hold the same.
    pub open spec fn copies_consistent(self) -> bool {
        forall|j: int| 0 <= j < self.copies.len() ==> self.copy_holds(#[trigger] self.copies[j])
    }

    /// Every gate holds on every row.
    pub open spec fn gates_satisfied(self) -> bool {
        forall|r: int, g: int|
            0 <= r < self.rows.len() && 0 <= g < self.cs.gate_list().len() ==> (
            #[trigger] self.rows[r]).meets(#[trigger] self.cs.gate_list()[g])
    }

    /// The trace meets every gate and every copy constraint.
    pub open spec fn satisfied(self) -> bool {
        self.gates_satisfied() && self.copies_consistent()
    }

    /// A trace over the constraint system with no row yet.
    pub open spec fn empty(cs: ConstraintSystem, usable_rows: nat, instance: Option<Seq<nat>>) -> Trace {
        Trace {
            cs,
            usable_rows,
            instance,
            rows: Seq::empty(),
            constants: Seq::empty(),
            copies: Seq::empty(),
        }
    }

    /// The trace with one more row, blank.
    pub open spec fn with_row(self) -> Trace {
        Trace {
            rows: self.rows.push(RowView::blank(self.cs.num_advice(), self.cs.num_selector())),
            ..self
        }
    }

    /// The trace with a selector enabled at a row.
    pub open spec fn with_selector(self, selector: int, row: int) -> Trace {
        Trace {
            rows: self.rows.update(
                row,
                RowView {
                    selectors: self.rows[row].selectors.update(selector, true),
                    ..self.rows[row]
                },
            ),
            ..self
        }
    }

    /// The trace with an advice cell assigned.
    pub open spec fn with_advice(self, column: int, row: int, value: Option<nat>) -> Trace {
        Trace {
            rows: self.rows.update(
                row,
                RowView {
                    advice: self.rows[row].advice.update(column, Some(value)),
                    ..self.rows[row]
                },
            ),
            ..self
        }
    }

    /// The trace with one more copy constraint.
    pub open spec fn with_copy(self, left: Cell, right: Cell) -> Trace {
        Trace { copies: self.copies.push(CopyConstraint { left, right }), ..self }
    }

    /// The trace with one more cell in the constants column.
    pub open spec fn with_constant(self, constant: nat) -> Trace {
        Trace { constants: self.constants.push(constant), ..self }
    }

    /// The shape that every trace keeps: rows as wide as the constraint
    /// system, no more rows than may be used, every number below the
    /// modulus, and no unknown value outside a key-only pass.
    pub open spec fn wf(self) -> bool {
        &&& self.cs.wf()
        &&& self.cs.num_instance() == 1
        &&& self.usable_rows <= usize::MAX
        &&& self.rows.len() <= self.usable_rows
        &&& self.constants.len() <= self.usable_rows
        &&& self.constants.len() > 0 ==> self.cs.constant_columns().len() > 0
        &&& forall|r: int|
            0 <= r < self.rows.len() ==> (#[trigger] self.rows[r]).advice.len()
                == self.cs.num_advice() && self.rows[r].selectors.len() == self.cs.num_selector()
        &&& forall|r: int, c: int|
            0 <= r < self.rows.len() && 0 <= c < self.rows[r].advice.len() ==> (match (
            #[trigger] self.rows[r].advice[c]) {
                Some(Some(v)) => v < modulus(),
                Some(None) => self.key_only(),
                None => true,
            })
        &&& forall|i: int| 0 <= i < self.constants.len() ==> #[trigger] self.constants[i] < modulus()
        &&& match self.instance {
            Some(v) => v.len() <= self.usable_rows && forall|i: int|
                0 <= i < v.len() ==> #[trigger] v[i] < modulus(),
            None => true,
        }
    }

    /// The advice cell lies in an opened row and an allocated column.
    pub open spec fn has_advice(self, column: int, row: int) -> bool {
        0 <= row < self.rows.len() && 0 <= column < self.cs.num_advice()
    }

    /// Copy constraints may touch the column.
    pub open spec fn permits(self, column: Column) -> bool {
        self.cs.equality_columns().contains(column)
    }

    /// Why an advice cell cannot be assigned, whatever the value: it does
    /// not exist, or it is taken.
    pub open spec fn advice_refusal(self, column: int, row: int) -> Option<Error> {
        if !self.has_advice(column, row) {
            Some(Error::BoundsFailure)
        } else if self.rows[row].advice[column].is_some() {
            Some(Error::Synthesis)
        } else {
            None
        }
    }

    /// Why a value cannot be assigned to an advice cell: as before, or the
    /// value is unknown in a pass that needs it.
    pub open spec fn assign_refusal(self, column: int, row: int, value: Option<nat>) -> Option<
        Error,
    > {
        match self.advice_refusal(column, row) {
            Some(e) => Some(e),
            None => if !self.key_only() && value.is_none() {
                Some(Error::Synthesis)
            } else {
                None
            },
        }
    }

    /// Why a constant cannot be assigned to an advice cell.
    pub open spec fn constant_refusal(self, column: int, row: int) -> Option<Error> {
        match self.advice_refusal(column, row) {
            Some(e) => Some(e),
            None => if self.cs.constant_columns().len() == 0 {
                Some(Error::NotEnoughColumnsForConstants)
            } else if self.constants.len() >= self.usable_rows {
                Some(Error::NotEnoughRowsAvailable)
            } else if !self.permits(Column::Advice(column as usize)) {
                Some(Error::ColumnNotInPermutation(Column::Advice(column as usize)))
            } else {
                None
            },
        }
    }

    /// Why a public input cannot be copied into an advice cell.
    pub open spec fn instance_refusal(self, instance: int, slot: int, column: int, row: int) -> Option<
        Error,
    > {
        if slot >= self.usable_rows {
            Some(Error::NotEnoughRowsAvailable)
        } else if instance != 0 {
            Some(Error::BoundsFailure)
        } else {
            match self.advice_refusal(column, row) {
                Some(e) => Some(e),
                None => if !self.permits(Column::Advice(column as usize)) {
                    Some(Error::ColumnNotInPermutation(Column::Advice(column as usize)))
                } else if !self.permits(Column::Instance(0)) {
                    Some(Error::ColumnNotInPermutation(Column::Instance(0)))
                } else {
                    None
                },
            }
        }
    }

    /// Why a cell cannot be copied into an advice cell: the target does not
    /// exist, is taken or is closed to copy constraints, or the source
    /// cannot be copied from.
    pub open spec fn copy_refusal(self, source: Cell, value: Option<nat>, column: int, row: int) -> Option<
        Error,
    > {
        match self.advice_refusal(column, row) {
            Some(e) => Some(e),
            None => if !self.permits(Column::Advice(column as usize)) {
                Some(Error::ColumnNotInPermutation(Column::Advice(column as usize)))
            } else {
                self.source_refusal(source, value)
            },
        }
    }

    /// Why a cell cannot be tied to a slot of the public inputs.
    pub open spec fn bind_refusal(self, cell: Cell, instance: int, slot: int) -> Option<Error> {
        if cell.row >= self.usable_rows || slot >= self.usable_rows {
            Some(Error::NotEnoughRowsAvailable)
        } else if !self.permits(cell.column) {
            Some(Error::ColumnNotInPermutation(cell.column))
        } else if !self.permits(Column::Instance(instance as usize)) {
            Some(Error::ColumnNotInPermutation(Column::Instance(instance as usize)))
        } else {
            None
        }
    }

    /// Why a cell cannot be copied from: it does not hold the value that
    /// is said to be in it, or its column is closed to copy constraints.
    pub open spec fn source_refusal(self, source: Cell, value: Option<nat>) -> Option<Error> {
        if self.value_at(source) != Some(value) {
            Some(Error::Synthesis)
        } else if !self.permits(source.column) {
            Some(Error::ColumnNotInPermutation(source.column))
        } else {
            None
        }
    }

    /// Whether a cell of the public inputs holds what an assigned cell
    /// holds.
    pub open spec fn bound(self, cell: Cell, slot: int) -> bool {
        self.copy_holds(
            CopyConstraint {
                left: cell,
                right: Cell { column: Column::Instance(0), row: slot as usize },
            },
        )
    }

    /// The cell of the constants column at a row.
    pub open spec fn constant_cell(self, row: int) -> Cell {
        Cell { column: Column::Fixed(self.cs.constant_columns()[0].index), row: row as usize }
    }

    /// The trace after a constant was assigned to an advice cell: the cell
    /// holds it, the constants column holds it in its next row, and a copy
    /// constraint ties the two.
    pub open spec fn after_constant(self, column: int, row: int, constant: nat) -> Trace {
        self.with_advice(column, row, Some(constant)).with_constant(constant).with_copy(
            self.constant_cell(self.constants.len() as int),
            Cell { column: Column::Advice(column as usize), row: row as usize },
        )
    }

    /// The trace after a public input was copied into an advice cell: the
    /// cell holds what the slot holds, and a copy constraint ties the two.
    pub open spec fn after_instance(self, slot: int, column: int, row: int) -> Trace {
        self.with_advice(column, row, self.instance_value(slot)).with_copy(
            Cell { column: Column::Advice(column as usize), row: row as usize },
            Cell { column: Column::Instance(0), row: slot as usize },
        )
    }

    /// The trace after a cell was copied into an advice cell: the new cell
    /// holds the value that came with the source, and a copy constraint
    /// ties the two.
    pub open spec fn after_copy(self, source: Cell, value: Option<nat>, column: int, row: int) -> Trace {
        self.with_advice(column, row, value).with_copy(
            Cell { column: Column::Advice(column as usize), row: row as usize },
            source,
        )
    }
}

} // verus!
