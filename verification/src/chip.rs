//! The chip that multiplies a running value by a fixed factor, one row per
//! multiplication.

use crate::constraint_system::{
    AdviceColumn, Column, ConstraintSystem, Expression, FixedColumn, Gate, InstanceColumn,
    Selector,
};
use crate::error::Error;
use crate::field::{mul_mod, FieldElement};
use crate::layouter::{AssignedCell, Layouter};
use crate::trace::{Cell, Trace};
use vstd::prelude::*;

verus! {

/// Where row 0 takes its left operand from.
#[derive(Clone, Copy, Debug, PartialEq, Eq, Structural)]
pub enum Bootstrap {
    /// The constant 1, tied to a cell of the constants column.
    Constant,
    /// Slot 0 of the public inputs; the factor then stands in slot 1.
    Instance,
}

/// The columns of the chip.
#[derive(Clone, Copy, Debug)]
pub struct PowerByNumConfig {
    /// Left operand.
    pub col_a: AdviceColumn,
    /// Right operand.
    pub col_b: AdviceColumn,
    /// Product.
    pub col_c: AdviceColumn,
    pub selector: Selector,
    pub instance: InstanceColumn,
    /// The column of constants, where the chain starts from the constant 1.
    pub constant: Option<FixedColumn>,
}

impl PowerByNumConfig {
    /// `selector * (col_a * col_b - col_c)`.
    pub open spec fn mul_gate(&self) -> Expression {
        Expression::Product(
            Box::new(Expression::Selector(self.selector)),
            Box::new(
                Expression::Sum(
                    Box::new(
                        Expression::Product(
                            Box::new(Expression::Advice(self.col_a)),
                            Box::new(Expression::Advice(self.col_b)),
                        ),
                    ),
                    Box::new(Expression::Negated(Box::new(Expression::Advice(self.col_c)))),
                ),
            ),
        )
    }

    /// Which source of row 0's left operand the columns were laid out for.
    pub open spec fn bootstrap(&self) -> Bootstrap {
        if self.constant.is_some() {
            Bootstrap::Constant
        } else {
            Bootstrap::Instance
        }
    }

    /// The columns are those that `configure` hands out on a constraint
    /// system with the given counts.
    pub open spec fn allocated_at(
        &self,
        advice: nat,
        fixed: nat,
        instance: nat,
        selector: nat,
        bootstrap: Bootstrap,
    ) -> bool {
        &&& self.col_a.index == advice
        &&& self.col_b.index == advice + 1
        &&& self.col_c.index == advice + 2
        &&& self.selector.index == selector
        &&& self.instance.index == instance
        &&& self.constant == match bootstrap {
            Bootstrap::Constant => Some(FixedColumn { index: fixed as usize }),
            Bootstrap::Instance => None,
        }
    }

    /// The columns that `configure` opens to copy constraints, in order.
    pub open spec fn equality_columns(&self) -> Seq<Column> {
        let shared = seq![
            Column::Advice(self.col_a.index),
            Column::Advice(self.col_b.index),
            Column::Advice(self.col_c.index),
            Column::Instance(self.instance.index),
        ];
        match self.constant {
            Some(f) => shared.push(Column::Fixed(f.index)),
            None => shared,
        }
    }
}

/// The product of two values, known where both are.
pub open spec fn product(a: Option<nat>, b: Option<nat>) -> Option<nat> {
    match (a, b) {
        (Some(x), Some(y)) => Some(mul_mod(x, y)),
        _ => None,
    }
}

impl PowerByNumConfig {
    /// The constraint system has the chip's columns, distinct and open to
    /// copy constraints, and its constants column where the chain starts
    /// from a constant.
    pub open spec fn fits(&self, cs: ConstraintSystem) -> bool {
        &&& self.col_a.index < cs.num_advice()
        &&& self.col_b.index < cs.num_advice()
        &&& self.col_c.index < cs.num_advice()
        &&& self.col_a.index != self.col_b.index
        &&& self.col_a.index != self.col_c.index
        &&& self.col_b.index != self.col_c.index
        &&& self.selector.index < cs.num_selector()
        &&& self.instance.index == 0
        &&& cs.equality_columns().contains(Column::Advice(self.col_a.index))
        &&& cs.equality_columns().contains(Column::Advice(self.col_b.index))
        &&& cs.equality_columns().contains(Column::Advice(self.col_c.index))
        &&& cs.equality_columns().contains(Column::Instance(0))
        &&& self.constant matches Some(f) ==> cs.constant_columns().len() > 0
            && cs.constant_columns()[0] == f
    }

    /// The slot of the public inputs that holds the factor.
    pub open spec fn factor_slot(&self) -> int {
        match self.constant {
            Some(_) => 0,
            None => 1,
        }
    }

    /// What row 0 of a chain takes as its left operand.
    pub open spec fn first_operand(&self, t: Trace) -> Option<nat> {
        match self.constant {
            Some(_) => Some(1nat),
            None => t.instance_value(0),
        }
    }

    /// The cell of one of the chip's columns at a row.
    pub open spec fn cell(column: AdviceColumn, row: int) -> Cell {
        Cell { column: Column::Advice(column.index), row: row as usize }
    }

    /// Whether a chain can start on the trace: a row is free, and so is
    /// what the first operand needs.
    pub open spec fn can_start(&self, t: Trace) -> bool {
        &&& t.rows.len() < t.usable_rows
        &&& match self.constant {
            Some(_) => t.constants.len() < t.usable_rows,
            None => 1 < t.usable_rows,
        }
    }

    /// The trace after the first row of a chain: the next row is opened with
    /// the selector on, its left cell holds the first operand, its right
    /// cell the factor, both tied to where they came from, and its product
    /// cell holds their product.
    pub open spec fn after_initial(&self, t: Trace) -> Trace {
        let row = t.rows.len() as int;
        let opened = t.with_row().with_selector(self.selector.index as int, row);
        let left = match self.constant {
            Some(_) => opened.after_constant(self.col_a.index as int, row, 1),
            None => opened.after_instance(0, self.col_a.index as int, row),
        };
        let right = left.after_instance(self.factor_slot(), self.col_b.index as int, row);
        right.with_advice(
            self.col_c.index as int,
            row,
            product(self.first_operand(t), t.instance_value(self.factor_slot())),
        )
    }

    /// Why a chain cannot go on from the given cells: no row is free, or
    /// one of the cells cannot be copied.
    pub open spec fn step_refusal(
        &self,
        t: Trace,
        prev_b: AssignedCell,
        prev_c: AssignedCell,
    ) -> Option<Error> {
        if t.rows.len() >= t.usable_rows {
            Some(Error::NotEnoughRowsAvailable)
        } else {
            match t.source_refusal(prev_c.cell, prev_c.value@) {
                Some(e) => Some(e),
                None => t.source_refusal(prev_b.cell, prev_b.value@),
            }
        }
    }

    /// The trace after one more row of a chain: the next row is opened with
    /// the selector on, its left cell is a copy of the previous product, its
    /// right cell a copy of the previous factor, and its product cell holds
    /// their product.
    pub open spec fn after_step(
        &self,
        t: Trace,
        prev_b: Cell,
        b: Option<nat>,
        prev_c: Cell,
        c: Option<nat>,
    ) -> Trace {
        let row = t.rows.len() as int;
        t.with_row().with_selector(self.selector.index as int, row).after_copy(
            prev_c,
            c,
            self.col_a.index as int,
            row,
        ).after_copy(prev_b, b, self.col_b.index as int, row).with_advice(
            self.col_c.index as int,
            row,
            product(b, c),
        )
    }

    /// Whether the columns fit the constraint system.
    pub fn check_fits(&self, cs: &ConstraintSystem) -> (ok: bool)
        ensures
            ok == self.fits(*cs),
    {
        let columns_ok = self.col_a.index < cs.advice_count() && self.col_b.index
            < cs.advice_count() && self.col_c.index < cs.advice_count() && self.col_a.index
            != self.col_b.index && self.col_a.index != self.col_c.index && self.col_b.index
            != self.col_c.index && self.selector.index < cs.selector_count()
            && self.instance.index == 0;
        let equality_ok = cs.has_equality(self.col_a.any()) && cs.has_equality(self.col_b.any())
            && cs.has_equality(self.col_c.any()) && cs.has_equality(self.instance.any());
        let constant_ok = match self.constant {
            None => true,
            Some(f) => match cs.constants_column() {
                None => false,
                Some(first) => first == f,
            },
        };
        columns_ok && equality_ok && constant_ok
    }
}

/// The multiplication chip.
#[derive(Clone, Copy, Debug)]
pub struct PowerByNumChip {
    config: PowerByNumConfig,
}

impl PowerByNumChip {
    /// The columns that the chip works on.
    pub closed spec fn config(&self) -> PowerByNumConfig {
        self.config
    }

    /// A chip over the given columns.
    pub fn construct(config: PowerByNumConfig) -> (chip: Self)
        ensures
            chip.config() == config,
    {
        Self { config }
    }

    /// Declares the chip on a constraint system: three fresh advice columns,
    /// a selector, an instance column and, where the chain starts from a
    /// constant, a constants column; all value columns open to copy
    /// constraints; and the one gate `selector * (a * b - c)`.
    pub fn configure(meta: &mut ConstraintSystem, bootstrap: Bootstrap) -> (config:
        PowerByNumConfig)
        requires
            old(meta).wf(),
            old(meta).num_advice() + 3 <= usize::MAX,
            old(meta).num_fixed() < usize::MAX,
            old(meta).num_instance() < usize::MAX,
            old(meta).num_selector() < usize::MAX,
        ensures
            final(meta).wf(),
            config.allocated_at(
                old(meta).num_advice(),
                old(meta).num_fixed(),
                old(meta).num_instance(),
                old(meta).num_selector(),
                bootstrap,
            ),
            final(meta).num_advice() == old(meta).num_advice() + 3,
            final(meta).num_selector() == old(meta).num_selector() + 1,
            final(meta).num_instance() == old(meta).num_instance() + 1,
            final(meta).num_fixed() == old(meta).num_fixed() + match bootstrap {
                Bootstrap::Constant => 1nat,
                Bootstrap::Instance => 0nat,
            },
            final(meta).equality_columns() == old(meta).equality_columns()
                + config.equality_columns(),
            final(meta).constant_columns() == match config.constant {
                Some(f) => old(meta).constant_columns().push(f),
                None => old(meta).constant_columns(),
            },
            final(meta).gate_list() == old(meta).gate_list().push(
                (Gate { name: "mul", poly: config.mul_gate() }),
            ),
    {
        let col_a = meta.advice_column();
        let col_b = meta.advice_column();
        let col_c = meta.advice_column();
        let selector = meta.selector();
        let instance = meta.instance_column();
        let constant = match bootstrap {
            Bootstrap::Constant => Some(meta.fixed_column()),
            Bootstrap::Instance => None,
        };

        meta.enable_equality(col_a.any());
        meta.enable_equality(col_b.any());
        meta.enable_equality(col_c.any());
        meta.enable_equality(instance.any());
        match constant {
            Some(f) => {
                meta.enable_constant(f);
            },
            None => {},
        }

        let config = PowerByNumConfig { col_a, col_b, col_c, selector, instance, constant };
        let a = Expression::Advice(col_a);
        let b = Expression::Advice(col_b);
        let c = Expression::Advice(col_c);
        let s = Expression::Selector(selector);
        let poly = Expression::product(s, Expression::difference(Expression::product(a, b), c));
        proof {
            assert(poly == config.mul_gate());
            assert(poly.within(meta.num_selector(), meta.num_advice())) by {
                reveal_with_fuel(Expression::within, 5);
            }
        }
        meta.create_gate("mul", poly);

        proof {
            assert(final(meta).equality_columns() =~= old(meta).equality_columns()
                + config.equality_columns());
        }
        config
    }

    /// Lays out row 0 of a chain in the next free row: left operand times
    /// factor. The left operand is the constant 1 or slot 0 of the public
    /// inputs; the factor is the next slot. A call that fails leaves the
    /// trace as it was.
    pub fn intial_assign(&self, layouter: &mut Layouter) -> (r: Result<
        (AssignedCell, AssignedCell, AssignedCell),
        Error,
    >)
        requires
            old(layouter).wf(),
            self.config().fits(old(layouter)@.cs),
        ensures
            final(layouter).wf(),
            old(layouter)@.copies_consistent() ==> final(layouter)@.copies_consistent(),
            match r {
                Ok((a, b, c)) => {
                    let row = old(layouter)@.rows.len() as int;
                    &&& self.config().can_start(old(layouter)@)
                    &&& final(layouter)@ == self.config().after_initial(old(layouter)@)
                    &&& a.cell == PowerByNumConfig::cell(self.config().col_a, row)
                    &&& b.cell == PowerByNumConfig::cell(self.config().col_b, row)
                    &&& c.cell == PowerByNumConfig::cell(self.config().col_c, row)
                    &&& a.value.wf() && b.value.wf() && c.value.wf()
                    &&& a.value@ == self.config().first_operand(old(layouter)@)
                    &&& b.value@ == old(layouter)@.instance_value(self.config().factor_slot())
                    &&& c.value@ == product(a.value@, b.value@)
                },
                Err(e) => {
                    &&& e == Error::NotEnoughRowsAvailable
                    &&& !self.config().can_start(old(layouter)@)
                    &&& final(layouter)@ == old(layouter)@
                },
            },
    {
        proof {
            layouter.lemma_wf();
        }
        // Refuse before touching the trace, so that a failed call leaves it as it was.
        let short = match self.config.constant {
            Some(_) => layouter.constant_count() >= layouter.usable_rows(),
            None => layouter.usable_rows() <= 1,
        };
        if layouter.row_count() >= layouter.usable_rows() || short {
            return Err(Error::NotEnoughRowsAvailable);
        }
        let row = match layouter.open_region() {
            Ok(row) => row,
            Err(e) => {
                return Err(e);
            },
        };
        match layouter.enable_selector(self.config.selector, row) {
            Ok(()) => {},
            Err(e) => {
                return Err(e);
            },
        }
        let assigned_a = match self.config.constant {
            Some(_) => layouter.assign_advice_from_constant(
                self.config.col_a,
                row,
                FieldElement::one(),
            ),
            None => layouter.assign_advice_from_instance(
                self.config.instance,
                0,
                self.config.col_a,
                row,
            ),
        };
        let init_a = match assigned_a {
            Ok(cell) => cell,
            Err(e) => {
                return Err(e);
            },
        };
        let slot: usize = match self.config.constant {
            Some(_) => 0,
            None => 1,
        };
        let init_b = match layouter.assign_advice_from_instance(
            self.config.instance,
            slot,
            self.config.col_b,
            row,
        ) {
            Ok(cell) => cell,
            Err(e) => {
                return Err(e);
            },
        };
        let init_c = match layouter.assign_advice(
            self.config.col_c,
            row,
            init_a.value.mul(&init_b.value),
        ) {
            Ok(cell) => cell,
            Err(e) => {
                return Err(e);
            },
        };
        Ok((init_a, init_b, init_c))
    }

    /// Lays out the next row of a chain: previous product times previous
    /// factor, both copied from the cells given, which must hold the values
    /// that come with them. A call that fails leaves the trace as it was.
    pub fn subsequent_assign(
        &self,
        layouter: &mut Layouter,
        prev_b: &AssignedCell,
        prev_c: &AssignedCell,
    ) -> (r: Result<AssignedCell, Error>)
        requires
            old(layouter).wf(),
            self.config().fits(old(layouter)@.cs),
            prev_b.value.wf(),
            prev_c.value.wf(),
        ensures
            final(layouter).wf(),
            old(layouter)@.copies_consistent() ==> final(layouter)@.copies_consistent(),
            match r {
                Ok(c) => {
                    &&& self.config().step_refusal(old(layouter)@, *prev_b, *prev_c).is_none()
                    &&& final(layouter)@ == self.config().after_step(
                        old(layouter)@,
                        prev_b.cell,
                        prev_b.value@,
                        prev_c.cell,
                        prev_c.value@,
                    )
                    &&& c.cell == PowerByNumConfig::cell(
                        self.config().col_c,
                        old(layouter)@.rows.len() as int,
                    )
                    &&& c.value.wf()
                    &&& c.value@ == product(prev_b.value@, prev_c.value@)
                },
                Err(e) => {
                    &&& self.config().step_refusal(old(layouter)@, *prev_b, *prev_c) == Some(e)
                    &&& final(layouter)@ == old(layouter)@
                },
            },
    {
        proof {
            layouter.lemma_wf();
        }
        // Refuse before touching the trace, so that a failed call leaves it as it was.
        if layouter.row_count() >= layouter.usable_rows() {
            return Err(Error::NotEnoughRowsAvailable);
        }
        match layouter.check_source(prev_c) {
            Some(e) => {
                return Err(e);
            },
            None => {},
        }
        match layouter.check_source(prev_b) {
            Some(e) => {
                return Err(e);
            },
            None => {},
        }
        let row = match layouter.open_region() {
            Ok(row) => row,
            Err(e) => {
                return Err(e);
            },
        };
        match layouter.enable_selector(self.config.selector, row) {
            Ok(()) => {},
            Err(e) => {
                return Err(e);
            },
        }
        match layouter.copy_advice(prev_c, self.config.col_a, row) {
            Ok(_) => {},
            Err(e) => {
                return Err(e);
            },
        }
        match layouter.copy_advice(prev_b, self.config.col_b, row) {
            Ok(_) => {},
            Err(e) => {
                return Err(e);
            },
        }
        let res_c = match layouter.assign_advice(
            self.config.col_c,
            row,
            prev_b.value.mul(&prev_c.value),
        ) {
            Ok(cell) => cell,
            Err(e) => {
                return Err(e);
            },
        };
        Ok(res_c)
    }

    /// Ties a cell to a slot of the public inputs. The tie is declared
    /// whatever the two hold: whether it holds is what a proof is about.
    pub fn expose_public(&self, layouter: &mut Layouter, cell: &AssignedCell, row: usize) -> (r:
        Result<(), Error>)
        requires
            old(layouter).wf(),
        ensures
            final(layouter).wf(),
            r.is_ok() ==> ({
                let before = old(layouter)@;
                final(layouter)@.copies_consistent() <==> before.copies_consistent()
                    && before.bound(cell.cell, row as int)
            }),
            match r {
                Ok(()) => {
                    &&& old(layouter)@.bind_refusal(
                        cell.cell,
                        self.config().instance.index as int,
                        row as int,
                    ).is_none()
                    &&& final(layouter)@ == old(layouter)@.with_copy(
                        cell.cell,
                        Cell { column: Column::Instance(self.config().instance.index), row },
                    )
                },
                Err(e) => {
                    &&& old(layouter)@.bind_refusal(
                        cell.cell,
                        self.config().instance.index as int,
                        row as int,
                    ) == Some(e)
                    &&& final(layouter)@ == old(layouter)@
                },
            },
    {
        layouter.constrain_instance(cell.cell, self.config.instance, row)
    }
}

} // verus!
