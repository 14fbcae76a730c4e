//! The witness trace as it is built: rows are opened one by one, cells are
//! assigned once, and copy constraints are recorded as they are declared.

use crate::constraint_system::{
    slot_known, slot_values, slots_wf, AdviceColumn, Column, ConstraintSystem, Gate,
    InstanceColumn, Selector,
};
use crate::error::Error;
use crate::field::FieldElement;
use crate::trace::{Cell, CopyConstraint, RowView, Trace};
use crate::value::Value;
use vstd::prelude::*;

verus! {

/// A cell together with the value that was assigned to it.
#[derive(Clone, Copy, Debug)]
pub struct AssignedCell {
    pub cell: Cell,
    pub value: Value,
}

/// What an advice cell holds, as the model sees it.
pub open spec fn slot_view(slot: Option<Value>) -> Option<Option<nat>> {
    match slot {
        None => None,
        Some(v) => Some(v@),
    }
}

/// The numbers that field elements stand for.
pub open spec fn field_values(elements: Seq<FieldElement>) -> Seq<nat> {
    elements.map_values(|f: FieldElement| f.value())
}

/// The numbers of the public inputs, where there are any.
pub open spec fn instance_view(instance: Option<Vec<FieldElement>>) -> Option<Seq<nat>> {
    match instance {
        Some(v) => Some(field_values(v@)),
        None => None,
    }
}

/// Every element is canonical.
pub open spec fn all_wf(elements: Seq<FieldElement>) -> bool {
    forall|i: int| 0 <= i < elements.len() ==> (#[trigger] elements[i]).wf()
}

struct Row {
    advice: Vec<Option<Value>>,
    selectors: Vec<bool>,
}

impl Row {
    spec fn view(&self) -> RowView {
        RowView {
            advice: self.advice@.map_values(|s: Option<Value>| slot_view(s)),
            selectors: self.selectors@,
        }
    }

    spec fn wf(&self) -> bool {
        forall|i: int|
            0 <= i < self.advice.len() ==> (match #[trigger] self.advice[i] {
                Some(v) => v.wf(),
                None => true,
            })
    }

    /// Whether the row meets a gate.
    fn meets(&self, gate: &Gate) -> (ok: bool)
        requires
            self.wf(),
        ensures
            ok == self.view().meets(*gate),
    {
        proof {
            assert(self.view().values() =~= slot_values(self.advice@));
            assert(self.view().known() =~= slot_known(self.advice@));
            assert(slots_wf(self.advice@));
        }
        if gate.poly.is_active(&self.selectors) && !gate.poly.is_supplied(&self.advice) {
            return false;
        }
        let zero = FieldElement::zero();
        gate.poly.evaluate(&self.selectors, &self.advice).equals(&zero)
    }

    fn blank(num_advice: usize, num_selectors: usize) -> (row: Row)
        ensures
            row.wf(),
            row.view() == RowView::blank(num_advice as nat, num_selectors as nat),
    {
        let mut advice: Vec<Option<Value>> = Vec::new();
        let mut i: usize = 0;
        while i < num_advice
            invariant
                i <= num_advice,
                advice.len() == i,
                forall|j: int| 0 <= j < i ==> advice[j] == None::<Value>,
            decreases num_advice - i,
        {
            advice.push(None);
            i += 1;
        }
        let mut selectors: Vec<bool> = Vec::new();
        let mut k: usize = 0;
        while k < num_selectors
            invariant
                k <= num_selectors,
                selectors.len() == k,
                forall|j: int| 0 <= j < k ==> !selectors[j],
            decreases num_selectors - k,
        {
            selectors.push(false);
            k += 1;
        }
        let row = Row { advice, selectors };
        proof {
            let target = RowView::blank(num_advice as nat, num_selectors as nat);
            assert(row.view().advice =~= target.advice);
            assert(row.view().selectors =~= target.selectors);
        }
        row
    }
}

/// A witness trace under construction, over a fixed constraint system.
pub struct Layouter {
    cs: ConstraintSystem,
    usable_rows: usize,
    instance: Option<Vec<FieldElement>>,
    rows: Vec<Row>,
    constants: Vec<FieldElement>,
    copies: Vec<CopyConstraint>,
}

impl View for Layouter {
    type V = Trace;

    closed spec fn view(&self) -> Trace {
        Trace {
            cs: self.cs,
            usable_rows: self.usable_rows as nat,
            instance: instance_view(self.instance),
            rows: self.rows@.map_values(|r: Row| r.view()),
            constants: field_values(self.constants@),
            copies: self.copies@,
        }
    }
}

impl Layouter {
    /// The trace is well formed, and so is every field element in it.
    pub closed spec fn wf(&self) -> bool {
        &&& self@.wf()
        &&& forall|r: int| 0 <= r < self.rows.len() ==> (#[trigger] self.rows[r]).wf()
        &&& all_wf(self.constants@)
        &&& match self.instance {
            Some(v) => all_wf(v@),
            None => true,
        }
    }

    /// What `wf` says of the model.
    pub proof fn lemma_wf(&self)
        requires
            self.wf(),
        ensures
            self@.wf(),
    {
    }

    /// An empty trace over a constraint system with one instance column.
    /// `instance` holds the public inputs, or `None` for a pass that only
    /// fixes the shape of the circuit.
    pub fn new(cs: ConstraintSystem, usable_rows: usize, instance: Option<Vec<FieldElement>>) -> (r:
        Result<Layouter, Error>)
        requires
            cs.wf(),
            instance matches Some(v) ==> all_wf(v@),
        ensures
            match r {
                Ok(layouter) => {
                    &&& layouter.wf()
                    &&& layouter@ == Trace::empty(cs, usable_rows as nat, instance_view(instance))
                    &&& cs.num_instance() == 1
                    &&& instance matches Some(v) ==> v.len() <= usable_rows
                },
                Err(e) => if cs.num_instance() != 1 {
                    e == Error::InvalidInstances
                } else {
                    &&& e == Error::InstanceTooLarge
                    &&& instance matches Some(v) && v.len() > usable_rows
                },
            },
    {
        if cs.instance_count() != 1 {
            return Err(Error::InvalidInstances);
        }
        match &instance {
            Some(v) => {
                if v.len() > usable_rows {
                    return Err(Error::InstanceTooLarge);
                }
            },
            None => {},
        }
        let layouter = Layouter {
            cs,
            usable_rows,
            instance,
            rows: Vec::new(),
            constants: Vec::new(),
            copies: Vec::new(),
        };
        proof {
            let target = Trace::empty(cs, usable_rows as nat, instance_view(instance));
            assert(layouter@.rows =~= target.rows);
            assert(layouter@.constants =~= target.constants);
            assert(layouter@.copies =~= target.copies);
        }
        Ok(layouter)
    }

    /// The constraint system that the trace is laid out for.
    pub fn constraint_system(&self) -> (cs: &ConstraintSystem)
        ensures
            *cs == self@.cs,
    {
        &self.cs
    }

    /// The number of rows opened so far.
    pub fn row_count(&self) -> (n: usize)
        ensures
            n == self@.rows.len(),
    {
        self.rows.len()
    }

    /// How many rows may be used.
    pub fn usable_rows(&self) -> (n: usize)
        ensures
            n == self@.usable_rows,
    {
        self.usable_rows
    }

    /// The number of cells taken in the constants column.
    pub fn constant_count(&self) -> (n: usize)
        ensures
            n == self@.constants.len(),
    {
        self.constants.len()
    }

    /// Whether the pass only fixes the shape of the circuit.
    pub fn is_key_only(&self) -> (k: bool)
        ensures
            k == self@.key_only(),
    {
        self.instance.is_none()
    }

    /// Opens the next row, blank. There is none once all usable rows are
    /// taken.
    pub fn open_region(&mut self) -> (r: Result<usize, Error>)
        requires
            old(self).wf(),
        ensures
            final(self).wf(),
            old(self)@.copies_consistent() ==> final(self)@.copies_consistent(),
            match r {
                Ok(row) => {
                    &&& old(self)@.rows.len() < old(self)@.usable_rows
                    &&& row == old(self)@.rows.len()
                    &&& final(self)@ == old(self)@.with_row()
                },
                Err(e) => {
                    &&& e == Error::NotEnoughRowsAvailable
                    &&& old(self)@.rows.len() >= old(self)@.usable_rows
                    &&& final(self)@ == old(self)@
                },
            },
    {
        if self.rows.len() >= self.usable_rows {
            return Err(Error::NotEnoughRowsAvailable);
        }
        let row = self.rows.len();
        let blank = Row::blank(self.cs.advice_count(), self.cs.selector_count());
        self.rows.push(blank);
        proof {
            assert(self@.rows =~= old(self)@.with_row().rows);
        }
        Ok(row)
    }

    /// Enables a selector at an opened row.
    pub fn enable_selector(&mut self, selector: Selector, row: usize) -> (r: Result<(), Error>)
        requires
            old(self).wf(),
        ensures
            final(self).wf(),
            old(self)@.copies_consistent() ==> final(self)@.copies_consistent(),
            match r {
                Ok(()) => {
                    &&& row < old(self)@.rows.len()
                    &&& selector.index < old(self)@.cs.num_selector()
                    &&& final(self)@ == old(self)@.with_selector(selector.index as int, row as int)
                },
                Err(e) => {
                    &&& e == Error::BoundsFailure
                    &&& !(row < old(self)@.rows.len() && selector.index < old(self)@.cs.num_selector())
                    &&& final(self)@ == old(self)@
                },
            },
    {
        if row >= self.rows.len() || selector.index >= self.cs.selector_count() {
            return Err(Error::BoundsFailure);
        }
        self.rows[row].selectors[selector.index] = true;
        proof {
            let target = old(self)@.with_selector(selector.index as int, row as int);
            assert(self.rows[row as int].view().advice =~= target.rows[row as int].advice);
            assert(self@.rows =~= target.rows);
        }
        Ok(())
    }

    /// The refusal that holds whatever value is assigned to the cell.
    fn check_advice(&self, column: AdviceColumn, row: usize) -> (r: Option<Error>)
        requires
            self.wf(),
        ensures
            r == self@.advice_refusal(column.index as int, row as int),
    {
        if row >= self.rows.len() || column.index >= self.cs.advice_count() {
            return Some(Error::BoundsFailure);
        }
        if self.rows[row].advice[column.index].is_some() {
            return Some(Error::Synthesis);
        }
        None
    }

    /// Stores a value in a free advice cell.
    fn put(&mut self, column: usize, row: usize, value: Value)
        requires
            old(self).wf(),
            old(self)@.advice_refusal(column as int, row as int).is_none(),
            value.wf(),
            value@.is_none() ==> old(self)@.key_only(),
        ensures
            final(self).wf(),
            old(self)@.copies_consistent() ==> final(self)@.copies_consistent(),
            forall|cell: Cell|
                old(self)@.value_at(cell).is_some() ==> #[trigger] final(self)@.value_at(cell)
                    == old(self)@.value_at(cell),
            final(self)@ == old(self)@.with_advice(column as int, row as int, value@),
    {
        self.rows[row].advice[column] = Some(value);
        proof {
            let target = old(self)@.with_advice(column as int, row as int, value@);
            assert(self.rows[row as int].view().advice =~= target.rows[row as int].advice);
            assert(self@.rows =~= target.rows);
            assert(self@ == target);
            assert forall|r: int| 0 <= r < self.rows.len() implies (
            #[trigger] self.rows[r]).wf() by {
                if r != row {
                    assert(self.rows[r] == old(self).rows[r]);
                }
            }
            assert forall|r: int, c: int|
                0 <= r < target.rows.len() && 0 <= c < target.rows[r].advice.len() implies (match (
                #[trigger] target.rows[r].advice[c]) {
                    Some(Some(v)) => v < crate::field::modulus(),
                    Some(None) => target.key_only(),
                    None => true,
                }) by {
                if r != row || c != column {
                    assert(target.rows[r].advice[c] == old(self)@.rows[r].advice[c]);
                }
            }
        }
    }

    /// Records a copy constraint.
    fn tie(&mut self, left: Cell, right: Cell)
        requires
            old(self).wf(),
        ensures
            final(self).wf(),
            final(self)@ == old(self)@.with_copy(left, right),
    {
        self.copies.push(CopyConstraint { left, right });
        proof {
            assert(self@.rows =~= old(self)@.rows);
        }
    }

    /// What the instance column holds at a slot.
    fn query_instance(&self, slot: usize) -> (v: Value)
        requires
            self.wf(),
        ensures
            v.wf(),
            v@ == self@.instance_value(slot as int),
    {
        match &self.instance {
            None => Value::Unknown,
            Some(inputs) => {
                if slot < inputs.len() {
                    Value::Known(inputs[slot])
                } else {
                    Value::Known(FieldElement::zero())
                }
            },
        }
    }

    /// What a cell holds: `None` where nothing was assigned.
    pub fn value_at(&self, cell: Cell) -> (slot: Option<Value>)
        requires
            self.wf(),
        ensures
            slot_view(slot) == self@.value_at(cell),
            slot matches Some(v) ==> v.wf(),
    {
        match cell.column {
            Column::Advice(c) => {
                if cell.row < self.rows.len() && c < self.rows[cell.row].advice.len() {
                    proof {
                        assert(self.rows[cell.row as int].wf());
                    }
                    self.rows[cell.row].advice[c]
                } else {
                    None
                }
            },
            Column::Fixed(c) => {
                match self.cs.constants_column() {
                    Some(first) => {
                        if first.index == c && cell.row < self.constants.len() {
                            Some(Value::Known(self.constants[cell.row]))
                        } else {
                            None
                        }
                    },
                    None => None,
                }
            },
            Column::Instance(c) => {
                if c == 0 && cell.row < self.usable_rows {
                    Some(self.query_instance(cell.row))
                } else {
                    None
                }
            },
        }
    }

    /// Whether the copy constraint links two assigned cells that hold the
    /// same.
    fn copy_holds(&self, copy: &CopyConstraint) -> (ok: bool)
        requires
            self.wf(),
        ensures
            ok == self@.copy_holds(*copy),
    {
        match (self.value_at(copy.left), self.value_at(copy.right)) {
            (Some(Value::Known(x)), Some(Value::Known(y))) => x.equals(&y),
            (Some(Value::Unknown), Some(Value::Unknown)) => true,
            _ => false,
        }
    }

    /// Whether the trace meets every gate on every row and every copy
    /// constraint.
    pub fn is_satisfied(&self) -> (ok: bool)
        requires
            self.wf(),
        ensures
            ok == self@.satisfied(),
    {
        let mut r: usize = 0;
        while r < self.rows.len()
            invariant
                self.wf(),
                r <= self.rows.len(),
                forall|i: int, g: int|
                    0 <= i < r && 0 <= g < self@.cs.gate_list().len() ==> (
                    #[trigger] self@.rows[i]).meets(#[trigger] self@.cs.gate_list()[g]),
            decreases self.rows.len() - r,
        {
            let gates = self.cs.gates();
            let mut g: usize = 0;
            while g < gates.len()
                invariant
                    self.wf(),
                    r < self.rows.len(),
                    g <= gates.len(),
                    gates@ == self@.cs.gate_list(),
                    forall|j: int| 0 <= j < g ==> self@.rows[r as int].meets(#[trigger] gates@[j]),
                decreases gates.len() - g,
            {
                if !self.rows[r].meets(&gates[g]) {
                    proof {
                        assert(!self@.rows[r as int].meets(self@.cs.gate_list()[g as int]));
                    }
                    return false;
                }
                g += 1;
            }
            r += 1;
        }
        let mut j: usize = 0;
        while j < self.copies.len()
            invariant
                self.wf(),
                j <= self.copies.len(),
                self@.gates_satisfied(),
                forall|i: int| 0 <= i < j ==> self@.copy_holds(#[trigger] self@.copies[i]),
            decreases self.copies.len() - j,
        {
            if !self.copy_holds(&self.copies[j]) {
                proof {
                    assert(!self@.copy_holds(self@.copies[j as int]));
                }
                return false;
            }
            j += 1;
        }
        true
    }

    /// The copy constraints declared so far, in order.
    pub fn copies(&self) -> (c: &Vec<CopyConstraint>)
        ensures
            c@ == self@.copies,
    {
        &self.copies
    }

    /// Whether a selector is enabled at a row; `false` where either does
    /// not exist.
    pub fn selector_enabled(&self, selector: Selector, row: usize) -> (on: bool)
        requires
            self.wf(),
        ensures
            on == (row < self@.rows.len() && selector.index < self@.cs.num_selector()
                && self@.rows[row as int].selectors[selector.index as int]),
    {
        proof {
            if row < self.rows.len() {
                assert(self@.rows[row as int].selectors == self.rows[row as int].selectors@);
                assert(self@.rows[row as int].selectors.len() == self@.cs.num_selector());
            }
        }
        row < self.rows.len() && selector.index < self.rows[row].selectors.len()
            && self.rows[row].selectors[selector.index]
    }

    /// Why the cell cannot be copied from, if it cannot.
    pub fn check_source(&self, source: &AssignedCell) -> (r: Option<Error>)
        requires
            self.wf(),
        ensures
            r == self@.source_refusal(source.cell, source.value@),
    {
        let held = match (self.value_at(source.cell), source.value) {
            (Some(Value::Known(x)), Value::Known(y)) => x.equals(&y),
            (Some(Value::Unknown), Value::Unknown) => true,
            _ => false,
        };
        if !held {
            return Some(Error::Synthesis);
        }
        if !self.cs.has_equality(source.cell.column) {
            return Some(Error::ColumnNotInPermutation(source.cell.column));
        }
        None
    }

    /// Assigns a witness value to a free advice cell of an opened row. An
    /// unknown value is taken only in a key-only pass.
    pub fn assign_advice(&mut self, column: AdviceColumn, row: usize, value: Value) -> (r: Result<
        AssignedCell,
        Error,
    >)
        requires
            old(self).wf(),
            value.wf(),
        ensures
            final(self).wf(),
            old(self)@.copies_consistent() ==> final(self)@.copies_consistent(),
            match r {
                Ok(assigned) => {
                    &&& old(self)@.assign_refusal(column.index as int, row as int, value@).is_none()
                    &&& assigned.cell == Cell { column: Column::Advice(column.index), row }
                    &&& assigned.value == value
                    &&& final(self)@ == old(self)@.with_advice(
                        column.index as int,
                        row as int,
                        value@,
                    )
                },
                Err(e) => {
                    &&& old(self)@.assign_refusal(column.index as int, row as int, value@) == Some(e)
                    &&& final(self)@ == old(self)@
                },
            },
    {
        match self.check_advice(column, row) {
            Some(e) => {
                return Err(e);
            },
            None => {},
        }
        if self.instance.is_some() && !value.is_known() {
            return Err(Error::Synthesis);
        }
        self.put(column.index, row, value);
        Ok(AssignedCell { cell: Cell { column: column.any(), row }, value })
    }

    /// Assigns a constant to a free advice cell: the constant also goes into
    /// the next row of the constants column, and a copy constraint ties the
    /// two cells.
    pub fn assign_advice_from_constant(
        &mut self,
        column: AdviceColumn,
        row: usize,
        constant: FieldElement,
    ) -> (r: Result<AssignedCell, Error>)
        requires
            old(self).wf(),
            constant.wf(),
        ensures
            final(self).wf(),
            old(self)@.copies_consistent() ==> final(self)@.copies_consistent(),
            match r {
                Ok(assigned) => {
                    &&& old(self)@.constant_refusal(column.index as int, row as int).is_none()
                    &&& assigned.cell == Cell { column: Column::Advice(column.index), row }
                    &&& assigned.value == Value::Known(constant)
                    &&& final(self)@ == old(self)@.after_constant(
                        column.index as int,
                        row as int,
                        constant.value(),
                    )
                },
                Err(e) => {
                    &&& old(self)@.constant_refusal(column.index as int, row as int) == Some(e)
                    &&& final(self)@ == old(self)@
                },
            },
    {
        match self.check_advice(column, row) {
            Some(e) => {
                return Err(e);
            },
            None => {},
        }
        let constants_column = match self.cs.constants_column() {
            None => {
                return Err(Error::NotEnoughColumnsForConstants);
            },
            Some(c) => c,
        };
        if self.constants.len() >= self.usable_rows {
            return Err(Error::NotEnoughRowsAvailable);
        }
        if !self.cs.has_equality(column.any()) {
            return Err(Error::ColumnNotInPermutation(column.any()));
        }
        let constant_row = self.constants.len();
        let value = Value::Known(constant);
        let cell = Cell { column: column.any(), row };
        self.put(column.index, row, value);
        self.constants.push(constant);
        proof {
            let mid = old(self)@.with_advice(column.index as int, row as int, value@);
            assert(self@.rows =~= mid.rows);
            assert(self@.constants =~= mid.with_constant(constant.value()).constants);
            assert(self@ == mid.with_constant(constant.value()));
        }
        self.tie(Cell { column: constants_column.any(), row: constant_row }, cell);
        Ok(AssignedCell { cell, value })
    }

    /// Copies a public input into a free advice cell and ties the cell to
    /// the slot it was read from. Past the last public input the instance
    /// column holds 0.
    pub fn assign_advice_from_instance(
        &mut self,
        instance: InstanceColumn,
        slot: usize,
        advice: AdviceColumn,
        row: usize,
    ) -> (r: Result<AssignedCell, Error>)
        requires
            old(self).wf(),
        ensures
            final(self).wf(),
            old(self)@.copies_consistent() ==> final(self)@.copies_consistent(),
            match r {
                Ok(assigned) => {
                    &&& old(self)@.instance_refusal(
                        instance.index as int,
                        slot as int,
                        advice.index as int,
                        row as int,
                    ).is_none()
                    &&& assigned.cell == Cell { column: Column::Advice(advice.index), row }
                    &&& assigned.value.wf()
                    &&& assigned.value@ == old(self)@.instance_value(slot as int)
                    &&& final(self)@ == old(self)@.after_instance(
                        slot as int,
                        advice.index as int,
                        row as int,
                    )
                },
                Err(e) => {
                    &&& old(self)@.instance_refusal(
                        instance.index as int,
                        slot as int,
                        advice.index as int,
                        row as int,
                    ) == Some(e)
                    &&& final(self)@ == old(self)@
                },
            },
    {
        if slot >= self.usable_rows {
            return Err(Error::NotEnoughRowsAvailable);
        }
        if instance.index != 0 {
            return Err(Error::BoundsFailure);
        }
        match self.check_advice(advice, row) {
            Some(e) => {
                return Err(e);
            },
            None => {},
        }
        if !self.cs.has_equality(advice.any()) {
            return Err(Error::ColumnNotInPermutation(advice.any()));
        }
        if !self.cs.has_equality(instance.any()) {
            return Err(Error::ColumnNotInPermutation(instance.any()));
        }
        let value = self.query_instance(slot);
        let cell = Cell { column: advice.any(), row };
        self.put(advice.index, row, value);
        self.tie(cell, Cell { column: instance.any(), row: slot });
        Ok(AssignedCell { cell, value })
    }

    /// Copies an assigned cell into a free advice cell and ties the two.
    /// The source must hold the value that comes with it: no copy
    /// constraint is declared between cells that differ.
    pub fn copy_advice(&mut self, source: &AssignedCell, column: AdviceColumn, row: usize) -> (r:
        Result<AssignedCell, Error>)
        requires
            old(self).wf(),
            source.value.wf(),
        ensures
            final(self).wf(),
            old(self)@.copies_consistent() ==> final(self)@.copies_consistent(),
            match r {
                Ok(assigned) => {
                    &&& old(self)@.copy_refusal(
                        source.cell,
                        source.value@,
                        column.index as int,
                        row as int,
                    ).is_none()
                    &&& assigned.cell == Cell { column: Column::Advice(column.index), row }
                    &&& assigned.value == source.value
                    &&& final(self)@ == old(self)@.after_copy(
                        source.cell,
                        source.value@,
                        column.index as int,
                        row as int,
                    )
                },
                Err(e) => {
                    &&& old(self)@.copy_refusal(
                        source.cell,
                        source.value@,
                        column.index as int,
                        row as int,
                    ) == Some(e)
                    &&& final(self)@ == old(self)@
                },
            },
    {
        match self.check_advice(column, row) {
            Some(e) => {
                return Err(e);
            },
            None => {},
        }
        if !self.cs.has_equality(column.any()) {
            return Err(Error::ColumnNotInPermutation(column.any()));
        }
        match self.check_source(source) {
            Some(e) => {
                return Err(e);
            },
            None => {},
        }
        proof {
            self.lemma_wf();
        }
        let cell = Cell { column: column.any(), row };
        self.put(column.index, row, source.value);
        self.tie(cell, source.cell);
        Ok(AssignedCell { cell, value: source.value })
    }

    /// Ties a cell to a slot of the public inputs.
    pub fn constrain_instance(&mut self, cell: Cell, instance: InstanceColumn, slot: usize) -> (r:
        Result<(), Error>)
        requires
            old(self).wf(),
        ensures
            final(self).wf(),
            r.is_ok() ==> (final(self)@.copies_consistent() <==> old(self)@.copies_consistent()
                && old(self)@.bound(cell, slot as int)),
            match r {
                Ok(()) => {
                    &&& old(self)@.bind_refusal(cell, instance.index as int, slot as int).is_none()
                    &&& final(self)@ == old(self)@.with_copy(
                        cell,
                        Cell { column: Column::Instance(instance.index), row: slot },
                    )
                },
                Err(e) => {
                    &&& old(self)@.bind_refusal(cell, instance.index as int, slot as int) == Some(e)
                    &&& final(self)@ == old(self)@
                },
            },
    {
        if cell.row >= self.usable_rows || slot >= self.usable_rows {
            return Err(Error::NotEnoughRowsAvailable);
        }
        if !self.cs.has_equality(cell.column) {
            return Err(Error::ColumnNotInPermutation(cell.column));
        }
        if !self.cs.has_equality(instance.any()) {
            return Err(Error::ColumnNotInPermutation(instance.any()));
        }
        proof {
            self.lemma_wf();
            let columns = self@.cs.equality_columns();
            let i = choose|i: int|
                0 <= i < columns.len() && columns[i] == Column::Instance(instance.index);
            assert(self@.cs.has_column(columns[i]));
        }
        self.tie(cell, Cell { column: instance.any(), row: slot });
        proof {
            let before = old(self)@;
            let after = self@;
            let last = before.copies.len() as int;
            assert(after.copies[last] == CopyConstraint {
                left: cell,
                right: Cell { column: Column::Instance(0), row: slot },
            });
            assert forall|j: int| 0 <= j < before.copies.len() implies after.copies[j]
                == before.copies[j] && after.copy_holds(after.copies[j]) == before.copy_holds(
                before.copies[j],
            ) by {}
            if after.copies_consistent() {
                assert(after.copy_holds(after.copies[last]));
                assert forall|j: int| 0 <= j < before.copies.len() implies before.copy_holds(
                    #[trigger] before.copies[j],
                ) by {
                    assert(after.copy_holds(after.copies[j]));
                }
            }
        }
        Ok(())
    }
}

} // verus!
