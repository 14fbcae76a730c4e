//! The shape of a circuit: its columns, which of them take part in copy
//! constraints, and its gates, each an algebraic identity held as data.

use crate::field::{add_mod, mul_mod, neg_mod, FieldElement};
use crate::value::Value;
use vstd::prelude::*;

verus! {

/// A column of private witness values.
#[derive(Clone, Copy, Debug, PartialEq, Eq, Structural)]
pub struct AdviceColumn {
    pub index: usize,
}

/// A column of values fixed with the circuit.
#[derive(Clone, Copy, Debug, PartialEq, Eq, Structural)]
pub struct FixedColumn {
    pub index: usize,
}

/// A column of public inputs.
#[derive(Clone, Copy, Debug, PartialEq, Eq, Structural)]
pub struct InstanceColumn {
    pub index: usize,
}

/// A boolean column that switches gates on, row by row.
#[derive(Clone, Copy, Debug, PartialEq, Eq, Structural)]
pub struct Selector {
    pub index: usize,
}

/// A column of any kind.
#[derive(Clone, Copy, Debug, PartialEq, Eq, Structural)]
pub enum Column {
    Advice(usize),
    Fixed(usize),
    Instance(usize),
}

impl AdviceColumn {
    /// The column, with its kind as a tag.
    pub fn any(self) -> (c: Column)
        ensures
            c == Column::Advice(self.index),
    {
        Column::Advice(self.index)
    }
}

impl FixedColumn {
    /// The column, with its kind as a tag.
    pub fn any(self) -> (c: Column)
        ensures
            c == Column::Fixed(self.index),
    {
        Column::Fixed(self.index)
    }
}

impl InstanceColumn {
    /// The column, with its kind as a tag.
    pub fn any(self) -> (c: Column)
        ensures
            c == Column::Instance(self.index),
    {
        Column::Instance(self.index)
    }
}

/// The numbers in a row of advice cells, with 0 where there is none.
pub open spec fn slot_values(advice: Seq<Option<Value>>) -> Seq<nat> {
    Seq::new(
        advice.len(),
        |i: int|
            match advice[i] {
                Some(Value::Known(f)) => f.value(),
                _ => 0,
            },
    )
}

/// Which cells of a row of advice cells hold a number.
pub open spec fn slot_known(advice: Seq<Option<Value>>) -> Seq<bool> {
    Seq::new(advice.len(), |i: int| advice[i] matches Some(Value::Known(_)))
}

/// Every value in the row is canonical.
pub open spec fn slots_wf(advice: Seq<Option<Value>>) -> bool {
    forall|i: int|
        0 <= i < advice.len() ==> (match #[trigger] advice[i] {
            Some(v) => v.wf(),
            None => true,
        })
}

/// A polynomial over the cells of one row.
#[derive(Debug)]
pub enum Expression {
    /// 1 where the selector is enabled, 0 elsewhere.
    Selector(Selector),
    /// The advice cell of this column in the row.
    Advice(AdviceColumn),
    Negated(Box<Expression>),
    Sum(Box<Expression>, Box<Expression>),
    Product(Box<Expression>, Box<Expression>),
}

impl Expression {
    /// The value of the polynomial on a row; a cell or selector that the row
    /// does not have counts as 0.
    pub open spec fn eval(self, selectors: Seq<bool>, advice: Seq<nat>) -> nat
        decreases self,
    {
        match self {
            Expression::Selector(s) => if s.index < selectors.len() && selectors[s.index as int] {
                1
            } else {
                0
            },
            Expression::Advice(c) => if c.index < advice.len() {
                advice[c.index as int]
            } else {
                0
            },
            Expression::Negated(e) => neg_mod(e.eval(selectors, advice)),
            Expression::Sum(l, r) => add_mod(l.eval(selectors, advice), r.eval(selectors, advice)),
            Expression::Product(l, r) => mul_mod(
                l.eval(selectors, advice),
                r.eval(selectors, advice),
            ),
        }
    }

    /// Every selector and advice column that the polynomial reads lies
    /// within the given counts.
    pub open spec fn within(self, num_selectors: nat, num_advice: nat) -> bool
        decreases self,
    {
        match self {
            Expression::Selector(s) => s.index < num_selectors,
            Expression::Advice(c) => c.index < num_advice,
            Expression::Negated(e) => e.within(num_selectors, num_advice),
            Expression::Sum(l, r) => l.within(num_selectors, num_advice) && r.within(
                num_selectors,
                num_advice,
            ),
            Expression::Product(l, r) => l.within(num_selectors, num_advice) && r.within(
                num_selectors,
                num_advice,
            ),
        }
    }

    /// The polynomial reads a selector that is enabled in the row.
    pub open spec fn active(self, selectors: Seq<bool>) -> bool
        decreases self,
    {
        match self {
            Expression::Selector(s) => s.index < selectors.len() && selectors[s.index as int],
            Expression::Advice(c) => false,
            Expression::Negated(e) => e.active(selectors),
            Expression::Sum(l, r) => l.active(selectors) || r.active(selectors),
            Expression::Product(l, r) => l.active(selectors) || r.active(selectors),
        }
    }

    /// Every advice cell that the polynomial reads has a value in the row.
    pub open spec fn supplied(self, known: Seq<bool>) -> bool
        decreases self,
    {
        match self {
            Expression::Selector(s) => true,
            Expression::Advice(c) => c.index < known.len() && known[c.index as int],
            Expression::Negated(e) => e.supplied(known),
            Expression::Sum(l, r) => l.supplied(known) && r.supplied(known),
            Expression::Product(l, r) => l.supplied(known) && r.supplied(known),
        }
    }

    /// Evaluates the polynomial on a row.
    pub fn evaluate(&self, selectors: &Vec<bool>, advice: &Vec<Option<Value>>) -> (r: FieldElement)
        requires
            slots_wf(advice@),
        ensures
            r.wf(),
            r.value() == self.eval(selectors@, slot_values(advice@)),
        decreases self,
    {
        match self {
            Expression::Selector(s) => {
                if s.index < selectors.len() && selectors[s.index] {
                    FieldElement::one()
                } else {
                    FieldElement::zero()
                }
            },
            Expression::Advice(c) => {
                if c.index < advice.len() {
                    match advice[c.index] {
                        Some(Value::Known(f)) => f,
                        _ => FieldElement::zero(),
                    }
                } else {
                    FieldElement::zero()
                }
            },
            Expression::Negated(e) => e.evaluate(selectors, advice).neg(),
            Expression::Sum(l, r) => {
                let x = l.evaluate(selectors, advice);
                let y = r.evaluate(selectors, advice);
                x.add(&y)
            },
            Expression::Product(l, r) => {
                let x = l.evaluate(selectors, advice);
                let y = r.evaluate(selectors, advice);
                x.mul(&y)
            },
        }
    }

    /// Whether the polynomial reads a selector that is enabled in the row.
    pub fn is_active(&self, selectors: &Vec<bool>) -> (r: bool)
        ensures
            r == self.active(selectors@),
        decreases self,
    {
        match self {
            Expression::Selector(s) => s.index < selectors.len() && selectors[s.index],
            Expression::Advice(_) => false,
            Expression::Negated(e) => e.is_active(selectors),
            Expression::Sum(l, r) => l.is_active(selectors) || r.is_active(selectors),
            Expression::Product(l, r) => l.is_active(selectors) || r.is_active(selectors),
        }
    }

    /// Whether every advice cell that the polynomial reads holds a number.
    pub fn is_supplied(&self, advice: &Vec<Option<Value>>) -> (r: bool)
        ensures
            r == self.supplied(slot_known(advice@)),
        decreases self,
    {
        match self {
            Expression::Selector(_) => true,
            Expression::Advice(c) => {
                if c.index < advice.len() {
                    match advice[c.index] {
                        Some(Value::Known(_)) => true,
                        _ => false,
                    }
                } else {
                    false
                }
            },
            Expression::Negated(e) => e.is_supplied(advice),
            Expression::Sum(l, r) => l.is_supplied(advice) && r.is_supplied(advice),
            Expression::Product(l, r) => l.is_supplied(advice) && r.is_supplied(advice),
        }
    }

    /// `lhs - rhs`, held as the sum of `lhs` and the negation of `rhs`.
    pub fn difference(lhs: Expression, rhs: Expression) -> (e: Expression)
        ensures
            e == Expression::Sum(Box::new(lhs), Box::new(Expression::Negated(Box::new(rhs)))),
    {
        Expression::Sum(Box::new(lhs), Box::new(Expression::Negated(Box::new(rhs))))
    }

    /// `lhs * rhs`.
    pub fn product(lhs: Expression, rhs: Expression) -> (e: Expression)
        ensures
            e == Expression::Product(Box::new(lhs), Box::new(rhs)),
    {
        Expression::Product(Box::new(lhs), Box::new(rhs))
    }
}

/// A named identity: its polynomial must be 0 on every row.
#[derive(Debug)]
pub struct Gate {
    pub name: &'static str,
    pub poly: Expression,
}

/// What a circuit declares before any value is assigned.
#[derive(Debug)]
pub struct ConstraintSystem {
    num_advice_columns: usize,
    num_fixed_columns: usize,
    num_instance_columns: usize,
    num_selectors: usize,
    equality: Vec<Column>,
    constants: Vec<FixedColumn>,
    gates: Vec<Gate>,
}

impl ConstraintSystem {
    /// The number of advice columns allocated.
    pub closed spec fn num_advice(&self) -> nat {
        self.num_advice_columns as nat
    }

    /// The number of fixed columns allocated.
    pub closed spec fn num_fixed(&self) -> nat {
        self.num_fixed_columns as nat
    }

    /// The number of instance columns allocated.
    pub closed spec fn num_instance(&self) -> nat {
        self.num_instance_columns as nat
    }

    /// The number of selectors allocated.
    pub closed spec fn num_selector(&self) -> nat {
        self.num_selectors as nat
    }

    /// The columns whose cells may be tied by copy constraints, in the order
    /// in which they were enabled.
    pub closed spec fn equality_columns(&self) -> Seq<Column> {
        self.equality@
    }

    /// The fixed columns that hold constants, in the order in which they
    /// were enabled.
    pub closed spec fn constant_columns(&self) -> Seq<FixedColumn> {
        self.constants@
    }

    /// The gates, in the order in which they were created.
    pub closed spec fn gate_list(&self) -> Seq<Gate> {
        self.gates@
    }

    /// The column has been allocated.
    pub open spec fn has_column(&self, column: Column) -> bool {
        match column {
            Column::Advice(i) => i < self.num_advice(),
            Column::Fixed(i) => i < self.num_fixed(),
            Column::Instance(i) => i < self.num_instance(),
        }
    }

    /// Nothing refers to a column or selector that was not allocated, and no
    /// column is enabled twice.
    pub open spec fn wf(&self) -> bool {
        &&& forall|i: int|
            0 <= i < self.equality_columns().len() ==> self.has_column(
                #[trigger] self.equality_columns()[i],
            )
        &&& self.equality_columns().no_duplicates()
        &&& forall|i: int|
            0 <= i < self.constant_columns().len() ==> (#[trigger] self.constant_columns()[i]).index
                < self.num_fixed()
        &&& self.constant_columns().no_duplicates()
        &&& forall|i: int|
            0 <= i < self.gate_list().len() ==> (#[trigger] self.gate_list()[i]).poly.within(
                self.num_selector(),
                self.num_advice(),
            )
    }

    /// A constraint system with no column and no gate.
    pub fn new() -> (cs: Self)
        ensures
            cs.wf(),
            cs.num_advice() == 0,
            cs.num_fixed() == 0,
            cs.num_instance() == 0,
            cs.num_selector() == 0,
            cs.equality_columns() == Seq::<Column>::empty(),
            cs.constant_columns() == Seq::<FixedColumn>::empty(),
            cs.gate_list() == Seq::<Gate>::empty(),
    {
        ConstraintSystem {
            num_advice_columns: 0,
            num_fixed_columns: 0,
            num_instance_columns: 0,
            num_selectors: 0,
            equality: Vec::new(),
            constants: Vec::new(),
            gates: Vec::new(),
        }
    }

    /// All of `self` but the named counts and lists is as in `before`.
    pub open spec fn same_but(
        &self,
        before: &Self,
        advice: bool,
        fixed: bool,
        instance: bool,
        selector: bool,
        equality: bool,
        constants: bool,
        gates: bool,
    ) -> bool {
        &&& advice || self.num_advice() == before.num_advice()
        &&& fixed || self.num_fixed() == before.num_fixed()
        &&& instance || self.num_instance() == before.num_instance()
        &&& selector || self.num_selector() == before.num_selector()
        &&& equality || self.equality_columns() == before.equality_columns()
        &&& constants || self.constant_columns() == before.constant_columns()
        &&& gates || self.gate_list() == before.gate_list()
    }

    /// Allocates the next advice column.
    pub fn advice_column(&mut self) -> (c: AdviceColumn)
        requires
            old(self).wf(),
            old(self).num_advice() < usize::MAX,
        ensures
            final(self).wf(),
            c.index == old(self).num_advice(),
            final(self).num_advice() == old(self).num_advice() + 1,
            final(self).same_but(old(self), true, false, false, false, false, false, false),
    {
        let c = AdviceColumn { index: self.num_advice_columns };
        self.num_advice_columns = self.num_advice_columns + 1;
        proof {
            assert forall|i: int| 0 <= i < self.gate_list().len() implies (
            #[trigger] self.gate_list()[i]).poly.within(self.num_selector(), self.num_advice()) by {
                lemma_within_grows(
                    self.gate_list()[i].poly,
                    old(self).num_selector(),
                    old(self).num_advice(),
                    self.num_selector(),
                    self.num_advice(),
                );
            }
        }
        c
    }

    /// Allocates the next fixed column.
    pub fn fixed_column(&mut self) -> (c: FixedColumn)
        requires
            old(self).wf(),
            old(self).num_fixed() < usize::MAX,
        ensures
            final(self).wf(),
            c.index == old(self).num_fixed(),
            final(self).num_fixed() == old(self).num_fixed() + 1,
            final(self).same_but(old(self), false, true, false, false, false, false, false),
    {
        let c = FixedColumn { index: self.num_fixed_columns };
        self.num_fixed_columns = self.num_fixed_columns + 1;
        c
    }

    /// Allocates the next instance column.
    pub fn instance_column(&mut self) -> (c: InstanceColumn)
        requires
            old(self).wf(),
            old(self).num_instance() < usize::MAX,
        ensures
            final(self).wf(),
            c.index == old(self).num_instance(),
            final(self).num_instance() == old(self).num_instance() + 1,
            final(self).same_but(old(self), false, false, true, false, false, false, false),
    {
        let c = InstanceColumn { index: self.num_instance_columns };
        self.num_instance_columns = self.num_instance_columns + 1;
        c
    }

    /// Allocates the next selector.
    pub fn selector(&mut self) -> (s: Selector)
        requires
            old(self).wf(),
            old(self).num_selector() < usize::MAX,
        ensures
            final(self).wf(),
            s.index == old(self).num_selector(),
            final(self).num_selector() == old(self).num_selector() + 1,
            final(self).same_but(old(self), false, false, false, true, false, false, false),
    {
        let s = Selector { index: self.num_selectors };
        self.num_selectors = self.num_selectors + 1;
        proof {
            assert forall|i: int| 0 <= i < self.gate_list().len() implies (
            #[trigger] self.gate_list()[i]).poly.within(self.num_selector(), self.num_advice()) by {
                lemma_within_grows(
                    self.gate_list()[i].poly,
                    old(self).num_selector(),
                    old(self).num_advice(),
                    self.num_selector(),
                    self.num_advice(),
                );
            }
        }
        s
    }

    /// Whether copy constraints may touch the column.
    pub fn has_equality(&self, column: Column) -> (found: bool)
        ensures
            found == self.equality_columns().contains(column),
    {
        let mut i: usize = 0;
        while i < self.equality.len()
            invariant
                i <= self.equality.len(),
                forall|j: int| 0 <= j < i ==> self.equality@[j] != column,
            decreases self.equality.len() - i,
        {
            if self.equality[i] == column {
                return true;
            }
            i += 1;
        }
        false
    }

    /// Whether the fixed column holds constants.
    pub fn has_constant(&self, column: FixedColumn) -> (found: bool)
        ensures
            found == self.constant_columns().contains(column),
    {
        let mut i: usize = 0;
        while i < self.constants.len()
            invariant
                i <= self.constants.len(),
                forall|j: int| 0 <= j < i ==> self.constants@[j] != column,
            decreases self.constants.len() - i,
        {
            if self.constants[i] == column {
                return true;
            }
            i += 1;
        }
        false
    }

    /// Lets copy constraints touch the column. Enabling a column again
    /// changes nothing.
    pub fn enable_equality(&mut self, column: Column)
        requires
            old(self).wf(),
            old(self).has_column(column),
        ensures
            final(self).wf(),
            final(self).equality_columns() == if old(self).equality_columns().contains(column) {
                old(self).equality_columns()
            } else {
                old(self).equality_columns().push(column)
            },
            final(self).same_but(old(self), false, false, false, false, true, false, false),
    {
        if !self.has_equality(column) {
            self.equality.push(column);
        }
    }

    /// Lets the fixed column hold constants, and copy constraints touch it.
    /// Enabling a column again changes nothing.
    pub fn enable_constant(&mut self, column: FixedColumn)
        requires
            old(self).wf(),
            column.index < old(self).num_fixed(),
        ensures
            final(self).wf(),
            final(self).constant_columns() == if old(self).constant_columns().contains(column) {
                old(self).constant_columns()
            } else {
                old(self).constant_columns().push(column)
            },
            final(self).equality_columns() == if old(self).constant_columns().contains(column)
                || old(self).equality_columns().contains(Column::Fixed(column.index)) {
                old(self).equality_columns()
            } else {
                old(self).equality_columns().push(Column::Fixed(column.index))
            },
            final(self).same_but(old(self), false, false, false, false, true, true, false),
    {
        if !self.has_constant(column) {
            self.constants.push(column);
            self.enable_equality(column.any());
        }
    }

    /// Adds a gate.
    pub fn create_gate(&mut self, name: &'static str, poly: Expression)
        requires
            old(self).wf(),
            poly.within(old(self).num_selector(), old(self).num_advice()),
        ensures
            final(self).wf(),
            final(self).gate_list() == old(self).gate_list().push(Gate { name, poly }),
            final(self).same_but(old(self), false, false, false, false, false, false, true),
    {
        self.gates.push(Gate { name, poly });
    }

    /// The number of advice columns.
    pub fn advice_count(&self) -> (n: usize)
        ensures
            n == self.num_advice(),
    {
        self.num_advice_columns
    }

    /// The number of fixed columns.
    pub fn fixed_count(&self) -> (n: usize)
        ensures
            n == self.num_fixed(),
    {
        self.num_fixed_columns
    }

    /// The number of instance columns.
    pub fn instance_count(&self) -> (n: usize)
        ensures
            n == self.num_instance(),
    {
        self.num_instance_columns
    }

    /// The number of selectors.
    pub fn selector_count(&self) -> (n: usize)
        ensures
            n == self.num_selector(),
    {
        self.num_selectors
    }

    /// The gates, in the order in which they were created.
    pub fn gates(&self) -> (g: &Vec<Gate>)
        ensures
            g@ == self.gate_list(),
    {
        &self.gates
    }

    /// The columns that copy constraints may touch.
    pub fn equality(&self) -> (e: &Vec<Column>)
        ensures
            e@ == self.equality_columns(),
    {
        &self.equality
    }

    /// The first fixed column enabled for constants, if there is one.
    pub fn constants_column(&self) -> (c: Option<FixedColumn>)
        ensures
            c == if self.constant_columns().len() == 0 {
                None
            } else {
                Some(self.constant_columns()[0])
            },
    {
        if self.constants.len() == 0 {
            None
        } else {
            Some(self.constants[0])
        }
    }
}

/// A polynomial that fits given counts fits larger ones.
pub proof fn lemma_within_grows(e: Expression, s0: nat, a0: nat, s1: nat, a1: nat)
    requires
        e.within(s0, a0),
        s0 <= s1,
        a0 <= a1,
    ensures
        e.within(s1, a1),
    decreases e,
{
    match e {
        Expression::Selector(_) => {},
        Expression::Advice(_) => {},
        Expression::Negated(x) => {
            lemma_within_grows(*x, s0, a0, s1, a1);
        },
        Expression::Sum(l, r) => {
            lemma_within_grows(*l, s0, a0, s1, a1);
            lemma_within_grows(*r, s0, a0, s1, a1);
        },
        Expression::Product(l, r) => {
            lemma_within_grows(*l, s0, a0, s1, a1);
            lemma_within_grows(*r, s0, a0, s1, a1);
        },
    }
}

} // verus!
