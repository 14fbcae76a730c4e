//! The circuit: a chain of multiplications by one public factor, closed by
//! tying the last product to a public input.

use crate::chip::{product, Bootstrap, PowerByNumChip, PowerByNumConfig};
use crate::constraint_system::{Column, ConstraintSystem, FixedColumn, Gate};
use crate::error::Error;
use crate::field::FieldElement;
use crate::laws::{
    lemma_chain_cells, lemma_declared_fits, lemma_satisfied_iff_relation, relation,
};
use crate::layouter::{all_wf, field_values, instance_view, AssignedCell, Layouter};
use crate::trace::{Cell, Trace};
use vstd::prelude::*;

verus! {

/// A chain of `steps + 1` multiplications. The circuit holds no witness:
/// every value in its trace follows from the public inputs.
#[derive(Clone, Copy, Debug, PartialEq, Eq, Structural)]
pub struct TestCircuit {
    /// Where row 0 takes its left operand from.
    pub bootstrap: Bootstrap,
    /// The number of rows after row 0.
    pub steps: usize,
}

impl TestCircuit {
    /// The slot of the public inputs that the last product is tied to: the
    /// one after the factor.
    pub open spec fn output_slot(&self) -> int {
        match self.bootstrap {
            Bootstrap::Constant => 1,
            Bootstrap::Instance => 2,
        }
    }

    /// The trace has room for the whole chain and for what it reads of the
    /// public inputs.
    pub open spec fn rows_suffice(&self, t: Trace) -> bool {
        &&& t.rows.len() + self.steps + 1 <= t.usable_rows
        &&& self.output_slot() < t.usable_rows
        &&& self.bootstrap == Bootstrap::Constant ==> t.constants.len() < t.usable_rows
    }

    /// The value of the product cell `n` rows after row 0 of a chain laid
    /// out on `t`.
    pub open spec fn chain_product(config: PowerByNumConfig, t: Trace, n: nat) -> Option<nat>
        decreases n,
    {
        let factor = t.instance_value(config.factor_slot());
        if n == 0 {
            product(config.first_operand(t), factor)
        } else {
            product(factor, Self::chain_product(config, t, (n - 1) as nat))
        }
    }

    /// The trace `t` with row 0 of a chain and `n` more rows laid out.
    pub open spec fn chain(config: PowerByNumConfig, t: Trace, n: nat) -> Trace
        decreases n,
    {
        if n == 0 {
            config.after_initial(t)
        } else {
            config.after_step(
                Self::chain(config, t, (n - 1) as nat),
                PowerByNumConfig::cell(config.col_b, t.rows.len() as int),
                t.instance_value(config.factor_slot()),
                PowerByNumConfig::cell(config.col_c, t.rows.len() + n - 1),
                Self::chain_product(config, t, (n - 1) as nat),
            )
        }
    }

    /// The trace `t` with the whole circuit laid out: the chain, and the
    /// copy constraint that ties its last product to the output slot.
    pub open spec fn synthesized(&self, config: PowerByNumConfig, t: Trace) -> Trace {
        Self::chain(config, t, self.steps as nat).with_copy(
            PowerByNumConfig::cell(config.col_c, t.rows.len() + self.steps),
            Cell { column: Column::Instance(0), row: self.output_slot() as usize },
        )
    }

    /// The constraint system is the one that the circuit declares on an
    /// empty one, and `config` holds its columns.
    pub open spec fn declares(&self, config: PowerByNumConfig, cs: ConstraintSystem) -> bool {
        &&& cs.wf()
        &&& config.allocated_at(0, 0, 0, 0, self.bootstrap)
        &&& cs.num_advice() == 3
        &&& cs.num_selector() == 1
        &&& cs.num_instance() == 1
        &&& cs.num_fixed() == match self.bootstrap {
            Bootstrap::Constant => 1nat,
            Bootstrap::Instance => 0nat,
        }
        &&& cs.equality_columns() == config.equality_columns()
        &&& cs.constant_columns() == match config.constant {
            Some(f) => seq![f],
            None => Seq::<FixedColumn>::empty(),
        }
        &&& cs.gate_list() == seq![(Gate { name: "mul", poly: config.mul_gate() })]
    }

    /// Why the circuit cannot be laid out on a fresh trace of the given
    /// size, if it cannot: too many public inputs, or too few rows.
    pub open spec fn room_refusal(&self, usable_rows: nat, inputs: Option<nat>) -> Option<Error> {
        if inputs matches Some(n) && n > usable_rows {
            Some(Error::InstanceTooLarge)
        } else if self.steps + 1 > usable_rows || self.output_slot() >= usable_rows {
            Some(Error::NotEnoughRowsAvailable)
        } else {
            None
        }
    }

    /// A chain of `steps + 1` multiplications.
    pub fn new(bootstrap: Bootstrap, steps: usize) -> (circuit: Self)
        ensures
            circuit == (TestCircuit { bootstrap, steps }),
    {
        TestCircuit { bootstrap, steps }
    }

    /// The circuit with its witness taken out. There is none to take.
    pub fn without_witnesses(&self) -> (circuit: Self)
        ensures
            circuit == *self,
    {
        *self
    }

    /// Declares the circuit on a constraint system.
    pub fn configure(&self, meta: &mut ConstraintSystem) -> (config: PowerByNumConfig)
        requires
            old(meta).wf(),
            old(meta).num_advice() + 3 <= usize::MAX,
            old(meta).num_fixed() < usize::MAX,
            old(meta).num_instance() < usize::MAX,
            old(meta).num_selector() < usize::MAX,
        ensures
            final(meta).wf(),
            config.bootstrap() == self.bootstrap,
            config.allocated_at(
                old(meta).num_advice(),
                old(meta).num_fixed(),
                old(meta).num_instance(),
                old(meta).num_selector(),
                self.bootstrap,
            ),
            final(meta).num_advice() == old(meta).num_advice() + 3,
            final(meta).num_selector() == old(meta).num_selector() + 1,
            final(meta).num_instance() == old(meta).num_instance() + 1,
            final(meta).num_fixed() == old(meta).num_fixed() + match self.bootstrap {
                Bootstrap::Constant => 1nat,
                Bootstrap::Instance => 0nat,
            },
            final(meta).equality_columns() == old(meta).equality_columns()
                + config.equality_columns(),
            final(meta).constant_columns() == match config.constant {
                Some(f) => old(meta).constant_columns().push(f),
                None => old(meta).constant_columns(),
            },
            final(meta).gate_list() == old(meta).gate_list().push(
                (Gate { name: "mul", poly: config.mul_gate() }),
            ),
    {
        PowerByNumChip::configure(meta, self.bootstrap)
    }

    /// Lays the circuit out on a trace: row 0, `steps` more rows, and the
    /// tie of the last product to the output slot. It fails, leaving the
    /// trace as it was, exactly where the trace has too few rows left.
    pub fn synthesize(&self, config: PowerByNumConfig, layouter: &mut Layouter) -> (r: Result<
        (),
        Error,
    >)
        requires
            old(layouter).wf(),
            config.fits(old(layouter)@.cs),
            config.bootstrap() == self.bootstrap,
        ensures
            final(layouter).wf(),
            match r {
                Ok(()) => {
                    &&& self.rows_suffice(old(layouter)@)
                    &&& final(layouter)@ == self.synthesized(config, old(layouter)@)
                    &&& old(layouter)@.copies_consistent() ==> ({
                        let before = old(layouter)@;
                        final(layouter)@.copies_consistent() <==> before.instance_value(
                            self.output_slot(),
                        ) == Self::chain_product(config, before, self.steps as nat)
                    })
                },
                Err(e) => {
                    &&& e == Error::NotEnoughRowsAvailable
                    &&& !self.rows_suffice(old(layouter)@)
                    &&& final(layouter)@ == old(layouter)@
                },
            },
    {
        proof {
            layouter.lemma_wf();
        }
        let usable = layouter.usable_rows();
        let first = layouter.row_count();
        let output: usize = match self.bootstrap {
            Bootstrap::Constant => 1,
            Bootstrap::Instance => 2,
        };
        // Refuse before touching the trace, so that a failed call leaves it as it was.
        if first >= usable || self.steps > usable - first - 1 || output >= usable {
            return Err(Error::NotEnoughRowsAvailable);
        }
        match self.bootstrap {
            Bootstrap::Constant => {
                if layouter.constant_count() >= usable {
                    return Err(Error::NotEnoughRowsAvailable);
                }
            },
            Bootstrap::Instance => {},
        }
        let chip = PowerByNumChip::construct(config);
        let ghost start = layouter@;

        let (_, prev_b, init_c) = match chip.intial_assign(layouter) {
            Ok(cells) => cells,
            Err(e) => {
                return Err(e);
            },
        };
        let mut prev_c: AssignedCell = init_c;
        let mut i: usize = 0;
        while i < self.steps
            invariant
                i <= self.steps,
                layouter.wf(),
                start.wf(),
                config.fits(start.cs),
                chip.config() == config,
                first == start.rows.len(),
                usable == start.usable_rows,
                first + self.steps + 1 <= usable,
                layouter@ == Self::chain(config, start, i as nat),
                start.copies_consistent() ==> layouter@.copies_consistent(),
                prev_b.cell == PowerByNumConfig::cell(config.col_b, first as int),
                prev_b.value.wf(),
                prev_b.value@ == start.instance_value(config.factor_slot()),
                prev_c.cell == PowerByNumConfig::cell(config.col_c, first + i),
                prev_c.value.wf(),
                prev_c.value@ == Self::chain_product(config, start, i as nat),
            decreases self.steps - i,
        {
            proof {
                Self::lemma_chain_frame(config, start, i as nat);
                lemma_chain_cells(config, start, i as nat, i as nat);
                lemma_chain_cells(config, start, i as nat, 0);
            }
            let next_c = match chip.subsequent_assign(layouter, &prev_b, &prev_c) {
                Ok(cell) => cell,
                Err(e) => {
                    // Room for every row was made sure of above.
                    proof {
                        assert(false);
                    }
                    return Err(e);
                },
            };
            prev_c = next_c;
            i += 1;
        }
        proof {
            Self::lemma_chain_frame(config, start, self.steps as nat);
            lemma_chain_cells(config, start, self.steps as nat, self.steps as nat);
        }
        match chip.expose_public(layouter, &prev_c, output) {
            Ok(()) => {},
            Err(e) => {
                // The output slot was made sure of above.
                proof {
                    assert(false);
                }
                return Err(e);
            },
        }
        Ok(())
    }

    /// Declares the circuit on an empty constraint system and lays it out
    /// on a fresh trace with `usable_rows` rows. `instance` holds the public
    /// inputs, or `None` for a pass that only fixes the shape.
    pub fn lay_out(&self, usable_rows: usize, instance: Option<Vec<FieldElement>>) -> (r: Result<
        (PowerByNumConfig, Layouter),
        Error,
    >)
        requires
            instance matches Some(v) ==> all_wf(v@),
        ensures
            match r {
                Ok((config, layouter)) => {
                    &&& layouter.wf()
                    &&& self.declares(config, layouter@.cs)
                    &&& self.room_refusal(
                        usable_rows as nat,
                        match instance {
                            Some(v) => Some(v.len() as nat),
                            None => None,
                        },
                    ).is_none()
                    &&& layouter@ == self.synthesized(
                        config,
                        Trace::empty(layouter@.cs, usable_rows as nat, instance_view(instance)),
                    )
                },
                Err(e) => self.room_refusal(
                    usable_rows as nat,
                    match instance {
                        Some(v) => Some(v.len() as nat),
                        None => None,
                    },
                ) == Some(e),
            },
    {
        let mut cs = ConstraintSystem::new();
        let config = self.configure(&mut cs);
        proof {
            assert(cs.equality_columns() =~= config.equality_columns());
            assert(cs.gate_list() =~= seq![(Gate { name: "mul", poly: config.mul_gate() })]);
            match config.constant {
                Some(f) => {
                    assert(cs.constant_columns() =~= seq![f]);
                },
                None => {
                    assert(cs.constant_columns() =~= Seq::<FixedColumn>::empty());
                },
            }
            assert(self.declares(config, cs));
        }
        let mut layouter = match Layouter::new(cs, usable_rows, instance) {
            Ok(layouter) => layouter,
            Err(e) => {
                return Err(e);
            },
        };
        let ghost fresh = layouter@;
        proof {
            layouter.lemma_wf();
            lemma_declared_fits(*self, config, fresh);
            Self::lemma_chain_frame(config, fresh, self.steps as nat);
        }
        match self.synthesize(config, &mut layouter) {
            Ok(()) => Ok((config, layouter)),
            Err(e) => Err(e),
        }
    }

    /// Whether the public inputs are in the relation that the circuit
    /// stands for, found by laying the circuit out on a fresh trace with
    /// `usable_rows` rows and checking every gate and copy constraint.
    pub fn check(&self, usable_rows: usize, inputs: Vec<FieldElement>) -> (r: Result<bool, Error>)
        requires
            all_wf(inputs@),
        ensures
            match r {
                Ok(ok) => {
                    &&& self.room_refusal(usable_rows as nat, Some(inputs.len() as nat)).is_none()
                    &&& ok == relation(*self, field_values(inputs@))
                },
                Err(e) => self.room_refusal(usable_rows as nat, Some(inputs.len() as nat)) == Some(
                    e,
                ),
            },
    {
        let ghost numbers = field_values(inputs@);
        match self.lay_out(usable_rows, Some(inputs)) {
            Ok((config, layouter)) => {
                proof {
                    let fresh = Trace::empty(layouter@.cs, usable_rows as nat, Some(numbers));
                    assert(fresh.wf());
                    lemma_satisfied_iff_relation(*self, config, fresh, numbers);
                }
                Ok(layouter.is_satisfied())
            },
            Err(e) => Err(e),
        }
    }

    /// What laying out a chain keeps and what it adds: the constraint
    /// system, the row budget and the public inputs stay; `n + 1` rows are
    /// added; and outside a key-only pass every product in it is known.
    pub proof fn lemma_chain_frame(config: PowerByNumConfig, t: Trace, n: nat)
        requires
            t.wf(),
        ensures
            Self::chain(config, t, n).cs == t.cs,
            Self::chain(config, t, n).usable_rows == t.usable_rows,
            Self::chain(config, t, n).instance == t.instance,
            Self::chain(config, t, n).rows.len() == t.rows.len() + n + 1,
            !t.key_only() ==> Self::chain_product(config, t, n).is_some(),
        decreases n,
    {
        if n > 0 {
            Self::lemma_chain_frame(config, t, (n - 1) as nat);
        }
    }
}

} // verus!
