use nth_power::chip::{Bootstrap, PowerByNumChip, PowerByNumConfig};
use nth_power::circuit::TestCircuit;
use nth_power::constraint_system::{Column, ConstraintSystem};
use nth_power::error::Error;
use nth_power::field::FieldElement;
use nth_power::layouter::{AssignedCell, Layouter};
use nth_power::trace::{Cell, CopyConstraint};
use nth_power::value::Value;

fn fe(v: u64) -> FieldElement {
    FieldElement::from_u64(v)
}

fn inputs(values: &[u64]) -> Vec<FieldElement> {
    values.iter().map(|v| fe(*v)).collect()
}

fn holds(layouter: &Layouter, column: usize, row: usize, v: u64) -> bool {
    match layouter.value_at(Cell { column: Column::Advice(column), row }) {
        Some(Value::Known(f)) => f.equals(&fe(v)),
        _ => false,
    }
}

fn fresh(bootstrap: Bootstrap, rows: usize, values: &[u64]) -> (Layouter, PowerByNumChip) {
    let mut cs = ConstraintSystem::new();
    let config = PowerByNumChip::configure(&mut cs, bootstrap);
    (Layouter::new(cs, rows, Some(inputs(values))).unwrap(), PowerByNumChip::construct(config))
}

fn advice(column: usize, row: usize) -> Cell {
    Cell { column: Column::Advice(column), row }
}

fn instance(row: usize) -> Cell {
    Cell { column: Column::Instance(0), row }
}

#[test]
fn row_zero_starts_from_the_constant_one() {
    let (mut layouter, chip) = fresh(Bootstrap::Constant, 4, &[7, 49]);
    let (a, b, c) = chip.intial_assign(&mut layouter).unwrap();
    assert_eq!((a.cell, b.cell, c.cell), (advice(0, 0), advice(1, 0), advice(2, 0)));
    assert!(holds(&layouter, 0, 0, 1));
    assert!(holds(&layouter, 1, 0, 7));
    assert!(holds(&layouter, 2, 0, 7));
    assert!(layouter.selector_enabled(nth_power::constraint_system::Selector { index: 0 }, 0));
    assert_eq!(
        layouter.copies(),
        &vec![
            CopyConstraint { left: Cell { column: Column::Fixed(0), row: 0 }, right: advice(0, 0) },
            CopyConstraint { left: advice(1, 0), right: instance(0) },
        ]
    );
    assert!(layouter.is_satisfied());
}

#[test]
fn row_zero_starts_from_the_public_inputs() {
    let (mut layouter, chip) = fresh(Bootstrap::Instance, 4, &[5, 3, 0]);
    chip.intial_assign(&mut layouter).unwrap();
    assert!(holds(&layouter, 0, 0, 5));
    assert!(holds(&layouter, 1, 0, 3));
    assert!(holds(&layouter, 2, 0, 15));
    assert_eq!(
        layouter.copies(),
        &vec![
            CopyConstraint { left: advice(0, 0), right: instance(0) },
            CopyConstraint { left: advice(1, 0), right: instance(1) },
        ]
    );
    assert_eq!(layouter.constant_count(), 0);
    assert!(layouter.is_satisfied());
}

#[test]
fn a_step_multiplies_the_last_product_by_the_factor() {
    let (mut layouter, chip) = fresh(Bootstrap::Constant, 4, &[7]);
    let (_, b, c) = chip.intial_assign(&mut layouter).unwrap();
    let next = chip.subsequent_assign(&mut layouter, &b, &c).unwrap();
    assert_eq!(next.cell, advice(2, 1));
    assert!(holds(&layouter, 0, 1, 7));
    assert!(holds(&layouter, 1, 1, 7));
    assert!(holds(&layouter, 2, 1, 49));
    assert_eq!(
        layouter.copies()[2..],
        [
            CopyConstraint { left: advice(0, 1), right: advice(2, 0) },
            CopyConstraint { left: advice(1, 1), right: advice(1, 0) },
        ]
    );
    assert!(layouter.is_satisfied());
}

#[test]
fn a_failed_call_leaves_the_trace_as_it_was() {
    let (mut layouter, chip) = fresh(Bootstrap::Constant, 1, &[7]);
    let (_, b, c) = chip.intial_assign(&mut layouter).unwrap();
    let copies = layouter.copies().clone();
    assert_eq!(
        chip.subsequent_assign(&mut layouter, &b, &c).err(),
        Some(Error::NotEnoughRowsAvailable)
    );
    assert_eq!(chip.intial_assign(&mut layouter).err(), Some(Error::NotEnoughRowsAvailable));
    assert_eq!(layouter.row_count(), 1);
    assert_eq!(layouter.constant_count(), 1);
    assert_eq!(layouter.copies(), &copies);

    // The factor stands in slot 1: one usable row is not enough to read it.
    let (mut short, chip) = fresh(Bootstrap::Instance, 1, &[1]);
    assert_eq!(chip.intial_assign(&mut short).err(), Some(Error::NotEnoughRowsAvailable));
    assert_eq!(short.row_count(), 0);
    assert!(short.copies().is_empty());
}

#[test]
fn a_step_refuses_cells_that_cannot_be_copied() {
    let (mut layouter, chip) = fresh(Bootstrap::Constant, 4, &[7]);
    let (_, b, c) = chip.intial_assign(&mut layouter).unwrap();
    let unknown = AssignedCell { cell: c.cell, value: Value::Unknown };
    assert_eq!(chip.subsequent_assign(&mut layouter, &b, &unknown).err(), Some(Error::Synthesis));
    let forged = AssignedCell { cell: c.cell, value: Value::Known(fe(8)) };
    assert_eq!(chip.subsequent_assign(&mut layouter, &b, &forged).err(), Some(Error::Synthesis));
    let nowhere = AssignedCell { cell: advice(1, 9), value: b.value };
    assert_eq!(chip.subsequent_assign(&mut layouter, &nowhere, &c).err(), Some(Error::Synthesis));
    assert_eq!(layouter.row_count(), 1);
    assert_eq!(layouter.copies().len(), 2);
    assert!(chip.subsequent_assign(&mut layouter, &b, &c).is_ok());
}

#[test]
fn a_step_refuses_a_cell_of_a_column_closed_to_copies() {
    let mut cs = ConstraintSystem::new();
    let config = PowerByNumChip::configure(&mut cs, Bootstrap::Constant);
    let closed = cs.advice_column();
    assert!(config.check_fits(&cs));
    let mut layouter = Layouter::new(cs, 4, Some(inputs(&[7]))).unwrap();
    let chip = PowerByNumChip::construct(config);
    let (_, b, c) = chip.intial_assign(&mut layouter).unwrap();
    let aside = layouter.assign_advice(closed, 0, Value::Known(fe(7))).unwrap();
    assert_eq!(
        chip.subsequent_assign(&mut layouter, &aside, &c).err(),
        Some(Error::ColumnNotInPermutation(Column::Advice(3)))
    );
    assert_eq!(
        chip.subsequent_assign(&mut layouter, &b, &aside).err(),
        Some(Error::ColumnNotInPermutation(Column::Advice(3)))
    );
    // the product cell is looked at before the factor cell
    let forged = AssignedCell { cell: b.cell, value: Value::Known(fe(1)) };
    assert_eq!(chip.subsequent_assign(&mut layouter, &aside, &forged).err(), Some(Error::Synthesis));
    assert_eq!(layouter.row_count(), 1);
}

#[test]
fn expose_public_ties_a_cell_to_a_slot() {
    let (mut layouter, chip) = fresh(Bootstrap::Constant, 4, &[7, 7]);
    let (_, _, c) = chip.intial_assign(&mut layouter).unwrap();
    assert_eq!(chip.expose_public(&mut layouter, &c, 1), Ok(()));
    assert_eq!(layouter.copies()[2], CopyConstraint { left: advice(2, 0), right: instance(1) });
    assert!(layouter.is_satisfied());
    assert_eq!(chip.expose_public(&mut layouter, &c, 4), Err(Error::NotEnoughRowsAvailable));
}

#[test]
fn twelve_multiplications_by_two_give_4096() {
    let circuit = TestCircuit::new(Bootstrap::Constant, 11);
    let (config, layouter) = circuit.lay_out(122, Some(inputs(&[2, 4096]))).unwrap();
    assert_eq!(layouter.row_count(), 12);
    assert!(holds(&layouter, config.col_c.index, 11, 4096));
    assert_eq!(
        layouter.copies().last(),
        Some(&CopyConstraint { left: advice(2, 11), right: instance(1) })
    );
    assert_eq!(layouter.copies().len(), 2 * 12 + 1);
    assert!(layouter.is_satisfied());
    assert_eq!(circuit.check(122, inputs(&[2, 4096])), Ok(true));
}

#[test]
fn a_mutated_output_is_not_satisfied() {
    let circuit = TestCircuit::new(Bootstrap::Constant, 11);
    let (_, layouter) = circuit.lay_out(122, Some(inputs(&[2, 4095]))).unwrap();
    // the trace is the same as for the right output: only the last tie fails
    assert_eq!(layouter.row_count(), 12);
    assert!(holds(&layouter, 2, 11, 4096));
    assert!(!layouter.is_satisfied());
    assert_eq!(circuit.check(122, inputs(&[2, 4095])), Ok(false));
    assert_eq!(circuit.check(122, inputs(&[3, 4096])), Ok(false));
}

#[test]
fn every_row_holds_the_product_of_its_operands() {
    let circuit = TestCircuit::new(Bootstrap::Constant, 11);
    let (config, layouter) = circuit.lay_out(122, Some(inputs(&[3, 531441]))).unwrap();
    let mut power: u64 = 1;
    for row in 0..12 {
        assert!(layouter.selector_enabled(config.selector, row));
        assert!(holds(&layouter, config.col_a.index, row, power));
        assert!(holds(&layouter, config.col_b.index, row, 3));
        power *= 3;
        assert!(holds(&layouter, config.col_c.index, row, power));
    }
    assert_eq!(power, 531441);
    assert!(layouter.is_satisfied());
}

#[test]
fn every_copy_constraint_links_equal_cells() {
    let circuit = TestCircuit::new(Bootstrap::Instance, 5);
    let (_, layouter) = circuit.lay_out(10, Some(inputs(&[5, 2, 320]))).unwrap();
    assert_eq!(layouter.copies().len(), 2 * 6 + 1);
    for copy in layouter.copies().iter() {
        match (layouter.value_at(copy.left), layouter.value_at(copy.right)) {
            (Some(Value::Known(l)), Some(Value::Known(r))) => assert!(l.equals(&r)),
            _ => panic!("a copy constraint touches a cell without a number"),
        }
    }
}

#[test]
fn the_relation_is_first_operand_times_a_power_of_the_factor() {
    assert_eq!(TestCircuit::new(Bootstrap::Constant, 4).check(10, inputs(&[3, 243])), Ok(true));
    assert_eq!(TestCircuit::new(Bootstrap::Constant, 0).check(10, inputs(&[9, 9])), Ok(true));
    assert_eq!(TestCircuit::new(Bootstrap::Constant, 0).check(10, inputs(&[9, 81])), Ok(false));
    assert_eq!(TestCircuit::new(Bootstrap::Instance, 2).check(10, inputs(&[5, 3, 135])), Ok(true));
    assert_eq!(TestCircuit::new(Bootstrap::Instance, 2).check(10, inputs(&[5, 3, 27])), Ok(false));
    assert_eq!(TestCircuit::new(Bootstrap::Instance, 3).check(10, inputs(&[1, 2, 16])), Ok(true));
    // 2^64 does not fit a u64, but it does fit the field
    let two_to_64 = fe(1 << 32).mul(&fe(1 << 32));
    let wide = vec![fe(2), two_to_64];
    assert_eq!(TestCircuit::new(Bootstrap::Constant, 63).check(122, wide), Ok(true));
}

#[test]
fn the_power_is_taken_in_the_field() {
    // (p - 1)^2 = 1 and (p - 1)^3 = p - 1
    let minus_one = FieldElement::one().neg();
    let square = vec![minus_one, fe(1)];
    assert_eq!(TestCircuit::new(Bootstrap::Constant, 1).check(10, square), Ok(true));
    let cube = vec![minus_one, minus_one];
    assert_eq!(TestCircuit::new(Bootstrap::Constant, 2).check(10, cube), Ok(true));
    let not_a_cube = vec![minus_one, fe(1)];
    assert_eq!(TestCircuit::new(Bootstrap::Constant, 2).check(10, not_a_cube), Ok(false));
}

#[test]
fn a_circuit_needs_room_for_its_rows_and_its_inputs() {
    let circuit = TestCircuit::new(Bootstrap::Constant, 11);
    assert_eq!(circuit.check(11, inputs(&[2, 4096])), Err(Error::NotEnoughRowsAvailable));
    assert_eq!(circuit.check(12, inputs(&[2, 4096])), Ok(true));
    assert_eq!(circuit.check(1, inputs(&[2, 4096])), Err(Error::InstanceTooLarge));
    assert_eq!(circuit.lay_out(11, None).err(), Some(Error::NotEnoughRowsAvailable));

    // one row, but the output slot is the third
    let short = TestCircuit::new(Bootstrap::Instance, 0);
    assert_eq!(short.check(2, inputs(&[1, 1])), Err(Error::NotEnoughRowsAvailable));
    assert_eq!(short.check(3, inputs(&[1, 1])), Ok(false));
    assert_eq!(short.check(3, inputs(&[1, 0])), Ok(true));
}

#[test]
fn synthesize_fails_before_it_touches_the_trace() {
    let mut cs = ConstraintSystem::new();
    let circuit = TestCircuit::new(Bootstrap::Constant, 3);
    let config: PowerByNumConfig = circuit.configure(&mut cs);
    let mut layouter = Layouter::new(cs, 3, Some(inputs(&[2, 16]))).unwrap();
    assert_eq!(circuit.synthesize(config, &mut layouter), Err(Error::NotEnoughRowsAvailable));
    assert_eq!(layouter.row_count(), 0);
    assert_eq!(layouter.constant_count(), 0);
    assert!(layouter.copies().is_empty());
}

#[test]
fn a_key_only_pass_lays_out_the_same_shape() {
    let circuit = TestCircuit::new(Bootstrap::Constant, 11);
    assert_eq!(circuit.without_witnesses(), circuit);
    let (_, keys) = circuit.lay_out(122, None).unwrap();
    let (_, first) = circuit.lay_out(122, Some(inputs(&[2, 4096]))).unwrap();
    let (_, second) = circuit.lay_out(122, Some(inputs(&[5, 1]))).unwrap();
    assert!(keys.is_key_only());
    assert_eq!(keys.row_count(), 12);
    assert_eq!(keys.copies(), first.copies());
    assert_eq!(first.copies(), second.copies());
    assert_eq!(keys.constant_count(), first.constant_count());
    // the constant is known even where no input is
    let constant = keys.value_at(Cell { column: Column::Fixed(0), row: 0 });
    assert!(matches!(constant, Some(Value::Known(f)) if f.equals(&fe(1))));
    assert!(matches!(keys.value_at(advice(2, 11)), Some(Value::Unknown)));
    assert!(keys.value_at(advice(2, 12)).is_none());
}
