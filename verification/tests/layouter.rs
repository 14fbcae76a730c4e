use nth_power::chip::{Bootstrap, PowerByNumChip, PowerByNumConfig};
use nth_power::constraint_system::{AdviceColumn, Column, ConstraintSystem, InstanceColumn};
use nth_power::constraint_system::Selector;
use nth_power::error::Error;
use nth_power::field::FieldElement;
use nth_power::layouter::{AssignedCell, Layouter};
use nth_power::trace::{Cell, CopyConstraint};
use nth_power::value::Value;

fn fe(v: u64) -> FieldElement {
    FieldElement::from_u64(v)
}

fn known(v: u64) -> Value {
    Value::Known(fe(v))
}

fn number(v: Option<Value>) -> Option<[u8; 32]> {
    match v {
        Some(Value::Known(f)) => Some(f.to_repr()),
        _ => None,
    }
}

fn configured(bootstrap: Bootstrap) -> (ConstraintSystem, PowerByNumConfig) {
    let mut cs = ConstraintSystem::new();
    let config = PowerByNumChip::configure(&mut cs, bootstrap);
    (cs, config)
}

fn fresh(bootstrap: Bootstrap, rows: usize, inputs: &[u64]) -> (Layouter, PowerByNumConfig) {
    let (cs, config) = configured(bootstrap);
    let inputs = inputs.iter().map(|v| fe(*v)).collect();
    (Layouter::new(cs, rows, Some(inputs)).unwrap(), config)
}

fn advice(column: usize, row: usize) -> Cell {
    Cell { column: Column::Advice(column), row }
}

#[test]
fn a_trace_needs_exactly_one_instance_column() {
    let none = ConstraintSystem::new();
    assert_eq!(Layouter::new(none, 10, None).err(), Some(Error::InvalidInstances));

    let mut two = ConstraintSystem::new();
    two.instance_column();
    two.instance_column();
    assert_eq!(Layouter::new(two, 10, Some(vec![])).err(), Some(Error::InvalidInstances));
}

#[test]
fn a_trace_takes_no_more_inputs_than_rows() {
    let (cs, _) = configured(Bootstrap::Constant);
    let inputs = vec![fe(1), fe(2), fe(3)];
    assert_eq!(Layouter::new(cs, 2, Some(inputs)).err(), Some(Error::InstanceTooLarge));

    let (cs, _) = configured(Bootstrap::Constant);
    let layouter = Layouter::new(cs, 3, Some(vec![fe(1), fe(2), fe(3)])).unwrap();
    assert_eq!(layouter.usable_rows(), 3);
    assert_eq!(layouter.row_count(), 0);
    assert!(!layouter.is_key_only());
    assert!(layouter.is_satisfied());
}

#[test]
fn rows_are_opened_until_none_is_left() {
    let (mut layouter, _) = fresh(Bootstrap::Constant, 2, &[]);
    assert_eq!(layouter.open_region(), Ok(0));
    assert_eq!(layouter.open_region(), Ok(1));
    assert_eq!(layouter.open_region(), Err(Error::NotEnoughRowsAvailable));
    assert_eq!(layouter.row_count(), 2);
}

#[test]
fn a_selector_is_enabled_where_row_and_selector_exist() {
    let (mut layouter, config) = fresh(Bootstrap::Constant, 4, &[]);
    assert_eq!(layouter.enable_selector(config.selector, 0), Err(Error::BoundsFailure));
    layouter.open_region().unwrap();
    layouter.open_region().unwrap();
    assert_eq!(layouter.enable_selector(Selector { index: 1 }, 0), Err(Error::BoundsFailure));
    assert_eq!(layouter.enable_selector(config.selector, 1), Ok(()));
    assert!(!layouter.selector_enabled(config.selector, 0));
    assert!(layouter.selector_enabled(config.selector, 1));
    assert!(!layouter.selector_enabled(config.selector, 2));
}

#[test]
fn a_cell_is_assigned_once() {
    let (mut layouter, config) = fresh(Bootstrap::Constant, 4, &[]);
    assert_eq!(
        layouter.assign_advice(config.col_a, 0, known(5)).err(),
        Some(Error::BoundsFailure)
    );
    let row = layouter.open_region().unwrap();
    assert_eq!(
        layouter.assign_advice(AdviceColumn { index: 3 }, row, known(5)).err(),
        Some(Error::BoundsFailure)
    );
    assert_eq!(layouter.value_at(advice(0, row)).map(|v| v.is_known()), None);
    let cell = layouter.assign_advice(config.col_a, row, known(5)).unwrap();
    assert_eq!(cell.cell, advice(0, row));
    assert_eq!(number(Some(cell.value)), Some(fe(5).to_repr()));
    assert_eq!(number(layouter.value_at(advice(0, row))), Some(fe(5).to_repr()));
    assert_eq!(layouter.assign_advice(config.col_a, row, known(6)).err(), Some(Error::Synthesis));
    assert_eq!(number(layouter.value_at(advice(0, row))), Some(fe(5).to_repr()));
}

#[test]
fn an_unknown_value_is_taken_only_in_a_key_only_pass() {
    let (mut proving, config) = fresh(Bootstrap::Constant, 4, &[]);
    let row = proving.open_region().unwrap();
    assert_eq!(
        proving.assign_advice(config.col_a, row, Value::Unknown).err(),
        Some(Error::Synthesis)
    );
    assert!(proving.value_at(advice(0, row)).is_none());

    let (cs, config) = configured(Bootstrap::Constant);
    let mut keys = Layouter::new(cs, 4, None).unwrap();
    assert!(keys.is_key_only());
    let row = keys.open_region().unwrap();
    let cell = keys.assign_advice(config.col_a, row, Value::Unknown).unwrap();
    assert!(!cell.value.is_known());
    assert_eq!(keys.value_at(advice(0, row)).map(|v| v.is_known()), Some(false));
}

#[test]
fn a_constant_goes_into_the_constants_column_too() {
    let (mut layouter, config) = fresh(Bootstrap::Constant, 4, &[]);
    let row = layouter.open_region().unwrap();
    let cell = layouter.assign_advice_from_constant(config.col_a, row, fe(9)).unwrap();
    assert_eq!(number(Some(cell.value)), Some(fe(9).to_repr()));
    assert_eq!(layouter.constant_count(), 1);
    let constant = Cell { column: Column::Fixed(0), row: 0 };
    assert_eq!(number(layouter.value_at(constant)), Some(fe(9).to_repr()));
    assert_eq!(
        layouter.copies(),
        &vec![CopyConstraint { left: constant, right: advice(0, row) }]
    );
    assert!(layouter.is_satisfied());
}

#[test]
fn a_constant_needs_a_constants_column_with_room() {
    let (mut without, config) = fresh(Bootstrap::Instance, 4, &[]);
    let row = without.open_region().unwrap();
    assert_eq!(
        without.assign_advice_from_constant(config.col_a, row, fe(1)).err(),
        Some(Error::NotEnoughColumnsForConstants)
    );

    let (mut full, config) = fresh(Bootstrap::Constant, 1, &[]);
    let row = full.open_region().unwrap();
    full.assign_advice_from_constant(config.col_a, row, fe(1)).unwrap();
    assert_eq!(
        full.assign_advice_from_constant(config.col_b, row, fe(1)).err(),
        Some(Error::NotEnoughRowsAvailable)
    );
    assert_eq!(full.constant_count(), 1);
    assert!(full.value_at(advice(1, row)).is_none());
}

#[test]
fn copy_constraints_touch_only_columns_that_are_open_to_them() {
    let mut cs = ConstraintSystem::new();
    let open = cs.advice_column();
    let closed = cs.advice_column();
    let instance = cs.instance_column();
    let fixed = cs.fixed_column();
    cs.enable_equality(open.any());
    cs.enable_constant(fixed);
    let mut layouter = Layouter::new(cs, 4, Some(vec![fe(3)])).unwrap();
    let row = layouter.open_region().unwrap();

    assert_eq!(
        layouter.assign_advice_from_constant(closed, row, fe(1)).err(),
        Some(Error::ColumnNotInPermutation(Column::Advice(1)))
    );
    assert_eq!(
        layouter.assign_advice_from_instance(instance, 0, closed, row).err(),
        Some(Error::ColumnNotInPermutation(Column::Advice(1)))
    );
    assert_eq!(
        layouter.assign_advice_from_instance(instance, 0, open, row).err(),
        Some(Error::ColumnNotInPermutation(Column::Instance(0)))
    );
    let source = layouter.assign_advice(closed, row, known(4)).unwrap();
    assert_eq!(
        layouter.copy_advice(&source, open, row).err(),
        Some(Error::ColumnNotInPermutation(Column::Advice(1)))
    );
    assert_eq!(
        layouter.constrain_instance(source.cell, instance, 0).err(),
        Some(Error::ColumnNotInPermutation(Column::Advice(1)))
    );
    let kept = layouter.assign_advice(open, row, known(4)).unwrap();
    assert_eq!(
        layouter.constrain_instance(kept.cell, instance, 0).err(),
        Some(Error::ColumnNotInPermutation(Column::Instance(0)))
    );
    assert!(layouter.copies().is_empty());
}

#[test]
fn a_public_input_is_copied_and_tied_to_its_slot() {
    let (mut layouter, config) = fresh(Bootstrap::Constant, 4, &[7, 8]);
    let row = layouter.open_region().unwrap();
    let cell = layouter.assign_advice_from_instance(config.instance, 1, config.col_b, row).unwrap();
    assert_eq!(number(Some(cell.value)), Some(fe(8).to_repr()));
    // past the last input the column holds 0
    let padded = layouter.assign_advice_from_instance(config.instance, 3, config.col_a, row).unwrap();
    assert_eq!(number(Some(padded.value)), Some(fe(0).to_repr()));
    assert_eq!(
        layouter.copies(),
        &vec![
            CopyConstraint {
                left: advice(1, row),
                right: Cell { column: Column::Instance(0), row: 1 }
            },
            CopyConstraint {
                left: advice(0, row),
                right: Cell { column: Column::Instance(0), row: 3 }
            },
        ]
    );
    assert!(layouter.is_satisfied());

    assert_eq!(
        layouter.assign_advice_from_instance(config.instance, 4, config.col_c, row).err(),
        Some(Error::NotEnoughRowsAvailable)
    );
    assert_eq!(
        layouter
            .assign_advice_from_instance(InstanceColumn { index: 1 }, 0, config.col_c, row)
            .err(),
        Some(Error::BoundsFailure)
    );
    assert_eq!(
        layouter.assign_advice_from_instance(config.instance, 0, config.col_b, row).err(),
        Some(Error::Synthesis)
    );
}

#[test]
fn a_copy_carries_the_value_that_comes_with_the_source() {
    let (mut layouter, config) = fresh(Bootstrap::Constant, 4, &[]);
    let first = layouter.open_region().unwrap();
    let source = layouter.assign_advice(config.col_c, first, known(11)).unwrap();
    let second = layouter.open_region().unwrap();
    let copy = layouter.copy_advice(&source, config.col_a, second).unwrap();
    assert_eq!(copy.cell, advice(0, second));
    assert_eq!(number(Some(copy.value)), Some(fe(11).to_repr()));
    assert_eq!(
        layouter.copies(),
        &vec![CopyConstraint { left: advice(0, second), right: advice(2, first) }]
    );
    assert!(layouter.is_satisfied());

    // A source that claims another value than its cell holds is refused.
    let forged = AssignedCell { cell: source.cell, value: known(12) };
    assert_eq!(layouter.copy_advice(&forged, config.col_b, second).err(), Some(Error::Synthesis));
    assert!(layouter.value_at(advice(1, second)).is_none());
    assert_eq!(layouter.copies().len(), 1);
    assert!(layouter.is_satisfied());
}

#[test]
fn a_copy_needs_a_source_that_holds_its_value() {
    let (mut layouter, config) = fresh(Bootstrap::Constant, 4, &[6]);
    let row = layouter.open_region().unwrap();
    let unknown = AssignedCell { cell: advice(2, 0), value: Value::Unknown };
    assert_eq!(layouter.check_source(&unknown), Some(Error::Synthesis));
    assert_eq!(layouter.copy_advice(&unknown, config.col_a, row).err(), Some(Error::Synthesis));
    let unassigned = AssignedCell { cell: advice(2, 0), value: known(1) };
    assert_eq!(layouter.check_source(&unassigned), Some(Error::Synthesis));
    let nowhere = AssignedCell { cell: advice(2, 4), value: known(1) };
    assert_eq!(layouter.check_source(&nowhere), Some(Error::Synthesis));
    assert_eq!(layouter.copy_advice(&nowhere, config.col_a, row).err(), Some(Error::Synthesis));
    assert!(layouter.value_at(advice(0, row)).is_none());

    // Cells of the public inputs and of the constants column can be copied from.
    let input = AssignedCell { cell: Cell { column: Column::Instance(0), row: 0 }, value: known(6) };
    assert_eq!(layouter.check_source(&input), None);
    let wrong = AssignedCell { cell: input.cell, value: known(7) };
    assert_eq!(layouter.check_source(&wrong), Some(Error::Synthesis));
    layouter.assign_advice_from_constant(config.col_c, row, fe(9)).unwrap();
    let constant = AssignedCell { cell: Cell { column: Column::Fixed(0), row: 0 }, value: known(9) };
    assert_eq!(layouter.check_source(&constant), None);
    let copy = layouter.copy_advice(&constant, config.col_a, row).unwrap();
    assert_eq!(number(Some(copy.value)), Some(fe(9).to_repr()));
    assert!(layouter.is_satisfied());
}

#[test]
fn a_tie_to_the_public_inputs_holds_where_the_values_agree() {
    let (mut layouter, config) = fresh(Bootstrap::Constant, 4, &[7, 8]);
    let row = layouter.open_region().unwrap();
    let cell = layouter.assign_advice(config.col_c, row, known(8)).unwrap();
    assert_eq!(layouter.constrain_instance(cell.cell, config.instance, 1), Ok(()));
    assert!(layouter.is_satisfied());
    assert_eq!(layouter.constrain_instance(cell.cell, config.instance, 0), Ok(()));
    assert!(!layouter.is_satisfied());
    assert_eq!(
        layouter.constrain_instance(cell.cell, config.instance, 4),
        Err(Error::NotEnoughRowsAvailable)
    );
    assert_eq!(layouter.copies().len(), 2);
}

#[test]
fn an_enabled_row_must_hold_a_right_product() {
    let (mut layouter, config) = fresh(Bootstrap::Constant, 4, &[]);
    let row = layouter.open_region().unwrap();
    assert!(layouter.is_satisfied());
    layouter.enable_selector(config.selector, row).unwrap();
    // the selector is on and the cells are not assigned
    assert!(!layouter.is_satisfied());
    layouter.assign_advice(config.col_a, row, known(3)).unwrap();
    layouter.assign_advice(config.col_b, row, known(5)).unwrap();
    assert!(!layouter.is_satisfied());
    layouter.assign_advice(config.col_c, row, known(15)).unwrap();
    assert!(layouter.is_satisfied());

    let next = layouter.open_region().unwrap();
    layouter.assign_advice(config.col_a, next, known(3)).unwrap();
    layouter.assign_advice(config.col_b, next, known(5)).unwrap();
    layouter.assign_advice(config.col_c, next, known(16)).unwrap();
    // the selector is off: the row may hold anything
    assert!(layouter.is_satisfied());
    layouter.enable_selector(config.selector, next).unwrap();
    assert!(!layouter.is_satisfied());
}
