//! What holds of every trace that the chip lays out.

use crate::chip::{product, Bootstrap, PowerByNumConfig};
use crate::circuit::TestCircuit;
use crate::constraint_system::{Column, Expression, Gate};
use crate::field::{add_mod, modulus, mul_mod, neg_mod};
use crate::trace::{Cell, CopyConstraint, RowView, Trace};
use vstd::arithmetic::div_mod::{lemma_mul_mod_noop_right, lemma_small_mod};
use vstd::arithmetic::power::pow;
use vstd::prelude::*;

verus! {

/// `first * factor^(n + 1)` in the field.
pub open spec fn scaled_power(first: nat, factor: nat, n: nat) -> nat {
    ((first * pow(factor as int, n + 1)) % (modulus() as int)) as nat
}

/// In the field, `a * b - c` is 0 exactly where `c` is the product of `a`
/// and `b`.
pub proof fn lemma_difference_vanishes(a: nat, b: nat, c: nat)
    requires
        c < modulus(),
    ensures
        add_mod(mul_mod(a, b), neg_mod(c)) == 0 <==> c == mul_mod(a, b),
{
    let p = modulus();
    let m = mul_mod(a, b);
    assert(m < p) by {
        vstd::arithmetic::div_mod::lemma_mod_bound((a * b) as int, p as int);
    }
    if c == 0 {
        assert(neg_mod(c) == 0);
        lemma_small_mod(m, p);
    } else {
        lemma_small_mod((p - c) as nat, p);
        assert(neg_mod(c) == p - c);
        if m == c {
            assert(m + neg_mod(c) == p);
            assert(add_mod(m, neg_mod(c)) == 0);
        } else if m < c {
            lemma_small_mod((m + p - c) as nat, p);
        } else {
            assert(m + (p - c) == p + (m - c));
            assert(add_mod(m, neg_mod(c)) == (m - c) as nat) by {
                vstd::arithmetic::div_mod::lemma_mod_add_multiples_vanish((m - c) as int, p as int);
                lemma_small_mod((m - c) as nat, p);
            }
        }
    }
}

/// What the chip's gate asks of a row. Where the selector is off it asks
/// nothing. Where the selector is on, the row meets it exactly if the three
/// cells hold numbers and the product cell holds the field product of the
/// other two.
pub proof fn lemma_mul_gate(config: PowerByNumConfig, row: RowView, name: &'static str)
    requires
        config.selector.index < row.selectors.len(),
        config.col_a.index < row.advice.len(),
        config.col_b.index < row.advice.len(),
        config.col_c.index < row.advice.len(),
        forall|i: int|
            0 <= i < row.advice.len() ==> (match #[trigger] row.advice[i] {
                Some(Some(v)) => v < modulus(),
                _ => true,
            }),
    ensures
        row.meets(Gate { name, poly: config.mul_gate() }) <==> (row.selectors[config.selector.index as int]
            ==> {
            &&& row.advice[config.col_a.index as int] matches Some(Some(a))
            &&& row.advice[config.col_b.index as int] matches Some(Some(b))
            &&& row.advice[config.col_c.index as int] matches Some(Some(c))
            &&& c == mul_mod(a, b)
        }),
{
    reveal_with_fuel(Expression::eval, 5);
    reveal_with_fuel(Expression::active, 5);
    reveal_with_fuel(Expression::supplied, 5);
    let values = row.values();
    let a = values[config.col_a.index as int];
    let b = values[config.col_b.index as int];
    let c = values[config.col_c.index as int];
    let inner = add_mod(mul_mod(a, b), neg_mod(c));
    assert(row.advice[config.col_c.index as int] is Some ==> c < modulus());
    assert(c < modulus());
    lemma_difference_vanishes(a, b, c);
    assert(inner < modulus()) by {
        vstd::arithmetic::div_mod::lemma_mod_bound(
            (mul_mod(a, b) + neg_mod(c)) as int,
            modulus() as int,
        );
    }
    if row.selectors[config.selector.index as int] {
        assert(mul_mod(1, inner) == inner) by {
            assert(1 * inner == inner);
            lemma_small_mod(inner, modulus());
        }
    } else {
        assert(mul_mod(0, inner) == 0) by {
            assert(0 * inner == 0);
        }
    }
}

/// The product cell `n` rows after row 0 holds the first operand times the
/// `n + 1`-th power of the factor, in the field.
pub proof fn lemma_chain_product_is_power(config: PowerByNumConfig, t: Trace, n: nat)
    requires
        t.wf(),
        !t.key_only(),
    ensures
        TestCircuit::chain_product(config, t, n) == Some(
            scaled_power(
                config.first_operand(t).unwrap(),
                t.instance_value(config.factor_slot()).unwrap(),
                n,
            ),
        ),
    decreases n,
{
    let p = modulus() as int;
    let first = config.first_operand(t).unwrap() as int;
    let x = t.instance_value(config.factor_slot()).unwrap() as int;
    if n == 0 {
        assert(pow(x, 1) == x) by {
            vstd::arithmetic::power::lemma_pow1(x);
        }
    } else {
        lemma_chain_product_is_power(config, t, (n - 1) as nat);
        let prev = first * pow(x, n);
        assert(pow(x, n + 1) == x * pow(x, n)) by {
            reveal(pow);
        }
        assert(x * prev == first * pow(x, n + 1)) by (nonlinear_arith)
            requires
                prev == first * pow(x, n),
                pow(x, n + 1) == x * pow(x, n),
        ;
        lemma_mul_mod_noop_right(x, prev, p);
    }
}

/// The left operand of the row `k` rows after row 0: the first operand in
/// row 0, the previous product after it.
pub open spec fn chain_left(config: PowerByNumConfig, t: Trace, k: nat) -> Option<nat> {
    if k == 0 {
        config.first_operand(t)
    } else {
        TestCircuit::chain_product(config, t, (k - 1) as nat)
    }
}

/// The row that a chain on `t` lays out `k` rows after row 0: the selector
/// on, and the three cells assigned.
pub open spec fn chain_row(config: PowerByNumConfig, t: Trace, k: nat) -> RowView {
    let blank = RowView::blank(t.cs.num_advice(), t.cs.num_selector());
    RowView {
        advice: blank.advice.update(
            config.col_a.index as int,
            Some(chain_left(config, t, k)),
        ).update(
            config.col_b.index as int,
            Some(t.instance_value(config.factor_slot())),
        ).update(config.col_c.index as int, Some(TestCircuit::chain_product(config, t, k))),
        selectors: blank.selectors.update(config.selector.index as int, true),
    }
}

/// A chain leaves the rows that were there alone and adds its own, one per
/// multiplication; it adds the constant 1 to the constants column where it
/// starts from a constant, and nothing else to it.
pub proof fn lemma_chain_rows(config: PowerByNumConfig, t: Trace, n: nat)
    requires
        t.wf(),
        config.fits(t.cs),
    ensures
        TestCircuit::chain(config, t, n).rows == t.rows + Seq::new(
            n + 1,
            |k: int| chain_row(config, t, k as nat),
        ),
        TestCircuit::chain(config, t, n).constants == match config.constant {
            Some(_) => t.constants.push(1),
            None => t.constants,
        },
        TestCircuit::chain(config, t, n).cs == t.cs,
        TestCircuit::chain(config, t, n).usable_rows == t.usable_rows,
        TestCircuit::chain(config, t, n).instance == t.instance,
        TestCircuit::chain(config, t, n).copies.len() == t.copies.len() + 2 * (n + 1),
    decreases n,
{
    let after = TestCircuit::chain(config, t, n);
    let target = t.rows + Seq::new(n + 1, |k: int| chain_row(config, t, k as nat));
    if n == 0 {
        assert(after.rows.len() == target.len());
        assert forall|r: int| 0 <= r < target.len() implies after.rows[r] == target[r] by {
            if r == t.rows.len() {
                assert(after.rows[r].advice =~= chain_row(config, t, 0).advice);
                assert(after.rows[r].selectors =~= chain_row(config, t, 0).selectors);
            }
        }
        assert(after.rows =~= target);
    } else {
        lemma_chain_rows(config, t, (n - 1) as nat);
        let before = TestCircuit::chain(config, t, (n - 1) as nat);
        assert(after.rows.len() == target.len());
        assert forall|r: int| 0 <= r < target.len() implies after.rows[r] == target[r] by {
            if r == t.rows.len() + n {
                assert(after.rows[r].advice =~= chain_row(config, t, n).advice);
                assert(after.rows[r].selectors =~= chain_row(config, t, n).selectors);
            } else {
                assert(after.rows[r] == before.rows[r]);
            }
        }
        assert(after.rows =~= target);
    }
}

/// Row chaining: in every row of a chain the selector is on and the product
/// cell holds the product of the left and the right cell; the left cell of
/// each row after row 0 holds the product of the row before, and the right
/// cell holds the factor throughout.
pub proof fn lemma_row_chaining(config: PowerByNumConfig, t: Trace, n: nat, k: nat)
    requires
        t.wf(),
        config.fits(t.cs),
        k <= n,
    ensures
        ({
            let row = TestCircuit::chain(config, t, n).rows[(t.rows.len() + k) as int];
            let before = TestCircuit::chain(config, t, n).rows[t.rows.len() + k - 1];
            &&& row.selectors[config.selector.index as int]
            &&& row.advice[config.col_a.index as int] matches Some(a)
            &&& row.advice[config.col_b.index as int] matches Some(b)
            &&& row.advice[config.col_c.index as int] matches Some(c)
            &&& c == product(a, b)
            &&& b == t.instance_value(config.factor_slot())
            &&& k > 0 ==> Some(a) == before.advice[config.col_c.index as int]
            &&& k == 0 ==> a == config.first_operand(t)
        }),
{
    lemma_chain_rows(config, t, n);
    let row = TestCircuit::chain(config, t, n).rows[(t.rows.len() + k) as int];
    assert(row == chain_row(config, t, k));
    let a = chain_left(config, t, k);
    let b = t.instance_value(config.factor_slot());
    lemma_product_commutes(a, b);
    if k > 0 {
        let before = TestCircuit::chain(config, t, n).rows[t.rows.len() + k - 1];
        assert(before == chain_row(config, t, (k - 1) as nat));
    }
}

/// The product of two values does not depend on their order.
pub proof fn lemma_product_commutes(a: Option<nat>, b: Option<nat>)
    ensures
        product(a, b) == product(b, a),
{
    if a.is_some() && b.is_some() {
        assert(a.unwrap() * b.unwrap() == b.unwrap() * a.unwrap()) by (nonlinear_arith);
    }
}

/// A cell that holds something before a chain is laid out holds the same
/// after.
pub proof fn lemma_chain_keeps(config: PowerByNumConfig, t: Trace, n: nat, cell: Cell)
    requires
        t.wf(),
        config.fits(t.cs),
        t.value_at(cell).is_some(),
    ensures
        TestCircuit::chain(config, t, n).value_at(cell) == t.value_at(cell),
{
    lemma_chain_rows(config, t, n);
}

/// A cell that holds something in a chain holds the same in a longer one.
pub proof fn lemma_chain_grows(config: PowerByNumConfig, t: Trace, n: nat, cell: Cell)
    requires
        t.wf(),
        config.fits(t.cs),
        n > 0,
        TestCircuit::chain(config, t, (n - 1) as nat).value_at(cell).is_some(),
    ensures
        TestCircuit::chain(config, t, n).value_at(cell) == TestCircuit::chain(
            config,
            t,
            (n - 1) as nat,
        ).value_at(cell),
{
    lemma_chain_rows(config, t, n);
    lemma_chain_rows(config, t, (n - 1) as nat);
    let before = TestCircuit::chain(config, t, (n - 1) as nat);
    let after = TestCircuit::chain(config, t, n);
    match cell.column {
        Column::Advice(c) => {
            assert(cell.row < before.rows.len());
            assert(after.rows[cell.row as int] == before.rows[cell.row as int]);
        },
        _ => {},
    }
}

/// What the three cells of a chain row hold, read through the trace.
pub proof fn lemma_chain_cells(config: PowerByNumConfig, t: Trace, n: nat, k: nat)
    requires
        t.wf(),
        config.fits(t.cs),
        k <= n,
        t.rows.len() + n < t.usable_rows,
    ensures
        TestCircuit::chain(config, t, n).value_at(
            PowerByNumConfig::cell(config.col_a, (t.rows.len() + k) as int),
        ) == Some(chain_left(config, t, k)),
        TestCircuit::chain(config, t, n).value_at(
            PowerByNumConfig::cell(config.col_b, (t.rows.len() + k) as int),
        ) == Some(t.instance_value(config.factor_slot())),
        TestCircuit::chain(config, t, n).value_at(
            PowerByNumConfig::cell(config.col_c, (t.rows.len() + k) as int),
        ) == Some(TestCircuit::chain_product(config, t, k)),
{
    lemma_chain_rows(config, t, n);
    let after = TestCircuit::chain(config, t, n);
    assert(after.rows[(t.rows.len() + k) as int] == chain_row(config, t, k));
}

/// Copy-constraint consistency: where every copy constraint of a trace
/// links cells that hold the same, so does every copy constraint after a
/// chain was laid out on it.
pub proof fn lemma_chain_copies_consistent(config: PowerByNumConfig, t: Trace, n: nat)
    requires
        t.wf(),
        config.fits(t.cs),
        config.can_start(t),
        t.rows.len() + n < t.usable_rows,
        t.copies_consistent(),
    ensures
        TestCircuit::chain(config, t, n).copies_consistent(),
    decreases n,
{
    let after = TestCircuit::chain(config, t, n);
    let first = t.rows.len() as int;
    lemma_chain_rows(config, t, n);
    lemma_chain_cells(config, t, n, n);
    lemma_chain_cells(config, t, n, 0);
    if n == 0 {
        assert forall|j: int| 0 <= j < after.copies.len() implies after.copy_holds(
            #[trigger] after.copies[j],
        ) by {
            if j < t.copies.len() {
                assert(after.copies[j] == t.copies[j]);
                assert(t.copy_holds(t.copies[j]));
                lemma_chain_keeps(config, t, n, t.copies[j].left);
                lemma_chain_keeps(config, t, n, t.copies[j].right);
            }
        }
    } else {
        let before = TestCircuit::chain(config, t, (n - 1) as nat);
        lemma_chain_copies_consistent(config, t, (n - 1) as nat);
        lemma_chain_rows(config, t, (n - 1) as nat);
        lemma_chain_cells(config, t, n, (n - 1) as nat);
        assert forall|j: int| 0 <= j < after.copies.len() implies after.copy_holds(
            #[trigger] after.copies[j],
        ) by {
            if j < before.copies.len() {
                assert(after.copies[j] == before.copies[j]);
                assert(before.copy_holds(before.copies[j]));
                lemma_chain_grows(config, t, n, before.copies[j].left);
                lemma_chain_grows(config, t, n, before.copies[j].right);
            }
        }
    }
}

/// Every gate of the constraint system is the chip's gate.
pub open spec fn only_mul_gates(config: PowerByNumConfig, t: Trace) -> bool {
    forall|g: int|
        0 <= g < t.cs.gate_list().len() ==> (#[trigger] t.cs.gate_list()[g]).poly
            == config.mul_gate()
}

/// Outside a key-only pass, every row of a chain meets the chip's gate.
pub proof fn lemma_chain_rows_meet_gate(
    config: PowerByNumConfig,
    t: Trace,
    n: nat,
    k: nat,
    name: &'static str,
)
    requires
        t.wf(),
        !t.key_only(),
        config.fits(t.cs),
        k <= n,
    ensures
        TestCircuit::chain(config, t, n).rows[(t.rows.len() + k) as int].meets(
            Gate { name, poly: config.mul_gate() },
        ),
{
    lemma_chain_rows(config, t, n);
    lemma_row_chaining(config, t, n, k);
    TestCircuit::lemma_chain_frame(config, t, k);
    if k > 0 {
        TestCircuit::lemma_chain_frame(config, t, (k - 1) as nat);
    }
    let row = TestCircuit::chain(config, t, n).rows[(t.rows.len() + k) as int];
    assert(row == chain_row(config, t, k));
    let a = chain_left(config, t, k);
    let b = t.instance_value(config.factor_slot());
    let c = TestCircuit::chain_product(config, t, k);
    assert(a.is_some() && b.is_some() && c.is_some());
    lemma_values_in_field(config, t, k);
    assert forall|i: int| 0 <= i < row.advice.len() implies (match #[trigger] row.advice[i] {
        Some(Some(v)) => v < modulus(),
        _ => true,
    }) by {}
    lemma_mul_gate(config, row, name);
}

/// Outside a key-only pass, the three values of a chain row are numbers
/// below the modulus.
pub proof fn lemma_values_in_field(config: PowerByNumConfig, t: Trace, k: nat)
    requires
        t.wf(),
        !t.key_only(),
    ensures
        chain_left(config, t, k) matches Some(a) && a < modulus(),
        t.instance_value(config.factor_slot()) matches Some(b) && b < modulus(),
        TestCircuit::chain_product(config, t, k) matches Some(c) && c < modulus(),
{
    TestCircuit::lemma_chain_frame(config, t, k);
    let b = t.instance_value(config.factor_slot()).unwrap();
    if k > 0 {
        TestCircuit::lemma_chain_frame(config, t, (k - 1) as nat);
        let prev = TestCircuit::chain_product(config, t, (k - 1) as nat).unwrap();
        vstd::arithmetic::div_mod::lemma_mod_bound((b * prev) as int, modulus() as int);
        if k > 1 {
            let prev2 = TestCircuit::chain_product(config, t, (k - 2) as nat);
            TestCircuit::lemma_chain_frame(config, t, (k - 2) as nat);
            vstd::arithmetic::div_mod::lemma_mod_bound(
                (b * prev2.unwrap()) as int,
                modulus() as int,
            );
        } else {
            vstd::arithmetic::div_mod::lemma_mod_bound(
                (config.first_operand(t).unwrap() * b) as int,
                modulus() as int,
            );
        }
    } else {
        vstd::arithmetic::div_mod::lemma_mod_bound(
            (config.first_operand(t).unwrap() * b) as int,
            modulus() as int,
        );
    }
}

/// Completeness and soundness of the layout. On a satisfied trace whose
/// only gates are the chip's, with room for the circuit and the public
/// inputs known, the trace with the circuit laid out is satisfied exactly
/// where the output slot of the public inputs holds the last product of
/// the chain.
pub proof fn lemma_satisfied_iff_output_matches(
    circuit: TestCircuit,
    config: PowerByNumConfig,
    t: Trace,
)
    requires
        t.wf(),
        !t.key_only(),
        config.fits(t.cs),
        config.bootstrap() == circuit.bootstrap,
        circuit.rows_suffice(t),
        only_mul_gates(config, t),
        t.satisfied(),
    ensures
        circuit.synthesized(config, t).satisfied() <==> t.instance_value(circuit.output_slot())
            == TestCircuit::chain_product(config, t, circuit.steps as nat),
{
    let n = circuit.steps as nat;
    let chain = TestCircuit::chain(config, t, n);
    let done = circuit.synthesized(config, t);
    lemma_chain_rows(config, t, n);
    lemma_chain_copies_consistent(config, t, n);
    lemma_chain_cells(config, t, n, n);
    assert forall|r: int, g: int|
        0 <= r < done.rows.len() && 0 <= g < done.cs.gate_list().len() implies (
    #[trigger] done.rows[r]).meets(#[trigger] done.cs.gate_list()[g]) by {
        let gate = t.cs.gate_list()[g];
        if r < t.rows.len() {
            assert(done.rows[r] == t.rows[r]);
            assert(t.rows[r].meets(t.cs.gate_list()[g]));
        } else {
            lemma_chain_rows_meet_gate(config, t, n, (r - t.rows.len()) as nat, gate.name);
            assert(gate == Gate { name: gate.name, poly: config.mul_gate() });
        }
    }
    assert(done.gates_satisfied());
    let tie = CopyConstraint {
        left: PowerByNumConfig::cell(config.col_c, t.rows.len() + circuit.steps),
        right: Cell { column: Column::Instance(0), row: circuit.output_slot() as usize },
    };
    assert(done.copies == chain.copies.push(tie));
    assert(done.value_at(tie.left) == chain.value_at(tie.left));
    assert(done.value_at(tie.right) == Some(t.instance_value(circuit.output_slot())));
    if done.copies_consistent() {
        assert(done.copies[chain.copies.len() as int] == tie);
        assert(done.copy_holds(tie));
    }
    if t.instance_value(circuit.output_slot()) == TestCircuit::chain_product(config, t, n) {
        assert forall|j: int| 0 <= j < done.copies.len() implies done.copy_holds(
            #[trigger] done.copies[j],
        ) by {
            if j < chain.copies.len() {
                assert(done.copies[j] == chain.copies[j]);
                assert(chain.copy_holds(chain.copies[j]));
                assert(done.value_at(chain.copies[j].left) == chain.value_at(chain.copies[j].left));
                assert(done.value_at(chain.copies[j].right) == chain.value_at(
                    chain.copies[j].right,
                ));
            }
        }
    }
}

/// The copy constraints of a chain depend on where the chain is laid out,
/// not on any value.
pub proof fn lemma_chain_copies_ignore_values(
    config: PowerByNumConfig,
    t1: Trace,
    t2: Trace,
    n: nat,
)
    requires
        t1.cs == t2.cs,
        t1.rows.len() == t2.rows.len(),
        t1.constants.len() == t2.constants.len(),
        t1.copies == t2.copies,
    ensures
        TestCircuit::chain(config, t1, n).copies == TestCircuit::chain(config, t2, n).copies,
        TestCircuit::chain(config, t1, n).rows.len() == TestCircuit::chain(
            config,
            t2,
            n,
        ).rows.len(),
        TestCircuit::chain(config, t1, n).cs == TestCircuit::chain(config, t2, n).cs,
    decreases n,
{
    if n > 0 {
        lemma_chain_copies_ignore_values(config, t1, t2, (n - 1) as nat);
    }
}

/// The shape of the trace that a circuit lays out does not depend on the
/// public inputs: two traces of one shape, whatever their inputs and
/// values, have one shape after the circuit was laid out on them. A
/// key-only pass and every proving pass thus fix the same shape.
pub proof fn lemma_shape_ignores_inputs(
    circuit: TestCircuit,
    config: PowerByNumConfig,
    t1: Trace,
    t2: Trace,
)
    requires
        t1.wf(),
        t2.wf(),
        config.fits(t1.cs),
        t1.shape() == t2.shape(),
    ensures
        circuit.synthesized(config, t1).shape() == circuit.synthesized(config, t2).shape(),
{
    let n = circuit.steps as nat;
    let s1 = circuit.synthesized(config, t1);
    let s2 = circuit.synthesized(config, t2);
    assert(t1.rows.len() == t1.shape().selectors.len());
    assert(t2.rows.len() == t2.shape().selectors.len());
    lemma_chain_rows(config, t1, n);
    lemma_chain_rows(config, t2, n);
    lemma_chain_copies_ignore_values(config, t1, t2, n);
    assert(s1.rows.len() == s2.rows.len());
    assert forall|r: int| 0 <= r < s1.rows.len() implies s1.shape().selectors[r]
        == s2.shape().selectors[r] && s1.shape().assigned[r] == s2.shape().assigned[r] by {
        if r < t1.rows.len() {
            assert(s1.rows[r] == t1.rows[r]);
            assert(s2.rows[r] == t2.rows[r]);
            assert(t1.shape().selectors[r] == t2.shape().selectors[r]);
            assert(t1.shape().assigned[r] == t2.shape().assigned[r]);
        } else {
            let k = (r - t1.rows.len()) as nat;
            assert(s1.rows[r] == chain_row(config, t1, k));
            assert(s2.rows[r] == chain_row(config, t2, k));
            assert(s1.shape().assigned[r] =~= s2.shape().assigned[r]);
        }
    }
    assert(s1.shape().selectors =~= s2.shape().selectors);
    assert(s1.shape().assigned =~= s2.shape().assigned);
}

/// The constraint system that a circuit declares fits the circuit's
/// columns, and holds no gate but the chip's.
pub proof fn lemma_declared_fits(circuit: TestCircuit, config: PowerByNumConfig, t: Trace)
    requires
        circuit.declares(config, t.cs),
    ensures
        config.fits(t.cs),
        config.bootstrap() == circuit.bootstrap,
        only_mul_gates(config, t),
{
    let columns = config.equality_columns();
    assert(columns[0] == Column::Advice(config.col_a.index));
    assert(columns[1] == Column::Advice(config.col_b.index));
    assert(columns[2] == Column::Advice(config.col_c.index));
    assert(columns[3] == Column::Instance(config.instance.index));
}

/// The relation that the circuit stands for, on the numbers of the public
/// inputs (0 where a slot is not supplied): the output is the first
/// operand times the `steps + 1`-th power of the factor, in the field.
/// Where the chain starts from the constant 1, the inputs are the factor
/// and the output; else the first operand, the factor and the output.
pub open spec fn relation(circuit: TestCircuit, inputs: Seq<nat>) -> bool {
    let at = |slot: int|
        if 0 <= slot < inputs.len() {
            inputs[slot]
        } else {
            0nat
        };
    match circuit.bootstrap {
        Bootstrap::Constant => at(1) == scaled_power(1, at(0), circuit.steps as nat),
        Bootstrap::Instance => at(2) == scaled_power(at(0), at(1), circuit.steps as nat),
    }
}

/// Completeness and soundness on a fresh trace: with the public inputs
/// known and room for the circuit, the trace that the circuit lays out is
/// satisfied exactly where the public inputs are in the relation.
pub proof fn lemma_satisfied_iff_relation(
    circuit: TestCircuit,
    config: PowerByNumConfig,
    t: Trace,
    inputs: Seq<nat>,
)
    requires
        t.wf(),
        t == Trace::empty(t.cs, t.usable_rows, Some(inputs)),
        circuit.declares(config, t.cs),
        circuit.rows_suffice(t),
    ensures
        circuit.synthesized(config, t).satisfied() <==> relation(circuit, inputs),
{
    lemma_declared_fits(circuit, config, t);
    lemma_satisfied_iff_output_matches(circuit, config, t);
    lemma_chain_product_is_power(config, t, circuit.steps as nat);
}

} // verus!
