//! The wiring predicates of a layer: which vertices of the hypercube stand
//! for its addition gates and which for its multiplication gates.

use crate::algebra::{act_as_identities, are_identities};
use crate::gkr::primitives::{Gate, GateType};
use crate::gkr::trace::{gate_in_range, layer_in_range, layer_valid, source_width};
use crate::gkr::utils::{
    bits_needed, is_indicator, lemma_bits_needed_bounds, lemma_packed_index_bound,
    lemma_packed_index_injective, packed_index,
};
use crate::polynomial::multilinear::{
    is_multilinear_value, lemma_computed_value_at_vertex, lemma_value_at_vertex,
    multilinear_value, vertex,
};
use core::ops::{Add, Mul, Sub};
use vstd::arithmetic::power2::pow2;
use vstd::prelude::*;

verus! {

/// The number of bits on which the wiring of layer `k` writes each operand:
/// enough to address the vector that the layer reads.
pub open spec fn wiring_width(layers: Seq<Seq<Gate>>, k: int, input_len: int) -> nat {
    bits_needed(source_width(layers, k, input_len) as nat)
}

/// The number of variables of the wiring predicates of layer `k`: the bits of
/// a gate address followed by the bits of the two operands.
pub open spec fn wiring_num_vars(layers: Seq<Seq<Gate>>, k: int, input_len: int) -> nat {
    bits_needed(layers[k].len()) + 2 * wiring_width(layers, k, input_len)
}

/// The hypercube index of gate `i` of the layer `gates`.
pub open spec fn gate_index(gates: Seq<Gate>, i: int, width: nat) -> int {
    packed_index(i as nat, gates[i].left() as nat, gates[i].right() as nat, width) as int
}

/// The hypercube indices of the gates of type `kind` in the layer `gates`.
pub open spec fn wiring_indices(gates: Seq<Gate>, kind: GateType, width: nat) -> Set<int> {
    Set::new(
        |index: int|
            exists|i: int|
                0 <= i < gates.len() && gates[i].gate_type == kind && #[trigger] gate_index(
                    gates,
                    i,
                    width,
                ) == index,
    )
}

/// Taking one more gate of the layer into account adds its index to the
/// indices of its own type and leaves those of the other type as they are.
pub proof fn lemma_wiring_indices_step(gates: Seq<Gate>, i: int, kind: GateType, width: nat)
    requires
        0 <= i < gates.len(),
    ensures
        wiring_indices(gates.take(i + 1), kind, width) == if gates[i].gate_type == kind {
            wiring_indices(gates.take(i), kind, width).insert(gate_index(gates, i, width))
        } else {
            wiring_indices(gates.take(i), kind, width)
        },
{
    let shorter = gates.take(i);
    let longer = gates.take(i + 1);
    let grown = if gates[i].gate_type == kind {
        wiring_indices(shorter, kind, width).insert(gate_index(gates, i, width))
    } else {
        wiring_indices(shorter, kind, width)
    };
    assert(gate_index(longer, i, width) == gate_index(gates, i, width));
    assert forall|index: int| wiring_indices(longer, kind, width).contains(index) implies grown.contains(
        index,
    ) by {
        let j = choose|j: int|
            0 <= j < longer.len() && longer[j].gate_type == kind && #[trigger] gate_index(
                longer,
                j,
                width,
            ) == index;
        if j < i {
            assert(gate_index(shorter, j, width) == index);
        }
    }
    assert forall|index: int| grown.contains(index) implies wiring_indices(
        longer,
        kind,
        width,
    ).contains(index) by {
        if wiring_indices(shorter, kind, width).contains(index) {
            let j = choose|j: int|
                0 <= j < shorter.len() && shorter[j].gate_type == kind && #[trigger] gate_index(
                    shorter,
                    j,
                    width,
                ) == index;
            assert(gate_index(longer, j, width) == index);
        }
    }
}

/// In a layer whose gates read inside the vector the layer reads, every
/// operand fits on the layer's operand width and every gate's index is a
/// vertex of the layer's hypercube.
pub proof fn lemma_valid_layer_fits(layers: Seq<Seq<Gate>>, k: int, input_len: int)
    requires
        0 <= k < layers.len(),
        0 <= input_len,
        layer_valid(layers, k, input_len),
    ensures
        layer_in_range(layers[k], pow2(wiring_width(layers, k, input_len)) as int),
        forall|i: int|
            0 <= i < layers[k].len() ==> 0 <= #[trigger] gate_index(
                layers[k],
                i,
                wiring_width(layers, k, input_len),
            ) < pow2(wiring_num_vars(layers, k, input_len)),
{
    let gates = layers[k];
    let source = source_width(layers, k, input_len);
    let width = wiring_width(layers, k, input_len);
    lemma_bits_needed_bounds(source as nat);
    lemma_bits_needed_bounds(gates.len());
    assert forall|i: int| 0 <= i < gates.len() implies gate_in_range(
        #[trigger] gates[i],
        pow2(width) as int,
    ) by {}
    assert forall|i: int| 0 <= i < gates.len() implies 0 <= #[trigger] gate_index(gates, i, width)
        < pow2(wiring_num_vars(layers, k, input_len)) by {
        lemma_packed_index_bound(
            i as nat,
            gates[i].left() as nat,
            gates[i].right() as nat,
            bits_needed(gates.len()),
            width,
        );
    }
}

/// Two gates of a layer whose operands fit on `width` bits have the same
/// hypercube index only if they are the same gate.
pub proof fn lemma_gate_index_injective(gates: Seq<Gate>, width: nat, i: int, j: int)
    requires
        layer_in_range(gates, pow2(width) as int),
        0 <= i < gates.len(),
        0 <= j < gates.len(),
        gate_index(gates, i, width) == gate_index(gates, j, width),
    ensures
        i == j,
{
    lemma_packed_index_injective(
        i as nat,
        gates[i].left() as nat,
        gates[i].right() as nat,
        j as nat,
        gates[j].left() as nat,
        gates[j].right() as nat,
        width,
    );
}

/// The first `count` gates of a layer have `count` hypercube indices between
/// them.
proof fn lemma_wiring_union_size(gates: Seq<Gate>, width: nat, count: int)
    requires
        layer_in_range(gates, pow2(width) as int),
        0 <= count <= gates.len(),
    ensures
        ({
            let all = wiring_indices(gates.take(count), GateType::Add, width).union(
                wiring_indices(gates.take(count), GateType::Mul, width),
            );
            all.finite() && all.len() == count
        }),
    decreases count,
{
    let all = wiring_indices(gates.take(count), GateType::Add, width).union(
        wiring_indices(gates.take(count), GateType::Mul, width),
    );
    if count == 0 {
        assert(all =~= Set::<int>::empty());
    } else {
        let shorter = gates.take(count - 1);
        let fewer = wiring_indices(shorter, GateType::Add, width).union(
            wiring_indices(shorter, GateType::Mul, width),
        );
        let here = gate_index(gates, count - 1, width);
        lemma_wiring_union_size(gates, width, count - 1);
        lemma_wiring_indices_step(gates, count - 1, GateType::Add, width);
        lemma_wiring_indices_step(gates, count - 1, GateType::Mul, width);
        assert(!fewer.contains(here)) by {
            if fewer.contains(here) {
                let kind = if wiring_indices(shorter, GateType::Add, width).contains(here) {
                    GateType::Add
                } else {
                    GateType::Mul
                };
                let j = choose|j: int|
                    0 <= j < shorter.len() && shorter[j].gate_type == kind && #[trigger] gate_index(
                        shorter,
                        j,
                        width,
                    ) == here;
                lemma_gate_index_injective(gates, width, j, count - 1);
            }
        }
        assert(all =~= fewer.insert(here));
    }
}

/// The hypercube indices of the addition gates and those of the
/// multiplication gates of a layer have nothing in common, and together
/// they are as many as the layer has gates.
pub proof fn lemma_wiring_indices_partition(gates: Seq<Gate>, width: nat)
    requires
        layer_in_range(gates, pow2(width) as int),
    ensures
        wiring_indices(gates, GateType::Add, width).disjoint(
            wiring_indices(gates, GateType::Mul, width),
        ),
        wiring_indices(gates, GateType::Add, width).union(
            wiring_indices(gates, GateType::Mul, width),
        ).finite(),
        wiring_indices(gates, GateType::Add, width).union(
            wiring_indices(gates, GateType::Mul, width),
        ).len() == gates.len(),
{
    let adds = wiring_indices(gates, GateType::Add, width);
    let muls = wiring_indices(gates, GateType::Mul, width);
    assert forall|index: int| adds.contains(index) implies !muls.contains(index) by {
        if muls.contains(index) {
            let i = choose|i: int|
                0 <= i < gates.len() && gates[i].gate_type == GateType::Add && #[trigger] gate_index(
                    gates,
                    i,
                    width,
                ) == index;
            let j = choose|j: int|
                0 <= j < gates.len() && gates[j].gate_type == GateType::Mul && #[trigger] gate_index(
                    gates,
                    j,
                    width,
                ) == index;
            lemma_gate_index_injective(gates, width, i, j);
        }
    }
    lemma_wiring_union_size(gates, width, gates.len() as int);
    assert(gates.take(gates.len() as int) =~= gates);
}

/// At the hypercube index of a gate, the table of the wiring predicate of
/// its own type holds its one and the table of the other type holds its
/// zero.
pub proof fn lemma_wiring_tables_at_gate<F>(
    gates: Seq<Gate>,
    width: nat,
    add_table: Seq<F>,
    mul_table: Seq<F>,
    add_zero: F,
    add_one: F,
    mul_zero: F,
    mul_one: F,
    i: int,
)
    requires
        layer_in_range(gates, pow2(width) as int),
        0 <= i < gates.len(),
        gate_index(gates, i, width) < add_table.len(),
        gate_index(gates, i, width) < mul_table.len(),
        is_indicator(add_table, wiring_indices(gates, GateType::Add, width), add_zero, add_one),
        is_indicator(mul_table, wiring_indices(gates, GateType::Mul, width), mul_zero, mul_one),
    ensures
        match gates[i].gate_type {
            GateType::Add => add_table[gate_index(gates, i, width)] == add_one && mul_table[gate_index(
                gates,
                i,
                width,
            )] == mul_zero,
            GateType::Mul => add_table[gate_index(gates, i, width)] == add_zero
                && mul_table[gate_index(gates, i, width)] == mul_one,
        },
{
    let index = gate_index(gates, i, width);
    lemma_wiring_indices_partition(gates, width);
    assert(add_table[index] == if wiring_indices(gates, GateType::Add, width).contains(index) {
        add_one
    } else {
        add_zero
    });
    assert(mul_table[index] == if wiring_indices(gates, GateType::Mul, width).contains(index) {
        mul_one
    } else {
        mul_zero
    });
}

/// At the hypercube vertex of a gate, the wiring predicate of its own type
/// is one and the wiring predicate of the other type is zero.
pub proof fn lemma_wiring_predicates_at_gate<F: Add<Output = F> + Sub<Output = F> + Mul<Output = F>>(
    gates: Seq<Gate>,
    width: nat,
    num_vars: nat,
    add_table: Seq<F>,
    mul_table: Seq<F>,
    zero: F,
    one: F,
    i: int,
)
    requires
        layer_in_range(gates, pow2(width) as int),
        0 <= i < gates.len(),
        gate_index(gates, i, width) < pow2(num_vars),
        add_table.len() == pow2(num_vars),
        mul_table.len() == pow2(num_vars),
        is_indicator(add_table, wiring_indices(gates, GateType::Add, width), zero, one),
        is_indicator(mul_table, wiring_indices(gates, GateType::Mul, width), zero, one),
        are_identities(zero, one),
    ensures
        ({
            let point = vertex(gate_index(gates, i, width) as nat, num_vars, zero, one);
            match gates[i].gate_type {
                GateType::Add => multilinear_value(add_table, point) == one && multilinear_value(
                    mul_table,
                    point,
                ) == zero,
                GateType::Mul => multilinear_value(add_table, point) == zero && multilinear_value(
                    mul_table,
                    point,
                ) == one,
            }
        }),
{
    let index = gate_index(gates, i, width);
    lemma_wiring_tables_at_gate(gates, width, add_table, mul_table, zero, one, zero, one, i);
    lemma_value_at_vertex(add_table, index as nat, num_vars, zero, one);
    lemma_value_at_vertex(mul_table, index as nat, num_vars, zero, one);
}

/// At the hypercube vertex of a gate, whatever the operations of `F`
/// return for the value of the wiring predicate of its own type is the one
/// of its table, and whatever they return for that of the other type is the
/// zero of its table.
pub proof fn lemma_computed_wiring_predicates_at_gate<
    F: Add<Output = F> + Sub<Output = F> + Mul<Output = F>,
>(
    gates: Seq<Gate>,
    width: nat,
    num_vars: nat,
    add_table: Seq<F>,
    mul_table: Seq<F>,
    add_zero: F,
    add_one: F,
    mul_zero: F,
    mul_one: F,
    zero: F,
    one: F,
    i: int,
    add_value: F,
    mul_value: F,
)
    requires
        layer_in_range(gates, pow2(width) as int),
        0 <= i < gates.len(),
        gate_index(gates, i, width) < pow2(num_vars),
        add_table.len() == pow2(num_vars),
        mul_table.len() == pow2(num_vars),
        is_indicator(add_table, wiring_indices(gates, GateType::Add, width), add_zero, add_one),
        is_indicator(mul_table, wiring_indices(gates, GateType::Mul, width), mul_zero, mul_one),
        act_as_identities(zero, one),
        is_multilinear_value(
            add_table,
            vertex(gate_index(gates, i, width) as nat, num_vars, zero, one),
            add_value,
        ),
        is_multilinear_value(
            mul_table,
            vertex(gate_index(gates, i, width) as nat, num_vars, zero, one),
            mul_value,
        ),
    ensures
        match gates[i].gate_type {
            GateType::Add => add_value == add_one && mul_value == mul_zero,
            GateType::Mul => add_value == add_zero && mul_value == mul_one,
        },
{
    let index = gate_index(gates, i, width);
    lemma_wiring_tables_at_gate(
        gates,
        width,
        add_table,
        mul_table,
        add_zero,
        add_one,
        mul_zero,
        mul_one,
        i,
    );
    lemma_computed_value_at_vertex(add_table, index as nat, num_vars, zero, one, add_value);
    lemma_computed_value_at_vertex(mul_table, index as nat, num_vars, zero, one, mul_value);
}

} // verus!
