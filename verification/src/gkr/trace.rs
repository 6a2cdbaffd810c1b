//! What the evaluation of a layered circuit computes: which circuits can be
//! evaluated on which inputs, and the trace of an evaluation.

use crate::algebra::{add_total, is_product, is_sum, mul_total};
use crate::gkr::primitives::{Gate, GateType};
use core::ops::{Add, Mul};
use vstd::prelude::*;
use vstd::std_specs::ops::{AddSpec, MulSpec};

verus! {

/// Both operands of `gate` are positions in a vector of `width` values.
pub open spec fn gate_in_range(gate: Gate, width: int) -> bool {
    gate.left() < width && gate.right() < width
}

/// Every gate of the layer reads inside a vector of `width` values.
pub open spec fn layer_in_range(gates: Seq<Gate>, width: int) -> bool {
    forall|i: int| 0 <= i < gates.len() ==> gate_in_range(#[trigger] gates[i], width)
}

/// The length of the vector that layer `k` reads: the size of layer `k + 1`,
/// or the number of inputs for the last layer.
pub open spec fn source_width(layers: Seq<Seq<Gate>>, k: int, input_len: int) -> int {
    if k + 1 < layers.len() {
        layers[k + 1].len() as int
    } else {
        input_len
    }
}

/// Every gate of layer `k` reads inside the vector that layer reads.
pub open spec fn layer_valid(layers: Seq<Seq<Gate>>, k: int, input_len: int) -> bool {
    layer_in_range(layers[k], source_width(layers, k, input_len))
}

/// Every gate of every layer reads inside the vector its layer reads.
pub open spec fn wiring_valid(layers: Seq<Seq<Gate>>, input_len: int) -> bool {
    forall|k: int| 0 <= k < layers.len() ==> #[trigger] layer_valid(layers, k, input_len)
}

/// The value of one gate over the vector `source`.
pub open spec fn gate_output<F: Add<Output = F> + Mul<Output = F>>(gate: Gate, source: Seq<F>) -> F {
    match gate.gate_type {
        GateType::Add => source[gate.left()].add_spec(source[gate.right()]),
        GateType::Mul => source[gate.left()].mul_spec(source[gate.right()]),
    }
}

/// The values of a whole layer over the vector `source`.
pub open spec fn layer_output<F: Add<Output = F> + Mul<Output = F>>(
    gates: Seq<Gate>,
    source: Seq<F>,
) -> Seq<F> {
    Seq::new(gates.len(), |i: int| gate_output(gates[i], source))
}

/// The values of every layer, output layer first, followed by the input.
pub open spec fn evaluation_trace<F: Add<Output = F> + Mul<Output = F>>(
    layers: Seq<Seq<Gate>>,
    input: Seq<F>,
) -> Seq<Seq<F>>
    decreases layers.len(),
{
    if layers.len() == 0 {
        seq![input]
    } else {
        let deeper = evaluation_trace(layers.drop_first(), input);
        seq![layer_output(layers[0], deeper[0])] + deeper
    }
}

/// A trace has one entry for each layer and one for the input.
pub proof fn lemma_trace_len<F: Add<Output = F> + Mul<Output = F>>(
    layers: Seq<Seq<Gate>>,
    input: Seq<F>,
)
    ensures
        evaluation_trace(layers, input).len() == layers.len() + 1,
    decreases layers.len(),
{
    if layers.len() > 0 {
        lemma_trace_len(layers.drop_first(), input);
    }
}

/// `value` is what the operation of `gate` returns for its two operands in
/// `source`.
pub open spec fn gate_computes<F: Add<Output = F> + Mul<Output = F>>(
    gate: Gate,
    source: Seq<F>,
    value: F,
) -> bool {
    match gate.gate_type {
        GateType::Add => is_sum(source[gate.left()], source[gate.right()], value),
        GateType::Mul => is_product(source[gate.left()], source[gate.right()], value),
    }
}

/// `values` holds, for each gate of the layer, what its operation returns
/// for its operands in `source`.
pub open spec fn is_layer_output<F: Add<Output = F> + Mul<Output = F>>(
    gates: Seq<Gate>,
    source: Seq<F>,
    values: Seq<F>,
) -> bool {
    &&& values.len() == gates.len()
    &&& forall|i: int| 0 <= i < gates.len() ==> gate_computes(gates[i], source, #[trigger] values[i])
}

/// Entry `k` of `trace` is the output of layer `k` over entry `k + 1`.
pub open spec fn is_trace_step<F: Add<Output = F> + Mul<Output = F>>(
    layers: Seq<Seq<Gate>>,
    trace: Seq<Seq<F>>,
    k: int,
) -> bool {
    is_layer_output(layers[k], trace[k + 1], trace[k])
}

/// `trace` is a trace of the circuit on `input`: it ends with the input,
/// and every other entry is the output of its layer over the entry after
/// it.
pub open spec fn is_trace<F: Add<Output = F> + Mul<Output = F>>(
    layers: Seq<Seq<Gate>>,
    input: Seq<F>,
    trace: Seq<Seq<F>>,
) -> bool {
    &&& trace.len() == layers.len() + 1
    &&& trace[layers.len() as int] == input
    &&& forall|k: int| 0 <= k < layers.len() ==> #[trigger] is_trace_step(layers, trace, k)
}

/// Where addition and multiplication are as `vstd` specifies them, a layer
/// has one output only.
pub proof fn lemma_layer_output_unique<F: Add<Output = F> + Mul<Output = F>>(
    gates: Seq<Gate>,
    source: Seq<F>,
    values: Seq<F>,
)
    requires
        F::obeys_add_spec(),
        F::obeys_mul_spec(),
        is_layer_output(gates, source, values),
    ensures
        values == layer_output(gates, source),
{
    assert forall|i: int| 0 <= i < gates.len() implies values[i] == gate_output(gates[i], source) by {}
}

/// Where addition and multiplication are as `vstd` specifies them, a
/// circuit has one trace only on a given input.
pub proof fn lemma_trace_unique<F: Add<Output = F> + Mul<Output = F>>(
    layers: Seq<Seq<Gate>>,
    input: Seq<F>,
    trace: Seq<Seq<F>>,
)
    requires
        F::obeys_add_spec(),
        F::obeys_mul_spec(),
        is_trace(layers, input, trace),
    ensures
        trace == evaluation_trace(layers, input),
    decreases layers.len(),
{
    if layers.len() > 0 {
        let deeper = layers.drop_first();
        let rest = trace.drop_first();
        assert forall|k: int| 0 <= k < deeper.len() implies #[trigger] is_trace_step(
            deeper,
            rest,
            k,
        ) by {
            assert(is_trace_step(layers, trace, k + 1));
        }
        lemma_trace_unique(deeper, input, rest);
        assert(is_trace_step(layers, trace, 0));
        lemma_layer_output_unique(layers[0], trace[1], trace[0]);
    }
}

/// The operation of `gate` is defined on its two operands in `source`.
pub open spec fn gate_defined<F: Add<Output = F> + Mul<Output = F>>(gate: Gate, source: Seq<F>) -> bool {
    match gate.gate_type {
        GateType::Add => source[gate.left()].add_req(source[gate.right()]),
        GateType::Mul => source[gate.left()].mul_req(source[gate.right()]),
    }
}

/// The operation of every gate of the layer that reads inside `source` is
/// defined on its operands.
pub open spec fn layer_defined<F: Add<Output = F> + Mul<Output = F>>(
    gates: Seq<Gate>,
    source: Seq<F>,
) -> bool {
    forall|i: int|
        0 <= i < gates.len() && gate_in_range(gates[i], source.len() as int) ==> gate_defined(
            #[trigger] gates[i],
            source,
        )
}

/// The operations of layer `k` are defined on the values that the trace
/// holds for the vector the layer reads.
pub open spec fn layer_defined_at<F: Add<Output = F> + Mul<Output = F>>(
    layers: Seq<Seq<Gate>>,
    input: Seq<F>,
    k: int,
) -> bool {
    layer_defined(layers[k], evaluation_trace(layers, input)[k + 1])
}

/// Every operation that a layer performs on a vector is defined: either the
/// addition and the multiplication of `F` are defined on all values, or they
/// are as `vstd` specifies them and defined on the operands of every gate.
pub open spec fn layer_computable<F: Add<Output = F> + Mul<Output = F>>(
    gates: Seq<Gate>,
    source: Seq<F>,
) -> bool {
    ||| add_total::<F>() && mul_total::<F>()
    ||| F::obeys_add_spec() && F::obeys_mul_spec() && layer_defined(gates, source)
}

/// Every operation that the evaluation of the circuit performs is defined:
/// either the addition and the multiplication of `F` are defined on all
/// values, or they are as `vstd` specifies them and defined on the operands
/// of every gate of every layer.
pub open spec fn evaluation_computable<F: Add<Output = F> + Mul<Output = F>>(
    layers: Seq<Seq<Gate>>,
    input: Seq<F>,
) -> bool {
    ||| add_total::<F>() && mul_total::<F>()
    ||| F::obeys_add_spec() && F::obeys_mul_spec() && forall|k: int|
        0 <= k < layers.len() ==> #[trigger] layer_defined_at(layers, input, k)
}

/// The trace of the layers from `first` on is the trace of all layers from
/// its entry `first` on.
pub proof fn lemma_trace_suffix<F: Add<Output = F> + Mul<Output = F>>(
    layers: Seq<Seq<Gate>>,
    input: Seq<F>,
    first: int,
    j: int,
)
    requires
        0 <= first <= layers.len(),
        0 <= j <= layers.len() - first,
    ensures
        evaluation_trace(layers.subrange(first, layers.len() as int), input)[j] == evaluation_trace(
            layers,
            input,
        )[first + j],
    decreases first,
{
    if first == 0 {
        assert(layers.subrange(0, layers.len() as int) =~= layers);
    } else {
        let deeper = layers.drop_first();
        lemma_trace_suffix(deeper, input, first - 1, j);
        lemma_trace_len(deeper, input);
        assert(deeper.subrange(first - 1, deeper.len() as int) =~= layers.subrange(
            first,
            layers.len() as int,
        ));
    }
}

/// Every entry of a trace but the last has the size of its layer, and every
/// entry but the first is as long as the vector that the layer before it
/// reads.
pub proof fn lemma_trace_shape<F: Add<Output = F> + Mul<Output = F>>(
    layers: Seq<Seq<Gate>>,
    input: Seq<F>,
    k: int,
)
    requires
        0 <= k <= layers.len(),
    ensures
        k < layers.len() ==> evaluation_trace(layers, input)[k].len() == layers[k].len(),
        k >= 1 ==> evaluation_trace(layers, input)[k].len() == source_width(
            layers,
            k - 1,
            input.len() as int,
        ),
        k == layers.len() ==> evaluation_trace(layers, input)[k] == input,
    decreases layers.len(),
{
    if layers.len() > 0 {
        let deeper = layers.drop_first();
        lemma_trace_len(deeper, input);
        if k >= 1 {
            lemma_trace_shape(deeper, input, k - 1);
        }
    }
}

/// In a trace, entry 0 has the size of layer 0, and an entry `k >= 1` has
/// the size of layer `k - 1` wherever that layer is as large as the vector
/// it reads.
pub proof fn lemma_trace_entry_sizes<F: Add<Output = F> + Mul<Output = F>>(
    layers: Seq<Seq<Gate>>,
    input: Seq<F>,
    k: int,
)
    requires
        layers.len() > 0,
        0 <= k <= layers.len(),
        k >= 1 ==> layers[k - 1].len() == source_width(layers, k - 1, input.len() as int),
    ensures
        k == 0 ==> evaluation_trace(layers, input)[k].len() == layers[0].len(),
        k >= 1 ==> evaluation_trace(layers, input)[k].len() == layers[k - 1].len(),
{
    lemma_trace_shape(layers, input, k);
}

} // verus!
