//! Evaluation of a layered circuit and the encoding of its wiring.

use crate::algebra::{add_total, mul_total};
use crate::gkr::primitives::{Circuit, CircuitError, CircuitEvaluation, CircuitLayer, Gate, GateType};
use crate::gkr::trace::{
    evaluation_computable, evaluation_trace, gate_computes, gate_in_range, is_layer_output,
    is_trace, is_trace_step, layer_computable, layer_defined_at, layer_in_range, layer_output,
    layer_valid, lemma_trace_suffix, source_width, wiring_valid,
};
use crate::gkr::utils::{
    bits_needed, compute_bit_width, get_gate_properties, hot_positions, is_indicator_table,
    lemma_bits_needed_bounds, lemma_hot_positions_push, lemma_packed_index_bound,
    lemma_pow2_fits_word, usize_vec_to_mle,
};
use crate::gkr::wiring::{lemma_wiring_indices_step, wiring_indices, wiring_num_vars, wiring_width};
use crate::polynomial::multilinear::{hypercube_size, Multilinear};
use core::ops::{Add, Mul};
use vstd::arithmetic::power2::pow2;
use vstd::prelude::*;
use vstd::slice::slice_to_vec;
use vstd::std_specs::ops::{AddSpec, MulSpec};

verus! {

/// The values of one layer over `source`, or `IndexOutOfRange` if a gate
/// reads outside `source`.
pub fn evaluate_layer<F>(layer: &CircuitLayer, source: &Vec<F>) -> (res: Result<Vec<F>, CircuitError>)
    where F: Add<Output = F> + Mul<Output = F> + Copy
    requires
        layer_computable(layer@, source@),
    ensures
        res is Ok <==> layer_in_range(layer@, source@.len() as int),
        res matches Err(e) ==> e == CircuitError::IndexOutOfRange,
        res matches Ok(values) ==> {
            &&& is_layer_output(layer@, source@, values@)
            &&& F::obeys_add_spec() && F::obeys_mul_spec() ==> values@ == layer_output(
                layer@,
                source@,
            )
        },
{
    let count = layer.layer.len();
    let mut values: Vec<F> = Vec::with_capacity(count);
    let mut i: usize = 0;
    while i < count
        invariant
            count == layer@.len(),
            i <= count,
            values@.len() == i,
            layer_computable(layer@, source@),
            forall|j: int| 0 <= j < i ==> gate_in_range(#[trigger] layer@[j], source@.len() as int),
            forall|j: int| 0 <= j < i ==> gate_computes(layer@[j], source@, #[trigger] values@[j]),
        decreases count - i,
    {
        let gate = &layer.layer[i];
        let left = gate.inputs[0];
        let right = gate.inputs[1];
        if left >= source.len() || right >= source.len() {
            return Err(CircuitError::IndexOutOfRange);
        }
        let value = match gate.gate_type {
            GateType::Add => source[left] + source[right],
            GateType::Mul => source[left] * source[right],
        };
        values.push(value);
        i = i + 1;
    }
    Ok(values)
}

/// The same items in the opposite order.
fn reversed<T>(items: Vec<T>) -> (res: Vec<T>)
    ensures
        res@ == items@.reverse(),
{
    let mut items = items;
    let ghost given = items@;
    let mut res: Vec<T> = Vec::with_capacity(items.len());
    while items.len() > 0
        invariant
            items@.len() + res@.len() == given.len(),
            items@ == given.subrange(0, items@.len() as int),
            forall|j: int| 0 <= j < res@.len() ==> res@[j] == given[given.len() - 1 - j],
        decreases items@.len(),
    {
        if let Some(item) = items.pop() {
            res.push(item);
        }
    }
    res
}

/// Entry `j` of `stack` is the output of its layer over the entry before it.
spec fn stack_step<F: Add<Output = F> + Mul<Output = F>>(
    stack: Seq<Vec<F>>,
    layers: Seq<Seq<Gate>>,
    j: int,
) -> bool {
    is_layer_output(layers[layers.len() - j], stack[j - 1]@, stack[j]@)
}

/// `stack` holds the input and then the outputs of the layers from `first`
/// on, the last layer first, each over the entry before it.
spec fn stack_shaped<F: Add<Output = F> + Mul<Output = F>>(
    stack: Seq<Vec<F>>,
    layers: Seq<Seq<Gate>>,
    input: Seq<F>,
    first: int,
) -> bool {
    &&& stack.len() == layers.len() - first + 1
    &&& stack[0]@ == input
    &&& forall|j: int| 1 <= j < stack.len() ==> #[trigger] stack_step(stack, layers, j)
}

/// `stack` holds the entries of `trace` in the opposite order.
spec fn stack_mirrors<F>(stack: Seq<Vec<F>>, trace: Seq<Seq<F>>) -> bool {
    &&& stack.len() == trace.len()
    &&& forall|j: int| 0 <= j < stack.len() ==> (#[trigger] stack[j])@ == trace[trace.len() - 1 - j]
}

proof fn lemma_stack_shaped_push<F: Add<Output = F> + Mul<Output = F>>(
    stack: Seq<Vec<F>>,
    layers: Seq<Seq<Gate>>,
    input: Seq<F>,
    first: int,
    values: Vec<F>,
)
    requires
        0 < first <= layers.len(),
        stack_shaped(stack, layers, input, first),
        is_layer_output(layers[first - 1], stack.last()@, values@),
    ensures
        stack_shaped(stack.push(values), layers, input, first - 1),
{
    let next = stack.push(values);
    assert forall|j: int| 1 <= j < next.len() implies #[trigger] stack_step(next, layers, j) by {
        if j < stack.len() {
            assert(stack_step(stack, layers, j));
        }
    }
}

/// The trace of the layers from `first` on extends the trace of the layers
/// from `first + 1` on by the values of layer `first`.
proof fn lemma_trace_suffix_step<F: Add<Output = F> + Mul<Output = F>>(
    layers: Seq<Seq<Gate>>,
    input: Seq<F>,
    first: int,
)
    requires
        0 <= first < layers.len(),
    ensures
        ({
            let deeper = evaluation_trace(layers.subrange(first + 1, layers.len() as int), input);
            evaluation_trace(layers.subrange(first, layers.len() as int), input) == seq![
                layer_output(layers[first], deeper[0]),
            ] + deeper
        }),
{
    let here = layers.subrange(first, layers.len() as int);
    assert(here.drop_first() =~= layers.subrange(first + 1, layers.len() as int));
}

impl Circuit {
    /// Evaluates the circuit on `input`, from the last layer to the first, and
    /// returns the values of every layer: the output layer first, the input
    /// itself last.
    ///
    /// Fails with `IndexOutOfRange` exactly when some gate reads outside the
    /// vector its layer reads.
    pub fn evaluate<F>(&self, input: &[F]) -> (res: Result<CircuitEvaluation<F>, CircuitError>)
        where F: Add<Output = F> + Mul<Output = F> + Copy
        requires
            evaluation_computable(self@, input@),
        ensures
            res is Ok <==> wiring_valid(self@, input@.len() as int),
            res matches Err(e) ==> e == CircuitError::IndexOutOfRange,
            res matches Ok(evaluation) ==> {
                &&& evaluation@.len() == self@.len() + 1
                &&& evaluation@.last() == input@
                &&& forall|k: int|
                    0 <= k < self@.len() ==> (#[trigger] evaluation@[k]).len() == self@[k].len()
                &&& forall|k: int|
                    1 <= k <= self@.len() ==> (#[trigger] evaluation@[k]).len() == source_width(
                        self@,
                        k - 1,
                        input@.len() as int,
                    )
                &&& is_trace(self@, input@, evaluation@)
                &&& F::obeys_add_spec() && F::obeys_mul_spec() ==> evaluation@ == evaluation_trace(
                    self@,
                    input@,
                )
            },
    {
        let n = self.layers.len();
        let mut stack: Vec<Vec<F>> = Vec::new();
        stack.push(slice_to_vec(input));
        let mut k: usize = n;
        while k > 0
            invariant
                n == self@.len(),
                n == self.layers@.len(),
                k <= n,
                evaluation_computable(self@, input@),
                stack_shaped(stack@, self@, input@, k as int),
                forall|m: int| k <= m < n ==> #[trigger] layer_valid(self@, m, input@.len() as int),
                F::obeys_add_spec() && F::obeys_mul_spec() ==> stack_mirrors(
                    stack@,
                    evaluation_trace(self@.subrange(k as int, n as int), input@),
                ),
            decreases k,
        {
            k = k - 1;
            let source = &stack[stack.len() - 1];
            proof {
                if k + 1 < n {
                    assert(stack_step(stack@, self@, n - k - 1));
                }
                if F::obeys_add_spec() && F::obeys_mul_spec() {
                    lemma_trace_suffix(self@, input@, k as int + 1, 0);
                }
                if !(add_total::<F>() && mul_total::<F>()) {
                    assert(layer_defined_at(self@, input@, k as int));
                }
            }
            match evaluate_layer(&self.layers[k], source) {
                Ok(values) => {
                    proof {
                        lemma_stack_shaped_push(stack@, self@, input@, k as int + 1, values);
                        lemma_trace_suffix_step(self@, input@, k as int);
                    }
                    stack.push(values);
                },
                Err(e) => {
                    assert(!layer_valid(self@, k as int, input@.len() as int));
                    return Err(e);
                },
            }
        }
        let layers = reversed(stack);
        let evaluation = CircuitEvaluation { layers };
        proof {
            assert(self@.subrange(0, n as int) =~= self@);
            assert forall|k: int| 0 <= k < self@.len() implies #[trigger] is_trace_step(
                self@,
                evaluation@,
                k,
            ) by {
                assert(stack_step(stack@, self@, n - k));
            }
            assert forall|k: int| 0 <= k < self@.len() implies (#[trigger] evaluation@[k]).len()
                == self@[k].len() by {
                assert(is_trace_step(self@, evaluation@, k));
            }
        }
        Ok(evaluation)
    }

    /// The multilinear extensions of the two wiring predicates of layer
    /// `layer_index`: the first is one at the hypercube index of every
    /// addition gate of the layer, the second at that of every multiplication
    /// gate, and both are zero at every other vertex. `input_len` is the
    /// number of values that the last layer reads; it plays no part for any
    /// other layer. The operand width and the number of variables follow
    /// from the actual sizes of the layer and of the vector it reads.
    ///
    /// Fails with `EmptyCircuit` if the circuit has no layers, with
    /// `LayerIndexOutOfRange` if it has no such layer, with
    /// `VariableCountMismatch` if the layer has no gates or its hypercube does
    /// not fit in a machine word, and with `IndexOutOfRange` if a gate of the
    /// layer reads outside the vector the layer reads.
    pub fn get_add_n_mul_mle<F: From<u64> + Copy>(&self, layer_index: usize, input_len: usize) -> (res:
        Result<(Multilinear<F>, Multilinear<F>), CircuitError>)
        ensures
            match res {
                Err(CircuitError::EmptyCircuit) => self@.len() == 0,
                Err(CircuitError::LayerIndexOutOfRange) => 0 < self@.len() <= layer_index,
                Err(CircuitError::VariableCountMismatch) => {
                    &&& layer_index < self@.len()
                    &&& (self@[layer_index as int].len() == 0 || pow2(
                        wiring_num_vars(self@, layer_index as int, input_len as int),
                    ) > usize::MAX)
                },
                Err(CircuitError::IndexOutOfRange) => {
                    &&& layer_index < self@.len()
                    &&& self@[layer_index as int].len() > 0
                    &&& pow2(wiring_num_vars(self@, layer_index as int, input_len as int))
                        <= usize::MAX
                    &&& !layer_valid(self@, layer_index as int, input_len as int)
                },
                Ok((add_mle, mul_mle)) => {
                    let gates = self@[layer_index as int];
                    let width = wiring_width(self@, layer_index as int, input_len as int);
                    let num_vars = wiring_num_vars(self@, layer_index as int, input_len as int);
                    &&& layer_index < self@.len()
                    &&& gates.len() > 0
                    &&& pow2(num_vars) <= usize::MAX
                    &&& layer_valid(self@, layer_index as int, input_len as int)
                    &&& add_mle.num_vars == num_vars
                    &&& mul_mle.num_vars == num_vars
                    &&& add_mle.well_formed()
                    &&& mul_mle.well_formed()
                    &&& is_indicator_table(
                        add_mle.evaluations@,
                        wiring_indices(gates, GateType::Add, width),
                    )
                    &&& is_indicator_table(
                        mul_mle.evaluations@,
                        wiring_indices(gates, GateType::Mul, width),
                    )
                },
            },
    {
        let depth = self.layers.len();
        if depth == 0 {
            return Err(CircuitError::EmptyCircuit);
        }
        if layer_index >= depth {
            return Err(CircuitError::LayerIndexOutOfRange);
        }
        let layer = &self.layers[layer_index];
        let layer_size = layer.layer.len();
        let source_size = if layer_index + 1 < depth {
            self.layers[layer_index + 1].layer.len()
        } else {
            input_len
        };
        let ghost gates = self@[layer_index as int];
        if layer_size == 0 {
            return Err(CircuitError::VariableCountMismatch);
        }
        let gate_bits = compute_bit_width(layer_size);
        let width = compute_bit_width(source_size);
        let num_vars = gate_bits + 2 * width;
        if hypercube_size(num_vars).is_none() {
            return Err(CircuitError::VariableCountMismatch);
        }
        proof {
            lemma_pow2_fits_word(num_vars as nat);
            lemma_bits_needed_bounds(layer_size as nat);
            lemma_bits_needed_bounds(source_size as nat);
        }
        let mut add_usize_vec: Vec<usize> = Vec::new();
        let mut mul_usize_vec: Vec<usize> = Vec::new();
        let mut i: usize = 0;
        while i < layer_size
            invariant
                i <= layer_size,
                layer_size == gates.len(),
                layer@ == gates,
                layer_index < self@.len(),
                gates == self@[layer_index as int],
                source_size == source_width(self@, layer_index as int, input_len as int),
                gate_bits == bits_needed(layer_size as nat),
                width == bits_needed(source_size as nat),
                num_vars == gate_bits + 2 * width,
                num_vars < usize::BITS,
                pow2(num_vars as nat) <= usize::MAX,
                layer_size <= pow2(gate_bits as nat),
                source_size <= pow2(width as nat),
                forall|j: int| 0 <= j < i ==> gate_in_range(#[trigger] gates[j], source_size as int),
                forall|j: int|
                    0 <= j < add_usize_vec@.len() ==> #[trigger] add_usize_vec@[j] < pow2(
                        num_vars as nat,
                    ),
                forall|j: int|
                    0 <= j < mul_usize_vec@.len() ==> #[trigger] mul_usize_vec@[j] < pow2(
                        num_vars as nat,
                    ),
                hot_positions(add_usize_vec@) == wiring_indices(
                    gates.take(i as int),
                    GateType::Add,
                    width as nat,
                ),
                hot_positions(mul_usize_vec@) == wiring_indices(
                    gates.take(i as int),
                    GateType::Mul,
                    width as nat,
                ),
            decreases layer_size - i,
        {
            let gate = &layer.layer[i];
            let left = gate.inputs[0];
            let right = gate.inputs[1];
            if left >= source_size || right >= source_size {
                return Err(CircuitError::IndexOutOfRange);
            }
            proof {
                lemma_packed_index_bound(
                    i as nat,
                    left as nat,
                    right as nat,
                    gate_bits as nat,
                    width as nat,
                );
                lemma_wiring_indices_step(gates, i as int, GateType::Add, width as nat);
                lemma_wiring_indices_step(gates, i as int, GateType::Mul, width as nat);
            }
            let gate_property = get_gate_properties(i, left, right, width);
            match gate.gate_type {
                GateType::Add => {
                    proof {
                        lemma_hot_positions_push(add_usize_vec@, gate_property);
                    }
                    add_usize_vec.push(gate_property);
                },
                GateType::Mul => {
                    proof {
                        lemma_hot_positions_push(mul_usize_vec@, gate_property);
                    }
                    mul_usize_vec.push(gate_property);
                },
            }
            i = i + 1;
        }
        proof {
            assert(gates.take(layer_size as int) =~= gates);
        }
        let add_mle = match usize_vec_to_mle::<F>(&add_usize_vec, num_vars) {
            Ok(poly) => poly,
            Err(e) => {
                return Err(e);
            },
        };
        let mul_mle = match usize_vec_to_mle::<F>(&mul_usize_vec, num_vars) {
            Ok(poly) => poly,
            Err(e) => {
                return Err(e);
            },
        };
        Ok((add_mle, mul_mle))
    }
}

} // verus!
