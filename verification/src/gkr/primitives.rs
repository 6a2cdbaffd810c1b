//! The data model of a layered arithmetic circuit.

use vstd::prelude::*;

verus! {

/// The operation a gate performs on its two inputs.
#[derive(Clone, Copy, Debug, PartialEq, Eq, Structural)]
pub enum GateType {
    Add,
    Mul,
}

/// A binary gate. `inputs` are positions in the vector that its layer reads:
/// the output of the next layer, or the circuit's input for the last layer.
#[derive(Clone, Copy, Debug, PartialEq, Eq)]
pub struct Gate {
    pub gate_type: GateType,
    pub inputs: [usize; 2],
}

/// The gates of one layer; a gate's position is its address.
#[derive(Clone, Debug, PartialEq, Eq)]
pub struct CircuitLayer {
    pub layer: Vec<Gate>,
}

/// A circuit: layer 0 is the output layer, the last layer reads the input.
#[derive(Clone, Debug, PartialEq, Eq)]
pub struct Circuit {
    pub layers: Vec<CircuitLayer>,
}

/// The values of every layer of one evaluation, output layer first and the
/// input vector last.
#[derive(Clone, Debug, PartialEq, Eq)]
pub struct CircuitEvaluation<F> {
    pub layers: Vec<Vec<F>>,
}

/// Why a circuit could not be evaluated or encoded.
#[derive(Clone, Copy, Debug, PartialEq, Eq, Structural)]
pub enum CircuitError {
    /// A gate reads a position outside the vector its layer reads.
    IndexOutOfRange,
    /// The circuit has no layer with the requested index.
    LayerIndexOutOfRange,
    /// The circuit has no layers at all.
    EmptyCircuit,
    /// There is no hypercube to encode on: the layer has no gates, the
    /// hypercube has more vertices than a machine word can count, or a
    /// vertex is not on it.
    VariableCountMismatch,
}

impl Gate {
    /// The position of the left operand.
    pub open spec fn left(self) -> int {
        self.inputs[0] as int
    }

    /// The position of the right operand.
    pub open spec fn right(self) -> int {
        self.inputs[1] as int
    }

    /// A gate of the given type that reads the two given positions.
    pub fn new(gate_type: GateType, inputs: [usize; 2]) -> (gate: Self)
        ensures
            gate.gate_type == gate_type,
            gate.inputs == inputs,
    {
        Gate { gate_type, inputs }
    }
}

impl View for CircuitLayer {
    type V = Seq<Gate>;

    open spec fn view(&self) -> Seq<Gate> {
        self.layer@
    }
}

impl CircuitLayer {
    /// The layer of the given gates, in the order of their addresses.
    pub fn new(layer: Vec<Gate>) -> (l: Self)
        ensures
            l@ == layer@,
    {
        CircuitLayer { layer }
    }
}

impl View for Circuit {
    type V = Seq<Seq<Gate>>;

    open spec fn view(&self) -> Seq<Seq<Gate>> {
        Seq::new(self.layers@.len(), |k: int| self.layers@[k]@)
    }
}

impl Circuit {
    /// The circuit of the given layers, output layer first.
    pub fn new(layers: Vec<CircuitLayer>) -> (c: Self)
        ensures
            c.layers == layers,
    {
        Circuit { layers }
    }
}

impl<F> View for CircuitEvaluation<F> {
    type V = Seq<Seq<F>>;

    open spec fn view(&self) -> Seq<Seq<F>> {
        Seq::new(self.layers@.len(), |k: int| self.layers@[k]@)
    }
}

} // verus!
