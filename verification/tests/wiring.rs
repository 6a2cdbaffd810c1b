use ark_test_curves::bls12_381::Fr;
use zk_circuits::gkr::primitives::{Circuit, CircuitError, CircuitLayer, Gate, GateType};
use zk_circuits::gkr::utils::{
    compute_bit_width, get_gate_properties, indicator_table, usize_vec_to_mle,
};

fn two_layer_circuit() -> Circuit {
    let layer_0 = CircuitLayer::new(vec![Gate::new(GateType::Mul, [0, 1])]);
    let layer_1 = CircuitLayer::new(vec![
        Gate::new(GateType::Add, [0, 1]),
        Gate::new(GateType::Mul, [2, 3]),
    ]);
    Circuit::new(vec![layer_0, layer_1])
}

fn bits_of(index: usize, num_vars: usize) -> Vec<Fr> {
    let mut point = Vec::new();
    for j in 0..num_vars {
        let bit = (index >> (num_vars - 1 - j)) & 1;
        point.push(Fr::from(bit as u64));
    }
    point
}

#[test]
fn bit_width_is_the_ceiling_of_the_logarithm() {
    assert_eq!(compute_bit_width(0), 0);
    assert_eq!(compute_bit_width(1), 0);
    assert_eq!(compute_bit_width(2), 1);
    assert_eq!(compute_bit_width(3), 2);
    assert_eq!(compute_bit_width(4), 2);
    assert_eq!(compute_bit_width(5), 3);
    assert_eq!(compute_bit_width(8), 3);
    assert_eq!(compute_bit_width(9), 4);
    assert_eq!(compute_bit_width(1 << 20), 20);
    assert_eq!(compute_bit_width((1 << 20) + 1), 21);
    assert_eq!(compute_bit_width(usize::MAX), usize::BITS as usize);
}

#[test]
fn gate_properties_concatenate_the_three_fields() {
    assert_eq!(get_gate_properties(0, 0, 1, 1), 0b0_0_1);
    assert_eq!(get_gate_properties(1, 2, 3, 2), 0b1_10_11);
    assert_eq!(get_gate_properties(1, 2, 3, 2), 27);
    assert_eq!(get_gate_properties(5, 0, 7, 3), (5 << 6) | 7);
    assert_eq!(get_gate_properties(2, 4, 1, 3), 0b10_100_001);
    assert_eq!(get_gate_properties(3, 0, 0, 0), 3);
}

#[test]
fn indicator_table_marks_the_listed_positions() {
    let table = indicator_table(&vec![1usize, 3, 1], 5, 0u8, 1u8);
    assert_eq!(table, Some(vec![0u8, 1, 0, 1, 0]));
    assert_eq!(indicator_table(&vec![], 3, 7u8, 9u8), Some(vec![7u8, 7, 7]));
    assert_eq!(indicator_table(&vec![5usize], 5, 0u8, 1u8), None);
}

#[test]
fn usize_vec_to_mle_builds_the_dense_table() {
    let poly = usize_vec_to_mle::<Fr>(&vec![1, 6], 3).unwrap();
    assert_eq!(poly.num_vars, 3);
    let zero = Fr::from(0u64);
    let one = Fr::from(1u64);
    assert_eq!(
        poly.evaluations,
        vec![zero, one, zero, zero, zero, zero, one, zero]
    );
}

#[test]
fn usize_vec_to_mle_rejects_a_vertex_off_the_hypercube() {
    let res = usize_vec_to_mle::<Fr>(&vec![8], 3);
    assert_eq!(res.err(), Some(CircuitError::VariableCountMismatch));
}

#[test]
fn usize_vec_to_mle_rejects_a_hypercube_too_large() {
    let res = usize_vec_to_mle::<Fr>(&vec![], usize::BITS as usize);
    assert_eq!(res.err(), Some(CircuitError::VariableCountMismatch));
}

#[test]
fn wiring_of_the_output_layer() {
    let circuit = two_layer_circuit();
    let (add_mle, mul_mle) = circuit.get_add_n_mul_mle::<Fr>(0, 4).unwrap();
    let zero = Fr::from(0u64);
    let one = Fr::from(1u64);
    assert_eq!(add_mle.num_vars, 2);
    assert_eq!(mul_mle.num_vars, 2);
    assert_eq!(add_mle.evaluations, vec![zero, zero, zero, zero]);
    assert_eq!(mul_mle.evaluations, vec![zero, one, zero, zero]);
}

#[test]
fn wiring_of_the_last_layer_uses_the_input_length() {
    let circuit = two_layer_circuit();
    let (add_mle, mul_mle) = circuit.get_add_n_mul_mle::<Fr>(1, 4).unwrap();
    let zero = Fr::from(0u64);
    let one = Fr::from(1u64);
    assert_eq!(add_mle.num_vars, 5);
    assert_eq!(mul_mle.num_vars, 5);
    assert_eq!(add_mle.evaluations.len(), 32);
    assert_eq!(mul_mle.evaluations.len(), 32);
    for index in 0..32 {
        let expected_add = if index == 1 { one } else { zero };
        let expected_mul = if index == 27 { one } else { zero };
        assert_eq!(add_mle.evaluations[index], expected_add);
        assert_eq!(mul_mle.evaluations[index], expected_mul);
    }
}

#[test]
fn wiring_follows_the_actual_layer_sizes() {
    // three gates reading five values: 2 bits for a gate, 3 bits for an operand
    let layer = CircuitLayer::new(vec![
        Gate::new(GateType::Add, [0, 4]),
        Gate::new(GateType::Mul, [3, 3]),
        Gate::new(GateType::Add, [2, 1]),
    ]);
    let circuit = Circuit::new(vec![layer]);
    let (add_mle, mul_mle) = circuit.get_add_n_mul_mle::<Fr>(0, 5).unwrap();
    assert_eq!(add_mle.num_vars, 8);
    assert_eq!(mul_mle.num_vars, 8);
    let one = Fr::from(1u64);
    let zero = Fr::from(0u64);
    let add_hot = [0b00_000_100usize, 0b10_010_001];
    let mul_hot = [0b01_011_011usize];
    for index in 0..256usize {
        let in_add = add_hot.contains(&index);
        let in_mul = mul_hot.contains(&index);
        assert_eq!(add_mle.evaluations[index], if in_add { one } else { zero });
        assert_eq!(mul_mle.evaluations[index], if in_mul { one } else { zero });
    }
}

#[test]
fn wiring_index_sets_are_disjoint_and_cover_the_layer() {
    let layer = CircuitLayer::new(vec![
        Gate::new(GateType::Add, [0, 1]),
        Gate::new(GateType::Mul, [0, 1]),
        Gate::new(GateType::Mul, [2, 3]),
        Gate::new(GateType::Add, [3, 3]),
        Gate::new(GateType::Add, [0, 1]),
    ]);
    let circuit = Circuit::new(vec![layer]);
    let (add_mle, mul_mle) = circuit.get_add_n_mul_mle::<Fr>(0, 4).unwrap();
    let one = Fr::from(1u64);
    let mut hot = 0;
    for index in 0..add_mle.evaluations.len() {
        let in_add = add_mle.evaluations[index] == one;
        let in_mul = mul_mle.evaluations[index] == one;
        assert!(!(in_add && in_mul));
        if in_add || in_mul {
            hot += 1;
        }
    }
    assert_eq!(hot, 5);
}

#[test]
fn wiring_predicates_take_the_right_value_at_each_gate() {
    let gates = vec![
        Gate::new(GateType::Add, [0, 1]),
        Gate::new(GateType::Mul, [2, 3]),
        Gate::new(GateType::Mul, [1, 1]),
    ];
    let circuit = Circuit::new(vec![CircuitLayer::new(gates.clone())]);
    let (add_mle, mul_mle) = circuit.get_add_n_mul_mle::<Fr>(0, 4).unwrap();
    let num_vars = add_mle.num_vars;
    assert_eq!(num_vars, 6);
    let one = Fr::from(1u64);
    let zero = Fr::from(0u64);
    for (i, gate) in gates.iter().enumerate() {
        let index = get_gate_properties(i, gate.inputs[0], gate.inputs[1], 2);
        let point = bits_of(index, num_vars);
        let add_value = add_mle.evaluate(&point).unwrap();
        let mul_value = mul_mle.evaluate(&point).unwrap();
        match gate.gate_type {
            GateType::Add => {
                assert_eq!(add_value, one);
                assert_eq!(mul_value, zero);
            }
            GateType::Mul => {
                assert_eq!(add_value, zero);
                assert_eq!(mul_value, one);
            }
        }
    }
}

#[test]
fn wiring_of_an_empty_circuit_is_rejected() {
    let circuit = Circuit::new(vec![]);
    let res = circuit.get_add_n_mul_mle::<Fr>(0, 4);
    assert_eq!(res.err(), Some(CircuitError::EmptyCircuit));
}

#[test]
fn wiring_of_a_missing_layer_is_rejected() {
    let circuit = two_layer_circuit();
    let res = circuit.get_add_n_mul_mle::<Fr>(2, 4);
    assert_eq!(res.err(), Some(CircuitError::LayerIndexOutOfRange));
}

#[test]
fn wiring_of_a_layer_without_gates_is_rejected() {
    let circuit = Circuit::new(vec![CircuitLayer::new(vec![])]);
    let res = circuit.get_add_n_mul_mle::<Fr>(0, 4);
    assert_eq!(res.err(), Some(CircuitError::VariableCountMismatch));
}

#[test]
fn wiring_of_a_layer_too_wide_for_a_table_is_rejected() {
    let layer = CircuitLayer::new(vec![Gate::new(GateType::Add, [0, 1])]);
    let circuit = Circuit::new(vec![layer]);
    let res = circuit.get_add_n_mul_mle::<Fr>(0, usize::MAX);
    assert_eq!(res.err(), Some(CircuitError::VariableCountMismatch));
}

#[test]
fn wiring_of_a_gate_that_reads_out_of_range_is_rejected() {
    let circuit = two_layer_circuit();
    let res = circuit.get_add_n_mul_mle::<Fr>(1, 3);
    assert_eq!(res.err(), Some(CircuitError::IndexOutOfRange));
    let layer_0 = CircuitLayer::new(vec![Gate::new(GateType::Mul, [0, 2])]);
    let layer_1 = CircuitLayer::new(vec![
        Gate::new(GateType::Add, [0, 1]),
        Gate::new(GateType::Mul, [2, 3]),
    ]);
    let circuit = Circuit::new(vec![layer_0, layer_1]);
    let res = circuit.get_add_n_mul_mle::<Fr>(0, 4);
    assert_eq!(res.err(), Some(CircuitError::IndexOutOfRange));
}
