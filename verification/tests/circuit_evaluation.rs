use ark_test_curves::bls12_381::Fr;
use std::num::Wrapping;
use zk_circuits::gkr::primitives::{Circuit, CircuitError, CircuitLayer, Gate, GateType};

// sample circuit evaluation
//      100(*)    - layer 0
//     /     \
//   5(+)_0   20(*)_1 - layer 1
//   / \    /  \
//  2   3   4   5
//
#[test]
fn test_circuit_evaluation_1() {
    let layer_0 = CircuitLayer::new(vec![Gate::new(GateType::Mul, [0, 1])]);
    let layer_1 = CircuitLayer::new(vec![
        Gate::new(GateType::Add, [0, 1]),
        Gate::new(GateType::Mul, [2, 3]),
    ]);
    let circuit = Circuit::new(vec![layer_0, layer_1]);
    let input = [
        Fr::from(2u32),
        Fr::from(3u32),
        Fr::from(4u32),
        Fr::from(5u32),
    ];
    let evaluation = circuit.evaluate(&input).unwrap();
    let expected_output = vec![
        vec![Fr::from(100u32)],
        vec![Fr::from(5u32), Fr::from(20u32)],
        vec![
            Fr::from(2u32),
            Fr::from(3u32),
            Fr::from(4u32),
            Fr::from(5u32),
        ],
    ];

    assert_eq!(evaluation.layers, expected_output);
}

#[test]
fn test_circuit_evaluation_2() {
    let layer_0 = CircuitLayer::new(vec![
        Gate::new(GateType::Mul, [0, 1]),
        Gate::new(GateType::Mul, [2, 3]),
    ]);

    let layer_1 = CircuitLayer::new(vec![
        Gate::new(GateType::Mul, [0, 0]),
        Gate::new(GateType::Mul, [1, 1]),
        Gate::new(GateType::Mul, [1, 2]),
        Gate::new(GateType::Mul, [3, 3]),
    ]);

    let circuit = Circuit::new(vec![layer_0, layer_1]);
    let evaluation = circuit
        .evaluate(&[
            Fr::from(3u32),
            Fr::from(2u32),
            Fr::from(3u32),
            Fr::from(1u32),
        ])
        .unwrap();

    let expected_output = vec![
        vec![Fr::from(36u32), Fr::from(6u32)],
        vec![
            Fr::from(9u32),
            Fr::from(4u32),
            Fr::from(6u32),
            Fr::from(1u32),
        ],
        vec![
            Fr::from(3u32),
            Fr::from(2u32),
            Fr::from(3u32),
            Fr::from(1u32),
        ],
    ];

    assert_eq!(evaluation.layers, expected_output);
}

#[test]
fn test_circuit_evaluation_3() {
    let layer_0 = CircuitLayer::new(vec![Gate::new(GateType::Add, [0, 1])]);

    let layer_1 = CircuitLayer::new(vec![
        Gate::new(GateType::Add, [0, 1]),
        Gate::new(GateType::Mul, [2, 3]),
    ]);

    let layer_2 = CircuitLayer::new(vec![
        Gate::new(GateType::Add, [0, 1]),
        Gate::new(GateType::Mul, [2, 3]),
        Gate::new(GateType::Mul, [4, 5]),
        Gate::new(GateType::Mul, [6, 7]),
    ]);

    let circuit = Circuit::new(vec![layer_0, layer_1, layer_2]);

    let evaluation = circuit
        .evaluate(&[
            Fr::from(2u32),
            Fr::from(3u32),
            Fr::from(1u32),
            Fr::from(4u32),
            Fr::from(1u32),
            Fr::from(2u32),
            Fr::from(3u32),
            Fr::from(4u32),
        ])
        .unwrap();

    let expected_output = vec![
        vec![Fr::from(33u32)],
        vec![Fr::from(9u32), Fr::from(24u32)],
        vec![
            Fr::from(5u32),
            Fr::from(4u32),
            Fr::from(2u32),
            Fr::from(12u32),
        ],
        vec![
            Fr::from(2u32),
            Fr::from(3u32),
            Fr::from(1u32),
            Fr::from(4u32),
            Fr::from(1u32),
            Fr::from(2u32),
            Fr::from(3u32),
            Fr::from(4u32),
        ],
    ];

    assert_eq!(evaluation.layers, expected_output);
}

fn wrapping(values: &[u64]) -> Vec<Wrapping<u64>> {
    values.iter().map(|v| Wrapping(*v)).collect()
}

#[test]
fn evaluation_over_wrapping_integers() {
    let layer_0 = CircuitLayer::new(vec![Gate::new(GateType::Mul, [0, 1])]);
    let layer_1 = CircuitLayer::new(vec![
        Gate::new(GateType::Add, [0, 1]),
        Gate::new(GateType::Mul, [2, 3]),
    ]);
    let circuit = Circuit::new(vec![layer_0, layer_1]);
    let evaluation = circuit.evaluate(&wrapping(&[2, 3, 4, 5])).unwrap();
    assert_eq!(
        evaluation.layers,
        vec![wrapping(&[100]), wrapping(&[5, 20]), wrapping(&[2, 3, 4, 5])]
    );
}

#[test]
fn evaluation_over_plain_integers() {
    let layer_0 = CircuitLayer::new(vec![Gate::new(GateType::Add, [0, 1])]);
    let layer_1 = CircuitLayer::new(vec![
        Gate::new(GateType::Mul, [0, 1]),
        Gate::new(GateType::Add, [1, 2]),
    ]);
    let circuit = Circuit::new(vec![layer_0, layer_1]);
    let evaluation = circuit.evaluate(&[6u32, 7, 8]).unwrap();
    assert_eq!(
        evaluation.layers,
        vec![vec![57u32], vec![42, 15], vec![6, 7, 8]]
    );
}

#[test]
fn evaluation_of_an_empty_circuit_echoes_the_input() {
    let circuit = Circuit::new(vec![]);
    let evaluation = circuit.evaluate(&wrapping(&[7, 8])).unwrap();
    assert_eq!(evaluation.layers, vec![wrapping(&[7, 8])]);
}

#[test]
fn evaluation_trace_has_the_shape_of_the_circuit() {
    let layer_0 = CircuitLayer::new(vec![
        Gate::new(GateType::Add, [0, 2]),
        Gate::new(GateType::Mul, [1, 1]),
        Gate::new(GateType::Add, [2, 0]),
    ]);
    let layer_1 = CircuitLayer::new(vec![
        Gate::new(GateType::Mul, [0, 4]),
        Gate::new(GateType::Add, [1, 3]),
        Gate::new(GateType::Add, [2, 2]),
    ]);
    let circuit = Circuit::new(vec![layer_0, layer_1]);
    let input = wrapping(&[1, 2, 3, 4, 5]);
    let evaluation = circuit.evaluate(&input).unwrap();
    assert_eq!(evaluation.layers.len(), circuit.layers.len() + 1);
    assert_eq!(evaluation.layers.last().unwrap(), &input);
    assert_eq!(evaluation.layers[0].len(), circuit.layers[0].layer.len());
    assert_eq!(evaluation.layers[1].len(), circuit.layers[1].layer.len());
    assert_eq!(evaluation.layers[1], wrapping(&[5, 6, 6]));
    assert_eq!(evaluation.layers[0], wrapping(&[11, 36, 11]));
}

#[test]
fn evaluation_rejects_a_gate_that_reads_past_the_input() {
    let layer_0 = CircuitLayer::new(vec![Gate::new(GateType::Add, [0, 4])]);
    let circuit = Circuit::new(vec![layer_0]);
    let res = circuit.evaluate(&wrapping(&[1, 2, 3, 4]));
    assert_eq!(res.err(), Some(CircuitError::IndexOutOfRange));
}

#[test]
fn evaluation_rejects_a_gate_that_reads_past_the_next_layer() {
    let layer_0 = CircuitLayer::new(vec![Gate::new(GateType::Mul, [0, 2])]);
    let layer_1 = CircuitLayer::new(vec![
        Gate::new(GateType::Add, [0, 1]),
        Gate::new(GateType::Mul, [2, 3]),
    ]);
    let circuit = Circuit::new(vec![layer_0, layer_1]);
    let res = circuit.evaluate(&[
        Fr::from(2u32),
        Fr::from(3u32),
        Fr::from(4u32),
        Fr::from(5u32),
    ]);
    assert_eq!(res.err(), Some(CircuitError::IndexOutOfRange));
}
