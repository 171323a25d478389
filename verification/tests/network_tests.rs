use evonet::fixed::SCALE;
use evonet::network::{NetworkError, NeuralNetwork};

#[test]
fn construction_shape_invariant() {
    let net = NeuralNetwork::new(vec![2, 3, 1]).unwrap();
    assert_eq!(net.nodes.len(), 3);
    assert_eq!(net.nodes[0].len(), 2);
    assert_eq!(net.nodes[1].len(), 3);
    assert_eq!(net.nodes[2].len(), 1);
    assert_eq!(net.weights.len(), 2);
    assert_eq!(net.weights[0].len(), 2);
    for row in &net.weights[0] {
        assert_eq!(row.len(), 3);
    }
    assert_eq!(net.weights[1].len(), 3);
    for row in &net.weights[1] {
        assert_eq!(row.len(), 1);
    }
    for mat in &net.weights {
        for row in mat {
            for &w in row {
                assert_eq!(w, SCALE);
            }
        }
    }
    assert_eq!(net.biases.len(), 3);
    for (layer, brow) in net.biases.iter().enumerate() {
        assert_eq!(brow.len(), net.nodes[layer].len());
        for &b in brow {
            assert_eq!(b, 0);
        }
    }
    for layer in &net.nodes {
        for &v in layer {
            assert_eq!(v, 0);
        }
    }
    assert_eq!(net.get_structure(), vec![2, 3, 1]);
}

#[test]
fn construction_rejects_single_layer() {
    assert!(matches!(
        NeuralNetwork::new(vec![5]),
        Err(NetworkError::TooFewLayers)
    ));
    assert!(matches!(
        NeuralNetwork::new(vec![]),
        Err(NetworkError::TooFewLayers)
    ));
}

#[test]
fn construction_rejects_empty_layer() {
    assert!(matches!(
        NeuralNetwork::new(vec![2, 0, 3]),
        Err(NetworkError::EmptyLayer)
    ));
    assert!(matches!(
        NeuralNetwork::new(vec![0, 2]),
        Err(NetworkError::EmptyLayer)
    ));
}

#[test]
fn set_weights_checks_shape() {
    let mut net = NeuralNetwork::new(vec![2, 2]).unwrap();
    let bad = vec![vec![vec![1, 2, 3], vec![4, 5, 6]]];
    assert!(matches!(net.set_weights(bad), Err(NetworkError::ShapeMismatch)));
    assert_eq!(net.weights[0][0][0], SCALE);
    let good = vec![vec![vec![10, 20], vec![30, 40]]];
    assert!(net.set_weights(good).is_ok());
    assert_eq!(net.weights[0][1][0], 30);
}

#[test]
fn set_biases_checks_shape() {
    let mut net = NeuralNetwork::new(vec![2, 2]).unwrap();
    let bad = vec![vec![1, 2]];
    assert!(matches!(net.set_biases(bad), Err(NetworkError::ShapeMismatch)));
    let good = vec![vec![1, 2], vec![3, 4]];
    assert!(net.set_biases(good).is_ok());
    assert_eq!(net.biases[1][1], 4);
}

#[test]
fn set_inputs_flags_mismatch_but_proceeds() {
    let mut net = NeuralNetwork::new(vec![2, 2]).unwrap();
    assert!(!net.set_inputs(vec![1, 2]));
    assert_eq!(net.nodes[0], vec![1, 2]);
    assert!(net.set_inputs(vec![1, 2, 3]));
    assert_eq!(net.nodes[0], vec![1, 2, 3]);
    // Evaluation still runs to completion on the degraded shape.
    net.calculate_network();
    let out = net.get_outputs();
    assert_eq!(out.len(), 2);
}

#[test]
fn sigmoid_exact_values() {
    assert_eq!(NeuralNetwork::sigmoid(0), SCALE / 2);
    assert_eq!(NeuralNetwork::sigmoid(SCALE), 49152);
    assert_eq!(NeuralNetwork::sigmoid(-SCALE), 16384);
    assert_eq!(NeuralNetwork::sigmoid(1), 32769);
    assert_eq!(NeuralNetwork::sigmoid(-1), 32767);
    assert_eq!(NeuralNetwork::sigmoid(i64::MAX), SCALE);
    assert_eq!(NeuralNetwork::sigmoid(i64::MIN), 0);
    assert_eq!(NeuralNetwork::linear(42), 42);
}

#[test]
fn forward_pass_exact_values() {
    // A 1-1 network with the fresh unit weight and zero bias squashes
    // its input directly.
    let mut net = NeuralNetwork::new(vec![1, 1]).unwrap();
    net.set_inputs(vec![0]);
    net.calculate_network();
    assert_eq!(net.get_outputs(), vec![SCALE / 2]);
    net.set_inputs(vec![SCALE]);
    net.calculate_network();
    assert_eq!(net.get_outputs(), vec![49152]);
    // A fresh 2-2 network sums both inputs into each output node.
    let mut net2 = NeuralNetwork::new(vec![2, 2]).unwrap();
    net2.set_inputs(vec![SCALE, SCALE]);
    net2.calculate_network();
    // Each node sees 1.0 + 1.0 = 2.0: sigmoid(2 * SCALE).
    let expected = NeuralNetwork::sigmoid(2 * SCALE);
    assert_eq!(net2.get_outputs(), vec![expected, expected]);
}

#[test]
fn evaluation_is_deterministic() {
    let mut net = NeuralNetwork::new(vec![2, 3, 2]).unwrap();
    net.mutate_weights(SCALE);
    net.mutate_biases(SCALE);
    net.set_inputs(vec![123, 4567]);
    net.calculate_network();
    let first = net.get_outputs();
    net.set_inputs(vec![123, 4567]);
    net.calculate_network();
    let second = net.get_outputs();
    assert_eq!(first, second);
    // Re-running the pass without touching the inputs repeats it too.
    net.calculate_network();
    assert_eq!(net.get_outputs(), first);
}

#[test]
fn mutation_stays_within_bounds() {
    let mut net = NeuralNetwork::new(vec![2, 3, 1]).unwrap();
    let old_weights = net.weights.clone();
    net.mutate_weights(500);
    assert_eq!(net.weights.len(), old_weights.len());
    for l in 0..old_weights.len() {
        assert_eq!(net.weights[l].len(), old_weights[l].len());
        for n in 0..old_weights[l].len() {
            assert_eq!(net.weights[l][n].len(), old_weights[l][n].len());
            for t in 0..old_weights[l][n].len() {
                let delta = net.weights[l][n][t] - old_weights[l][n][t];
                assert!(-500 <= delta && delta <= 500);
            }
        }
    }
    let old_biases = net.biases.clone();
    net.mutate_biases(300);
    for l in 0..old_biases.len() {
        assert_eq!(net.biases[l].len(), old_biases[l].len());
        for n in 0..old_biases[l].len() {
            let delta = net.biases[l][n] - old_biases[l][n];
            assert!(-300 <= delta && delta <= 300);
        }
    }
}

#[test]
fn zero_mutation_changes_nothing() {
    let mut net = NeuralNetwork::new(vec![2, 3, 1]).unwrap();
    let old_weights = net.weights.clone();
    let old_biases = net.biases.clone();
    net.mutate_weights(0);
    net.mutate_biases(0);
    assert_eq!(net.weights, old_weights);
    assert_eq!(net.biases, old_biases);
}

#[test]
fn mutation_actually_perturbs() {
    let mut net = NeuralNetwork::new(vec![2, 3, 1]).unwrap();
    net.mutate_weights(SCALE);
    let mut changed = false;
    for mat in &net.weights {
        for row in mat {
            for &w in row {
                if w != SCALE {
                    changed = true;
                }
            }
        }
    }
    assert!(changed);
}

#[test]
fn structure_from_weights_matches() {
    let mut net = NeuralNetwork::new(vec![2, 3, 1]).unwrap();
    let weights = net.weights.clone();
    assert_eq!(net.get_structure_from_weights(weights), vec![2, 3, 1]);
}
