use evonet::fixed::SCALE;
use evonet::network::NeuralNetwork;
use evonet::trainer::{Trainer, TrainingData};

const DECAY: i64 = 64225;

fn inversion_examples() -> Vec<TrainingData> {
    vec![
        TrainingData::new(vec![0, 0], vec![SCALE, SCALE]),
        TrainingData::new(vec![SCALE, SCALE], vec![0, 0]),
        TrainingData::new(vec![0, SCALE], vec![SCALE, 0]),
        TrainingData::new(vec![SCALE, 0], vec![0, SCALE]),
    ]
}

#[test]
fn perfect_match_scores_zero() {
    let mut net = NeuralNetwork::new(vec![2, 2]).unwrap();
    net.set_inputs(vec![1000, 2000]);
    net.calculate_network();
    let outputs = net.get_outputs();
    let examples = vec![TrainingData::new(vec![1000, 2000], outputs)];
    let score = Trainer::evaluate_with_training_data(&examples, &mut net);
    assert_eq!(score, 0);
}

#[test]
fn deviation_scores_negated_distance_sum() {
    let mut net = NeuralNetwork::new(vec![2, 2]).unwrap();
    net.set_inputs(vec![1000, 2000]);
    net.calculate_network();
    let outputs = net.get_outputs();
    let expected = vec![outputs[0] + 1000, outputs[1] - 500];
    let examples = vec![TrainingData::new(vec![1000, 2000], expected)];
    let score = Trainer::evaluate_with_training_data(&examples, &mut net);
    assert_eq!(score, -1500);
}

#[test]
fn score_accumulates_over_examples() {
    let mut net = NeuralNetwork::new(vec![2, 2]).unwrap();
    net.set_inputs(vec![300, 400]);
    net.calculate_network();
    let out = net.get_outputs();
    let examples = vec![
        TrainingData::new(vec![300, 400], vec![out[0] + 100, out[1] + 100]),
        TrainingData::new(vec![300, 400], vec![out[0] - 100, out[1] - 100]),
    ];
    let score = Trainer::evaluate_with_training_data(&examples, &mut net);
    assert_eq!(score, -400);
}

#[test]
fn short_expected_row_is_tolerated() {
    // An example whose expected row is shorter than the output layer
    // charges only the nodes it covers, instead of aborting the run.
    let mut net = NeuralNetwork::new(vec![2, 2]).unwrap();
    net.set_inputs(vec![0, 0]);
    net.calculate_network();
    let out = net.get_outputs();
    let examples = vec![TrainingData::new(vec![0, 0], vec![out[0] + 7])];
    let score = Trainer::evaluate_with_training_data(&examples, &mut net);
    assert_eq!(score, -7);
}

#[test]
fn mismatched_input_length_degrades_but_runs() {
    let mut net = NeuralNetwork::new(vec![2, 2]).unwrap();
    let examples = vec![TrainingData::new(vec![SCALE], vec![0, 0])];
    let score = Trainer::evaluate_with_training_data(&examples, &mut net);
    assert!(score <= 0);
}

#[test]
fn empty_set_evaluation_leaves_network_unchanged() {
    let mut net = NeuralNetwork::new(vec![2, 2]).unwrap();
    net.set_inputs(vec![777, 888]);
    net.calculate_network();
    let nodes_before = net.nodes.clone();
    let weights_before = net.weights.clone();
    let biases_before = net.biases.clone();
    let examples: Vec<TrainingData> = vec![];
    assert_eq!(Trainer::evaluate_with_training_data(&examples, &mut net), 0);
    assert_eq!(net.nodes, nodes_before);
    assert_eq!(net.weights, weights_before);
    assert_eq!(net.biases, biases_before);
}

#[test]
fn evaluation_ends_in_last_example_state() {
    let mut net = NeuralNetwork::new(vec![2, 2]).unwrap();
    let examples = vec![
        TrainingData::new(vec![100, 200], vec![0, 0]),
        TrainingData::new(vec![3000, 4000], vec![0, 0]),
    ];
    Trainer::evaluate_with_training_data(&examples, &mut net);
    // The activations must be the forward-pass state of the last example.
    let mut reference = NeuralNetwork::new(vec![2, 2]).unwrap();
    reference.set_inputs(vec![3000, 4000]);
    reference.calculate_network();
    assert_eq!(net.nodes, reference.nodes);
}

#[test]
fn empty_example_set_scores_zero_and_trains_flat() {
    let mut net = NeuralNetwork::new(vec![2, 2]).unwrap();
    let examples: Vec<TrainingData> = vec![];
    assert_eq!(Trainer::evaluate_with_training_data(&examples, &mut net), 0);
    let mut trainer = Trainer::new();
    let result =
        trainer.train_genetic_algorithm_dataset(&net, &examples, 5, 3, SCALE, DECAY);
    assert_eq!(result.generation_score_curve.len(), 5);
    for &s in &result.generation_score_curve {
        assert_eq!(s, 0);
    }
}

#[test]
fn curve_is_monotone_nondecreasing() {
    let net = NeuralNetwork::new(vec![2, 3, 2]).unwrap();
    let examples = inversion_examples();
    let mut trainer = Trainer::new();
    let result =
        trainer.train_genetic_algorithm_dataset(&net, &examples, 30, 10, SCALE, DECAY);
    assert_eq!(result.generation_score_curve.len(), 30);
    for w in result.generation_score_curve.windows(2) {
        assert!(w[0] <= w[1]);
    }
}

#[test]
fn best_result_rescores_to_last_entry() {
    let net = NeuralNetwork::new(vec![2, 3, 2]).unwrap();
    let examples = inversion_examples();
    let mut trainer = Trainer::new();
    let mut result =
        trainer.train_genetic_algorithm_dataset(&net, &examples, 20, 10, SCALE, DECAY);
    let last = *result.generation_score_curve.last().unwrap();
    let rescored = Trainer::evaluate_with_training_data(&examples, &mut result.network);
    assert!(rescored >= last);
    assert_eq!(rescored, last);
}

#[test]
fn zero_generation_run_returns_empty_curve() {
    let net = NeuralNetwork::new(vec![2, 2]).unwrap();
    let examples = inversion_examples();
    let mut trainer = Trainer::new();
    let result =
        trainer.train_genetic_algorithm_dataset(&net, &examples, 0, 10, SCALE, DECAY);
    assert!(result.generation_score_curve.is_empty());
    assert_eq!(result.network.get_structure(), vec![2, 2]);
}

#[test]
fn zero_population_run_never_improves() {
    let net = NeuralNetwork::new(vec![2, 2]).unwrap();
    let examples = inversion_examples();
    let mut trainer = Trainer::new();
    let result = trainer.train_genetic_algorithm_dataset(&net, &examples, 3, 0, SCALE, DECAY);
    assert_eq!(result.generation_score_curve, vec![i64::MIN, i64::MIN, i64::MIN]);
}

#[test]
fn result_preserves_structure() {
    let net = NeuralNetwork::new(vec![2, 3, 2]).unwrap();
    let examples = inversion_examples();
    let mut trainer = Trainer::new();
    let result =
        trainer.train_genetic_algorithm_dataset(&net, &examples, 5, 5, SCALE, DECAY);
    assert_eq!(result.network.get_structure(), vec![2, 3, 2]);
}
