use evonet::examples::{
    evaluate_copy_input, run_example_one, run_example_three, run_example_two, score_copy_probes,
};
use evonet::fixed::SCALE;
use evonet::network::NeuralNetwork;
use evonet::trainer::{Trainer, TrainingData};

const DECAY: i64 = 64225;

#[test]
fn end_to_end_inversion_improves() {
    // The 2-10-10-2 inversion scenario: after 200 generations of 100
    // candidates, the best score must strictly beat the fresh network
    // (all weights 1.0, zero biases) on the same examples.
    let mut net = NeuralNetwork::new(vec![2, 10, 10, 2]).unwrap();
    let examples = vec![
        TrainingData::new(vec![0, 0], vec![SCALE, SCALE]),
        TrainingData::new(vec![SCALE, SCALE], vec![0, 0]),
        TrainingData::new(vec![0, SCALE], vec![SCALE, 0]),
        TrainingData::new(vec![SCALE, 0], vec![0, SCALE]),
    ];
    let initial_score = Trainer::evaluate_with_training_data(&examples, &mut net);
    let fresh = NeuralNetwork::new(vec![2, 10, 10, 2]).unwrap();
    let mut trainer = Trainer::new();
    let result =
        trainer.train_genetic_algorithm_dataset(&fresh, &examples, 200, 100, SCALE, DECAY);
    assert_eq!(result.generation_score_curve.len(), 200);
    let final_score = *result.generation_score_curve.last().unwrap();
    assert!(final_score > initial_score);
}

#[test]
fn example_one_runs_and_records_curve() {
    let mut trainer = Trainer::new();
    let result = run_example_one(&mut trainer);
    assert_eq!(result.generation_score_curve.len(), 200);
    for w in result.generation_score_curve.windows(2) {
        assert!(w[0] <= w[1]);
    }
    assert_eq!(result.network.get_structure(), vec![2, 10, 10, 2]);
}

#[test]
fn custom_scorer_with_empty_examples() {
    // The 2-2 self-consistency scenario: the example set stays empty,
    // the scorer probes with random inputs, and the run must complete
    // with a non-decreasing curve.
    let mut trainer = Trainer::new();
    let result = run_example_two(&mut trainer);
    assert_eq!(result.generation_score_curve.len(), 200);
    for w in result.generation_score_curve.windows(2) {
        assert!(w[0] <= w[1]);
    }
    assert_eq!(result.network.get_structure(), vec![2, 2]);
}

#[test]
fn copy_input_score_is_nonpositive() {
    let mut net = NeuralNetwork::new(vec![2, 2]).unwrap();
    let examples: Vec<TrainingData> = vec![];
    let score = evaluate_copy_input(&examples, &mut net);
    assert!(score <= 0);
}

#[test]
fn copy_input_score_zero_on_width_mismatch() {
    let mut net = NeuralNetwork::new(vec![2, 3]).unwrap();
    net.set_inputs(vec![11, 22]);
    net.calculate_network();
    let nodes_before = net.nodes.clone();
    let examples: Vec<TrainingData> = vec![];
    // The mismatch branch is deterministic: exact zero, network untouched.
    assert_eq!(evaluate_copy_input(&examples, &mut net), 0);
    assert_eq!(net.nodes, nodes_before);
}

#[test]
fn probe_scoring_matches_manual_sum() {
    let mut net = NeuralNetwork::new(vec![2, 2]).unwrap();
    let probes = vec![vec![1000, 2000], vec![0, SCALE]];
    // Compute the expected value by running each probe by hand.
    let mut manual: i64 = 0;
    for probe in &probes {
        let mut reference = NeuralNetwork::new(vec![2, 2]).unwrap();
        reference.set_inputs(probe.clone());
        reference.calculate_network();
        let out = reference.get_outputs();
        for i in 0..out.len() {
            manual -= (probe[i] - out[i]).abs();
        }
    }
    let score = score_copy_probes(&probes, &mut net);
    assert_eq!(score, manual);
    assert!(score < 0);
}

#[test]
fn example_three_performs_no_work() {
    let mut trainer = Trainer::new();
    run_example_three(&mut trainer);
}
