//! Tests of population ranking and the evolutionary loop.

use evonet::batch::{create_random_network, Batch};
use evonet::errors::TrainError;
use evonet::fx::FX_ONE;
use evonet::trainer::Trainer;

const RATE_TENTH: i64 = 6554;

fn xor_dataset() -> Vec<(Vec<i64>, Vec<i64>)> {
    vec![
        (vec![0, 0], vec![0]),
        (vec![0, FX_ONE], vec![FX_ONE]),
        (vec![FX_ONE, 0], vec![FX_ONE]),
        (vec![FX_ONE, FX_ONE], vec![0]),
    ]
}

#[test]
fn ranking_on_xor_is_complete_and_ascending() {
    // Topology (2, [3], 1), population 4, XOR dataset: the ranked list
    // has length 4 and ascends by score.
    let batch = Batch::new_with_population(4, &(2, vec![3], 1)).unwrap();
    let ranked = batch.eval_fitness(&xor_dataset()).unwrap();
    assert_eq!(ranked.len(), 4);
    for w in ranked.windows(2) {
        assert!(w[0].0 <= w[1].0);
    }
    for (score, _) in ranked.iter() {
        assert!(*score >= 0);
    }
}

#[test]
fn ranking_rejects_empty_dataset() {
    let batch = Batch::new_with_population(4, &(2, vec![3], 1)).unwrap();
    let r = batch.eval_fitness(&vec![]);
    assert!(matches!(r, Err(TrainError::EmptyDatasetError)));
}

#[test]
fn ranking_rejects_empty_population() {
    let batch = Batch::new_with_networks(vec![]);
    let r = batch.eval_fitness(&xor_dataset());
    assert!(matches!(r, Err(TrainError::EmptyPopulationError)));
}

#[test]
fn ranking_rejects_misfitting_samples() {
    let batch = Batch::new_with_population(2, &(3, vec![2], 1)).unwrap();
    // Input vectors of length 2 against networks of input size 3.
    let r = batch.eval_fitness(&xor_dataset());
    assert!(matches!(r, Err(TrainError::DimensionMismatch)));
}

#[test]
fn ranking_does_not_disturb_the_population() {
    let batch = Batch::new_with_population(3, &(2, vec![2], 1)).unwrap();
    let before: Vec<Vec<i64>> = batch
        .networks
        .iter()
        .map(|n| n.output_layer.neurons[0].weights.clone())
        .collect();
    let _ = batch.eval_fitness(&xor_dataset()).unwrap();
    let after: Vec<Vec<i64>> = batch
        .networks
        .iter()
        .map(|n| n.output_layer.neurons[0].weights.clone())
        .collect();
    assert_eq!(before, after);
}

#[test]
fn ranking_handles_tied_scores() {
    // Two structurally identical networks score identically; the ranking
    // still has one entry per member and ascends.
    let net = create_random_network(&(2, vec![2], 1)).unwrap();
    let batch = Batch::new_with_networks(vec![net.clone(), net.clone(), net]);
    let ranked = batch.eval_fitness(&xor_dataset()).unwrap();
    assert_eq!(ranked.len(), 3);
    assert_eq!(ranked[0].0, ranked[1].0);
    assert_eq!(ranked[1].0, ranked[2].0);
}

#[test]
fn population_rejects_zero_width_topology() {
    let r = Batch::new_with_population(4, &(2, vec![0], 1));
    assert!(matches!(r, Err(TrainError::InvalidTopology)));
}

#[test]
fn random_network_helper_matches_topology() {
    let net = create_random_network(&(2, vec![4], 3)).unwrap();
    assert_eq!(net.hidden_layers.len(), 1);
    assert_eq!(net.hidden_layers[0].neurons.len(), 4);
    assert_eq!(net.output_layer.neurons.len(), 3);
}

#[test]
fn trainer_step_keeps_population_size() {
    let mut t = Trainer::new(6, RATE_TENTH, &(2, vec![3], 1), xor_dataset()).unwrap();
    t.step().unwrap();
    assert_eq!(t.batch.networks.len(), 6);
    t.step().unwrap();
    assert_eq!(t.batch.networks.len(), 6);
}

#[test]
fn trainer_best_score_never_worsens_across_steps() {
    let mut t = Trainer::new(8, RATE_TENTH, &(2, vec![3], 1), xor_dataset()).unwrap();
    t.step().unwrap();
    let mut best = t.current_fitness;
    for _ in 0..10 {
        t.step().unwrap();
        assert!(t.current_fitness <= best);
        best = t.current_fitness;
    }
}

#[test]
fn trainer_zero_rate_keeps_best_score_exactly() {
    // population_size 10, mutation_rate 0: one further step scores the
    // new population exactly as the generation that produced it.
    let mut t = Trainer::new(10, 0, &(2, vec![3], 1), xor_dataset()).unwrap();
    t.step().unwrap();
    let before = t.current_fitness;
    t.step().unwrap();
    assert_eq!(t.current_fitness, before);
}

#[test]
fn trainer_step_rejects_empty_dataset() {
    let mut t = Trainer::new(4, RATE_TENTH, &(2, vec![3], 1), vec![]).unwrap();
    let r = t.step();
    assert!(matches!(r, Err(TrainError::EmptyDatasetError)));
}

#[test]
fn trainer_rejects_zero_width_topology() {
    let r = Trainer::new(4, RATE_TENTH, &(2, vec![0], 1), xor_dataset());
    assert!(matches!(r, Err(TrainError::InvalidTopology)));
}

#[test]
fn trainer_train_reports_one_score_per_epoch() {
    let mut t = Trainer::new(6, RATE_TENTH, &(2, vec![3], 1), xor_dataset()).unwrap();
    let report = t.train(5, 3).unwrap();
    assert_eq!(report.len(), 5);
    for w in report.windows(2) {
        assert!(w[1] <= w[0]);
    }
    assert_eq!(*report.last().unwrap(), t.current_fitness);
}

#[test]
fn trainer_train_with_zero_epochs_reports_nothing() {
    let mut t = Trainer::new(4, RATE_TENTH, &(2, vec![3], 1), xor_dataset()).unwrap();
    let report = t.train(0, 7).unwrap();
    assert!(report.is_empty());
}
