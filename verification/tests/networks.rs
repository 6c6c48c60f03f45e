//! Tests of whole networks: forward propagation, fitness, mutation, and
//! random construction.

use evonet::errors::TrainError;
use evonet::fx::{FX_HALF, FX_ONE};
use evonet::layer::Layer;
use evonet::network::Network;
use evonet::neuron::Neuron;

const RATE_TENTH: i64 = 6554;

fn single_unit_network(weights: Vec<i64>, bias: i64) -> Network {
    let width = weights.len();
    let output = Layer::new(width, vec![Neuron::new(weights, bias)]).unwrap();
    Network::new(vec![], output).unwrap()
}

#[test]
fn network_forward_single_layer_exact_value() {
    let net = single_unit_network(vec![FX_ONE, FX_ONE], 0);
    let out = net.forward(&vec![0, 0]).unwrap();
    assert_eq!(out, vec![FX_HALF]);
}

#[test]
fn network_forward_rejects_wrong_input_length() {
    // Input size 2, called with a vector of length 3.
    let net = single_unit_network(vec![FX_ONE, FX_ONE], 0);
    let r = net.forward(&vec![0, 0, 0]);
    assert!(matches!(r, Err(TrainError::DimensionMismatch)));
}

#[test]
fn network_forward_folds_through_hidden_layer() {
    // One hidden neuron with weight 1 and bias 0 on input 0 yields 1/2;
    // the output neuron with weight 1 and bias 0 then yields sigmoid(1/2)
    // = 1/2 + (1/2)/(2 * 3/2) = 1/2 + 1/6.
    let hidden = Layer::new(1, vec![Neuron::new(vec![FX_ONE], 0)]).unwrap();
    let output = Layer::new(1, vec![Neuron::new(vec![FX_ONE], 0)]).unwrap();
    let net = Network::new(vec![hidden], output).unwrap();
    let out = net.forward(&vec![0]).unwrap();
    assert_eq!(out, vec![FX_HALF + 10922]);
}

#[test]
fn network_forward_is_deterministic() {
    let net = single_unit_network(vec![4242, -999], 17);
    let x = vec![31415, -27182];
    assert_eq!(net.forward(&x).unwrap(), net.forward(&x).unwrap());
}

#[test]
fn network_rejects_broken_layer_chain() {
    // Hidden layer of width 3 feeding an output layer that reads 2 inputs.
    let hidden = Layer::new_with_random_values(2, 3);
    let output = Layer::new_with_random_values(2, 1);
    let r = Network::new(vec![hidden], output);
    assert!(matches!(r, Err(TrainError::DimensionMismatch)));
}

#[test]
fn network_fitness_exact_value() {
    // forward([0, 0]) == 1/2, expected 0: cost = (1/2)^2 = 1/4 = 16384,
    // over a single sample the mean is the cost itself.
    let net = single_unit_network(vec![FX_ONE, FX_ONE], 0);
    let data = vec![(vec![0, 0], vec![0])];
    assert_eq!(net.fitness(&data).unwrap(), FX_ONE / 4);
}

#[test]
fn network_fitness_zero_on_exact_fit() {
    let net = single_unit_network(vec![FX_ONE, FX_ONE], 0);
    let prediction = net.forward(&vec![0, 0]).unwrap();
    let data = vec![
        (vec![0, 0], prediction.clone()),
        (vec![0, 0], prediction),
    ];
    assert_eq!(net.fitness(&data).unwrap(), 0);
}

#[test]
fn network_fitness_averages_over_samples() {
    // Two samples with costs 16384 and 0: mean 8192.
    let net = single_unit_network(vec![FX_ONE, FX_ONE], 0);
    let prediction = net.forward(&vec![0, 0]).unwrap();
    let data = vec![(vec![0, 0], vec![0]), (vec![0, 0], prediction)];
    assert_eq!(net.fitness(&data).unwrap(), FX_ONE / 8);
}

#[test]
fn network_fitness_rejects_empty_dataset() {
    let net = single_unit_network(vec![FX_ONE], 0);
    let r = net.fitness(&vec![]);
    assert!(matches!(r, Err(TrainError::EmptyDatasetError)));
}

#[test]
fn network_fitness_rejects_misshapen_expected_vector() {
    let net = single_unit_network(vec![FX_ONE], 0);
    let r = net.fitness(&vec![(vec![0], vec![0, 0])]);
    assert!(matches!(r, Err(TrainError::DimensionMismatch)));
}

#[test]
fn network_mutation_preserves_topology() {
    let config = (4usize, vec![5usize, 3usize], 2usize);
    let net = Network::new_with_random_values(&config).unwrap();
    let child = net.mutate(RATE_TENTH);
    assert_eq!(child.hidden_layers.len(), 2);
    assert_eq!(child.hidden_layers[0].input_size, 4);
    assert_eq!(child.hidden_layers[0].neurons.len(), 5);
    assert_eq!(child.hidden_layers[1].input_size, 5);
    assert_eq!(child.hidden_layers[1].neurons.len(), 3);
    assert_eq!(child.output_layer.input_size, 3);
    assert_eq!(child.output_layer.neurons.len(), 2);
}

#[test]
fn network_mutation_leaves_parent_untouched() {
    let net = single_unit_network(vec![11, 22], 33);
    let _child = net.mutate(RATE_TENTH);
    assert_eq!(net.output_layer.neurons[0].weights, vec![11, 22]);
    assert_eq!(net.output_layer.neurons[0].bias, 33);
}

#[test]
fn network_random_construction_has_requested_topology() {
    let config = (2usize, vec![3usize], 1usize);
    let net = Network::new_with_random_values(&config).unwrap();
    assert_eq!(net.hidden_layers.len(), 1);
    assert_eq!(net.hidden_layers[0].input_size, 2);
    assert_eq!(net.hidden_layers[0].neurons.len(), 3);
    assert_eq!(net.output_layer.input_size, 3);
    assert_eq!(net.output_layer.neurons.len(), 1);
}

#[test]
fn topology_check_matches_construction() {
    assert!(evonet::network::topology_is_ok(&(2, vec![3], 1)));
    assert!(!evonet::network::topology_is_ok(&(2, vec![3, 0], 1)));
    assert!(!evonet::network::topology_is_ok(&(0, vec![], 1)));
    assert!(!evonet::network::topology_is_ok(&(1, vec![], 0)));
}

#[test]
fn network_rejects_zero_width_topology() {
    assert!(matches!(
        Network::new_with_random_values(&(2, vec![0], 1)),
        Err(TrainError::InvalidTopology)
    ));
    assert!(matches!(
        Network::new_with_random_values(&(0, vec![3], 1)),
        Err(TrainError::InvalidTopology)
    ));
    assert!(matches!(
        Network::new_with_random_values(&(2, vec![3], 0)),
        Err(TrainError::InvalidTopology)
    ));
}
