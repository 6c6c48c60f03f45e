//! Tests of single neurons and layers: activation values, bounds,
//! mutation, and shape checking.

use evonet::errors::TrainError;
use evonet::fx::{FX_HALF, FX_ONE};
use evonet::layer::Layer;
use evonet::neuron::Neuron;

const RATE_TENTH: i64 = 6554; // about 0.1 in fixed-point units

#[test]
fn unit_forward_at_zero_is_one_half() {
    // weights [1, 1], bias 0: forward([0, 0]) == sigmoid(0) == 1/2 exactly.
    let n = Neuron::new(vec![FX_ONE, FX_ONE], 0);
    assert_eq!(n.forward(&vec![0, 0]), FX_HALF);
}

#[test]
fn unit_forward_at_one_exact_value() {
    // weights [1], bias 0: forward([1]) == sigmoid(1) == 1/2 + 1/4 = 49152.
    let n = Neuron::new(vec![FX_ONE], 0);
    assert_eq!(n.forward(&vec![FX_ONE]), FX_HALF + FX_HALF / 2);
}

#[test]
fn unit_forward_negative_input_is_symmetric() {
    // sigmoid(-1) == 1 - sigmoid(1) == 16384.
    let n = Neuron::new(vec![FX_ONE], 0);
    assert_eq!(n.forward(&vec![-FX_ONE]), FX_HALF - FX_HALF / 2);
}

#[test]
fn unit_forward_is_deterministic() {
    let n = Neuron::new(vec![12345, -6789, 4242], 99);
    let inputs = vec![1000, -2000, 30000];
    let a = n.forward(&inputs);
    let b = n.forward(&inputs);
    assert_eq!(a, b);
}

#[test]
fn unit_forward_stays_strictly_inside_unit_interval() {
    let extremes = [
        (vec![i64::MAX], vec![i64::MAX], i64::MAX),
        (vec![i64::MAX], vec![i64::MIN], i64::MIN),
        (vec![i64::MIN, i64::MAX], vec![i64::MAX, i64::MAX], 0),
        (vec![0], vec![0], i64::MIN),
        (vec![0], vec![0], i64::MAX),
    ];
    for (weights, inputs, bias) in extremes {
        let n = Neuron::new(weights, bias);
        let r = n.forward(&inputs);
        assert!(0 < r && r < FX_ONE, "activation {r} out of (0, 1)");
    }
}

#[test]
fn unit_random_values_lie_in_unit_interval() {
    let n = Neuron::new_with_random_values(50);
    assert_eq!(n.weights.len(), 50);
    for &w in n.weights.iter() {
        assert!((0..FX_ONE).contains(&w));
    }
    assert!((0..FX_ONE).contains(&n.bias));
}

#[test]
fn unit_mutation_moves_by_at_most_half_the_rate() {
    let parent = Neuron::new(vec![0, FX_ONE, -FX_ONE, 12345], 777);
    for _ in 0..20 {
        let child = parent.mutate(RATE_TENTH);
        assert_eq!(child.weights.len(), parent.weights.len());
        for i in 0..parent.weights.len() {
            let d = child.weights[i] - parent.weights[i];
            assert!(d.abs() <= RATE_TENTH / 2, "weight moved by {d}");
        }
        let db = child.bias - parent.bias;
        assert!(db.abs() <= RATE_TENTH / 2, "bias moved by {db}");
    }
}

#[test]
fn unit_mutation_at_zero_rate_is_identity() {
    let parent = Neuron::new(vec![1, 2, 3], -9);
    let child = parent.mutate(0);
    assert_eq!(child.weights, parent.weights);
    assert_eq!(child.bias, parent.bias);
}

#[test]
fn layer_forward_preserves_neuron_order() {
    // Two neurons with distinct outputs: order of outputs follows order
    // of neurons.
    let a = Neuron::new(vec![FX_ONE], 0); // sigmoid(1) = 49152 on input 1
    let b = Neuron::new(vec![FX_ONE], FX_ONE); // sigmoid(2) on input 1
    let layer = Layer::new(1, vec![a, b]).unwrap();
    let out = layer.forward(&vec![FX_ONE]).unwrap();
    assert_eq!(out.len(), 2);
    assert_eq!(out[0], 49152);
    // sigmoid(2) = 1/2 + 2/(2*3) = 1/2 + 1/3: 32768 + 131072*32768/(65536+131072)
    assert_eq!(out[1], 32768 + 21845);
}

#[test]
fn layer_rejects_inconsistent_neuron_widths() {
    let a = Neuron::new(vec![0, 0], 0);
    let r = Layer::new(3, vec![a]);
    assert!(matches!(r, Err(TrainError::DimensionMismatch)));
}

#[test]
fn layer_rejects_wrong_input_length() {
    let layer = Layer::new_with_random_values(2, 3);
    let r = layer.forward(&vec![0, 0, 0]);
    assert!(matches!(r, Err(TrainError::DimensionMismatch)));
}

#[test]
fn layer_mutation_preserves_arity_and_width() {
    let layer = Layer::new_with_random_values(4, 6);
    let child = layer.mutate(RATE_TENTH);
    assert_eq!(child.input_size, 4);
    assert_eq!(child.neurons.len(), 6);
    for n in child.neurons.iter() {
        assert_eq!(n.weights.len(), 4);
    }
}

#[test]
fn layer_random_values_have_requested_shape() {
    let layer = Layer::new_with_random_values(3, 5);
    assert_eq!(layer.input_size, 3);
    assert_eq!(layer.neurons.len(), 5);
    for n in layer.neurons.iter() {
        assert_eq!(n.weights.len(), 3);
        for &w in n.weights.iter() {
            assert!((0..FX_ONE).contains(&w));
        }
    }
}
