//! The neural-network engine, exercised on concrete fixed-point values:
//! `500_000` stands for the real value `0.5`.

use evosim::nn::{Layer, LayerTopology, Network, Neuron, NnError};
use evosim::rng::SimRng;

#[test]
fn neuron_propagate_applies_relu_floor() {
    let neuron = Neuron::new(500_000, vec![-300_000, 800_000]);

    // Strongly negative inputs drive the weighted sum below zero.
    assert_eq!(neuron.propagate(&vec![-10_000_000, -10_000_000]), Ok(0));
}

#[test]
fn neuron_propagate_computes_bias_plus_weighted_sum() {
    let neuron = Neuron::new(500_000, vec![-300_000, 800_000]);

    // (-0.3 * 0.5) + (0.8 * 1.0) + 0.5 = 1.15
    assert_eq!(neuron.propagate(&vec![500_000, 1_000_000]), Ok(1_150_000));
}

#[test]
fn neuron_propagate_rejects_mismatched_inputs() {
    let neuron = Neuron::new(500_000, vec![-300_000, 800_000]);

    assert_eq!(neuron.propagate(&vec![1_000_000]), Err(NnError::MismatchedInputs));
}

#[test]
fn neuron_random_draws_unit_range_genes() {
    let mut rng = SimRng::from_seed(0);
    let neuron = Neuron::random(&mut rng, 4);

    assert!(-1_000_000 <= neuron.bias && neuron.bias <= 1_000_000);
    assert_eq!(neuron.weights.len(), 4);
    for w in &neuron.weights {
        assert!(-1_000_000 <= *w && *w <= 1_000_000);
    }

    // The same seed draws the same neuron.
    let mut rng2 = SimRng::from_seed(0);
    let neuron2 = Neuron::random(&mut rng2, 4);
    assert_eq!(neuron.bias, neuron2.bias);
    assert_eq!(neuron.weights, neuron2.weights);
}

#[test]
fn network_weights_flattens_bias_first_in_order() {
    let network = Network::new(vec![
        Layer::new(vec![Neuron::new(100_000, vec![200_000, 300_000, 400_000])]),
        Layer::new(vec![Neuron::new(500_000, vec![600_000, 700_000, 800_000])]),
    ]);

    let actual = network.weights();
    let expected = vec![
        100_000, 200_000, 300_000, 400_000, 500_000, 600_000, 700_000, 800_000,
    ];
    assert_eq!(actual, expected);
}

#[test]
fn network_from_weights_round_trips() {
    let layers = vec![LayerTopology { neurons: 3 }, LayerTopology { neurons: 2 }];
    let weights = vec![
        100_000, 200_000, 300_000, 400_000, 500_000, 600_000, 700_000, 800_000,
    ];

    let network = Network::from_weights(&layers, &weights).unwrap();
    assert_eq!(network.weights(), weights);
}

#[test]
fn network_random_round_trips_through_weights() {
    let layers = vec![
        LayerTopology { neurons: 5 },
        LayerTopology { neurons: 10 },
        LayerTopology { neurons: 2 },
    ];
    let mut rng = SimRng::from_seed(42);
    let network = Network::random(&mut rng, &layers);

    let genes = network.weights();
    assert_eq!(genes.len(), 10 * 6 + 2 * 11);

    let rebuilt = Network::from_weights(&layers, &genes).unwrap();
    assert_eq!(rebuilt.weights(), genes);
}

#[test]
fn network_from_weights_rejects_too_few_genes() {
    let layers = vec![LayerTopology { neurons: 3 }, LayerTopology { neurons: 2 }];
    let weights = vec![100_000; 7];

    assert!(matches!(
        Network::from_weights(&layers, &weights),
        Err(NnError::NotEnoughWeights)
    ));
}

#[test]
fn network_from_weights_rejects_leftover_genes() {
    let layers = vec![LayerTopology { neurons: 3 }, LayerTopology { neurons: 2 }];
    let weights = vec![100_000; 9];

    assert!(matches!(
        Network::from_weights(&layers, &weights),
        Err(NnError::TooManyWeights)
    ));
}

#[test]
fn network_propagate_rejects_mismatched_inputs() {
    let network = Network::new(vec![
        Layer::new(vec![Neuron::new(0, vec![1_000_000])]),
    ]);

    assert_eq!(
        network.propagate(vec![1, 2]),
        Err(NnError::MismatchedInputs)
    );
}

#[test]
fn network_propagate_chains_layers() {
    // One input feeds one neuron (weight 1.0, bias 0), whose output feeds
    // a second neuron (weight 0.5, bias 0.1).
    let network = Network::new(vec![
        Layer::new(vec![Neuron::new(0, vec![1_000_000])]),
        Layer::new(vec![Neuron::new(100_000, vec![500_000])]),
    ]);

    let out = network.propagate(vec![600_000]).unwrap();
    // 0.6 * 1.0 = 0.6; 0.6 * 0.5 + 0.1 = 0.4
    assert_eq!(out, vec![400_000]);
}
