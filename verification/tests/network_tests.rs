use ml_rust::{
    activate_layer, activate_neuron, compute_error, ADValue, AutoDiff, BatchResult, ErrorFunction,
    FFResult, FloatFactory, Fx, Lcg, LayerActivation, MlError, Network, NeuronActivation,
    NumberFactory, NumberLike, Sample,
};

fn fx(millionths: i64) -> Fx {
    Fx::from_raw(millionths)
}

fn create_simple_network() -> Network {
    let mut network = Network::new(2, ErrorFunction::EuclideanDistanceSquared);
    network.add_layer(
        2,
        true,
        Fx::zero(),
        NeuronActivation::LeakyRelu(fx(10_000)),
        LayerActivation::Identity,
    );
    network.add_layer(
        2,
        false,
        Fx::zero(),
        NeuronActivation::Sigmoid,
        LayerActivation::SoftMax,
    );
    network
}

fn simple_params() -> Vec<Fx> {
    vec![
        fx(500_000),
        fx(100_000),
        fx(300_000),
        fx(200_000),
        fx(400_000),
        fx(600_000),
        fx(150_000),
        fx(250_000),
        fx(150_000),
        fx(700_000),
    ]
}

#[test]
fn test_create_network() {
    let network = create_simple_network();
    assert_eq!(network.params_count(), 10);
}

#[test]
fn test_feed_forward() {
    let mut network = create_simple_network();
    network.set_params(simple_params()).unwrap();

    let sample = Sample { input: vec![fx(800_000), fx(200_000)], category: 0, categories: 2 };

    let mut nf = FloatFactory::new();
    let mut rng = Lcg::new(0);
    let ff = network.feed_forward(&mut nf, &sample, true, &mut rng).unwrap();

    // Recompute the same pass by hand through the same backend protocol.
    let mut rf = FloatFactory::new();
    let x0 = fx(800_000);
    let x1 = fx(200_000);
    let leaky = NeuronActivation::LeakyRelu(fx(10_000));
    let mut ia = fx(500_000);
    let t = rf.mul(fx(100_000), x0);
    ia = rf.add(ia, t);
    let t = rf.mul(fx(300_000), x1);
    ia = rf.add(ia, t);
    let mut ib = fx(200_000);
    let t = rf.mul(fx(400_000), x0);
    ib = rf.add(ib, t);
    let t = rf.mul(fx(600_000), x1);
    ib = rf.add(ib, t);
    let a = activate_neuron(&mut rf, &ia, &leaky);
    let b = activate_neuron(&mut rf, &ib, &leaky);
    let mut ic = Fx::zero();
    let t = rf.mul(fx(150_000), a);
    ic = rf.add(ic, t);
    let t = rf.mul(fx(250_000), b);
    ic = rf.add(ic, t);
    let mut id = Fx::zero();
    let t = rf.mul(fx(150_000), a);
    id = rf.add(id, t);
    let t = rf.mul(fx(700_000), b);
    id = rf.add(id, t);
    let c = activate_neuron(&mut rf, &ic, &NeuronActivation::Sigmoid);
    let d = activate_neuron(&mut rf, &id, &NeuronActivation::Sigmoid);
    let out = activate_layer(&mut rf, &vec![c, d], &LayerActivation::SoftMax).unwrap();
    let expected = vec![Fx::one(), Fx::zero()];
    let error = compute_error(
        &mut rf,
        &expected,
        &out,
        &ErrorFunction::EuclideanDistanceSquared,
    )
    .unwrap();
    assert_eq!(ff.error(), error);
}

#[test]
fn test_backend_equivalence() {
    let mut network = create_simple_network();
    network.set_params(simple_params()).unwrap();
    let sample = Sample { input: vec![fx(800_000), fx(200_000)], category: 1, categories: 2 };

    let mut plain = FloatFactory::new();
    let mut rng1 = Lcg::new(42);
    let plain_ff = network.feed_forward(&mut plain, &sample, false, &mut rng1).unwrap();

    let mut taped = AutoDiff::new();
    let mut rng2 = Lcg::new(42);
    let taped_ff = network.feed_forward(&mut taped, &sample, false, &mut rng2).unwrap();

    assert_eq!(plain_ff.error(), taped_ff.error());
    assert_eq!(plain_ff.actual_category(), taped_ff.actual_category());
    assert_eq!(plain_ff.diffs().len(), 0);
    assert_eq!(taped_ff.diffs().len(), 10);
}

#[test]
fn test_dropout_zero_modes_agree() {
    let mut network = create_simple_network();
    network.set_params(simple_params()).unwrap();
    let sample = Sample { input: vec![fx(800_000), fx(200_000)], category: 0, categories: 2 };

    let mut nf1 = FloatFactory::new();
    let mut rng1 = Lcg::new(7);
    let predicted = network.feed_forward(&mut nf1, &sample, true, &mut rng1).unwrap();

    let mut nf2 = FloatFactory::new();
    let mut rng2 = Lcg::new(7);
    let trained = network.feed_forward(&mut nf2, &sample, false, &mut rng2).unwrap();

    assert_eq!(predicted.error(), trained.error());
    assert_eq!(predicted.actual_category(), trained.actual_category());
}

#[test]
fn test_back_propagate() {
    let mut network = create_simple_network();
    network.set_params(simple_params()).unwrap();
    let initial = network.params().clone();

    let samples = vec![
        Sample { input: vec![fx(100_000), fx(900_000)], category: 1, categories: 2 },
        Sample { input: vec![fx(400_000), fx(700_000)], category: 0, categories: 2 },
    ];
    let mut rng = Lcg::new(3);
    let br = network
        .feed_batch_forward::<Sample, ADValue, AutoDiff>(&samples[..], false, &mut rng)
        .unwrap();
    let t_conf = simple_conf();
    network.back_propagate(&br.diffs(), &t_conf).unwrap();
    assert_ne!(&initial, network.params());
}

fn simple_conf() -> ml_rust::TrainingConfig {
    ml_rust::TrainingConfig::new(5, 2, fx(10_000), fx(100), 32, 4)
}

#[test]
fn test_back_propagate_length_mismatch() {
    let mut network = create_simple_network();
    let t_conf = simple_conf();
    let wrong = vec![Fx::zero(); 3];
    assert_eq!(network.back_propagate(&wrong, &t_conf), Err(MlError::LengthMismatch));
}

#[test]
fn test_shape_mismatch() {
    let network = create_simple_network();
    let sample = Sample { input: vec![fx(1)], category: 0, categories: 2 };
    let mut nf = FloatFactory::new();
    let mut rng = Lcg::new(0);
    let r = network.feed_forward(&mut nf, &sample, true, &mut rng);
    assert_eq!(r.err(), Some(MlError::ShapeMismatch));
}

#[test]
fn test_addressing_partition() {
    let network = create_simple_network();
    assert_eq!(network.get_weights_range(0, 0), (1, 3));
    assert_eq!(network.get_weights_range(0, 1), (4, 6));
    assert_eq!(network.get_weights_range(1, 0), (6, 8));
    assert_eq!(network.get_weights_range(1, 1), (8, 10));
    let mut network = network;
    network.set_params(simple_params()).unwrap();
    assert_eq!(network.get_bias(0, 0), fx(500_000));
    assert_eq!(network.get_bias(0, 1), fx(200_000));
    assert_eq!(network.get_bias(1, 0), Fx::zero());
}

#[test]
fn test_predict_hottest_output() {
    let mut network = Network::new(2, ErrorFunction::EuclideanDistanceSquared);
    network.add_layer(
        2,
        false,
        Fx::zero(),
        NeuronActivation::Identity,
        LayerActivation::Identity,
    );
    network.set_params(vec![Fx::one(), Fx::zero(), Fx::zero(), Fx::one()]).unwrap();
    let sample = Sample { input: vec![fx(200_000), fx(800_000)], category: 1, categories: 2 };
    assert_eq!(network.predict(&sample), Ok(1));
    let other = Sample { input: vec![fx(900_000), fx(100_000)], category: 0, categories: 2 };
    assert_eq!(network.predict(&other), Ok(0));
}

#[test]
fn test_batch_aggregation_split() {
    let r1 = FFResult::new(fx(100_000), vec![fx(10), fx(20)], 1, 1).to_batch_result();
    let r2 = FFResult::new(fx(200_000), vec![fx(30), fx(40)], 1, 0).to_batch_result();
    let r3 = FFResult::new(fx(300_000), vec![fx(50), fx(60)], 2, 2).to_batch_result();

    let whole = BatchResult::aggregate(&vec![r1, r2, r3]);

    let r1b = FFResult::new(fx(100_000), vec![fx(10), fx(20)], 1, 1).to_batch_result();
    let r2b = FFResult::new(fx(200_000), vec![fx(30), fx(40)], 1, 0).to_batch_result();
    let r3b = FFResult::new(fx(300_000), vec![fx(50), fx(60)], 2, 2).to_batch_result();
    let left = BatchResult::aggregate(&vec![r1b]);
    let right = BatchResult::aggregate(&vec![r2b, r3b]);
    let merged = BatchResult::aggregate(&vec![left, right]);

    assert_eq!(whole.batch_size(), merged.batch_size());
    assert_eq!(whole.error(), merged.error());
    assert_eq!(whole.accuracy(), merged.accuracy());
    assert_eq!(whole.diffs(), merged.diffs());
    assert_eq!(whole.batch_size(), 3);
    assert_eq!(whole.error(), fx(200_000));
    assert_eq!(whole.accuracy(), fx(666_666));
}

#[test]
fn test_compute_error_length_mismatch() {
    let mut nf = FloatFactory::new();
    let e = vec![Fx::one()];
    let a = vec![Fx::one(), Fx::zero()];
    assert_eq!(
        compute_error(&mut nf, &e, &a, &ErrorFunction::EuclideanDistanceSquared)
            .map(|v| v.scalar()),
        Err(MlError::LengthMismatch)
    );
}

#[test]
fn test_compute_error_empty_input() {
    let mut nf = FloatFactory::new();
    let e: Vec<Fx> = Vec::new();
    let a: Vec<Fx> = Vec::new();
    assert_eq!(
        compute_error(&mut nf, &e, &a, &ErrorFunction::CategoricalCrossEntropy)
            .map(|v| v.scalar()),
        Err(MlError::EmptyInput)
    );
}

#[test]
fn test_cross_entropy_rejects_nonpositive() {
    let mut nf = FloatFactory::new();
    let e = vec![Fx::one()];
    let a = vec![Fx::zero()];
    assert_eq!(
        compute_error(&mut nf, &e, &a, &ErrorFunction::CategoricalCrossEntropy)
            .map(|v| v.scalar()),
        Err(MlError::NumericInstability)
    );
}

#[test]
fn test_euclidean_error_value() {
    let mut nf = FloatFactory::new();
    let e = vec![Fx::one(), Fx::zero()];
    let a = vec![Fx::zero(), Fx::zero()];
    let r = compute_error(&mut nf, &e, &a, &ErrorFunction::EuclideanDistanceSquared).unwrap();
    assert_eq!(r, Fx::one());
}

#[test]
fn test_gradient_through_forward() {
    // One input, one weight, identity activations, squared error against
    // the one-hot [1]: the loss is (1 - w*x)^2, so at x = 1, w = 0.5 the
    // derivative with respect to the weight is -2 * (1 - 0.5) * 1 = -1.
    let mut network = Network::new(1, ErrorFunction::EuclideanDistanceSquared);
    network.add_layer(
        1,
        false,
        Fx::zero(),
        NeuronActivation::Identity,
        LayerActivation::Identity,
    );
    network.set_params(vec![fx(500_000)]).unwrap();
    let sample = Sample { input: vec![Fx::one()], category: 0, categories: 1 };

    let mut ad = AutoDiff::new();
    let mut rng = Lcg::new(0);
    let ff = network.feed_forward(&mut ad, &sample, false, &mut rng).unwrap();
    assert_eq!(ff.error(), fx(250_000));
    assert_eq!(ff.diffs().len(), 1);
    assert_eq!(ff.diffs()[0], fx(-1_000_000));
}
