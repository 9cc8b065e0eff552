use ml_rust::{
    train, ErrorFunction, FFResult, Fx, LayerActivation, Lcg, Network, NeuronActivation, Sample,
    TrainingConfig,
};

fn fx(millionths: i64) -> Fx {
    Fx::from_raw(millionths)
}

#[test]
fn test_schedule_interpolation() {
    let mut conf = TrainingConfig::new(1, 2, fx(10_000), fx(100), 32, 4);
    assert_eq!(conf.learning_rate(), fx(10_000));
    assert_eq!(conf.batch_size(), 32);
    assert_eq!(conf.epochs(), 1);

    let one_sample = FFResult::new(Fx::zero(), vec![], 0, 0).to_batch_result();
    conf.update(&one_sample);

    // Half the run seen: the rate sits halfway, the batch size rounds from
    // the midpoint of 32 and 4.
    assert_eq!(conf.learning_rate(), fx(5_050));
    assert_eq!(conf.batch_size(), 18);
}

#[test]
fn test_schedule_reaches_target() {
    let mut conf = TrainingConfig::new(1, 1, fx(10_000), fx(100), 32, 4);
    let one_sample = FFResult::new(Fx::zero(), vec![], 0, 0).to_batch_result();
    conf.update(&one_sample);
    assert_eq!(conf.learning_rate(), fx(100));
    assert_eq!(conf.batch_size(), 4);
}

#[test]
fn test_train_runs_and_keeps_the_topology() {
    let mut network = Network::new(2, ErrorFunction::EuclideanDistanceSquared);
    network.add_layer(
        2,
        true,
        Fx::zero(),
        NeuronActivation::LeakyRelu(fx(10_000)),
        LayerActivation::Identity,
    );
    network.add_layer(
        2,
        false,
        Fx::zero(),
        NeuronActivation::Sigmoid,
        LayerActivation::SoftMax,
    );
    let count = network.params_count();

    let training_set = vec![
        Sample { input: vec![fx(100_000), fx(900_000)], category: 1, categories: 2 },
        Sample { input: vec![fx(800_000), fx(200_000)], category: 0, categories: 2 },
    ];
    let testing_set = vec![
        Sample { input: vec![fx(250_000), fx(750_000)], category: 1, categories: 2 },
    ];
    let conf = TrainingConfig::new(2, training_set.len(), fx(10_000), fx(1_000), 2, 1);
    let mut rng = Lcg::new(11);
    let accuracy = train(&mut network, &training_set, &testing_set, conf, &mut rng).unwrap();
    assert_eq!(network.params_count(), count);
    assert!(accuracy.raw() >= 0);
    assert!(accuracy.raw() <= 1_000_000);
}
