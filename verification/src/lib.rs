//! A machine-learning training stack built on a reverse-mode automatic
//! differentiation tape, a pluggable numeric backend, and a feed-forward
//! network stored as one flat parameter array.

pub mod error;
pub mod fixed;

pub mod autodiff;
pub mod number_factory;
pub mod float_factory;
pub mod rng;
pub mod network;
pub mod training;
pub mod util;
pub mod data;

pub use autodiff::{
    gradient_value, recorded_entries, ADValue, AutoDiff, GradientCache, PartialDiff, TapeRecord,
};
pub use data::{parse_images, parse_labels, read_images_and_labels, Image, Sample};
pub use error::MlError;
pub use fixed::{Fx, SCALE};
pub use float_factory::FloatFactory;
pub use network::{
    BatchResult, ClassificationExample, FFResult, LayerConfig, Network,
};
pub use number_factory::{
    activate_layer, activate_neuron, appends_record, compute_error, handle_ok, hottest_index, pow,
    tape_extended, DifferentiableNumberFactory, ErrorFunction, FreshBackend, LayerActivation,
    NeuronActivation, NumberFactory, NumberLike,
};
pub use rng::Lcg;
pub use training::{train, TrainingConfig};
pub use util::{human_duration, windows, WindowIterator, WindowIteratorConfig};
