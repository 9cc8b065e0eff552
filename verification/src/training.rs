//! The training schedule: how many passes to make, and how the learning
//! rate and the batch size anneal, each linearly interpolated between its
//! initial and target value by the share of samples already seen.

use vstd::prelude::*;

use crate::fixed::{fx_add, fx_div, fx_mul, fx_sub, Fx, SCALE};

verus! {

/// The interpolation `a * (1 - p) + b * p` on raw values, `p` being a raw
/// fraction of the unit.
pub open spec fn lerp(a: int, b: int, p: int) -> int {
    fx_add(fx_mul(a, fx_sub(SCALE as int, p)), fx_mul(b, p))
}

/// The schedule of one training run.
#[derive(Clone, Debug)]
pub struct TrainingConfig {
    epochs: usize,
    training_samples_count: usize,
    training_samples_seen: usize,
    initial_batch_size: usize,
    initial_learning_rate: Fx,
    learning_rate: Fx,
    target_learning_rate: Fx,
    batch_size: usize,
    target_batch_size: usize,
    progress: Fx,
}

impl TrainingConfig {
    /// How many full passes over the training set are made.
    pub closed spec fn epochs_view(self) -> int {
        self.epochs as int
    }

    /// How many samples the whole run will see.
    pub closed spec fn samples_count_view(self) -> int {
        self.training_samples_count as int
    }

    /// How many samples have been seen so far.
    pub closed spec fn samples_seen_view(self) -> int {
        self.training_samples_seen as int
    }

    /// The current learning rate, raw.
    pub closed spec fn learning_rate_view(self) -> int {
        self.learning_rate.v()
    }

    /// The current batch size.
    pub closed spec fn batch_size_view(self) -> int {
        self.batch_size as int
    }

    /// The current progress, raw fraction of the unit.
    pub closed spec fn progress_view(self) -> int {
        self.progress.v()
    }

    /// The initial learning rate, raw.
    pub closed spec fn initial_learning_rate_view(self) -> int {
        self.initial_learning_rate.v()
    }

    /// The target learning rate, raw.
    pub closed spec fn target_learning_rate_view(self) -> int {
        self.target_learning_rate.v()
    }

    /// The initial batch size.
    pub closed spec fn initial_batch_size_view(self) -> int {
        self.initial_batch_size as int
    }

    /// The target batch size.
    pub closed spec fn target_batch_size_view(self) -> int {
        self.target_batch_size as int
    }

    /// A fresh schedule: nothing seen, rate and batch size at their initial
    /// values.  The totals are bounded so that every later conversion onto
    /// the fixed-point scale stays exact.
    pub fn new(
        epochs: usize,
        training_set_size: usize,
        learning_rate: Fx,
        target_learning_rate: Fx,
        batch_size: usize,
        target_batch_size: usize,
    ) -> (r: TrainingConfig)
        requires
            epochs * training_set_size <= 1_000_000_000_000,
            epochs * training_set_size <= usize::MAX,
            batch_size <= 1_000_000_000,
            target_batch_size <= 1_000_000_000,
        ensures
            r.epochs_view() == epochs,
            r.samples_count_view() == epochs * training_set_size,
            r.samples_seen_view() == 0,
            r.learning_rate_view() == learning_rate.v(),
            r.initial_learning_rate_view() == learning_rate.v(),
            r.target_learning_rate_view() == target_learning_rate.v(),
            r.batch_size_view() == batch_size,
            r.initial_batch_size_view() == batch_size,
            r.target_batch_size_view() == target_batch_size,
            r.progress_view() == 0,
            r.wf(),
    {
        proof {
            assert(epochs * training_set_size >= 0) by (nonlinear_arith);
        }
        TrainingConfig {
            epochs,
            learning_rate,
            target_learning_rate,
            batch_size,
            target_batch_size,
            progress: Fx::zero(),
            training_samples_count: epochs * training_set_size,
            training_samples_seen: 0,
            initial_batch_size: batch_size,
            initial_learning_rate: learning_rate,
        }
    }

    /// The bounds under which the schedule's arithmetic stays exact.
    pub open spec fn wf(self) -> bool {
        &&& self.samples_count_view() <= 1_000_000_000_000
        &&& self.samples_seen_view() <= self.samples_count_view()
        &&& self.initial_batch_size_view() <= 1_000_000_000
        &&& self.target_batch_size_view() <= 1_000_000_000
    }

    /// Advance the schedule by one finished batch: recompute progress, and
    /// from it the interpolated learning rate and batch size; the new batch
    /// size is the interpolation rounded to the nearest count.
    pub fn update(&mut self, batch_result: &crate::network::BatchResult)
        requires
            old(self).wf(),
            old(self).samples_seen_view() + batch_result.count_view() <= old(
                self,
            ).samples_count_view(),
        ensures
            final(self).wf(),
            final(self).samples_seen_view() == old(self).samples_seen_view()
                + batch_result.count_view(),
            final(self).samples_count_view() == old(self).samples_count_view(),
            final(self).epochs_view() == old(self).epochs_view(),
            final(self).initial_learning_rate_view() == old(self).initial_learning_rate_view(),
            final(self).target_learning_rate_view() == old(self).target_learning_rate_view(),
            final(self).initial_batch_size_view() == old(self).initial_batch_size_view(),
            final(self).target_batch_size_view() == old(self).target_batch_size_view(),
            final(self).progress_view() == (if final(self).samples_count_view() == 0 {
                0
            } else {
                fx_div(
                    final(self).samples_seen_view() * SCALE as int,
                    final(self).samples_count_view() * SCALE as int,
                )
            }),
            final(self).learning_rate_view() == lerp(
                old(self).initial_learning_rate_view(),
                old(self).target_learning_rate_view(),
                final(self).progress_view(),
            ),
            final(self).batch_size_view() == ({
                let v = lerp(
                    old(self).initial_batch_size_view() * SCALE as int,
                    old(self).target_batch_size_view() * SCALE as int,
                    final(self).progress_view(),
                );
                let rounded = fx_add(v, 500_000);
                let q = if rounded < 0 {
                    0int
                } else {
                    rounded / (SCALE as int)
                };
                if q > 1_000_000_000 {
                    1_000_000_000int
                } else {
                    q
                }
            }),
    {
        self.training_samples_seen = self.training_samples_seen + batch_result.batch_size();
        let seen_fx = Fx::from_raw((self.training_samples_seen as i64) * SCALE);
        let total_fx = Fx::from_raw((self.training_samples_count as i64) * SCALE);
        self.progress = if self.training_samples_count == 0 {
            Fx::zero()
        } else {
            crate::fixed::fx_div_exec(seen_fx, total_fx)
        };
        proof {
            if self.training_samples_count != 0 {
                assert(total_fx.v() != 0) by (nonlinear_arith)
                    requires
                        total_fx.v() == self.training_samples_count as int * SCALE as int,
                        self.training_samples_count as int > 0,
                ;
            }
        }
        let one_minus = crate::fixed::fx_sub_exec(Fx::one(), self.progress);
        self.learning_rate = crate::fixed::fx_add_exec(
            crate::fixed::fx_mul_exec(self.initial_learning_rate, one_minus),
            crate::fixed::fx_mul_exec(self.target_learning_rate, self.progress),
        );
        let init_bs = Fx::from_raw((self.initial_batch_size as i64) * SCALE);
        let target_bs = Fx::from_raw((self.target_batch_size as i64) * SCALE);
        let v = crate::fixed::fx_add_exec(
            crate::fixed::fx_mul_exec(init_bs, one_minus),
            crate::fixed::fx_mul_exec(target_bs, self.progress),
        );
        let rounded = crate::fixed::fx_add_exec(v, Fx::from_raw(500_000));
        let q: u64 = if rounded.raw() < 0 {
            0
        } else {
            (rounded.raw() as u64) / (SCALE as u64)
        };
        self.batch_size = if q > 1_000_000_000 {
            1_000_000_000
        } else {
            q as usize
        };
    }

    /// The current learning rate.
    pub fn learning_rate(&self) -> (r: Fx)
        ensures
            r.v() == self.learning_rate_view(),
    {
        self.learning_rate
    }

    /// The current batch size.
    pub fn batch_size(&self) -> (r: usize)
        ensures
            r as int == self.batch_size_view(),
    {
        self.batch_size
    }

    /// How many full passes this schedule makes.
    pub fn epochs(&self) -> (r: usize)
        ensures
            r as int == self.epochs_view(),
    {
        self.epochs
    }
}

/// Train the network in place.  Each epoch walks the training set in
/// schedule-sized batches; each batch runs every sample forward on its own
/// fresh differentiable backend, descends the parameters along the
/// averaged gradient, and advances the schedule.  At every epoch's end the
/// held-out testing set is evaluated with the plain backend; the returned
/// scalar is exactly the final network's accuracy on that set — the share
/// of its samples whose hottest output names their category — or zero when
/// there is nothing to test against or no epoch ran.
pub fn train<C: crate::network::ClassificationExample>(
    network: &mut crate::network::Network,
    training_set: &Vec<C>,
    testing_set: &Vec<C>,
    training_config: TrainingConfig,
    rng: &mut crate::rng::Lcg,
) -> (r: Result<Fx, crate::error::MlError>)
    requires
        old(network).topology_wf(),
        old(network).error_function_view() != crate::number_factory::ErrorFunction::Zero,
        training_config.wf(),
        training_config.samples_count_view() == training_config.epochs_view()
            * training_set@.len(),
        training_config.samples_seen_view() == 0,
        training_set@.len() <= 1_000_000_000_000,
        testing_set@.len() <= 1_000_000_000_000,
    ensures
        final(network).topology_wf(),
        final(network).layers_view() == old(network).layers_view(),
        final(network).input_size_view() == old(network).input_size_view(),
        final(network).error_function_view() == old(network).error_function_view(),
        final(network).params_view().len() == old(network).params_view().len(),
        training_config.epochs_view() == 0 ==> final(network).params_view() == old(
            network,
        ).params_view() && r == Ok::<Fx, crate::error::MlError>(Fx { raw: 0 }),
        (r is Ok && (testing_set@.len() == 0 || training_config.epochs_view() == 0))
            ==> r->Ok_0.v() == 0,
        (r is Ok && testing_set@.len() > 0 && training_config.epochs_view() > 0) ==> ({
            let oc = final(network).batch_outcome(testing_set@, true, 0, 0, 0, 0);
            oc matches Ok(p) && r->Ok_0.v() == fx_div(
                p.1 * (SCALE as int),
                testing_set@.len() * (SCALE as int),
            )
        }),
{
    let mut t_conf = training_config;
    let epochs = t_conf.epochs();
    if epochs == 0 {
        return Ok(Fx::zero());
    }
    let mut epoch: usize = 0;
    let mut accuracy = Fx::zero();
    while epoch < epochs
        invariant
            epochs as int == training_config.epochs_view(),
            epochs > 0,
            network.topology_wf(),
            network.layers_view() == old(network).layers_view(),
            network.input_size_view() == old(network).input_size_view(),
            network.error_function_view() == old(network).error_function_view(),
            network.error_function_view() != crate::number_factory::ErrorFunction::Zero,
            network.params_view().len() == old(network).params_view().len(),
            t_conf.wf(),
            epochs as int == t_conf.epochs_view(),
            epoch <= epochs,
            t_conf.samples_count_view() == t_conf.epochs_view() * training_set@.len(),
            t_conf.samples_seen_view() == epoch * training_set@.len(),
            training_set@.len() <= 1_000_000_000_000,
            testing_set@.len() <= 1_000_000_000_000,
            (epoch == 0 || testing_set@.len() == 0) ==> accuracy.v() == 0,
            (epoch > 0 && testing_set@.len() > 0) ==> ({
                let oc = network.batch_outcome(testing_set@, true, 0, 0, 0, 0);
                oc matches Ok(p) && accuracy.v() == fx_div(
                    p.1 * (SCALE as int),
                    testing_set@.len() * (SCALE as int),
                )
            }),
        decreases epochs - epoch,
    {
        let mut start: usize = 0;
        while start < training_set.len()
            invariant
                network.topology_wf(),
                network.layers_view() == old(network).layers_view(),
                network.input_size_view() == old(network).input_size_view(),
                network.error_function_view() == old(network).error_function_view(),
                network.error_function_view() != crate::number_factory::ErrorFunction::Zero,
                network.params_view().len() == old(network).params_view().len(),
                t_conf.wf(),
                epochs as int == t_conf.epochs_view(),
                epochs as int == training_config.epochs_view(),
                epoch < epochs,
                start <= training_set@.len(),
                t_conf.samples_count_view() == t_conf.epochs_view() * training_set@.len(),
                t_conf.samples_seen_view() == epoch * training_set@.len() + start,
                training_set@.len() <= 1_000_000_000_000,
            decreases training_set@.len() - start,
        {
            let bs = t_conf.batch_size();
            let remaining = training_set.len() - start;
            let take: usize = if bs == 0 {
                1
            } else if bs < remaining {
                bs
            } else {
                remaining
            };
            let batch = vstd::slice::slice_subrange(training_set.as_slice(), start, start + take);
            let br = match network.feed_batch_forward::<C, crate::autodiff::ADValue, crate::autodiff::AutoDiff>(
                batch,
                false,
                rng,
            ) {
                Err(e) => {
                    return Err(e);
                },
                Ok(b) => b,
            };
            let diffs = br.diffs();
            match network.back_propagate(&diffs, &t_conf) {
                Err(e) => {
                    return Err(e);
                },
                Ok(u) => u,
            };
            proof {
                assert((epoch + 1) * training_set@.len() == epoch * training_set@.len()
                    + training_set@.len()) by (nonlinear_arith);
                assert((epoch + 1) * training_set@.len() <= t_conf.epochs_view()
                    * training_set@.len()) by (nonlinear_arith)
                    requires
                        epoch + 1 <= t_conf.epochs_view(),
                        training_set@.len() >= 0,
                ;
            }
            t_conf.update(&br);
            start = start + take;
        }
        proof {
            assert((epoch + 1) * training_set@.len() == epoch * training_set@.len()
                + training_set@.len()) by (nonlinear_arith);
        }
        if testing_set.len() > 0 {
            let ghost s_eval = rng.state_view();
            match network.feed_batch_forward::<C, Fx, crate::float_factory::FloatFactory>(
                testing_set.as_slice(),
                true,
                rng,
            ) {
                Err(e) => {
                    return Err(e);
                },
                Ok(b) => {
                    accuracy = b.accuracy();
                    proof {
                        network.lemma_predict_batch_state(testing_set@, 0, 0, 0, s_eval, 0);
                    }
                },
            }
        }
        epoch = epoch + 1;
    }
    Ok(accuracy)
}

} // verus!
