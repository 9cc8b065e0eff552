//! The feed-forward network: one flat parameter array plus per-layer
//! metadata describing how to slice it into biases and weights.  The layout
//! is never materialized as nested objects; every read during the forward
//! pass and every write during the update step goes through the same
//! addressing arithmetic, proved here to partition the array exactly.

use vstd::prelude::*;

use crate::error::MlError;
use crate::fixed::{fx_add, fx_div, fx_mul, fx_sub, Fx, SCALE};
use crate::number_factory::{ErrorFunction, LayerActivation, NeuronActivation, NumberFactory, NumberLike};
use crate::training::TrainingConfig;

verus! {

/// The immutable description of one layer: its activations, whether its
/// neurons carry a bias, its dropout rate, and where its slice of the flat
/// parameter array starts and how long it is.
#[derive(Clone, Copy, Debug)]
pub struct LayerConfig {
    pub neuron_activation: NeuronActivation,
    pub layer_activation: LayerActivation,
    pub params_count: usize,
    pub params_offset: usize,
    pub neurons_count: usize,
    pub use_biases: bool,
    pub drop_out: Fx,
}

/// How many inputs the layer at position `l` receives.
pub open spec fn prev_size_of(input_size: int, layers: Seq<LayerConfig>, l: int) -> int {
    if l == 0 {
        input_size
    } else {
        layers[l - 1].neurons_count as int
    }
}

/// How many parameters one neuron of layer `l` owns: its inputs' weights,
/// plus its bias if the layer carries biases.
pub open spec fn stride_of(input_size: int, layers: Seq<LayerConfig>, l: int) -> int {
    prev_size_of(input_size, layers, l) + (if layers[l].use_biases {
        1int
    } else {
        0int
    })
}

/// Where the parameters of neuron `n` of layer `l` start.
pub open spec fn site_start(input_size: int, layers: Seq<LayerConfig>, l: int, n: int) -> int {
    layers[l].params_offset + n * stride_of(input_size, layers, l)
}

/// How many parameters layer `l` owns in all.
pub open spec fn count_of(input_size: int, layers: Seq<LayerConfig>, l: int) -> int {
    layers[l].neurons_count * stride_of(input_size, layers, l)
}

/// Where layer `l`'s slice of the parameter array starts: the cumulative
/// parameter counts of all preceding layers.
pub open spec fn offset_of(input_size: int, layers: Seq<LayerConfig>, l: int) -> int
    decreases l,
{
    if l <= 0 {
        0
    } else {
        offset_of(input_size, layers, l - 1) + count_of(input_size, layers, l - 1)
    }
}

/// The derived layout is consistent: each layer's stored offset and count
/// agree with the cumulative arithmetic, and together the layers cover the
/// whole parameter array.
pub open spec fn layout_wf(input_size: int, layers: Seq<LayerConfig>, total: int) -> bool {
    &&& input_size >= 0
    &&& forall|l: int|
        0 <= l < layers.len() ==> (#[trigger] layers[l]).params_offset == offset_of(
            input_size,
            layers,
            l,
        )
    &&& forall|l: int|
        0 <= l < layers.len() ==> (#[trigger] layers[l]).params_count == count_of(
            input_size,
            layers,
            l,
        )
    &&& total == offset_of(input_size, layers, layers.len() as int)
}

/// No layer owns a negative number of parameters.
proof fn lemma_count_nonneg(input_size: int, layers: Seq<LayerConfig>, l: int)
    requires
        input_size >= 0,
        0 <= l < layers.len(),
    ensures
        count_of(input_size, layers, l) >= 0,
        stride_of(input_size, layers, l) >= 0,
{
    assert(count_of(input_size, layers, l) >= 0) by (nonlinear_arith)
        requires
            count_of(input_size, layers, l) == layers[l].neurons_count * stride_of(
                input_size,
                layers,
                l,
            ),
            layers[l].neurons_count >= 0,
            stride_of(input_size, layers, l) >= 0,
    ;
}

/// Offsets only grow with the layer position.
proof fn lemma_offset_monotone(input_size: int, layers: Seq<LayerConfig>, l1: int, l2: int)
    requires
        input_size >= 0,
        0 <= l1 <= l2 <= layers.len(),
    ensures
        offset_of(input_size, layers, l1) <= offset_of(input_size, layers, l2),
    decreases l2 - l1,
{
    if l1 < l2 {
        lemma_offset_monotone(input_size, layers, l1, l2 - 1);
        lemma_count_nonneg(input_size, layers, l2 - 1);
    }
}

/// Layers never reach past the end of the parameter array.
proof fn lemma_layer_end_bounded(input_size: int, layers: Seq<LayerConfig>, total: int, l: int)
    requires
        layout_wf(input_size, layers, total),
        0 <= l < layers.len(),
    ensures
        layers[l].params_offset + layers[l].params_count <= total,
        layers[l].params_offset >= 0,
        layers[l].params_count >= 0,
{
    assert(offset_of(input_size, layers, l + 1) == offset_of(input_size, layers, l) + count_of(
        input_size,
        layers,
        l,
    ));
    lemma_offset_monotone(input_size, layers, l + 1, layers.len() as int);
    lemma_offset_monotone(input_size, layers, 0, l);
    lemma_count_nonneg(input_size, layers, l);
}

/// Extending the layer sequence does not change the offsets or counts of
/// the prefix it extends.
proof fn lemma_offset_prefix_stable(
    input_size: int,
    short: Seq<LayerConfig>,
    long: Seq<LayerConfig>,
    l: int,
)
    requires
        0 <= l <= short.len(),
        short.len() <= long.len(),
        forall|m: int| 0 <= m < short.len() ==> short[m] == long[m],
    ensures
        offset_of(input_size, short, l) == offset_of(input_size, long, l),
        l < short.len() ==> count_of(input_size, short, l) == count_of(input_size, long, l),
    decreases l,
{
    if l > 0 {
        lemma_offset_prefix_stable(input_size, short, long, l - 1);
        assert(stride_of(input_size, short, l - 1) == stride_of(input_size, long, l - 1));
    }
    if l < short.len() {
        assert(stride_of(input_size, short, l) == stride_of(input_size, long, l));
    }
}

/// The network: input size, error function, the flat parameter array, and
/// the layer descriptions that slice it.
pub struct Network {
    input_size: usize,
    error_function: ErrorFunction,
    params: Vec<Fx>,
    layer_configs: Vec<LayerConfig>,
}

impl Network {
    /// The size of the input vector the network expects.
    pub closed spec fn input_size_view(self) -> int {
        self.input_size as int
    }

    /// The error function the network is trained against.
    pub closed spec fn error_function_view(self) -> ErrorFunction {
        self.error_function
    }

    /// The raw values of the flat parameter array.
    pub closed spec fn params_view(self) -> Seq<int> {
        Seq::new(self.params@.len(), |i: int| self.params@[i].v())
    }

    /// The layer descriptions.
    pub closed spec fn layers_view(self) -> Seq<LayerConfig> {
        self.layer_configs@
    }

    /// The addressing arithmetic is consistent with the parameter array.
    pub open spec fn topology_wf(self) -> bool {
        layout_wf(self.input_size_view(), self.layers_view(), self.params_view().len() as int)
    }

    /// An empty network: no layers, no parameters.
    pub fn new(input_size: usize, error_function: ErrorFunction) -> (r: Network)
        ensures
            r.input_size_view() == input_size,
            r.error_function_view() == error_function,
            r.params_view() =~= Seq::<int>::empty(),
            r.layers_view() =~= Seq::<LayerConfig>::empty(),
            r.topology_wf(),
    {
        Network { input_size, error_function, params: Vec::new(), layer_configs: Vec::new() }
    }

    /// How many layers the network has.
    pub fn depth(&self) -> (r: usize)
        ensures
            r == self.layers_view().len(),
    {
        self.layer_configs.len()
    }

    /// The number of inputs the next layer to be added would receive.
    pub open spec fn next_prev_size(self) -> int {
        if self.layers_view().len() == 0 {
            self.input_size_view()
        } else {
            self.layers_view().last().neurons_count as int
        }
    }

    /// Append a layer: compute its offset from the cumulative counts of all
    /// preceding layers, and grow the flat array by one stride per neuron,
    /// each fresh parameter drawn small and at random.
    pub fn add_layer(
        &mut self,
        neurons_count: usize,
        use_biases: bool,
        drop_out: Fx,
        neuron_activation: NeuronActivation,
        layer_activation: LayerActivation,
    )
        requires
            old(self).topology_wf(),
            old(self).next_prev_size() < usize::MAX,
            neurons_count * (old(self).next_prev_size() + 1) <= 1_000_000_000,
            old(self).params_view().len() + neurons_count * (old(self).next_prev_size() + 1)
                <= usize::MAX,
        ensures
            final(self).topology_wf(),
            final(self).input_size_view() == old(self).input_size_view(),
            final(self).error_function_view() == old(self).error_function_view(),
            final(self).layers_view().len() == old(self).layers_view().len() + 1,
            forall|l: int|
                0 <= l < old(self).layers_view().len() ==> final(self).layers_view()[l] == old(
                    self,
                ).layers_view()[l],
            ({
                let c = final(self).layers_view().last();
                &&& c.neuron_activation == neuron_activation
                &&& c.layer_activation == layer_activation
                &&& c.neurons_count == neurons_count
                &&& c.use_biases == use_biases
                &&& c.drop_out == drop_out
                &&& c.params_offset == old(self).params_view().len()
                &&& c.params_count == neurons_count * (old(self).next_prev_size() + (if use_biases {
                    1int
                } else {
                    0int
                }))
            }),
            final(self).params_view().len() == old(self).params_view().len()
                + final(self).layers_view().last().params_count,
            forall|i: int|
                0 <= i < old(self).params_view().len() ==> final(self).params_view()[i] == old(
                    self,
                ).params_view()[i],
            forall|i: int|
                old(self).params_view().len() <= i < final(self).params_view().len() ==> 0 <= (
                #[trigger] final(self).params_view()[i]) < SCALE,
    {
        let is_first_layer = self.layer_configs.len() == 0;
        let input_size = if is_first_layer {
            self.input_size
        } else {
            self.layer_configs[self.layer_configs.len() - 1].neurons_count
        };
        let params_offset = self.params.len();
        let bias_extra: usize = if use_biases {
            1
        } else {
            0
        };
        proof {
            assert(0 <= neurons_count * (input_size + bias_extra) <= neurons_count * (input_size
                + 1)) by (nonlinear_arith)
                requires bias_extra <= 1, neurons_count >= 0, input_size >= 0;
            assert(neurons_count * (input_size as int + 1) == neurons_count * (old(
                self,
            ).next_prev_size() + 1));
        }
        let params_count = neurons_count * (input_size + bias_extra);
        let denom = Fx::from_raw(((params_count as i64) + 1) * SCALE);
        let hundred = Fx::from_int(100);
        let mut added: usize = 0;
        while added < params_count
            invariant
                added <= params_count,
                self.params@.len() == old(self).params@.len() + added,
                self.layer_configs@ == old(self).layer_configs@,
                self.input_size == old(self).input_size,
                self.error_function == old(self).error_function,
                forall|i: int|
                    0 <= i < old(self).params@.len() ==> (#[trigger] self.params@[i]) == old(
                        self,
                    ).params@[i],
                denom.v() >= SCALE,
                hundred.v() >= SCALE,
                forall|i: int|
                    old(self).params@.len() <= i < self.params@.len() ==> 0 <= (
                    #[trigger] self.params@[i]).v() < SCALE,
            decreases params_count - added,
        {
            let draw = crate::rng::random_u64();
            let unit = Fx::from_raw((draw % 1_000_000) as i64);
            proof {
                crate::fixed::lemma_fx_div_small(unit.v(), denom.v());
            }
            let once = crate::fixed::fx_div_exec(unit, denom);
            proof {
                crate::fixed::lemma_fx_div_small(once.v(), hundred.v());
            }
            let scaled = crate::fixed::fx_div_exec(once, hundred);
            self.params.push(scaled);
            added = added + 1;
        }
        let conf = LayerConfig {
            neuron_activation,
            layer_activation,
            params_count,
            params_offset,
            neurons_count,
            use_biases,
            drop_out,
        };
        self.layer_configs.push(conf);
        proof {
            let li = self.input_size as int;
            let ls = self.layer_configs@;
            let ols = old(self).layer_configs@;
            let last = ls.len() - 1;
            assert(self.params_view().len() == old(self).params_view().len() + params_count);
            lemma_offset_prefix_stable(li, ols, ls, last);
            assert(offset_of(li, ls, last) == old(self).params_view().len());
            assert forall|l: int|
                0 <= l < ls.len() implies (#[trigger] ls[l]).params_count == count_of(li, ls, l)
                && ls[l].params_offset == offset_of(li, ls, l) by {
                if l < last {
                    assert(ls[l] == ols[l]);
                    assert(stride_of(li, ls, l) == stride_of(li, ols, l));
                    lemma_offset_prefix_stable(li, ols, ls, l);
                } else {
                    assert(stride_of(li, ls, l) == input_size as int + bias_extra);
                }
            }
            assert(offset_of(li, ls, ls.len() as int) == offset_of(li, ls, last) + count_of(
                li,
                ls,
                last,
            ));
        }
    }

    /// The bias of the given neuron, read through the addressing
    /// arithmetic; zero for a layer without biases.
    pub fn get_bias(&self, layer: usize, neuron: usize) -> (r: Fx)
        requires
            self.topology_wf(),
            layer < self.layers_view().len(),
            neuron < self.layers_view()[layer as int].neurons_count,
        ensures
            r.v() == (if self.layers_view()[layer as int].use_biases {
                self.params_view()[site_start(
                    self.input_size_view(),
                    self.layers_view(),
                    layer as int,
                    neuron as int,
                )]
            } else {
                0int
            }),
    {
        let conf = self.layer_configs[layer];
        let _total = self.params.len();
        if !conf.use_biases {
            return Fx::zero();
        }
        let prev_size = if layer == 0 {
            self.input_size
        } else {
            self.layer_configs[layer - 1].neurons_count
        };
        proof {
            let li = self.input_size_view();
            let ls = self.layers_view();
            let l = layer as int;
            self.lemma_site_in_bounds(l, neuron as int);
            assert(prev_size as int + 1 == stride_of(li, ls, l));
            assert(prev_size as int + 1 <= self.params_view().len());
            assert(neuron * (prev_size + 1) == neuron as int * stride_of(li, ls, l));
            assert(conf.params_offset + neuron as int * stride_of(li, ls, l) == site_start(
                li,
                ls,
                l,
                neuron as int,
            ));
            assert(site_start(li, ls, l, neuron as int) < self.params_view().len());
        }
        let index = conf.params_offset + neuron * (prev_size + 1);
        self.params[index]
    }

    /// The half-open range of the given neuron's weights in the flat array.
    pub fn get_weights_range(&self, layer: usize, neuron: usize) -> (r: (usize, usize))
        requires
            self.topology_wf(),
            layer < self.layers_view().len(),
            neuron < self.layers_view()[layer as int].neurons_count,
        ensures
            r.0 as int == site_start(
                self.input_size_view(),
                self.layers_view(),
                layer as int,
                neuron as int,
            ) + (if self.layers_view()[layer as int].use_biases {
                1int
            } else {
                0int
            }),
            r.1 as int == r.0 as int + prev_size_of(
                self.input_size_view(),
                self.layers_view(),
                layer as int,
            ),
            r.1 <= self.params_view().len(),
    {
        let conf = self.layer_configs[layer];
        let _total = self.params.len();
        let use_biases: usize = if conf.use_biases {
            1
        } else {
            0
        };
        let prev_size = if layer == 0 {
            self.input_size
        } else {
            self.layer_configs[layer - 1].neurons_count
        };
        proof {
            let li = self.input_size_view();
            let ls = self.layers_view();
            let l = layer as int;
            self.lemma_site_in_bounds(l, neuron as int);
            assert(prev_size as int + use_biases as int == stride_of(li, ls, l));
            assert(prev_size as int + use_biases as int <= self.params_view().len());
            assert(neuron * (prev_size + use_biases) == neuron as int * stride_of(li, ls, l));
            assert(conf.params_offset + neuron as int * stride_of(li, ls, l) == site_start(
                li,
                ls,
                l,
                neuron as int,
            ));
            assert(site_start(li, ls, l, neuron as int) + stride_of(li, ls, l)
                <= self.params_view().len());
        }
        let index = conf.params_offset + neuron * (prev_size + use_biases) + use_biases;
        (index, index + prev_size)
    }

    /// A neuron's whole parameter site sits inside its layer's slice, and
    /// so inside the array.
    proof fn lemma_site_in_bounds(&self, l: int, n: int)
        requires
            self.topology_wf(),
            0 <= l < self.layers_view().len(),
            0 <= n < self.layers_view()[l].neurons_count,
        ensures
            0 <= self.layers_view()[l].params_offset,
            self.layers_view()[l].params_offset <= site_start(
                self.input_size_view(),
                self.layers_view(),
                l,
                n,
            ),
            site_start(self.input_size_view(), self.layers_view(), l, n) + stride_of(
                self.input_size_view(),
                self.layers_view(),
                l,
            ) <= self.layers_view()[l].params_offset + self.layers_view()[l].params_count,
            self.layers_view()[l].params_offset + self.layers_view()[l].params_count
                <= self.params_view().len(),
            stride_of(self.input_size_view(), self.layers_view(), l) >= 0,
            n * stride_of(self.input_size_view(), self.layers_view(), l) >= 0,
    {
        let li = self.input_size_view();
        let ls = self.layers_view();
        let stride = stride_of(li, ls, l);
        lemma_layer_end_bounded(li, ls, self.params_view().len() as int, l);
        assert((n + 1) * stride <= ls[l].neurons_count * stride && n * stride >= 0 && (n + 1)
            * stride == n * stride + stride) by (nonlinear_arith)
            requires
                0 <= n < ls[l].neurons_count as int,
                stride >= 0,
        ;
    }

    /// Position `p` of the flat array belongs to the site of neuron `n` of
    /// layer `l`.
    pub open spec fn covered_by_site(self, p: int, l: int, n: int) -> bool {
        &&& 0 <= l < self.layers_view().len()
        &&& 0 <= n < self.layers_view()[l].neurons_count
        &&& site_start(self.input_size_view(), self.layers_view(), l, n) <= p < site_start(
            self.input_size_view(),
            self.layers_view(),
            l,
            n,
        ) + stride_of(self.input_size_view(), self.layers_view(), l)
    }

    /// Position `p` belongs to some neuron's site.
    pub open spec fn param_covered(self, p: int) -> bool {
        exists|l: int, n: int| self.covered_by_site(p, l, n)
    }

    /// Every two distinct neuron sites are disjoint, and every parameter
    /// belongs to some site: the addressing arithmetic partitions the flat
    /// array exactly, so no update can corrupt an unrelated parameter.
    pub proof fn lemma_addressing_partition(&self)
        requires
            self.topology_wf(),
        ensures
            forall|l1: int, n1: int, l2: int, n2: int|
                {
                    &&& 0 <= l1 < self.layers_view().len()
                    &&& 0 <= n1 < self.layers_view()[l1].neurons_count
                    &&& 0 <= l2 < self.layers_view().len()
                    &&& 0 <= n2 < self.layers_view()[l2].neurons_count
                    &&& (l1, n1) != (l2, n2)
                } ==> ((#[trigger] site_start(
                    self.input_size_view(),
                    self.layers_view(),
                    l1,
                    n1,
                )) + stride_of(self.input_size_view(), self.layers_view(), l1) <= (
                #[trigger] site_start(self.input_size_view(), self.layers_view(), l2, n2))
                    || site_start(self.input_size_view(), self.layers_view(), l2, n2) + stride_of(
                    self.input_size_view(),
                    self.layers_view(),
                    l2,
                ) <= site_start(self.input_size_view(), self.layers_view(), l1, n1)),
            forall|p: int| 0 <= p < self.params_view().len() ==> #[trigger] self.param_covered(p),
    {
        let li = self.input_size_view();
        let ls = self.layers_view();
        let total = self.params_view().len() as int;
        assert forall|l1: int, n1: int, l2: int, n2: int|
            {
                &&& 0 <= l1 < ls.len()
                &&& 0 <= n1 < ls[l1].neurons_count
                &&& 0 <= l2 < ls.len()
                &&& 0 <= n2 < ls[l2].neurons_count
                &&& (l1, n1) != (l2, n2)
            } implies ((#[trigger] site_start(li, ls, l1, n1)) + stride_of(li, ls, l1) <= (
        #[trigger] site_start(li, ls, l2, n2)) || site_start(li, ls, l2, n2) + stride_of(
            li,
            ls,
            l2,
        ) <= site_start(li, ls, l1, n1)) by {
            self.lemma_sites_disjoint(l1, n1, l2, n2);
        }
        assert forall|p: int| 0 <= p < total implies #[trigger] self.param_covered(p) by {
            self.lemma_site_covering(p);
        }
    }

    /// Two distinct sites never overlap.
    proof fn lemma_sites_disjoint(&self, l1: int, n1: int, l2: int, n2: int)
        requires
            self.topology_wf(),
            0 <= l1 < self.layers_view().len(),
            0 <= n1 < self.layers_view()[l1].neurons_count,
            0 <= l2 < self.layers_view().len(),
            0 <= n2 < self.layers_view()[l2].neurons_count,
            (l1, n1) != (l2, n2),
        ensures
            site_start(self.input_size_view(), self.layers_view(), l1, n1) + stride_of(
                self.input_size_view(),
                self.layers_view(),
                l1,
            ) <= site_start(self.input_size_view(), self.layers_view(), l2, n2) || site_start(
                self.input_size_view(),
                self.layers_view(),
                l2,
                n2,
            ) + stride_of(self.input_size_view(), self.layers_view(), l2) <= site_start(
                self.input_size_view(),
                self.layers_view(),
                l1,
                n1,
            ),
    {
        let li = self.input_size_view();
        let ls = self.layers_view();
        if l1 == l2 {
            let stride = stride_of(li, ls, l1);
            assert(stride >= 0);
            if n1 < n2 {
                assert((n1 + 1) * stride <= n2 * stride && (n1 + 1) * stride == n1 * stride
                    + stride) by (nonlinear_arith)
                    requires n1 < n2, stride >= 0;
            } else {
                assert((n2 + 1) * stride <= n1 * stride && (n2 + 1) * stride == n2 * stride
                    + stride) by (nonlinear_arith)
                    requires n2 < n1, stride >= 0;
            }
        } else {
            if l1 < l2 {
                self.lemma_site_in_bounds(l1, n1);
                self.lemma_layer_order(l1, l2);
                self.lemma_site_in_bounds(l2, n2);
            } else {
                self.lemma_site_in_bounds(l2, n2);
                self.lemma_layer_order(l2, l1);
                self.lemma_site_in_bounds(l1, n1);
            }
        }
    }

    /// An earlier layer's slice ends before a later layer's begins.
    proof fn lemma_layer_order(&self, l1: int, l2: int)
        requires
            self.topology_wf(),
            0 <= l1 < l2 < self.layers_view().len(),
        ensures
            self.layers_view()[l1].params_offset + self.layers_view()[l1].params_count
                <= self.layers_view()[l2].params_offset,
    {
        let li = self.input_size_view();
        let ls = self.layers_view();
        assert(offset_of(li, ls, l1 + 1) == offset_of(li, ls, l1) + count_of(li, ls, l1));
        lemma_offset_monotone(li, ls, l1 + 1, l2);
    }

    /// Every parameter position falls inside some neuron's site.
    proof fn lemma_site_covering(&self, p: int)
        requires
            self.topology_wf(),
            0 <= p < self.params_view().len(),
        ensures
            self.param_covered(p),
    {
        let li = self.input_size_view();
        let ls = self.layers_view();
        let l = self.choose_layer_of(p, 0);
        let off = ls[l].params_offset;
        let stride = stride_of(li, ls, l);
        assert(ls[l].params_count == ls[l].neurons_count * stride);
        assert(stride > 0) by (nonlinear_arith)
            requires
                ls[l].params_count > p - off >= 0,
                ls[l].params_count == ls[l].neurons_count * stride,
                stride >= 0,
        ;
        let n = (p - off) / stride;
        vstd::arithmetic::div_mod::lemma_fundamental_div_mod(p - off, stride);
        vstd::arithmetic::div_mod::lemma_mod_bound(p - off, stride);
        vstd::arithmetic::div_mod::lemma_div_pos_is_pos(p - off, stride);
        assert(n < ls[l].neurons_count) by (nonlinear_arith)
            requires
                stride * n <= p - off < ls[l].neurons_count * stride,
                stride > 0,
                n >= 0,
        ;
        assert(site_start(li, ls, l, n) == off + n * stride);
        assert(stride * n == n * stride) by (nonlinear_arith);
        assert(site_start(li, ls, l, n) <= p < site_start(li, ls, l, n) + stride);
        assert(self.covered_by_site(p, l, n));
    }

    /// The layer whose slice holds position `p`, found by walking forward
    /// from `from`.
    proof fn choose_layer_of(&self, p: int, from: int) -> (l: int)
        requires
            self.topology_wf(),
            0 <= from < self.layers_view().len(),
            self.layers_view()[from].params_offset <= p < self.params_view().len(),
        ensures
            from <= l < self.layers_view().len(),
            self.layers_view()[l].params_offset <= p < self.layers_view()[l].params_offset
                + self.layers_view()[l].params_count,
        decreases self.layers_view().len() - from,
    {
        let li = self.input_size_view();
        let ls = self.layers_view();
        if p < ls[from].params_offset + ls[from].params_count {
            from
        } else {
            assert(from + 1 < ls.len()) by {
                if from == ls.len() - 1 {
                    assert(offset_of(li, ls, from + 1) == offset_of(li, ls, from) + count_of(
                        li,
                        ls,
                        from,
                    ));
                    assert(self.params_view().len() as int == offset_of(li, ls, ls.len() as int));
                }
            }
            assert(offset_of(li, ls, from + 1) == offset_of(li, ls, from) + count_of(
                li,
                ls,
                from,
            ));
            self.choose_layer_of(p, from + 1)
        }
    }

    /// What one neuron of layer `l` produces: its bias site, then one
    /// weight site per previous activation, accumulated in order and passed
    /// through the neuron activation.
    #[verifier::rlimit(100)]
    fn forward_neuron<N: NumberLike, F: NumberFactory<N>>(
        &self,
        nf: &mut F,
        l: usize,
        n: usize,
        previous: &Vec<N>,
        predict_mode: bool,
        rng: &mut crate::rng::Lcg,
        handles: &mut Vec<N>,
    ) -> (r: N)
        requires
            self.topology_wf(),
            old(nf).inv(),
            l < self.layers_view().len(),
            n < self.layers_view()[l as int].neurons_count,
            previous@.len() == prev_size_of(
                self.input_size_view(),
                self.layers_view(),
                l as int,
            ),
        ensures
            final(nf).inv(),
            crate::number_factory::tape_extended(old(nf).tape_model(), final(nf).tape_model()),
            predict_mode ==> final(handles)@ == old(handles)@,
            !predict_mode ==> final(handles)@.len() == old(handles)@.len() + stride_of(
                self.input_size_view(),
                self.layers_view(),
                l as int,
            ),
            forall|k: int|
                0 <= k < old(handles)@.len() ==> final(handles)@[k] == old(handles)@[k],
            forall|k: int|
                old(handles)@.len() <= k < final(handles)@.len()
                    ==> crate::number_factory::handle_ok(
                    #[trigger] final(handles)@[k],
                    final(nf).tape_model().len() as int,
                ),
            r.sval() == self.neuron_value_spec(
                l as int,
                n as int,
                crate::number_factory::svals(previous@),
                predict_mode,
                old(rng).state_view(),
            ).0,
            final(rng).state_view() == self.neuron_value_spec(
                l as int,
                n as int,
                crate::number_factory::svals(previous@),
                predict_mode,
                old(rng).state_view(),
            ).1,
    {
        let ghost s_neuron = rng.state_view();
        let ghost acts = crate::number_factory::svals(previous@);
        let ghost h0 = handles@;
        let conf = self.layer_configs[l];
        let rate = conf.drop_out;
        let bias = self.get_bias(l, n);
        let mut sum: N = if conf.use_biases {
            parameter_site(nf, bias, rate, predict_mode, false, rng, handles)
        } else {
            nf.constant(Fx::zero())
        };
        let ghost bias_handles: int = if conf.use_biases && !predict_mode {
            1int
        } else {
            0int
        };
        proof {
            reveal(Network::neuron_sum_spec);
        }
        let ghost acc0 = sum.sval();
        let ghost s_after_bias = rng.state_view();
        let range = self.get_weights_range(l, n);
        let wstart = range.0;
        let wend = range.1;
        let prev_count = wend - wstart;
        let mut k: usize = 0;
        while k < prev_count
            invariant
                self.topology_wf(),
                nf.inv(),
                l < self.layers_view().len(),
                conf == self.layers_view()[l as int],
                rate == conf.drop_out,
                acts == crate::number_factory::svals(previous@),
                k <= prev_count,
                acts.len() == prev_count,
                previous@.len() == prev_count,
                wstart + prev_count <= usize::MAX,
                wstart + prev_count <= self.params_view().len(),
                crate::number_factory::tape_extended(old(nf).tape_model(), nf.tape_model()),
                h0 == old(handles)@,
                predict_mode ==> handles@ == h0,
                !predict_mode ==> handles@.len() == h0.len() + bias_handles + k,
                handles@.len() >= h0.len(),
                handles@.take(h0.len() as int) =~= h0,
                forall|m: int|
                    h0.len() <= m < handles@.len() ==> crate::number_factory::handle_ok(
                        #[trigger] handles@[m],
                        nf.tape_model().len() as int,
                    ),
                self.neuron_sum_spec(
                    wstart as int,
                    acts,
                    rate.v(),
                    predict_mode,
                    0,
                    acc0,
                    s_after_bias,
                ) == self.neuron_sum_spec(
                    wstart as int,
                    acts,
                    rate.v(),
                    predict_mode,
                    k as int,
                    sum.sval(),
                    rng.state_view(),
                ),
            decreases prev_count - k,
        {
            let ghost pre_sum = sum.sval();
            let ghost pre_state = rng.state_view();
            let w = self.params[wstart + k];
            proof {
                assert(w.v() == self.params_view()[wstart + k]);
            }
            let ghost handles_before = handles@;
            let weff = parameter_site(nf, w, rate, predict_mode, true, rng, handles);
            proof {
                assert(handles@.take(h0.len() as int) =~= handles_before.take(h0.len() as int));
            }
            let term = nf.mul(weff, previous[k]);
            sum = nf.add(sum, term);
            proof {
                reveal(Network::neuron_sum_spec);
                assert(previous@[k as int].sval() == acts[k as int]);
                assert(self.neuron_sum_spec(
                    wstart as int,
                    acts,
                    rate.v(),
                    predict_mode,
                    k as int,
                    pre_sum,
                    pre_state,
                ) == self.neuron_sum_spec(
                    wstart as int,
                    acts,
                    rate.v(),
                    predict_mode,
                    k as int + 1,
                    sum.sval(),
                    rng.state_view(),
                ));
            }
            k = k + 1;
        }
        let activated = crate::number_factory::activate_neuron(nf, &sum, &conf.neuron_activation);
        proof {
            reveal(Network::neuron_sum_spec);
            assert(self.neuron_sum_spec(
                wstart as int,
                acts,
                rate.v(),
                predict_mode,
                prev_count as int,
                sum.sval(),
                rng.state_view(),
            ) == (sum.sval(), rng.state_view()));
            assert forall|m: int| 0 <= m < h0.len() implies #[trigger] handles@[m] == h0[m] by {
                assert(handles@.take(h0.len() as int)[m] == handles@[m]);
            }
        }
        activated
    }

    /// What one whole layer produces: every neuron's output in order, then
    /// the layer activation over them; fails only when that activation
    /// degenerates.
    #[verifier::rlimit(60)]
    fn forward_layer<N: NumberLike, F: NumberFactory<N>>(
        &self,
        nf: &mut F,
        l: usize,
        previous: &Vec<N>,
        predict_mode: bool,
        rng: &mut crate::rng::Lcg,
        handles: &mut Vec<N>,
    ) -> (r: Result<Vec<N>, MlError>)
        requires
            self.topology_wf(),
            old(nf).inv(),
            l < self.layers_view().len(),
            previous@.len() == prev_size_of(
                self.input_size_view(),
                self.layers_view(),
                l as int,
            ),
        ensures
            final(nf).inv(),
            crate::number_factory::tape_extended(old(nf).tape_model(), final(nf).tape_model()),
            predict_mode ==> final(handles)@ == old(handles)@,
            !predict_mode ==> final(handles)@.len() == old(handles)@.len() + count_of(
                self.input_size_view(),
                self.layers_view(),
                l as int,
            ),
            final(handles)@.take(old(handles)@.len() as int) =~= old(handles)@,
            final(handles)@.len() >= old(handles)@.len(),
            forall|k: int|
                old(handles)@.len() <= k < final(handles)@.len()
                    ==> crate::number_factory::handle_ok(
                    #[trigger] final(handles)@[k],
                    final(nf).tape_model().len() as int,
                ),
            ({
                let acts = crate::number_factory::svals(previous@);
                let pre = self.layer_prefix_spec(
                    l as int,
                    acts,
                    predict_mode,
                    self.layers_view()[l as int].neurons_count as int,
                    old(rng).state_view(),
                );
                match crate::number_factory::layer_activation_value(
                    pre.0,
                    self.layers_view()[l as int].layer_activation,
                ) {
                    Option::None => r is Err && r->Err_0 == MlError::NumericInstability,
                    Option::Some(outs) => {
                        &&& r is Ok
                        &&& crate::number_factory::svals(r->Ok_0@) =~= outs
                        &&& r->Ok_0@.len() == self.layers_view()[l as int].neurons_count
                        &&& final(rng).state_view() == pre.1
                    },
                }
            }),
    {
        proof {
            reveal(Network::layer_prefix_spec);
        }
        let ghost s_layer = rng.state_view();
        let ghost acts = crate::number_factory::svals(previous@);
        let ghost h0 = handles@;
        let ghost stride = stride_of(self.input_size_view(), self.layers_view(), l as int);
        let conf = self.layer_configs[l];
        let mut layer_out: Vec<N> = Vec::new();
        let mut n: usize = 0;
        while n < conf.neurons_count
            invariant
                self.topology_wf(),
                nf.inv(),
                l < self.layers_view().len(),
                conf == self.layers_view()[l as int],
                acts == crate::number_factory::svals(previous@),
                previous@.len() == prev_size_of(
                    self.input_size_view(),
                    self.layers_view(),
                    l as int,
                ),
                n <= conf.neurons_count,
                layer_out@.len() == n,
                stride == stride_of(self.input_size_view(), self.layers_view(), l as int),
                h0 == old(handles)@,
                crate::number_factory::tape_extended(old(nf).tape_model(), nf.tape_model()),
                predict_mode ==> handles@ == h0,
                !predict_mode ==> handles@.len() == h0.len() + n * stride,
                handles@.len() >= h0.len(),
                handles@.take(h0.len() as int) =~= h0,
                forall|k: int|
                    h0.len() <= k < handles@.len() ==> crate::number_factory::handle_ok(
                        #[trigger] handles@[k],
                        nf.tape_model().len() as int,
                    ),
                crate::number_factory::svals(layer_out@) =~= self.layer_prefix_spec(
                    l as int,
                    acts,
                    predict_mode,
                    n as int,
                    s_layer,
                ).0,
                rng.state_view() == self.layer_prefix_spec(
                    l as int,
                    acts,
                    predict_mode,
                    n as int,
                    s_layer,
                ).1,
            decreases conf.neurons_count - n,
        {
            let ghost handles_before = handles@;
            let activated = self.forward_neuron(nf, l, n, previous, predict_mode, rng, handles);
            proof {
                assert((n + 1) * stride == n * stride + stride) by (nonlinear_arith);
                assert(handles@.take(h0.len() as int) =~= handles_before.take(h0.len() as int));
            }
            layer_out.push(activated);
            proof {
                reveal(Network::layer_prefix_spec);
                assert(self.layer_prefix_spec(
                    l as int,
                    acts,
                    predict_mode,
                    n as int + 1,
                    s_layer,
                ).0 =~= self.layer_prefix_spec(l as int, acts, predict_mode, n as int, s_layer).0.push(
                    activated.sval(),
                ));
                assert(crate::number_factory::svals(layer_out@) =~= crate::number_factory::svals(
                    layer_out@.drop_last(),
                ).push(activated.sval()));
            }
            n = n + 1;
        }
        proof {
            reveal(Network::layer_prefix_spec);
            assert(conf.neurons_count as int * stride == count_of(
                self.input_size_view(),
                self.layers_view(),
                l as int,
            ));
        }
        crate::number_factory::activate_layer(nf, &layer_out, &conf.layer_activation)
    }

    /// Run one forward pass against the given backend: wrap the input as
    /// constants, push them through every layer — bias plus weighted sum,
    /// neuron activation, layer activation — then compare with the
    /// example's one-hot expectation under the configured error function.
    /// Parameter scalars pass through `parameter_site`, so training tracks
    /// them (or drops them out) while prediction scales the weights by the
    /// kept share.  The scalars computed are exactly those of
    /// `forward_outcome`, whatever backend runs them.
    #[verifier::rlimit(100)]
    pub fn feed_forward<C: ClassificationExample, N: NumberLike, F: NumberFactory<N>>(
        &self,
        nf: &mut F,
        example: &C,
        predict_mode: bool,
        rng: &mut crate::rng::Lcg,
    ) -> (r: Result<FFResult, MlError>)
        requires
            self.topology_wf(),
            old(nf).inv(),
        ensures
            final(nf).inv(),
            ({
                let oc = self.forward_outcome(
                    example.input_view(),
                    one_hot_view(example.category_view(), example.categories_view()),
                    predict_mode,
                    old(rng).state_view(),
                );
                match r {
                    Ok(ff) => {
                        &&& oc is Ok
                        &&& ff.error_view() == oc->Ok_0.2
                        &&& final(rng).state_view() == oc->Ok_0.1
                        &&& is_first_max(oc->Ok_0.0, ff.actual_view())
                        &&& ff.expected_view() == example.category_view()
                        &&& (predict_mode ==> ff.diffs_view().len() == 0)
                    },
                    Err(e) => oc == Err::<(Seq<int>, u64, int), MlError>(e),
                }
            }),
            r is Ok ==> r->Ok_0.diffs_view().len() == (if predict_mode
                || !F::is_differentiable() || self.error_function_view() == ErrorFunction::Zero {
                0int
            } else {
                self.params_view().len() as int
            }),
    {
        let ghost s0 = rng.state_view();
        let ghost input_v = example.input_view();
        let input = example.get_input();
        if input.len() != self.input_size {
            return Err(MlError::ShapeMismatch);
        }
        let mut previous: Vec<N> = Vec::new();
        let mut i: usize = 0;
        while i < input.len()
            invariant
                old(nf).inv() ==> nf.inv(),
                nf.inv(),
                i <= input@.len(),
                input@.len() == input_v.len(),
                forall|j: int| 0 <= j < input@.len() ==> (#[trigger] input@[j]).v() == input_v[j],
                previous@.len() == i,
                forall|j: int| 0 <= j < i ==> (#[trigger] previous@[j]).sval() == input_v[j],
            decreases input@.len() - i,
        {
            let c = nf.constant(input[i]);
            previous.push(c);
            i = i + 1;
        }
        let mut handles: Vec<N> = Vec::new();
        let ghost mut acts: Seq<int> = crate::number_factory::svals(previous@);
        proof {
            assert(acts =~= input_v);
        }
        let ghost oc0 = self.forward_layers_spec(0, input_v, predict_mode, s0);
        let mut l: usize = 0;
        while l < self.layer_configs.len()
            invariant
                self.topology_wf(),
                nf.inv(),
                l <= self.layers_view().len(),
                s0 == old(rng).state_view(),
                input_v == example.input_view(),
                input_v.len() == self.input_size_view(),
                acts == crate::number_factory::svals(previous@),
                previous@.len() == acts.len(),
                l < self.layers_view().len() ==> acts.len() == prev_size_of(
                    self.input_size_view(),
                    self.layers_view(),
                    l as int,
                ),
                self.forward_layers_spec(0, input_v, predict_mode, s0) == self.forward_layers_spec(
                    l as int,
                    acts,
                    predict_mode,
                    rng.state_view(),
                ),
                predict_mode ==> handles@.len() == 0,
                !predict_mode ==> handles@.len() == offset_of(
                    self.input_size_view(),
                    self.layers_view(),
                    l as int,
                ),
                forall|k: int|
                    0 <= k < handles@.len() ==> crate::number_factory::handle_ok(
                        #[trigger] handles@[k],
                        nf.tape_model().len() as int,
                    ),
            decreases self.layers_view().len() - l,
        {
            let ghost pre_state = rng.state_view();
            let ghost handles_pre = handles@;
            let outs = match self.forward_layer(nf, l, &previous, predict_mode, rng, &mut handles) {
                Err(_) => {
                    proof {
                        reveal(Network::forward_layers_spec);
                        assert(self.forward_layers_spec(l as int, acts, predict_mode, pre_state)
                            is None);
                        assert(self.forward_layers_spec(0, input_v, predict_mode, s0) is None);
                        assert(s0 == old(rng).state_view());
                        assert(input_v == example.input_view());
                        assert(self.forward_outcome(
                            example.input_view(),
                            one_hot_view(example.category_view(), example.categories_view()),
                            predict_mode,
                            old(rng).state_view(),
                        ) == Err::<(Seq<int>, u64, int), MlError>(MlError::NumericInstability));
                    }
                    return Err(MlError::NumericInstability);
                },
                Ok(outs) => outs,
            };
            proof {
                reveal(Network::forward_layers_spec);
                assert(self.forward_layers_spec(l as int, acts, predict_mode, pre_state)
                    == self.forward_layers_spec(
                    l + 1 as int,
                    crate::number_factory::svals(outs@),
                    predict_mode,
                    rng.state_view(),
                ));
                acts = crate::number_factory::svals(outs@);
                assert forall|k: int|
                    0 <= k < handles@.len() implies crate::number_factory::handle_ok(
                    #[trigger] handles@[k],
                    nf.tape_model().len() as int,
                ) by {
                    if k < handles_pre.len() {
                        assert(handles@.take(handles_pre.len() as int)[k] == handles@[k]);
                        assert(handles@[k] == handles_pre[k]);
                    }
                }
            }
            previous = outs;
            l = l + 1;
        }
        proof {
            reveal(Network::forward_layers_spec);
            assert(self.forward_layers_spec(l as int, acts, predict_mode, rng.state_view())
                == Some((acts, rng.state_view())));
            assert(self.forward_layers_spec(0, input_v, predict_mode, s0) == Some(
                (acts, rng.state_view()),
            ));
            if !predict_mode {
                assert(handles@.len() == self.params_view().len());
            }
        }
        if previous.len() == 0 {
            return Err(MlError::EmptyInput);
        }
        let expected_raw = expected_one_hot(example);
        let ghost tape_at_outs = nf.tape_model();
        let ghost handles_at_outs = handles@;
        let mut expected: Vec<N> = Vec::new();
        let mut e: usize = 0;
        while e < expected_raw.len()
            invariant
                nf.inv(),
                e <= expected_raw@.len(),
                expected@.len() == e,
                nf.tape_model() == tape_at_outs,
                handles@ == handles_at_outs,
                forall|j: int|
                    0 <= j < e ==> (#[trigger] expected@[j]).sval() == expected_raw@[j].v(),
            decreases expected_raw@.len() - e,
        {
            let c = nf.constant(expected_raw[e]);
            expected.push(c);
            e = e + 1;
        }
        proof {
            assert(crate::number_factory::svals(expected@) =~= one_hot_view(
                example.category_view(),
                example.categories_view(),
            ));
        }
        proof {
            if exists|j: int|
                0 <= j < previous@.len() && (#[trigger] previous@[j]).sval() <= 0 {
                let j = choose|j: int|
                    0 <= j < previous@.len() && (#[trigger] previous@[j]).sval() <= 0;
                assert(acts[j] <= 0);
            }
            if exists|j: int| 0 <= j < acts.len() && #[trigger] acts[j] <= 0 {
                let j = choose|j: int| 0 <= j < acts.len() && #[trigger] acts[j] <= 0;
                assert(previous@[j].sval() <= 0);
            }
        }
        let err_n = match crate::number_factory::compute_error(
            nf,
            &expected,
            &previous,
            &self.error_function,
        ) {
            Err(e) => {
                proof {
                    assert(self.error_outcome(
                        one_hot_view(example.category_view(), example.categories_view()),
                        acts,
                    ) == Err::<int, MlError>(e));
                }
                return Err(e);
            },
            Ok(v) => v,
        };
        proof {
            assert(self.error_outcome(
                one_hot_view(example.category_view(), example.categories_view()),
                acts,
            ) == Ok::<int, MlError>(err_n.sval()));
        }
        let actual = crate::number_factory::hottest_index(nf, &previous);
        let diffs: Vec<Fx> = if predict_mode {
            Vec::new()
        } else {
            match &self.error_function {
                ErrorFunction::Zero => Vec::new(),
                _ => {
                    proof {
                        if F::is_differentiable() {
                            assert forall|k: int|
                                0 <= k < handles@.len() implies crate::number_factory::handle_ok(
                                #[trigger] handles@[k],
                                nf.tape_model().len() as int,
                            ) by {
                                assert(crate::number_factory::handle_ok(
                                    handles@[k],
                                    tape_at_outs.len() as int,
                                ));
                            }
                        }
                    }
                    match nf.gradients(&err_n, &handles) {
                        Some(d) => d,
                        None => Vec::new(),
                    }
                },
            }
        };
        let category = example.get_category();
        Ok(FFResult::new(err_n.scalar(), diffs, category, actual))
    }


    /// How many parameters the flat array holds.
    pub fn params_count(&self) -> (r: usize)
        ensures
            r == self.params_view().len(),
    {
        self.params.len()
    }

    /// The flat parameter array.
    pub fn params(&self) -> (r: &Vec<Fx>)
        ensures
            r@.len() == self.params_view().len(),
            forall|i: int| 0 <= i < r@.len() ==> (#[trigger] r@[i]).v() == self.params_view()[i],
    {
        &self.params
    }

    /// Replace the flat parameter array; the length must stay what the
    /// topology derives, or the addressing arithmetic would no longer
    /// cover it.
    pub fn set_params(&mut self, params: Vec<Fx>) -> (r: Result<(), MlError>)
        ensures
            r is Err <==> params@.len() != old(self).params_view().len(),
            r is Err ==> r->Err_0 == MlError::LengthMismatch && *final(self) == *old(self),
            r is Ok ==> {
                &&& final(self).params_view() =~= Seq::new(params@.len(), |i: int| params@[i].v())
                &&& final(self).layers_view() == old(self).layers_view()
                &&& final(self).input_size_view() == old(self).input_size_view()
                &&& final(self).error_function_view() == old(self).error_function_view()
                &&& (old(self).topology_wf() ==> final(self).topology_wf())
            },
    {
        if params.len() != self.params.len() {
            return Err(MlError::LengthMismatch);
        }
        self.params = params;
        Ok(())
    }

    /// Classify one example: a plain-backend forward pass in prediction
    /// mode, answering the position of the hottest output activation.
    pub fn predict<C: ClassificationExample>(&self, example: &C) -> (r: Result<usize, MlError>)
        requires
            self.topology_wf(),
        ensures
            ({
                let oc = self.forward_outcome(
                    example.input_view(),
                    one_hot_view(example.category_view(), example.categories_view()),
                    true,
                    0,
                );
                match r {
                    Ok(category) => oc is Ok && is_first_max(oc->Ok_0.0, category as int),
                    Err(e) => oc == Err::<(Seq<int>, u64, int), MlError>(e),
                }
            }),
    {
        let mut nf = crate::float_factory::FloatFactory::new();
        let mut rng = crate::rng::Lcg::new(0);
        match self.feed_forward(&mut nf, example, true, &mut rng) {
            Err(e) => Err(e),
            Ok(ff) => Ok(ff.actual_category()),
        }
    }

    /// The position of the greatest element of a nonempty sequence,
    /// earliest occurrence first.
    pub open spec fn first_max_of(xs: Seq<int>) -> int {
        choose|r: int| is_first_max(xs, r)
    }

    /// What a whole batch determines, walked from sample `k` with the sums
    /// accumulated so far: the summed raw error, the number of correctly
    /// classified samples, and the generator state left behind — or the
    /// first condition that stops a sample's forward pass.
    pub open spec fn batch_outcome<C: ClassificationExample>(
        self,
        examples: Seq<C>,
        predict: bool,
        k: int,
        err_acc: int,
        hits_acc: int,
        s: u64,
    ) -> Result<(int, int, u64), MlError>
        decreases examples.len() - k,
    {
        if k < 0 || k >= examples.len() {
            Ok((err_acc, hits_acc, s))
        } else {
            let ex = examples[k];
            match self.forward_outcome(
                ex.input_view(),
                one_hot_view(ex.category_view(), ex.categories_view()),
                predict,
                s,
            ) {
                Err(e) => Err(e),
                Ok((outs, s2, ev)) => {
                    let hit: int = if Self::first_max_of(outs) == ex.category_view() {
                        1
                    } else {
                        0
                    };
                    self.batch_outcome(
                        examples,
                        predict,
                        k + 1,
                        fx_add(err_acc, ev),
                        hits_acc + hit,
                        s2,
                    )
                },
            }
        }
    }

    /// The gradient length every sample's forward pass carries: the whole
    /// parameter count when training on a differentiable backend against a
    /// real error function, nothing otherwise.
    pub open spec fn sample_diffs_len<N: NumberLike, F: NumberFactory<N>>(
        self,
        predict_mode: bool,
    ) -> int {
        if predict_mode || !F::is_differentiable() || self.error_function_view()
            == ErrorFunction::Zero {
            0
        } else {
            self.params_view().len() as int
        }
    }

    /// Run a whole batch forward, one fresh backend instance per sample so
    /// that no sample observes another's bookkeeping, and sum the
    /// per-sample results into one `BatchResult`.  The sums are exactly the
    /// batch outcome, and every sample's gradient has the same pinned
    /// length, so nothing is ever rejected beyond an empty batch and the
    /// samples' own failures.
    pub fn feed_batch_forward<C: ClassificationExample, N: NumberLike, F: crate::number_factory::FreshBackend<N>>(
        &self,
        examples: &[C],
        predict_mode: bool,
        rng: &mut crate::rng::Lcg,
    ) -> (r: Result<BatchResult, MlError>)
        requires
            self.topology_wf(),
        ensures
            examples@.len() == 0 ==> r == Err::<BatchResult, MlError>(MlError::EmptyInput),
            r is Ok ==> r->Ok_0.count_view() == examples@.len() && r->Ok_0.wf(),
            r is Ok ==> r->Ok_0.diffs_sum_view().len() == self.sample_diffs_len::<N, F>(
                predict_mode,
            ),
            ({
                let oc = self.batch_outcome(
                    examples@,
                    predict_mode,
                    0,
                    0,
                    0,
                    old(rng).state_view(),
                );
                match r {
                    Ok(b) => {
                        &&& oc is Ok
                        &&& b.error_view() == oc->Ok_0.0
                        &&& b.hits_view() == oc->Ok_0.1
                        &&& final(rng).state_view() == oc->Ok_0.2
                    },
                    Err(e) => examples@.len() == 0 || oc == Err::<
                        (int, int, u64),
                        MlError,
                    >(e),
                }
            }),
    {
        if examples.len() == 0 {
            return Err(MlError::EmptyInput);
        }
        let ghost s0 = rng.state_view();
        let mut results: Vec<BatchResult> = Vec::new();
        let mut i: usize = 0;
        while i < examples.len()
            invariant
                self.topology_wf(),
                i <= examples@.len(),
                results@.len() == i,
                s0 == old(rng).state_view(),
                forall|k: int| 0 <= k < i ==> (#[trigger] results@[k]).wf(),
                forall|k: int| 0 <= k < i ==> (#[trigger] results@[k]).count_view() == 1,
                forall|k: int|
                    0 <= k < i ==> (#[trigger] results@[k]).diffs_sum_view().len()
                        == self.sample_diffs_len::<N, F>(predict_mode),
                self.batch_outcome(examples@, predict_mode, 0, 0, 0, s0) == self.batch_outcome(
                    examples@,
                    predict_mode,
                    i as int,
                    agg_error(results@),
                    agg_hits(results@),
                    rng.state_view(),
                ),
            decreases examples@.len() - i,
        {
            let ghost pre_results = results@;
            let ghost pre_state = rng.state_view();
            let mut nf = F::fresh();
            let example = vstd::slice::slice_index_get(examples, i);
            let ghost oc_i = self.forward_outcome(
                example.input_view(),
                one_hot_view(example.category_view(), example.categories_view()),
                predict_mode,
                pre_state,
            );
            let ff = match self.feed_forward(&mut nf, example, predict_mode, rng) {
                Err(e) => {
                    proof {
                        assert(self.batch_outcome(
                            examples@,
                            predict_mode,
                            i as int,
                            agg_error(results@),
                            agg_hits(results@),
                            pre_state,
                        ) == Err::<(int, int, u64), MlError>(e));
                    }
                    return Err(e);
                },
                Ok(ff) => ff,
            };
            let br = ff.to_batch_result();
            results.push(br);
            i = i + 1;
            proof {
                let outs = oc_i->Ok_0.0;
                assert(is_first_max(outs, ff.actual_view()));
                assert(is_first_max(outs, Self::first_max_of(outs))) by {
                    assert(exists|r: int| is_first_max(outs, r));
                }
                lemma_first_max_unique(outs, Self::first_max_of(outs), ff.actual_view());
                assert(br.hits_view() == (if Self::first_max_of(outs) == example.category_view() {
                    1int
                } else {
                    0int
                }));
                assert(results@.drop_last() =~= pre_results);
                assert(agg_error(results@) == fx_add(agg_error(pre_results), br.error_view()));
                assert(agg_hits(results@) == agg_hits(pre_results) + br.hits_view());
                assert(self.batch_outcome(
                    examples@,
                    predict_mode,
                    i - 1 as int,
                    agg_error(pre_results),
                    agg_hits(pre_results),
                    pre_state,
                ) == self.batch_outcome(
                    examples@,
                    predict_mode,
                    i as int,
                    agg_error(results@),
                    agg_hits(results@),
                    rng.state_view(),
                ));
            }
        }
        proof {
            lemma_agg_count_units(results@);
        }
        Ok(BatchResult::aggregate(&results))
    }

    /// Descend the flat parameter array along the given gradient: each
    /// parameter moves against its own partial derivative, scaled by the
    /// schedule's current learning rate.  Fails with `LengthMismatch`
    /// exactly when the gradient's length disagrees with the array.
    pub fn back_propagate(&mut self, diffs: &Vec<Fx>, t_conf: &TrainingConfig) -> (r: Result<
        (),
        MlError,
    >)
        ensures
            r is Err <==> diffs@.len() != old(self).params_view().len(),
            r is Err ==> r->Err_0 == MlError::LengthMismatch && *final(self) == *old(self),
            r is Ok ==> {
                &&& final(self).params_view().len() == old(self).params_view().len()
                &&& forall|i: int|
                    0 <= i < old(self).params_view().len() ==> final(self).params_view()[i]
                        == fx_sub(
                        old(self).params_view()[i],
                        fx_mul(t_conf.learning_rate_view(), diffs@[i].v()),
                    )
            },
            final(self).layers_view() == old(self).layers_view(),
            final(self).input_size_view() == old(self).input_size_view(),
            final(self).error_function_view() == old(self).error_function_view(),
            old(self).topology_wf() ==> final(self).topology_wf(),
    {
        if self.params.len() != diffs.len() {
            return Err(MlError::LengthMismatch);
        }
        let lr = t_conf.learning_rate();
        let mut i: usize = 0;
        while i < self.params.len()
            invariant
                self.params@.len() == old(self).params@.len(),
                diffs@.len() == old(self).params@.len(),
                i <= self.params@.len(),
                lr.v() == t_conf.learning_rate_view(),
                self.layer_configs@ == old(self).layer_configs@,
                self.input_size == old(self).input_size,
                self.error_function == old(self).error_function,
                forall|j: int|
                    i <= j < self.params@.len() ==> (#[trigger] self.params@[j]) == old(
                        self,
                    ).params@[j],
                forall|j: int|
                    0 <= j < i ==> (#[trigger] self.params@[j]).v() == fx_sub(
                        old(self).params@[j].v(),
                        fx_mul(lr.v(), diffs@[j].v()),
                    ),
            decreases self.params@.len() - i,
        {
            let step = crate::fixed::fx_mul_exec(lr, diffs[i]);
            let updated = crate::fixed::fx_sub_exec(self.params[i], step);
            self.params.set(i, updated);
            i = i + 1;
        }
        Ok(())
    }
}

/// A labeled sample the network classifies: an input vector, its true
/// category, and how many categories exist.
pub trait ClassificationExample: Sized {
    /// The raw input features.
    spec fn input_view(self) -> Seq<int>;

    /// The true category.
    spec fn category_view(self) -> int;

    /// How many categories exist.
    spec fn categories_view(self) -> int;

    /// The input features.
    fn get_input(&self) -> (r: Vec<Fx>)
        ensures
            r@.len() == self.input_view().len(),
            forall|i: int| 0 <= i < r@.len() ==> (#[trigger] r@[i]).v() == self.input_view()[i],
    ;

    /// The true category.
    fn get_category(&self) -> (r: usize)
        ensures
            r as int == self.category_view(),
            0 <= self.category_view(),
    ;

    /// How many categories exist.
    fn get_categories_count(&self) -> (r: usize)
        ensures
            r as int == self.categories_view(),
    ;
}

/// The one-hot encoding of an example's category over its category count.
pub open spec fn one_hot_view(category: int, categories: int) -> Seq<int> {
    Seq::new(
        categories as nat,
        |i: int|
            if i == category {
                SCALE as int
            } else {
                0int
            },
    )
}

/// The expected one-hot output vector of an example.
pub fn expected_one_hot<C: ClassificationExample>(example: &C) -> (r: Vec<Fx>)
    ensures
        r@.len() == example.categories_view(),
        forall|i: int|
            0 <= i < r@.len() ==> (#[trigger] r@[i]).v() == one_hot_view(
                example.category_view(),
                example.categories_view(),
            )[i],
{
    let category = example.get_category();
    let categories = example.get_categories_count();
    let mut r: Vec<Fx> = Vec::new();
    let mut i: usize = 0;
    while i < categories
        invariant
            i <= categories,
            r@.len() == i,
            category as int == example.category_view(),
            categories as int == example.categories_view(),
            forall|j: int|
                0 <= j < i ==> (#[trigger] r@[j]).v() == (if j == example.category_view() {
                    SCALE as int
                } else {
                    0int
                }),
        decreases categories - i,
    {
        if i == category {
            r.push(Fx::one());
        } else {
            r.push(Fx::zero());
        }
        i = i + 1;
    }
    r
}

/// `r` is the position of the greatest element, earliest occurrence first.
pub open spec fn is_first_max(xs: Seq<int>, r: int) -> bool {
    &&& 0 <= r < xs.len()
    &&& forall|k: int| 0 <= k < xs.len() ==> #[trigger] xs[k] <= xs[r]
    &&& forall|k: int| 0 <= k < r ==> #[trigger] xs[k] < xs[r]
}

/// Two first-maximum positions of the same sequence coincide.
proof fn lemma_first_max_unique(xs: Seq<int>, a: int, b: int)
    requires
        is_first_max(xs, a),
        is_first_max(xs, b),
    ensures
        a == b,
{
    if a < b {
        assert(xs[a] < xs[b]);
        assert(xs[b] <= xs[a]);
    }
    if b < a {
        assert(xs[b] < xs[a]);
        assert(xs[a] <= xs[b]);
    }
}

/// The value used at one parameter site during a forward pass, and the
/// generator state after it.  At prediction time the parameter stays, a
/// weight scaled by the kept share, a bias as it is; at training time a
/// site with a positive dropout rate draws once and is zeroed when the draw
/// falls under the rate.
pub open spec fn site_spec(x: int, rate: int, predict: bool, scale_at_predict: bool, s: u64) -> (
    int,
    u64,
) {
    if predict {
        if scale_at_predict {
            (fx_mul(x, fx_sub(SCALE as int, rate)), s)
        } else {
            (x, s)
        }
    } else if rate <= 0 {
        (x, s)
    } else {
        let s2 = crate::rng::lcg_next(s);
        ((if (s2 as int) % (SCALE as int) < rate {
            0int
        } else {
            x
        }), s2)
    }
}

impl Network {
    /// The weighted sum a neuron accumulates over the previous layer's
    /// activations, starting from `acc`, one dropout-filtered weight site
    /// per activation.
    #[verifier::opaque]
    pub open spec fn neuron_sum_spec(
        self,
        wstart: int,
        acts: Seq<int>,
        rate: int,
        predict: bool,
        k: int,
        acc: int,
        s: u64,
    ) -> (int, u64)
        decreases acts.len() - k,
    {
        if k >= acts.len() {
            (acc, s)
        } else {
            let (weff, s1) = site_spec(self.params_view()[wstart + k], rate, predict, true, s);
            self.neuron_sum_spec(
                wstart,
                acts,
                rate,
                predict,
                k + 1,
                fx_add(acc, fx_mul(weff, acts[k])),
                s1,
            )
        }
    }

    /// What neuron `n` of layer `l` produces from the previous layer's
    /// activations: its bias site, plus one weight site per activation,
    /// through its activation function.
    pub open spec fn neuron_value_spec(
        self,
        l: int,
        n: int,
        acts: Seq<int>,
        predict: bool,
        s: u64,
    ) -> (int, u64) {
        let conf = self.layers_view()[l];
        let rate = conf.drop_out.v();
        let start = site_start(self.input_size_view(), self.layers_view(), l, n);
        let (acc0, s0) = if conf.use_biases {
            site_spec(self.params_view()[start], rate, predict, false, s)
        } else {
            (0int, s)
        };
        let wstart = start + (if conf.use_biases {
            1int
        } else {
            0int
        });
        let (sum, s1) = self.neuron_sum_spec(wstart, acts, rate, predict, 0, acc0, s0);
        (
            crate::number_factory::neuron_activation_value(sum, conf.neuron_activation),
            s1,
        )
    }

    /// The first `n` neuron outputs of layer `l`, in order.
    #[verifier::opaque]
    pub open spec fn layer_prefix_spec(
        self,
        l: int,
        acts: Seq<int>,
        predict: bool,
        n: int,
        s: u64,
    ) -> (Seq<int>, u64)
        decreases n,
    {
        if n <= 0 {
            (Seq::empty(), s)
        } else {
            let (pre, s1) = self.layer_prefix_spec(l, acts, predict, n - 1, s);
            let (v, s2) = self.neuron_value_spec(l, n - 1, acts, predict, s1);
            (pre.push(v), s2)
        }
    }

    /// The activations flowing out of the layers from `l` on, given the
    /// activations flowing in; nothing when a layer activation degenerates.
    #[verifier::opaque]
    pub open spec fn forward_layers_spec(
        self,
        l: int,
        acts: Seq<int>,
        predict: bool,
        s: u64,
    ) -> Option<(Seq<int>, u64)>
        decreases self.layers_view().len() - l,
    {
        if l < 0 || l >= self.layers_view().len() {
            Some((acts, s))
        } else {
            let (raw, s1) = self.layer_prefix_spec(
                l,
                acts,
                predict,
                self.layers_view()[l].neurons_count as int,
                s,
            );
            match crate::number_factory::layer_activation_value(
                raw,
                self.layers_view()[l].layer_activation,
            ) {
                Option::None => Option::None,
                Option::Some(outs) => self.forward_layers_spec(l + 1, outs, predict, s1),
            }
        }
    }

    /// The error value the configured error function yields, or the error
    /// condition it detects.
    pub open spec fn error_outcome(self, expected: Seq<int>, actual: Seq<int>) -> Result<
        int,
        MlError,
    > {
        match self.error_function_view() {
            ErrorFunction::Zero => Ok(0int),
            ErrorFunction::EuclideanDistanceSquared => {
                if expected.len() != actual.len() {
                    Err(MlError::LengthMismatch)
                } else if expected.len() == 0 {
                    Err(MlError::EmptyInput)
                } else {
                    Ok(crate::number_factory::euclidean_error_value(expected, actual))
                }
            },
            ErrorFunction::CategoricalCrossEntropy => {
                if expected.len() != actual.len() {
                    Err(MlError::LengthMismatch)
                } else if expected.len() == 0 {
                    Err(MlError::EmptyInput)
                } else if exists|j: int| 0 <= j < actual.len() && #[trigger] actual[j] <= 0 {
                    Err(MlError::NumericInstability)
                } else {
                    Ok(crate::number_factory::cross_entropy_value(expected, actual))
                }
            },
        }
    }

    /// Everything one forward pass determines: the output activations, the
    /// generator state left behind and the scalar error — or the first
    /// condition that stops it.
    pub open spec fn forward_outcome(
        self,
        input: Seq<int>,
        expected: Seq<int>,
        predict: bool,
        s: u64,
    ) -> Result<(Seq<int>, u64, int), MlError> {
        if input.len() != self.input_size_view() {
            Err(MlError::ShapeMismatch)
        } else {
            match self.forward_layers_spec(0, input, predict, s) {
                Option::None => Err(MlError::NumericInstability),
                Option::Some((outs, s2)) => {
                    if outs.len() == 0 {
                        Err(MlError::EmptyInput)
                    } else {
                        match self.error_outcome(expected, outs) {
                            Err(e) => Err(e),
                            Ok(ev) => Ok((outs, s2, ev)),
                        }
                    }
                },
            }
        }
    }
}

/// Produce the backend value standing at one parameter site, drawing the
/// dropout decision when training calls for one; at training time the
/// value joins the handles the gradient will be taken for.
fn parameter_site<N: crate::number_factory::NumberLike, F: crate::number_factory::NumberFactory<
    N,
>>(
    nf: &mut F,
    scalar: Fx,
    rate: Fx,
    predict: bool,
    scale_at_predict: bool,
    rng: &mut crate::rng::Lcg,
    handles: &mut Vec<N>,
) -> (r: N)
    requires
        old(nf).inv(),
    ensures
        final(nf).inv(),
        crate::number_factory::tape_extended(old(nf).tape_model(), final(nf).tape_model()),
        crate::number_factory::handle_ok(r, final(nf).tape_model().len() as int),
        r.sval() == site_spec(
            scalar.v(),
            rate.v(),
            predict,
            scale_at_predict,
            old(rng).state_view(),
        ).0,
        final(rng).state_view() == site_spec(
            scalar.v(),
            rate.v(),
            predict,
            scale_at_predict,
            old(rng).state_view(),
        ).1,
        predict ==> final(handles)@ == old(handles)@,
        !predict ==> final(handles)@ == old(handles)@.push(r),
{
    if predict {
        if scale_at_predict {
            let kept = crate::fixed::fx_sub_exec(Fx::one(), rate);
            nf.constant(crate::fixed::fx_mul_exec(scalar, kept))
        } else {
            nf.constant(scalar)
        }
    } else {
        let keep: bool = if rate.raw() <= 0 {
            true
        } else {
            let d = rng.next_raw();
            (d % 1_000_000u64) >= (rate.raw() as u64)
        };
        let v = if keep {
            nf.parameter(scalar)
        } else {
            nf.constant(Fx::zero())
        };
        handles.push(v);
        proof {
            reveal(crate::number_factory::appends_record);
        }
        v
    }
}

impl Network {
    /// Every layer's dropout rate is zero.
    pub open spec fn dropout_free(self) -> bool {
        forall|l: int|
            0 <= l < self.layers_view().len() ==> (#[trigger] self.layers_view()[l]).drop_out.v()
                == 0
    }

    /// With no dropout, one neuron's weighted sum is the same in training
    /// and in prediction mode: no draw happens, and scaling a weight by the
    /// whole unit leaves it untouched.
    proof fn lemma_sum_modes_agree(self, l: int, n: int, acts: Seq<int>, k: int, acc: int, s: u64)
        requires
            self.topology_wf(),
            self.dropout_free(),
            0 <= l < self.layers_view().len(),
            0 <= n < self.layers_view()[l].neurons_count,
            acts.len() == prev_size_of(self.input_size_view(), self.layers_view(), l),
            0 <= k <= acts.len(),
        ensures
            ({
                let wstart = site_start(self.input_size_view(), self.layers_view(), l, n) + (
                if self.layers_view()[l].use_biases {
                    1int
                } else {
                    0int
                });
                let rate = self.layers_view()[l].drop_out.v();
                self.neuron_sum_spec(wstart, acts, rate, true, k, acc, s) == self.neuron_sum_spec(
                    wstart,
                    acts,
                    rate,
                    false,
                    k,
                    acc,
                    s,
                ) && self.neuron_sum_spec(wstart, acts, rate, false, k, acc, s).1 == s
            }),
        decreases acts.len() - k,
    {
        reveal(Network::neuron_sum_spec);
        let wstart = site_start(self.input_size_view(), self.layers_view(), l, n) + (
        if self.layers_view()[l].use_biases {
            1int
        } else {
            0int
        });
        let rate = self.layers_view()[l].drop_out.v();
        if k < acts.len() {
            self.lemma_site_in_bounds(l, n);
            let w = self.params_view()[wstart + k];
            assert(crate::fixed::fx_in_range(w));
            assert(fx_sub(SCALE as int, rate) == SCALE as int);
            crate::autodiff::lemma_fx_mul_one(w);
            assert(site_spec(w, rate, true, true, s) == (w, s));
            assert(site_spec(w, rate, false, true, s) == (w, s));
            self.lemma_sum_modes_agree(l, n, acts, k + 1, fx_add(acc, fx_mul(w, acts[k])), s);
        }
    }

    /// With no dropout, a whole layer's raw outputs agree between the two
    /// modes, and the generator is never consulted.
    proof fn lemma_prefix_modes_agree(self, l: int, acts: Seq<int>, n: int, s: u64)
        requires
            self.topology_wf(),
            self.dropout_free(),
            0 <= l < self.layers_view().len(),
            0 <= n <= self.layers_view()[l].neurons_count,
            acts.len() == prev_size_of(self.input_size_view(), self.layers_view(), l),
        ensures
            self.layer_prefix_spec(l, acts, true, n, s) == self.layer_prefix_spec(
                l,
                acts,
                false,
                n,
                s,
            ),
            self.layer_prefix_spec(l, acts, true, n, s).1 == s,
            self.layer_prefix_spec(l, acts, true, n, s).0.len() == n,
        decreases n,
    {
        reveal(Network::layer_prefix_spec);
        if n > 0 {
            self.lemma_prefix_modes_agree(l, acts, n - 1, s);
            let s1 = self.layer_prefix_spec(l, acts, true, n - 1, s).1;
            self.lemma_sum_modes_agree(
                l,
                n - 1,
                acts,
                0,
                self.neuron_bias_start(l, n - 1, s1),
                s1,
            );
            assert(site_spec(
                self.params_view()[site_start(self.input_size_view(), self.layers_view(), l, n - 1)],
                self.layers_view()[l].drop_out.v(),
                true,
                false,
                s1,
            ) == site_spec(
                self.params_view()[site_start(self.input_size_view(), self.layers_view(), l, n - 1)],
                self.layers_view()[l].drop_out.v(),
                false,
                false,
                s1,
            ));
            assert(self.neuron_value_spec(l, n - 1, acts, true, s1) == self.neuron_value_spec(
                l,
                n - 1,
                acts,
                false,
                s1,
            ));
            assert(self.neuron_value_spec(l, n - 1, acts, false, s1).1 == s1);
            assert(self.layer_prefix_spec(l, acts, true, n, s) == self.layer_prefix_spec(
                l,
                acts,
                false,
                n,
                s,
            ));
        }
    }

    /// The accumulator a neuron's sum starts from: its bias site's value.
    pub open spec fn neuron_bias_start(self, l: int, n: int, s: u64) -> int {
        let conf = self.layers_view()[l];
        if conf.use_biases {
            site_spec(
                self.params_view()[site_start(self.input_size_view(), self.layers_view(), l, n)],
                conf.drop_out.v(),
                false,
                false,
                s,
            ).0
        } else {
            0
        }
    }

    /// With every dropout rate at zero, a prediction-mode forward pass and
    /// a training-mode forward pass compute exactly the same activations,
    /// and neither consumes randomness.
    pub proof fn lemma_dropout_inference_scaling(self, l: int, acts: Seq<int>, s: u64)
        requires
            self.topology_wf(),
            self.dropout_free(),
            0 <= l <= self.layers_view().len(),
            l < self.layers_view().len() ==> acts.len() == prev_size_of(
                self.input_size_view(),
                self.layers_view(),
                l,
            ),
        ensures
            self.forward_layers_spec(l, acts, true, s) == self.forward_layers_spec(
                l,
                acts,
                false,
                s,
            ),
        decreases self.layers_view().len() - l,
    {
        reveal(Network::forward_layers_spec);
        if 0 <= l < self.layers_view().len() {
            let neurons = self.layers_view()[l].neurons_count as int;
            self.lemma_prefix_modes_agree(l, acts, neurons, s);
            let pre = self.layer_prefix_spec(l, acts, true, neurons, s);
            match crate::number_factory::layer_activation_value(
                pre.0,
                self.layers_view()[l].layer_activation,
            ) {
                Option::None => {},
                Option::Some(outs) => {
                    assert(outs.len() == neurons);
                    self.lemma_dropout_inference_scaling(l + 1, outs, pre.1);
                },
            }
        }
    }
}

impl Network {
    /// In prediction mode a weighted sum never consults the generator: its
    /// value is the same under any state, and the state passes through
    /// untouched.
    proof fn lemma_predict_sum_state(
        self,
        wstart: int,
        acts: Seq<int>,
        rate: int,
        k: int,
        acc: int,
        s1: u64,
        s2: u64,
    )
        ensures
            self.neuron_sum_spec(wstart, acts, rate, true, k, acc, s1).0 == self.neuron_sum_spec(
                wstart,
                acts,
                rate,
                true,
                k,
                acc,
                s2,
            ).0,
            self.neuron_sum_spec(wstart, acts, rate, true, k, acc, s1).1 == s1,
        decreases acts.len() - k,
    {
        reveal(Network::neuron_sum_spec);
        if k < acts.len() {
            let w = self.params_view()[wstart + k];
            let v = site_spec(w, rate, true, true, s1).0;
            self.lemma_predict_sum_state(
                wstart,
                acts,
                rate,
                k + 1,
                fx_add(acc, fx_mul(v, acts[k])),
                s1,
                s2,
            );
        }
    }

    /// In prediction mode a whole layer's outputs are independent of the
    /// generator state, which passes through untouched.
    proof fn lemma_predict_prefix_state(self, l: int, acts: Seq<int>, n: int, s1: u64, s2: u64)
        requires
            0 <= l < self.layers_view().len(),
        ensures
            self.layer_prefix_spec(l, acts, true, n, s1).0 == self.layer_prefix_spec(
                l,
                acts,
                true,
                n,
                s2,
            ).0,
            self.layer_prefix_spec(l, acts, true, n, s1).1 == s1,
        decreases n,
    {
        reveal(Network::layer_prefix_spec);
        if n > 0 {
            self.lemma_predict_prefix_state(l, acts, n - 1, s1, s2);
            self.lemma_predict_prefix_state(l, acts, n - 1, s2, s1);
            let conf = self.layers_view()[l];
            let start = site_start(self.input_size_view(), self.layers_view(), l, n - 1);
            let acc0 = if conf.use_biases {
                site_spec(self.params_view()[start], conf.drop_out.v(), true, false, s1).0
            } else {
                0int
            };
            let wstart = start + (if conf.use_biases {
                1int
            } else {
                0int
            });
            self.lemma_predict_sum_state(
                wstart,
                acts,
                conf.drop_out.v(),
                0,
                acc0,
                s1,
                s2,
            );
            self.lemma_predict_sum_state(
                wstart,
                acts,
                conf.drop_out.v(),
                0,
                acc0,
                s2,
                s1,
            );
            if conf.use_biases {
                assert(site_spec(self.params_view()[start], conf.drop_out.v(), true, false, s2).0
                    == acc0);
            }
            assert(self.neuron_value_spec(l, n - 1, acts, true, s1).0 == self.neuron_value_spec(
                l,
                n - 1,
                acts,
                true,
                s2,
            ).0);
            assert(self.neuron_value_spec(l, n - 1, acts, true, s1).1 == s1);
            assert(self.neuron_value_spec(l, n - 1, acts, true, s2).1 == s2);
        }
    }

    /// In prediction mode the whole forward computation is independent of
    /// the generator state, which passes through untouched.
    proof fn lemma_predict_layers_state(self, l: int, acts: Seq<int>, s1: u64, s2: u64)
        ensures
            ({
                let o1 = self.forward_layers_spec(l, acts, true, s1);
                let o2 = self.forward_layers_spec(l, acts, true, s2);
                match o1 {
                    Option::None => o2 is None,
                    Option::Some(p1) => o2 matches Option::Some(p2) && p2.0 == p1.0 && p1.1
                        == s1,
                }
            }),
        decreases self.layers_view().len() - l,
    {
        reveal(Network::forward_layers_spec);
        if 0 <= l < self.layers_view().len() {
            let neurons = self.layers_view()[l].neurons_count as int;
            self.lemma_predict_prefix_state(l, acts, neurons, s1, s2);
            self.lemma_predict_prefix_state(l, acts, neurons, s2, s1);
            let raw = self.layer_prefix_spec(l, acts, true, neurons, s1).0;
            match crate::number_factory::layer_activation_value(
                raw,
                self.layers_view()[l].layer_activation,
            ) {
                Option::None => {},
                Option::Some(outs) => {
                    self.lemma_predict_layers_state(l + 1, outs, s1, s2);
                },
            }
        }
    }

    /// In prediction mode a whole batch's summed error and hit count are
    /// independent of the generator state.
    pub proof fn lemma_predict_batch_state<C: ClassificationExample>(
        self,
        examples: Seq<C>,
        k: int,
        err_acc: int,
        hits_acc: int,
        s1: u64,
        s2: u64,
    )
        ensures
            ({
                let o1 = self.batch_outcome(examples, true, k, err_acc, hits_acc, s1);
                let o2 = self.batch_outcome(examples, true, k, err_acc, hits_acc, s2);
                match o1 {
                    Err(e) => o2 == Err::<(int, int, u64), MlError>(e),
                    Ok(p1) => o2 matches Ok(p2) && p2.0 == p1.0 && p2.1 == p1.1,
                }
            }),
        decreases examples.len() - k,
    {
        if 0 <= k < examples.len() {
            let ex = examples[k];
            self.lemma_predict_layers_state(0, ex.input_view(), s1, s2);
            self.lemma_predict_layers_state(0, ex.input_view(), s2, s1);
            let o1 = self.forward_outcome(
                ex.input_view(),
                one_hot_view(ex.category_view(), ex.categories_view()),
                true,
                s1,
            );
            let o2 = self.forward_outcome(
                ex.input_view(),
                one_hot_view(ex.category_view(), ex.categories_view()),
                true,
                s2,
            );
            match o1 {
                Err(_) => {
                    assert(o2 == o1);
                },
                Ok(p1) => {
                    assert(o2 matches Ok(p2) && p2.0 == p1.0 && p2.2 == p1.2 && p1.1 == s1
                        && o2->Ok_0.1 == s2);
                    let hit: int = if Self::first_max_of(p1.0) == ex.category_view() {
                        1
                    } else {
                        0
                    };
                    self.lemma_predict_batch_state(
                        examples,
                        k + 1,
                        fx_add(err_acc, p1.2),
                        hits_acc + hit,
                        s1,
                        s2,
                    );
                },
            }
        }
    }
}

/// What one forward pass produced: the scalar error, the gradient per
/// tracked parameter (empty without the differentiable capability), and the
/// expected and actual categories.
pub struct FFResult {
    error: Fx,
    diffs: Vec<Fx>,
    expected_category: usize,
    actual_category: usize,
}

impl FFResult {
    /// The raw scalar error.
    pub closed spec fn error_view(self) -> int {
        self.error.v()
    }

    /// The raw gradient entries.
    pub closed spec fn diffs_view(self) -> Seq<int> {
        Seq::new(self.diffs@.len(), |i: int| self.diffs@[i].v())
    }

    /// The expected category.
    pub closed spec fn expected_view(self) -> int {
        self.expected_category as int
    }

    /// The actual category.
    pub closed spec fn actual_view(self) -> int {
        self.actual_category as int
    }

    /// Assemble a forward-pass result.
    pub fn new(error: Fx, diffs: Vec<Fx>, expected_category: usize, actual_category: usize) -> (r:
        FFResult)
        ensures
            r.error_view() == error.v(),
            r.diffs_view() =~= Seq::new(diffs@.len(), |i: int| diffs@[i].v()),
            r.expected_view() == expected_category,
            r.actual_view() == actual_category,
    {
        FFResult { error, diffs, expected_category, actual_category }
    }

    /// The scalar error.
    pub fn error(&self) -> (r: Fx)
        ensures
            r.v() == self.error_view(),
    {
        self.error
    }

    /// The gradient entries.
    pub fn diffs(&self) -> (r: &Vec<Fx>)
        ensures
            r@.len() == self.diffs_view().len(),
            forall|i: int| 0 <= i < r@.len() ==> (#[trigger] r@[i]).v() == self.diffs_view()[i],
    {
        &self.diffs
    }

    /// The expected category.
    pub fn expected_category(&self) -> (r: usize)
        ensures
            r as int == self.expected_view(),
    {
        self.expected_category
    }

    /// The actual category.
    pub fn actual_category(&self) -> (r: usize)
        ensures
            r as int == self.actual_view(),
    {
        self.actual_category
    }

    /// This result as a one-sample batch: one hit when the categories
    /// agree.
    pub fn to_batch_result(self) -> (r: BatchResult)
        ensures
            r.error_view() == self.error_view(),
            r.diffs_sum_view() =~= self.diffs_view(),
            r.hits_view() == (if self.expected_view() == self.actual_view() {
                1int
            } else {
                0int
            }),
            r.count_view() == 1,
            r.wf(),
    {
        let hits: usize = if self.expected_category == self.actual_category {
            1
        } else {
            0
        };
        BatchResult { error: self.error, diffs: self.diffs, hits, batch_size: 1 }
    }
}

/// What a batch produced, stored as plain sums so that merging results is
/// exact and associative; the averaged readings are taken on the way out.
pub struct BatchResult {
    error: Fx,
    diffs: Vec<Fx>,
    hits: usize,
    batch_size: usize,
}

/// The summed raw error of a sequence of batch results, in order.
pub open spec fn agg_error(rs: Seq<BatchResult>) -> int
    decreases rs.len(),
{
    if rs.len() == 0 {
        0
    } else {
        fx_add(agg_error(rs.drop_last()), rs.last().error_view())
    }
}

/// The summed hit counts of a sequence of batch results.
pub open spec fn agg_hits(rs: Seq<BatchResult>) -> int
    decreases rs.len(),
{
    if rs.len() == 0 {
        0
    } else {
        agg_hits(rs.drop_last()) + rs.last().hits_view()
    }
}

/// The summed sample counts of a sequence of batch results.
pub open spec fn agg_count(rs: Seq<BatchResult>) -> int
    decreases rs.len(),
{
    if rs.len() == 0 {
        0
    } else {
        agg_count(rs.drop_last()) + rs.last().count_view()
    }
}

/// The position-wise summed raw gradients of a sequence of batch results.
pub open spec fn agg_diffs(rs: Seq<BatchResult>, len: int) -> Seq<int>
    decreases rs.len(),
{
    if rs.len() == 0 {
        Seq::new(len as nat, |i: int| 0int)
    } else {
        Seq::new(
            len as nat,
            |i: int| fx_add(agg_diffs(rs.drop_last(), len)[i], rs.last().diffs_sum_view()[i]),
        )
    }
}

impl BatchResult {
    /// The summed raw error.
    pub closed spec fn error_view(self) -> int {
        self.error.v()
    }

    /// The summed raw gradient.
    pub closed spec fn diffs_sum_view(self) -> Seq<int> {
        Seq::new(self.diffs@.len(), |i: int| self.diffs@[i].v())
    }

    /// The summed hit count.
    pub closed spec fn hits_view(self) -> int {
        self.hits as int
    }

    /// The summed sample count.
    pub closed spec fn count_view(self) -> int {
        self.batch_size as int
    }

    /// A batch never hits more often than it has samples.
    pub open spec fn wf(self) -> bool {
        0 <= self.hits_view() <= self.count_view()
    }

    /// How many gradient entries this result carries.
    pub fn diffs_len(&self) -> (r: usize)
        ensures
            r == self.diffs_sum_view().len(),
    {
        self.diffs.len()
    }

    /// How many samples this result aggregates.
    pub fn batch_size(&self) -> (r: usize)
        ensures
            r as int == self.count_view(),
    {
        self.batch_size
    }

    /// The average raw error per sample.
    pub fn error(&self) -> (r: Fx)
        requires
            self.count_view() <= 1_000_000_000_000,
        ensures
            r.v() == fx_div(self.error_view(), self.count_view() * SCALE as int),
    {
        let denom = Fx::from_raw((self.batch_size as i64) * SCALE);
        crate::fixed::fx_div_exec(self.error, denom)
    }

    /// The share of samples classified correctly, as a raw fraction of the
    /// unit.
    pub fn accuracy(&self) -> (r: Fx)
        requires
            self.wf(),
            self.count_view() <= 1_000_000_000_000,
        ensures
            r.v() == fx_div(self.hits_view() * SCALE as int, self.count_view() * SCALE as int),
    {
        let num = Fx::from_raw((self.hits as i64) * SCALE);
        let denom = Fx::from_raw((self.batch_size as i64) * SCALE);
        crate::fixed::fx_div_exec(num, denom)
    }

    /// The average raw gradient per sample.
    pub fn diffs(&self) -> (r: Vec<Fx>)
        requires
            self.count_view() <= 1_000_000_000_000,
        ensures
            r@.len() == self.diffs_sum_view().len(),
            forall|i: int|
                0 <= i < r@.len() ==> (#[trigger] r@[i]).v() == fx_div(
                    self.diffs_sum_view()[i],
                    self.count_view() * SCALE as int,
                ),
    {
        let denom = Fx::from_raw((self.batch_size as i64) * SCALE);
        let mut out: Vec<Fx> = Vec::new();
        let mut i: usize = 0;
        while i < self.diffs.len()
            invariant
                i <= self.diffs@.len(),
                out@.len() == i,
                denom.v() == self.count_view() * SCALE as int,
                forall|j: int|
                    0 <= j < i ==> (#[trigger] out@[j]).v() == fx_div(
                        self.diffs@[j].v(),
                        self.count_view() * SCALE as int,
                    ),
            decreases self.diffs@.len() - i,
        {
            out.push(crate::fixed::fx_div_exec(self.diffs[i], denom));
            i = i + 1;
        }
        out
    }

    /// Sum a nonempty sequence of batch results component by component:
    /// errors, gradients and counts all add, nothing is averaged yet.
    pub fn aggregate(results: &Vec<BatchResult>) -> (r: BatchResult)
        requires
            results@.len() > 0,
            forall|k: int|
                0 <= k < results@.len() ==> (#[trigger] results@[k]).diffs_sum_view().len()
                    == results@[0].diffs_sum_view().len(),
            forall|k: int| 0 <= k < results@.len() ==> (#[trigger] results@[k]).wf(),
            agg_count(results@) <= usize::MAX,
        ensures
            r.error_view() == agg_error(results@),
            r.diffs_sum_view() =~= agg_diffs(results@, results@[0].diffs_sum_view().len() as int),
            r.hits_view() == agg_hits(results@),
            r.count_view() == agg_count(results@),
            r.wf(),
    {
        let ghost rs = results@;
        let ghost dlen = results@[0].diffs_sum_view().len() as int;
        let width = results[0].diffs.len();
        let mut error = Fx::zero();
        let mut diffs: Vec<Fx> = Vec::new();
        let mut filled: usize = 0;
        while filled < width
            invariant
                filled <= width,
                diffs@.len() == filled,
                forall|j: int| 0 <= j < filled ==> (#[trigger] diffs@[j]).v() == 0,
            decreases width - filled,
        {
            diffs.push(Fx::zero());
            filled = filled + 1;
        }
        let mut hits: usize = 0;
        let mut batch_size: usize = 0;
        let mut k: usize = 0;
        proof {
            assert(rs.take(0) =~= Seq::<BatchResult>::empty());
            assert(agg_diffs(rs.take(0), dlen) =~= Seq::new(dlen as nat, |i: int| 0int));
        }
        while k < results.len()
            invariant
                k <= rs.len(),
                rs == results@,
                rs.len() > 0,
                dlen == rs[0].diffs_sum_view().len(),
                width as int == dlen,
                forall|m: int|
                    0 <= m < rs.len() ==> (#[trigger] rs[m]).diffs_sum_view().len() == dlen,
                forall|m: int| 0 <= m < rs.len() ==> (#[trigger] rs[m]).wf(),
                agg_count(rs) <= usize::MAX,
                error.v() == agg_error(rs.take(k as int)),
                diffs@.len() == dlen,
                forall|j: int|
                    0 <= j < dlen ==> (#[trigger] diffs@[j]).v() == agg_diffs(
                        rs.take(k as int),
                        dlen,
                    )[j],
                hits as int == agg_hits(rs.take(k as int)),
                batch_size as int == agg_count(rs.take(k as int)),
                hits <= batch_size,
            decreases rs.len() - k,
        {
            proof {
                assert(rs.take(k + 1 as int).drop_last() =~= rs.take(k as int));
                assert(rs.take(k + 1 as int).last() == rs[k as int]);
                lemma_agg_count_prefix_bound(rs, k + 1);
                lemma_agg_hits_nonneg(rs.take(k as int));
                lemma_agg_count_monotone(rs, k + 1);
            }
            let br = &results[k];
            error = crate::fixed::fx_add_exec(error, br.error);
            let mut j: usize = 0;
            while j < width
                invariant
                    j <= width,
                    width as int == dlen,
                    rs == results@,
                    0 <= k < rs.len(),
                    dlen == rs[0].diffs_sum_view().len(),
                    br == &results@[k as int],
                    br.diffs@.len() == dlen,
                    diffs@.len() == dlen,
                    forall|m: int|
                        j <= m < dlen ==> (#[trigger] diffs@[m]).v() == agg_diffs(
                            rs.take(k as int),
                            dlen,
                        )[m],
                    forall|m: int|
                        0 <= m < j ==> (#[trigger] diffs@[m]).v() == fx_add(
                            agg_diffs(rs.take(k as int), dlen)[m],
                            rs[k as int].diffs_sum_view()[m],
                        ),
                decreases width - j,
            {
                let updated = crate::fixed::fx_add_exec(diffs[j], br.diffs[j]);
                diffs.set(j, updated);
                j = j + 1;
            }
            hits = hits + br.hits;
            batch_size = batch_size + br.batch_size;
            k = k + 1;
            proof {
                assert(agg_diffs(rs.take(k as int), dlen) =~= Seq::new(
                    dlen as nat,
                    |i: int|
                        fx_add(
                            agg_diffs(rs.take(k as int).drop_last(), dlen)[i],
                            rs.take(k as int).last().diffs_sum_view()[i],
                        ),
                ));
            }
        }
        proof {
            assert(rs.take(rs.len() as int) =~= rs);
        }
        BatchResult { error, diffs, hits, batch_size }
    }
}

/// A summed raw error never leaves the representable range.
proof fn lemma_agg_error_range(rs: Seq<BatchResult>)
    ensures
        crate::fixed::fx_in_range(agg_error(rs)),
    decreases rs.len(),
{
    if rs.len() > 0 {
        lemma_agg_error_range(rs.drop_last());
    }
}

/// A summed raw gradient entry never leaves the representable range.
proof fn lemma_agg_diffs_range(rs: Seq<BatchResult>, len: int, i: int)
    requires
        0 <= i < len,
        forall|m: int| 0 <= m < rs.len() ==> (#[trigger] rs[m]).diffs_sum_view().len() == len,
    ensures
        crate::fixed::fx_in_range(agg_diffs(rs, len)[i]),
    decreases rs.len(),
{
    if rs.len() > 0 {
        assert forall|m: int|
            0 <= m < rs.drop_last().len() implies (#[trigger] rs.drop_last()[m]).diffs_sum_view().len()
            == len by {
            assert(rs.drop_last()[m] == rs[m]);
        }
        lemma_agg_diffs_range(rs.drop_last(), len, i);
        assert(rs.last().diffs_sum_view().len() == len);
        assert(crate::fixed::fx_in_range(rs.last().diffs_sum_view()[i]));
    }
}

/// Splitting a batch anywhere changes nothing: aggregating the two parts
/// and merging their sums component by component gives exactly what
/// aggregating the whole batch in one piece gives.  Aggregation is built
/// from wrapping sums, which associate, so the reduction can be performed
/// per worker and merged in any grouping.
pub proof fn lemma_batch_aggregation(rs1: Seq<BatchResult>, rs2: Seq<BatchResult>, len: int)
    requires
        0 <= len,
        forall|m: int| 0 <= m < rs1.len() ==> (#[trigger] rs1[m]).diffs_sum_view().len() == len,
        forall|m: int| 0 <= m < rs2.len() ==> (#[trigger] rs2[m]).diffs_sum_view().len() == len,
    ensures
        agg_count(rs1 + rs2) == agg_count(rs1) + agg_count(rs2),
        agg_hits(rs1 + rs2) == agg_hits(rs1) + agg_hits(rs2),
        agg_error(rs1 + rs2) == fx_add(agg_error(rs1), agg_error(rs2)),
        agg_diffs(rs1 + rs2, len) =~= Seq::new(
            len as nat,
            |i: int| fx_add(agg_diffs(rs1, len)[i], agg_diffs(rs2, len)[i]),
        ),
    decreases rs2.len(),
{
    if rs2.len() == 0 {
        assert(rs1 + rs2 =~= rs1);
        lemma_agg_error_range(rs1);
        assert forall|i: int| 0 <= i < len implies fx_add(
            agg_diffs(rs1, len)[i],
            agg_diffs(rs2, len)[i],
        ) == agg_diffs(rs1 + rs2, len)[i] by {
            lemma_agg_diffs_range(rs1, len, i);
            assert(agg_diffs(rs2, len)[i] == 0);
        }
    } else {
        assert forall|m: int|
            0 <= m < rs2.drop_last().len() implies (#[trigger] rs2.drop_last()[m]).diffs_sum_view().len()
            == len by {
            assert(rs2.drop_last()[m] == rs2[m]);
        }
        lemma_batch_aggregation(rs1, rs2.drop_last(), len);
        let whole = rs1 + rs2;
        let shorter = rs1 + rs2.drop_last();
        assert(whole.drop_last() =~= shorter);
        assert(whole.last() == rs2.last());
        lemma_agg_error_range(rs1);
        lemma_agg_error_range(rs2.drop_last());
        crate::fixed::lemma_fx_add_assoc(
            agg_error(rs1),
            agg_error(rs2.drop_last()),
            rs2.last().error_view(),
        );
        assert forall|i: int| 0 <= i < len implies agg_diffs(whole, len)[i] == fx_add(
            agg_diffs(rs1, len)[i],
            agg_diffs(rs2, len)[i],
        ) by {
            lemma_agg_diffs_range(rs1, len, i);
            lemma_agg_diffs_range(rs2.drop_last(), len, i);
            crate::fixed::lemma_fx_add_assoc(
                agg_diffs(rs1, len)[i],
                agg_diffs(rs2.drop_last(), len)[i],
                rs2.last().diffs_sum_view()[i],
            );
        }
    }
}

/// A sequence of single-sample results counts exactly its length.
proof fn lemma_agg_count_units(rs: Seq<BatchResult>)
    requires
        forall|k: int| 0 <= k < rs.len() ==> (#[trigger] rs[k]).count_view() == 1,
    ensures
        agg_count(rs) == rs.len(),
    decreases rs.len(),
{
    if rs.len() > 0 {
        assert forall|k: int|
            0 <= k < rs.drop_last().len() implies (#[trigger] rs.drop_last()[k]).count_view()
            == 1 by {
            assert(rs.drop_last()[k] == rs[k]);
        }
        lemma_agg_count_units(rs.drop_last());
    }
}

/// Summed hit counts are never negative.
proof fn lemma_agg_hits_nonneg(rs: Seq<BatchResult>)
    requires
        forall|m: int| 0 <= m < rs.len() ==> (#[trigger] rs[m]).wf(),
    ensures
        0 <= agg_hits(rs) <= agg_count(rs),
    decreases rs.len(),
{
    if rs.len() > 0 {
        assert(rs.last().wf());
        assert forall|m: int| 0 <= m < rs.drop_last().len() implies (#[trigger] rs.drop_last()[m]).wf() by {
            assert(rs.drop_last()[m] == rs[m]);
        }
        lemma_agg_hits_nonneg(rs.drop_last());
    }
}

/// A prefix never counts more samples than the whole.
proof fn lemma_agg_count_monotone(rs: Seq<BatchResult>, k: int)
    requires
        0 <= k <= rs.len(),
        forall|m: int| 0 <= m < rs.len() ==> (#[trigger] rs[m]).wf(),
    ensures
        agg_count(rs.take(k)) <= agg_count(rs),
        0 <= agg_count(rs.take(k)),
    decreases rs.len() - k,
{
    lemma_agg_count_nonneg(rs.take(k));
    if k < rs.len() {
        lemma_agg_count_monotone(rs, k + 1);
        assert(rs.take(k + 1).drop_last() =~= rs.take(k));
        assert(rs.take(k + 1).last() == rs[k]);
        assert(rs[k].wf());
    } else {
        assert(rs.take(k) =~= rs);
    }
}

/// Summed sample counts are never negative.
proof fn lemma_agg_count_nonneg(rs: Seq<BatchResult>)
    ensures
        0 <= agg_count(rs),
    decreases rs.len(),
{
    if rs.len() > 0 {
        lemma_agg_count_nonneg(rs.drop_last());
        assert(rs.last().count_view() >= 0);
    }
}

/// A prefix's count stays within the whole's bound.
proof fn lemma_agg_count_prefix_bound(rs: Seq<BatchResult>, k: int)
    requires
        0 <= k <= rs.len(),
    ensures
        agg_count(rs.take(k)) + agg_count_rest(rs, k) == agg_count(rs),
    decreases rs.len() - k,
{
    if k == rs.len() {
        assert(rs.take(k) =~= rs);
    } else {
        lemma_agg_count_prefix_bound(rs, k + 1);
        assert(rs.take(k + 1).drop_last() =~= rs.take(k));
        assert(rs.take(k + 1).last() == rs[k]);
    }
}

/// The samples counted by everything at or after position `k`.
pub open spec fn agg_count_rest(rs: Seq<BatchResult>, k: int) -> int
    decreases rs.len() - k,
{
    if k >= rs.len() {
        0
    } else {
        rs[k].count_view() + agg_count_rest(rs, k + 1)
    }
}

} // verus!
