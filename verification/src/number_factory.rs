//! The numeric-backend protocol: one uniform set of arithmetic operations,
//! implemented by a plain backend that just computes and by a differentiable
//! backend that also records partial derivatives on a tape.  The
//! higher-level operations (activations, layer activations, error
//! functions) are written once against the protocol, so both backends get
//! them without duplication.

use vstd::prelude::*;

use crate::error::MlError;
use crate::autodiff::{gradient_value, recorded_entries, PartialDiff, TapeRecord};
use crate::fixed::{
    fx_add, fx_div, fx_exp, fx_ln, fx_mul, fx_neg, fx_of, fx_powi, fx_sub, Fx, SCALE,
};

verus! {

/// Per-neuron activation functions.
#[derive(Debug, Clone, Copy, PartialEq, Eq, Structural)]
pub enum NeuronActivation {
    Identity,
    ReLu,
    LeakyRelu(Fx),
    Sigmoid,
}

/// Whole-layer activation functions.
#[derive(Debug, Clone, Copy, PartialEq, Eq, Structural)]
pub enum LayerActivation {
    Identity,
    SoftMax,
}

/// Error functions comparing expected and actual output vectors.
#[derive(Debug, Clone, Copy, PartialEq, Eq, Structural)]
pub enum ErrorFunction {
    Zero,
    EuclideanDistanceSquared,
    CategoricalCrossEntropy,
}

/// A scalar-carrying value a backend works on: a plain number for the plain
/// backend, a tape-bound value for the differentiable one.
pub trait NumberLike: Sized + Copy {
    /// The raw fixed-point value this number carries.
    spec fn sval(self) -> int;

    /// The tape slot this number is bound to, if any.
    spec fn bound_slot(self) -> Option<int>;

    /// The scalar this number carries.
    fn scalar(&self) -> (r: Fx)
        ensures
            r.v() == self.sval(),
    ;
}

/// The operation appended exactly one record to the tape: the prefix is
/// untouched, the new record carries exactly the tracked operands with the
/// given coefficients, and the result is bound to the fresh slot.
#[verifier::opaque]
pub open spec fn appends_record<N: NumberLike>(
    pre: Seq<TapeRecord>,
    post: Seq<TapeRecord>,
    ps: Seq<(N, Fx)>,
    r: N,
) -> bool {
    &&& pre.len() < usize::MAX
    &&& post.len() == pre.len() + 1
    &&& forall|i: int| 0 <= i < pre.len() ==> post[i] == pre[i]
    &&& post.last().partials@ =~= recorded_entries(ps, pre.len() as int)
    &&& r.bound_slot() == Some(pre.len() as int)
}

/// The value is either untracked or bound to a live slot of a tape of the
/// given length.
pub open spec fn handle_ok<N: NumberLike>(h: N, len: int) -> bool {
    match h.bound_slot() {
        Some(s) => 0 <= s < len,
        None => true,
    }
}

/// The uniform operation set of a numeric backend.  Every operation states
/// exactly which raw value it produces — so code written against the
/// protocol computes the same scalars on every backend — and, for a
/// differentiable backend, exactly which record it appends to the tape:
/// the analytic partial derivatives of the operation with respect to its
/// operands, evaluated at the operands' scalars.
pub trait NumberFactory<N: NumberLike>: Sized {
    /// The backend's own invariant, threaded through every operation.
    spec fn inv(self) -> bool;

    /// The computation log this backend keeps; the plain backend keeps
    /// none.
    spec fn tape_model(self) -> Seq<TapeRecord>;

    /// Whether this backend records a tape at all.
    spec fn is_differentiable() -> bool;

    /// Wrap a scalar as an untracked constant; never touches the tape.
    fn constant(&mut self, scalar: Fx) -> (r: N)
        requires
            old(self).inv(),
        ensures
            final(self).inv(),
            tape_extended(old(self).tape_model(), final(self).tape_model()),
            r.sval() == scalar.v(),
            r.bound_slot() is None,
            final(self).tape_model() == old(self).tape_model(),
    ;

    /// Wrap a parameter scalar: the plain backend keeps it a constant, the
    /// differentiable one binds it to a fresh empty record so a gradient
    /// can be taken later.
    fn parameter(&mut self, scalar: Fx) -> (r: N)
        requires
            old(self).inv(),
        ensures
            final(self).inv(),
            tape_extended(old(self).tape_model(), final(self).tape_model()),
            r.sval() == scalar.v(),
            Self::is_differentiable() ==> appends_record(
                old(self).tape_model(),
                final(self).tape_model(),
                Seq::<(N, Fx)>::empty(),
                r,
            ),
            !Self::is_differentiable() ==> final(self).tape_model() == old(self).tape_model()
                && r.bound_slot() is None,
    ;

    /// Addition; records partials one and one.
    fn add(&mut self, a: N, b: N) -> (r: N)
        requires
            old(self).inv(),
        ensures
            final(self).inv(),
            tape_extended(old(self).tape_model(), final(self).tape_model()),
            r.sval() == fx_add(a.sval(), b.sval()),
            Self::is_differentiable() ==> appends_record(
                old(self).tape_model(),
                final(self).tape_model(),
                seq![(a, fx_of(SCALE as int)), (b, fx_of(SCALE as int))],
                r,
            ),
            !Self::is_differentiable() ==> final(self).tape_model() == old(self).tape_model()
                && r.bound_slot() is None,
    ;

    /// Subtraction; records partials one and minus one.
    fn sub(&mut self, a: N, b: N) -> (r: N)
        requires
            old(self).inv(),
        ensures
            final(self).inv(),
            tape_extended(old(self).tape_model(), final(self).tape_model()),
            r.sval() == fx_sub(a.sval(), b.sval()),
            Self::is_differentiable() ==> appends_record(
                old(self).tape_model(),
                final(self).tape_model(),
                seq![(a, fx_of(SCALE as int)), (b, fx_of(fx_neg(SCALE as int)))],
                r,
            ),
            !Self::is_differentiable() ==> final(self).tape_model() == old(self).tape_model()
                && r.bound_slot() is None,
    ;

    /// Multiplication; records each operand's partial as the other's
    /// scalar.
    fn mul(&mut self, a: N, b: N) -> (r: N)
        requires
            old(self).inv(),
        ensures
            final(self).inv(),
            tape_extended(old(self).tape_model(), final(self).tape_model()),
            r.sval() == fx_mul(a.sval(), b.sval()),
            Self::is_differentiable() ==> appends_record(
                old(self).tape_model(),
                final(self).tape_model(),
                seq![(a, fx_of(b.sval())), (b, fx_of(a.sval()))],
                r,
            ),
            !Self::is_differentiable() ==> final(self).tape_model() == old(self).tape_model()
                && r.bound_slot() is None,
    ;

    /// Division; detects a zero divisor immediately, and records the
    /// partials one over the divisor and minus the dividend over the
    /// squared divisor.
    fn div(&mut self, a: N, b: N) -> (r: Result<N, MlError>)
        requires
            old(self).inv(),
        ensures
            final(self).inv(),
            tape_extended(old(self).tape_model(), final(self).tape_model()),
            r is Err <==> b.sval() == 0,
            r is Err ==> r->Err_0 == MlError::NumericInstability && final(self).tape_model()
                == old(self).tape_model(),
            r is Ok ==> r->Ok_0.sval() == fx_div(a.sval(), b.sval()),
            (r is Ok && Self::is_differentiable()) ==> appends_record(
                old(self).tape_model(),
                final(self).tape_model(),
                seq![
                    (a, fx_of(fx_div(SCALE as int, b.sval()))),
                    (b, fx_of(fx_div(fx_neg(a.sval()), fx_mul(b.sval(), b.sval())))),
                ],
                r->Ok_0,
            ),
            !Self::is_differentiable() ==> final(self).tape_model() == old(self).tape_model()
                && (r is Ok ==> r->Ok_0.bound_slot() is None),
    ;

    /// Negation; records partial minus one.
    fn neg(&mut self, a: N) -> (r: N)
        requires
            old(self).inv(),
        ensures
            final(self).inv(),
            tape_extended(old(self).tape_model(), final(self).tape_model()),
            r.sval() == fx_neg(a.sval()),
            Self::is_differentiable() ==> appends_record(
                old(self).tape_model(),
                final(self).tape_model(),
                seq![(a, fx_of(fx_neg(SCALE as int)))],
                r,
            ),
            !Self::is_differentiable() ==> final(self).tape_model() == old(self).tape_model()
                && r.bound_slot() is None,
    ;

    /// The exponential; records the result itself as the partial.
    fn exp(&mut self, a: N) -> (r: N)
        requires
            old(self).inv(),
        ensures
            final(self).inv(),
            tape_extended(old(self).tape_model(), final(self).tape_model()),
            r.sval() == fx_exp(a.sval()),
            Self::is_differentiable() ==> appends_record(
                old(self).tape_model(),
                final(self).tape_model(),
                seq![(a, fx_of(fx_exp(a.sval())))],
                r,
            ),
            !Self::is_differentiable() ==> final(self).tape_model() == old(self).tape_model()
                && r.bound_slot() is None,
    ;

    /// The natural logarithm; detects a non-positive argument immediately,
    /// and records the reciprocal as the partial.
    fn ln(&mut self, a: N) -> (r: Result<N, MlError>)
        requires
            old(self).inv(),
        ensures
            final(self).inv(),
            tape_extended(old(self).tape_model(), final(self).tape_model()),
            r is Err <==> a.sval() <= 0,
            r is Err ==> r->Err_0 == MlError::NumericInstability && final(self).tape_model()
                == old(self).tape_model(),
            r is Ok ==> r->Ok_0.sval() == fx_ln(a.sval()),
            (r is Ok && Self::is_differentiable()) ==> appends_record(
                old(self).tape_model(),
                final(self).tape_model(),
                seq![(a, fx_of(fx_div(SCALE as int, a.sval())))],
                r->Ok_0,
            ),
            !Self::is_differentiable() ==> final(self).tape_model() == old(self).tape_model()
                && (r is Ok ==> r->Ok_0.bound_slot() is None),
    ;

    /// The integer power; a negative exponent of a value whose power
    /// underflows to zero is detected immediately.  Records the partial
    /// `n` times the result over the base.
    fn powi(&mut self, a: N, n: i32) -> (r: Result<N, MlError>)
        requires
            old(self).inv(),
        ensures
            final(self).inv(),
            tape_extended(old(self).tape_model(), final(self).tape_model()),
            r is Err <==> (n < 0 && fx_powi(a.sval(), (-(n as int)) as nat) == 0),
            r is Err ==> r->Err_0 == MlError::NumericInstability && final(self).tape_model()
                == old(self).tape_model(),
            (r is Ok && n >= 0) ==> r->Ok_0.sval() == fx_powi(a.sval(), n as nat),
            (r is Ok && n < 0) ==> r->Ok_0.sval() == fx_div(
                SCALE as int,
                fx_powi(a.sval(), (-(n as int)) as nat),
            ),
            (r is Ok && Self::is_differentiable()) ==> appends_record(
                old(self).tape_model(),
                final(self).tape_model(),
                seq![
                    (
                        a,
                        fx_of(
                            fx_div(fx_mul(n as int * (SCALE as int), r->Ok_0.sval()), a.sval()),
                        ),
                    ),
                ],
                r->Ok_0,
            ),
            !Self::is_differentiable() ==> final(self).tape_model() == old(self).tape_model()
                && (r is Ok ==> r->Ok_0.bound_slot() is None),
    ;

    /// The gradient of `y` with respect to each handle.  A differentiable
    /// backend owes the answer whenever `y` is live on its tape and every
    /// handle is either untracked or live: each entry is then the true
    /// reverse-accumulated derivative, zero for untracked handles.  The
    /// plain backend answers nothing.
    fn gradients(&mut self, y: &N, handles: &Vec<N>) -> (r: Option<Vec<Fx>>)
        requires
            old(self).inv(),
        ensures
            final(self).inv(),
            tape_extended(old(self).tape_model(), final(self).tape_model()),
            final(self).tape_model() == old(self).tape_model(),
            r is Some ==> r->0@.len() == handles@.len(),
            !Self::is_differentiable() ==> r is None,
            (Self::is_differentiable() && y.bound_slot() is Some && 0 <= y.bound_slot()->0 < old(
                self,
            ).tape_model().len() && (forall|k: int|
                0 <= k < handles@.len() ==> handle_ok(
                    #[trigger] handles@[k],
                    old(self).tape_model().len() as int,
                ))) ==> (r is Some && forall|k: int|
                0 <= k < handles@.len() ==> (#[trigger] r->0@[k]).v() == (
                match handles@[k].bound_slot() {
                    Some(s) => gradient_value(old(self).tape_model(), y.bound_slot()->0, s),
                    None => 0int,
                })),
    ;
}

/// The capability extension of a backend that can differentiate: code that
/// needs no gradients is written against `NumberFactory` alone and runs
/// unmodified on the plain backend.
pub trait DifferentiableNumberFactory<N: NumberLike>: NumberFactory<N> {
    /// Wrap a scalar as a fresh tracked variable: an empty record is
    /// appended and the value bound to its slot.
    fn variable(&mut self, scalar: Fx) -> (r: N)
        requires
            old(self).inv(),
        ensures
            final(self).inv(),
            tape_extended(old(self).tape_model(), final(self).tape_model()),
            r.sval() == scalar.v(),
            appends_record(
                old(self).tape_model(),
                final(self).tape_model(),
                Seq::<(N, Fx)>::empty(),
                r,
            ),
    ;

    /// Produce a composite value, recording exactly the given partial
    /// derivatives for its tracked operands.
    fn compose(&mut self, result: Fx, partials: &Vec<(N, Fx)>) -> (r: N)
        requires
            old(self).inv(),
        ensures
            final(self).inv(),
            tape_extended(old(self).tape_model(), final(self).tape_model()),
            r.sval() == result.v(),
            appends_record(old(self).tape_model(), final(self).tape_model(), partials@, r),
    ;

    /// The derivative of `y` with respect to `x`: the reverse-accumulated
    /// fold of the tape, zero for an untracked `x`; fails with
    /// `InvalidDifferentiation` exactly when `y` is untracked or either
    /// value lies outside the tape.
    fn diff(&mut self, y: &N, x: &N) -> (r: Result<Fx, MlError>)
        requires
            old(self).inv(),
        ensures
            final(self).inv(),
            tape_extended(old(self).tape_model(), final(self).tape_model()),
            final(self).tape_model() == old(self).tape_model(),
            x.bound_slot() is None ==> (r is Ok && r->Ok_0.v() == 0),
            r is Err <==> (x.bound_slot() is Some && !{
                &&& y.bound_slot() is Some
                &&& 0 <= y.bound_slot()->0 < old(self).tape_model().len()
                &&& 0 <= x.bound_slot()->0 < old(self).tape_model().len()
            }),
            r is Err ==> r->Err_0 == MlError::InvalidDifferentiation,
            (r is Ok && x.bound_slot() is Some) ==> r->Ok_0.v() == gradient_value(
                old(self).tape_model(),
                y.bound_slot()->0,
                x.bound_slot()->0,
            ),
    ;
}

/// A backend that can be conjured fresh for each sample, so every sample's
/// computation is private to its own instance.
pub trait FreshBackend<N: NumberLike>: NumberFactory<N> {
    /// A fresh instance, ready for one sample: an empty log.
    fn fresh() -> (r: Self)
        ensures
            r.inv(),
            r.tape_model() == Seq::<TapeRecord>::empty(),
    ;
}

/// The raw values carried by a sequence of backend numbers.
pub open spec fn svals<N: NumberLike>(s: Seq<N>) -> Seq<int> {
    Seq::new(s.len(), |i: int| s[i].sval())
}

/// What a neuron activation computes, on raw values.
pub open spec fn neuron_activation_value(v: int, a: NeuronActivation) -> int {
    match a {
        NeuronActivation::Identity => v,
        NeuronActivation::ReLu => if v > 0 {
            v
        } else {
            0
        },
        NeuronActivation::LeakyRelu(leak) => if v > 0 {
            v
        } else {
            fx_mul(v, leak.v())
        },
        NeuronActivation::Sigmoid => fx_div(SCALE as int, fx_add(SCALE as int, fx_exp(fx_neg(v)))),
    }
}

/// What a one-operand record holds: the operand's entry when it is
/// tracked and live, nothing otherwise.
pub proof fn lemma_recorded_single<N: NumberLike>(p: (N, Fx), len: int)
    requires
        0 <= len <= usize::MAX,
    ensures
        (p.0.bound_slot() is Some && 0 <= p.0.bound_slot()->0 < len) ==> ({
            let es = recorded_entries(seq![p], len);
            &&& es.len() == 1
            &&& es[0].with_respect_to_id as int == p.0.bound_slot()->0
            &&& es[0].value == p.1
        }),
        !(p.0.bound_slot() is Some && 0 <= p.0.bound_slot()->0 < len) ==> recorded_entries(
            seq![p],
            len,
        ) =~= Seq::<PartialDiff>::empty(),
{
    reveal(recorded_entries);
    let s1 = seq![p];
    assert(s1.drop_last() =~= Seq::<(N, Fx)>::empty());
    assert(recorded_entries(Seq::<(N, Fx)>::empty(), len) =~= Seq::<PartialDiff>::empty());
    assert(s1.last() == p);
}

/// A two-operand record splits into the operands' own entries in order.
pub proof fn lemma_recorded_pair<N: NumberLike>(p: (N, Fx), q: (N, Fx), len: int)
    requires
        0 <= len <= usize::MAX,
    ensures
        recorded_entries(seq![p, q], len) =~= recorded_entries(seq![p], len) + recorded_entries(
            seq![q],
            len,
        ),
{
    reveal(recorded_entries);
    let s2 = seq![p, q];
    assert(s2.drop_last() =~= seq![p]);
    assert(s2.last() == q);
    lemma_recorded_single(p, len);
    lemma_recorded_single(q, len);
}

/// The record holds exactly one entry, pointing at slot `s` with the raw
/// coefficient `c`.
pub open spec fn single_entry(es: Seq<PartialDiff>, s: int, c: int) -> bool {
    &&& es.len() == 1
    &&& es[0].with_respect_to_id as int == s
    &&& es[0].value.v() == c
}

/// The log was only appended to: every old record still stands where it
/// was.
pub open spec fn tape_extended(pre: Seq<TapeRecord>, post: Seq<TapeRecord>) -> bool {
    &&& pre.len() <= post.len()
    &&& forall|i: int| 0 <= i < pre.len() ==> post[i] == pre[i]
}

/// Apply a per-neuron activation through the backend protocol; the
/// differentiable backend records the matching partial derivatives through
/// the primitive operations it is built from: a kept input passes through
/// untouched (derivative one), a cut ReLU branch records a zero partial, a
/// leaky branch records the leak, and the sigmoid records the chain it is
/// composed of.
pub fn activate_neuron<N: NumberLike, F: NumberFactory<N>>(
    nf: &mut F,
    a: &N,
    activation: &NeuronActivation,
) -> (r: N)
    requires
        old(nf).inv(),
    ensures
        final(nf).inv(),
        r.sval() == neuron_activation_value(a.sval(), *activation),
        tape_extended(old(nf).tape_model(), final(nf).tape_model()),
        *activation == NeuronActivation::Identity ==> final(nf).tape_model()
            == old(nf).tape_model() && r == *a,
        (*activation == NeuronActivation::ReLu && a.sval() > 0) ==> final(nf).tape_model()
            == old(nf).tape_model() && r == *a,
        (*activation == NeuronActivation::ReLu && a.sval() <= 0 && F::is_differentiable()) ==> ({
            let pre = old(nf).tape_model();
            let post = final(nf).tape_model();
            &&& post.len() == pre.len() + 1
            &&& post.last().partials@ =~= recorded_entries(
                seq![(*a, fx_of(0))],
                pre.len() as int,
            )
            &&& r.bound_slot() == Some(pre.len() as int)
        }),
        (*activation matches NeuronActivation::LeakyRelu(_) && a.sval() > 0)
            ==> final(nf).tape_model() == old(nf).tape_model() && r == *a,
        *activation matches NeuronActivation::LeakyRelu(leak) ==> ((a.sval() <= 0
            && F::is_differentiable()) ==> ({
            let pre = old(nf).tape_model();
            let post = final(nf).tape_model();
            &&& post.len() == pre.len() + 1
            &&& post.last().partials@ =~= recorded_entries(
                seq![(*a, leak)],
                pre.len() as int,
            )
            &&& r.bound_slot() == Some(pre.len() as int)
        })),
        (*activation == NeuronActivation::Sigmoid && F::is_differentiable()) ==> ({
            let pre = old(nf).tape_model();
            let post = final(nf).tape_model();
            let m = fx_neg(a.sval());
            let den = fx_add(SCALE as int, fx_exp(m));
            &&& post.len() == pre.len() + 4
            &&& post[pre.len() as int].partials@ =~= recorded_entries(
                seq![(*a, fx_of(fx_neg(SCALE as int)))],
                pre.len() as int,
            )
            &&& single_entry(
                post[pre.len() as int + 1].partials@,
                pre.len() as int,
                fx_exp(m),
            )
            &&& single_entry(post[pre.len() as int + 2].partials@, pre.len() as int + 1, SCALE as int)
            &&& single_entry(
                post[pre.len() as int + 3].partials@,
                pre.len() as int + 2,
                fx_div(fx_neg(SCALE as int), fx_mul(den, den)),
            )
            &&& r.bound_slot() == Some(pre.len() as int + 3)
        }),
{
    match activation {
        NeuronActivation::Identity => *a,
        NeuronActivation::ReLu => {
            if a.scalar().is_positive() {
                *a
            } else {
                let z = nf.constant(Fx::zero());
                let r = nf.mul(*a, z);
                proof {
                    reveal(appends_record);
                    if F::is_differentiable() {
                        let len = old(nf).tape_model().len() as int;
                        lemma_recorded_pair((*a, fx_of(z.sval())), (z, fx_of(a.sval())), len);
                        lemma_recorded_single((z, fx_of(a.sval())), len);
                        assert(recorded_entries(seq![(*a, fx_of(z.sval())), (z, fx_of(a.sval()))], len)
                            =~= recorded_entries(seq![(*a, fx_of(0))], len));
                    }
                }
                r
            }
        },
        NeuronActivation::LeakyRelu(leak) => {
            if a.scalar().is_positive() {
                *a
            } else {
                let l = nf.constant(*leak);
                let r = nf.mul(*a, l);
                proof {
                    reveal(appends_record);
                    if F::is_differentiable() {
                        let len = old(nf).tape_model().len() as int;
                        lemma_recorded_pair((*a, fx_of(l.sval())), (l, fx_of(a.sval())), len);
                        lemma_recorded_single((l, fx_of(a.sval())), len);
                        assert(recorded_entries(seq![(*a, fx_of(l.sval())), (l, fx_of(a.sval()))], len)
                            =~= recorded_entries(seq![(*a, *leak)], len));
                    }
                }
                r
            }
        },
        NeuronActivation::Sigmoid => {
            let ghost pre = old(nf).tape_model();
            let minus = nf.neg(*a);
            let e = nf.exp(minus);
            let one = nf.constant(Fx::one());
            let den = nf.add(one, e);
            proof {
                reveal(appends_record);
                crate::fixed::lemma_fx_exp_range(fx_neg(a.sval()));
                assert(den.sval() != 0);
                if F::is_differentiable() {
                    lemma_recorded_single(
                        (minus, fx_of(fx_exp(minus.sval()))),
                        pre.len() as int + 1,
                    );
                    lemma_recorded_pair(
                        (one, fx_of(SCALE as int)),
                        (e, fx_of(SCALE as int)),
                        pre.len() as int + 2,
                    );
                    lemma_recorded_single((one, fx_of(SCALE as int)), pre.len() as int + 2);
                    lemma_recorded_single((e, fx_of(SCALE as int)), pre.len() as int + 2);
                }
            }
            match nf.div(one, den) {
                Ok(r) => {
                    proof {
                        reveal(appends_record);
                        if F::is_differentiable() {
                            lemma_recorded_pair(
                                (one, fx_of(fx_div(SCALE as int, den.sval()))),
                                (
                                    den,
                                    fx_of(
                                        fx_div(
                                            fx_neg(SCALE as int),
                                            fx_mul(den.sval(), den.sval()),
                                        ),
                                    ),
                                ),
                                pre.len() as int + 3,
                            );
                            lemma_recorded_single(
                                (one, fx_of(fx_div(SCALE as int, den.sval()))),
                                pre.len() as int + 3,
                            );
                            lemma_recorded_single(
                                (
                                    den,
                                    fx_of(
                                        fx_div(
                                            fx_neg(SCALE as int),
                                            fx_mul(den.sval(), den.sval()),
                                        ),
                                    ),
                                ),
                                pre.len() as int + 3,
                            );
                        }
                    }
                    r
                },
                Err(_) => {
                    proof {
                        assert(false);
                    }
                    *a
                },
            }
        },
    }
}

/// What the general power computes on raw values: the exponential of the
/// exponent times the base's logarithm.
pub open spec fn pow_value(a: int, b: int) -> int {
    fx_exp(fx_mul(b, fx_ln(a)))
}

/// The general power `a` to the `b`, defined once over the primitives, so
/// the differentiable backend records its partial derivatives through the
/// chain it is built from: the logarithm's reciprocal, the product's two
/// factors, and the exponential itself, each pinned by the primitive it
/// comes from.  Detects a non-positive base immediately.
pub fn pow<N: NumberLike, F: NumberFactory<N>>(nf: &mut F, a: N, b: N) -> (r: Result<N, MlError>)
    requires
        old(nf).inv(),
    ensures
        final(nf).inv(),
        tape_extended(old(nf).tape_model(), final(nf).tape_model()),
        r is Err <==> a.sval() <= 0,
        r is Err ==> r->Err_0 == MlError::NumericInstability && final(nf).tape_model() == old(
            nf,
        ).tape_model(),
        r is Ok ==> r->Ok_0.sval() == pow_value(a.sval(), b.sval()),
        (r is Ok && F::is_differentiable()) ==> r->Ok_0.bound_slot() == Some(
            old(nf).tape_model().len() as int + 2,
        ) && final(nf).tape_model().len() == old(nf).tape_model().len() + 3,
{
    let log = match nf.ln(a) {
        Ok(v) => v,
        Err(e) => {
            return Err(e);
        },
    };
    let scaled = nf.mul(b, log);
    let r = nf.exp(scaled);
    proof {
        reveal(appends_record);
    }
    Ok(r)
}

/// The running sum of shifted exponentials that SoftMax normalizes by,
/// accumulated in input order.
pub open spec fn softmax_sum(xs: Seq<int>, m: int) -> int
    decreases xs.len(),
{
    if xs.len() == 0 {
        0
    } else {
        fx_add(softmax_sum(xs.drop_last(), m), fx_exp(fx_sub(xs.last(), m)))
    }
}

/// The greatest raw value of a nonempty sequence, ties resolved to the
/// earliest occurrence.
pub open spec fn seq_max(xs: Seq<int>) -> int
    decreases xs.len(),
{
    if xs.len() <= 1 {
        xs[0]
    } else if xs.last() > seq_max(xs.drop_last()) {
        xs.last()
    } else {
        seq_max(xs.drop_last())
    }
}

/// What SoftMax produces for each position, given the shift `m` and the
/// normalizer `s`.
pub open spec fn softmax_value(xs: Seq<int>, m: int, s: int) -> Seq<int> {
    Seq::new(xs.len(), |i: int| fx_div(fx_exp(fx_sub(xs[i], m)), s))
}

/// What a layer activation computes, on raw values; `None` when the
/// normalizer degenerates to zero.
pub open spec fn layer_activation_value(xs: Seq<int>, a: LayerActivation) -> Option<Seq<int>> {
    match a {
        LayerActivation::Identity => Some(xs),
        LayerActivation::SoftMax => {
            if xs.len() == 0 {
                Some(xs)
            } else if softmax_sum(xs, seq_max(xs)) == 0 {
                None
            } else {
                Some(softmax_value(xs, seq_max(xs), softmax_sum(xs, seq_max(xs))))
            }
        },
    }
}

/// Apply a whole-layer activation through the backend protocol.  SoftMax
/// first subtracts the greatest input from every element, so that the
/// exponentials of large inputs cannot blow up, then exponentiates, sums
/// and normalizes.  A degenerate zero normalizer is detected immediately.
pub fn activate_layer<N: NumberLike, F: NumberFactory<N>>(
    nf: &mut F,
    a: &Vec<N>,
    activation: &LayerActivation,
) -> (r: Result<Vec<N>, MlError>)
    requires
        old(nf).inv(),
    ensures
        final(nf).inv(),
        tape_extended(old(nf).tape_model(), final(nf).tape_model()),
        r is Err <==> layer_activation_value(svals(a@), *activation) is None,
        r is Err ==> r->Err_0 == MlError::NumericInstability,
        r is Ok ==> svals(r->Ok_0@) =~= layer_activation_value(svals(a@), *activation)->0,
{
    match activation {
        LayerActivation::Identity => {
            let mut out: Vec<N> = Vec::new();
            let mut i: usize = 0;
            while i < a.len()
                invariant
                    i <= a@.len(),
                    out@.len() == i,
                    forall|j: int| 0 <= j < i ==> (#[trigger] out@[j]).sval() == a@[j].sval(),
                decreases a@.len() - i,
            {
                out.push(a[i]);
                i = i + 1;
            }
            Ok(out)
        },
        LayerActivation::SoftMax => {
            if a.len() == 0 {
                let out: Vec<N> = Vec::new();
                return Ok(out);
            }
            let ghost xs = svals(a@);
            let mut max: Fx = a[0].scalar();
            let mut i: usize = 1;
            while i < a.len()
                invariant
                    1 <= i <= a@.len(),
                    a@.len() >= 1,
                    xs == svals(a@),
                    max.v() == seq_max(xs.take(i as int)),
                decreases a@.len() - i,
            {
                proof {
                    assert(xs.take(i + 1 as int).drop_last() =~= xs.take(i as int));
                }
                let s = a[i].scalar();
                if max.lt(s) {
                    max = s;
                }
                i = i + 1;
            }
            proof {
                assert(xs.take(xs.len() as int) =~= xs);
            }
            let maxn = nf.constant(max);
            let mut exps: Vec<N> = Vec::new();
            let mut sum = nf.constant(Fx::zero());
            let mut i: usize = 0;
            while i < a.len()
                invariant
                    old(nf).inv() ==> nf.inv(),
                    nf.inv(),
                    tape_extended(old(nf).tape_model(), nf.tape_model()),
                    i <= a@.len(),
                    xs == svals(a@),
                    maxn.sval() == seq_max(xs),
                    exps@.len() == i,
                    forall|j: int|
                        0 <= j < i ==> (#[trigger] exps@[j]).sval() == fx_exp(
                            fx_sub(xs[j], seq_max(xs)),
                        ),
                    sum.sval() == softmax_sum(xs.take(i as int), seq_max(xs)),
                decreases a@.len() - i,
            {
                proof {
                    assert(xs.take(i + 1 as int).drop_last() =~= xs.take(i as int));
                }
                let shifted = nf.sub(a[i], maxn);
                let e = nf.exp(shifted);
                sum = nf.add(sum, e);
                exps.push(e);
                i = i + 1;
            }
            proof {
                assert(xs.take(xs.len() as int) =~= xs);
            }
            if sum.scalar().raw() == 0 {
                return Err(MlError::NumericInstability);
            }
            let mut out: Vec<N> = Vec::new();
            let mut i: usize = 0;
            while i < exps.len()
                invariant
                    nf.inv(),
                    tape_extended(old(nf).tape_model(), nf.tape_model()),
                    i <= exps@.len(),
                    exps@.len() == xs.len(),
                    xs == svals(a@),
                    sum.sval() == softmax_sum(xs, seq_max(xs)),
                    sum.sval() != 0,
                    forall|j: int|
                        0 <= j < exps@.len() ==> (#[trigger] exps@[j]).sval() == fx_exp(
                            fx_sub(xs[j], seq_max(xs)),
                        ),
                    out@.len() == i,
                    forall|j: int|
                        0 <= j < i ==> (#[trigger] out@[j]).sval() == fx_div(
                            fx_exp(fx_sub(xs[j], seq_max(xs))),
                            softmax_sum(xs, seq_max(xs)),
                        ),
                decreases exps@.len() - i,
            {
                match nf.div(exps[i], sum) {
                    Ok(v) => {
                        out.push(v);
                    },
                    Err(_) => {
                        proof {
                            assert(false);
                        }
                    },
                }
                i = i + 1;
            }
            Ok(out)
        },
    }
}

/// The Euclidean squared distance between expected and actual raw values,
/// accumulated in input order.
pub open spec fn euclidean_error_value(e: Seq<int>, a: Seq<int>) -> int
    decreases e.len(),
{
    if e.len() == 0 {
        0
    } else {
        fx_add(
            euclidean_error_value(e.drop_last(), a.drop_last()),
            fx_powi(fx_sub(e.last(), a.last()), 2),
        )
    }
}

/// The categorical cross entropy between expected and actual raw values,
/// accumulated in input order.
pub open spec fn cross_entropy_value(e: Seq<int>, a: Seq<int>) -> int
    decreases e.len(),
{
    if e.len() == 0 {
        0
    } else {
        fx_sub(
            cross_entropy_value(e.drop_last(), a.drop_last()),
            fx_mul(fx_ln(a.last()), e.last()),
        )
    }
}

/// Compare expected and actual output vectors through the backend
/// protocol.  Rejects vectors of different lengths, then empty vectors;
/// cross entropy also rejects any non-positive actual value, whose
/// logarithm leaves the numeric domain.
pub fn compute_error<N: NumberLike, F: NumberFactory<N>>(
    nf: &mut F,
    expected: &Vec<N>,
    actual: &Vec<N>,
    error_function: &ErrorFunction,
) -> (r: Result<N, MlError>)
    requires
        old(nf).inv(),
    ensures
        final(nf).inv(),
        tape_extended(old(nf).tape_model(), final(nf).tape_model()),
        (F::is_differentiable() && *error_function != ErrorFunction::Zero && r is Ok) ==> (
        r->Ok_0.bound_slot() is Some && 0 <= r->Ok_0.bound_slot()->0
            < final(nf).tape_model().len()),
        *error_function == ErrorFunction::Zero ==> (r is Ok && r->Ok_0.sval() == 0
            && r->Ok_0.bound_slot() is None),
        *error_function != ErrorFunction::Zero && expected@.len() != actual@.len() ==> r
            == Err::<N, MlError>(MlError::LengthMismatch),
        *error_function != ErrorFunction::Zero && expected@.len() == actual@.len()
            && expected@.len() == 0 ==> r == Err::<N, MlError>(MlError::EmptyInput),
        (*error_function == ErrorFunction::EuclideanDistanceSquared && expected@.len()
            == actual@.len() && expected@.len() > 0) ==> (r is Ok && r->Ok_0.sval()
            == euclidean_error_value(svals(expected@), svals(actual@))),
        (*error_function == ErrorFunction::CategoricalCrossEntropy && expected@.len()
            == actual@.len() && expected@.len() > 0) ==> {
            &&& (r is Err <==> exists|j: int|
                0 <= j < actual@.len() && (#[trigger] actual@[j]).sval() <= 0)
            &&& (r is Err ==> r->Err_0 == MlError::NumericInstability)
            &&& (r is Ok ==> r->Ok_0.sval() == cross_entropy_value(
                svals(expected@),
                svals(actual@),
            ))
        },
{
    match error_function {
        ErrorFunction::Zero => Ok(nf.constant(Fx::zero())),
        ErrorFunction::EuclideanDistanceSquared => {
            if expected.len() != actual.len() {
                return Err(MlError::LengthMismatch);
            }
            if expected.len() == 0 {
                return Err(MlError::EmptyInput);
            }
            let ghost es = svals(expected@);
            let ghost gs = svals(actual@);
            let mut sum = nf.constant(Fx::zero());
            let mut i: usize = 0;
            while i < expected.len()
                invariant
                    nf.inv(),
                    tape_extended(old(nf).tape_model(), nf.tape_model()),
                    i <= expected@.len(),
                    expected@.len() == actual@.len(),
                    es == svals(expected@),
                    gs == svals(actual@),
                    sum.sval() == euclidean_error_value(es.take(i as int), gs.take(i as int)),
                    (F::is_differentiable() && i > 0) ==> (sum.bound_slot() is Some && 0
                        <= sum.bound_slot()->0 < nf.tape_model().len()),
                decreases expected@.len() - i,
            {
                proof {
                    assert(es.take(i + 1 as int).drop_last() =~= es.take(i as int));
                    assert(gs.take(i + 1 as int).drop_last() =~= gs.take(i as int));
                }
                proof {
                    reveal(appends_record);
                }
                let d = nf.sub(expected[i], actual[i]);
                let square = match nf.powi(d, 2) {
                    Ok(v) => v,
                    Err(_) => {
                        proof {
                            assert(false);
                        }
                        d
                    },
                };
                sum = nf.add(sum, square);
                i = i + 1;
            }
            proof {
                assert(es.take(es.len() as int) =~= es);
                assert(gs.take(gs.len() as int) =~= gs);
            }
            Ok(sum)
        },
        ErrorFunction::CategoricalCrossEntropy => {
            if expected.len() != actual.len() {
                return Err(MlError::LengthMismatch);
            }
            if expected.len() == 0 {
                return Err(MlError::EmptyInput);
            }
            let ghost es = svals(expected@);
            let ghost gs = svals(actual@);
            let mut sum = nf.constant(Fx::zero());
            let mut i: usize = 0;
            while i < expected.len()
                invariant
                    nf.inv(),
                    tape_extended(old(nf).tape_model(), nf.tape_model()),
                    *error_function == ErrorFunction::CategoricalCrossEntropy,
                    i <= expected@.len(),
                    expected@.len() > 0,
                    expected@.len() == actual@.len(),
                    es == svals(expected@),
                    gs == svals(actual@),
                    forall|j: int| 0 <= j < i ==> (#[trigger] actual@[j]).sval() > 0,
                    sum.sval() == cross_entropy_value(es.take(i as int), gs.take(i as int)),
                    (F::is_differentiable() && i > 0) ==> (sum.bound_slot() is Some && 0
                        <= sum.bound_slot()->0 < nf.tape_model().len()),
                decreases expected@.len() - i,
            {
                proof {
                    assert(es.take(i + 1 as int).drop_last() =~= es.take(i as int));
                    assert(gs.take(i + 1 as int).drop_last() =~= gs.take(i as int));
                }
                proof {
                    reveal(appends_record);
                }
                let log = match nf.ln(actual[i]) {
                    Ok(v) => v,
                    Err(e) => {
                        proof {
                            assert(actual@[i as int].sval() <= 0);
                        }
                        return Err(MlError::NumericInstability);
                    },
                };
                let weighted = nf.mul(log, expected[i]);
                sum = nf.sub(sum, weighted);
                i = i + 1;
            }
            proof {
                assert(es.take(es.len() as int) =~= es);
                assert(gs.take(gs.len() as int) =~= gs);
            }
            Ok(sum)
        },
    }
}

/// The position of the greatest activation, ties resolved to the earliest.
pub fn hottest_index<N: NumberLike, F: NumberFactory<N>>(nf: &F, activations: &Vec<N>) -> (r:
    usize)
    requires
        activations@.len() > 0,
    ensures
        r < activations@.len(),
        forall|k: int|
            0 <= k < activations@.len() ==> (#[trigger] activations@[k]).sval()
                <= activations@[r as int].sval(),
        forall|k: int| 0 <= k < r ==> (#[trigger] activations@[k]).sval()
            < activations@[r as int].sval(),
{
    let mut max_index: usize = 0;
    let mut max_activation: Fx = activations[0].scalar();
    let mut i: usize = 1;
    while i < activations.len()
        invariant
            1 <= i <= activations@.len(),
            max_index < i,
            max_activation.v() == activations@[max_index as int].sval(),
            forall|k: int|
                0 <= k < i ==> (#[trigger] activations@[k]).sval() <= max_activation.v(),
            forall|k: int| 0 <= k < max_index ==> (#[trigger] activations@[k]).sval()
                < max_activation.v(),
        decreases activations@.len() - i,
    {
        let s = activations[i].scalar();
        if max_activation.lt(s) {
            max_index = i;
            max_activation = s;
        }
        i = i + 1;
    }
    max_index
}

} // verus!
