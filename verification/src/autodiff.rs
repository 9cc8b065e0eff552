//! The reverse-mode automatic-differentiation engine: an append-only tape of
//! computation records, and a memoized backward sweep that extracts
//! gradients from it.
//!
//! A record's position in the tape is its identity (its slot).  Every
//! dependency recorded in a slot points strictly below that slot; the
//! backward sweep is correct exactly because of that topological invariant,
//! which `compose` enforces by construction.

use vstd::prelude::*;

use crate::error::MlError;
use crate::fixed::{
    fx_add, fx_add_exec, fx_div_exec, fx_exp_exec, fx_ln_exec, fx_mul, fx_mul_exec, fx_neg_exec,
    fx_powi_exec, fx_sub_exec, Fx, SCALE,
};
use crate::number_factory::{
    handle_ok, DifferentiableNumberFactory, FreshBackend, NumberFactory, NumberLike,
};

verus! {

/// One partial derivative recorded for a composite value: the slot it is
/// taken with respect to, and its coefficient.
#[derive(Clone, Copy, Debug)]
pub struct PartialDiff {
    pub with_respect_to_id: usize,
    pub value: Fx,
}

/// One tape slot: the partial derivatives of the value produced there with
/// respect to the already-existing values it was built from.
#[derive(Clone, Debug)]
pub struct TapeRecord {
    pub partials: Vec<PartialDiff>,
}

/// A scalar produced during a differentiation episode.  A value without a
/// slot is a constant: it is not tracked, never appears as a dependency, and
/// propagates no gradient.  A value with a slot is a variable bound to that
/// record of the tape.
#[derive(Clone, Copy, Debug, PartialEq, Eq, Structural)]
pub struct ADValue {
    pub scalar: Fx,
    pub slot: Option<usize>,
}

impl ADValue {
    /// A constant is a value the tape does not track.
    pub open spec fn spec_is_constant(self) -> bool {
        self.slot is None
    }

    /// Whether the tape does not track this value.
    pub fn is_constant(&self) -> (r: bool)
        ensures
            r == self.spec_is_constant(),
    {
        self.slot.is_none()
    }

    /// Whether this value is bound to a tape slot.
    pub fn is_variable(&self) -> (r: bool)
        ensures
            r == !self.spec_is_constant(),
    {
        self.slot.is_some()
    }

    /// The scalar this value carries.
    pub fn value(&self) -> (r: Fx)
        ensures
            r == self.scalar,
    {
        self.scalar
    }
}

/// Every dependency of the record at slot `i` points strictly below `i`.
pub open spec fn rec_wf(r: TapeRecord, i: int) -> bool {
    forall|k: int|
        0 <= k < r.partials@.len() ==> (#[trigger] r.partials@[k]).with_respect_to_id < i
}

/// The topological invariant of the whole tape.
pub open spec fn tape_wf(t: Seq<TapeRecord>) -> bool {
    forall|i: int| 0 <= i < t.len() ==> rec_wf(#[trigger] t[i], i)
}

/// Accumulate into `acc` the contributions of the given record entries to
/// slot `j`, where `gi` is the gradient already computed for the record the
/// entries belong to; entries are folded in recording order.
pub open spec fn entry_fold(es: Seq<PartialDiff>, j: int, gi: int, acc: int) -> int
    decreases es.len(),
{
    if es.len() == 0 {
        acc
    } else {
        let acc2 = if es[0].with_respect_to_id == j {
            fx_add(acc, fx_mul(es[0].value.v(), gi))
        } else {
            acc
        };
        entry_fold(es.drop_first(), j, gi, acc2)
    }
}

/// The state of the gradient accumulator for slot `j` during the backward
/// sweep that differentiates slot `y`, once every record strictly above `i`
/// has been replayed.  `i == y` is the freshly seeded state; `i == -1` is
/// the final state.
pub open spec fn sweep(t: Seq<TapeRecord>, y: int, j: int, i: int) -> int
    decreases y - i,
{
    if i >= y {
        if j == y {
            SCALE as int
        } else {
            0
        }
    } else {
        entry_fold(t[i + 1].partials@, j, sweep(t, y, i + 1, i + 1), sweep(t, y, j, i + 1))
    }
}

/// The derivative of the value at slot `y` with respect to the value at
/// slot `j`, on the raw fixed-point scale: the accumulator for `j` after the
/// whole tape below `y` has been replayed backwards.
pub open spec fn gradient_value(t: Seq<TapeRecord>, y: int, j: int) -> int {
    sweep(t, y, j, -1)
}

/// The record entries an operation appends for the given operands: the
/// tracked operands in order, each paired with its partial derivative;
/// constants and foreign slots are dropped.
#[verifier::opaque]
pub open spec fn recorded_entries<N: NumberLike>(ps: Seq<(N, Fx)>, len: int) -> Seq<PartialDiff>
    decreases ps.len(),
{
    if ps.len() == 0 {
        Seq::empty()
    } else {
        let rest = recorded_entries(ps.drop_last(), len);
        let p = ps.last();
        if p.0.bound_slot() is Some && 0 <= p.0.bound_slot()->0 < len {
            rest.push(
                PartialDiff { with_respect_to_id: p.0.bound_slot()->0 as usize, value: p.1 },
            )
        } else {
            rest
        }
    }
}

/// Entries built by `recorded_entries` always respect the topological bound.
proof fn lemma_recorded_entries_wf<N: NumberLike>(ps: Seq<(N, Fx)>, len: int)
    requires
        0 <= len <= usize::MAX,
    ensures
        forall|k: int|
            0 <= k < recorded_entries(ps, len).len() ==> (#[trigger] recorded_entries(
                ps,
                len,
            )[k]).with_respect_to_id < len,
    decreases ps.len(),
{
    reveal(recorded_entries);
    if ps.len() > 0 {
        lemma_recorded_entries_wf(ps.drop_last(), len);
        let rest = recorded_entries(ps.drop_last(), len);
        let whole = recorded_entries(ps, len);
        assert forall|k: int| 0 <= k < whole.len() implies (#[trigger] whole[k]).with_respect_to_id
            < len by {
            if k < rest.len() {
                assert(whole[k] == rest[k]);
            }
        }
    }
}

/// The backward sweep for slot `y` only ever reads records up to `y`, so it
/// is unchanged by anything appended above `y`.
proof fn lemma_sweep_prefix(t1: Seq<TapeRecord>, t2: Seq<TapeRecord>, y: int, j: int, i: int)
    requires
        i >= -1,
        y < t1.len(),
        y < t2.len(),
        forall|m: int| 0 <= m <= y ==> t1[m] == t2[m],
    ensures
        sweep(t1, y, j, i) == sweep(t2, y, j, i),
    decreases y - i,
{
    if i < y {
        lemma_sweep_prefix(t1, t2, y, i + 1, i + 1);
        lemma_sweep_prefix(t1, t2, y, j, i + 1);
        assert(t1[i + 1] == t2[i + 1]);
        assert(sweep(t1, y, j, i) == entry_fold(
            t1[i + 1].partials@,
            j,
            sweep(t1, y, i + 1, i + 1),
            sweep(t1, y, j, i + 1),
        ));
    }
}

/// Folding entries that never mention `j` leaves the accumulator unchanged.
proof fn lemma_entry_fold_absent(es: Seq<PartialDiff>, j: int, gi: int, acc: int)
    requires
        forall|k: int| 0 <= k < es.len() ==> (#[trigger] es[k]).with_respect_to_id != j,
    ensures
        entry_fold(es, j, gi, acc) == acc,
    decreases es.len(),
{
    if es.len() > 0 {
        assert(es[0].with_respect_to_id != j);
        assert forall|k: int|
            0 <= k < es.drop_first().len() implies (#[trigger] es.drop_first()[k]).with_respect_to_id
            != j by {
            assert(es.drop_first()[k] == es[k + 1]);
        }
        lemma_entry_fold_absent(es.drop_first(), j, gi, acc);
    }
}

/// Appending one entry to a record folds it in last.
proof fn lemma_entry_fold_push(es: Seq<PartialDiff>, e: PartialDiff, j: int, gi: int, acc: int)
    ensures
        entry_fold(es.push(e), j, gi, acc) == (if e.with_respect_to_id == j {
            fx_add(entry_fold(es, j, gi, acc), fx_mul(e.value.v(), gi))
        } else {
            entry_fold(es, j, gi, acc)
        }),
    decreases es.len(),
{
    let s1 = es.push(e);
    if es.len() == 0 {
        assert(s1[0] == e);
        assert(s1.drop_first() =~= Seq::<PartialDiff>::empty());
        let acc2 = if e.with_respect_to_id == j {
            fx_add(acc, fx_mul(e.value.v(), gi))
        } else {
            acc
        };
        assert(entry_fold(s1, j, gi, acc) == entry_fold(s1.drop_first(), j, gi, acc2));
        assert(entry_fold(s1.drop_first(), j, gi, acc2) == acc2);
    } else {
        assert(s1[0] == es[0]);
        assert(s1.drop_first() =~= es.drop_first().push(e));
        let acc2 = if es[0].with_respect_to_id == j {
            fx_add(acc, fx_mul(es[0].value.v(), gi))
        } else {
            acc
        };
        assert(entry_fold(s1, j, gi, acc) == entry_fold(s1.drop_first(), j, gi, acc2));
        assert(entry_fold(es, j, gi, acc) == entry_fold(es.drop_first(), j, gi, acc2));
        lemma_entry_fold_push(es.drop_first(), e, j, gi, acc2);
    }
}

/// On a topologically sound tape, the accumulator of a slot at or above the
/// differentiated one never moves off its seed: the derivative of a value
/// with respect to itself is one, and with respect to any later value zero.
pub proof fn lemma_sweep_high(t: Seq<TapeRecord>, y: int, j: int, i: int)
    requires
        tape_wf(t),
        -1 <= i,
        0 <= y < t.len(),
        j >= y,
    ensures
        sweep(t, y, j, i) == (if j == y {
            SCALE as int
        } else {
            0
        }),
    decreases y - i,
{
    if i < y {
        lemma_sweep_high(t, y, j, i + 1);
        assert(rec_wf(t[i + 1], i + 1));
        assert forall|k: int|
            0 <= k < t[i + 1].partials@.len() implies (#[trigger] t[i
            + 1].partials@[k]).with_respect_to_id != j by {
            assert(t[i + 1].partials@[k].with_respect_to_id < i + 1);
        }
        lemma_entry_fold_absent(
            t[i + 1].partials@,
            j,
            sweep(t, y, i + 1, i + 1),
            sweep(t, y, j, i + 1),
        );
    }
}

/// Multiplying a scalar by the unit is exact: the spec-level form of
/// `p * 1 == p`.
pub proof fn lemma_fx_mul_one(p: int)
    requires
        crate::fixed::fx_in_range(p),
    ensures
        fx_mul(p, SCALE as int) == p,
{
    let d = SCALE as int;
    if p >= 0 {
        vstd::arithmetic::div_mod::lemma_div_by_multiple(p, d);
        assert(p * d == d * p) by (nonlinear_arith);
        assert(crate::fixed::fx_tdiv(p * d, d) == p);
    } else {
        assert((-p) * d == -(p * d)) by (nonlinear_arith);
        assert(p * d < 0) by (nonlinear_arith)
            requires p < 0, d > 0;
        vstd::arithmetic::div_mod::lemma_div_by_multiple(-p, d);
        assert((-p) * d == d * (-p)) by (nonlinear_arith);
        assert(crate::fixed::fx_tdiv(p * d, d) == p);
    }
}

/// The sweep below `y` leaves slot `x` alone wherever no record between `x`
/// and `y` mentions `x`: the whole gradient is what `y`'s own record
/// contributed.
proof fn lemma_direct_dependency_sweep(t: Seq<TapeRecord>, y: int, x: int, i: int)
    requires
        tape_wf(t),
        0 <= x < y < t.len(),
        -1 <= i <= y - 1,
        forall|m: int, k: int|
            x < m < y && 0 <= k < t[m].partials@.len() ==> (#[trigger] t[m].partials@[k]).with_respect_to_id != x,
    ensures
        sweep(t, y, x, i) == entry_fold(t[y].partials@, x, SCALE as int, 0),
    decreases y - i,
{
    if i == y - 1 {
        lemma_sweep_high(t, y, y, y);
        assert(sweep(t, y, x, y) == 0);
    } else {
        lemma_direct_dependency_sweep(t, y, x, i + 1);
        let m = i + 1;
        assert(rec_wf(t[m], m));
        assert forall|k: int|
            0 <= k < t[m].partials@.len() implies (#[trigger] t[m].partials@[k]).with_respect_to_id
            != x by {
            if m <= x {
                assert(t[m].partials@[k].with_respect_to_id < m);
            }
        }
        lemma_entry_fold_absent(t[m].partials@, x, sweep(t, y, m, m), sweep(t, y, x, m));
    }
}

/// Chain rule at a direct dependency: when slot `x` feeds `y`'s record and
/// no record in between mentions `x`, the derivative of `y` with respect to
/// `x` is exactly the fold of the partials that `y`'s record stores for
/// `x`, seeded with the unit.
pub proof fn lemma_direct_dependency(t: Seq<TapeRecord>, y: int, x: int)
    requires
        tape_wf(t),
        0 <= x < y < t.len(),
        forall|m: int, k: int|
            x < m < y && 0 <= k < t[m].partials@.len() ==> (#[trigger] t[m].partials@[k]).with_respect_to_id != x,
    ensures
        gradient_value(t, y, x) == entry_fold(t[y].partials@, x, SCALE as int, 0),
{
    lemma_direct_dependency_sweep(t, y, x, -1);
}

/// The vivid form of the chain rule's base case: a single recorded partial
/// `p` for `x` in `y`'s record makes the derivative of `y` with respect to
/// `x` exactly `p`.
pub proof fn lemma_recorded_partial(t: Seq<TapeRecord>, y: int, x: int, p: Fx)
    requires
        tape_wf(t),
        0 <= x < y < t.len(),
        forall|m: int, k: int|
            x < m < y && 0 <= k < t[m].partials@.len() ==> (#[trigger] t[m].partials@[k]).with_respect_to_id != x,
        t[y].partials@.len() == 1,
        t[y].partials@[0].with_respect_to_id == x,
        t[y].partials@[0].value == p,
    ensures
        gradient_value(t, y, x) == p.v(),
{
    lemma_direct_dependency(t, y, x);
    let es = t[y].partials@;
    assert(es.drop_first() =~= Seq::<PartialDiff>::empty());
    let acc2 = fx_add(0, fx_mul(p.v(), SCALE as int));
    assert(entry_fold(es, x, SCALE as int, 0) == entry_fold(es.drop_first(), x, SCALE as int, acc2));
    assert(entry_fold(es.drop_first(), x, SCALE as int, acc2) == acc2);
    lemma_fx_mul_one(p.v());
}

/// The memoized gradients of past differentiation calls, keyed by the slot
/// of the differentiated value.  Discarded whenever the tape is reset: a
/// gradient vector indexed by stale slots must never be reused.
pub struct GradientCache {
    entries: Vec<(usize, Vec<Fx>)>,
}

impl GradientCache {
    /// The stored (slot, gradient vector) pairs.
    pub closed spec fn entries_view(self) -> Seq<(usize, Vec<Fx>)> {
        self.entries@
    }

    /// Whether a gradient for slot `s` is memoized.
    pub open spec fn contains_slot(self, s: int) -> bool {
        exists|n: int|
            0 <= n < self.entries_view().len() && (#[trigger] self.entries_view()[n]).0 == s
    }

    /// Every memoized vector is the gradient of its slot over tape `t`.
    pub open spec fn wf_for(self, t: Seq<TapeRecord>) -> bool {
        forall|n: int|
            0 <= n < self.entries_view().len() ==> {
                let e = #[trigger] self.entries_view()[n];
                &&& e.0 < t.len()
                &&& e.1@.len() == e.0 + 1
                &&& forall|j: int|
                    0 <= j <= e.0 ==> (#[trigger] e.1@[j]).v() == gradient_value(t, e.0 as int, j)
            }
    }

    /// An empty cache.
    fn new() -> (r: GradientCache)
        ensures
            r.entries_view() =~= Seq::empty(),
    {
        GradientCache { entries: Vec::new() }
    }

    /// Drop every memoized gradient.
    fn clear(&mut self)
        ensures
            final(self).entries_view() =~= Seq::empty(),
    {
        self.entries.clear();
    }

    /// Look up the memoized gradient of slot `s`, if any.
    fn lookup(&self, s: usize) -> (r: Option<&Vec<Fx>>)
        ensures
            match r {
                Some(g) => exists|n: int|
                    0 <= n < self.entries_view().len() && (#[trigger] self.entries_view()[n]).0
                        == s && self.entries_view()[n].1 == *g,
                None => !self.contains_slot(s as int),
            },
    {
        let mut n: usize = 0;
        while n < self.entries.len()
            invariant
                n <= self.entries.len(),
                forall|m: int| 0 <= m < n ==> (#[trigger] self.entries@[m]).0 != s,
            decreases self.entries.len() - n,
        {
            if self.entries[n].0 == s {
                proof {
                    assert(self.entries_view()[n as int].0 == s);
                }
                return Some(&self.entries[n].1);
            }
            n = n + 1;
        }
        None
    }

    /// Memoize the gradient of slot `s`.
    fn insert(&mut self, s: usize, g: Vec<Fx>)
        ensures
            final(self).entries_view() =~= old(self).entries_view().push((s, g)),
    {
        self.entries.push((s, g));
    }
}

/// The autodiff engine: the tape and the gradient cache of one
/// differentiation episode.
pub struct AutoDiff {
    tape: Vec<TapeRecord>,
    gradients: GradientCache,
}

impl AutoDiff {
    /// The recorded tape.
    pub closed spec fn records(self) -> Seq<TapeRecord> {
        self.tape@
    }

    /// The memoized gradients.
    pub closed spec fn cache(self) -> GradientCache {
        self.gradients
    }

    /// The engine's invariant: the tape is topologically sound and every
    /// memoized vector is a true gradient of the current tape.
    pub open spec fn wf(self) -> bool {
        tape_wf(self.records()) && self.cache().wf_for(self.records())
    }

    /// The topological safety of the tape, stated on its own: every
    /// dependency of the record at slot `i` is strictly smaller than `i`.
    pub proof fn lemma_topological_safety(self)
        requires
            self.wf(),
        ensures
            forall|i: int, k: int|
                0 <= i < self.records().len() && 0 <= k < self.records()[i].partials@.len()
                    ==> (#[trigger] self.records()[i].partials@[k]).with_respect_to_id < i,
    {
        assert forall|i: int, k: int|
            0 <= i < self.records().len() && 0 <= k < self.records()[i].partials@.len() implies (
        #[trigger] self.records()[i].partials@[k]).with_respect_to_id < i by {
            assert(rec_wf(self.records()[i], i));
        }
    }

    /// Memoization is sound: every vector the cache holds is the true
    /// gradient of its slot over the current tape, so a repeated
    /// differentiation answers from the cache with exactly the value the
    /// first computation produced, and touches nothing.
    pub proof fn lemma_memoization(self, n: int)
        requires
            self.wf(),
            0 <= n < self.cache().entries_view().len(),
        ensures
            self.cache().entries_view()[n].0 < self.records().len(),
            self.cache().entries_view()[n].1@.len() == self.cache().entries_view()[n].0 + 1,
            forall|j: int|
                0 <= j <= self.cache().entries_view()[n].0 ==> (#[trigger] self.cache().entries_view()[n].1@[j]).v()
                    == gradient_value(self.records(), self.cache().entries_view()[n].0 as int, j),
    {
    }

    /// A fresh engine: empty tape, empty cache.
    pub fn new() -> (r: AutoDiff)
        ensures
            r.records() =~= Seq::empty(),
            r.cache().entries_view() =~= Seq::empty(),
            r.wf(),
    {
        AutoDiff { tape: Vec::new(), gradients: GradientCache::new() }
    }

    /// How many slots the tape holds.
    pub fn size(&self) -> (r: usize)
        ensures
            r == self.records().len(),
    {
        self.tape.len()
    }

    /// Clear the tape and the cache; called between parameter updates so
    /// that memory stays bounded and no stale slot survives.
    pub fn reset(&mut self)
        ensures
            final(self).records() =~= Seq::empty(),
            final(self).cache().entries_view() =~= Seq::empty(),
            final(self).wf(),
    {
        self.tape.clear();
        self.gradients.clear();
    }

    /// An untracked value: never touches the tape.
    pub fn create_constant(&self, scalar: Fx) -> (r: ADValue)
        ensures
            r.scalar == scalar,
            r.spec_is_constant(),
    {
        ADValue { scalar, slot: None }
    }

    /// A fresh variable: appends an empty record and binds the value to its
    /// slot.
    pub fn create_variable(&mut self, scalar: Fx) -> (r: ADValue)
        requires
            old(self).wf(),
        ensures
            final(self).wf(),
            old(self).records().len() < usize::MAX,
            final(self).records().len() == old(self).records().len() + 1,
            final(self).records() =~= old(self).records().push(
                final(self).records().last(),
            ),
            final(self).records().last().partials@.len() == 0,
            final(self).cache() == old(self).cache(),
            r.scalar == scalar,
            r.slot == Some(old(self).records().len() as usize),
    {
        let empty: Vec<(ADValue, Fx)> = Vec::new();
        let r = self.compose(scalar, &empty);
        proof {
            reveal(recorded_entries);
        }
        r
    }

    /// Append a record carrying the partial derivatives of a composite
    /// value: exactly the variable operands, in order, each with its
    /// coefficient; constant operands are dropped, their gradient being
    /// definitionally zero.  Returns a variable bound to the new slot.
    pub fn compose(&mut self, result: Fx, partials: &Vec<(ADValue, Fx)>) -> (r: ADValue)
        requires
            old(self).wf(),
        ensures
            final(self).wf(),
            old(self).records().len() < usize::MAX,
            final(self).records().len() == old(self).records().len() + 1,
            final(self).records() =~= old(self).records().push(final(self).records().last()),
            final(self).records().last().partials@ =~= recorded_entries(
                partials@,
                old(self).records().len() as int,
            ),
            final(self).cache() == old(self).cache(),
            r.scalar == result,
            r.slot == Some(old(self).records().len() as usize),
    {
        let len = self.tape.len();
        let mut entries: Vec<PartialDiff> = Vec::new();
        proof {
            reveal(recorded_entries);
        }
        let mut k: usize = 0;
        while k < partials.len()
            invariant
                k <= partials@.len(),
                entries@ =~= recorded_entries(partials@.take(k as int), len as int),
            decreases partials@.len() - k,
        {
            proof {
                reveal(recorded_entries);
                assert(partials@.take(k + 1 as int).drop_last() =~= partials@.take(k as int));
                assert(partials@.take(k + 1 as int).last() == partials@[k as int]);
            }
            let (operand, coeff) = partials[k];
            match operand.slot {
                Some(s) => {
                    if s < len {
                        entries.push(PartialDiff { with_respect_to_id: s, value: coeff });
                    }
                },
                None => {},
            }
            k = k + 1;
        }
        proof {
            assert(partials@.take(partials@.len() as int) =~= partials@);
            lemma_recorded_entries_wf(partials@, len as int);
        }
        let rec = TapeRecord { partials: entries };
        self.tape.push(rec);
        let _new_len = self.tape.len();
        proof {
            assert forall|i: int| 0 <= i < self.tape@.len() implies rec_wf(
                #[trigger] self.tape@[i],
                i,
            ) by {
                if i < old(self).tape@.len() {
                    assert(rec_wf(old(self).tape@[i], i));
                }
            }
            assert forall|n: int|
                0 <= n < self.gradients.entries_view().len() implies {
                let e = #[trigger] self.gradients.entries_view()[n];
                &&& e.0 < self.tape@.len()
                &&& e.1@.len() == e.0 + 1
                &&& forall|j: int|
                    0 <= j <= e.0 ==> (#[trigger] e.1@[j]).v() == gradient_value(
                        self.tape@,
                        e.0 as int,
                        j,
                    )
            } by {
                let e = self.gradients.entries_view()[n];
                assert forall|j: int| 0 <= j <= e.0 implies (#[trigger] e.1@[j]).v()
                    == gradient_value(self.tape@, e.0 as int, j) by {
                    lemma_sweep_prefix(old(self).tape@, self.tape@, e.0 as int, j, -1);
                }
            }
        }
        ADValue { scalar: result, slot: Some(len) }
    }

    /// Replay the tape backwards from `y_slot`: seed the accumulator of
    /// `y_slot` with one, then walk the records from `y_slot` down to the
    /// first, adding each recorded partial times the accumulator of its
    /// record to the accumulator of its dependency.  The reverse order is
    /// sound precisely because every dependency sits below its record.
    fn compute_gradient(&self, y_slot: usize) -> (g: Vec<Fx>)
        requires
            tape_wf(self.records()),
            y_slot < self.records().len(),
        ensures
            g@.len() == y_slot + 1,
            forall|j: int|
                0 <= j <= y_slot ==> (#[trigger] g@[j]).v() == gradient_value(
                    self.records(),
                    y_slot as int,
                    j,
                ),
    {
        let ghost t = self.records();
        let ghost y = y_slot as int;
        let total = self.tape.len();
        assert(y_slot < total);
        let n = y_slot + 1;
        let mut dy: Vec<Fx> = Vec::new();
        while dy.len() < n
            invariant
                dy@.len() <= n,
                forall|j: int| 0 <= j < dy@.len() ==> (#[trigger] dy@[j]).v() == 0,
            decreases n - dy.len(),
        {
            dy.push(Fx::zero());
        }
        dy.set(y_slot, Fx::one());
        let mut c: usize = n;
        while c > 0
            invariant
                tape_wf(t),
                t == self.records(),
                y == y_slot,
                y_slot < t.len(),
                n == y_slot + 1,
                c <= n,
                dy@.len() == n,
                forall|j: int| 0 <= j < n ==> (#[trigger] dy@[j]).v() == sweep(t, y, j, c - 1),
            decreases c,
        {
            c = c - 1;
            let ghost gi = sweep(t, y, c as int, c as int);
            let rec_len = self.tape[c].partials.len();
            let mut k: usize = 0;
            while k < rec_len
                invariant
                    tape_wf(t),
                    t == self.records(),
                    y == y_slot,
                    y_slot < t.len(),
                    n == y_slot + 1,
                    c < n,
                    rec_len == t[c as int].partials@.len(),
                    dy@.len() == n,
                    k <= rec_len,
                    gi == sweep(t, y, c as int, c as int),
                    dy@[c as int].v() == gi,
                    forall|j: int|
                        0 <= j < n ==> (#[trigger] dy@[j]).v() == entry_fold(
                            t[c as int].partials@.take(k as int),
                            j,
                            gi,
                            sweep(t, y, j, c as int),
                        ),
                decreases rec_len - k,
            {
                let e = self.tape[c].partials[k];
                proof {
                    assert(rec_wf(t[c as int], c as int));
                    assert(e.with_respect_to_id < c);
                    assert(t[c as int].partials@.take(k as int + 1) =~= t[c as int].partials@.take(
                        k as int,
                    ).push(e));
                }
                let dep = e.with_respect_to_id;
                let weighted = crate::fixed::fx_mul_exec(e.value, dy[c]);
                let updated = crate::fixed::fx_add_exec(dy[dep], weighted);
                dy.set(dep, updated);
                proof {
                    let es = t[c as int].partials@;
                    assert forall|j: int|
                        0 <= j < n implies (#[trigger] dy@[j]).v() == entry_fold(
                        es.take(k as int + 1),
                        j,
                        gi,
                        sweep(t, y, j, c as int),
                    ) by {
                        lemma_entry_fold_push(
                            es.take(k as int),
                            e,
                            j,
                            gi,
                            sweep(t, y, j, c as int),
                        );
                    }
                }
                k = k + 1;
            }
            proof {
                assert(t[c as int].partials@.take(rec_len as int) =~= t[c as int].partials@);
                assert forall|j: int| 0 <= j < n implies (#[trigger] dy@[j]).v() == sweep(
                    t,
                    y,
                    j,
                    c - 1,
                ) by {
                    assert(sweep(t, y, j, c - 1) == entry_fold(
                        t[c as int].partials@,
                        j,
                        sweep(t, y, c as int, c as int),
                        sweep(t, y, j, c as int),
                    ));
                }
            }
        }
        dy
    }

    /// The gradient vector of `y`: every memoized entry is returned as is;
    /// otherwise the tape is replayed once and the result memoized.  Fails
    /// with `InvalidDifferentiation` exactly when `y` is a constant or is
    /// not bound to the current tape.
    pub fn gradient_of(&mut self, y: ADValue) -> (r: Result<Vec<Fx>, MlError>)
        requires
            old(self).wf(),
        ensures
            final(self).wf(),
            final(self).records() == old(self).records(),
            r is Err <==> (y.slot is None || y.slot->0 >= old(self).records().len()),
            match r {
                Ok(g) => {
                    &&& g@.len() == y.slot->0 + 1
                    &&& forall|j: int|
                        0 <= j <= y.slot->0 ==> (#[trigger] g@[j]).v() == gradient_value(
                            old(self).records(),
                            y.slot->0 as int,
                            j,
                        )
                    &&& final(self).cache().contains_slot(y.slot->0 as int)
                    &&& (old(self).cache().contains_slot(y.slot->0 as int) ==> *final(self)
                        == *old(self))
                },
                Err(e) => {
                    &&& e == MlError::InvalidDifferentiation
                    &&& *final(self) == *old(self)
                },
            },
    {
        let s = match y.slot {
            None => {
                return Err(MlError::InvalidDifferentiation);
            },
            Some(s) => s,
        };
        if s >= self.tape.len() {
            return Err(MlError::InvalidDifferentiation);
        }
        match self.gradients.lookup(s) {
            Some(g) => {
                let out = clone_fx_vec(g);
                proof {
                    let ghost c = self.gradients.entries_view();
                    let ghost idx = choose|n: int|
                        0 <= n < c.len() && (#[trigger] c[n]).0 == s && c[n].1 == *g;
                    assert(c[idx].1@.len() == c[idx].0 + 1);
                }
                Ok(out)
            },
            None => {
                let g = self.compute_gradient(s);
                let out = clone_fx_vec(&g);
                self.gradients.insert(s, g);
                proof {
                    let ghost c = self.gradients.entries_view();
                    let ghost oldc = old(self).gradients.entries_view();
                    assert forall|n: int|
                        0 <= n < c.len() implies {
                        let e = #[trigger] c[n];
                        &&& e.0 < self.tape@.len()
                        &&& e.1@.len() == e.0 + 1
                        &&& forall|j: int|
                            0 <= j <= e.0 ==> (#[trigger] e.1@[j]).v() == gradient_value(
                                self.tape@,
                                e.0 as int,
                                j,
                            )
                    } by {
                        if n < oldc.len() {
                            assert(c[n] == oldc[n]);
                        }
                    }
                    assert(c[c.len() - 1].0 == s);
                }
                Ok(out)
            },
        }
    }

    /// The derivative of `y` with respect to `wrt`.  Differentiating with
    /// respect to a constant is always zero and touches nothing; otherwise
    /// the gradient of `y` is consulted, memoizing it on first use, and the
    /// entry at `wrt`'s slot returned (zero for a slot above `y`, which can
    /// never feed it).  Fails with `InvalidDifferentiation` exactly when one
    /// of the two values is tracked by neither the tape nor, for `y`, at
    /// all.
    pub fn diff(&mut self, y: ADValue, wrt: ADValue) -> (r: Result<Fx, MlError>)
        requires
            old(self).wf(),
        ensures
            final(self).wf(),
            final(self).records() == old(self).records(),
            r is Err <==> (!wrt.spec_is_constant() && (y.slot is None || y.slot->0 >= old(
                self,
            ).records().len() || wrt.slot->0 >= old(self).records().len())),
            r is Err ==> r->Err_0 == MlError::InvalidDifferentiation && *final(self) == *old(
                self,
            ),
            wrt.spec_is_constant() ==> r->Ok_0.v() == 0 && *final(self) == *old(self),
            (r is Ok && !wrt.spec_is_constant()) ==> r->Ok_0.v() == gradient_value(
                old(self).records(),
                y.slot->0 as int,
                wrt.slot->0 as int,
            ),
            (!wrt.spec_is_constant() && y.slot is Some && old(self).cache().contains_slot(
                y.slot->0 as int,
            )) ==> *final(self) == *old(self),
    {
        let x = match wrt.slot {
            None => {
                return Ok(Fx::zero());
            },
            Some(x) => x,
        };
        if x >= self.tape.len() {
            return Err(MlError::InvalidDifferentiation);
        }
        let ghost oldself = *self;
        match self.gradient_of(y) {
            Err(e) => Err(e),
            Ok(g) => {
                let s = match y.slot {
                    None => {
                        return Err(MlError::InvalidDifferentiation);
                    },
                    Some(s) => s,
                };
                if x < g.len() {
                    Ok(g[x])
                } else {
                    proof {
                        lemma_sweep_high(oldself.records(), s as int, x as int, -1);
                    }
                    Ok(Fx::zero())
                }
            },
        }
    }
}


impl NumberLike for ADValue {
    open spec fn sval(self) -> int {
        self.scalar.v()
    }

    open spec fn bound_slot(self) -> Option<int> {
        match self.slot {
            Some(s) => Some(s as int),
            None => None,
        }
    }

    fn scalar(&self) -> (r: Fx) {
        self.scalar
    }
}

impl NumberFactory<ADValue> for AutoDiff {
    open spec fn inv(self) -> bool {
        self.wf()
    }

    open spec fn tape_model(self) -> Seq<TapeRecord> {
        self.records()
    }

    open spec fn is_differentiable() -> bool {
        true
    }

    fn constant(&mut self, scalar: Fx) -> (r: ADValue) {
        ADValue { scalar, slot: None }
    }

    fn parameter(&mut self, scalar: Fx) -> (r: ADValue) {
        let v = self.create_variable(scalar);
        proof {
            reveal(recorded_entries);
            reveal(crate::number_factory::appends_record);
            assert(recorded_entries(Seq::<(ADValue, Fx)>::empty(), old(self).records().len() as int)
                =~= Seq::<PartialDiff>::empty());
        }
        v
    }

    fn add(&mut self, a: ADValue, b: ADValue) -> (r: ADValue) {
        let result = fx_add_exec(a.scalar, b.scalar);
        let ps = vec![(a, Fx::one()), (b, Fx::one())];
        proof {
            assert(ps@ =~= seq![
                (a, crate::fixed::fx_of(SCALE as int)),
                (b, crate::fixed::fx_of(SCALE as int)),
            ]);
        }
        let r = AutoDiff::compose(self, result, &ps);
        proof {
            reveal(crate::number_factory::appends_record);
        }
        r
    }

    fn sub(&mut self, a: ADValue, b: ADValue) -> (r: ADValue) {
        let result = fx_sub_exec(a.scalar, b.scalar);
        let minus_one = fx_neg_exec(Fx::one());
        let ps = vec![(a, Fx::one()), (b, minus_one)];
        proof {
            assert(ps@ =~= seq![
                (a, crate::fixed::fx_of(SCALE as int)),
                (b, crate::fixed::fx_of(crate::fixed::fx_neg(SCALE as int))),
            ]);
        }
        let r = AutoDiff::compose(self, result, &ps);
        proof {
            reveal(crate::number_factory::appends_record);
        }
        r
    }

    fn mul(&mut self, a: ADValue, b: ADValue) -> (r: ADValue) {
        let result = fx_mul_exec(a.scalar, b.scalar);
        let ps = vec![(a, b.scalar), (b, a.scalar)];
        proof {
            assert(ps@ =~= seq![
                (a, crate::fixed::fx_of(b.sval())),
                (b, crate::fixed::fx_of(a.sval())),
            ]);
        }
        let r = AutoDiff::compose(self, result, &ps);
        proof {
            reveal(crate::number_factory::appends_record);
        }
        r
    }

    fn div(&mut self, a: ADValue, b: ADValue) -> (r: Result<ADValue, MlError>) {
        if b.scalar.raw() == 0 {
            return Err(MlError::NumericInstability);
        }
        let result = fx_div_exec(a.scalar, b.scalar);
        let wrt_a = fx_div_exec(Fx::one(), b.scalar);
        let neg_a = fx_neg_exec(a.scalar);
        let b_squared = fx_mul_exec(b.scalar, b.scalar);
        let wrt_b = fx_div_exec(neg_a, b_squared);
        let ps = vec![(a, wrt_a), (b, wrt_b)];
        proof {
            assert(ps@ =~= seq![
                (a, crate::fixed::fx_of(crate::fixed::fx_div(SCALE as int, b.sval()))),
                (
                    b,
                    crate::fixed::fx_of(
                        crate::fixed::fx_div(
                            crate::fixed::fx_neg(a.sval()),
                            fx_mul(b.sval(), b.sval()),
                        ),
                    ),
                ),
            ]);
        }
        let r = AutoDiff::compose(self, result, &ps);
        proof {
            reveal(crate::number_factory::appends_record);
        }
        Ok(r)
    }

    fn neg(&mut self, a: ADValue) -> (r: ADValue) {
        let result = fx_neg_exec(a.scalar);
        let minus_one = fx_neg_exec(Fx::one());
        let ps = vec![(a, minus_one)];
        proof {
            assert(ps@ =~= seq![(a, crate::fixed::fx_of(crate::fixed::fx_neg(SCALE as int)))]);
        }
        let r = AutoDiff::compose(self, result, &ps);
        proof {
            reveal(crate::number_factory::appends_record);
        }
        r
    }

    fn exp(&mut self, a: ADValue) -> (r: ADValue) {
        let result = fx_exp_exec(a.scalar);
        let ps = vec![(a, result)];
        proof {
            assert(ps@ =~= seq![(a, crate::fixed::fx_of(crate::fixed::fx_exp(a.sval())))]);
        }
        let r = AutoDiff::compose(self, result, &ps);
        proof {
            reveal(crate::number_factory::appends_record);
        }
        r
    }

    fn ln(&mut self, a: ADValue) -> (r: Result<ADValue, MlError>) {
        if a.scalar.raw() <= 0 {
            return Err(MlError::NumericInstability);
        }
        let result = fx_ln_exec(a.scalar);
        let wrt_a = fx_div_exec(Fx::one(), a.scalar);
        let ps = vec![(a, wrt_a)];
        proof {
            assert(ps@ =~= seq![
                (a, crate::fixed::fx_of(crate::fixed::fx_div(SCALE as int, a.sval()))),
            ]);
        }
        let r = AutoDiff::compose(self, result, &ps);
        proof {
            reveal(crate::number_factory::appends_record);
        }
        Ok(r)
    }

    fn powi(&mut self, a: ADValue, n: i32) -> (r: Result<ADValue, MlError>) {
        let result = if n >= 0 {
            fx_powi_exec(a.scalar, n as u32)
        } else {
            let m: u32 = ((-(n as i64)) as u32);
            let p = fx_powi_exec(a.scalar, m);
            if p.raw() == 0 {
                return Err(MlError::NumericInstability);
            }
            fx_div_exec(Fx::one(), p)
        };
        let scaled = fx_mul_exec(Fx::from_int(n), result);
        let wrt_a = fx_div_exec(scaled, a.scalar);
        let ps = vec![(a, wrt_a)];
        proof {
            assert(ps@ =~= seq![
                (
                    a,
                    crate::fixed::fx_of(
                        crate::fixed::fx_div(
                            fx_mul(n as int * (SCALE as int), result.v()),
                            a.sval(),
                        ),
                    ),
                ),
            ]);
        }
        let r = AutoDiff::compose(self, result, &ps);
        proof {
            reveal(crate::number_factory::appends_record);
        }
        Ok(r)
    }

    fn gradients(&mut self, y: &ADValue, handles: &Vec<ADValue>) -> (r: Option<Vec<Fx>>) {
        let ghost pre = self.records();
        let mut out: Vec<Fx> = Vec::new();
        let mut k: usize = 0;
        while k < handles.len()
            invariant
                self.wf(),
                pre == old(self).records(),
                self.records() == pre,
                k <= handles@.len(),
                out@.len() == k,
                forall|m: int|
                    0 <= m < k ==> (#[trigger] out@[m]).v() == (match handles@[m].bound_slot() {
                        Some(s) => gradient_value(pre, y.bound_slot()->0, s),
                        None => 0int,
                    }),
            decreases handles@.len() - k,
        {
            match AutoDiff::diff(self, *y, handles[k]) {
                Ok(d) => {
                    out.push(d);
                },
                Err(e) => {
                    proof {
                        let h = handles@[k as int];
                        assert(h.bound_slot() is Some);
                        assert(!handle_ok(h, pre.len() as int) || !(y.bound_slot() is Some && 0
                            <= y.bound_slot()->0 < pre.len()));
                    }
                    return None;
                },
            }
            k = k + 1;
        }
        Some(out)
    }
}

impl FreshBackend<ADValue> for AutoDiff {
    fn fresh() -> (r: AutoDiff) {
        AutoDiff::new()
    }
}

impl DifferentiableNumberFactory<ADValue> for AutoDiff {
    fn variable(&mut self, scalar: Fx) -> (r: ADValue) {
        let v = self.create_variable(scalar);
        proof {
            reveal(recorded_entries);
            reveal(crate::number_factory::appends_record);
            assert(recorded_entries(Seq::<(ADValue, Fx)>::empty(), old(self).records().len() as int)
                =~= Seq::<PartialDiff>::empty());
        }
        v
    }

    fn compose(&mut self, result: Fx, partials: &Vec<(ADValue, Fx)>) -> (r: ADValue) {
        let r = AutoDiff::compose(self, result, partials);
        proof {
            reveal(crate::number_factory::appends_record);
        }
        r
    }

    fn diff(&mut self, y: &ADValue, x: &ADValue) -> (r: Result<Fx, MlError>) {
        AutoDiff::diff(self, *y, *x)
    }
}

/// An element-wise copy of a gradient vector.
fn clone_fx_vec(v: &Vec<Fx>) -> (r: Vec<Fx>)
    ensures
        r@ =~= v@,
{
    let mut out: Vec<Fx> = Vec::new();
    let mut i: usize = 0;
    while i < v.len()
        invariant
            i <= v@.len(),
            out@ =~= v@.take(i as int),
        decreases v@.len() - i,
    {
        proof {
            assert(v@.take(i + 1 as int) =~= v@.take(i as int).push(v@[i as int]));
        }
        out.push(v[i]);
        i = i + 1;
    }
    proof {
        assert(v@.take(v@.len() as int) =~= v@);
    }
    out
}

} // verus!
