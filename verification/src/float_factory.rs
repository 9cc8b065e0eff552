//! The plain numeric backend: it computes scalar results directly, with no
//! bookkeeping, and answers no gradients.  Inference runs against it.

use vstd::prelude::*;

use crate::error::MlError;
use crate::fixed::{
    fx_add_exec, fx_div_exec, fx_exp_exec, fx_ln_exec, fx_mul_exec, fx_neg_exec, fx_powi_exec,
    fx_sub_exec, Fx,
};
use crate::autodiff::TapeRecord;
use crate::number_factory::{FreshBackend, NumberFactory, NumberLike};

verus! {

/// The plain backend carries no state at all.
pub struct FloatFactory {}

impl FloatFactory {
    /// A plain backend.
    pub fn new() -> (r: FloatFactory)
        ensures
            r.inv(),
    {
        FloatFactory {  }
    }
}

impl NumberLike for Fx {
    open spec fn sval(self) -> int {
        self.v()
    }

    open spec fn bound_slot(self) -> Option<int> {
        None
    }

    fn scalar(&self) -> (r: Fx) {
        *self
    }
}

impl FreshBackend<Fx> for FloatFactory {
    fn fresh() -> (r: FloatFactory) {
        FloatFactory {  }
    }
}

impl NumberFactory<Fx> for FloatFactory {
    open spec fn inv(self) -> bool {
        true
    }

    open spec fn tape_model(self) -> Seq<TapeRecord> {
        Seq::empty()
    }

    open spec fn is_differentiable() -> bool {
        false
    }

    fn constant(&mut self, scalar: Fx) -> (r: Fx) {
        scalar
    }

    fn parameter(&mut self, scalar: Fx) -> (r: Fx) {
        scalar
    }

    fn add(&mut self, a: Fx, b: Fx) -> (r: Fx) {
        fx_add_exec(a, b)
    }

    fn sub(&mut self, a: Fx, b: Fx) -> (r: Fx) {
        fx_sub_exec(a, b)
    }

    fn mul(&mut self, a: Fx, b: Fx) -> (r: Fx) {
        fx_mul_exec(a, b)
    }

    fn div(&mut self, a: Fx, b: Fx) -> (r: Result<Fx, MlError>) {
        if b.raw() == 0 {
            Err(MlError::NumericInstability)
        } else {
            Ok(fx_div_exec(a, b))
        }
    }

    fn neg(&mut self, a: Fx) -> (r: Fx) {
        fx_neg_exec(a)
    }

    fn exp(&mut self, a: Fx) -> (r: Fx) {
        fx_exp_exec(a)
    }

    fn ln(&mut self, a: Fx) -> (r: Result<Fx, MlError>) {
        if a.raw() <= 0 {
            Err(MlError::NumericInstability)
        } else {
            Ok(fx_ln_exec(a))
        }
    }

    fn powi(&mut self, a: Fx, n: i32) -> (r: Result<Fx, MlError>) {
        if n >= 0 {
            Ok(fx_powi_exec(a, n as u32))
        } else {
            let m: u32 = ((-(n as i64)) as u32);
            let p = fx_powi_exec(a, m);
            if p.raw() == 0 {
                Err(MlError::NumericInstability)
            } else {
                Ok(fx_div_exec(Fx::one(), p))
            }
        }
    }

    fn gradients(&mut self, _y: &Fx, _handles: &Vec<Fx>) -> (r: Option<Vec<Fx>>) {
        None
    }
}

} // verus!
