use ml_rust::fixed::{fx_div_exec, fx_exp_exec, fx_mul_exec, fx_neg_exec, fx_sub_exec};
use ml_rust::{
    activate_neuron, AutoDiff, DifferentiableNumberFactory, Fx, MlError, NeuronActivation,
    NumberFactory, NumberLike,
};

#[test]
fn test_add_simple() {
    let mut ad = AutoDiff::new();
    let x = ad.variable(Fx::from_int(1));
    let y = ad.add(x, x);
    let dy_dx = ad.diff(y, x).unwrap();
    assert_eq!(y.scalar(), Fx::from_int(2));
    assert_eq!(dy_dx, Fx::from_int(2));
}

#[test]
fn test_dx2_dx() {
    let mut ad = AutoDiff::new();
    let x = ad.variable(Fx::from_int(2));
    let y = ad.mul(x, x);
    let dy_dx = ad.diff(y, x).unwrap();
    assert_eq!(dy_dx, Fx::from_int(4));
    assert_eq!(y.scalar(), Fx::from_int(4));
}

#[test]
fn test_dx2y_dx_dx2y_dy() {
    let mut ad = AutoDiff::new();
    let x = ad.variable(Fx::from_int(2));
    let y = ad.variable(Fx::from_int(3));
    let xx = ad.mul(x, x);
    let z = ad.mul(xx, y);

    assert_eq!(ad.diff(z, x).unwrap(), Fx::from_int(12));
    assert_eq!(ad.diff(z, y).unwrap(), Fx::from_int(4));
}

#[test]
fn test_sub() {
    let mut ad = AutoDiff::new();
    let x = ad.variable(Fx::from_int(1));
    let y = ad.variable(Fx::from_int(2));
    let z = ad.sub(x, y);
    let dz_dx = ad.diff(z, x).unwrap();
    let dz_dy = ad.diff(z, y).unwrap();

    assert_eq!(dz_dx, Fx::from_int(1));
    assert_eq!(dz_dy, Fx::from_int(-1));
    assert_eq!(z.scalar(), Fx::from_int(-1));
}

#[test]
fn test_mul() {
    let mut ad = AutoDiff::new();
    let x = ad.variable(Fx::from_int(3));
    let y = ad.variable(Fx::from_int(2));
    let z = ad.mul(x, y);
    let dz_dx = ad.diff(z, x).unwrap();
    let dz_dy = ad.diff(z, y).unwrap();

    assert_eq!(dz_dx, Fx::from_int(2));
    assert_eq!(dz_dy, Fx::from_int(3));
    assert_eq!(z.scalar(), Fx::from_int(6));
}

#[test]
fn test_div() {
    let mut ad = AutoDiff::new();
    let x = ad.variable(Fx::from_int(1));
    let y = ad.variable(Fx::from_int(2));
    let z = ad.div(x, y).unwrap();
    let dz_dx = ad.diff(z, x).unwrap();
    let dz_dy = ad.diff(z, y).unwrap();

    assert_eq!(dz_dx, Fx::from_raw(500_000));
    assert_eq!(dz_dy, Fx::from_raw(-250_000));
    assert_eq!(z.scalar(), Fx::from_raw(500_000));
}

#[test]
fn test_constant_has_zero_gradient() {
    let mut ad = AutoDiff::new();
    let x = ad.variable(Fx::from_int(3));
    let c = ad.constant(Fx::from_int(5));
    let y = ad.mul(x, c);
    assert_eq!(ad.diff(y, c).unwrap(), Fx::zero());
    let plain_constant = ad.constant(Fx::from_int(9));
    assert_eq!(ad.diff(y, plain_constant).unwrap(), Fx::zero());
}

#[test]
fn test_diff_of_constant_fails() {
    let mut ad = AutoDiff::new();
    let x = ad.variable(Fx::from_int(3));
    let c = ad.constant(Fx::from_int(5));
    assert_eq!(ad.diff(c, x), Err(MlError::InvalidDifferentiation));
}

#[test]
fn test_memoization_idempotence() {
    let mut ad = AutoDiff::new();
    let x = ad.variable(Fx::from_int(2));
    let y = ad.variable(Fx::from_int(3));
    let z = ad.mul(x, y);
    let first = ad.diff(z, x).unwrap();
    let second = ad.diff(z, x).unwrap();
    assert_eq!(first, second);
    assert_eq!(x.scalar(), Fx::from_int(2));
    assert_eq!(z.scalar(), Fx::from_int(6));
    let cross = ad.diff(z, y).unwrap();
    assert_eq!(cross, Fx::from_int(2));
}

#[test]
fn test_reset_clears_the_tape() {
    let mut ad = AutoDiff::new();
    let x = ad.variable(Fx::from_int(2));
    let y = ad.mul(x, x);
    assert_eq!(ad.diff(y, x).unwrap(), Fx::from_int(4));
    assert_eq!(ad.size(), 2);
    ad.reset();
    assert_eq!(ad.size(), 0);
    assert_eq!(ad.diff(y, x), Err(MlError::InvalidDifferentiation));
}

#[test]
fn test_stale_value_is_rejected() {
    let mut ad = AutoDiff::new();
    let a = ad.variable(Fx::from_int(1));
    let b = ad.variable(Fx::from_int(2));
    let c = ad.add(a, b);
    let mut other = AutoDiff::new();
    let p = other.variable(Fx::from_int(1));
    let q = other.add(p, p);
    assert_eq!(other.diff(q, c), Err(MlError::InvalidDifferentiation));
}

#[test]
fn test_gradient_of_vector() {
    let mut ad = AutoDiff::new();
    let x = ad.variable(Fx::from_int(1));
    let y = ad.variable(Fx::from_int(2));
    let z = ad.add(x, y);
    let g = ad.gradient_of(z).unwrap();
    assert_eq!(g.len(), 3);
    assert_eq!(g[0], Fx::from_int(1));
    assert_eq!(g[1], Fx::from_int(1));
    assert_eq!(g[2], Fx::from_int(1));
}

#[test]
fn test_division_by_zero_is_detected() {
    let mut ad = AutoDiff::new();
    let x = ad.variable(Fx::from_int(1));
    let zero = ad.variable(Fx::zero());
    assert_eq!(ad.div(x, zero).map(|v| v.scalar()), Err(MlError::NumericInstability));
}

#[test]
fn test_ln_of_nonpositive_is_detected() {
    let mut ad = AutoDiff::new();
    let x = ad.variable(Fx::from_int(-1));
    assert_eq!(ad.ln(x).map(|v| v.scalar()), Err(MlError::NumericInstability));
}

#[test]
fn test_exp() {
    let mut ad = AutoDiff::new();
    let x = ad.variable(Fx::one());
    let y = ad.exp(x);
    let dy_dx = ad.diff(y, x).unwrap();
    assert_eq!(y.scalar(), fx_exp_exec(Fx::one()));
    assert_eq!(dy_dx, fx_exp_exec(Fx::one()));
}

#[test]
fn test_much_more_complex_diff() {
    let mut ad = AutoDiff::new();
    let x = ad.variable(Fx::from_int(3));
    let y = ad.variable(Fx::from_int(4));
    let exp_x = ad.exp(x);
    let exp_x_minus_y = ad.sub(exp_x, y);
    let o = ad.div(y, exp_x_minus_y).unwrap();

    // The same partials, recomputed by hand in the same arithmetic.
    let e3 = fx_exp_exec(Fx::from_int(3));
    let t = fx_sub_exec(e3, Fx::from_int(4));
    let wrt_y_direct = fx_div_exec(Fx::one(), t);
    let wrt_t = fx_div_exec(fx_neg_exec(Fx::from_int(4)), fx_mul_exec(t, t));
    let do_dx = fx_mul_exec(e3, wrt_t);
    let do_dy = fx_sub_exec(wrt_y_direct, wrt_t);

    assert_eq!(ad.diff(o, x).unwrap(), do_dx);
    assert_eq!(ad.diff(o, y).unwrap(), do_dy);
}

#[test]
fn test_relu() {
    let mut ad = AutoDiff::new();
    let x = ad.variable(Fx::from_int(4));
    let y = activate_neuron(&mut ad, &x, &NeuronActivation::ReLu);
    assert_eq!(y.scalar(), Fx::from_int(4));
    assert_eq!(ad.diff(y, x).unwrap(), Fx::from_int(1));
    let neg = ad.variable(Fx::from_int(-4));
    let z = activate_neuron(&mut ad, &neg, &NeuronActivation::ReLu);
    assert_eq!(z.scalar(), Fx::zero());
    assert_eq!(ad.diff(z, neg).unwrap(), Fx::zero());
}

#[test]
fn test_leaky_relu() {
    let mut ad = AutoDiff::new();
    let x = ad.variable(Fx::from_int(-4));
    let y = activate_neuron(&mut ad, &x, &NeuronActivation::LeakyRelu(Fx::from_raw(100_000)));
    assert_eq!(y.scalar(), Fx::from_raw(-400_000));
    assert_eq!(ad.diff(y, x).unwrap(), Fx::from_raw(100_000));
}
