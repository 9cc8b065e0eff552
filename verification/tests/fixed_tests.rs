use ml_rust::{pow, FloatFactory, Fx, MlError, SCALE};
use ml_rust::fixed::{fx_add_exec, fx_div_exec, fx_exp_exec, fx_ln_exec, fx_mul_exec, fx_neg_exec, fx_powi_exec, fx_sub_exec};

#[test]
fn test_fx_basic_arithmetic() {
    let two = Fx::from_int(2);
    let three = Fx::from_int(3);
    assert_eq!(fx_add_exec(two, three), Fx::from_int(5));
    assert_eq!(fx_sub_exec(two, three), Fx::from_int(-1));
    assert_eq!(fx_mul_exec(two, three), Fx::from_int(6));
    assert_eq!(fx_neg_exec(two), Fx::from_int(-2));
}

#[test]
fn test_fx_division_truncates_toward_zero() {
    let one = Fx::one();
    let three = Fx::from_int(3);
    assert_eq!(fx_div_exec(one, three), Fx::from_raw(333_333));
    assert_eq!(fx_div_exec(fx_neg_exec(one), three), Fx::from_raw(-333_333));
    assert_eq!(fx_div_exec(one, Fx::zero()), Fx::zero());
}

#[test]
fn test_fx_multiplication_saturates() {
    let huge = Fx::from_raw(i64::MAX);
    let two = Fx::from_int(2);
    assert_eq!(fx_mul_exec(huge, two), Fx::from_raw(i64::MAX));
    assert_eq!(fx_mul_exec(huge, fx_neg_exec(two)), Fx::from_raw(i64::MIN));
}

#[test]
fn test_fx_unit_is_neutral_for_multiplication() {
    let v = Fx::from_raw(1_234_567);
    assert_eq!(fx_mul_exec(v, Fx::one()), v);
    assert_eq!(fx_div_exec(v, Fx::one()), v);
}

#[test]
fn test_fx_addition_wraps() {
    let max = Fx::from_raw(i64::MAX);
    assert_eq!(fx_add_exec(max, Fx::from_raw(1)), Fx::from_raw(i64::MIN));
}

#[test]
fn test_fx_powi() {
    assert_eq!(fx_powi_exec(Fx::from_int(2), 0), Fx::one());
    assert_eq!(fx_powi_exec(Fx::from_int(2), 10), Fx::from_int(1024));
    assert_eq!(fx_powi_exec(Fx::from_raw(500_000), 2), Fx::from_raw(250_000));
}

#[test]
fn test_fx_exp_at_zero_is_one() {
    assert_eq!(fx_exp_exec(Fx::zero()), Fx::one());
}

#[test]
fn test_fx_exp_is_monotone_on_small_values() {
    let lo = fx_exp_exec(Fx::from_int(-1));
    let mid = fx_exp_exec(Fx::zero());
    let hi = fx_exp_exec(Fx::from_int(1));
    assert!(lo.raw() < mid.raw());
    assert!(mid.raw() < hi.raw());
    assert!(lo.raw() > 0);
}

#[test]
fn test_fx_ln_of_nonpositive_is_zero() {
    assert_eq!(fx_ln_exec(Fx::zero()), Fx::zero());
    assert_eq!(fx_ln_exec(Fx::from_int(-5)), Fx::zero());
}

#[test]
fn test_fx_ln_grows_with_the_argument() {
    let a = fx_ln_exec(Fx::from_int(2));
    let b = fx_ln_exec(Fx::from_int(8));
    assert!(a.raw() < b.raw());
}

#[test]
fn test_pow_of_positive_base() {
    let mut nf = FloatFactory::new();
    let r = pow(&mut nf, Fx::from_int(2), Fx::from_int(2)).unwrap();
    assert!(r.raw() > 0);
    assert_eq!(
        pow(&mut nf, Fx::from_int(-1), Fx::from_int(2)).map(|v| v.raw()),
        Err(MlError::NumericInstability)
    );
}

#[test]
fn test_scale_constant() {
    assert_eq!(SCALE, 1_000_000);
    assert_eq!(Fx::one().raw(), SCALE);
}
