//! The scalar type of the library: an exact fixed-point number.
//!
//! Every numeric quantity of the training stack (activations, weights,
//! partial derivatives, error values, learning rates) is an `Fx`, whose
//! mathematical value is `raw / SCALE`.  All operations are total and have
//! exact contracts: addition and subtraction wrap around the `i64` range,
//! multiplication and division saturate, and the transcendental helpers are
//! coarse base-two approximations on the same scale, each pinned to a spec
//! function.

use vstd::prelude::*;

verus! {

use vstd::arithmetic::power2::pow2;

/// Number of raw units per unit of value: `Fx { raw: SCALE }` is one.
pub const SCALE: i64 = 1_000_000;

/// A fixed-point scalar; the value it stands for is `raw / SCALE`.
#[derive(Clone, Copy, Debug, PartialEq, Eq, Structural)]
pub struct Fx {
    pub raw: i64,
}

/// The whole `i64` range, which every `Fx::v()` inhabits.
pub open spec fn fx_in_range(x: int) -> bool {
    i64::MIN <= x <= i64::MAX
}

/// Wrap an integer no further than one `i64` range away back into it.
pub open spec fn fx_wrap(x: int) -> int {
    if x > i64::MAX {
        x - 0x1_0000_0000_0000_0000
    } else if x < i64::MIN {
        x + 0x1_0000_0000_0000_0000
    } else {
        x
    }
}

/// Clamp an integer into the `i64` range.
pub open spec fn fx_clamp(x: int) -> int {
    if x > i64::MAX {
        i64::MAX as int
    } else if x < i64::MIN {
        i64::MIN as int
    } else {
        x
    }
}

/// Division truncating toward zero (the machine convention), total: zero on a
/// zero divisor.
pub open spec fn fx_tdiv(n: int, d: int) -> int {
    if d == 0 {
        0
    } else {
        let q = (if n >= 0 { n } else { -n }) / (if d >= 0 { d } else { -d });
        if (n < 0) != (d < 0) {
            -q
        } else {
            q
        }
    }
}

/// Raw-level addition: wraps around the `i64` range.
pub open spec fn fx_add(a: int, b: int) -> int {
    fx_wrap(a + b)
}

/// Raw-level subtraction: wraps around the `i64` range.
pub open spec fn fx_sub(a: int, b: int) -> int {
    fx_wrap(a - b)
}

/// Raw-level negation: wraps (only `i64::MIN` wraps to itself).
pub open spec fn fx_neg(a: int) -> int {
    fx_wrap(-a)
}

/// Raw-level multiplication on the fixed-point scale, saturating.
pub open spec fn fx_mul(a: int, b: int) -> int {
    fx_clamp(fx_tdiv(a * b, SCALE as int))
}

/// Raw-level division on the fixed-point scale, saturating; zero on a zero
/// divisor.
pub open spec fn fx_div(a: int, b: int) -> int {
    if b == 0 {
        0
    } else {
        fx_clamp(fx_tdiv(a * (SCALE as int), b))
    }
}

impl Fx {
    /// The raw integer this scalar carries, as a mathematical integer.
    pub open spec fn v(self) -> int {
        self.raw as int
    }

    /// The zero scalar.
    pub fn zero() -> (r: Fx)
        ensures
            r.v() == 0,
    {
        Fx { raw: 0 }
    }

    /// The unit scalar.
    pub fn one() -> (r: Fx)
        ensures
            r.v() == SCALE as int,
    {
        Fx { raw: SCALE }
    }

    /// Build a scalar from its raw representation.
    pub fn from_raw(raw: i64) -> (r: Fx)
        ensures
            r.v() == raw as int,
    {
        Fx { raw }
    }

    /// Build the scalar standing for the integer `n`.
    pub fn from_int(n: i32) -> (r: Fx)
        ensures
            r.v() == n as int * SCALE as int,
    {
        Fx { raw: (n as i64) * SCALE }
    }

    /// The raw representation.
    pub fn raw(self) -> (r: i64)
        ensures
            r as int == self.v(),
    {
        self.raw
    }

    /// Whether this scalar is strictly positive.
    pub fn is_positive(self) -> (r: bool)
        ensures
            r == (self.v() > 0),
    {
        self.raw > 0
    }

    /// Strict order on the represented values.
    pub fn lt(self, other: Fx) -> (r: bool)
        ensures
            r == (self.v() < other.v()),
    {
        self.raw < other.raw
    }
}

/// The scalar carrying the given raw value.
pub open spec fn fx_of(x: int) -> Fx {
    Fx { raw: x as i64 }
}

/// Dividing a nonnegative scalar below the unit by a divisor of at least
/// the unit keeps it nonnegative and no larger.
pub proof fn lemma_fx_div_small(a: int, b: int)
    requires
        0 <= a,
        SCALE as int <= b,
    ensures
        0 <= fx_div(a, b) <= a,
{
    let num = a * (SCALE as int);
    assert(num >= 0) by (nonlinear_arith)
        requires
            num == a * (SCALE as int),
            a >= 0,
    ;
    vstd::arithmetic::div_mod::lemma_div_pos_is_pos(num, b);
    vstd::arithmetic::div_mod::lemma_div_is_ordered_by_denominator(num, SCALE as int, b);
    vstd::arithmetic::div_mod::lemma_div_by_multiple(a, SCALE as int);
    assert(num / (SCALE as int) == a);
}

/// Wrapping addition of two scalars.
pub fn fx_add_exec(a: Fx, b: Fx) -> (r: Fx)
    ensures
        r.v() == fx_add(a.v(), b.v()),
{
    Fx { raw: a.raw.wrapping_add(b.raw) }
}

/// Wrapping subtraction of two scalars.
pub fn fx_sub_exec(a: Fx, b: Fx) -> (r: Fx)
    ensures
        r.v() == fx_sub(a.v(), b.v()),
{
    Fx { raw: a.raw.wrapping_sub(b.raw) }
}

/// Wrapping negation of a scalar.
pub fn fx_neg_exec(a: Fx) -> (r: Fx)
    ensures
        r.v() == fx_neg(a.v()),
{
    Fx { raw: (0i64).wrapping_sub(a.raw) }
}

/// The absolute value of an `i64`, widened so that even `i64::MIN` fits.
fn abs_to_u128(x: i64) -> (r: u128)
    ensures
        r as int == (if x >= 0 { x as int } else { -(x as int) }),
        r <= 0x8000_0000_0000_0000u128,
{
    let w: i128 = x as i128;
    if w < 0 {
        (-w) as u128
    } else {
        w as u128
    }
}

/// Saturating division of a nonnegative product by a positive divisor, with
/// the sign applied afterwards; shared by multiplication and division.
fn signed_clamped_quotient(m: u128, d: u128, neg: bool) -> (r: i64)
    requires
        d > 0,
    ensures
        neg ==> r as int == fx_clamp(-((m as int) / (d as int))),
        !neg ==> r as int == fx_clamp((m as int) / (d as int)),
{
    let q: u128 = m / d;
    if neg {
        if q >= 0x8000_0000_0000_0000u128 {
            i64::MIN
        } else {
            let qi: i64 = q as i64;
            (0i64).wrapping_sub(qi)
        }
    } else {
        if q > i64::MAX as u128 {
            i64::MAX
        } else {
            q as i64
        }
    }
}

/// Saturating fixed-point multiplication of two scalars.
pub fn fx_mul_exec(a: Fx, b: Fx) -> (r: Fx)
    ensures
        r.v() == fx_mul(a.v(), b.v()),
{
    let neg: bool = (a.raw < 0) != (b.raw < 0);
    let am: u128 = abs_to_u128(a.raw);
    let bm: u128 = abs_to_u128(b.raw);
    proof {
        assert(am * bm <= 0x8000_0000_0000_0000u128 * 0x8000_0000_0000_0000u128)
            by (nonlinear_arith)
            requires am <= 0x8000_0000_0000_0000u128, bm <= 0x8000_0000_0000_0000u128;
    }
    let m: u128 = am * bm;
    proof {
        lemma_abs_product(a.v(), b.v());
    }
    let raw = signed_clamped_quotient(m, SCALE as u128, neg);
    Fx { raw }
}

/// Saturating fixed-point division of two scalars; zero on a zero divisor.
pub fn fx_div_exec(a: Fx, b: Fx) -> (r: Fx)
    ensures
        r.v() == fx_div(a.v(), b.v()),
{
    if b.raw == 0 {
        Fx { raw: 0 }
    } else {
        let neg: bool = (a.raw < 0) != (b.raw < 0);
        let am: u128 = abs_to_u128(a.raw);
        let bm: u128 = abs_to_u128(b.raw);
        proof {
            assert(am * (SCALE as u128) <= 0x8000_0000_0000_0000u128 * (SCALE as u128))
                by (nonlinear_arith)
                requires am <= 0x8000_0000_0000_0000u128;
        }
        let m: u128 = am * (SCALE as u128);
        proof {
            lemma_abs_product(a.v(), SCALE as int);
        }
        let raw = signed_clamped_quotient(m, bm, neg);
        proof {
            lemma_signed_quotient_matches(a.v() * (SCALE as int), b.v(), raw as int, neg);
        }
        Fx { raw }
    }
}

/// The absolute value of a product is the product of the absolute values.
proof fn lemma_abs_product(a: int, b: int)
    ensures
        (if a * b >= 0 {
            a * b
        } else {
            -(a * b)
        }) == (if a >= 0 {
            a
        } else {
            -a
        }) * (if b >= 0 {
            b
        } else {
            -b
        }),
        (a < 0) != (b < 0) ==> a * b <= 0,
        (a < 0) == (b < 0) ==> a * b >= 0,
{
    assert((if a * b >= 0 {
        a * b
    } else {
        -(a * b)
    }) == (if a >= 0 {
        a
    } else {
        -a
    }) * (if b >= 0 {
        b
    } else {
        -b
    })) by (nonlinear_arith);
    assert((a < 0) != (b < 0) ==> a * b <= 0) by (nonlinear_arith);
    assert((a < 0) == (b < 0) ==> a * b >= 0) by (nonlinear_arith);
}

/// Relate the absolute-value route taken by the executable division to the
/// truncating division of the signed spec.
proof fn lemma_signed_quotient_matches(n: int, d: int, r: int, neg: bool)
    requires
        d != 0,
        neg == ((n < 0) != (d < 0)) || n == 0,
        neg ==> r == fx_clamp(-((if n >= 0 { n } else { -n }) / (if d >= 0 { d } else { -d }))),
        !neg ==> r == fx_clamp((if n >= 0 { n } else { -n }) / (if d >= 0 { d } else { -d })),
    ensures
        r == fx_clamp(fx_tdiv(n, d)),
{
    if n == 0 {
        assert((if n >= 0 { n } else { -n }) / (if d >= 0 { d } else { -d }) == 0)
            by (nonlinear_arith)
            requires d != 0, n == 0;
    }
}

/// Floor logarithm in base two, zero below two.
pub open spec fn lg2(x: int) -> int
    decreases x,
{
    if x < 2 {
        0
    } else {
        1 + lg2(x / 2)
    }
}

/// The floor logarithm brackets its argument between two powers of two.
proof fn lemma_lg2_brackets(x: int)
    requires
        x >= 1,
    ensures
        0 <= lg2(x),
        pow2(lg2(x) as nat) <= x < pow2((lg2(x) + 1) as nat),
    decreases x,
{
    if x < 2 {
        vstd::arithmetic::power2::lemma2_to64();
        assert(lg2(x) == 0);
        vstd::arithmetic::power2::lemma_pow2_unfold(1);
    } else {
        lemma_lg2_brackets(x / 2);
        vstd::arithmetic::power2::lemma_pow2_unfold((lg2(x) + 1) as nat);
        vstd::arithmetic::power2::lemma_pow2_unfold(lg2(x) as nat);
        vstd::arithmetic::div_mod::lemma_fundamental_div_mod(x, 2);
    }
}

/// A power of two bracketing determines the floor logarithm.
proof fn lemma_lg2_unique(x: int, s: nat)
    requires
        x >= 1,
        pow2(s) <= x < pow2(s + 1),
    ensures
        lg2(x) == s,
{
    lemma_lg2_brackets(x);
    let t = lg2(x) as nat;
    if t < s {
        if t + 1 < s {
            vstd::arithmetic::power2::lemma_pow2_strictly_increases(t + 1, s);
        }
        assert(pow2(t + 1) <= pow2(s));
    }
    if s < t {
        if s + 1 < t {
            vstd::arithmetic::power2::lemma_pow2_strictly_increases(s + 1, t);
        }
        assert(pow2(s + 1) <= pow2(t));
    }
}

/// The base-two split of the exponential argument: `x * log2(e)` in raw
/// units, decomposed as `k` whole bits plus a fraction `f` in `[0, SCALE)`.
pub open spec fn exp_bits(x: int) -> int {
    fx_tdiv(x * 1_442_695, SCALE as int)
}

/// A coarse exponential on the raw scale: `2^(x * log2 e)`, with the
/// fractional bit interpolated linearly, clamped at the `i64` range ends.
pub open spec fn fx_exp(x: int) -> int {
    let y = exp_bits(x);
    let k = y / (SCALE as int);
    let f = y % (SCALE as int);
    if k >= 43 {
        i64::MAX as int
    } else if k <= -21 {
        0
    } else if k >= 0 {
        (SCALE as int + f) * pow2(k as nat)
    } else {
        (SCALE as int + f) / (pow2((-k) as nat) as int)
    }
}

/// A coarse natural logarithm on the raw scale, zero for non-positive input:
/// whole bits weighted by `ln 2`, the remainder interpolated linearly, and
/// the scale's own logarithm subtracted.
pub open spec fn fx_ln(x: int) -> int {
    if x <= 0 {
        0
    } else {
        let s = lg2(x);
        let p = pow2(s as nat) as int;
        s * 693_147 + ((x - p) * (SCALE as int)) / p - 13_815_511
    }
}

/// The integer power of a scalar on the fixed-point scale, multiplied up
/// from the unit in operand order.
pub open spec fn fx_powi(a: int, n: nat) -> int
    decreases n,
{
    if n == 0 {
        SCALE as int
    } else {
        fx_mul(fx_powi(a, (n - 1) as nat), a)
    }
}

/// Split `y` raw units into whole bits and a nonnegative fraction, matching
/// the Euclidean decomposition of the spec.
fn euclid_split(y_neg: bool, y_abs: u128) -> (r: (i64, i64))
    requires
        y_abs <= 0x2000_0000_0000_0000_0000u128,
    ensures
        ({
            let y: int = if y_neg { -(y_abs as int) } else { y_abs as int };
            r.0 as int == y / (SCALE as int) && r.1 as int == y % (SCALE as int)
        }),
{
    let ghost y: int = if y_neg { -(y_abs as int) } else { y_abs as int };
    if !y_neg {
        let k = (y_abs / (SCALE as u128)) as i64;
        let f = (y_abs % (SCALE as u128)) as i64;
        (k, f)
    } else {
        let q = ((y_abs + (SCALE as u128) - 1) / (SCALE as u128)) as i64;
        let f = ((q as u128) * (SCALE as u128) - y_abs) as i64;
        proof {
            let m = y_abs as int;
            let d = SCALE as int;
            vstd::arithmetic::div_mod::lemma_fundamental_div_mod(m + d - 1, d);
            vstd::arithmetic::div_mod::lemma_fundamental_div_mod_converse(
                y, d, -(q as int), (q as int) * d - m);
        }
        ((0i64).wrapping_sub(q), f)
    }
}

/// The coarse exponential, computed by shifting the interpolated mantissa.
pub fn fx_exp_exec(a: Fx) -> (r: Fx)
    ensures
        r.v() == fx_exp(a.v()),
{
    let neg: bool = a.raw < 0;
    let am: u128 = abs_to_u128(a.raw);
    proof {
        assert(am * 1_442_695u128 <= 0x8000_0000_0000_0000u128 * 1_442_695u128)
            by (nonlinear_arith)
            requires am <= 0x8000_0000_0000_0000u128;
    }
    let y_abs: u128 = (am * 1_442_695u128) / (SCALE as u128);
    proof {
        lemma_abs_product(a.v(), 1_442_695);
        assert(a.v() < 0 ==> a.v() * 1_442_695 < 0) by (nonlinear_arith);
        assert(a.v() >= 0 ==> a.v() * 1_442_695 >= 0) by (nonlinear_arith);
        vstd::arithmetic::div_mod::lemma_div_is_ordered(
            (am * 1_442_695u128) as int,
            0x8000_0000_0000_0000u128 * 1_442_695u128 as int,
            SCALE as int,
        );
    }
    let (k, f) = euclid_split(neg, y_abs);
    proof {
        let y: int = if neg { -(y_abs as int) } else { y_abs as int };
        assert(y == exp_bits(a.v()));
    }
    let mantissa: i64 = SCALE + f;
    if k >= 43 {
        Fx { raw: i64::MAX }
    } else if k <= -21 {
        Fx { raw: 0 }
    } else if k >= 0 {
        let mut acc: i64 = mantissa;
        let mut j: i64 = 0;
        proof {
            vstd::arithmetic::power2::lemma2_to64();
        }
        assert(acc as int == mantissa as int * pow2(0));
        while j < k
            invariant
                0 <= j <= k <= 42,
                SCALE <= mantissa < 2 * SCALE,
                acc as int == mantissa as int * pow2(j as nat),
            decreases k - j,
        {
            proof {
                vstd::arithmetic::power2::lemma2_to64();
                vstd::arithmetic::power2::lemma2_to64_rest();
                vstd::arithmetic::power2::lemma_pow2_unfold((j + 1) as nat);
                if j + 1 < 42 {
                    vstd::arithmetic::power2::lemma_pow2_strictly_increases((j + 1) as nat, 42);
                }
                assert(acc as int * 2 == mantissa as int * pow2((j + 1) as nat))
                    by (nonlinear_arith)
                    requires
                        acc as int == mantissa as int * pow2(j as nat),
                        pow2((j + 1) as nat) == 2 * pow2(j as nat),
                ;
                assert(mantissa as int * pow2((j + 1) as nat) <= 2 * (SCALE as int) * 0x40000000000)
                    by (nonlinear_arith)
                    requires
                        pow2((j + 1) as nat) <= 0x40000000000,
                        SCALE <= mantissa < 2 * SCALE,
                ;
            }
            acc = acc * 2;
            j = j + 1;
        }
        Fx { raw: acc }
    } else {
        let shift: i64 = (0i64).wrapping_sub(k);
        let mut acc: i64 = mantissa;
        let mut j: i64 = 0;
        proof {
            vstd::arithmetic::power2::lemma2_to64();
            vstd::arithmetic::div_mod::lemma_div_basics(mantissa as int);
        }
        assert(acc as int == mantissa as int / (pow2(0) as int));
        while j < shift
            invariant
                0 <= j <= shift <= 20,
                SCALE <= mantissa < 2 * SCALE,
                acc as int == mantissa as int / (pow2(j as nat) as int),
                acc >= 0,
            decreases shift - j,
        {
            proof {
                vstd::arithmetic::power2::lemma_pow2_unfold((j + 1) as nat);
                vstd::arithmetic::power2::lemma_pow2_pos(j as nat);
                vstd::arithmetic::div_mod::lemma_div_denominator(
                    mantissa as int, pow2(j as nat) as int, 2);
                vstd::arithmetic::div_mod::lemma_div_pos_is_pos(mantissa as int, pow2(j as nat) as int);
            }
            acc = acc / 2;
            j = j + 1;
        }
        proof {
            assert(shift as int == -((k) as int));
        }
        Fx { raw: acc }
    }
}

/// The coarse logarithm, computed from the bit length of the raw value.
pub fn fx_ln_exec(a: Fx) -> (r: Fx)
    ensures
        r.v() == fx_ln(a.v()),
{
    if a.raw <= 0 {
        Fx { raw: 0 }
    } else {
        let x: u64 = a.raw as u64;
        let mut p: u64 = 1;
        let mut s: u64 = 0;
        proof {
            vstd::arithmetic::power2::lemma2_to64();
        }
        while p <= x / 2
            invariant
                1 <= p <= x,
                x == a.raw,
                a.raw > 0,
                p as int == pow2(s as nat),
                s <= 63,
            decreases x - p,
        {
            proof {
                vstd::arithmetic::power2::lemma_pow2_unfold((s + 1) as nat);
                if s + 1 > 63 {
                    vstd::arithmetic::power2::lemma2_to64_rest();
                    assert(pow2(64) > x);
                }
            }
            p = p * 2;
            s = s + 1;
        }
        proof {
            vstd::arithmetic::div_mod::lemma_fundamental_div_mod(x as int, 2);
            vstd::arithmetic::power2::lemma_pow2_unfold((s + 1) as nat);
            lemma_lg2_unique(a.v(), s as nat);
        }
        let frac: u64 = (((x - p) as u128 * (SCALE as u128)) / (p as u128)) as u64;
        proof {
            let num = (x - p) as int * (SCALE as int);
            vstd::arithmetic::div_mod::lemma_div_pos_is_pos(num, p as int);
            assert(num / (p as int) < SCALE as int) by {
                let pi = p as int;
                assert(num <= pi * (SCALE as int) - SCALE) by (nonlinear_arith)
                    requires (x - p) as int <= pi - 1, SCALE > 0, num == (x - p) as int * (SCALE as int);
                vstd::arithmetic::div_mod::lemma_fundamental_div_mod(num, pi);
                if num / pi >= SCALE as int {
                    assert(pi * (num / pi) >= pi * (SCALE as int)) by (nonlinear_arith)
                        requires num / pi >= SCALE as int, pi > 0;
                }
            };
        }
        let whole: i64 = (s as i64) * 693_147;
        Fx { raw: whole + (frac as i64) - 13_815_511 }
    }
}

/// The integer power of a scalar, multiplied up from the unit.
pub fn fx_powi_exec(a: Fx, n: u32) -> (r: Fx)
    ensures
        r.v() == fx_powi(a.v(), n as nat),
{
    let mut acc = Fx::one();
    let mut j: u32 = 0;
    while j < n
        invariant
            0 <= j <= n,
            acc.v() == fx_powi(a.v(), j as nat),
        decreases n - j,
    {
        acc = fx_mul_exec(acc, a);
        j = j + 1;
    }
    acc
}

/// The coarse exponential never leaves `[0, i64::MAX]`.
pub proof fn lemma_fx_exp_range(x: int)
    ensures
        0 <= fx_exp(x) <= i64::MAX,
{
    let y = exp_bits(x);
    let k = y / (SCALE as int);
    let f = y % (SCALE as int);
    vstd::arithmetic::div_mod::lemma_fundamental_div_mod(y, SCALE as int);
    vstd::arithmetic::div_mod::lemma_mod_bound(y, SCALE as int);
    if k >= 43 {
    } else if k <= -21 {
    } else if k >= 0 {
        vstd::arithmetic::power2::lemma2_to64();
        vstd::arithmetic::power2::lemma2_to64_rest();
        vstd::arithmetic::power2::lemma_pow2_pos(k as nat);
        if k < 42 {
            vstd::arithmetic::power2::lemma_pow2_strictly_increases(k as nat, 42);
        }
        assert((SCALE as int + f) * pow2(k as nat) <= 2 * (SCALE as int) * 0x40000000000)
            by (nonlinear_arith)
            requires
                0 < pow2(k as nat) <= 0x40000000000,
                0 <= f < SCALE as int,
        ;
        assert((SCALE as int + f) * pow2(k as nat) >= 0) by (nonlinear_arith)
            requires
                pow2(k as nat) > 0,
                0 <= f,
        ;
    } else {
        vstd::arithmetic::power2::lemma_pow2_pos((-k) as nat);
        vstd::arithmetic::div_mod::lemma_div_pos_is_pos(SCALE as int + f, pow2((-k) as nat) as int);
        vstd::arithmetic::div_mod::lemma_div_is_ordered_by_denominator(SCALE as int + f, 1, pow2((-k) as nat) as int);
        vstd::arithmetic::div_mod::lemma_div_basics(SCALE as int + f);
    }
}

/// Wrapping addition of in-range values is associative: summing a batch in
/// any grouping gives the same raw result.
pub proof fn lemma_fx_add_assoc(a: int, b: int, c: int)
    requires
        fx_in_range(a),
        fx_in_range(b),
        fx_in_range(c),
    ensures
        fx_add(fx_add(a, b), c) == fx_add(a, fx_add(b, c)),
{
}

} // verus!
