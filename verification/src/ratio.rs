//! Exact rational scalars.
//!
//! Every coordinate, scale and rate in this crate is a fraction
//! `num / den` of two `i64` values with `den >= 1`.  Arithmetic is exact:
//! an operation returns the exact result reduced by the greatest common
//! divisor of its components, or reports by `None` that even the reduced
//! components do not fit in an `i64`.  All intermediate products are
//! computed in `i128`, where they always fit.  Reduction keeps
//! denominators on the scale of the inputs, so long sequences of camera
//! operations keep taking effect instead of saturating.

use vstd::prelude::*;

verus! {

/// A rational number `num / den`.
#[derive(Clone, Copy, PartialEq, Eq, Structural, Debug)]
pub struct Ratio {
    pub num: i64,
    pub den: i64,
}

impl Ratio {
    /// Well-formed: positive denominator, and the numerator stays clear of
    /// `i64::MIN` so that negation never overflows.
    pub open spec fn wf(self) -> bool {
        1 <= self.den && -0x7fff_ffff_ffff_ffffi64 <= self.num
    }

    /// Strictly positive as a rational.
    pub open spec fn is_pos(self) -> bool {
        self.num >= 1
    }

    pub fn new(num: i64, den: i64) -> (r: Ratio)
        requires
            1 <= den,
            -0x7fff_ffff_ffff_ffffi64 <= num,
        ensures
            r == (Ratio { num, den }),
            r.wf(),
    {
        Ratio { num, den }
    }

    pub fn from_int(v: i64) -> (r: Ratio)
        requires
            -0x7fff_ffff_ffff_ffffi64 <= v,
        ensures
            r == (Ratio { num: v, den: 1i64 }),
            r.wf(),
    {
        Ratio { num: v, den: 1 }
    }

    pub fn zero() -> (r: Ratio)
        ensures
            r == (Ratio { num: 0i64, den: 1i64 }),
            r.wf(),
    {
        Ratio { num: 0, den: 1 }
    }

    pub fn neg(self) -> (r: Ratio)
        requires
            self.wf(),
        ensures
            r.num == -self.num,
            r.den == self.den,
            r.wf(),
    {
        Ratio { num: -self.num, den: self.den }
    }
}

/// Numerator of the exact sum `a + b` over the common denominator
/// `a.den * b.den`.
pub open spec fn sum_n(a: Ratio, b: Ratio) -> int {
    a.num * b.den + b.num * a.den
}

/// Denominator of the exact sum, product and difference.
pub open spec fn sum_d(a: Ratio, b: Ratio) -> int {
    a.den * b.den
}

/// Numerator of the exact difference `a - b`.
pub open spec fn diff_n(a: Ratio, b: Ratio) -> int {
    a.num * b.den - b.num * a.den
}

/// Numerator of the exact product `a * b`.
pub open spec fn prod_n(a: Ratio, b: Ratio) -> int {
    a.num * b.num
}

/// Numerator of the exact quotient `a / b`, sign-adjusted so that the
/// denominator stays positive.
pub open spec fn quot_n(a: Ratio, b: Ratio) -> int {
    if b.num >= 0 {
        a.num * b.den
    } else {
        -(a.num * b.den)
    }
}

/// Denominator of the exact quotient `a / b`.
pub open spec fn quot_d(a: Ratio, b: Ratio) -> int {
    if b.num >= 0 {
        a.den * b.num
    } else {
        a.den * -b.num
    }
}

/// `d` divides `x`: some multiple of `d` equals `x`.
pub open spec fn divides(d: int, x: int) -> bool {
    exists|k: int| x == #[trigger] (d * k)
}

/// Magnitude of an integer, as a natural number.
pub open spec fn abs_n(n: int) -> nat {
    if n < 0 {
        (-n) as nat
    } else {
        n as nat
    }
}

/// Greatest common divisor, by Euclid's recursion.
pub open spec fn gcd(a: nat, b: nat) -> nat
    decreases b,
{
    if b == 0 {
        a
    } else {
        gcd(b, a % b)
    }
}

/// `gcd(a, b)` divides both arguments and is positive when `b` is.
#[verifier::spinoff_prover]
pub proof fn lemma_gcd_divides(a: nat, b: nat)
    ensures
        divides(gcd(a, b) as int, a as int),
        divides(gcd(a, b) as int, b as int),
        b >= 1 ==> gcd(a, b) >= 1,
    decreases b,
{
    if b == 0 {
        assert(a == gcd(a, b) * 1);
        assert(b == gcd(a, b) * 0);
    } else {
        lemma_gcd_divides(b, a % b);
        let g = gcd(a, b) as int;
        let kb = choose|k: int| b == #[trigger] (g * k);
        let kr = choose|k: int| (a % b) as int == #[trigger] (g * k);
        assert(a == b * (a as int / b as int) + a % b) by {
            vstd::arithmetic::div_mod::lemma_fundamental_div_mod(a as int, b as int);
        }
        assert(a == g * (kb * (a as int / b as int) + kr)) by (nonlinear_arith)
            requires
                a == b * (a as int / b as int) + a % b,
                b == g * kb,
                (a % b) as int == g * kr,
        ;
        if gcd(a, b) == 0 {
            assert(b == 0 * kb);
        }
    }
}

/// A positive divisor of a positive number is at most that number, and
/// the exact quotient is positive.
#[verifier::spinoff_prover]
proof fn lemma_divisor_bounds(g: nat, d: nat)
    requires
        1 <= g,
        1 <= d,
        divides(g as int, d as int),
    ensures
        g <= d,
        1 <= d / g,
        (d / g) * g == d,
{
    let k = choose|k: int| d as int == #[trigger] (g * k);
    assert(k >= 1) by (nonlinear_arith)
        requires
            d as int == g * k,
            g >= 1,
            d >= 1,
    ;
    assert(g * k >= g * 1) by (nonlinear_arith)
        requires
            k >= 1,
            g >= 1,
    ;
    assert(d as int / g as int == k) by {
        vstd::arithmetic::div_mod::lemma_fundamental_div_mod(d as int, g as int);
        assert(d as int == g as int * k + 0);
        vstd::arithmetic::div_mod::lemma_fundamental_div_mod_converse(
            d as int,
            g as int,
            k,
            0,
        );
    }
    assert((d / g) * g == d) by (nonlinear_arith)
        requires
            d as int / g as int == k,
            d as int == g * k,
            g >= 1,
            d / g == d as int / g as int,
    ;
}

/// Exact division of a dividend by a divisor that divides it.
#[verifier::spinoff_prover]
proof fn lemma_exact_div(g: nat, x: nat)
    requires
        1 <= g,
        divides(g as int, x as int),
    ensures
        (x / g) * g == x,
{
    if x == 0 {
        assert(0int / g as int == 0) by {
            vstd::arithmetic::div_mod::lemma_fundamental_div_mod_converse(0, g as int, 0, 0);
        }
    } else {
        lemma_divisor_bounds(g, x);
    }
}

/// The reduced form of the exact fraction `n / d`: both components divided
/// by their greatest common divisor, or `None` when even the reduced
/// numerator or denominator does not fit in an `i64`.
pub open spec fn spec_norm(n: int, d: int) -> Option<Ratio> {
    if d < 1 {
        None
    } else {
        let g = gcd(abs_n(n), d as nat);
        let un = abs_n(n) / g;
        let dn = d as nat / g;
        if un <= 0x7fff_ffff_ffff_ffff && 1 <= dn <= 0x7fff_ffff_ffff_ffff {
            Some(
                Ratio {
                    num: if n < 0 {
                        (-(un as int)) as i64
                    } else {
                        un as i64
                    },
                    den: dn as i64,
                },
            )
        } else {
            None
        }
    }
}

/// A reduced result keeps the value of the exact fraction: it cross-
/// multiplies equal, is well-formed, and keeps the numerator's sign.
#[verifier::spinoff_prover]
pub proof fn lemma_norm_frac(n: int, d: int, r: Ratio)
    requires
        1 <= d,
        spec_norm(n, d) == Some(r),
    ensures
        r.wf(),
        r.num * d == n * r.den,
        n >= 1 ==> r.num >= 1,
        n == 0 ==> r.num == 0,
        n < 0 ==> r.num < 0,
{
    let g = gcd(abs_n(n), d as nat);
    lemma_gcd_divides(abs_n(n), d as nat);
    let un = abs_n(n) / g;
    let dn = d as nat / g;
    lemma_divisor_bounds(g, d as nat);
    lemma_exact_div(g, abs_n(n));
    assert(un * g == abs_n(n));
    assert(dn * g == d);
    if n >= 0 {
        assert(r.num == un && r.den == dn);
        assert(un as int * d == n * dn as int) by (nonlinear_arith)
            requires
                un * g == n,
                dn * g == d,
                g >= 1,
        ;
        if n >= 1 {
            assert(un >= 1) by (nonlinear_arith)
                requires
                    un * g == n,
                    n >= 1,
                    g >= 1,
            ;
        }
    } else {
        assert(r.num == -(un as int) && r.den == dn);
        assert(un * g == -n);
        assert((-(un as int)) * d == n * dn as int) by (nonlinear_arith)
            requires
                un * g == -n,
                dn * g == d,
                g >= 1,
        ;
        assert(un >= 1) by (nonlinear_arith)
            requires
                un * g == -n,
                n < 0,
                g >= 1,
        ;
    }
}

/// Exact checked addition at the specification level: the reduced sum.
pub open spec fn spec_add(a: Ratio, b: Ratio) -> Option<Ratio> {
    spec_norm(sum_n(a, b), sum_d(a, b))
}

/// Exact checked subtraction: the reduced difference.
pub open spec fn spec_sub(a: Ratio, b: Ratio) -> Option<Ratio> {
    spec_norm(diff_n(a, b), sum_d(a, b))
}

/// Exact checked multiplication: the reduced product.
pub open spec fn spec_mul(a: Ratio, b: Ratio) -> Option<Ratio> {
    spec_norm(prod_n(a, b), sum_d(a, b))
}

/// Exact checked division: the reduced quotient; `None` on a zero divisor
/// as well as on overflow.
pub open spec fn spec_div(a: Ratio, b: Ratio) -> Option<Ratio> {
    if b.num == 0 {
        None
    } else {
        spec_norm(quot_n(a, b), quot_d(a, b))
    }
}


/// Reduction always succeeds when even the unreduced components fit: the
/// reduced components are no larger in magnitude.
pub proof fn lemma_norm_some(n: int, d: int)
    requires
        1 <= d <= 0x7fff_ffff_ffff_ffff,
        -0x7fff_ffff_ffff_ffff <= n <= 0x7fff_ffff_ffff_ffff,
    ensures
        spec_norm(n, d) is Some,
{
    let g = gcd(abs_n(n), d as nat);
    lemma_gcd_divides(abs_n(n), d as nat);
    lemma_divisor_bounds(g, d as nat);
    vstd::arithmetic::div_mod::lemma_div_is_ordered_by_denominator(abs_n(n) as int, 1, g as int);
    vstd::arithmetic::div_mod::lemma_div_basics(abs_n(n) as int);
    vstd::arithmetic::div_mod::lemma_div_is_ordered_by_denominator(d as int, 1, g as int);
    vstd::arithmetic::div_mod::lemma_div_basics(d as int);
}

/// Success is owed on small operands: with all components at most `2^31 -
/// 1` in magnitude, addition, subtraction and multiplication return
/// `Some`, and so does division by a nonzero divisor.
pub proof fn lemma_ops_small_some(a: Ratio, b: Ratio)
    requires
        a.wf(),
        b.wf(),
        -0x7fff_ffff <= a.num <= 0x7fff_ffff,
        a.den <= 0x7fff_ffff,
        -0x7fff_ffff <= b.num <= 0x7fff_ffff,
        b.den <= 0x7fff_ffff,
    ensures
        spec_add(a, b) is Some,
        spec_sub(a, b) is Some,
        spec_mul(a, b) is Some,
        b.num != 0 ==> spec_div(a, b) is Some,
{
    assert(-0x7fff_ffff_ffff_ffffint <= a.num * b.den + b.num * a.den
        <= 0x7fff_ffff_ffff_ffffint && -0x7fff_ffff_ffff_ffffint <= a.num * b.den - b.num * a.den
        <= 0x7fff_ffff_ffff_ffffint && -0x7fff_ffff_ffff_ffffint <= a.num * b.num
        <= 0x7fff_ffff_ffff_ffffint && 1 <= a.den * b.den <= 0x7fff_ffff_ffff_ffffint)
        by (nonlinear_arith)
        requires
            -0x7fff_ffff <= a.num <= 0x7fff_ffff,
            1 <= a.den <= 0x7fff_ffff,
            -0x7fff_ffff <= b.num <= 0x7fff_ffff,
            1 <= b.den <= 0x7fff_ffff,
    ;
    lemma_norm_some(sum_n(a, b), sum_d(a, b));
    lemma_norm_some(diff_n(a, b), sum_d(a, b));
    lemma_norm_some(prod_n(a, b), sum_d(a, b));
    if b.num != 0 {
        assert(-0x7fff_ffff_ffff_ffffint <= a.num * b.den <= 0x7fff_ffff_ffff_ffffint
            && -0x7fff_ffff_ffff_ffffint <= -(a.num * b.den) <= 0x7fff_ffff_ffff_ffffint && (b.num
            >= 1 ==> 1 <= a.den * b.num <= 0x7fff_ffff_ffff_ffffint) && (b.num <= -1 ==> 1 <= a.den
            * -b.num <= 0x7fff_ffff_ffff_ffffint)) by (nonlinear_arith)
            requires
                -0x7fff_ffff <= a.num <= 0x7fff_ffff,
                1 <= a.den <= 0x7fff_ffff,
                -0x7fff_ffff <= b.num <= 0x7fff_ffff,
                1 <= b.den <= 0x7fff_ffff,
        ;
        lemma_norm_some(quot_n(a, b), quot_d(a, b));
    }
}

/// Denominator bound for camera positions: the fixed grid `1 / 2^20`.
pub open spec fn quant_grid() -> int {
    0x10_0000
}

/// Snaps a rational onto the fixed grid when its denominator exceeds the
/// grid: values with small denominators pass through exactly; larger ones
/// are floored onto the grid, moving down by less than `1 / 2^20`.  `None`
/// only when even the grid numerator does not fit an `i64`.
pub open spec fn spec_quantize(r: Ratio) -> Option<Ratio> {
    if r.den <= quant_grid() {
        Some(r)
    } else if r.num >= 0 {
        let q = (r.num * quant_grid()) / (r.den as int);
        if q <= 0x7fff_ffff_ffff_ffff {
            Some(Ratio { num: q as i64, den: 0x10_0000i64 })
        } else {
            None
        }
    } else {
        let m = ((-r.num) * quant_grid() + r.den - 1) / (r.den as int);
        if m <= 0x7fff_ffff_ffff_ffff {
            Some(Ratio { num: (-m) as i64, den: 0x10_0000i64 })
        } else {
            None
        }
    }
}

/// Quantization keeps the value within one grid cell: the result `q`
/// satisfies `q <= r < q + 1/2^20` (cross-multiplied), and its denominator
/// never exceeds the grid.
pub proof fn lemma_quantize_bounds(r: Ratio, q: Ratio)
    requires
        r.wf(),
        spec_quantize(r) == Some(q),
    ensures
        q.wf(),
        q.den <= quant_grid(),
        q.num * r.den <= r.num * q.den,
        r.num * q.den < (q.num + 1) * r.den,
{
    if r.den <= quant_grid() {
        assert(q == r);
        assert(q.num * r.den <= r.num * q.den && r.num * q.den < (q.num + 1) * r.den)
            by (nonlinear_arith)
            requires
                q == r,
                r.den >= 1,
        ;
    } else if r.num >= 0 {
        let t = r.num * quant_grid();
        let qn = t / (r.den as int);
        vstd::arithmetic::div_mod::lemma_fundamental_div_mod(t, r.den as int);
        vstd::arithmetic::div_mod::lemma_mod_bound(t, r.den as int);
        assert(qn * r.den <= t && t < (qn + 1) * r.den) by (nonlinear_arith)
            requires
                t == r.den * qn + t % (r.den as int),
                0 <= t % (r.den as int) < r.den,
        ;
        assert(qn >= 0) by (nonlinear_arith)
            requires
                qn * r.den <= t,
                t < (qn + 1) * r.den,
                t >= 0,
                r.den >= 1,
        ;
    } else {
        let t = (-r.num) * quant_grid();
        let u = t + r.den - 1;
        let m = u / (r.den as int);
        vstd::arithmetic::div_mod::lemma_fundamental_div_mod(u, r.den as int);
        vstd::arithmetic::div_mod::lemma_mod_bound(u, r.den as int);
        assert(t >= 1) by (nonlinear_arith)
            requires
                r.num <= -1,
                t == (-r.num) * quant_grid(),
        ;
        assert(m * r.den >= t && (m - 1) * r.den < t && m >= 1) by (nonlinear_arith)
            requires
                u == r.den * m + u % (r.den as int),
                0 <= u % (r.den as int) < r.den,
                u == t + r.den - 1,
                r.den >= 1,
                t >= 1,
        ;
        assert((-m) * r.den <= r.num * quant_grid() && r.num * quant_grid() < ((-m) + 1) * r.den)
            by (nonlinear_arith)
            requires
                m * r.den >= t,
                (m - 1) * r.den < t,
                t == (-r.num) * quant_grid(),
        ;
    }
}

/// Snaps a rational onto the fixed grid (see [`spec_quantize`]).
pub fn quantize(r: Ratio) -> (res: Option<Ratio>)
    requires
        r.wf(),
    ensures
        res == spec_quantize(r),
        res matches Some(v) ==> v.wf() && v.den <= 0x10_0000,
{
    let grid: i64 = 0x10_0000;
    if r.den <= grid {
        return Some(r);
    }
    if r.num >= 0 {
        let t: u128 = (r.num as u128) * (grid as u128);
        let q: u128 = t / (r.den as u128);
        if q <= 0x7fff_ffff_ffff_ffff {
            Some(Ratio { num: q as i64, den: grid })
        } else {
            None
        }
    } else {
        let t: u128 = ((-r.num) as u128) * (grid as u128);
        let m: u128 = (t + (r.den as u128) - 1) / (r.den as u128);
        if m <= 0x7fff_ffff_ffff_ffff {
            Some(Ratio { num: -(m as i64), den: grid })
        } else {
            None
        }
    }
}

/// Multiplication by a positive factor cancels.
#[verifier::spinoff_prover]
pub proof fn lemma_mul_cancel(x: int, y: int, c: int)
    requires
        c >= 1,
        x * c == y * c,
    ensures
        x == y,
{
    assert(x == y) by (nonlinear_arith)
        requires
            c >= 1,
            x * c == y * c,
    ;
}

/// Cross-multiplied equality of fractions is transitive through a
/// positive middle denominator.
#[verifier::spinoff_prover]
pub proof fn lemma_freq_trans(an: int, ad: int, bn: int, bd: int, cn: int, cd: int)
    requires
        ad >= 1,
        bd >= 1,
        cd >= 1,
        an * bd == bn * ad,
        bn * cd == cn * bd,
    ensures
        an * cd == cn * ad,
{
    assert((an * cd) * bd == (cn * ad) * bd) by (nonlinear_arith)
        requires
            an * bd == bn * ad,
            bn * cd == cn * bd,
    ;
    lemma_mul_cancel(an * cd, cn * ad, bd);
}

/// Cross-multiplied equality survives scaling numerator and denominator
/// by fixed factors.
#[verifier::spinoff_prover]
pub proof fn lemma_freq_scale(xn: int, xd: int, yn: int, yd: int, c: int, e: int)
    requires
        xn * yd == yn * xd,
    ensures
        (xn * c) * (yd * e) == (yn * c) * (xd * e),
{
    assert((xn * c) * (yd * e) == (yn * c) * (xd * e)) by (nonlinear_arith)
        requires
            xn * yd == yn * xd,
    ;
}

/// `a <= b` as rationals (meaningful for well-formed operands).
pub open spec fn frac_le(a: Ratio, b: Ratio) -> bool {
    a.num * b.den <= b.num * a.den
}

/// `a < b` as rationals.
pub open spec fn frac_lt(a: Ratio, b: Ratio) -> bool {
    a.num * b.den < b.num * a.den
}

/// `a == b` as rationals.
pub open spec fn frac_eq(a: Ratio, b: Ratio) -> bool {
    a.num * b.den == b.num * a.den
}

/// Bound on a product of two values each within `i64::MAX` in magnitude.
proof fn lemma_i64_sq_bound(x: int, y: int)
    requires
        -0x7fff_ffff_ffff_ffffint <= x <= 0x7fff_ffff_ffff_ffffint,
        -0x7fff_ffff_ffff_ffffint <= y <= 0x7fff_ffff_ffff_ffffint,
    ensures
        -0x3fff_ffff_ffff_ffff_0000_0000_0000_0001int
            <= x * y <= 0x3fff_ffff_ffff_ffff_0000_0000_0000_0001int,
{
    assert(-0x3fff_ffff_ffff_ffff_0000_0000_0000_0001int
        <= x * y <= 0x3fff_ffff_ffff_ffff_0000_0000_0000_0001int) by (nonlinear_arith)
        requires
            -0x7fff_ffff_ffff_ffffint <= x <= 0x7fff_ffff_ffff_ffffint,
            -0x7fff_ffff_ffff_ffffint <= y <= 0x7fff_ffff_ffff_ffffint,
    ;
}

/// A product of two denominators is at least one.
pub proof fn lemma_den_prod(x: int, y: int)
    requires
        1 <= x,
        1 <= y,
    ensures
        1 <= x * y,
{
    assert(1 <= x * y) by (nonlinear_arith)
        requires
            1 <= x,
            1 <= y,
    ;
}

/// Bounds used to show that `i128` intermediates never overflow.
proof fn lemma_ratio_products(a: Ratio, b: Ratio)
    requires
        a.wf(),
        b.wf(),
    ensures
        -0x3fff_ffff_ffff_ffff_0000_0000_0000_0001int
            <= a.num * b.den <= 0x3fff_ffff_ffff_ffff_0000_0000_0000_0001int,
        -0x3fff_ffff_ffff_ffff_0000_0000_0000_0001int
            <= b.num * a.den <= 0x3fff_ffff_ffff_ffff_0000_0000_0000_0001int,
        -0x3fff_ffff_ffff_ffff_0000_0000_0000_0001int
            <= a.num * b.num <= 0x3fff_ffff_ffff_ffff_0000_0000_0000_0001int,
        1 <= a.den * b.den <= 0x3fff_ffff_ffff_ffff_0000_0000_0000_0001int,
{
    lemma_i64_sq_bound(a.num as int, b.den as int);
    lemma_i64_sq_bound(b.num as int, a.den as int);
    lemma_i64_sq_bound(a.num as int, b.num as int);
    lemma_i64_sq_bound(a.den as int, b.den as int);
    lemma_den_prod(a.den as int, b.den as int);
}

/// Euclid's algorithm.
fn gcd_u128(a0: u128, b0: u128) -> (g: u128)
    ensures
        g == gcd(a0 as nat, b0 as nat),
{
    let mut x = a0;
    let mut y = b0;
    while y != 0
        invariant
            gcd(x as nat, y as nat) == gcd(a0 as nat, b0 as nat),
        decreases y,
    {
        let r = x % y;
        x = y;
        y = r;
    }
    x
}

/// Reduces the exact fraction `n / d` by its greatest common divisor and
/// returns it when the reduced components fit an `i64`.
fn normalize(n: i128, d: i128) -> (r: Option<Ratio>)
    requires
        1 <= d,
        -0x7fff_ffff_ffff_ffff_ffff_ffff_ffff_ffffi128 <= n,
    ensures
        r == spec_norm(n as int, d as int),
        r matches Some(v) ==> v.wf(),
{
    let un: u128 = if n < 0 {
        (-n) as u128
    } else {
        n as u128
    };
    proof {
        assert(un == abs_n(n as int));
    }
    let g = gcd_u128(un, d as u128);
    proof {
        lemma_gcd_divides(un as nat, d as nat);
    }
    let un2 = un / g;
    let d2 = (d as u128) / g;
    let m: u128 = 0x7fff_ffff_ffff_ffff;
    proof {
        lemma_divisor_bounds(g as nat, d as nat);
    }
    if un2 <= m && d2 <= m {
        if n < 0 {
            Some(Ratio { num: -(un2 as i64), den: d2 as i64 })
        } else {
            Some(Ratio { num: un2 as i64, den: d2 as i64 })
        }
    } else {
        None
    }
}

/// Exact checked addition: the reduced exact result or `None` when even
/// its reduced components do not fit.
pub fn checked_add(a: Ratio, b: Ratio) -> (r: Option<Ratio>)
    requires
        a.wf(),
        b.wf(),
    ensures
        r == spec_add(a, b),
        r matches Some(v) ==> v.wf(),
        (-0x7fff_ffff <= a.num <= 0x7fff_ffff && a.den <= 0x7fff_ffff && -0x7fff_ffff <= b.num
            <= 0x7fff_ffff && b.den <= 0x7fff_ffff) ==> r is Some,
{
    proof {
        lemma_ratio_products(a, b);
        if -0x7fff_ffff <= a.num <= 0x7fff_ffff && a.den <= 0x7fff_ffff && -0x7fff_ffff <= b.num
            <= 0x7fff_ffff && b.den <= 0x7fff_ffff {
            lemma_ops_small_some(a, b);
        }
    }
    let n: i128 = (a.num as i128) * (b.den as i128) + (b.num as i128) * (a.den as i128);
    let d: i128 = (a.den as i128) * (b.den as i128);
    normalize(n, d)
}

/// Exact checked subtraction.
pub fn checked_sub(a: Ratio, b: Ratio) -> (r: Option<Ratio>)
    requires
        a.wf(),
        b.wf(),
    ensures
        r == spec_sub(a, b),
        r matches Some(v) ==> v.wf(),
        (-0x7fff_ffff <= a.num <= 0x7fff_ffff && a.den <= 0x7fff_ffff && -0x7fff_ffff <= b.num
            <= 0x7fff_ffff && b.den <= 0x7fff_ffff) ==> r is Some,
{
    proof {
        lemma_ratio_products(a, b);
        if -0x7fff_ffff <= a.num <= 0x7fff_ffff && a.den <= 0x7fff_ffff && -0x7fff_ffff <= b.num
            <= 0x7fff_ffff && b.den <= 0x7fff_ffff {
            lemma_ops_small_some(a, b);
        }
    }
    let n: i128 = (a.num as i128) * (b.den as i128) - (b.num as i128) * (a.den as i128);
    let d: i128 = (a.den as i128) * (b.den as i128);
    normalize(n, d)
}

/// Exact checked multiplication.
pub fn checked_mul(a: Ratio, b: Ratio) -> (r: Option<Ratio>)
    requires
        a.wf(),
        b.wf(),
    ensures
        r == spec_mul(a, b),
        r matches Some(v) ==> v.wf(),
        (-0x7fff_ffff <= a.num <= 0x7fff_ffff && a.den <= 0x7fff_ffff && -0x7fff_ffff <= b.num
            <= 0x7fff_ffff && b.den <= 0x7fff_ffff) ==> r is Some,
{
    proof {
        lemma_ratio_products(a, b);
        if -0x7fff_ffff <= a.num <= 0x7fff_ffff && a.den <= 0x7fff_ffff && -0x7fff_ffff <= b.num
            <= 0x7fff_ffff && b.den <= 0x7fff_ffff {
            lemma_ops_small_some(a, b);
        }
    }
    let n: i128 = (a.num as i128) * (b.num as i128);
    let d: i128 = (a.den as i128) * (b.den as i128);
    normalize(n, d)
}

/// Exact checked division; `None` on a zero divisor or overflow.
pub fn checked_div(a: Ratio, b: Ratio) -> (r: Option<Ratio>)
    requires
        a.wf(),
        b.wf(),
    ensures
        r == spec_div(a, b),
        r matches Some(v) ==> v.wf(),
        (b.num != 0 && -0x7fff_ffff <= a.num <= 0x7fff_ffff && a.den <= 0x7fff_ffff && -0x7fff_ffff
            <= b.num <= 0x7fff_ffff && b.den <= 0x7fff_ffff) ==> r is Some,
{
    proof {
        lemma_ratio_products(a, b);
        if -0x7fff_ffff <= a.num <= 0x7fff_ffff && a.den <= 0x7fff_ffff && -0x7fff_ffff <= b.num
            <= 0x7fff_ffff && b.den <= 0x7fff_ffff {
            lemma_ops_small_some(a, b);
        }
    }
    if b.num == 0 {
        return None;
    }
    let nr: i128 = (a.num as i128) * (b.den as i128);
    let dr: i128 = (a.den as i128) * (b.num as i128);
    let (n, d): (i128, i128) = if b.num >= 0 { (nr, dr) } else { (-nr, -dr) };
    proof {
        assert(a.den * -b.num == -(a.den * b.num)) by (nonlinear_arith);
        if b.num >= 1 {
            lemma_den_prod(a.den as int, b.num as int);
        } else {
            lemma_den_prod(a.den as int, -b.num as int);
        }
    }
    normalize(n, d)
}

/// `a <= b` as rationals.
pub fn le(a: &Ratio, b: &Ratio) -> (r: bool)
    requires
        a.wf(),
        b.wf(),
    ensures
        r == frac_le(*a, *b),
{
    proof {
        lemma_ratio_products(*a, *b);
    }
    (a.num as i128) * (b.den as i128) <= (b.num as i128) * (a.den as i128)
}

/// `a < b` as rationals.
pub fn lt(a: &Ratio, b: &Ratio) -> (r: bool)
    requires
        a.wf(),
        b.wf(),
    ensures
        r == frac_lt(*a, *b),
{
    proof {
        lemma_ratio_products(*a, *b);
    }
    (a.num as i128) * (b.den as i128) < (b.num as i128) * (a.den as i128)
}

/// `a == b` as rationals.
pub fn eq_frac(a: &Ratio, b: &Ratio) -> (r: bool)
    requires
        a.wf(),
        b.wf(),
    ensures
        r == frac_eq(*a, *b),
{
    proof {
        lemma_ratio_products(*a, *b);
    }
    (a.num as i128) * (b.den as i128) == (b.num as i128) * (a.den as i128)
}

/// Floor of the square root, as a recursive specification.
pub open spec fn sqrt_floor(n: nat) -> nat
    decreases n,
{
    if n == 0 {
        0
    } else {
        let r = sqrt_floor((n - 1) as nat);
        if (r + 1) * (r + 1) <= n {
            r + 1
        } else {
            r
        }
    }
}

/// `sqrt_floor(n)` is the unique `r` with `r * r <= n < (r + 1) * (r + 1)`.
pub proof fn lemma_sqrt_floor_bounds(n: nat)
    ensures
        sqrt_floor(n) * sqrt_floor(n) <= n,
        n < (sqrt_floor(n) + 1) * (sqrt_floor(n) + 1),
    decreases n,
{
    if n == 0 {
        assert(sqrt_floor(0nat) == 0);
        assert((sqrt_floor(0nat) + 1) * (sqrt_floor(0nat) + 1) == 1) by (nonlinear_arith)
            requires
                sqrt_floor(0nat) == 0,
        ;
    } else {
        lemma_sqrt_floor_bounds((n - 1) as nat);
        let r = sqrt_floor((n - 1) as nat);
        let s = sqrt_floor(n);
        if (r + 1) * (r + 1) <= n {
            assert(s == r + 1);
            assert(n <= (r + 1) * (r + 1));
            assert((r + 1) * (r + 1) < (r + 2) * (r + 2)) by (nonlinear_arith);
            assert(s * s <= n);
            assert(n < (s + 1) * (s + 1));
        } else {
            assert(s == r);
            assert(s * s <= n);
            assert(n < (s + 1) * (s + 1));
        }
    }
}

pub proof fn lemma_sqrt_floor_unique(n: nat, r: nat)
    requires
        r * r <= n,
        n < (r + 1) * (r + 1),
    ensures
        r == sqrt_floor(n),
{
    lemma_sqrt_floor_bounds(n);
    let s = sqrt_floor(n);
    assert(r <= s) by (nonlinear_arith)
        requires
            r * r <= n,
            n < (s + 1) * (s + 1),
    ;
    assert(s <= r) by (nonlinear_arith)
        requires
            s * s <= n,
            n < (r + 1) * (r + 1),
    ;
}

/// Floor of the square root of a `u128`, by binary search.
pub fn isqrt_u128(n: u128) -> (r: u128)
    ensures
        r == sqrt_floor(n as nat),
        r * r <= n,
        n < (r + 1) * (r + 1),
{
    let mut lo: u128 = 0;
    let mut hi: u128 = 0x1_0000_0000_0000_0000u128;
    proof {
        assert((0x1_0000_0000_0000_0000u128 as int) * (0x1_0000_0000_0000_0000u128 as int)
            > u128::MAX as int) by (nonlinear_arith);
    }
    while lo + 1 < hi
        invariant
            lo * lo <= n,
            n < hi * hi,
            lo < hi <= 0x1_0000_0000_0000_0000u128,
        decreases hi - lo,
    {
        let mid = lo + (hi - lo) / 2;
        proof {
            assert(mid * mid <= u128::MAX) by (nonlinear_arith)
                requires
                    mid < 0x1_0000_0000_0000_0000u128,
            ;
        }
        if mid * mid <= n {
            lo = mid;
        } else {
            hi = mid;
        }
    }
    proof {
        lemma_sqrt_floor_unique(n as nat, lo as nat);
    }
    lo
}

} // verus!
