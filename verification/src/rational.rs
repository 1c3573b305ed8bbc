//! Exact rational numbers: the runtime numeric type of the interpreter.
//!
//! A `Num` is a fraction `n / d` of a signed 64-bit numerator and an unsigned
//! 64-bit denominator, kept in lowest terms with `d >= 1`.  Its mathematical
//! value is the ghost fraction `Rat`.  Arithmetic is exact; an operation whose
//! reduced result does not fit the machine representation reports `None`
//! rather than rounding.

use vstd::prelude::*;
use vstd::arithmetic::div_mod::{
    lemma_div_multiples_vanish, lemma_fundamental_div_mod, lemma_mod_bound,
};
use vstd::arithmetic::mul::{lemma_mul_nonnegative, lemma_mul_upper_bound};

verus! {

/// Mathematical value of a number: a fraction of unbounded integers.
/// Only fractions with `d >= 1` are used.
pub ghost struct Rat {
    pub n: int,
    pub d: int,
}

/// A fraction makes sense only with a positive denominator.
pub open spec fn rat_wf(r: Rat) -> bool {
    r.d >= 1
}

/// `a` and `b` denote the same rational value (cross multiplication).
pub open spec fn rat_eq(a: Rat, b: Rat) -> bool {
    a.n * b.d == b.n * a.d
}

/// `a` denotes a strictly smaller value than `b` (valid when both are `rat_wf`).
pub open spec fn rat_lt(a: Rat, b: Rat) -> bool {
    a.n * b.d < b.n * a.d
}

/// Greatest common divisor by Euclid's algorithm; `gcd(a, 0) == a`.
pub open spec fn gcd(a: nat, b: nat) -> nat
    decreases b,
{
    if b == 0 {
        a
    } else {
        gcd(b, a % b)
    }
}

/// `f` divides `x` exactly.
pub open spec fn divides(f: nat, x: nat) -> bool {
    exists|k: nat| x == #[trigger] (f * k)
}

/// The gcd of two numbers, at least one nonzero, is positive.
pub proof fn lemma_gcd_pos(a: nat, b: nat)
    requires
        a > 0 || b > 0,
    ensures
        gcd(a, b) >= 1,
    decreases b,
{
    if b > 0 {
        if a % b > 0 || b > 0 {
            lemma_gcd_pos(b, a % b);
        }
    }
}

/// The gcd of two numbers divides both of them.
pub proof fn lemma_gcd_divides(a: nat, b: nat)
    ensures
        divides(gcd(a, b), a),
        divides(gcd(a, b), b),
    decreases b,
{
    if b == 0 {
        assert(a == gcd(a, b) * 1);
        assert(0nat == gcd(a, b) * 0);
    } else {
        lemma_gcd_divides(b, a % b);
        let g = gcd(b, a % b);
        let k1 = choose|k: nat| b == #[trigger] (g * k);
        let k2 = choose|k: nat| a % b == #[trigger] (g * k);
        lemma_fundamental_div_mod(a as int, b as int);
        let q = a as int / b as int;
        lemma_mod_bound(a as int, b as int);
        assert(q >= 0) by {
            if q < 0 {
                assert((b as int) * q <= -(b as int)) by (nonlinear_arith)
                    requires b >= 1 && q <= -1;
            }
        }
        assert(a as int == (b as int) * q + (a % b) as int);
        assert((b as int) * q == (g * k1) as int * q);
        assert((g * k1) as int * q == g as int * (k1 as int * q)) by (nonlinear_arith);
        assert(a as int == g as int * (k1 as int * q) + g as int * k2 as int);
        assert(g as int * (k1 as int * q) + g as int * k2 as int
            == g as int * (k1 as int * q + k2 as int)) by (nonlinear_arith);
        let kk = k1 as int * q + k2 as int;
        assert(a as int == g as int * kk);
        assert(kk >= 0) by {
            if g == 0 {
                assert(b == g * k1);
                assert(b == 0) by (nonlinear_arith) requires b as int == 0 * k1 as int;
            } else {
                if kk < 0 {
                    assert(g as int * kk <= -(g as int)) by (nonlinear_arith)
                        requires g >= 1 && kk <= -1;
                }
            }
        }
        assert(a == g * (kk as nat)) by {
            assert(g as int * kk == (g * (kk as nat)) as int) by (nonlinear_arith)
                requires kk >= 0;
        }
        assert(divides(g, a));
    }
}

/// Magnitude of an integer, as a natural number.
pub open spec fn nabs(x: int) -> nat {
    if x >= 0 {
        x as nat
    } else {
        (-x) as nat
    }
}

/// The fraction `n / d` in lowest terms (meaningful for `d >= 1`).
pub open spec fn rat_norm(n: int, d: int) -> Rat {
    let g = gcd(nabs(n), d as nat) as int;
    Rat { n: n / g, d: d / g }
}

/// Whether a fraction fits the machine representation: an `i64` numerator
/// over a `u64` denominator.
pub open spec fn rat_fits(r: Rat) -> bool {
    &&& i64::MIN <= r.n <= i64::MAX
    &&& 1 <= r.d <= u64::MAX
}

/// The machine result of reducing `n / d`: the fraction in lowest terms if it
/// fits, `None` otherwise.
pub open spec fn spec_norm(n: int, d: int) -> Option<Rat> {
    if rat_fits(rat_norm(n, d)) {
        Some(rat_norm(n, d))
    } else {
        None
    }
}

/// Reducing a fraction keeps its value and a positive denominator.
pub proof fn lemma_rat_norm(n: int, d: int)
    requires
        d >= 1,
    ensures
        rat_norm(n, d).d >= 1,
        rat_eq(rat_norm(n, d), Rat { n, d }),
        nabs(rat_norm(n, d).n) == nabs(n) / gcd(nabs(n), d as nat),
        rat_norm(n, d).d == d / gcd(nabs(n), d as nat) as int,
        n >= 0 ==> rat_norm(n, d).n >= 0,
        n < 0 ==> rat_norm(n, d).n <= 0,
{
    let m = nabs(n);
    let g = gcd(m, d as nat);
    lemma_gcd_pos(m, d as nat);
    lemma_gcd_divides(m, d as nat);
    let km = choose|k: nat| m == #[trigger] (g * k);
    let kd = choose|k: nat| d as nat == #[trigger] (g * k);
    lemma_div_multiples_vanish(km as int, g as int);
    lemma_div_multiples_vanish(kd as int, g as int);
    assert((g * km) as int == g as int * km as int) by (nonlinear_arith);
    assert((g * kd) as int == g as int * kd as int) by (nonlinear_arith);
    assert(m as int / g as int == km as int);
    assert(d / g as int == kd as int);
    let nn = rat_norm(n, d).n;
    if n >= 0 {
        assert(nn == km as int);
    } else {
        lemma_div_multiples_vanish(-(km as int), g as int);
        assert(g as int * (-(km as int)) == -(g as int * km as int)) by (nonlinear_arith);
        assert(n == g as int * (-(km as int)));
        assert(nn == -(km as int));
    }
    assert(kd >= 1) by {
        if kd == 0 {
            assert(g as int * 0int == 0) by (nonlinear_arith);
        }
    }
    // value preservation: nn * d == n * kd, both equal to (sign) * km * g * kd
    assert(nn * d == n * (kd as int)) by (nonlinear_arith)
        requires
            d == g as int * kd as int,
            (n >= 0 ==> nn == km as int && n == g as int * km as int),
            (n < 0 ==> nn == -(km as int) && n == g as int * (-(km as int))),
    ;
}

/// The interpreter's runtime number: an exact rational, a signed 64-bit
/// numerator over an unsigned 64-bit denominator, with `d >= 1`.
#[derive(Clone, Copy, Debug, PartialEq, Eq)]
pub struct Num {
    n: i64,
    d: u64,
}

impl View for Num {
    type V = Rat;

    closed spec fn view(&self) -> Rat {
        Rat { n: self.n as int, d: self.d as int }
    }
}

impl Num {
    /// The representation invariant: the denominator is positive.  It holds
    /// of every `Num` ever constructed; `use_type_invariant` recovers it.
    #[verifier::type_invariant]
    pub closed spec fn inv(self) -> bool {
        self.d >= 1
    }

    /// Every `Num` denotes a well-formed fraction that fits the machine
    /// representation.
    pub proof fn lemma_wf(self)
        requires
            self.inv(),
        ensures
            rat_wf(self@),
            rat_fits(self@),
    {
    }

    /// The whole number `n`, as a rational.
    pub fn from_int(n: i64) -> (r: Num)
        ensures
            r@ == (Rat { n: n as int, d: 1 }),
    {
        Num { n, d: 1 }
    }

    /// Whether this number is zero.
    pub fn is_zero(&self) -> (r: bool)
        ensures
            r == (self@.n == 0),
    {
        self.n == 0
    }

    /// The numerator of the reduced fraction.
    pub fn numerator(&self) -> (r: i64)
        ensures
            r as int == self@.n,
    {
        self.n
    }

    /// The denominator of the reduced fraction (always at least 1).
    pub fn denominator(&self) -> (r: u64)
        ensures
            r as int == self@.d,
    {
        self.d
    }
}

/// Whether `x` lies within the signed 128-bit range.
pub open spec fn in_i128(x: int) -> bool {
    i128::MIN <= x <= i128::MAX
}

/// Exact sum of two fractions, reduced; `None` when the numerator of the
/// unreduced sum leaves the 128-bit intermediate range or the reduced result
/// does not fit a `Num`.
pub open spec fn rat_add(a: Rat, b: Rat) -> Option<Rat> {
    let num = a.n * b.d + b.n * a.d;
    if in_i128(num) {
        spec_norm(num, a.d * b.d)
    } else {
        None
    }
}

/// Exact difference, under the same fitting rules as `rat_add`.
pub open spec fn rat_sub(a: Rat, b: Rat) -> Option<Rat> {
    let num = a.n * b.d - b.n * a.d;
    if in_i128(num) {
        spec_norm(num, a.d * b.d)
    } else {
        None
    }
}

/// Exact product, reduced; `None` only when the reduced result does not fit.
pub open spec fn rat_mul(a: Rat, b: Rat) -> Option<Rat> {
    spec_norm(a.n * b.n, a.d * b.d)
}

/// Exact quotient (meaningful only for `b.n != 0`), reduced; `None` only
/// when the reduced result does not fit.
pub open spec fn rat_div(a: Rat, b: Rat) -> Option<Rat> {
    if b.n > 0 {
        spec_norm(a.n * b.d, a.d * b.n)
    } else {
        spec_norm(-(a.n * b.d), a.d * -b.n)
    }
}

/// Remainder of integer division truncated toward zero, as Rust's `%`
/// computes it (meaningful only for `d != 0`).
pub open spec fn trunc_rem(x: int, d: int) -> int {
    if x == 0 {
        0
    } else if x > 0 && d > 0 {
        x % d
    } else if x < 0 && d < 0 {
        ((x * -1) % (d * -1)) * -1
    } else if x < 0 {
        ((x * -1) % d) * -1
    } else {
        x % (d * -1)
    }
}

/// Remainder of `a` modulo `b` (meaningful only for `b.n != 0`), with the
/// sign of `a`, as the truncated `a - trunc(a / b) * b`; reduced, `None` only
/// when the reduced result does not fit.
pub open spec fn rat_mod(a: Rat, b: Rat) -> Option<Rat> {
    spec_norm(trunc_rem(a.n * b.d, a.d * b.n), a.d * b.d)
}

/// Bounds on the product of an `i64`-sized and a nonnegative `u64`-sized factor.
proof fn lemma_prod_i64_u64(x: int, y: int)
    requires
        -0x8000_0000_0000_0000 <= x <= 0x7fff_ffff_ffff_ffff,
        0 <= y <= 0xffff_ffff_ffff_ffff,
    ensures
        nabs(x * y) <= 0x7fff_ffff_ffff_ffff_8000_0000_0000_0000,
        in_i128(x * y),
{
    if x >= 0 {
        lemma_mul_upper_bound(x, 0x7fff_ffff_ffff_ffff, y, 0xffff_ffff_ffff_ffff);
        lemma_mul_nonnegative(x, y);
    } else {
        lemma_mul_upper_bound(-x, 0x8000_0000_0000_0000, y, 0xffff_ffff_ffff_ffff);
        lemma_mul_nonnegative(-x, y);
        assert(x * y == -((-x) * y)) by (nonlinear_arith);
    }
}

/// Bounds on the product of two `i64`-sized factors.
proof fn lemma_prod_i64_i64(x: int, y: int)
    requires
        -0x8000_0000_0000_0000 <= x <= 0x7fff_ffff_ffff_ffff,
        -0x8000_0000_0000_0000 <= y <= 0x7fff_ffff_ffff_ffff,
    ensures
        nabs(x * y) <= 0x4000_0000_0000_0000_0000_0000_0000_0000,
        in_i128(x * y),
{
    let xm = nabs(x) as int;
    let ym = nabs(y) as int;
    lemma_mul_upper_bound(xm, 0x8000_0000_0000_0000, ym, 0x8000_0000_0000_0000);
    lemma_mul_nonnegative(xm, ym);
    assert(x * y == xm * ym || x * y == -(xm * ym)) by (nonlinear_arith)
        requires xm == nabs(x) && ym == nabs(y);
}

/// Bounds on the product of two `u64`-sized factors.
proof fn lemma_prod_u64_u64(x: int, y: int)
    requires
        0 <= x <= 0xffff_ffff_ffff_ffff,
        0 <= y <= 0xffff_ffff_ffff_ffff,
    ensures
        0 <= x * y <= u128::MAX,
{
    lemma_mul_upper_bound(x, 0xffff_ffff_ffff_ffff, y, 0xffff_ffff_ffff_ffff);
    lemma_mul_nonnegative(x, y);
}

impl Num {
    /// Exact addition; `None` when the result cannot be represented.
    pub fn add(&self, other: &Num) -> (r: Option<Num>)
        ensures
            match r {
                Some(q) => rat_add(self@, other@) == Some(q@),
                None => rat_add(self@, other@) is None,
            },
    {
        proof {
            use_type_invariant(self);
            use_type_invariant(other);
            lemma_prod_i64_u64(self.n as int, other.d as int);
            lemma_prod_i64_u64(other.n as int, self.d as int);
            lemma_prod_u64_u64(self.d as int, other.d as int);
            assert(self.d as int * other.d as int >= 1) by (nonlinear_arith)
                requires self.d >= 1 && other.d >= 1;
        }
        let na = self.n as i128 * other.d as i128;
        let nb = other.n as i128 * self.d as i128;
        let den = self.d as u128 * other.d as u128;
        match na.checked_add(nb) {
            Some(num) => norm128(num, den),
            None => None,
        }
    }

    /// Exact subtraction; `None` when the result cannot be represented.
    pub fn sub(&self, other: &Num) -> (r: Option<Num>)
        ensures
            match r {
                Some(q) => rat_sub(self@, other@) == Some(q@),
                None => rat_sub(self@, other@) is None,
            },
    {
        proof {
            use_type_invariant(self);
            use_type_invariant(other);
            lemma_prod_i64_u64(self.n as int, other.d as int);
            lemma_prod_i64_u64(other.n as int, self.d as int);
            lemma_prod_u64_u64(self.d as int, other.d as int);
            assert(self.d as int * other.d as int >= 1) by (nonlinear_arith)
                requires self.d >= 1 && other.d >= 1;
        }
        let na = self.n as i128 * other.d as i128;
        let nb = other.n as i128 * self.d as i128;
        let den = self.d as u128 * other.d as u128;
        match na.checked_sub(nb) {
            Some(num) => norm128(num, den),
            None => None,
        }
    }

    /// Exact multiplication; `None` when the result cannot be represented.
    pub fn mul(&self, other: &Num) -> (r: Option<Num>)
        ensures
            match r {
                Some(q) => rat_mul(self@, other@) == Some(q@),
                None => rat_mul(self@, other@) is None,
            },
    {
        proof {
            use_type_invariant(self);
            use_type_invariant(other);
            lemma_prod_i64_i64(self.n as int, other.n as int);
            lemma_prod_u64_u64(self.d as int, other.d as int);
            assert(self.d as int * other.d as int >= 1) by (nonlinear_arith)
                requires self.d >= 1 && other.d >= 1;
        }
        let num = self.n as i128 * other.n as i128;
        let den = self.d as u128 * other.d as u128;
        norm128(num, den)
    }

    /// Exact division; `None` when the result cannot be represented.
    pub fn div(&self, other: &Num) -> (r: Option<Num>)
        requires
            other@.n != 0,
        ensures
            match r {
                Some(q) => rat_div(self@, other@) == Some(q@),
                None => rat_div(self@, other@) is None,
            },
    {
        proof {
            use_type_invariant(self);
            use_type_invariant(other);
            lemma_prod_i64_u64(self.n as int, other.d as int);
            lemma_prod_i64_u64(other.n as int, self.d as int);
        }
        let num = self.n as i128 * other.d as i128;
        if other.n > 0 {
            proof {
                lemma_prod_u64_u64(self.d as int, other.n as int);
                assert(self.d as int * other.n as int >= 1) by (nonlinear_arith)
                    requires self.d >= 1 && other.n >= 1;
            }
            norm128(num, self.d as u128 * other.n as u128)
        } else {
            let mag = mag_i128(other.n as i128);
            proof {
                lemma_prod_u64_u64(self.d as int, nabs(other.n as int) as int);
                assert(self.d as int * nabs(other.n as int) as int
                    == self@.d * -other@.n) by (nonlinear_arith)
                    requires other.n < 0;
                assert(self.d as int * nabs(other.n as int) >= 1) by (nonlinear_arith)
                    requires self.d >= 1 && nabs(other.n as int) >= 1;
            }
            norm128(-num, self.d as u128 * mag as u128)
        }
    }
}

impl Num {
    /// Exact remainder, truncated toward zero as the `MOD` operator asks;
    /// `None` when the result cannot be represented.
    pub fn rem(&self, other: &Num) -> (r: Option<Num>)
        requires
            other@.n != 0,
        ensures
            match r {
                Some(q) => rat_mod(self@, other@) == Some(q@),
                None => rat_mod(self@, other@) is None,
            },
    {
        proof {
            use_type_invariant(self);
            use_type_invariant(other);
            lemma_prod_i64_u64(self.n as int, other.d as int);
            lemma_prod_i64_u64(other.n as int, self.d as int);
            lemma_prod_u64_u64(self.d as int, other.d as int);
            assert(self.d as int * other.d as int >= 1) by (nonlinear_arith)
                requires self.d >= 1 && other.d >= 1;
            assert(self.d as int * other.n as int != 0) by (nonlinear_arith)
                requires self.d >= 1 && other.n != 0;
            assert(self.d as int * other.n as int == other.n as int * self.d as int)
                by (nonlinear_arith);
        }
        let p = self.n as i128 * other.d as i128;
        let q = self.d as i128 * other.n as i128;
        let den = self.d as u128 * other.d as u128;
        match p.checked_rem(q) {
            Some(rm) => {
                proof {
                    assert(rm as int == trunc_rem(p as int, q as int));
                }
                norm128(rm, den)
            },
            None => {
                proof {
                    assert(false);
                }
                None
            },
        }
    }

    /// Whether the two numbers denote the same rational value.
    pub fn eq_value(&self, other: &Num) -> (r: bool)
        ensures
            r == rat_eq(self@, other@),
    {
        proof {
            use_type_invariant(self);
            use_type_invariant(other);
            lemma_prod_i64_u64(self.n as int, other.d as int);
            lemma_prod_i64_u64(other.n as int, self.d as int);
        }
        self.n as i128 * other.d as i128 == other.n as i128 * self.d as i128
    }

    /// Whether this number denotes a strictly smaller value than `other`.
    pub fn lt_value(&self, other: &Num) -> (r: bool)
        ensures
            r == rat_lt(self@, other@),
    {
        proof {
            use_type_invariant(self);
            use_type_invariant(other);
            lemma_prod_i64_u64(self.n as int, other.d as int);
            lemma_prod_i64_u64(other.n as int, self.d as int);
        }
        let lhs = self.n as i128 * other.d as i128;
        let rhs = other.n as i128 * self.d as i128;
        lhs < rhs
    }
}

/// Euclid's algorithm on machine words.
fn gcd_u128(a: u128, b: u128) -> (g: u128)
    ensures
        g as nat == gcd(a as nat, b as nat),
{
    let mut x = a;
    let mut y = b;
    while y != 0
        invariant
            gcd(x as nat, y as nat) == gcd(a as nat, b as nat),
        decreases y,
    {
        let r = x % y;
        x = y;
        y = r;
    }
    x
}

/// The magnitude of a signed 128-bit value, without overflow on `i128::MIN`.
fn mag_i128(x: i128) -> (m: u128)
    ensures
        m as nat == nabs(x as int),
{
    if x >= 0 {
        x as u128
    } else {
        ((-(x + 1)) as u128) + 1
    }
}

/// Reduces the fraction `num / den` to lowest terms and packs it into a
/// `Num`, reporting `None` when the reduced fraction does not fit.
fn norm128(num: i128, den: u128) -> (r: Option<Num>)
    requires
        den >= 1,
    ensures
        match r {
            Some(q) => spec_norm(num as int, den as int) == Some(q@),
            None => spec_norm(num as int, den as int) is None,
        },
{
    let mag = mag_i128(num);
    let g = gcd_u128(mag, den);
    proof {
        lemma_gcd_pos(mag as nat, den as nat);
        lemma_gcd_divides(mag as nat, den as nat);
        lemma_rat_norm(num as int, den as int);
    }
    let rn = mag / g;
    let rd = den / g;
    proof {
        let km = choose|k: nat| mag as nat == #[trigger] (gcd(mag as nat, den as nat) * k);
        let kd = choose|k: nat| den as nat == #[trigger] (gcd(mag as nat, den as nat) * k);
        assert((g * (km as u128)) as nat == gcd(mag as nat, den as nat) * km) by (nonlinear_arith)
            requires g as nat == gcd(mag as nat, den as nat), km * g <= u128::MAX;
        lemma_div_multiples_vanish(km as int, g as int);
        lemma_div_multiples_vanish(kd as int, g as int);
        assert(g as int * km as int == (gcd(mag as nat, den as nat) * km) as int)
            by (nonlinear_arith)
            requires g as nat == gcd(mag as nat, den as nat);
        assert(g as int * kd as int == (gcd(mag as nat, den as nat) * kd) as int)
            by (nonlinear_arith)
            requires g as nat == gcd(mag as nat, den as nat);
        assert(rn as nat == km);
        assert(rd as nat == kd);
        assert(kd >= 1) by {
            if kd == 0 {
                assert(gcd(mag as nat, den as nat) * 0nat == 0) by (nonlinear_arith);
            }
        }
        assert(rat_norm(num as int, den as int).d == rd as int);
        assert(nabs(rat_norm(num as int, den as int).n) == rn as nat);
    }
    if rd > u64::MAX as u128 {
        return None;
    }
    if num >= 0 {
        if rn > i64::MAX as u128 {
            None
        } else {
            Some(Num { n: rn as i64, d: rd as u64 })
        }
    } else {
        if rn > 9223372036854775808u128 {
            None
        } else {
            let nn: i64 = (-(rn as i128)) as i64;
            Some(Num { n: nn, d: rd as u64 })
        }
    }
}

} // verus!
