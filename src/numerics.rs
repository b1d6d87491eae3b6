//! Numeric capabilities shared by every matrix element type.
use vstd::prelude::*;
use crate::display::{decimal, signed_decimal, unsigned_decimal};

verus! {

/// Rust's truncating division, stated over mathematical integers
/// (`/` in specifications is Euclidean).
pub open spec fn trunc_div(a: int, b: int) -> int {
    if a >= 0 {
        a / b
    } else {
        -((-a) / b)
    }
}

/// Rust's remainder: its sign follows the dividend.
pub open spec fn trunc_rem(a: int, b: int) -> int {
    if a >= 0 {
        a % b
    } else {
        -((-a) % b)
    }
}

proof fn lemma_no_div_overflow(a: int, b: int, min: int)
    requires
        b != 0,
        min < 0,
        min <= trunc_div(a, b) <= -min - 1,
    ensures
        !(a == min && b == -1),
{
    if a == min && b == -1 {
        assert((-a) / b == -(-a)) by (nonlinear_arith)
            requires
                b == -1,
        ;
    }
}

/// Arithmetic and identity values required of every matrix element.
pub trait Numeric: Copy + Sized {
    /// The mathematical value held.
    spec fn val(self) -> int;

    /// Smallest representable value.
    spec fn min_val() -> int;

    /// Largest representable value.
    spec fn max_val() -> int;

    /// Every value is representable, and the range holds at least `0..=127`.
    proof fn lemma_bounds(x: Self)
        ensures
            Self::min_val() <= x.val() <= Self::max_val(),
            Self::min_val() <= 0,
            Self::max_val() >= 127,
    ;

    /// Two elements with the same value are the same element.
    proof fn lemma_val_injective(x: Self, y: Self)
        ensures
            x.val() == y.val() ==> x == y,
    ;

    /// The additive identity.
    fn zero() -> (r: Self)
        ensures
            r.val() == 0,
    ;

    /// The multiplicative identity.
    fn one() -> (r: Self)
        ensures
            r.val() == 1,
    ;

    /// Two, the divisor of parity tests.
    fn two() -> (r: Self)
        ensures
            r.val() == 2,
    ;

    /// `self + o`.
    fn plus(self, o: Self) -> (r: Self)
        requires
            Self::min_val() <= self.val() + o.val() <= Self::max_val(),
        ensures
            r.val() == self.val() + o.val(),
    ;

    /// `self - o`.
    fn minus(self, o: Self) -> (r: Self)
        requires
            Self::min_val() <= self.val() - o.val() <= Self::max_val(),
        ensures
            r.val() == self.val() - o.val(),
    ;

    /// `self * o`.
    fn times(self, o: Self) -> (r: Self)
        requires
            Self::min_val() <= self.val() * o.val() <= Self::max_val(),
        ensures
            r.val() == self.val() * o.val(),
    ;

    /// `self / o`, rounded toward zero.
    fn quot(self, o: Self) -> (r: Self)
        requires
            o.val() != 0,
            Self::min_val() <= trunc_div(self.val(), o.val()) <= Self::max_val(),
        ensures
            r.val() == trunc_div(self.val(), o.val()),
    ;

    /// `self % o`, with the sign of `self`.
    fn rem(self, o: Self) -> (r: Self)
        requires
            o.val() != 0,
            Self::min_val() <= trunc_div(self.val(), o.val()) <= Self::max_val(),
        ensures
            r.val() == trunc_rem(self.val(), o.val()),
    ;

    /// `self == o`.
    fn same(self, o: Self) -> (r: bool)
        ensures
            r == (self.val() == o.val()),
    ;

    /// `self < o`.
    fn less(self, o: Self) -> (r: bool)
        ensures
            r == (self.val() < o.val()),
    ;

    /// Decimal text of the value.
    fn to_decimal(self) -> (r: String)
        ensures
            r@ == decimal(self.val()),
    ;

    /// `self % 2 == 0`.
    fn is_even(self) -> (r: bool)
        ensures
            r == (trunc_rem(self.val(), 2) == 0),
    {
        proof {
            Self::lemma_bounds(self);
        }
        self.rem(Self::two()).same(Self::zero())
    }

    /// `self % 2 == 1`: false for a negative odd value, whose remainder is -1.
    fn is_odd(self) -> (r: bool)
        ensures
            r == (trunc_rem(self.val(), 2) == 1),
    {
        proof {
            Self::lemma_bounds(self);
        }
        self.rem(Self::two()).same(Self::one())
    }
}

/// Integer element types: arithmetic on them is exact.
pub trait Integer: Numeric {
}

/// Signed integer element types, which also negate.
pub trait SignedInt: Integer {
    /// Some value is negative.
    proof fn lemma_signed()
        ensures
            Self::min_val() < 0,
    ;

    /// `-self`.
    fn negate(self) -> (r: Self)
        requires
            Self::min_val() <= -self.val() <= Self::max_val(),
        ensures
            r.val() == -self.val(),
    ;
}

/// Unsigned integer element types: no value is negative.
pub trait Unsigned: Integer {
    /// The smallest value is zero.
    proof fn lemma_unsigned()
        ensures
            Self::min_val() == 0,
    ;
}

/// `d` divides `x`.
pub open spec fn divides(d: int, x: int) -> bool {
    exists|k: int| #[trigger] (d * k) == x
}

/// Greatest common divisor, by Euclid's recursion.
pub open spec fn gcd_spec(a: nat, b: nat) -> nat
    decreases b,
{
    if b == 0 {
        a
    } else {
        gcd_spec(b, a % b)
    }
}

/// Least common multiple: the product divided by the greatest common divisor.
pub open spec fn lcm_spec(a: nat, b: nat) -> nat {
    (a * b) / gcd_spec(a, b)
}

proof fn lemma_divides_by(d: int, x: int, k: int)
    requires
        d * k == x,
    ensures
        divides(d, x),
{
}

proof fn lemma_divides_sum(d: int, x: int, y: int)
    requires
        divides(d, x),
        divides(d, y),
    ensures
        divides(d, x + y),
        divides(d, x - y),
{
    let kx = choose|k: int| #[trigger] (d * k) == x;
    let ky = choose|k: int| #[trigger] (d * k) == y;
    assert(d * (kx + ky) == x + y) by (nonlinear_arith)
        requires
            d * kx == x,
            d * ky == y,
    ;
    assert(d * (kx - ky) == x - y) by (nonlinear_arith)
        requires
            d * kx == x,
            d * ky == y,
    ;
    lemma_divides_by(d, x + y, kx + ky);
    lemma_divides_by(d, x - y, kx - ky);
}

proof fn lemma_divides_multiple(d: int, x: int, c: int)
    requires
        divides(d, x),
    ensures
        divides(d, x * c),
        divides(2 * d, 2 * x),
{
    let k = choose|k: int| #[trigger] (d * k) == x;
    assert(d * (k * c) == x * c) by (nonlinear_arith)
        requires
            d * k == x,
    ;
    assert((2 * d) * k == 2 * x) by (nonlinear_arith)
        requires
            d * k == x,
    ;
    lemma_divides_by(d, x * c, k * c);
    lemma_divides_by(2 * d, 2 * x, k);
}

proof fn lemma_divides_halve(d: int, x: int)
    requires
        divides(2 * d, 2 * x),
    ensures
        divides(d, x),
{
    let k = choose|k: int| #[trigger] ((2 * d) * k) == 2 * x;
    assert(d * k == x) by (nonlinear_arith)
        requires
            (2 * d) * k == 2 * x,
    ;
    lemma_divides_by(d, x, k);
}

/// An odd number's divisor that divides `2 * x` divides `x`.
proof fn lemma_divides_odd(d: int, x: int, y: int)
    requires
        divides(d, 2 * x),
        divides(d, y),
        y % 2 == 1,
    ensures
        divides(d, x),
{
    let k = choose|k: int| #[trigger] (d * k) == 2 * x;
    let j = choose|j: int| #[trigger] (d * j) == y;
    vstd::arithmetic::div_mod::lemma_mul_mod_noop(d, j, 2);
    vstd::arithmetic::div_mod::lemma_mul_mod_noop(d, k, 2);
    assert(d % 2 == 1) by {
        if d % 2 == 0 {
            assert((d % 2) * (j % 2) == 0);
        }
    }
    assert(k % 2 == 0) by {
        if k % 2 == 1 {
            assert((2 * x) % 2 == 0);
        }
    }
    assert(d * (k / 2) == x) by (nonlinear_arith)
        requires
            d * k == 2 * x,
            k % 2 == 0,
    ;
    lemma_divides_by(d, x, k / 2);
}

proof fn lemma_divides_antisym(x: int, y: int)
    requires
        x >= 0,
        y >= 0,
        divides(x, y),
        divides(y, x),
    ensures
        x == y,
{
    let k = choose|k: int| #[trigger] (x * k) == y;
    let j = choose|j: int| #[trigger] (y * j) == x;
    assert(x == y) by (nonlinear_arith)
        requires
            x >= 0,
            y >= 0,
            x * k == y,
            y * j == x,
    ;
}

/// The greatest common divisor divides both arguments.
pub proof fn lemma_gcd_divides(a: nat, b: nat)
    ensures
        divides(gcd_spec(a, b) as int, a as int),
        divides(gcd_spec(a, b) as int, b as int),
    decreases b,
{
    let g = gcd_spec(a, b) as int;
    if b == 0 {
        lemma_divides_by(g, a as int, 1);
        lemma_divides_by(g, 0, 0);
    } else {
        lemma_gcd_divides(b, a % b);
        let q = (a / b) as int;
        assert(a as int == b * q + (a % b)) by (nonlinear_arith)
            requires
                b > 0,
                q == a / b,
        ;
        lemma_divides_multiple(g, b as int, q);
        lemma_divides_sum(g, b * q, (a % b) as int);
    }
}

/// Every common divisor of the arguments divides their greatest common divisor.
pub proof fn lemma_gcd_greatest(a: nat, b: nat, d: int)
    requires
        divides(d, a as int),
        divides(d, b as int),
    ensures
        divides(d, gcd_spec(a, b) as int),
    decreases b,
{
    if b > 0 {
        let q = (a / b) as int;
        assert((a % b) as int == a - b * q) by (nonlinear_arith)
            requires
                b > 0,
                q == a / b,
        ;
        lemma_divides_multiple(d, b as int, q);
        lemma_divides_sum(d, a as int, b * q);
        lemma_gcd_greatest(b, a % b, d);
    }
}

/// The greatest common divisor does not depend on the order of its arguments.
pub proof fn lemma_gcd_commutative(a: nat, b: nat)
    ensures
        gcd_spec(a, b) == gcd_spec(b, a),
{
    lemma_gcd_divides(a, b);
    lemma_gcd_divides(b, a);
    lemma_gcd_greatest(b, a, gcd_spec(a, b) as int);
    lemma_gcd_greatest(a, b, gcd_spec(b, a) as int);
    lemma_divides_antisym(gcd_spec(a, b) as int, gcd_spec(b, a) as int);
}

/// Zero is divisible by everything, so the greatest common divisor of `a` and zero is `a`.
pub proof fn lemma_gcd_zero(a: nat)
    ensures
        gcd_spec(a, 0) == a,
        gcd_spec(0, a) == a,
{
    lemma_gcd_commutative(0, a);
}

/// The least common multiple times the greatest common divisor is the product.
pub proof fn lemma_lcm_times_gcd(a: nat, b: nat)
    requires
        a > 0 || b > 0,
    ensures
        lcm_spec(a, b) * gcd_spec(a, b) == a * b,
{
    let g = gcd_spec(a, b) as int;
    lemma_gcd_divides(a, b);
    lemma_gcd_positive(a, b);
    let k = choose|k: int| #[trigger] (g * k) == b as int;
    let p = (a * b) as int;
    assert(p == g * (a * k)) by (nonlinear_arith)
        requires
            g * k == b,
            p == a * b,
    ;
    vstd::arithmetic::div_mod::lemma_div_multiples_vanish(a * k, g);
    assert(p / g * g == p) by (nonlinear_arith)
        requires
            g > 0,
            p == g * (a * k),
            (g * (a * k)) / g == a * k,
    ;
}

proof fn lemma_gcd_positive(a: nat, b: nat)
    requires
        a > 0 || b > 0,
    ensures
        gcd_spec(a, b) > 0,
{
    lemma_gcd_divides(a, b);
    if gcd_spec(a, b) == 0 {
        let ka = choose|k: int| #[trigger] (0 * k) == a as int;
        let kb = choose|k: int| #[trigger] (0 * k) == b as int;
    }
}

/// A positive number's divisors are no larger than it.
proof fn lemma_gcd_bounded(a: nat, b: nat)
    requires
        a > 0,
    ensures
        gcd_spec(a, b) <= a,
{
    lemma_gcd_divides(a, b);
    let g = gcd_spec(a, b) as int;
    let k = choose|k: int| #[trigger] (g * k) == a as int;
    assert(g <= a) by (nonlinear_arith)
        requires
            g >= 0,
            a > 0,
            g * k == a,
    ;
}

/// Stein's step for two even arguments.
proof fn lemma_gcd_both_even(a: nat, b: nat)
    ensures
        gcd_spec(2 * a, 2 * b) == 2 * gcd_spec(a, b),
{
    let g = gcd_spec(a, b) as int;
    let h = gcd_spec(2 * a, 2 * b) as int;
    lemma_gcd_divides(a, b);
    lemma_divides_multiple(g, a as int, 2);
    lemma_divides_multiple(g, b as int, 2);
    lemma_gcd_greatest(2 * a, 2 * b, 2 * g);
    lemma_divides_by(2, (2 * a) as int, a as int);
    lemma_divides_by(2, (2 * b) as int, b as int);
    lemma_gcd_greatest(2 * a, 2 * b, 2);
    let c = choose|c: int| #[trigger] (2 * c) == h;
    lemma_gcd_divides(2 * a, 2 * b);
    lemma_divides_halve(c, a as int);
    lemma_divides_halve(c, b as int);
    lemma_gcd_greatest(a, b, c);
    lemma_divides_multiple(c, g, 2);
    lemma_divides_antisym(h, 2 * g);
}

/// Stein's step for an even first argument and an odd second one.
proof fn lemma_gcd_even_odd(a: nat, b: nat)
    requires
        b % 2 == 1,
    ensures
        gcd_spec(2 * a, b) == gcd_spec(a, b),
{
    let g = gcd_spec(a, b) as int;
    let h = gcd_spec(2 * a, b) as int;
    lemma_gcd_divides(a, b);
    lemma_divides_multiple(g, a as int, 2);
    lemma_gcd_greatest(2 * a, b, g);
    lemma_gcd_divides(2 * a, b);
    lemma_divides_odd(h, a as int, b as int);
    lemma_gcd_greatest(a, b, h);
    lemma_divides_antisym(g, h);
}

/// Subtracting the smaller argument from the larger keeps the greatest common divisor.
proof fn lemma_gcd_subtract(a: nat, b: nat)
    requires
        a >= b,
    ensures
        gcd_spec(a, b) == gcd_spec((a - b) as nat, b),
{
    let g = gcd_spec(a, b) as int;
    let h = gcd_spec((a - b) as nat, b) as int;
    lemma_gcd_divides(a, b);
    lemma_divides_sum(g, a as int, b as int);
    lemma_gcd_greatest((a - b) as nat, b, g);
    lemma_gcd_divides((a - b) as nat, b);
    lemma_divides_sum(h, (a - b) as int, b as int);
    lemma_gcd_greatest(a, b, h);
    lemma_divides_antisym(g, h);
}

/// Greatest common divisor of two unsigned integers, by Stein's binary algorithm.
pub fn gcd<T: Unsigned>(a: T, b: T) -> (r: T)
    ensures
        r.val() == gcd_spec(a.val() as nat, b.val() as nat),
    decreases a.val() + b.val(),
{
    proof {
        T::lemma_bounds(a);
        T::lemma_bounds(b);
        T::lemma_unsigned();
    }
    let ghost (x, y) = (a.val() as nat, b.val() as nat);
    let zero = T::zero();
    let two = T::two();
    if a.same(b) || b.same(zero) {
        proof {
            lemma_gcd_zero(x);
            if x == y {
                lemma_gcd_subtract(x, y);
                lemma_gcd_zero(y);
                assert(gcd_spec(x, y) == x);
            } else {
                assert(y == 0);
                assert(gcd_spec(x, y) == x);
            }
        }
        a
    } else if a.same(zero) {
        proof {
            lemma_gcd_zero(y);
        }
        b
    } else if a.is_even() {
        let half_a = a.quot(two);
        if b.is_odd() {
            proof {
                lemma_gcd_even_odd(x / 2, y);
            }
            gcd(half_a, b)
        } else {
            let half_b = b.quot(two);
            let g = gcd(half_a, half_b);
            proof {
                lemma_gcd_both_even(x / 2, y / 2);
                lemma_gcd_bounded(x / 2, y / 2);
            }
            two.times(g)
        }
    } else if b.is_even() {
        let half_b = b.quot(two);
        proof {
            lemma_gcd_commutative(x, y);
            lemma_gcd_commutative(x, y / 2);
            lemma_gcd_even_odd(y / 2, x);
        }
        gcd(a, half_b)
    } else if b.less(a) {
        let d = a.minus(b).quot(two);
        proof {
            lemma_gcd_subtract(x, y);
            lemma_gcd_even_odd(((x - y) / 2) as nat, y);
        }
        gcd(d, b)
    } else {
        let d = b.minus(a).quot(two);
        proof {
            lemma_gcd_commutative(x, y);
            lemma_gcd_subtract(y, x);
            lemma_gcd_even_odd(((y - x) / 2) as nat, x);
        }
        gcd(d, a)
    }
}

/// Least common multiple of two unsigned integers, through their greatest common divisor.
pub fn lcm<T: Unsigned>(a: T, b: T) -> (r: T)
    requires
        a.val() > 0 || b.val() > 0,
        a.val() * b.val() <= T::max_val(),
    ensures
        r.val() == lcm_spec(a.val() as nat, b.val() as nat),
{
    proof {
        T::lemma_bounds(a);
        T::lemma_bounds(b);
        T::lemma_unsigned();
        assert(a.val() * b.val() >= 0) by (nonlinear_arith)
            requires
                a.val() >= 0,
                b.val() >= 0,
        ;
    }
    let g = gcd(a, b);
    proof {
        lemma_gcd_positive(a.val() as nat, b.val() as nat);
        assert((a.val() * b.val()) / g.val() <= a.val() * b.val()) by (nonlinear_arith)
            requires
                g.val() > 0,
                a.val() * b.val() >= 0,
        ;
    }
    a.times(b).quot(g)
}

impl Numeric for i8 {
    open spec fn val(self) -> int {
        self as int
    }

    open spec fn min_val() -> int {
        -0x80
    }

    open spec fn max_val() -> int {
        0x7f
    }

    proof fn lemma_val_injective(x: Self, y: Self) {
    }

    proof fn lemma_bounds(x: Self) {
        assert(Self::min_val() == -0x80);
        assert(Self::max_val() == 0x7f);
    }

    fn zero() -> (r: Self) {
        0
    }

    fn one() -> (r: Self) {
        1
    }

    fn two() -> (r: Self) {
        2
    }

    fn plus(self, o: Self) -> (r: Self) {
        self + o
    }

    fn minus(self, o: Self) -> (r: Self) {
        self - o
    }

    fn times(self, o: Self) -> (r: Self) {
        self * o
    }

    fn quot(self, o: Self) -> (r: Self) {
        proof {
            lemma_no_div_overflow(self as int, o as int, Self::min_val());
        }
        self / o
    }

    fn rem(self, o: Self) -> (r: Self) {
        proof {
            lemma_no_div_overflow(self as int, o as int, Self::min_val());
        }
        self % o
    }

    fn same(self, o: Self) -> (r: bool) {
        self == o
    }

    fn less(self, o: Self) -> (r: bool) {
        self < o
    }

    fn to_decimal(self) -> (r: String) {
        signed_decimal(self as i128)
    }
}

impl Integer for i8 {
}

impl SignedInt for i8 {
    proof fn lemma_signed() {
    }

    fn negate(self) -> (r: Self) {
        -self
    }
}

impl Numeric for i16 {
    open spec fn val(self) -> int {
        self as int
    }

    open spec fn min_val() -> int {
        -0x8000
    }

    open spec fn max_val() -> int {
        0x7fff
    }

    proof fn lemma_val_injective(x: Self, y: Self) {
    }

    proof fn lemma_bounds(x: Self) {
        assert(Self::min_val() == -0x8000);
        assert(Self::max_val() == 0x7fff);
    }

    fn zero() -> (r: Self) {
        0
    }

    fn one() -> (r: Self) {
        1
    }

    fn two() -> (r: Self) {
        2
    }

    fn plus(self, o: Self) -> (r: Self) {
        self + o
    }

    fn minus(self, o: Self) -> (r: Self) {
        self - o
    }

    fn times(self, o: Self) -> (r: Self) {
        self * o
    }

    fn quot(self, o: Self) -> (r: Self) {
        proof {
            lemma_no_div_overflow(self as int, o as int, Self::min_val());
        }
        self / o
    }

    fn rem(self, o: Self) -> (r: Self) {
        proof {
            lemma_no_div_overflow(self as int, o as int, Self::min_val());
        }
        self % o
    }

    fn same(self, o: Self) -> (r: bool) {
        self == o
    }

    fn less(self, o: Self) -> (r: bool) {
        self < o
    }

    fn to_decimal(self) -> (r: String) {
        signed_decimal(self as i128)
    }
}

impl Integer for i16 {
}

impl SignedInt for i16 {
    proof fn lemma_signed() {
    }

    fn negate(self) -> (r: Self) {
        -self
    }
}

impl Numeric for i32 {
    open spec fn val(self) -> int {
        self as int
    }

    open spec fn min_val() -> int {
        -0x8000_0000
    }

    open spec fn max_val() -> int {
        0x7fff_ffff
    }

    proof fn lemma_val_injective(x: Self, y: Self) {
    }

    proof fn lemma_bounds(x: Self) {
        assert(Self::min_val() == -0x8000_0000);
        assert(Self::max_val() == 0x7fff_ffff);
    }

    fn zero() -> (r: Self) {
        0
    }

    fn one() -> (r: Self) {
        1
    }

    fn two() -> (r: Self) {
        2
    }

    fn plus(self, o: Self) -> (r: Self) {
        self + o
    }

    fn minus(self, o: Self) -> (r: Self) {
        self - o
    }

    fn times(self, o: Self) -> (r: Self) {
        self * o
    }

    fn quot(self, o: Self) -> (r: Self) {
        proof {
            lemma_no_div_overflow(self as int, o as int, Self::min_val());
        }
        self / o
    }

    fn rem(self, o: Self) -> (r: Self) {
        proof {
            lemma_no_div_overflow(self as int, o as int, Self::min_val());
        }
        self % o
    }

    fn same(self, o: Self) -> (r: bool) {
        self == o
    }

    fn less(self, o: Self) -> (r: bool) {
        self < o
    }

    fn to_decimal(self) -> (r: String) {
        signed_decimal(self as i128)
    }
}

impl Integer for i32 {
}

impl SignedInt for i32 {
    proof fn lemma_signed() {
    }

    fn negate(self) -> (r: Self) {
        -self
    }
}

impl Numeric for i64 {
    open spec fn val(self) -> int {
        self as int
    }

    open spec fn min_val() -> int {
        -0x8000_0000_0000_0000
    }

    open spec fn max_val() -> int {
        0x7fff_ffff_ffff_ffff
    }

    proof fn lemma_val_injective(x: Self, y: Self) {
    }

    proof fn lemma_bounds(x: Self) {
        assert(Self::min_val() == -0x8000_0000_0000_0000);
        assert(Self::max_val() == 0x7fff_ffff_ffff_ffff);
    }

    fn zero() -> (r: Self) {
        0
    }

    fn one() -> (r: Self) {
        1
    }

    fn two() -> (r: Self) {
        2
    }

    fn plus(self, o: Self) -> (r: Self) {
        self + o
    }

    fn minus(self, o: Self) -> (r: Self) {
        self - o
    }

    fn times(self, o: Self) -> (r: Self) {
        self * o
    }

    fn quot(self, o: Self) -> (r: Self) {
        proof {
            lemma_no_div_overflow(self as int, o as int, Self::min_val());
        }
        self / o
    }

    fn rem(self, o: Self) -> (r: Self) {
        proof {
            lemma_no_div_overflow(self as int, o as int, Self::min_val());
        }
        self % o
    }

    fn same(self, o: Self) -> (r: bool) {
        self == o
    }

    fn less(self, o: Self) -> (r: bool) {
        self < o
    }

    fn to_decimal(self) -> (r: String) {
        signed_decimal(self as i128)
    }
}

impl Integer for i64 {
}

impl SignedInt for i64 {
    proof fn lemma_signed() {
    }

    fn negate(self) -> (r: Self) {
        -self
    }
}

impl Numeric for i128 {
    open spec fn val(self) -> int {
        self as int
    }

    open spec fn min_val() -> int {
        -0x8000_0000_0000_0000_0000_0000_0000_0000
    }

    open spec fn max_val() -> int {
        0x7fff_ffff_ffff_ffff_ffff_ffff_ffff_ffff
    }

    proof fn lemma_val_injective(x: Self, y: Self) {
    }

    proof fn lemma_bounds(x: Self) {
        assert(Self::min_val() == -0x8000_0000_0000_0000_0000_0000_0000_0000);
        assert(Self::max_val() == 0x7fff_ffff_ffff_ffff_ffff_ffff_ffff_ffff);
    }

    fn zero() -> (r: Self) {
        0
    }

    fn one() -> (r: Self) {
        1
    }

    fn two() -> (r: Self) {
        2
    }

    fn plus(self, o: Self) -> (r: Self) {
        self + o
    }

    fn minus(self, o: Self) -> (r: Self) {
        self - o
    }

    fn times(self, o: Self) -> (r: Self) {
        self * o
    }

    fn quot(self, o: Self) -> (r: Self) {
        proof {
            lemma_no_div_overflow(self as int, o as int, Self::min_val());
        }
        self / o
    }

    fn rem(self, o: Self) -> (r: Self) {
        proof {
            lemma_no_div_overflow(self as int, o as int, Self::min_val());
        }
        self % o
    }

    fn same(self, o: Self) -> (r: bool) {
        self == o
    }

    fn less(self, o: Self) -> (r: bool) {
        self < o
    }

    fn to_decimal(self) -> (r: String) {
        signed_decimal(self as i128)
    }
}

impl Integer for i128 {
}

impl SignedInt for i128 {
    proof fn lemma_signed() {
    }

    fn negate(self) -> (r: Self) {
        -self
    }
}

impl Numeric for isize {
    open spec fn val(self) -> int {
        self as int
    }

    open spec fn min_val() -> int {
        isize::MIN as int
    }

    open spec fn max_val() -> int {
        isize::MAX as int
    }

    proof fn lemma_val_injective(x: Self, y: Self) {
    }

    proof fn lemma_bounds(x: Self) {
        assert(Self::min_val() == isize::MIN as int);
        assert(Self::max_val() == isize::MAX as int);
    }

    fn zero() -> (r: Self) {
        0
    }

    fn one() -> (r: Self) {
        1
    }

    fn two() -> (r: Self) {
        2
    }

    fn plus(self, o: Self) -> (r: Self) {
        self + o
    }

    fn minus(self, o: Self) -> (r: Self) {
        self - o
    }

    fn times(self, o: Self) -> (r: Self) {
        self * o
    }

    fn quot(self, o: Self) -> (r: Self) {
        proof {
            lemma_no_div_overflow(self as int, o as int, Self::min_val());
        }
        self / o
    }

    fn rem(self, o: Self) -> (r: Self) {
        proof {
            lemma_no_div_overflow(self as int, o as int, Self::min_val());
        }
        self % o
    }

    fn same(self, o: Self) -> (r: bool) {
        self == o
    }

    fn less(self, o: Self) -> (r: bool) {
        self < o
    }

    fn to_decimal(self) -> (r: String) {
        signed_decimal(self as i128)
    }
}

impl Integer for isize {
}

impl SignedInt for isize {
    proof fn lemma_signed() {
    }

    fn negate(self) -> (r: Self) {
        -self
    }
}

impl Numeric for u8 {
    open spec fn val(self) -> int {
        self as int
    }

    open spec fn min_val() -> int {
        0
    }

    open spec fn max_val() -> int {
        0xff
    }

    proof fn lemma_val_injective(x: Self, y: Self) {
    }

    proof fn lemma_bounds(x: Self) {
        assert(Self::min_val() == 0);
        assert(Self::max_val() == 0xff);
    }

    fn zero() -> (r: Self) {
        0
    }

    fn one() -> (r: Self) {
        1
    }

    fn two() -> (r: Self) {
        2
    }

    fn plus(self, o: Self) -> (r: Self) {
        self + o
    }

    fn minus(self, o: Self) -> (r: Self) {
        self - o
    }

    fn times(self, o: Self) -> (r: Self) {
        self * o
    }

    fn quot(self, o: Self) -> (r: Self) {
        self / o
    }

    fn rem(self, o: Self) -> (r: Self) {
        self % o
    }

    fn same(self, o: Self) -> (r: bool) {
        self == o
    }

    fn less(self, o: Self) -> (r: bool) {
        self < o
    }

    fn to_decimal(self) -> (r: String) {
        unsigned_decimal(self as u128)
    }
}

impl Integer for u8 {
}

impl Unsigned for u8 {
    proof fn lemma_unsigned() {
    }
}

impl Numeric for u16 {
    open spec fn val(self) -> int {
        self as int
    }

    open spec fn min_val() -> int {
        0
    }

    open spec fn max_val() -> int {
        0xffff
    }

    proof fn lemma_val_injective(x: Self, y: Self) {
    }

    proof fn lemma_bounds(x: Self) {
        assert(Self::min_val() == 0);
        assert(Self::max_val() == 0xffff);
    }

    fn zero() -> (r: Self) {
        0
    }

    fn one() -> (r: Self) {
        1
    }

    fn two() -> (r: Self) {
        2
    }

    fn plus(self, o: Self) -> (r: Self) {
        self + o
    }

    fn minus(self, o: Self) -> (r: Self) {
        self - o
    }

    fn times(self, o: Self) -> (r: Self) {
        self * o
    }

    fn quot(self, o: Self) -> (r: Self) {
        self / o
    }

    fn rem(self, o: Self) -> (r: Self) {
        self % o
    }

    fn same(self, o: Self) -> (r: bool) {
        self == o
    }

    fn less(self, o: Self) -> (r: bool) {
        self < o
    }

    fn to_decimal(self) -> (r: String) {
        unsigned_decimal(self as u128)
    }
}

impl Integer for u16 {
}

impl Unsigned for u16 {
    proof fn lemma_unsigned() {
    }
}

impl Numeric for u32 {
    open spec fn val(self) -> int {
        self as int
    }

    open spec fn min_val() -> int {
        0
    }

    open spec fn max_val() -> int {
        0xffff_ffff
    }

    proof fn lemma_val_injective(x: Self, y: Self) {
    }

    proof fn lemma_bounds(x: Self) {
        assert(Self::min_val() == 0);
        assert(Self::max_val() == 0xffff_ffff);
    }

    fn zero() -> (r: Self) {
        0
    }

    fn one() -> (r: Self) {
        1
    }

    fn two() -> (r: Self) {
        2
    }

    fn plus(self, o: Self) -> (r: Self) {
        self + o
    }

    fn minus(self, o: Self) -> (r: Self) {
        self - o
    }

    fn times(self, o: Self) -> (r: Self) {
        self * o
    }

    fn quot(self, o: Self) -> (r: Self) {
        self / o
    }

    fn rem(self, o: Self) -> (r: Self) {
        self % o
    }

    fn same(self, o: Self) -> (r: bool) {
        self == o
    }

    fn less(self, o: Self) -> (r: bool) {
        self < o
    }

    fn to_decimal(self) -> (r: String) {
        unsigned_decimal(self as u128)
    }
}

impl Integer for u32 {
}

impl Unsigned for u32 {
    proof fn lemma_unsigned() {
    }
}

impl Numeric for u64 {
    open spec fn val(self) -> int {
        self as int
    }

    open spec fn min_val() -> int {
        0
    }

    open spec fn max_val() -> int {
        0xffff_ffff_ffff_ffff
    }

    proof fn lemma_val_injective(x: Self, y: Self) {
    }

    proof fn lemma_bounds(x: Self) {
        assert(Self::min_val() == 0);
        assert(Self::max_val() == 0xffff_ffff_ffff_ffff);
    }

    fn zero() -> (r: Self) {
        0
    }

    fn one() -> (r: Self) {
        1
    }

    fn two() -> (r: Self) {
        2
    }

    fn plus(self, o: Self) -> (r: Self) {
        self + o
    }

    fn minus(self, o: Self) -> (r: Self) {
        self - o
    }

    fn times(self, o: Self) -> (r: Self) {
        self * o
    }

    fn quot(self, o: Self) -> (r: Self) {
        self / o
    }

    fn rem(self, o: Self) -> (r: Self) {
        self % o
    }

    fn same(self, o: Self) -> (r: bool) {
        self == o
    }

    fn less(self, o: Self) -> (r: bool) {
        self < o
    }

    fn to_decimal(self) -> (r: String) {
        unsigned_decimal(self as u128)
    }
}

impl Integer for u64 {
}

impl Unsigned for u64 {
    proof fn lemma_unsigned() {
    }
}

impl Numeric for u128 {
    open spec fn val(self) -> int {
        self as int
    }

    open spec fn min_val() -> int {
        0
    }

    open spec fn max_val() -> int {
        0xffff_ffff_ffff_ffff_ffff_ffff_ffff_ffff
    }

    proof fn lemma_val_injective(x: Self, y: Self) {
    }

    proof fn lemma_bounds(x: Self) {
        assert(Self::min_val() == 0);
        assert(Self::max_val() == 0xffff_ffff_ffff_ffff_ffff_ffff_ffff_ffff);
    }

    fn zero() -> (r: Self) {
        0
    }

    fn one() -> (r: Self) {
        1
    }

    fn two() -> (r: Self) {
        2
    }

    fn plus(self, o: Self) -> (r: Self) {
        self + o
    }

    fn minus(self, o: Self) -> (r: Self) {
        self - o
    }

    fn times(self, o: Self) -> (r: Self) {
        self * o
    }

    fn quot(self, o: Self) -> (r: Self) {
        self / o
    }

    fn rem(self, o: Self) -> (r: Self) {
        self % o
    }

    fn same(self, o: Self) -> (r: bool) {
        self == o
    }

    fn less(self, o: Self) -> (r: bool) {
        self < o
    }

    fn to_decimal(self) -> (r: String) {
        unsigned_decimal(self as u128)
    }
}

impl Integer for u128 {
}

impl Unsigned for u128 {
    proof fn lemma_unsigned() {
    }
}

impl Numeric for usize {
    open spec fn val(self) -> int {
        self as int
    }

    open spec fn min_val() -> int {
        usize::MIN as int
    }

    open spec fn max_val() -> int {
        usize::MAX as int
    }

    proof fn lemma_val_injective(x: Self, y: Self) {
    }

    proof fn lemma_bounds(x: Self) {
        assert(Self::min_val() == usize::MIN as int);
        assert(Self::max_val() == usize::MAX as int);
    }

    fn zero() -> (r: Self) {
        0
    }

    fn one() -> (r: Self) {
        1
    }

    fn two() -> (r: Self) {
        2
    }

    fn plus(self, o: Self) -> (r: Self) {
        self + o
    }

    fn minus(self, o: Self) -> (r: Self) {
        self - o
    }

    fn times(self, o: Self) -> (r: Self) {
        self * o
    }

    fn quot(self, o: Self) -> (r: Self) {
        self / o
    }

    fn rem(self, o: Self) -> (r: Self) {
        self % o
    }

    fn same(self, o: Self) -> (r: bool) {
        self == o
    }

    fn less(self, o: Self) -> (r: bool) {
        self < o
    }

    fn to_decimal(self) -> (r: String) {
        unsigned_decimal(self as u128)
    }
}

impl Integer for usize {
}

impl Unsigned for usize {
    proof fn lemma_unsigned() {
    }
}

} // verus!
