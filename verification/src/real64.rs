//! IEEE 754 binary64 numbers held by their bit pattern.
//!
//! Thresholds and readings are binary64 numbers. The library never needs
//! hardware floating point for them: it compares two numbers, and it rounds a
//! quotient of whole numbers to the nearest one. Both are integer work on the
//! bit pattern, and both are proved here against what the patterns stand for.

use vstd::prelude::*;

verus! {

/// Weight of the sign bit.
pub const SIGN: u64 = 0x8000_0000_0000_0000;

/// Weight of the lowest exponent bit, which is also the value of the implicit
/// leading bit of a normal significand.
pub const LEAD: u64 = 0x10_0000_0000_0000;

/// The pattern of positive infinity; a larger one below [`SIGN`] is a NaN.
pub const INFINITE: u64 = 0x7ff0_0000_0000_0000;

/// A binary64 number, by its bit pattern.
#[derive(Clone, Copy, Debug)]
pub struct Real64 {
    pub bits: u64,
}

/// The absolute value of the number whose pattern without the sign bit is
/// `magnitude`, as a multiple of the smallest positive binary64 number
/// (`2^-1074`). Infinity continues the scale: it lies above every finite number.
pub open spec fn units(magnitude: nat) -> nat {
    let exponent = magnitude / (LEAD as nat);
    let fraction = magnitude % (LEAD as nat);
    if exponent == 0 {
        fraction
    } else {
        (LEAD as nat + fraction) * vstd::arithmetic::power2::pow2((exponent - 1) as nat)
    }
}

impl Real64 {
    /// The pattern without its sign bit.
    pub open spec fn magnitude(self) -> nat {
        if self.bits >= SIGN {
            (self.bits - SIGN) as nat
        } else {
            self.bits as nat
        }
    }

    /// Whether the pattern stands for no number.
    pub open spec fn is_nan(self) -> bool {
        self.magnitude() > INFINITE
    }

    /// The signed value, as a multiple of `2^-1074`. Both zeros have value 0.
    pub open spec fn value(self) -> int {
        if self.bits >= SIGN {
            -(units(self.magnitude()) as int)
        } else {
            units(self.magnitude()) as int
        }
    }

    /// Whether `self` is the larger number. A NaN is neither larger nor smaller
    /// than anything.
    pub open spec fn exceeds(self, other: Real64) -> bool {
        !self.is_nan() && !other.is_nan() && self.value() > other.value()
    }

    /// The number with the given bit pattern.
    pub fn from_bits(bits: u64) -> (number: Real64)
        ensures
            number.bits == bits,
    {
        Real64 { bits }
    }

    /// The bit pattern of the number.
    pub fn to_bits(self) -> (bits: u64)
        ensures
            bits == self.bits,
    {
        self.bits
    }

    /// Whether `self > other`.
    pub fn gt(self, other: Real64) -> (larger: bool)
        ensures
            larger == self.exceeds(other),
    {
        let negative: bool = self.bits >= SIGN;
        let other_negative: bool = other.bits >= SIGN;
        let magnitude: u64 = if negative { self.bits - SIGN } else { self.bits };
        let other_magnitude: u64 = if other_negative { other.bits - SIGN } else { other.bits };
        proof {
            lemma_units_order(magnitude as nat, other_magnitude as nat);
            lemma_units_order(magnitude as nat, 0);
            lemma_units_order(other_magnitude as nat, 0);
        }
        if magnitude > INFINITE || other_magnitude > INFINITE {
            false
        } else if !negative && !other_negative {
            magnitude > other_magnitude
        } else if negative && other_negative {
            magnitude < other_magnitude
        } else if negative {
            false
        } else {
            magnitude > 0 || other_magnitude > 0
        }
    }

    /// Whether `self < other`.
    pub fn lt(self, other: Real64) -> (smaller: bool)
        ensures
            smaller == other.exceeds(self),
    {
        other.gt(self)
    }
}

/// Exponent of the number of units in 1: `1 == 2^1074` units.
pub const UNIT_EXPONENT: u32 = 1074;

/// How far `numerator / denominator` lies from the number with pattern
/// `magnitude`, in units, multiplied by `denominator`.
pub open spec fn gap(magnitude: nat, numerator: nat, denominator: nat) -> int {
    let distance = units(magnitude) * denominator - numerator * vstd::arithmetic::power2::pow2(
        UNIT_EXPONENT as nat,
    );
    if distance < 0 {
        -distance
    } else {
        distance
    }
}

/// Whether `magnitude` is the pattern of the binary64 number nearest to
/// `numerator / denominator`; of two numbers equally near it is the one with
/// the even pattern.
pub open spec fn nearest(magnitude: nat, numerator: nat, denominator: nat) -> bool {
    forall|other: nat|
        other != magnitude ==> {
            ||| gap(magnitude, numerator, denominator) < #[trigger] gap(
                other,
                numerator,
                denominator,
            )
            ||| gap(magnitude, numerator, denominator) == gap(other, numerator, denominator)
                && magnitude % 2 == 0
        }
}

/// A quotient brought to 53 binary digits: `significand` is the whole number
/// nearest to `numerator * 2^raised / (denominator * 2^lowered)`.
struct Rounded {
    significand: u64,
    raised: u32,
    lowered: u32,
}

impl Rounded {
    /// What [`round_quotient`] establishes for a quotient.
    spec fn of(self, numerator: nat, denominator: nat) -> bool {
        let n = numerator * vstd::arithmetic::power2::pow2(self.raised as nat);
        let d = denominator * vstd::arithmetic::power2::pow2(self.lowered as nat);
        let q = n / d;
        let r = n % d;
        &&& self.raised <= 90
        &&& self.lowered <= 90
        &&& LEAD <= q < 2 * LEAD
        &&& self.significand == if 2 * r > d || (2 * r == d && q % 2 == 1) {
            q + 1
        } else {
            q
        }
    }
}

/// Scales the quotient until its whole part has 53 binary digits, then rounds
/// it to the nearest whole number, to the even one of two.
fn round_quotient(numerator: u128, denominator: u128) -> (rounded: Rounded)
    requires
        1 <= numerator <= 0x2_0000_0000_0000_0000,
        1 <= denominator <= 0x1_0000_0000,
    ensures
        rounded.of(numerator as nat, denominator as nat),
        rounded.raised == 0 || rounded.lowered == 0,
{
    let mut n: u128 = numerator;
    let mut d: u128 = denominator;
    let mut raised: u32 = 0;
    let mut lowered: u32 = 0;
    proof {
        vstd::arithmetic::power2::lemma2_to64();
    }
    while n < d * 0x10_0000_0000_0000
        invariant
            1 <= numerator <= n,
            1 <= d <= 0x1_0000_0000,
            n <= 0x2_0000_0000_0000_0000 || n < d * 0x20_0000_0000_0000,
            n == numerator * vstd::arithmetic::power2::pow2(raised as nat),
            raised <= 84,
            raised > 0 ==> n < d * 0x20_0000_0000_0000,
        decreases d * 0x20_0000_0000_0000 - n,
    {
        proof {
            let p: nat = vstd::arithmetic::power2::pow2(raised as nat);
            vstd::arithmetic::power2::lemma_pow2_unfold((raised + 1) as nat);
            assert(numerator * (2 * p) == 2 * (numerator * p)) by (nonlinear_arith);
            vstd::arithmetic::power2::lemma2_to64();
            vstd::arithmetic::power2::lemma2_to64_rest();
            vstd::arithmetic::power2::lemma_pow2_adds(32, 52);
            lemma_few_doublings(numerator as nat, raised as nat, 84);
        }
        n = n * 2;
        raised = raised + 1;
    }
    while n >= d * 0x20_0000_0000_0000
        invariant
            1 <= denominator <= d,
            d * 0x10_0000_0000_0000 <= n,
            n <= 0x2_0000_0000_0000_0000 || n < 0x1_0000_0000 * 0x20_0000_0000_0000,
            d == denominator * vstd::arithmetic::power2::pow2(lowered as nat),
            lowered <= 33,
            raised > 0 ==> lowered == 0 && n < d * 0x20_0000_0000_0000,
        decreases n - d * 0x10_0000_0000_0000,
    {
        proof {
            let p: nat = vstd::arithmetic::power2::pow2(lowered as nat);
            vstd::arithmetic::power2::lemma_pow2_unfold((lowered + 1) as nat);
            assert(denominator * (2 * p) == 2 * (denominator * p)) by (nonlinear_arith);
            vstd::arithmetic::power2::lemma2_to64_rest();
            lemma_few_doublings(denominator as nat, lowered as nat, 33);
        }
        d = d * 2;
        lowered = lowered + 1;
    }
    let q: u128 = n / d;
    let r: u128 = n % d;
    proof {
        vstd::arithmetic::div_mod::lemma_fundamental_div_mod(n as int, d as int);
        assert(0x10_0000_0000_0000 <= q < 0x20_0000_0000_0000) by (nonlinear_arith)
            requires
                n == d * q + r,
                0 <= r < d,
                d * 0x10_0000_0000_0000 <= n < d * 0x20_0000_0000_0000,
        ;
    }
    let up: bool = 2 * r > d || (2 * r == d && q % 2 == 1);
    let significand: u64 = if up { (q + 1) as u64 } else { q as u64 };
    Rounded { significand, raised, lowered }
}

/// A positive number that was doubled `times` times and is still below
/// `2^bound` was doubled fewer than `bound` times.
proof fn lemma_few_doublings(start: nat, times: nat, bound: nat)
    requires
        1 <= start,
        start * vstd::arithmetic::power2::pow2(times) < vstd::arithmetic::power2::pow2(bound),
    ensures
        times < bound,
{
    if times >= bound {
        if times > bound {
            vstd::arithmetic::power2::lemma_pow2_strictly_increases(bound, times);
        }
        let p: nat = vstd::arithmetic::power2::pow2(times);
        assert(start * p >= p) by (nonlinear_arith)
            requires
                start >= 1,
        ;
    }
}

impl Real64 {
    /// Whether `self` is the whole number `count`, rounded to the nearest
    /// binary64 number.
    pub open spec fn is_count(self, count: nat) -> bool {
        self.bits < INFINITE && nearest(self.bits as nat, count, 1)
    }

    /// The whole number `count`, rounded to the nearest binary64 number.
    pub fn from_count(count: u64) -> (number: Real64)
        ensures
            number.is_count(count as nat),
            count < 2 * LEAD ==> number.value() == count * vstd::arithmetic::power2::pow2(
                UNIT_EXPONENT as nat,
            ),
    {
        let (bits, _whole) = round_whole(count);
        Real64 { bits }
    }

    /// Whether `self` is what dividing `count` by `divisor` gives, with `count`,
    /// `divisor` and the quotient each rounded to the nearest binary64 number.
    pub open spec fn is_quotient(self, count: nat, divisor: nat) -> bool {
        exists|c: Real64, d: Real64|
            {
                &&& #[trigger] c.is_count(count)
                &&& #[trigger] d.is_count(divisor)
                &&& self.bits < INFINITE
                &&& nearest(self.bits as nat, c.value() as nat, d.value() as nat)
            }
    }

    /// The quotient of two whole numbers.
    pub fn quotient(count: u64, divisor: u32) -> (number: Real64)
        requires
            divisor > 0,
        ensures
            number.is_quotient(count as nat, divisor as nat),
    {
        let (c, whole) = round_whole(count);
        let (d, _whole) = round_whole(divisor as u64);
        let bits: u64 = if whole == 0 {
            proof {
                lemma_zero(divisor as nat);
            }
            0
        } else {
            let rounded = round_quotient(whole, divisor as u128);
            pack(rounded, Ghost(whole as nat), Ghost(divisor as nat))
        };
        proof {
            let one: nat = vstd::arithmetic::power2::pow2(UNIT_EXPONENT as nat);
            vstd::arithmetic::power2::lemma_pow2_pos(UNIT_EXPONENT as nat);
            lemma_nearest_scales(bits as nat, whole as nat, divisor as nat, one);
            assert((Real64 { bits: c }).is_count(count as nat));
            assert((Real64 { bits: d }).is_count(divisor as nat));
        }
        Real64 { bits }
    }
}

/// A quotient has one nearest number: rounding is a function.
pub proof fn law_nearest_is_unique(a: nat, b: nat, numerator: nat, denominator: nat)
    requires
        denominator >= 1,
        nearest(a, numerator, denominator),
        nearest(b, numerator, denominator),
    ensures
        a == b,
{
    if a != b {
        assert(gap(a, numerator, denominator) == gap(b, numerator, denominator));
        if a < b {
            lemma_between_is_nearer(a, b, numerator, denominator);
        } else {
            lemma_between_is_nearer(b, a, numerator, denominator);
        }
    }
}

/// A whole number is rounded to one number.
pub proof fn law_count_is_unique(a: Real64, b: Real64, count: nat)
    requires
        a.is_count(count),
        b.is_count(count),
    ensures
        a == b,
{
    law_nearest_is_unique(a.bits as nat, b.bits as nat, count, 1);
}

/// A quotient is rounded to one number.
pub proof fn law_quotient_is_unique(a: Real64, b: Real64, count: nat, divisor: nat)
    requires
        divisor >= 1,
        a.is_quotient(count, divisor),
        b.is_quotient(count, divisor),
    ensures
        a == b,
{
    let (c, d) = choose|c: Real64, d: Real64|
        {
            &&& #[trigger] c.is_count(count)
            &&& #[trigger] d.is_count(divisor)
            &&& a.bits < INFINITE
            &&& nearest(a.bits as nat, c.value() as nat, d.value() as nat)
        };
    let (e, f) = choose|c: Real64, d: Real64|
        {
            &&& #[trigger] c.is_count(count)
            &&& #[trigger] d.is_count(divisor)
            &&& b.bits < INFINITE
            &&& nearest(b.bits as nat, c.value() as nat, d.value() as nat)
        };
    law_count_is_unique(c, e, count);
    law_count_is_unique(d, f, divisor);
    lemma_positive_count(d, divisor);
    law_nearest_is_unique(a.bits as nat, b.bits as nat, c.value() as nat, d.value() as nat);
}

/// Zero divided by anything is zero.
pub proof fn law_zero_quotient(number: Real64, divisor: nat)
    requires
        divisor >= 1,
        number.is_quotient(0, divisor),
    ensures
        number.bits == 0,
        number.value() == 0,
{
    let (c, d) = choose|c: Real64, d: Real64|
        {
            &&& #[trigger] c.is_count(0)
            &&& #[trigger] d.is_count(divisor)
            &&& number.bits < INFINITE
            &&& nearest(number.bits as nat, c.value() as nat, d.value() as nat)
        };
    lemma_zero(1);
    law_nearest_is_unique(c.bits as nat, 0, 0, 1);
    lemma_positive_count(d, divisor);
    lemma_zero(d.value() as nat);
    law_nearest_is_unique(number.bits as nat, 0, 0, d.value() as nat);
}

/// A positive whole number is not rounded to zero.
proof fn lemma_positive_count(number: Real64, count: nat)
    requires
        count >= 1,
        number.is_count(count),
    ensures
        number.value() >= 1,
{
    let one: nat = vstd::arithmetic::power2::pow2(UNIT_EXPONENT as nat);
    vstd::arithmetic::power2::lemma_pow2_pos(UNIT_EXPONENT as nat);
    if number.bits == 0 {
        assert(count * one >= 1) by (nonlinear_arith)
            requires
                count >= 1,
                one >= 1,
        ;
        assert(units(0) == 0 && units(1) == 1);
        assert(gap(0, count, 1) <= gap(1, count, 1));
        assert(false);
    } else {
        lemma_units_grow(0, number.bits as nat);
    }
}

/// A number between two that are equally near is nearer than they are.
proof fn lemma_between_is_nearer(low: nat, high: nat, numerator: nat, denominator: nat)
    requires
        denominator >= 1,
        low + 1 < high,
        gap(low, numerator, denominator) == gap(high, numerator, denominator),
    ensures
        gap(low + 1, numerator, denominator) < gap(low, numerator, denominator),
{
    lemma_units_grow(low, low + 1);
    lemma_units_grow(low + 1, high);
    let l: nat = units(low);
    let m: nat = units(low + 1);
    let h: nat = units(high);
    assert(l * denominator < m * denominator < h * denominator) by (nonlinear_arith)
        requires
            l < m < h,
            denominator >= 1,
    ;
}

/// Rounds a whole number to the nearest binary64 number: its pattern, and the
/// whole number it stands for. Below `2^53` nothing is lost.
fn round_whole(count: u64) -> (rounded: (u64, u128))
    ensures
        rounded.0 < INFINITE,
        nearest(rounded.0 as nat, count as nat, 1),
        units(rounded.0 as nat) == rounded.1 * vstd::arithmetic::power2::pow2(UNIT_EXPONENT as nat),
        rounded.1 <= 0x2_0000_0000_0000_0000,
        count < 2 * LEAD ==> rounded.1 == count,
{
    if count == 0 {
        proof {
            lemma_zero(1);
        }
        return (0, 0);
    }
    let rounded = round_quotient(count as u128, 1);
    let significand: u64 = rounded.significand;
    let lowered: u32 = rounded.lowered;
    proof {
        lemma_whole(rounded, count as nat);
        vstd::arithmetic::power2::lemma2_to64();
        assert(significand * vstd::arithmetic::power2::pow2(0) == significand) by (nonlinear_arith)
            requires
                vstd::arithmetic::power2::pow2(0) == 1,
        ;
    }
    let mut whole: u128 = if lowered > 0 { significand as u128 } else { count as u128 };
    let mut done: u32 = 0;
    while done < lowered
        invariant
            done <= lowered,
            whole == if lowered > 0 {
                significand * vstd::arithmetic::power2::pow2(done as nat)
            } else {
                count as int
            },
            significand * vstd::arithmetic::power2::pow2(lowered as nat) <= 2 * count || lowered == 0,
        decreases lowered - done,
    {
        proof {
            vstd::arithmetic::power2::lemma_pow2_unfold((done + 1) as nat);
            if done + 1 < lowered {
                vstd::arithmetic::power2::lemma_pow2_strictly_increases(
                    (done + 1) as nat,
                    lowered as nat,
                );
            }
            let p: nat = vstd::arithmetic::power2::pow2(done as nat);
            let l: nat = vstd::arithmetic::power2::pow2(lowered as nat);
            assert(significand * (2 * p) == 2 * (significand * p)) by (nonlinear_arith);
            assert(significand * (2 * p) <= significand * l) by (nonlinear_arith)
                requires
                    2 * p <= l,
            ;
        }
        whole = whole * 2;
        done = done + 1;
    }
    (pack(rounded, Ghost(count as nat), Ghost(1)), whole)
}

/// What a rounded whole number stands for.
proof fn lemma_whole(rounded: Rounded, count: nat)
    requires
        rounded.of(count, 1),
        rounded.raised == 0 || rounded.lowered == 0,
        count >= 1,
    ensures
        rounded.lowered == 0 ==> units(
            ((UNIT_EXPONENT + rounded.lowered - rounded.raised) * LEAD
                + rounded.significand) as nat,
        ) == count * vstd::arithmetic::power2::pow2(UNIT_EXPONENT as nat),
        rounded.lowered > 0 ==> units(
            ((UNIT_EXPONENT + rounded.lowered - rounded.raised) * LEAD
                + rounded.significand) as nat,
        ) == rounded.significand * vstd::arithmetic::power2::pow2(rounded.lowered as nat)
            * vstd::arithmetic::power2::pow2(UNIT_EXPONENT as nat),
        rounded.lowered > 0 ==> rounded.significand * vstd::arithmetic::power2::pow2(
            rounded.lowered as nat,
        ) <= 2 * count,
        rounded.lowered > 0 ==> count >= 2 * LEAD,
{
    let e: nat = (UNIT_EXPONENT + rounded.lowered - rounded.raised) as nat;
    let one: nat = vstd::arithmetic::power2::pow2(UNIT_EXPONENT as nat);
    let up: nat = vstd::arithmetic::power2::pow2(rounded.raised as nat);
    let down: nat = vstd::arithmetic::power2::pow2(rounded.lowered as nat);
    let scale: nat = vstd::arithmetic::power2::pow2(e);
    let sig: nat = rounded.significand as nat;
    vstd::arithmetic::power2::lemma2_to64();
    vstd::arithmetic::power2::lemma_pow2_pos(rounded.lowered as nat);
    lemma_units_normal(e, sig);
    vstd::arithmetic::power2::lemma_pow2_adds(e, rounded.raised as nat);
    vstd::arithmetic::power2::lemma_pow2_adds(UNIT_EXPONENT as nat, rounded.lowered as nat);
    assert(scale * up == one * down);
    if rounded.lowered == 0 {
        assert(count * up % 1 == 0 && count * up / 1 == count * up);
        assert(sig == count * up);
        assert(sig * scale == count * one) by (nonlinear_arith)
            requires
                sig == count * up,
                scale * up == one * down,
                down == 1,
        ;
    } else {
        assert(scale == one * down);
        assert(sig * scale == sig * down * one) by (nonlinear_arith)
            requires
                scale == one * down,
        ;
        assert(count * up == count && 1 * down == down) by (nonlinear_arith)
            requires
                up == 1,
        ;
        let q: nat = count / down;
        vstd::arithmetic::div_mod::lemma_fundamental_div_mod(count as int, down as int);
        assert(sig * down <= 2 * count && q * down <= count) by (nonlinear_arith)
            requires
                sig <= q + 1,
                q >= 1,
                count == down * q + count % down,
                count % down >= 0,
                down >= 1,
        ;
        vstd::arithmetic::power2::lemma_pow2_unfold(rounded.lowered as nat);
        vstd::arithmetic::power2::lemma_pow2_pos((rounded.lowered - 1) as nat);
        assert(q * down >= 2 * LEAD) by (nonlinear_arith)
            requires
                q >= LEAD,
                down >= 2,
        ;
    }
}

/// Zero is the number nearest to 0.
proof fn lemma_zero(denominator: nat)
    requires
        denominator >= 1,
    ensures
        nearest(0, 0, denominator),
        units(0) == 0,
{
    assert forall|other: nat| other != 0 implies gap(0, 0, denominator) < #[trigger] gap(
        other,
        0,
        denominator,
    ) by {
        lemma_units_grow(0, other);
        assert(units(other) * denominator > 0) by (nonlinear_arith)
            requires
                units(other) > 0,
                denominator >= 1,
        ;
    }
}

/// The nearest number to a quotient does not depend on how the quotient is written.
proof fn lemma_nearest_scales(magnitude: nat, numerator: nat, denominator: nat, factor: nat)
    requires
        factor >= 1,
        nearest(magnitude, numerator, denominator),
    ensures
        nearest(magnitude, numerator * factor, denominator * factor),
{
    assert forall|m: nat| gap(m, numerator * factor, denominator * factor) == factor
        * #[trigger] gap(m, numerator, denominator) by {
        let one: nat = vstd::arithmetic::power2::pow2(UNIT_EXPONENT as nat);
        let distance: int = units(m) * denominator - numerator * one;
        let u: nat = units(m);
        assert(u * (denominator * factor) - (numerator * factor) * one == factor * distance)
            by (nonlinear_arith)
            requires
                distance == u * denominator - numerator * one,
        ;
        assert(distance < 0 ==> factor * distance < 0) by (nonlinear_arith)
            requires
                factor >= 1,
        ;
        assert(distance >= 0 ==> factor * distance >= 0) by (nonlinear_arith)
            requires
                factor >= 1,
        ;
        assert(factor * (-distance) == -(factor * distance)) by (nonlinear_arith);
    }
    let g: int = gap(magnitude, numerator, denominator);
    assert forall|other: nat| other != magnitude implies {
        ||| gap(magnitude, numerator * factor, denominator * factor) < #[trigger] gap(
            other,
            numerator * factor,
            denominator * factor,
        )
        ||| gap(magnitude, numerator * factor, denominator * factor) == gap(
            other,
            numerator * factor,
            denominator * factor,
        ) && magnitude % 2 == 0
    } by {
        let h: int = gap(other, numerator, denominator);
        assert(g < h ==> factor * g < factor * h) by (nonlinear_arith)
            requires
                factor >= 1,
        ;
    }
}

/// The pattern of a rounded quotient.
fn pack(rounded: Rounded, Ghost(numerator): Ghost<nat>, Ghost(denominator): Ghost<nat>) -> (bits:
    u64)
    requires
        1 <= denominator,
        rounded.of(numerator, denominator),
    ensures
        bits < INFINITE,
        bits == (UNIT_EXPONENT + rounded.lowered - rounded.raised) * LEAD + rounded.significand,
        nearest(bits as nat, numerator, denominator),
{
    let exponent: u64 = (UNIT_EXPONENT + rounded.lowered - rounded.raised) as u64;
    proof {
        lemma_pack(rounded, numerator, denominator);
    }
    exponent * LEAD + rounded.significand
}

/// A quotient lies between two neighbouring numbers; the rounded significand
/// picks the nearer one.
proof fn lemma_pack(rounded: Rounded, numerator: nat, denominator: nat)
    requires
        1 <= denominator,
        rounded.of(numerator, denominator),
    ensures
        nearest(
            ((UNIT_EXPONENT + rounded.lowered - rounded.raised) * LEAD
                + rounded.significand) as nat,
            numerator,
            denominator,
        ),
{
    let up: nat = vstd::arithmetic::power2::pow2(rounded.raised as nat);
    let down: nat = vstd::arithmetic::power2::pow2(rounded.lowered as nat);
    let one: nat = vstd::arithmetic::power2::pow2(UNIT_EXPONENT as nat);
    let e: nat = (UNIT_EXPONENT + rounded.lowered - rounded.raised) as nat;
    let scale: nat = vstd::arithmetic::power2::pow2(e);
    let n: nat = numerator * up;
    let d: nat = denominator * down;
    let q: nat = n / d;
    let r: nat = n % d;
    let low: nat = e * LEAD as nat + q;
    let high: nat = low + 1;
    vstd::arithmetic::power2::lemma_pow2_pos(rounded.raised as nat);
    vstd::arithmetic::power2::lemma_pow2_pos(rounded.lowered as nat);
    vstd::arithmetic::power2::lemma_pow2_pos(UNIT_EXPONENT as nat);
    vstd::arithmetic::power2::lemma_pow2_pos(e);
    assert(d >= 1) by (nonlinear_arith)
        requires
            d == denominator * down,
            denominator >= 1,
            down >= 1,
    ;
    vstd::arithmetic::div_mod::lemma_fundamental_div_mod(n as int, d as int);
    lemma_units_normal(e, q);
    lemma_units_normal(e, q + 1);
    vstd::arithmetic::power2::lemma_pow2_adds(e, rounded.raised as nat);
    vstd::arithmetic::power2::lemma_pow2_adds(UNIT_EXPONENT as nat, rounded.lowered as nat);
    assert(scale * up == one * down);
    let below: int = numerator * one - units(low) * denominator;
    let above: int = units(high) * denominator - numerator * one;
    assert(below * up == r * one) by (nonlinear_arith)
        requires
            below == numerator * one - (q * scale) * denominator,
            scale * up == one * down,
            n == numerator * up,
            d == denominator * down,
            n == d * q + r,
    {
        assert(((q * scale) * denominator) * up == (scale * up) * (q * denominator));
        assert((one * down) * (q * denominator) == (d * q) * one);
        assert((numerator * one) * up == n * one);
    }
    assert(above * up == (d - r) * one) by (nonlinear_arith)
        requires
            above == ((q + 1) * scale) * denominator - numerator * one,
            scale * up == one * down,
            n == numerator * up,
            d == denominator * down,
            n == d * q + r,
    {
        assert((((q + 1) * scale) * denominator) * up == (scale * up) * ((q + 1) * denominator));
        assert((one * down) * ((q + 1) * denominator) == (d * (q + 1)) * one);
        assert((numerator * one) * up == n * one);
    }
    lemma_scaled_order(below, r as int, up as int, one as int, above, d - r);
    assert forall|other: nat| other != low && other != high implies {
        ||| other < low && gap(other, numerator, denominator) > below
        ||| other > high && gap(other, numerator, denominator) > above
    } by {
        if other < low {
            lemma_units_grow(other, low);
            assert(units(other) * denominator < units(low) * denominator) by (nonlinear_arith)
                requires
                    units(other) < units(low),
                    denominator >= 1,
            ;
        } else {
            lemma_units_grow(high, other);
            assert(units(other) * denominator > units(high) * denominator) by (nonlinear_arith)
                requires
                    units(other) > units(high),
                    denominator >= 1,
            ;
        }
    }
    assert(e * LEAD as nat % 2 == 0) by (nonlinear_arith)
        requires
            LEAD == 2 * 0x8_0000_0000_0000,
    ;
    assert(low % 2 == q % 2);
    assert(gap(low, numerator, denominator) == below);
    assert(gap(high, numerator, denominator) == above);
}

/// Two quantities that are positive multiples of two others are ordered alike.
proof fn lemma_scaled_order(a: int, x: int, f: int, g: int, b: int, y: int)
    requires
        f > 0,
        g > 0,
        a * f == x * g,
        b * f == y * g,
        x >= 0,
        y > 0,
    ensures
        a >= 0,
        b > 0,
        a < b <==> x < y,
        a == b <==> x == y,
{
    assert(a >= 0) by (nonlinear_arith)
        requires
            f > 0,
            g > 0,
            a * f == x * g,
            x >= 0,
    ;
    assert(b > 0) by (nonlinear_arith)
        requires
            f > 0,
            g > 0,
            b * f == y * g,
            y > 0,
    ;
    if x < y {
        assert(a < b) by (nonlinear_arith)
            requires
                f > 0,
                g > 0,
                a * f == x * g,
                b * f == y * g,
                x < y,
        ;
    } else if x > y {
        assert(a > b) by (nonlinear_arith)
            requires
                f > 0,
                g > 0,
                a * f == x * g,
                b * f == y * g,
                x > y,
        ;
    } else {
        assert(a == b) by (nonlinear_arith)
            requires
                f > 0,
                a * f == b * f,
        ;
    }
}

/// The value of a normal number, by its exponent and its full significand; the
/// significand `2^53` carries into the exponent.
proof fn lemma_units_normal(exponent: nat, significand: nat)
    requires
        LEAD <= significand <= 2 * LEAD,
    ensures
        units(exponent * LEAD as nat + significand) == significand
            * vstd::arithmetic::power2::pow2(exponent),
{
    let lead: nat = LEAD as nat;
    let magnitude: nat = exponent * lead + significand;
    if significand < 2 * LEAD {
        vstd::arithmetic::div_mod::lemma_fundamental_div_mod_converse(
            magnitude as int,
            lead as int,
            exponent as int + 1,
            significand - lead,
        );
    } else {
        vstd::arithmetic::div_mod::lemma_fundamental_div_mod_converse(
            magnitude as int,
            lead as int,
            exponent as int + 2,
            0,
        );
        vstd::arithmetic::power2::lemma_pow2_unfold(exponent + 1);
        let p: nat = vstd::arithmetic::power2::pow2(exponent);
        assert((lead + 0) * (2 * p) == (2 * lead) * p) by (nonlinear_arith);
    }
}

/// The scale grows with the pattern: a larger pattern stands for a larger
/// absolute value.
proof fn lemma_units_grow(a: nat, b: nat)
    requires
        a < b,
    ensures
        units(a) < units(b),
{
    let lead: nat = LEAD as nat;
    let ea: nat = a / lead;
    let eb: nat = b / lead;
    let fa: nat = a % lead;
    let fb: nat = b % lead;
    vstd::arithmetic::div_mod::lemma_fundamental_div_mod(a as int, lead as int);
    vstd::arithmetic::div_mod::lemma_fundamental_div_mod(b as int, lead as int);
    assert(ea <= eb);
    if ea == eb {
        assert(fa < fb);
        if ea > 0 {
            let p: nat = vstd::arithmetic::power2::pow2((ea - 1) as nat);
            vstd::arithmetic::power2::lemma_pow2_pos((ea - 1) as nat);
            assert((lead + fa) * p < (lead + fb) * p) by (nonlinear_arith)
                requires
                    fa < fb,
                    p > 0,
            ;
        }
    } else {
        let pb: nat = vstd::arithmetic::power2::pow2((eb - 1) as nat);
        vstd::arithmetic::power2::lemma_pow2_pos((eb - 1) as nat);
        assert((lead + fb) * pb >= lead * pb) by (nonlinear_arith);
        if ea == 0 {
            assert(lead * pb >= lead) by (nonlinear_arith)
                requires
                    pb >= 1,
            ;
        } else {
            let pa: nat = vstd::arithmetic::power2::pow2((ea - 1) as nat);
            vstd::arithmetic::power2::lemma_pow2_pos((ea - 1) as nat);
            vstd::arithmetic::power2::lemma_pow2_unfold(ea);
            if ea < (eb - 1) as nat {
                vstd::arithmetic::power2::lemma_pow2_strictly_increases(ea, (eb - 1) as nat);
            }
            assert(pb >= 2 * pa);
            assert((lead + fa) * pa < (lead + lead) * pa) by (nonlinear_arith)
                requires
                    fa < lead,
                    pa > 0,
            ;
            assert((lead + lead) * pa == lead * (2 * pa)) by (nonlinear_arith);
            assert(lead * (2 * pa) <= lead * pb) by (nonlinear_arith)
                requires
                    2 * pa <= pb,
            ;
        }
    }
}

/// The scale orders patterns as they are ordered as integers.
proof fn lemma_units_order(a: nat, b: nat)
    ensures
        a < b <==> units(a) < units(b),
        a == b <==> units(a) == units(b),
{
    if a < b {
        lemma_units_grow(a, b);
    } else if b < a {
        lemma_units_grow(b, a);
    }
}

/// How numbers are ordered by their bits: positive ones as the bits are, negative
/// ones the other way round, negative ones below positive ones, the two zeros
/// level, and a pattern beyond infinity above and below nothing.
pub proof fn law_order_of_patterns(a: Real64, b: Real64)
    ensures
        a.bits < 0x8000_0000_0000_0000 && b.bits < 0x8000_0000_0000_0000 ==> (a.exceeds(b)
            <==> b.bits < a.bits <= 0x7ff0_0000_0000_0000),
        a.bits >= 0x8000_0000_0000_0000 && b.bits >= 0x8000_0000_0000_0000 ==> (a.exceeds(b)
            <==> a.bits < b.bits <= 0xfff0_0000_0000_0000),
        a.bits < 0x8000_0000_0000_0000 <= b.bits ==> (a.exceeds(b) <==> a.bits
            <= 0x7ff0_0000_0000_0000 && b.bits <= 0xfff0_0000_0000_0000 && (a.bits > 0 || b.bits
            > 0x8000_0000_0000_0000)),
        b.bits < 0x8000_0000_0000_0000 <= a.bits ==> !a.exceeds(b),
{
    lemma_units_order(a.magnitude(), b.magnitude());
    lemma_units_order(a.magnitude(), 0);
    lemma_units_order(b.magnitude(), 0);
    assert(units(0) == 0);
}

/// Comparing goes by that order, in both directions.
pub proof fn law_comparisons_agree(a: Real64, b: Real64, larger: bool, smaller: bool)
    requires
        call_ensures(Real64::gt, (a, b), larger),
        call_ensures(Real64::lt, (b, a), smaller),
    ensures
        larger == a.exceeds(b),
        smaller == larger,
{
}

/// The bits of a whole number that has no more than 53 binary digits: scaled to 53
/// of them, with the number of doublings taken off the exponent.
pub proof fn law_bits_of_count(number: Real64, count: nat, doublings: nat)
    requires
        number.is_count(count),
        doublings <= 1074,
        0x10_0000_0000_0000 <= count * vstd::arithmetic::power2::pow2(doublings)
            < 0x20_0000_0000_0000,
    ensures
        number.bits == (1074 - doublings) * 0x10_0000_0000_0000 + count
            * vstd::arithmetic::power2::pow2(doublings),
{
    let one: nat = vstd::arithmetic::power2::pow2(UNIT_EXPONENT as nat);
    let up: nat = vstd::arithmetic::power2::pow2(doublings);
    let e: nat = (UNIT_EXPONENT - doublings) as nat;
    let scale: nat = vstd::arithmetic::power2::pow2(e);
    let significand: nat = count * up;
    let pattern: nat = e * LEAD as nat + significand;
    lemma_units_normal(e, significand);
    vstd::arithmetic::power2::lemma_pow2_adds(e, doublings);
    assert(significand * scale == count * one) by (nonlinear_arith)
        requires
            significand == count * up,
            scale * up == one,
    ;
    assert(units(pattern) * 1 == count * one);
    assert(gap(pattern, count, 1) == 0);
    if number.bits as nat != pattern {
        assert(gap(number.bits as nat, count, 1) <= gap(pattern, count, 1));
        lemma_units_order(number.bits as nat, pattern);
        assert(false);
    }
}

/// No other number is nearer to a whole number than what it is rounded to.
pub proof fn law_count_is_nearest(number: Real64, count: nat, other: Real64)
    requires
        number.is_count(count),
        other.bits < 0x8000_0000_0000_0000,
    ensures
        ({
            let exact = count * vstd::arithmetic::power2::pow2(1074);
            let distance = if number.value() < exact {
                exact - number.value()
            } else {
                number.value() - exact
            };
            let other_distance = if other.value() < exact {
                exact - other.value()
            } else {
                other.value() - exact
            };
            distance <= other_distance
        }),
{
    if other.bits != number.bits {
        assert(gap(number.bits as nat, count, 1) <= gap(other.bits as nat, count, 1));
    }
    assert(units(number.bits as nat) * 1 == units(number.bits as nat));
    assert(units(other.bits as nat) * 1 == units(other.bits as nat));
}

/// No other number is nearer to the quotient of two whole numbers than what it is
/// rounded to, where the whole numbers have no more than 53 binary digits.
pub proof fn law_quotient_is_nearest(number: Real64, count: u64, divisor: u32, other: Real64)
    requires
        divisor >= 1,
        count < 0x20_0000_0000_0000,
        number.is_quotient(count as nat, divisor as nat),
        other.bits < 0x8000_0000_0000_0000,
    ensures
        ({
            let exact = count * vstd::arithmetic::power2::pow2(1074);
            let value = number.value() * divisor;
            let other_value = other.value() * divisor;
            let distance = if value < exact {
                exact - value
            } else {
                value - exact
            };
            let other_distance = if other_value < exact {
                exact - other_value
            } else {
                other_value - exact
            };
            distance <= other_distance
        }),
{
    let one: nat = vstd::arithmetic::power2::pow2(UNIT_EXPONENT as nat);
    vstd::arithmetic::power2::lemma_pow2_pos(UNIT_EXPONENT as nat);
    let (c, d) = choose|c: Real64, d: Real64|
        {
            &&& #[trigger] c.is_count(count as nat)
            &&& #[trigger] d.is_count(divisor as nat)
            &&& number.bits < INFINITE
            &&& nearest(number.bits as nat, c.value() as nat, d.value() as nat)
        };
    law_small_counts_are_exact(c, count as nat);
    law_small_counts_are_exact(d, divisor as nat);
    let n: nat = units(number.bits as nat);
    let m: nat = units(other.bits as nat);
    if other.bits != number.bits {
        assert(gap(number.bits as nat, c.value() as nat, d.value() as nat) <= gap(
            other.bits as nat,
            c.value() as nat,
            d.value() as nat,
        ));
        lemma_distance_scales(n as int, count as int, divisor as int, one as int);
        lemma_distance_scales(m as int, count as int, divisor as int, one as int);
        let x: int = n * divisor - count * one;
        let y: int = m * divisor - count * one;
        let a: int = if x < 0 { -x } else { x };
        let b: int = if y < 0 { -y } else { y };
        assert((-x) * one == -(x * one) && (-y) * one == -(y * one)) by (nonlinear_arith);
        assert(a <= b) by (nonlinear_arith)
            requires
                a * one <= b * one,
                one >= 1,
        ;
    }
}

/// A whole number that has no more than 53 binary digits is kept as it is.
pub proof fn law_small_counts_are_exact(number: Real64, count: nat)
    requires
        count < 0x20_0000_0000_0000,
        number.is_count(count),
    ensures
        number.value() == count * vstd::arithmetic::power2::pow2(1074),
{
    if count == 0 {
        lemma_zero(1);
        law_nearest_is_unique(number.bits as nat, 0, 0, 1);
    } else {
        vstd::arithmetic::power2::lemma2_to64();
        assert(count * vstd::arithmetic::power2::pow2(0) == count);
        lemma_exact_count(number, count, 0);
    }
}

/// The same, after a number of doublings that leaves room.
proof fn lemma_exact_count(number: Real64, count: nat, doublings: nat)
    requires
        count >= 1,
        count * vstd::arithmetic::power2::pow2(doublings) < 0x20_0000_0000_0000,
        number.is_count(count),
    ensures
        number.value() == count * vstd::arithmetic::power2::pow2(UNIT_EXPONENT as nat),
    decreases 0x20_0000_0000_0000 - count * vstd::arithmetic::power2::pow2(doublings),
{
    let up: nat = vstd::arithmetic::power2::pow2(doublings);
    let one: nat = vstd::arithmetic::power2::pow2(UNIT_EXPONENT as nat);
    vstd::arithmetic::power2::lemma_pow2_pos(doublings);
    vstd::arithmetic::power2::lemma2_to64_rest();
    lemma_few_doublings(count, doublings, 53);
    assert(count * up >= 1) by (nonlinear_arith)
        requires
            count >= 1,
            up >= 1,
    ;
    if count * up < 0x10_0000_0000_0000 {
        vstd::arithmetic::power2::lemma_pow2_unfold(doublings + 1);
        assert(count * (2 * up) == 2 * (count * up)) by (nonlinear_arith);
        lemma_exact_count(number, count, doublings + 1);
    } else {
        let e: nat = (UNIT_EXPONENT - doublings) as nat;
        let scale: nat = vstd::arithmetic::power2::pow2(e);
        law_bits_of_count(number, count, doublings);
        lemma_units_normal(e, count * up);
        vstd::arithmetic::power2::lemma_pow2_adds(e, doublings);
        assert((count * up) * scale == count * one) by (nonlinear_arith)
            requires
                scale * up == one,
        ;
    }
}

/// A common factor of a distance can be taken out.
proof fn lemma_distance_scales(n: int, count: int, divisor: int, one: int)
    requires
        one >= 1,
    ensures
        n * (divisor * one) - (count * one) * one == (n * divisor - count * one) * one,
        n * divisor - count * one >= 0 ==> n * (divisor * one) - (count * one) * one >= 0,
        n * divisor - count * one < 0 ==> n * (divisor * one) - (count * one) * one < 0,
{
    let x: int = n * divisor - count * one;
    assert(n * (divisor * one) - (count * one) * one == x * one) by (nonlinear_arith)
        requires
            x == n * divisor - count * one,
    ;
    assert(x >= 0 ==> x * one >= 0) by (nonlinear_arith)
        requires
            one >= 1,
    ;
    assert(x < 0 ==> x * one < 0) by (nonlinear_arith)
        requires
            one >= 1,
    ;
}

} // verus!
