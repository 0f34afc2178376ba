//! IEEE 754 numbers handled as bit patterns.
//!
//! Audio samples cross this library as the `u32` bit pattern of a
//! single-precision number, rates as the `u64` bit pattern of a
//! double-precision one. A pattern is a sign bit above a magnitude, and
//! magnitudes are ordered as the numbers they stand for, so classifying,
//! comparing, clamping and converting are all integer work.
//!
//! Values are stated exactly: a single-precision magnitude is a whole number
//! of units of `2^-149`, a double-precision one of units of `2^-1074`.

use vstd::arithmetic::{div_mod, power2};
use vstd::prelude::*;

verus! {

/// The sign bit of a single-precision pattern.
pub const SIGN: u32 = 0x8000_0000;

/// Weight of one step of a single-precision exponent field.
pub const EXPONENT_STEP: u32 = 0x0080_0000;

/// Magnitude of infinity; anything larger is a NaN.
pub const INFINITY: u32 = 0x7F80_0000;

/// A pattern that is not a number.
pub const QUIET_NAN: u32 = 0x7FC0_0000;

/// The sign bit of a double-precision pattern.
pub const WIDE_SIGN: u64 = 0x8000_0000_0000_0000;

/// Weight of one step of a double-precision exponent field.
pub const WIDE_EXPONENT_STEP: u64 = 0x0010_0000_0000_0000;

/// Double-precision magnitude of infinity.
pub const WIDE_INFINITY: u64 = 0x7FF0_0000_0000_0000;

// ---------------------------------------------------------------------------
// What a pattern means
// ---------------------------------------------------------------------------

/// The pattern without its sign bit.
pub open spec fn magnitude(bits: u32) -> int {
    bits as int % SIGN as int
}

/// Whether the sign bit is set.
pub open spec fn negative(bits: u32) -> bool {
    bits >= SIGN
}

/// Whether the pattern stands for a number other than an infinity.
pub open spec fn finite(bits: u32) -> bool {
    magnitude(bits) < INFINITY
}

/// Whether the pattern stands for no number at all.
pub open spec fn not_a_number(bits: u32) -> bool {
    magnitude(bits) > INFINITY
}

/// Size of the number with magnitude `m`, in units of `2^-149`.
///
/// Infinity counts as the next number the format would hold had it one more
/// exponent, which is what rounding to nearest compares against.
pub open spec fn magnitude_units(m: int) -> int {
    let exponent = m / EXPONENT_STEP as int;
    let fraction = m % EXPONENT_STEP as int;
    if exponent <= 1 {
        m
    } else {
        (fraction + EXPONENT_STEP) * power2::pow2((exponent - 1) as nat)
    }
}

/// The number a pattern stands for, in units of `2^-149`.
pub open spec fn units(bits: u32) -> int {
    if negative(bits) {
        -magnitude_units(magnitude(bits))
    } else {
        magnitude_units(magnitude(bits))
    }
}

/// The double-precision pattern without its sign bit.
pub open spec fn wide_magnitude(bits: u64) -> int {
    bits as int % WIDE_SIGN as int
}

/// Whether the double-precision sign bit is set.
pub open spec fn wide_negative(bits: u64) -> bool {
    bits >= WIDE_SIGN
}

/// Whether a double-precision pattern stands for a number other than an
/// infinity.
pub open spec fn wide_finite(bits: u64) -> bool {
    wide_magnitude(bits) < WIDE_INFINITY
}

/// Size of the double-precision number with magnitude `m`, in units of
/// `2^-1074`.
pub open spec fn wide_magnitude_units(m: int) -> int {
    let exponent = m / WIDE_EXPONENT_STEP as int;
    let fraction = m % WIDE_EXPONENT_STEP as int;
    if exponent <= 1 {
        m
    } else {
        (fraction + WIDE_EXPONENT_STEP) * power2::pow2((exponent - 1) as nat)
    }
}

/// Whether `m` is the single-precision magnitude nearest to `x / scale` units,
/// ties going to the even pattern.
///
/// Consecutive magnitudes are consecutive numbers, so this says that `x` lies
/// between the midpoints to the two neighbours.
pub open spec fn nearest(x: int, scale: int, m: int) -> bool {
    &&& 0 <= m <= INFINITY
    &&& m < INFINITY ==> {
        let midpoint = scale * (magnitude_units(m) + magnitude_units(m + 1));
        2 * x < midpoint || (2 * x == midpoint && m % 2 == 0)
    }
    &&& m > 0 ==> {
        let midpoint = scale * (magnitude_units(m - 1) + magnitude_units(m));
        2 * x > midpoint || (2 * x == midpoint && m % 2 == 0)
    }
}

/// The magnitude nearest to `x / scale` units.
pub open spec fn rounded(x: int, scale: int) -> int {
    choose|m: int| nearest(x, scale, m)
}

/// The pattern of magnitude `m` with the given sign.
pub open spec fn signed(minus: bool, m: int) -> u32 {
    if minus {
        (SIGN + m) as u32
    } else {
        m as u32
    }
}

/// The single-precision number nearest to `raw / 2^scale_bits`.
pub open spec fn fraction_of(raw: int, scale_bits: int) -> u32 {
    let size = if raw < 0 {
        -raw
    } else {
        raw
    };
    signed(raw < 0, rounded(size * power2::pow2((149 - scale_bits) as nat), 1))
}

/// The single-precision number nearest to a double-precision one.
pub open spec fn narrowed(bits: u64) -> u32 {
    let size = wide_magnitude(bits);
    signed(
        wide_negative(bits),
        if size > WIDE_INFINITY {
            QUIET_NAN as int
        } else if size == WIDE_INFINITY {
            INFINITY as int
        } else {
            rounded(wide_magnitude_units(size), power2::pow2(925) as int)
        },
    )
}

// ---------------------------------------------------------------------------
// Facts about magnitudes
// ---------------------------------------------------------------------------

/// A significand `q` at exponent `e` packs into the magnitude
/// `e * 2^23 + q`, carries included.
pub proof fn lemma_packed_units(e: nat, q: int)
    requires
        0 <= q <= 0x100_0000,
        e == 0 || q >= 0x80_0000,
    ensures
        magnitude_units(e * 0x80_0000 + q) == q * power2::pow2(e),
{
    let m: int = e * 0x80_0000 + q;
    power2::lemma2_to64();
    let p = power2::pow2(e) as int;
    if q == 0x100_0000 {
        assert(m / 0x80_0000 == e + 2);
        assert(m % 0x80_0000 == 0);
        power2::lemma_pow2_unfold(e + 1);
        assert(0x80_0000 * (2 * p) == 0x100_0000 * p) by (nonlinear_arith);
    } else if e > 0 {
        assert(m / 0x80_0000 == e + 1);
        assert(m % 0x80_0000 == q - 0x80_0000);
    } else {
        assert(m / 0x80_0000 <= 1);
        assert(q * p == q) by (nonlinear_arith)
            requires
                p == 1,
        ;
    }
}

/// A larger magnitude is a larger number.
pub proof fn lemma_units_increase(a: int, b: int)
    requires
        0 <= a < b,
    ensures
        0 <= magnitude_units(a) < magnitude_units(b),
    decreases b,
{
    let below = b - 1;
    let exponent = below / 0x80_0000;
    let fraction = below % 0x80_0000;
    if exponent == 0 {
        assert(b / 0x80_0000 <= 1);
    } else {
        let e = (exponent - 1) as nat;
        lemma_packed_units(e, fraction + 0x80_0000);
        lemma_packed_units(e, fraction + 0x80_0001);
        power2::lemma_pow2_pos(e);
        let p = power2::pow2(e) as int;
        assert(0 < (fraction + 0x80_0000) * p < (fraction + 0x80_0001) * p) by (nonlinear_arith)
            requires
                p > 0,
                fraction >= 0,
        ;
    }
    if a < below {
        lemma_units_increase(a, below);
    }
}

/// Only one magnitude is nearest to a number.
pub proof fn lemma_nearest_unique(x: int, scale: int, m: int)
    requires
        scale > 0,
        nearest(x, scale, m),
    ensures
        rounded(x, scale) == m,
{
    let r = rounded(x, scale);
    assert(nearest(x, scale, r));
    lemma_nearest_ordered(x, scale, r, m);
    lemma_nearest_ordered(x, scale, m, r);
}

/// A number is not nearest to two magnitudes in turn.
proof fn lemma_nearest_ordered(x: int, scale: int, a: int, b: int)
    requires
        scale > 0,
        nearest(x, scale, a),
        nearest(x, scale, b),
    ensures
        a >= b,
{
    if a + 1 < b {
        lemma_units_increase(a, b - 1);
        lemma_units_increase(a + 1, b);
        let low = magnitude_units(a) + magnitude_units(a + 1);
        let high = magnitude_units(b - 1) + magnitude_units(b);
        assert(scale * low < scale * high) by (nonlinear_arith)
            requires
                scale > 0,
                low < high,
        ;
    }
}

/// Rounding the significand to nearest rounds the number to nearest.
///
/// `x` is `significand` whole units of the last place plus `rest`, and `q` is
/// that count rounded half to even.
proof fn lemma_nearest(x: int, scale: int, e: nat, significand: int, rest: int, q: int)
    requires
        scale > 0,
        e <= 253,
        0 <= significand < 0x100_0000,
        e == 0 || significand >= 0x80_0000,
        0 <= rest < scale * power2::pow2(e),
        x == significand * (scale * power2::pow2(e)) + rest,
        q == (if 2 * rest > scale * power2::pow2(e) || (2 * rest == scale * power2::pow2(e) && significand % 2
            == 1) {
            significand + 1
        } else {
            significand
        }),
    ensures
        nearest(x, scale, e * 0x80_0000 + q),
{
    let p = power2::pow2(e) as int;
    let place = scale * p;
    let m: int = e * 0x80_0000 + q;
    assert(m % 2 == q % 2);
    lemma_packed_units(e, q);
    assert(scale * (q * p + (q + 1) * p) == (2 * q + 1) * place) by (nonlinear_arith)
        requires
            place == scale * p,
    ;
    assert(scale * ((q - 1) * p + q * p) == (2 * q - 1) * place) by (nonlinear_arith)
        requires
            place == scale * p,
    ;
    assert((2 * q + 1) * place == 2 * (q * place) + place) by (nonlinear_arith);
    assert((2 * q - 1) * place == 2 * (q * place) - place) by (nonlinear_arith);
    assert((significand + 1) * place == significand * place + place) by (nonlinear_arith);
    // The number above.
    if q < 0x100_0000 {
        lemma_packed_units(e, q + 1);
    } else {
        lemma_packed_units((e + 1) as nat, 0x80_0001);
        assert(m + 1 == (e + 1) * 0x80_0000 + 0x80_0001);
        power2::lemma_pow2_unfold((e + 1) as nat);
        assert(scale * (q * p + 0x80_0001 * (2 * p)) == (2 * q + 2) * place) by (nonlinear_arith)
            requires
                place == scale * p,
                q == 0x100_0000,
        ;
        assert((2 * q + 2) * place == 2 * (q * place) + 2 * place) by (nonlinear_arith);
    }
    // The number below.
    if m > 0 {
        if e == 0 || q > 0x80_0000 {
            lemma_packed_units(e, q - 1);
        } else {
            assert(q == significand);
            lemma_packed_units((e - 1) as nat, 0xFF_FFFF);
            assert(m - 1 == (e - 1) * 0x80_0000 + 0xFF_FFFF);
            power2::lemma_pow2_unfold(e);
            power2::lemma_pow2_pos((e - 1) as nat);
            let half = power2::pow2((e - 1) as nat) as int;
            assert(scale * (0xFF_FFFF * half + q * p) < 2 * (q * place)) by (nonlinear_arith)
                requires
                    place == scale * p,
                    p == 2 * half,
                    half > 0,
                    scale > 0,
                    q == 0x80_0000,
            ;
        }
    }
}

// ---------------------------------------------------------------------------
// Conversions
// ---------------------------------------------------------------------------

/// Rounds `whole + rest / place` half to even.
fn round_half_even(whole: u64, rest: u64, place: u64) -> (rounded: u64)
    requires
        whole < 0x100_0000,
        rest < place <= 0x4000_0000_0000_0000,
    ensures
        rounded == (if 2 * rest > place || (2 * rest == place && whole % 2 == 1) {
            whole + 1
        } else {
            whole as int
        }),
{
    if 2 * rest > place || (2 * rest == place && whole % 2 == 1) {
        whole + 1
    } else {
        whole
    }
}

/// Magnitude of the single-precision number nearest to `n / 2^scale_bits`.
fn nearest_fraction(n: u32, scale_bits: u32) -> (m: u32)
    requires
        scale_bits <= 31,
    ensures
        m < INFINITY,
        nearest(n * power2::pow2((149 - scale_bits) as nat), 1, m as int),
        n < 0x100_0000 ==> magnitude_units(m as int) == n * power2::pow2((149 - scale_bits) as nat),
{
    let ghost base = (149 - scale_bits) as nat;
    let ghost x = n * power2::pow2(base);
    proof {
        power2::lemma2_to64();
        power2::lemma_pow2_pos(base);
    }
    if n == 0 {
        return 0;
    }
    if n < 0x100_0000 {
        let mut significand: u64 = n as u64;
        let mut grown: u32 = 0;
        while significand < 0x80_0000
            invariant
                1 <= n < 0x100_0000,
                scale_bits <= 31,
                base == 149 - scale_bits,
                grown <= 23,
                power2::pow2(grown as nat) <= significand < 0x100_0000,
                significand * power2::pow2((base - grown) as nat) == n * power2::pow2(base),
            decreases 0x100_0000 - significand,
        {
            proof {
                power2::lemma2_to64();
                if grown == 23 {
                    assert(power2::pow2(23) == 0x80_0000);
                }
                power2::lemma_pow2_unfold((grown + 1) as nat);
                power2::lemma_pow2_unfold((base - grown) as nat);
                let p = power2::pow2((base - grown - 1) as nat) as int;
                assert((2 * significand) * p == significand * (2 * p)) by (nonlinear_arith);
            }
            significand = significand * 2;
            grown = grown + 1;
        }
        let e: u32 = 149 - scale_bits - grown;
        proof {
            lemma_packed_units(e as nat, significand as int);
            power2::lemma_pow2_pos(e as nat);
            assert(1 * power2::pow2(e as nat) == power2::pow2(e as nat)) by (nonlinear_arith);
            lemma_nearest(x, 1, e as nat, significand as int, 0, significand as int);
        }
        return e * 0x80_0000 + significand as u32;
    }
    let wide: u64 = n as u64;
    let mut place: u64 = 2;
    let mut dropped: u32 = 1;
    proof {
        assert(n / 2 >= 0x80_0000);
    }
    while wide / place >= 0x100_0000
        invariant
            wide == n,
            1 <= dropped <= 8,
            place == power2::pow2(dropped as nat),
            0 < place <= 0x1_0000_0000,
            wide / place >= 0x80_0000,
        decreases 8 - dropped,
    {
        proof {
            power2::lemma2_to64();
            power2::lemma_pow2_unfold((dropped + 1) as nat);
            if dropped == 8 {
                assert(wide / 256 < 0x100_0000);
            }
            div_mod::lemma_div_denominator(wide as int, place as int, 2);
        }
        place = place * 2;
        dropped = dropped + 1;
    }
    let whole: u64 = wide / place;
    let rest: u64 = wide % place;
    let q: u64 = round_half_even(whole, rest, place);
    let e: u32 = 149 - scale_bits + dropped;
    proof {
        let b = power2::pow2(base) as int;
        let d = place as int;
        power2::lemma_pow2_adds(base, dropped as nat);
        div_mod::lemma_fundamental_div_mod(wide as int, d);
        assert(x == whole * (1 * (b * d)) + rest * b) by (nonlinear_arith)
            requires
                x == n * b,
                n == d * whole + rest,
        ;
        assert(0 <= rest * b < b * d) by (nonlinear_arith)
            requires
                0 <= rest < d,
                b > 0,
        ;
        assert((2 * (rest * b) > b * d) == (2 * rest > d)) by (nonlinear_arith)
            requires
                b > 0,
        ;
        assert((2 * (rest * b) == b * d) == (2 * rest == d)) by (nonlinear_arith)
            requires
                b > 0,
        ;
        lemma_nearest(x, 1, e as nat, whole as int, rest * b, q as int);
    }
    e * 0x80_0000 + q as u32
}

/// The single-precision number nearest to `raw / 2^scale_bits`.
///
/// Up to 24 significant bits the quotient is representable and the result is
/// exact.
pub fn fraction(raw: i32, scale_bits: u32) -> (bits: u32)
    requires
        scale_bits <= 31,
    ensures
        bits == fraction_of(raw as int, scale_bits as int),
        finite(bits),
        negative(bits) == (raw < 0),
        -0x100_0000 < raw < 0x100_0000 ==> units(bits) == raw * power2::pow2((149 - scale_bits) as nat),
{
    if raw < 0 {
        let size: u32 = (-(raw as i64)) as u32;
        let m: u32 = nearest_fraction(size, scale_bits);
        proof {
            let p = power2::pow2((149 - scale_bits) as nat) as int;
            assert((-raw) * p == -(raw * p)) by (nonlinear_arith);
            assert(magnitude((SIGN + m) as u32) == m);
            lemma_nearest_unique(size * p, 1, m as int);
        }
        SIGN + m
    } else {
        let m: u32 = nearest_fraction(raw as u32, scale_bits);
        proof {
            assert(magnitude(m) == m);
            lemma_nearest_unique(raw * power2::pow2((149 - scale_bits) as nat), 1, m as int);
        }
        m
    }
}

/// The single-precision number nearest to `n`.
pub fn from_integer(n: u32) -> (bits: u32)
    ensures
        bits == fraction_of(n as int, 0),
        finite(bits),
        !negative(bits),
        n < 0x100_0000 ==> units(bits) == n * power2::pow2(149),
{
    let m: u32 = nearest_fraction(n, 0);
    proof {
        lemma_nearest_unique(n * power2::pow2(149), 1, m as int);
    }
    m
}

/// `2^exponent`.
fn power_of_two(exponent: u32) -> (power: u64)
    requires
        exponent < 64,
    ensures
        power == power2::pow2(exponent as nat),
{
    let mut power: u64 = 1;
    let mut reached: u32 = 0;
    proof {
        power2::lemma2_to64();
    }
    while reached < exponent
        invariant
            reached <= exponent < 64,
            power == power2::pow2(reached as nat),
        decreases exponent - reached,
    {
        proof {
            power2::lemma2_to64();
            power2::lemma2_to64_rest();
            power2::lemma_pow2_unfold((reached + 1) as nat);
            if reached + 1 < 63 {
                power2::lemma_pow2_strictly_increases((reached + 1) as nat, 63);
            }
        }
        power = power * 2;
        reached = reached + 1;
    }
    power
}

/// The single-precision number nearest to a double-precision one.
///
/// What is out of range becomes an infinity, and what is not a number stays
/// so.
pub fn narrow(bits: u64) -> (result: u32)
    ensures
        result == narrowed(bits),
{
    let size: u64 = bits % WIDE_SIGN;
    let narrow_size: u32 = if size > WIDE_INFINITY {
        QUIET_NAN
    } else if size == WIDE_INFINITY {
        INFINITY
    } else {
        let m: u32 = narrow_magnitude(size);
        proof {
            power2::lemma_pow2_pos(925);
            lemma_nearest_unique(wide_magnitude_units(size as int), power2::pow2(925) as int, m as int);
        }
        m
    };
    if bits >= WIDE_SIGN {
        SIGN + narrow_size
    } else {
        narrow_size
    }
}

/// Magnitude of the single-precision number nearest to the finite
/// double-precision number with magnitude `size`.
fn narrow_magnitude(size: u64) -> (m: u32)
    requires
        size < WIDE_INFINITY,
    ensures
        nearest(wide_magnitude_units(size as int), power2::pow2(925) as int, m as int),
{
    let exponent: u32 = (size / WIDE_EXPONENT_STEP) as u32;
    let fraction: u64 = size % WIDE_EXPONENT_STEP;
    let significand: u64 = if exponent == 0 {
        fraction
    } else {
        fraction + WIDE_EXPONENT_STEP
    };
    let t: u32 = if exponent == 0 {
        0
    } else {
        exponent - 1
    };
    let ghost x = wide_magnitude_units(size as int);
    let ghost scale = power2::pow2(925) as int;
    let ghost b = power2::pow2(t as nat) as int;
    proof {
        power2::lemma2_to64();
        power2::lemma2_to64_rest();
        power2::lemma_pow2_pos(925);
        power2::lemma_pow2_pos(t as nat);
        assert(x == significand * b) by {
            if exponent <= 1 {
                assert(b == 1);
                assert(significand * 1 == significand) by (nonlinear_arith);
            }
        }
    }
    if t >= 896 + 254 {
        proof {
            lemma_beyond_range(significand as int, t as nat);
        }
        return INFINITY;
    }
    if t <= 863 {
        proof {
            lemma_below_range(significand as int, t as nat);
        }
        return 0;
    }
    let shift: u32 = if t >= 896 {
        29
    } else {
        925 - t
    };
    let e: u32 = if t >= 896 {
        t - 896
    } else {
        0
    };
    let place: u64 = power_of_two(shift);
    let ghost d = place as int;
    proof {
        power2::lemma_pow2_adds(925, e as nat);
        power2::lemma_pow2_adds(t as nat, shift as nat);
        assert(scale * power2::pow2(e as nat) == b * d);
        if shift > 29 {
            power2::lemma_pow2_strictly_increases(29, shift as nat);
            if shift < 62 {
                power2::lemma_pow2_strictly_increases(shift as nat, 62);
            }
        }
        div_mod::lemma_fundamental_div_mod(significand as int, d);
        div_mod::lemma_div_is_ordered_by_denominator(
            significand as int,
            0x2000_0000,
            d,
        );
        assert(significand / place < 0x100_0000);
    }
    let whole: u64 = significand / place;
    let rest: u64 = significand % place;
    let q: u64 = round_half_even(whole, rest, place);
    proof {
        assert(x == whole * (b * d) + rest * b) by (nonlinear_arith)
            requires
                x == significand * b,
                significand == d * whole + rest,
        ;
        assert(0 <= rest * b < b * d) by (nonlinear_arith)
            requires
                0 <= rest < d,
                b > 0,
        ;
        assert((2 * (rest * b) > b * d) == (2 * rest > d)) by (nonlinear_arith)
            requires
                b > 0,
        ;
        assert((2 * (rest * b) == b * d) == (2 * rest == d)) by (nonlinear_arith)
            requires
                b > 0,
        ;
        lemma_nearest(x, scale, e as nat, whole as int, rest * b, q as int);
    }
    e * 0x80_0000 + q as u32
}

/// A double too large for single precision rounds to infinity.
proof fn lemma_beyond_range(significand: int, t: nat)
    requires
        0x10_0000_0000_0000 <= significand,
        t >= 1150,
    ensures
        nearest(significand * power2::pow2(t), power2::pow2(925) as int, INFINITY as int),
{
    let scale = power2::pow2(925) as int;
    let top = power2::pow2(253) as int;
    let b = power2::pow2(t) as int;
    power2::lemma_pow2_pos(925);
    power2::lemma_pow2_pos(253);
    lemma_packed_units(253, 0x100_0000);
    lemma_packed_units(253, 0xFF_FFFF);
    power2::lemma_pow2_adds(925, 253);
    power2::lemma2_to64();
    if t > 1150 {
        power2::lemma_pow2_strictly_increases(1150, t);
    }
    power2::lemma_pow2_adds(1150, 28);
    assert(power2::pow2(28) == 0x1000_0000);
    power2::lemma_pow2_pos(1150);
    let low = power2::pow2(1150) as int;
    assert(scale * top == low * 0x1000_0000);
    assert(2 * (significand * b) > scale * (0xFF_FFFF * top + 0x100_0000 * top)) by (nonlinear_arith)
        requires
            significand >= 0x10_0000_0000_0000,
            b >= low,
            low > 0,
            scale * top == low * 0x1000_0000,
    ;
}

/// A double below half the smallest single-precision number rounds to zero.
proof fn lemma_below_range(significand: int, t: nat)
    requires
        0 <= significand < 0x20_0000_0000_0000,
        t <= 863,
    ensures
        nearest(significand * power2::pow2(t), power2::pow2(925) as int, 0),
{
    let b = power2::pow2(t) as int;
    power2::lemma_pow2_pos(t);
    power2::lemma2_to64();
    power2::lemma2_to64_rest();
    power2::lemma_pow2_adds(t, (925 - t) as nat);
    if t < 863 {
        power2::lemma_pow2_strictly_increases(62, (925 - t) as nat);
    }
    let d = power2::pow2((925 - t) as nat) as int;
    assert(2 * (significand * b) < (b * d) * 1) by (nonlinear_arith)
        requires
            0 <= significand < 0x20_0000_0000_0000,
            d >= 0x4000_0000_0000_0000,
            b > 0,
    ;
}

// ---------------------------------------------------------------------------
// Classifying and comparing
// ---------------------------------------------------------------------------

/// Whether the pattern is a number other than an infinity.
pub fn is_finite(bits: u32) -> (yes: bool)
    ensures
        yes == finite(bits),
{
    bits % SIGN < INFINITY
}

/// Whether the pattern is a zero of either sign.
pub fn is_zero(bits: u32) -> (yes: bool)
    ensures
        yes == (units(bits) == 0),
{
    proof {
        if magnitude(bits) > 0 {
            lemma_units_increase(0, magnitude(bits));
        }
    }
    bits % SIGN == 0
}

/// Whether `left` is the smaller number. Nothing is smaller than a pattern
/// that is not a number, nor is such a pattern smaller than anything.
pub open spec fn below(left: u32, right: u32) -> bool {
    !not_a_number(left) && !not_a_number(right) && units(left) < units(right)
}

/// Compares two numbers.
pub fn is_below(left: u32, right: u32) -> (yes: bool)
    ensures
        yes == below(left, right),
{
    let left_size: u32 = left % SIGN;
    let right_size: u32 = right % SIGN;
    proof {
        if left_size < right_size {
            lemma_units_increase(left_size as int, right_size as int);
        }
        if right_size < left_size {
            lemma_units_increase(right_size as int, left_size as int);
        }
        if 0 < left_size {
            lemma_units_increase(0, left_size as int);
        }
        if 0 < right_size {
            lemma_units_increase(0, right_size as int);
        }
    }
    if left_size > INFINITY || right_size > INFINITY {
        false
    } else if left < SIGN {
        right < SIGN && left_size < right_size
    } else if right < SIGN {
        left_size > 0 || right_size > 0
    } else {
        right_size < left_size
    }
}

/// Whether two patterns are the same number. A pattern that is not a number
/// equals nothing.
pub open spec fn equal(left: u32, right: u32) -> bool {
    !not_a_number(left) && !not_a_number(right) && units(left) == units(right)
}

/// Tests two numbers for equality.
pub fn is_equal(left: u32, right: u32) -> (yes: bool)
    ensures
        yes == equal(left, right),
{
    left % SIGN <= INFINITY && right % SIGN <= INFINITY && !is_below(left, right) && !is_below(
        right,
        left,
    )
}

/// `x` held between `low` and `high`; what is not a number stays as it is.
pub open spec fn clamped(x: u32, low: u32, high: u32) -> u32 {
    if below(x, low) {
        low
    } else if below(high, x) {
        high
    } else {
        x
    }
}

/// Holds `x` between `low` and `high`.
pub fn clamp(x: u32, low: u32, high: u32) -> (held: u32)
    ensures
        held == clamped(x, low, high),
{
    if is_below(x, low) {
        low
    } else if is_below(high, x) {
        high
    } else {
        x
    }
}

/// The whole part of the number, held to the range of `u32`.
pub open spec fn whole_part(bits: u32) -> int {
    if not_a_number(bits) || negative(bits) {
        0
    } else if units(bits) / (power2::pow2(149) as int) > u32::MAX {
        u32::MAX as int
    } else {
        units(bits) / (power2::pow2(149) as int)
    }
}

/// Drops the fraction of a number.
pub fn to_integer(bits: u32) -> (n: u32)
    ensures
        n == whole_part(bits),
{
    let size: u32 = bits % SIGN;
    if bits >= SIGN || size > INFINITY {
        return 0;
    }
    let exponent: u32 = size / EXPONENT_STEP;
    let fraction: u32 = size % EXPONENT_STEP;
    let ghost one = power2::pow2(149) as int;
    let ghost value = units(bits);
    proof {
        power2::lemma2_to64();
        power2::lemma_pow2_pos(149);
    }
    if exponent < 127 {
        proof {
            lemma_units_increase(size as int, 0x3F80_0000);
            lemma_packed_units(126, 0x80_0000);
            power2::lemma_pow2_adds(126, 23);
            assert(magnitude_units(0x3F80_0000) == one);
            if size > 0 {
                lemma_units_increase(0, size as int);
            }
            div_mod::lemma_basic_div(value, one);
        }
        return 0;
    }
    if exponent >= 159 {
        proof {
            lemma_packed_units(158, 0x80_0000);
            power2::lemma_pow2_adds(149, 9);
            power2::lemma_pow2_adds(149, 32);
            assert(0x80_0000 * (one * 512) == one * 0x1_0000_0000) by (nonlinear_arith);
            assert(magnitude_units(0x4F80_0000) == one * 0x1_0000_0000);
            if size > 0x4F80_0000 {
                lemma_units_increase(0x4F80_0000, size as int);
            }
            div_mod::lemma_div_multiples_vanish(0x1_0000_0000, one);
            div_mod::lemma_div_is_ordered(one * 0x1_0000_0000, value, one);
        }
        return u32::MAX;
    }
    let significand: u64 = (fraction + EXPONENT_STEP) as u64;
    let ghost last = power2::pow2((exponent - 1) as nat) as int;
    proof {
        power2::lemma_pow2_pos((exponent - 1) as nat);
        assert(value == significand * last);
    }
    if exponent >= 150 {
        let power: u64 = power_of_two(exponent - 150);
        proof {
            power2::lemma_pow2_adds(149, (exponent - 150) as nat);
            if exponent < 158 {
                power2::lemma_pow2_strictly_increases(
                    (exponent - 150) as nat,
                    8,
                );
            }
            assert(value == one * (significand * power)) by (nonlinear_arith)
                requires
                    value == significand * last,
                    last == one * power,
            ;
            div_mod::lemma_div_multiples_vanish(significand * power, one);
            assert(significand * power < 0x1_0000_0000) by (nonlinear_arith)
                requires
                    significand < 0x100_0000,
                    0 < power <= 256,
            ;
        }
        (significand * power) as u32
    } else {
        let power: u64 = power_of_two(150 - exponent);
        proof {
            power2::lemma_pow2_adds((exponent - 1) as nat, (150 - exponent) as nat);
            power2::lemma_pow2_pos((150 - exponent) as nat);
            assert(value == last * significand) by (nonlinear_arith)
                requires
                    value == significand * last,
            ;
            div_mod::lemma_div_multiples_vanish_quotient(
                last,
                significand as int,
                power as int,
            );
            div_mod::lemma_div_is_ordered_by_denominator(
                significand as int,
                1,
                power as int,
            );
        }
        (significand / power) as u32
    }
}

// ---------------------------------------------------------------------------
// Double-precision rates
// ---------------------------------------------------------------------------

/// Units of a normal double-precision magnitude.
proof fn lemma_wide_packed_units(exponent: int, fraction: int)
    requires
        1 <= exponent,
        0 <= fraction < WIDE_EXPONENT_STEP,
    ensures
        wide_magnitude_units(exponent * WIDE_EXPONENT_STEP + fraction) == (fraction
            + WIDE_EXPONENT_STEP) * power2::pow2((exponent - 1) as nat),
{
    let m: int = exponent * WIDE_EXPONENT_STEP + fraction;
    assert(m / (WIDE_EXPONENT_STEP as int) == exponent);
    assert(m % (WIDE_EXPONENT_STEP as int) == fraction);
    if exponent == 1 {
        power2::lemma2_to64();
        assert((fraction + WIDE_EXPONENT_STEP) * 1 == fraction + WIDE_EXPONENT_STEP)
            by (nonlinear_arith);
    }
}

/// A larger double-precision magnitude is a larger number.
pub proof fn lemma_wide_units_increase(a: int, b: int)
    requires
        0 <= a < b,
    ensures
        0 <= wide_magnitude_units(a) < wide_magnitude_units(b),
    decreases b,
{
    let below = b - 1;
    let exponent = below / (WIDE_EXPONENT_STEP as int);
    let fraction = below % (WIDE_EXPONENT_STEP as int);
    if exponent == 0 {
        assert(b / (WIDE_EXPONENT_STEP as int) <= 1);
    } else {
        lemma_wide_packed_units(exponent, fraction);
        power2::lemma_pow2_pos((exponent - 1) as nat);
        let p = power2::pow2((exponent - 1) as nat) as int;
        if fraction + 1 < WIDE_EXPONENT_STEP {
            lemma_wide_packed_units(exponent, fraction + 1);
        } else {
            lemma_wide_packed_units(exponent + 1, 0);
            power2::lemma_pow2_unfold(exponent as nat);
            assert(WIDE_EXPONENT_STEP * (2 * p) == (2 * WIDE_EXPONENT_STEP) * p)
                by (nonlinear_arith);
        }
        assert(0 < (fraction + WIDE_EXPONENT_STEP) * p < (fraction + 1 + WIDE_EXPONENT_STEP) * p)
            by (nonlinear_arith)
            requires
                p > 0,
                fraction >= 0,
        ;
    }
    if a < below {
        lemma_wide_units_increase(a, below);
    }
}

/// The double-precision pattern of a whole number.
pub fn wide_from_integer(n: u32) -> (bits: u64)
    ensures
        bits < WIDE_INFINITY,
        wide_magnitude_units(bits as int) == n * power2::pow2(1074),
        n == 0 ==> bits == 0,
{
    if n == 0 {
        proof {
            power2::lemma_pow2_pos(1074);
        }
        return 0;
    }
    let mut significand: u64 = n as u64;
    let mut grown: u64 = 0;
    proof {
        power2::lemma2_to64();
    }
    while significand < WIDE_EXPONENT_STEP
        invariant
            1 <= n,
            grown <= 52,
            power2::pow2(grown as nat) <= significand < 2 * WIDE_EXPONENT_STEP,
            significand * power2::pow2((1074 - grown) as nat) == n * power2::pow2(1074),
        decreases 2 * WIDE_EXPONENT_STEP - significand,
    {
        proof {
            power2::lemma2_to64_rest();
            power2::lemma_pow2_pos(grown as nat);
            if grown == 52 {
                assert(power2::pow2(52) == WIDE_EXPONENT_STEP);
            }
            power2::lemma_pow2_unfold((grown + 1) as nat);
            power2::lemma_pow2_unfold((1074 - grown) as nat);
            let p = power2::pow2((1073 - grown) as nat) as int;
            assert((2 * significand) * p == significand * (2 * p)) by (nonlinear_arith);
        }
        significand = significand * 2;
        grown = grown + 1;
    }
    proof {
        lemma_wide_packed_units(1075 - grown, significand - WIDE_EXPONENT_STEP);
    }
    (1075 - grown) * WIDE_EXPONENT_STEP + (significand - WIDE_EXPONENT_STEP)
}

/// Whether a double-precision pattern is a number above zero and at most
/// `limit`.
pub open spec fn positive_up_to(bits: u64, limit: u32) -> bool {
    &&& wide_finite(bits)
    &&& !wide_negative(bits)
    &&& 0 < wide_magnitude_units(bits as int) <= limit * power2::pow2(1074)
}

/// Tests a double-precision number against a whole limit.
pub fn is_positive_up_to(bits: u64, limit: u32) -> (yes: bool)
    ensures
        yes == positive_up_to(bits, limit),
{
    let top: u64 = wide_from_integer(limit);
    proof {
        if bits > 0 {
            lemma_wide_units_increase(0, bits as int);
        }
        if bits > top {
            lemma_wide_units_increase(top as int, bits as int);
        }
        if bits < top {
            lemma_wide_units_increase(bits as int, top as int);
        }
    }
    0 < bits && bits <= top
}

/// The double-precision number nearest to one millionth.
pub const MILLIONTH: u64 = 0x3EB0_C6F7_A0B5_ED8D;

/// Significand of [`MILLIONTH`], which counts units of `2^-72`.
const MILLIONTH_SIGNIFICAND: u128 = 0x10_C6F7_A0B5_ED8D;

/// `2^72`.
const UNITS_PER_ONE: u128 = 0x100_0000_0000_0000_0000;

/// Whether a double-precision number is less than a millionth away from `n`.
pub open spec fn within_a_millionth(n: u32, bits: u64) -> bool {
    let distance = wide_magnitude_units(bits as int) - n * power2::pow2(1074);
    &&& wide_finite(bits)
    &&& !wide_negative(bits)
    &&& -wide_magnitude_units(MILLIONTH as int) < distance < wide_magnitude_units(MILLIONTH as int)
}

/// Tests whether a double-precision number is all but equal to `n`.
pub fn is_within_a_millionth(n: u32, bits: u64) -> (yes: bool)
    requires
        n > 0,
    ensures
        yes == within_a_millionth(n, bits),
{
    if bits >= WIDE_INFINITY {
        return false;
    }
    let exponent: u32 = (bits / WIDE_EXPONENT_STEP) as u32;
    let fraction: u64 = bits % WIDE_EXPONENT_STEP;
    let ghost c = power2::pow2(1002) as int;
    let ghost value = wide_magnitude_units(bits as int);
    let ghost target = n * power2::pow2(1074);
    let ghost margin = wide_magnitude_units(MILLIONTH as int);
    proof {
        power2::lemma2_to64();
        power2::lemma2_to64_rest();
        power2::lemma_pow2_pos(1002);
        power2::lemma_pow2_adds(1002, 72);
        power2::lemma_pow2_adds(36, 36);
        assert(power2::pow2(72) == UNITS_PER_ONE);
        assert(target == (n * UNITS_PER_ONE) * c) by (nonlinear_arith)
            requires
                target == n * (c * UNITS_PER_ONE),
        ;
        lemma_wide_packed_units(1003, 0xC6F7_A0B5_ED8D);
        assert(margin == MILLIONTH_SIGNIFICAND * c);
    }
    if exponent < 1003 {
        proof {
            lemma_wide_packed_units(1003, 0);
            lemma_wide_units_increase(bits as int, 0x3EB0_0000_0000_0000);
            assert(target - WIDE_EXPONENT_STEP * c > MILLIONTH_SIGNIFICAND * c) by (nonlinear_arith)
                requires
                    target == (n * UNITS_PER_ONE) * c,
                    n >= 1,
                    c > 0,
            ;
        }
        return false;
    }
    if exponent > 1056 {
        proof {
            lemma_wide_packed_units(1057, 0);
            if bits > 0x4210_0000_0000_0000 {
                lemma_wide_units_increase(0x4210_0000_0000_0000, bits as int);
            }
            power2::lemma_pow2_adds(1002, 54);
            assert(WIDE_EXPONENT_STEP * (c * 0x40_0000_0000_0000) - target > MILLIONTH_SIGNIFICAND
                * c) by (nonlinear_arith)
                requires
                    target == (n * UNITS_PER_ONE) * c,
                    n <= 0xFFFF_FFFF,
                    c > 0,
            ;
        }
        return false;
    }
    let power: u64 = power_of_two(exponent - 1003);
    proof {
        if exponent < 1056 {
            power2::lemma_pow2_strictly_increases((exponent - 1003) as nat, 53);
        }
        lemma_wide_packed_units(exponent as int, fraction as int);
        power2::lemma_pow2_adds(1002, (exponent - 1003) as nat);
        assert((fraction + WIDE_EXPONENT_STEP) * power < 0x400_0000_0000_0000_0000_0000_0000)
            by (nonlinear_arith)
            requires
                fraction + WIDE_EXPONENT_STEP < 0x20_0000_0000_0000,
                0 <= power <= 0x20_0000_0000_0000,
        ;
    }
    let scaled: u128 = (fraction + WIDE_EXPONENT_STEP) as u128 * power as u128;
    let wanted: u128 = n as u128 * UNITS_PER_ONE;
    proof {
        assert(value == scaled * c) by (nonlinear_arith)
            requires
                value == (fraction + WIDE_EXPONENT_STEP) * (c * power),
                scaled == (fraction + WIDE_EXPONENT_STEP) * power,
        ;
        assert((scaled * c - wanted * c < MILLIONTH_SIGNIFICAND * c) == (scaled - wanted
            < MILLIONTH_SIGNIFICAND)) by (nonlinear_arith)
            requires
                c > 0,
        ;
        assert((-(MILLIONTH_SIGNIFICAND * c) < scaled * c - wanted * c) == (-MILLIONTH_SIGNIFICAND
            < scaled - wanted)) by (nonlinear_arith)
            requires
                c > 0,
        ;
    }
    if scaled >= wanted {
        scaled - wanted < MILLIONTH_SIGNIFICAND
    } else {
        wanted - scaled < MILLIONTH_SIGNIFICAND
    }
}

// ---------------------------------------------------------------------------
// What numbers guarantee
// ---------------------------------------------------------------------------

/// The distance between two numbers.
pub open spec fn apart(a: int, b: int) -> int {
    if a < b {
        b - a
    } else {
        a - b
    }
}

/// Among the magnitudes from `from` on there is a nearest one, for a number that
/// is not below the midpoint in front of `from`.
proof fn lemma_nearest_exists(x: int, scale: int, from: int) -> (m: int)
    requires
        scale > 0,
        0 <= from <= INFINITY,
        from > 0 ==> {
            let midpoint = scale * (magnitude_units(from - 1) + magnitude_units(from));
            2 * x > midpoint || (2 * x == midpoint && from % 2 == 0)
        },
    ensures
        nearest(x, scale, m),
    decreases INFINITY - from,
{
    if from == INFINITY {
        from
    } else {
        let midpoint = scale * (magnitude_units(from) + magnitude_units(from + 1));
        if 2 * x < midpoint || (2 * x == midpoint && from % 2 == 0) {
            from
        } else {
            lemma_nearest_exists(x, scale, from + 1)
        }
    }
}

/// Of all magnitudes, the nearest one is closest.
proof fn lemma_nearest_is_closest(x: int, scale: int, m: int, other: int)
    requires
        scale > 0,
        nearest(x, scale, m),
        0 <= other <= INFINITY,
    ensures
        apart(scale * magnitude_units(m), x) <= apart(scale * magnitude_units(other), x),
        apart(scale * magnitude_units(m), x) == apart(scale * magnitude_units(other), x) && other
            != m ==> m % 2 == 0,
{
    let here = magnitude_units(m);
    let there = magnitude_units(other);
    if other > m {
        let next = magnitude_units(m + 1);
        if m + 1 < other {
            lemma_units_increase(m + 1, other);
        }
        lemma_units_increase(m, m + 1);
        assert(scale * (here + next) == scale * here + scale * next && scale * here < scale * next
            <= scale * there) by (nonlinear_arith)
            requires
                scale > 0,
                here < next <= there,
        ;
    } else if other < m {
        let before = magnitude_units(m - 1);
        if other < m - 1 {
            lemma_units_increase(other, m - 1);
        }
        lemma_units_increase(m - 1, m);
        assert(scale * (before + here) == scale * before + scale * here && scale * there <= scale
            * before < scale * here) by (nonlinear_arith)
            requires
                scale > 0,
                there <= before < here,
        ;
    }
}

/// As above, for numbers with a sign.
proof fn lemma_closest(minus: bool, x: int, scale: int, m: int, other: u32)
    requires
        scale > 0,
        x >= 0,
        nearest(x, scale, m),
        !not_a_number(other),
    ensures
        ({
            let target = if minus {
                -x
            } else {
                x
            };
            &&& apart(scale * units(signed(minus, m)), target) <= apart(
                scale * units(other),
                target,
            )
            &&& units(signed(minus, m)) == if minus {
                -magnitude_units(m)
            } else {
                magnitude_units(m)
            }
            &&& apart(scale * units(signed(minus, m)), target) == apart(
                scale * units(other),
                target,
            ) && units(other) != units(signed(minus, m)) ==> signed(minus, m) % 2 == 0
        }),
{
    let size = magnitude_units(magnitude(other));
    assert(magnitude(signed(minus, m)) == m);
    lemma_nearest_is_closest(x, scale, m, magnitude(other));
    lemma_nearest_is_closest(x, scale, m, 0);
    if magnitude(other) > 0 {
        lemma_units_increase(0, magnitude(other));
    }
    if m > 0 {
        lemma_units_increase(0, m);
    }
    let here = magnitude_units(m);
    assert(scale * (-here) == -(scale * here)) by (nonlinear_arith);
    assert(scale * (-size) == -(scale * size)) by (nonlinear_arith);
    assert(scale * size >= 0) by (nonlinear_arith)
        requires
            scale > 0,
            size >= 0,
    ;
    assert(scale * magnitude_units(0) == 0) by (nonlinear_arith)
        requires
            magnitude_units(0) == 0,
    ;
}

/// A fraction becomes the closest number there is: no other single-precision
/// number is closer to `raw / 2^scale_bits`, and of two that are as close it is
/// the even pattern.
pub proof fn law_fractions_become_the_closest_number(raw: int, scale_bits: int, other: u32)
    requires
        0 <= scale_bits <= 31,
        !not_a_number(other),
    ensures
        ({
            let exact = raw * power2::pow2((149 - scale_bits) as nat);
            let result = fraction_of(raw, scale_bits);
            &&& apart(units(result), exact) <= apart(units(other), exact)
            &&& apart(units(result), exact) == apart(units(other), exact) && units(other) != units(
                result,
            ) ==> result % 2 == 0
        }),
{
    let p = power2::pow2((149 - scale_bits) as nat) as int;
    let size = if raw < 0 {
        -raw
    } else {
        raw
    };
    power2::lemma_pow2_pos((149 - scale_bits) as nat);
    assert(size * p >= 0) by (nonlinear_arith)
        requires
            size >= 0,
            p > 0,
    ;
    assert((-raw) * p == -(raw * p)) by (nonlinear_arith);
    let m = lemma_nearest_exists(size * p, 1, 0);
    lemma_nearest_unique(size * p, 1, m);
    lemma_closest(raw < 0, size * p, 1, m, other);
}

/// The number a double-precision pattern stands for, in units of `2^-1074`.
pub open spec fn wide_units(bits: u64) -> int {
    if bits >= 0x8000_0000_0000_0000 {
        -wide_magnitude_units(bits - 0x8000_0000_0000_0000)
    } else {
        wide_magnitude_units(bits as int)
    }
}

/// A double-precision number becomes the closest single-precision one: no other
/// is closer, and of two that are as close it is the even pattern. What is
/// infinite or no number stays so, and signs are kept.
#[verifier::spinoff_prover]
#[verifier::rlimit(60)]
pub proof fn law_narrowing_gives_the_closest_number(bits: u64, other: u32)
    requires
        !not_a_number(other),
    ensures
        bits as int % 0x8000_0000_0000_0000 < 0x7FF0_0000_0000_0000 ==> apart(
            power2::pow2(925) * units(narrowed(bits)),
            wide_units(bits),
        ) <= apart(power2::pow2(925) * units(other), wide_units(bits)),
        bits as int % 0x8000_0000_0000_0000 < 0x7FF0_0000_0000_0000 && units(other) != units(
            narrowed(bits),
        ) && apart(power2::pow2(925) * units(narrowed(bits)), wide_units(bits)) == apart(
            power2::pow2(925) * units(other),
            wide_units(bits),
        ) ==> narrowed(bits) % 2 == 0,
        bits as int % 0x8000_0000_0000_0000 == 0x7FF0_0000_0000_0000 ==> narrowed(bits) as int
            % 0x8000_0000 == 0x7F80_0000,
        bits as int % 0x8000_0000_0000_0000 > 0x7FF0_0000_0000_0000 ==> narrowed(bits) as int
            % 0x8000_0000 > 0x7F80_0000,
        narrowed(bits) >= 0x8000_0000 <==> bits >= 0x8000_0000_0000_0000,
{
    let size = wide_magnitude(bits);
    let x = wide_magnitude_units(size);
    let scale = power2::pow2(925) as int;
    power2::lemma_pow2_pos(925);
    if size > 0 {
        lemma_wide_units_increase(0, size);
    }
    let m = lemma_nearest_exists(x, scale, 0);
    lemma_nearest_unique(x, scale, m);
    if size < WIDE_INFINITY {
        lemma_closest(wide_negative(bits), x, scale, m, other);
    }
}

/// One more in the exponent field doubles a number, one more in the fraction is
/// one more in the last place, and the sign bit turns the sign: that and
/// `units(0) == 0` say what every pattern stands for.
pub proof fn law_patterns_stand_for_numbers(bits: u32)
    requires
        bits < 0x7F00_0000,
    ensures
        units(0) == 0,
        bits < 0x80_0000 ==> units((bits + 1) as u32) == units(bits) + 1,
        bits >= 0x80_0000 ==> units((bits + 0x80_0000) as u32) == 2 * units(bits),
        bits >= 0x80_0000 && bits % 0x80_0000 != 0x7F_FFFF ==> units((bits + 1) as u32)
            - units(bits) == power2::pow2((bits / 0x80_0000 - 1) as nat),
        units((bits + 0x8000_0000) as u32) == -units(bits),
{
    let exponent = bits as int / 0x80_0000;
    let fraction = bits as int % 0x80_0000;
    power2::lemma2_to64();
    assert(magnitude(bits) == bits);
    assert(magnitude((bits + 0x8000_0000) as u32) == bits);
    assert(magnitude((bits + 1) as u32) == bits + 1);
    assert(magnitude((bits + 0x80_0000) as u32) == bits + 0x80_0000);
    if exponent >= 1 {
        let e = (exponent - 1) as nat;
        let p = power2::pow2(e) as int;
        lemma_packed_units(e, fraction + 0x80_0000);
        lemma_packed_units(e, fraction + 0x80_0001);
        lemma_packed_units(e + 1, fraction + 0x80_0000);
        power2::lemma_pow2_unfold(e + 1);
        assert((fraction + 0x80_0001) * p == (fraction + 0x80_0000) * p + p) by (nonlinear_arith);
        assert((fraction + 0x80_0000) * (2 * p) == 2 * ((fraction + 0x80_0000) * p))
            by (nonlinear_arith);
    }
}

/// Holding a number between two bounds keeps it where it lies between them, and
/// gives the bound it lies beyond otherwise.
pub proof fn law_clamping_holds_to_bounds(x: u32, low: u32, high: u32)
    requires
        !not_a_number(x),
        !not_a_number(low),
        !not_a_number(high),
        units(low) <= units(high),
    ensures
        units(low) <= units(clamped(x, low, high)) <= units(high),
        units(low) <= units(x) <= units(high) ==> clamped(x, low, high) == x,
        units(x) < units(low) ==> clamped(x, low, high) == low,
        units(x) > units(high) ==> clamped(x, low, high) == high,
{
}

/// The whole part of a number is the largest whole number that is not above it.
pub proof fn law_the_whole_part_is_just_below(bits: u32)
    requires
        bits < 0x4F80_0000,
    ensures
        whole_part(bits) * power2::pow2(149) <= units(bits) < (whole_part(bits) + 1)
            * power2::pow2(149),
        whole_part((bits + 0x8000_0000) as u32) == 0,
{
    let one = power2::pow2(149) as int;
    let value = units(bits);
    power2::lemma_pow2_pos(149);
    power2::lemma2_to64();
    assert(magnitude(bits) == bits);
    lemma_packed_units(158, 0x80_0000);
    lemma_units_increase(bits as int, 0x4F80_0000);
    power2::lemma_pow2_adds(9, 149);
    assert(0x80_0000 * (0x200 * one) == 0x1_0000_0000 * one) by (nonlinear_arith);
    if bits > 0 {
        lemma_units_increase(0, bits as int);
    }
    div_mod::lemma_fundamental_div_mod(value, one);
    let whole = value / one;
    assert(whole < 0x1_0000_0000) by (nonlinear_arith)
        requires
            value < 0x1_0000_0000 * one,
            value == one * whole + value % one,
            value % one >= 0,
            one > 0,
    ;
    assert(whole * one <= value < (whole + 1) * one) by (nonlinear_arith)
        requires
            value == one * whole + value % one,
            0 <= value % one < one,
    ;
}

/// The usable rates are the positive ones up to 768000, which as patterns are
/// those up to that of 768000.
pub proof fn law_rates_up_to_the_limit(bits: u64)
    ensures
        positive_up_to(bits, 768_000) <==> 0 < bits <= 0x4127_7000_0000_0000,
{
    let top: int = 0x4127_7000_0000_0000;
    let limit = 768_000 * power2::pow2(1074);
    lemma_wide_packed_units(0x412, 0x7_7000_0000_0000);
    power2::lemma_pow2_adds(33, 1041);
    power2::lemma2_to64();
    power2::lemma2_to64_rest();
    let p = power2::pow2(1041) as int;
    assert(0x17_7000_0000_0000 * p == 768_000 * (0x2_0000_0000 * p)) by (nonlinear_arith);
    assert(wide_magnitude_units(top) == limit);
    if bits > 0 {
        lemma_wide_units_increase(0, bits as int);
    }
    if bits > top {
        lemma_wide_units_increase(top, bits as int);
    }
    if bits < top {
        lemma_wide_units_increase(bits as int, top);
    }
}

/// Two rates are taken for the same if they are less than a millionth of a hertz
/// apart: surely so up to 1/1000001, and surely not from 1/999999 on.
pub proof fn law_a_millionth_of_a_hertz(n: u32, bits: u64)
    requires
        bits < 0x7FF0_0000_0000_0000,
    ensures
        ({
            let distance = apart(wide_magnitude_units(bits as int), n * power2::pow2(1074));
            &&& distance * 1_000_001 <= power2::pow2(1074) ==> within_a_millionth(n, bits)
            &&& distance * 999_999 >= power2::pow2(1074) ==> !within_a_millionth(n, bits)
        }),
{
    let c = power2::pow2(1002) as int;
    lemma_wide_packed_units(0x3EB, 0xC6F7_A0B5_ED8D);
    power2::lemma_pow2_adds(72, 1002);
    power2::lemma_pow2_adds(64, 8);
    power2::lemma2_to64();
    power2::lemma2_to64_rest();
    power2::lemma_pow2_pos(1002);
    assert(power2::pow2(72) == 0x100_0000_0000_0000_0000);
    let margin = wide_magnitude_units(MILLIONTH as int);
    assert(margin == 0x10_C6F7_A0B5_ED8D * c);
    assert(margin * 1_000_001 > 0x100_0000_0000_0000_0000 * c) by (nonlinear_arith)
        requires
            margin == 0x10_C6F7_A0B5_ED8D * c,
            c > 0,
    ;
    assert(margin * 999_999 < 0x100_0000_0000_0000_0000 * c) by (nonlinear_arith)
        requires
            margin == 0x10_C6F7_A0B5_ED8D * c,
            c > 0,
    ;
}

/// Numbers of `2^32` and above have the largest whole part there is, and what is
/// no number has none.
pub proof fn law_large_whole_parts(bits: u32)
    ensures
        0x4F80_0000 <= bits <= 0x7F80_0000 ==> whole_part(bits) == 0xFFFF_FFFF,
        bits as int % 0x8000_0000 > 0x7F80_0000 ==> whole_part(bits) == 0,
{
    if 0x4F80_0000 <= bits <= 0x7F80_0000 {
        let one = power2::pow2(149) as int;
        power2::lemma_pow2_pos(149);
        power2::lemma2_to64();
        power2::lemma_pow2_adds(9, 149);
        assert(magnitude(bits) == bits);
        lemma_packed_units(158, 0x80_0000);
        if bits > 0x4F80_0000 {
            lemma_units_increase(0x4F80_0000, bits as int);
        }
        assert(0x80_0000 * (0x200 * one) == 0x1_0000_0000 * one) by (nonlinear_arith);
        div_mod::lemma_div_multiples_vanish(0x1_0000_0000, one);
        assert(0x1_0000_0000 * one == one * 0x1_0000_0000) by (nonlinear_arith);
        div_mod::lemma_div_is_ordered(one * 0x1_0000_0000, units(bits), one);
    }
}

/// Numbers compare as what they stand for, patterns of positive numbers as
/// integers, and what is no number compares with nothing.
pub proof fn law_numbers_compare(a: u32, b: u32)
    ensures
        !not_a_number(a) && !not_a_number(b) ==> (below(a, b) <==> units(a) < units(b)) && (equal(
            a,
            b,
        ) <==> units(a) == units(b)),
        a <= 0x7F80_0000 && b <= 0x7F80_0000 ==> (below(a, b) <==> a < b) && (equal(a, b) <==> a
            == b),
        a as int % 0x8000_0000 > 0x7F80_0000 ==> !below(a, b) && !below(b, a) && !equal(a, b)
            && !equal(b, a),
{
    if a < b <= 0x7F80_0000 {
        lemma_units_increase(a as int, b as int);
    }
    if b < a <= 0x7F80_0000 {
        lemma_units_increase(b as int, a as int);
    }
}

} // verus!
