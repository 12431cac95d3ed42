//! Numbers as the buffers hold them, and what a cast makes of them.
//!
//! A scalar of a numeric kind holds a number: an integer, or a binary
//! floating-point number in the IEEE 754 format of 16, 32 or 64 bits. Such a
//! number is a sign and a whole number times a power of two, or it is
//! infinite, or it is no number at all. Everything is computed on the bits,
//! in whole numbers: a cast to 32-bit floating point rounds to the nearest
//! number that the format has, to the one with an even last bit where two
//! are equally near; a cast of a floating-point number to an integer drops
//! the fraction and stops at the ends of the integer's range.

use vstd::prelude::*;
use vstd::arithmetic::power2::lemma2_to64;
use vstd::arithmetic::power2::lemma2_to64_rest;
use vstd::arithmetic::power2::lemma_pow2_adds;
use vstd::arithmetic::power2::lemma_pow2_pos;
use vstd::arithmetic::power2::lemma_pow2_strictly_increases;
use vstd::arithmetic::power2::lemma_pow2_unfold;
use vstd::arithmetic::power2::pow2;

verus! {

/// A number as a scalar holds it.
pub enum Number {
    /// not a number
    NotANumber,
    /// beyond every number, on one side or the other
    Infinite { negative: bool },
    /// `mantissa` times 2 to the power of `exponent`, with a sign; zero has
    /// a sign too
    Finite { negative: bool, mantissa: nat, exponent: int },
}

/// An IEEE 754 binary format: the number of bits of the fraction and of the
/// exponent.
pub struct Format {
    /// the bits of the fraction
    pub fraction: u32,
    /// the bits of the exponent
    pub exponent: u32,
}

/// The format of 16 bits.
pub open spec fn half_format() -> Format {
    Format { fraction: 10, exponent: 5 }
}

/// The format of 32 bits.
pub open spec fn single_format() -> Format {
    Format { fraction: 23, exponent: 8 }
}

/// The format of 64 bits.
pub open spec fn double_format() -> Format {
    Format { fraction: 52, exponent: 11 }
}

impl Format {
    /// The number that is added to an exponent before it is stored.
    pub open spec fn bias(self) -> int {
        pow2((self.exponent - 1) as nat) - 1
    }

    /// The number that the bits hold. The fraction is in the low bits, the
    /// exponent above it and the sign on top. An exponent of all ones marks
    /// what is infinite, with a fraction of 0, or no number; an exponent of
    /// 0 the numbers so small that they have no leading 1.
    pub open spec fn number(self, bits: nat) -> Number {
        let fraction = bits % pow2(self.fraction as nat);
        let exponent = (bits / pow2(self.fraction as nat)) % pow2(self.exponent as nat);
        let negative = (bits / pow2(self.fraction as nat)) / pow2(self.exponent as nat) % 2 == 1;
        if exponent == pow2(self.exponent as nat) - 1 {
            if fraction == 0 {
                Number::Infinite { negative }
            } else {
                Number::NotANumber
            }
        } else if exponent == 0 {
            Number::Finite {
                negative,
                mantissa: fraction,
                exponent: 1 - self.bias() - self.fraction,
            }
        } else {
            Number::Finite {
                negative,
                mantissa: pow2(self.fraction as nat) + fraction,
                exponent: exponent - self.bias() - self.fraction,
            }
        }
    }
}

/// The place of the highest 1 among the bits of `m`: the largest `p` with 2
/// to the power of `p` at most `m`. Of 0 it is 0.
pub open spec fn top_bit(m: nat) -> nat
    decreases m,
{
    if m < 2 {
        0
    } else {
        1 + top_bit(m / 2)
    }
}

/// `m` times 2 to the power of `k`, rounded to the nearest whole number,
/// and to the even one where two are equally near.
pub open spec fn scaled(m: nat, k: int) -> nat {
    if k >= 0 {
        m * pow2(k as nat)
    } else {
        let d = pow2((-k) as nat);
        let down = m / d;
        let rest = m % d;
        if 2 * rest > d || (2 * rest == d && down % 2 == 1) {
            down + 1
        } else {
            down
        }
    }
}

/// `m` times 2 to the power of `k` without its fraction.
pub open spec fn whole(m: nat, k: int) -> nat {
    if k >= 0 {
        m * pow2(k as nat)
    } else {
        m / pow2((-k) as nat)
    }
}

/// The exponent of the last place that the format of 32 bits keeps of a
/// number whose highest bit is worth 2 to the power of `top`: 23 places
/// below the top, and never below -149.
pub open spec fn last_place(top: int) -> int {
    if top - 23 >= -149 {
        top - 23
    } else {
        -149
    }
}

/// The bits, without the sign, of the 32-bit floating-point number nearest
/// to `m` times 2 to the power of `e`.
///
/// The number is rounded to a whole multiple of its last place. Then the
/// bits are that multiple, counted on from the first number of the format
/// that has the same last place. What is too large becomes infinite.
pub open spec fn single_magnitude(m: nat, e: int) -> nat {
    if m == 0 {
        0
    } else {
        let place = last_place(top_bit(m) + e);
        let bits = (place + 149) * 0x80_0000 + scaled(m, e - place);
        if bits >= 0x7f80_0000 {
            0x7f80_0000
        } else {
            bits as nat
        }
    }
}

/// The 32 bits of a number cast to floating point.
pub open spec fn single_bits(x: Number) -> nat {
    match x {
        Number::NotANumber => 0x7fc0_0000,
        Number::Infinite { negative } => if negative {
            0xff80_0000
        } else {
            0x7f80_0000
        },
        Number::Finite { negative, mantissa, exponent } => if negative {
            0x8000_0000 + single_magnitude(mantissa, exponent)
        } else {
            single_magnitude(mantissa, exponent)
        },
    }
}

/// A number cast to an integer between `low` and `high`: its fraction is
/// dropped, what lies beyond an end becomes that end, and what is no number
/// becomes 0.
pub open spec fn clamped(x: Number, low: int, high: int) -> int {
    match x {
        Number::NotANumber => 0,
        Number::Infinite { negative } => if negative {
            low
        } else {
            high
        },
        Number::Finite { negative, mantissa, exponent } => {
            let size = whole(mantissa, exponent);
            if negative {
                if -size < low {
                    low
                } else {
                    -size
                }
            } else {
                if size > high {
                    high
                } else {
                    size as int
                }
            }
        },
    }
}

/// The highest bit of a number is at most the number, and the next bit is
/// more.
pub proof fn lemma_top_bit(m: nat)
    requires
        m >= 1,
    ensures
        pow2(top_bit(m)) <= m < pow2(top_bit(m) + 1),
    decreases m,
{
    lemma2_to64();
    if m >= 2 {
        lemma_top_bit(m / 2);
        lemma_pow2_unfold(top_bit(m));
        lemma_pow2_unfold(top_bit(m) + 1);
    }
}

/// A number between a power of 2 and the next has its highest bit at that
/// power.
pub proof fn lemma_top_bit_is(m: nat, t: nat)
    requires
        pow2(t) <= m < pow2(t + 1),
    ensures
        top_bit(m) == t,
{
    lemma_pow2_pos(t);
    lemma_top_bit(m);
    let p = top_bit(m);
    if p < t {
        if p + 1 < t {
            lemma_pow2_strictly_increases(p + 1, t);
        }
    } else if p > t {
        if t + 1 < p {
            lemma_pow2_strictly_increases(t + 1, p);
        }
    }
}

/// Rounding goes to a nearest whole number: what it gives, taken back to
/// the scale of `m`, is off by no more than half a step of that scale; and
/// where it is off by exactly half a step, it is even.
pub proof fn lemma_scaled_is_nearest(m: nat, k: int)
    requires
        k < 0,
    ensures
        2 * (scaled(m, k) * pow2((-k) as nat) - m) <= pow2((-k) as nat),
        2 * (m - scaled(m, k) * pow2((-k) as nat)) <= pow2((-k) as nat),
        2 * (m % pow2((-k) as nat)) == pow2((-k) as nat) ==> scaled(m, k) % 2 == 0,
{
    let d = pow2((-k) as nat);
    lemma_pow2_pos((-k) as nat);
    let down = m / d;
    let rest = m % d;
    vstd::arithmetic::div_mod::lemma_fundamental_div_mod(m as int, d as int);
    assert(m == d * down + rest);
    assert((down + 1) * d == d * down + d) by (nonlinear_arith);
    assert(down * d == d * down) by (nonlinear_arith);
}

/// The bits of a 32-bit floating-point number that is a number are the bits
/// of the cast of that number: a cast changes no number that the format
/// has.
pub proof fn lemma_single_bits_round_trip(bits: nat)
    requires
        bits < 0x1_0000_0000,
        single_format().number(bits) != Number::NotANumber,
    ensures
        single_bits(single_format().number(bits)) == bits,
{
    lemma2_to64();
    let fraction = bits % 0x80_0000;
    let exponent = (bits / 0x80_0000) % 0x100;
    let sign = (bits / 0x80_0000) / 0x100;
    assert(bits == sign * 0x8000_0000 + exponent * 0x80_0000 + fraction);
    assert(sign == 0 || sign == 1);
    assert(single_format().bias() == 127);
    if exponent == 255 {
    } else if exponent == 0 {
        if fraction > 0 {
            lemma_top_bit(fraction);
            let t = top_bit(fraction);
            if t >= 23 {
                if t > 23 {
                    lemma_pow2_strictly_increases(23, t);
                }
            }
            assert(last_place(t + (-149)) == -149);
            assert(fraction * pow2(0) == fraction);
        }
    } else {
        let m = (0x80_0000 + fraction) as nat;
        lemma_top_bit_is(m, 23);
        let e = exponent - 150;
        assert(last_place(23 + e) == e);
        assert(m * pow2(0) == m);
    }
}

/// A whole number of up to 24 bits that is cast to floating point and back
/// to an integer is the same number again.
pub proof fn lemma_small_integers_survive(negative: bool, size: nat)
    requires
        size <= 0x100_0000,
    ensures
        clamped(
            single_format().number(
                single_bits(Number::Finite { negative: negative, mantissa: size, exponent: 0 }),
            ),
            -0x100_0000,
            0x100_0000,
        ) == (if negative {
            -(size as int)
        } else {
            size as int
        }),
{
    lemma2_to64();
    assert(single_format().bias() == 127);
    if size == 0 {
        assert(0nat * pow2(149) == 0) by (nonlinear_arith);
        lemma_pow2_pos(149);
        assert(whole(0, -149) == 0) by {
            vstd::arithmetic::div_mod::lemma_div_of0(pow2(149) as int);
        }
    } else {
        lemma_top_bit(size);
        lemma_scaled_bounds(size, 0);
        let t = top_bit(size);
        if t > 24 {
            lemma_pow2_strictly_increases(24, t);
        }
        let place = t - 23;
        assert(last_place(t as int + 0) == place);
        let n = scaled(size, 0 - place);
        let magnitude = ((place + 149) * 0x80_0000 + n) as nat;
        assert(single_magnitude(size, 0) == magnitude);
        let bits = if negative {
            0x8000_0000 + magnitude
        } else {
            magnitude
        };
        let exponent = (bits / 0x80_0000) % 0x100;
        let fraction = bits % 0x80_0000;
        if t == 24 {
            assert(size == 0x100_0000);
            lemma_pow2_unfold(1);
            assert(pow2(1) == 2);
            assert(n == 0x80_0000);
            assert(exponent == 151 && fraction == 0);
            assert(whole(0x80_0000, 1) == 0x100_0000);
        } else {
            let k = (23 - t) as nat;
            assert(n == size * pow2(k));
            lemma_pow2_adds(t + 1, k);
            lemma_pow2_pos(k);
            assert(n < 0x100_0000) by (nonlinear_arith)
                requires
                    n == size * pow2(k),
                    size < pow2(t + 1),
                    pow2(t + 1) * pow2(k) == 0x100_0000,
                    pow2(k) > 0,
            ;
            assert(magnitude == (t + 127) * 0x80_0000 + (n - 0x80_0000));
            assert(exponent == t + 127);
            assert(fraction == n - 0x80_0000);
            lemma_pow2_pos(k);
            if k == 0 {
                assert(size * pow2(0) == size);
                assert(whole(n, 0) == n * pow2(0));
                assert(n * pow2(0) == n);
            } else {
                assert(whole(n, -(k as int)) == n / pow2(k));
                vstd::arithmetic::div_mod::lemma_div_multiples_vanish(size as int, pow2(k) as int);
                assert(size * pow2(k) == pow2(k) * size) by (nonlinear_arith);
            }
        }
    }
}

/// 2 to the power of `n`.
pub(crate) fn two_to(n: u32) -> (r: u128)
    requires
        n <= 127,
    ensures
        r == pow2(n as nat),
{
    let mut r: u128 = 1;
    let mut i: u32 = 0;
    proof {
        lemma2_to64();
    }
    while i < n
        invariant
            i <= n <= 127,
            r == pow2(i as nat),
        decreases n - i,
    {
        proof {
            lemma_pow2_unfold((i + 1) as nat);
            lemma_pow2_bound_127((i + 1) as nat);
        }
        r = r * 2;
        i = i + 1;
    }
    r
}

/// The powers of 2 up to the 127th fit 128 bits.
pub proof fn lemma_pow2_bound_127(n: nat)
    requires
        n <= 127,
    ensures
        pow2(n) <= 0x8000_0000_0000_0000_0000_0000_0000_0000,
{
    lemma2_to64();
    lemma2_to64_rest();
    lemma_pow2_adds(64, 63);
    assert(pow2(127) == 0x8000_0000_0000_0000_0000_0000_0000_0000) by {
        assert(pow2(64) == 0x1_0000_0000_0000_0000);
        assert(pow2(63) == 0x8000_0000_0000_0000);
        assert(0x1_0000_0000_0000_0000 * 0x8000_0000_0000_0000
            == 0x8000_0000_0000_0000_0000_0000_0000_0000) by (nonlinear_arith);
    }
    if n < 127 {
        lemma_pow2_strictly_increases(n, 127);
    }
}

/// The place of the highest 1 among the bits of `m`.
pub(crate) fn top_bit_of(m: u64) -> (p: u32)
    ensures
        p == top_bit(m as nat),
        p <= 63,
{
    let mut rest: u64 = m;
    let mut p: u32 = 0;
    proof {
        lemma2_to64();
        lemma2_to64_rest();
    }
    while rest >= 2
        invariant
            top_bit(m as nat) == p + top_bit(rest as nat),
            p <= 63,
            rest as nat * pow2(p as nat) <= m,
        decreases rest,
    {
        proof {
            lemma_pow2_unfold((p + 1) as nat);
            assert((rest / 2) as nat * (2 * pow2(p as nat)) <= rest as nat * pow2(p as nat))
                by (nonlinear_arith)
                requires
                    2 * (rest / 2) <= rest,
            ;
            if p == 63 {
                lemma2_to64_rest();
                assert(false) by (nonlinear_arith)
                    requires
                        rest as nat * pow2(63) <= m,
                        rest >= 2,
                        pow2(63) == 0x8000_0000_0000_0000,
                        m < 0x1_0000_0000_0000_0000,
                ;
            }
        }
        rest = rest / 2;
        p = p + 1;
    }
    p
}

/// A number as it was read from a scalar, in machine integers.
pub struct Reading {
    /// is it no number?
    pub nan: bool,
    /// is it infinite?
    pub infinite: bool,
    /// is it negative?
    pub negative: bool,
    /// the mantissa of a finite number
    pub mantissa: u64,
    /// the exponent of a finite number
    pub exponent: i32,
}

impl Reading {
    /// The number that was read.
    pub open spec fn number(self) -> Number {
        if self.nan {
            Number::NotANumber
        } else if self.infinite {
            Number::Infinite { negative: self.negative }
        } else {
            Number::Finite {
                negative: self.negative,
                mantissa: self.mantissa as nat,
                exponent: self.exponent as int,
            }
        }
    }
}

/// Is the format one of the three formats of 16, 32 and 64 bits?
pub open spec fn is_known_format(f: Format) -> bool {
    f == half_format() || f == single_format() || f == double_format()
}

/// Reads the bits of a floating-point number of the given format.
pub fn read_bits(bits: u64, f: Format) -> (r: Reading)
    requires
        is_known_format(f),
    ensures
        r.number() == f.number(bits as nat),
        r.mantissa < 0x20_0000_0000_0000,
        -1074 <= r.exponent <= 971,
{
    proof {
        lemma2_to64();
        lemma2_to64_rest();
        lemma_pow2_unfold(f.exponent as nat);
    }
    let fraction_radix: u64 = two_to(f.fraction) as u64;
    let exponent_radix: u64 = two_to(f.exponent) as u64;
    let fraction: u64 = bits % fraction_radix;
    let rest: u64 = bits / fraction_radix;
    let exponent: u64 = rest % exponent_radix;
    let negative: bool = (rest / exponent_radix) % 2 == 1;
    let bias: i32 = (exponent_radix / 2 - 1) as i32;
    if exponent == exponent_radix - 1 {
        Reading {
            nan: fraction != 0,
            infinite: fraction == 0,
            negative: negative,
            mantissa: 0,
            exponent: 0,
        }
    } else if exponent == 0 {
        Reading {
            nan: false,
            infinite: false,
            negative: negative,
            mantissa: fraction,
            exponent: 1 - bias - f.fraction as i32,
        }
    } else {
        Reading {
            nan: false,
            infinite: false,
            negative: negative,
            mantissa: fraction_radix + fraction,
            exponent: exponent as i32 - bias - f.fraction as i32,
        }
    }
}

/// An integer as a number that was read.
pub fn read_integer(negative: bool, size: u64) -> (r: Reading)
    ensures
        r.number() == (Number::Finite { negative: negative, mantissa: size as nat, exponent: 0 }),
        !r.nan,
        !r.infinite,
        r.exponent == 0,
{
    Reading { nan: false, infinite: false, negative: negative, mantissa: size, exponent: 0 }
}

/// The bounds of a number that was rounded to the last place of the format
/// of 32 bits: it has at most 24 bits and one more only where rounding
/// carried; and where the last place lies 23 below the top, it has no less.
pub proof fn lemma_scaled_bounds(m: nat, e: int)
    requires
        m >= 1,
    ensures
        scaled(m, e - last_place(top_bit(m) + e)) <= 0x100_0000,
        last_place(top_bit(m) + e) == top_bit(m) + e - 23 ==> scaled(
            m,
            e - last_place(top_bit(m) + e),
        ) >= 0x80_0000,
{
    let t = top_bit(m);
    let place = last_place(t + e);
    let k = e - place;
    lemma_top_bit(m);
    lemma2_to64();
    assert(k <= 23 - t);
    if k >= 0 {
        let kn = k as nat;
        lemma_pow2_adds(t + 1, kn);
        lemma_pow2_adds(t, kn);
        lemma_pow2_pos(kn);
        if t + 1 + kn < 24 {
            lemma_pow2_strictly_increases(t + 1 + kn, 24);
        }
        assert(m * pow2(kn) < pow2(t + 1) * pow2(kn)) by (nonlinear_arith)
            requires
                m < pow2(t + 1),
                pow2(kn) > 0,
        ;
        if place == t + e - 23 {
            assert(m * pow2(kn) >= pow2(t) * pow2(kn)) by (nonlinear_arith)
                requires
                    m >= pow2(t),
                    pow2(kn) > 0,
            ;
        }
    } else {
        let sn = (-k) as nat;
        let d = pow2(sn);
        lemma_pow2_pos(sn);
        // t + 1 <= 24 + sn
        lemma_pow2_adds(24, sn);
        if t + 1 < 24 + sn {
            lemma_pow2_strictly_increases(t + 1, 24 + sn);
        }
        assert(m < d * 0x100_0000) by (nonlinear_arith)
            requires
                m < pow2(t + 1),
                pow2(t + 1) <= pow2(24 + sn),
                pow2(24 + sn) == 0x100_0000 * d,
        ;
        vstd::arithmetic::div_mod::lemma_multiply_divide_lt(m as int, d as int, 0x100_0000);
        if place == t + e - 23 {
            // sn == t - 23
            lemma_pow2_adds(23, sn);
            assert(m >= 0x80_0000 * d);
            vstd::arithmetic::div_mod::lemma_div_is_ordered(
                (0x80_0000 * d) as int,
                m as int,
                d as int,
            );
            vstd::arithmetic::div_mod::lemma_div_multiples_vanish(0x80_0000, d as int);
        }
    }
}

/// What is far below half a step is rounded to nothing.
pub proof fn lemma_scaled_vanishes(m: nat, k: int)
    requires
        m < 0x1_0000_0000_0000_0000,
        k <= -66,
    ensures
        scaled(m, k) == 0,
{
    lemma2_to64();
    let sn = (-k) as nat;
    lemma_pow2_strictly_increases(65, sn);
    lemma_pow2_unfold(65);
    vstd::arithmetic::div_mod::lemma_small_mod(m, pow2(sn));
    vstd::arithmetic::div_mod::lemma_basic_div(m as int, pow2(sn) as int);
}

/// `m` times 2 to the power of `k`, rounded to the nearest whole number and
/// to the even one where two are equally near.
pub(crate) fn scaled_of(m: u64, k: i32) -> (r: u64)
    requires
        m >= 1,
        -4000 <= k <= 4000,
        scaled(m as nat, k as int) <= 0x100_0000,
    ensures
        r == scaled(m as nat, k as int),
{
    proof {
        lemma2_to64();
        lemma2_to64_rest();
    }
    if k >= 0 {
        proof {
            let kn = k as nat;
            lemma_pow2_pos(kn);
            if kn > 24 {
                lemma_pow2_strictly_increases(24, kn);
            }
            assert(kn <= 24) by {
                if kn > 24 {
                    assert(m as nat * pow2(kn) >= pow2(kn)) by (nonlinear_arith)
                        requires
                            m >= 1,
                    ;
                }
            }
        }
        let factor: u64 = two_to(k as u32) as u64;
        m * factor
    } else if k <= -66 {
        proof {
            lemma_scaled_vanishes(m as nat, k as int);
        }
        0
    } else {
        let s: u32 = (0 - k) as u32;
        let d: u128 = two_to(s);
        proof {
            lemma_pow2_pos(s as nat);
        }
        let wide: u128 = m as u128;
        let down: u128 = wide / d;
        let rest: u128 = wide % d;
        proof {
            lemma_pow2_bound_127(s as nat);
        }
        if 2 * rest > d || (2 * rest == d && down % 2 == 1) {
            (down + 1) as u64
        } else {
            down as u64
        }
    }
}

/// The bits, without the sign, of the 32-bit floating-point number nearest
/// to `m` times 2 to the power of `e`.
pub fn single_magnitude_of(m: u64, e: i32) -> (r: u32)
    ensures
        r == single_magnitude(m as nat, e as int),
        r <= 0x7f80_0000,
{
    if m == 0 {
        return 0;
    }
    proof {
        lemma_scaled_bounds(m as nat, e as int);
    }
    if e > 2000 {
        return 0x7f80_0000;
    }
    if e < -2000 {
        proof {
            lemma_top_bit(m as nat);
            if top_bit(m as nat) >= 64 {
                lemma2_to64();
                if top_bit(m as nat) > 64 {
                    lemma_pow2_strictly_increases(64, top_bit(m as nat));
                }
            }
            lemma_scaled_vanishes(m as nat, e + 149);
        }
        return 0;
    }
    let top: i32 = top_bit_of(m) as i32 + e;
    if top > 127 {
        return 0x7f80_0000;
    }
    let place: i32 = if top - 23 >= -149 {
        top - 23
    } else {
        -149
    };
    let n: u64 = scaled_of(m, e - place);
    let bits: u64 = (place + 149) as u64 * 0x80_0000 + n;
    if bits >= 0x7f80_0000 {
        0x7f80_0000
    } else {
        bits as u32
    }
}

/// The 32 bits of a number cast to floating point.
pub fn single_bits_of(x: &Reading) -> (r: u32)
    ensures
        r == single_bits(x.number()),
{
    if x.nan {
        0x7fc0_0000
    } else if x.infinite {
        if x.negative {
            0xff80_0000
        } else {
            0x7f80_0000
        }
    } else {
        let magnitude: u32 = single_magnitude_of(x.mantissa, x.exponent);
        if x.negative {
            0x8000_0000 + magnitude
        } else {
            magnitude
        }
    }
}

/// A number cast to an integer between `low` and `high`.
pub fn clamped_of(x: &Reading, low: i64, high: i64) -> (r: i64)
    requires
        -0x1_0000_0000 <= low <= 0 <= high <= 0x1_0000_0000,
    ensures
        r == clamped(x.number(), low as int, high as int),
{
    if x.nan {
        return 0;
    }
    if x.infinite {
        return if x.negative {
            low
        } else {
            high
        };
    }
    proof {
        lemma2_to64();
        lemma2_to64_rest();
    }
    let ghost exact = whole(x.mantissa as nat, x.exponent as int);
    let size: u128 = if x.mantissa == 0 {
        proof {
            if x.exponent >= 0 {
                assert(0 * pow2(x.exponent as nat) == 0) by (nonlinear_arith);
            } else {
                lemma_pow2_pos((-x.exponent) as nat);
                vstd::arithmetic::div_mod::lemma_div_of0(pow2((-x.exponent) as nat) as int);
            }
            assert(exact == 0);
        }
        0
    } else if x.exponent >= 33 {
        proof {
            let en = x.exponent as nat;
            if en > 33 {
                lemma_pow2_strictly_increases(33, en);
            }
            assert(exact >= 0x2_0000_0000) by (nonlinear_arith)
                requires
                    exact == x.mantissa as nat * pow2(en),
                    x.mantissa >= 1,
                    pow2(en) >= 0x2_0000_0000,
            ;
        }
        0x2_0000_0000
    } else if x.exponent >= 0 {
        proof {
            let en = x.exponent as nat;
            if en < 32 {
                lemma_pow2_strictly_increases(en, 32);
            }
            assert(x.mantissa as nat * pow2(en) <= 0xffff_ffff_ffff_ffff * 0x1_0000_0000)
                by (nonlinear_arith)
                requires
                    x.mantissa <= 0xffff_ffff_ffff_ffff,
                    pow2(en) <= 0x1_0000_0000,
            ;
        }
        let wide: u128 = x.mantissa as u128 * two_to(x.exponent as u32);
        assert(wide == exact);
        if wide > 0x2_0000_0000 {
            0x2_0000_0000
        } else {
            wide
        }
    } else if x.exponent <= -64 {
        proof {
            let sn = (-x.exponent) as nat;
            if sn > 64 {
                lemma_pow2_strictly_increases(64, sn);
            }
            vstd::arithmetic::div_mod::lemma_basic_div(x.mantissa as int, pow2(sn) as int);
            assert(exact == 0);
        }
        0
    } else {
        let d: u128 = two_to((0 - x.exponent) as u32);
        proof {
            lemma_pow2_pos((-x.exponent) as nat);
        }
        let down: u128 = x.mantissa as u128 / d;
        assert(down == exact);
        if down > 0x2_0000_0000 {
            0x2_0000_0000
        } else {
            down
        }
    };
    assert(size == exact || (size == 0x2_0000_0000 && exact >= 0x2_0000_0000));
    if x.negative {
        if size > (0 - low) as u128 {
            low
        } else {
            0 - size as i64
        }
    } else {
        if size > high as u128 {
            high
        } else {
            size as i64
        }
    }
}

} // verus!
