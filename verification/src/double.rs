//! Double precision numbers as their IEEE 754 bit patterns: which of them lie
//! in a range, what their decimal texts are, and the product of two of them.
//!
//! A pattern has a sign bit, eleven bits of exponent and 52 bits of fraction.
//! Its magnitude is a whole number of units of two to the power of -1074, so
//! that all that is said here is said of whole numbers.

use vstd::arithmetic::div_mod::{lemma_fundamental_div_mod, lemma_fundamental_div_mod_converse};
use vstd::arithmetic::power2::{lemma_pow2_adds, lemma_pow2_pos, lemma_pow2_strictly_increases, lemma_pow2_unfold, pow2};
use vstd::prelude::*;

use crate::numeral::{
    decimal, digit, digits_value, is_digit, lemma_decimal_digits, lemma_decimal_value, padded, push_decimal, push_padded,
};

verus! {

/// Two to the power of 52, the number of fractions.
pub const FRACTIONS: u64 = 0x10_0000_0000_0000;

/// The sign bit on its own, which is the pattern of negative zero.
pub const SIGN: u64 = 0x8000_0000_0000_0000;

/// The exponent field.
pub open spec fn exponent(bits: u64) -> nat {
    ((bits / FRACTIONS) % 2048) as nat
}

/// The fraction field.
pub open spec fn fraction(bits: u64) -> nat {
    (bits % FRACTIONS) as nat
}

/// The sign bit is set.
pub open spec fn negative(bits: u64) -> bool {
    bits >= SIGN
}

/// The pattern is that of a number, neither infinite nor a NaN.
pub open spec fn finite(bits: u64) -> bool {
    exponent(bits) < 2047
}

/// The fraction with the leading one that normal numbers have.
pub open spec fn significand(bits: u64) -> nat {
    if exponent(bits) == 0 {
        fraction(bits)
    } else {
        FRACTIONS as nat + fraction(bits)
    }
}

/// The power of two by which the significand counts: normal numbers begin at
/// exponent one, and the smaller ones share its scale.
pub open spec fn scale(bits: u64) -> nat {
    if exponent(bits) == 0 {
        0
    } else {
        (exponent(bits) - 1) as nat
    }
}

/// The magnitude, in units of two to the power of -1074.
pub open spec fn units(bits: u64) -> nat {
    significand(bits) * pow2(scale(bits))
}

/// How many units make one.
pub open spec fn one() -> nat {
    pow2(1074)
}

/// The number lies between zero and `limit`, both included.
pub open spec fn between_zero_and(bits: u64, limit: nat) -> bool {
    &&& finite(bits)
    &&& !negative(bits) || units(bits) == 0
    &&& units(bits) <= limit * one()
}

/// The whole number nearest to `x / d`; of two that are equally near, the even
/// one.
pub open spec fn nearest(x: nat, d: nat) -> nat {
    let q = x / d;
    let r = x % d;
    if 2 * r < d {
        q
    } else if 2 * r > d {
        q + 1
    } else if q % 2 == 0 {
        q
    } else {
        q + 1
    }
}

proof fn lemma_nearest_scale(x: nat, d: nat, k: nat)
    requires
        d > 0,
        k > 0,
    ensures
        d * k > 0,
        nearest(x * k, d * k) == nearest(x, d),
{
    let q = x as int / d as int;
    let r = x as int % d as int;
    lemma_fundamental_div_mod(x as int, d as int);
    assert(d * k > 0) by (nonlinear_arith)
        requires
            d > 0,
            k > 0,
    ;
    assert(x * k == q * (d * k) + r * k) by (nonlinear_arith)
        requires
            x == d * q + r,
    ;
    assert(0 <= r * k < d * k) by (nonlinear_arith)
        requires
            0 <= r < d,
            k > 0,
    ;
    lemma_fundamental_div_mod_converse((x * k) as int, (d * k) as int, q, r * k);
    assert((2 * r < d) == (2 * (r * k) < d * k)) by (nonlinear_arith)
        requires
            k > 0,
    ;
    assert((2 * r > d) == (2 * (r * k) > d * k)) by (nonlinear_arith)
        requires
            k > 0,
    ;
}

/// `nearest` is no more than half a step away.
pub proof fn lemma_nearest_close(x: nat, d: nat)
    requires
        d > 0,
    ensures
        2 * x <= 2 * (nearest(x, d) * d) + d,
        2 * (nearest(x, d) * d) <= 2 * x + d,
{
    let q = x as int / d as int;
    let r = x as int % d as int;
    lemma_fundamental_div_mod(x as int, d as int);
    assert(x == q * d + r) by (nonlinear_arith)
        requires
            x == d * q + r,
    ;
    assert((q + 1) * d == q * d + d) by (nonlinear_arith);
}

/// A number of whole steps is its own nearest number.
pub proof fn lemma_nearest_whole(n: nat, d: nat)
    requires
        d > 0,
    ensures
        nearest(n * d, d) == n,
{
    lemma_fundamental_div_mod_converse((n * d) as int, d as int, n as int, 0);
}

/// A larger number has no smaller nearest number.
pub proof fn lemma_nearest_order(x: nat, y: nat, d: nat)
    requires
        d > 0,
        x <= y,
    ensures
        nearest(x, d) <= nearest(y, d),
{
    lemma_fundamental_div_mod(x as int, d as int);
    lemma_fundamental_div_mod(y as int, d as int);
    let qx = x as int / d as int;
    let qy = y as int / d as int;
    let rx = x as int % d as int;
    let ry = y as int % d as int;
    if qx > qy {
        assert(d * qx >= d * (qy + 1)) by (nonlinear_arith)
            requires
                qx >= qy + 1,
                d > 0,
        ;
        assert(d * (qy + 1) == d * qy + d) by (nonlinear_arith);
    }
    if qx == qy {
        assert(rx <= ry);
    }
}

/// Patterns of positive numbers are in the order of the numbers.
pub proof fn lemma_units_order(a: u64, b: u64)
    requires
        a < b < SIGN,
        finite(b),
    ensures
        finite(a),
        units(a) < units(b),
{
    let ea = exponent(a);
    let eb = exponent(b);
    assert(a / FRACTIONS <= b / FRACTIONS) by (nonlinear_arith)
        requires
            a <= b,
            FRACTIONS == 0x10_0000_0000_0000,
    ;
    assert(ea == a / FRACTIONS && eb == b / FRACTIONS);
    lemma_pow2_pos(scale(a));
    lemma_pow2_pos(scale(b));
    if ea == eb {
        assert(fraction(a) < fraction(b));
        assert(significand(a) < significand(b));
        assert(significand(a) * pow2(scale(a)) < significand(b) * pow2(scale(a)))
            by (nonlinear_arith)
            requires
                significand(a) < significand(b),
                pow2(scale(a)) > 0,
        ;
    } else {
        let f = FRACTIONS as nat;
        let pa = pow2(scale(a));
        let pb = pow2(scale(b));
        assert(significand(b) * pb >= f * pb) by (nonlinear_arith)
            requires
                significand(b) >= f,
        ;
        if ea == 0 {
            assert(pa == 1) by {
                vstd::arithmetic::power2::lemma2_to64();
            }
            assert(f * pb >= f) by (nonlinear_arith)
                requires
                    pb > 0,
            ;
            assert(significand(a) * pa == significand(a)) by (nonlinear_arith)
                requires
                    pa == 1,
            ;
        } else {
            lemma_pow2_unfold((scale(a) + 1) as nat);
            if scale(a) + 1 < scale(b) {
                lemma_pow2_strictly_increases((scale(a) + 1) as nat, scale(b));
            }
            assert(pb >= 2 * pa);
            assert(significand(a) * pa < f * pb) by (nonlinear_arith)
                requires
                    significand(a) < 2 * f,
                    pb >= 2 * pa,
                    pa > 0,
            ;
        }
    }
}

/// Whether the number lies between zero and the number of the pattern `top`,
/// both included.
pub fn within(bits: u64, top: u64) -> (r: bool)
    requires
        top < SIGN,
        finite(top),
    ensures
        r == (finite(bits) && (!negative(bits) || units(bits) == 0) && units(bits) <= units(top)),
{
    proof {
        vstd::arithmetic::power2::lemma2_to64();
        if bits < SIGN {
            if bits < top {
                lemma_units_order(bits, top);
            } else if bits > top && finite(bits) {
                lemma_units_order(top, bits);
            }
        } else {
            lemma_pow2_pos(scale(bits));
            assert(units(bits) == 0 <==> significand(bits) == 0) by (nonlinear_arith)
                requires
                    units(bits) == significand(bits) * pow2(scale(bits)),
                    pow2(scale(bits)) > 0,
            ;
            assert(significand(bits) == 0 <==> bits == SIGN);
            assert(bits == SIGN ==> units(bits) <= units(top));
        }
    }
    bits <= top || bits == SIGN
}

/// Two to the power of `e`.
fn power_of_two(e: u32) -> (p: u128)
    requires
        e < 128,
    ensures
        p == pow2(e as nat),
{
    let mut p: u128 = 1;
    let mut i: u32 = 0;
    proof {
        vstd::arithmetic::power2::lemma2_to64();
    }
    while i < e
        invariant
            i <= e < 128,
            p == pow2(i as nat),
        decreases e - i,
    {
        proof {
            lemma_pow2_unfold((i + 1) as nat);
            if i + 1 < 127 {
                lemma_pow2_strictly_increases((i + 1) as nat, 127);
            }
            lemma_pow2_127();
        }
        p = p * 2;
        i = i + 1;
    }
    p
}

proof fn lemma_pow2_127()
    ensures
        pow2(127) == 0x8000_0000_0000_0000_0000_0000_0000_0000,
{
    vstd::arithmetic::power2::lemma2_to64();
    vstd::arithmetic::power2::lemma2_to64_rest();
    lemma_pow2_adds(63, 64);
}

/// The whole number nearest to `x` over two to the power of `e`.
fn nearest_shifted(x: u128, e: u32) -> (n: u128)
    requires
        e < 128,
        x < u128::MAX,
    ensures
        n == nearest(x as nat, pow2(e as nat)),
{
    let d = power_of_two(e);
    proof {
        lemma_pow2_pos(e as nat);
        assert(x / d <= x) by (nonlinear_arith)
            requires
                d >= 1,
        ;
    }
    let q: u128 = x / d;
    let r: u128 = x % d;
    if r < d - r {
        q
    } else if r > d - r {
        q + 1
    } else if q % 2 == 0 {
        q
    } else {
        q + 1
    }
}

// Decimal texts.

/// The magnitude in thousandths, to the nearest.
pub open spec fn thousandths(bits: u64) -> nat {
    nearest(units(bits) * 1000, one())
}

/// The decimal text of the number with three digits after the point.
pub open spec fn fixed(bits: u64) -> Seq<char> {
    (if negative(bits) {
        seq!['-']
    } else {
        Seq::empty()
    }) + decimal(thousandths(bits) / 1000) + seq!['.'] + padded(thousandths(bits), 3)
}

/// The exponent of a number below 64.
proof fn lemma_small_exponent(bits: u64)
    requires
        finite(bits),
        units(bits) < 64 * one(),
    ensures
        exponent(bits) <= 1028,
{
    if exponent(bits) > 1028 {
        let e = scale(bits);
        assert(e >= 1028);
        lemma_pow2_pos(e);
        vstd::arithmetic::power2::lemma2_to64();
        vstd::arithmetic::power2::lemma2_to64_rest();
        assert(FRACTIONS as nat == pow2(52));
        assert(units(bits) >= pow2(52) * pow2(e)) by (nonlinear_arith)
            requires
                units(bits) == significand(bits) * pow2(e),
                significand(bits) >= pow2(52),
        ;
        lemma_pow2_adds(52, e);
        lemma_pow2_adds(6, 1074);
        if 1080 < 52 + e {
            lemma_pow2_strictly_increases(1080, 52 + e);
        }
        assert(pow2(52 + e) >= 64 * one());
    }
}

/// The magnitude in thousandths, of a number of at most 60.
fn count_thousandths(bits: u64) -> (n: u64)
    requires
        finite(bits),
        units(bits) <= 60 * one(),
    ensures
        n == thousandths(bits),
        n <= 60000,
{
    let e: u64 = (bits / FRACTIONS) % 2048;
    let f: u64 = bits % FRACTIONS;
    let m: u64 = if e == 0 {
        f
    } else {
        FRACTIONS + f
    };
    let k: u64 = if e == 0 {
        0
    } else {
        e - 1
    };
    proof {
        lemma_pow2_pos(1074);
        lemma_small_exponent(bits);
        lemma_pow2_pos(k as nat);
        let s = (1074 - k) as nat;
        lemma_pow2_pos(s);
        lemma_pow2_adds(s, k as nat);
        assert(units(bits) * 1000 == (m * 1000) * pow2(k as nat)) by (nonlinear_arith)
            requires
                units(bits) == m * pow2(k as nat),
        ;
        lemma_nearest_scale((m * 1000) as nat, pow2(s), pow2(k as nat));
        assert(thousandths(bits) == nearest((m * 1000) as nat, pow2(s)));
        lemma_nearest_order((units(bits) * 1000) as nat, 60000 * one(), one());
        lemma_nearest_whole(60000, one());
        vstd::arithmetic::power2::lemma2_to64();
        vstd::arithmetic::power2::lemma2_to64_rest();
        if s >= 64 {
            if s > 64 {
                lemma_pow2_strictly_increases(64, s);
            }
            lemma_fundamental_div_mod_converse((m * 1000) as int, pow2(s) as int, 0, (m * 1000) as int);
        }
    }
    if k <= 1010 {
        return 0;
    }
    nearest_shifted(m as u128 * 1000, (1074 - k) as u32) as u64
}

/// The decimal text with three digits after the point, of a number of at most
/// 60.
pub fn fixed_text(bits: u64) -> (s: String)
    requires
        finite(bits),
        units(bits) <= 60 * one(),
    ensures
        s@ == fixed(bits),
{
    let n = count_thousandths(bits);
    let mut s: String = String::new();
    if bits >= SIGN {
        s.push('-');
    }
    proof {
        assert(s@ =~= if negative(bits) {
            seq!['-']
        } else {
            Seq::<char>::empty()
        });
    }
    push_decimal(&mut s, n / 1000);
    let ghost t = s@;
    s.push('.');
    proof {
        assert(s@ =~= t + seq!['.']);
    }
    push_padded(&mut s, n, 3);
    s
}

/// A pattern whose significand is `n` times two to the power of `k`, where `k`
/// makes up for the scale, is the pattern of `n`.
pub proof fn lemma_whole_number(bits: u64, n: nat, k: nat)
    requires
        significand(bits) == n * pow2(k),
        scale(bits) + k == 1074,
    ensures
        units(bits) == n * one(),
{
    lemma_pow2_adds(k, scale(bits));
    assert(n * pow2(k) * pow2(scale(bits)) == n * (pow2(k) * pow2(scale(bits))))
        by (nonlinear_arith);
}

// Products.

/// The product of two magnitudes, in units of two to the power of -2148.
pub open spec fn product(a: u64, b: u64) -> nat {
    units(a) * units(b)
}

/// The product in steps of two to the power of `-44`, to the nearest. These
/// are the steps of double precision numbers from 256 to 512, so that this is
/// what a multiplication gives there.
pub open spec fn product_44(a: u64, b: u64) -> nat {
    nearest(product(a, b), pow2(2104))
}

/// The product in steps of two to the power of `-43`, to the nearest: what a
/// multiplication gives from 512 to 1024.
pub open spec fn product_43(a: u64, b: u64) -> nat {
    nearest(product(a, b), pow2(2105))
}

/// The product is less than 512.
pub open spec fn below_512(a: u64, b: u64) -> bool {
    product(a, b) < 512 * pow2(2148)
}

/// The product, as double precision multiplication gives it, in tenths, to the
/// nearest.
pub open spec fn product_tenths(a: u64, b: u64) -> nat {
    if below_512(a, b) {
        nearest(product_44(a, b) * 10, pow2(44))
    } else {
        nearest(product_43(a, b) * 10, pow2(43))
    }
}

/// A product of magnitudes that are bounded by whole numbers.
pub proof fn lemma_product_bound(a: u64, b: u64, x: nat, y: nat)
    requires
        units(a) <= x * one(),
        units(b) <= y * one(),
    ensures
        product(a, b) <= (x * y) * pow2(2148),
        product_44(a, b) <= (x * y) * pow2(44),
{
    lemma_pow2_adds(1074, 1074);
    assert(units(a) * units(b) <= (x * y) * (one() * one())) by (nonlinear_arith)
        requires
            units(a) <= x * one(),
            units(b) <= y * one(),
    ;
    lemma_pow2_adds(44, 2104);
    lemma_pow2_pos(2104);
    assert((x * y) * pow2(2148) == ((x * y) * pow2(44)) * pow2(2104)) by (nonlinear_arith)
        requires
            pow2(2148) == pow2(44) * pow2(2104),
    ;
    lemma_nearest_order(product(a, b), ((x * y) * pow2(44)) * pow2(2104), pow2(2104));
    lemma_nearest_whole((x * y) * pow2(44), pow2(2104));
}

/// The pattern of 16.
pub const SIXTEEN: u64 = 0x4030_0000_0000_0000;

/// The pattern of 4.
pub const FOUR: u64 = 0x4010_0000_0000_0000;

proof fn lemma_landmarks()
    ensures
        finite(SIXTEEN),
        finite(FOUR),
        units(SIXTEEN) == 16 * one(),
        units(FOUR) == 4 * one(),
{
    vstd::arithmetic::power2::lemma2_to64();
    vstd::arithmetic::power2::lemma2_to64_rest();
    assert(significand(SIXTEEN) == 16 * pow2(48));
    lemma_whole_number(SIXTEEN, 16, 48);
    assert(significand(FOUR) == 4 * pow2(50));
    lemma_whole_number(FOUR, 4, 50);
}

/// The exponent of a number from 16 to 60.
proof fn lemma_exponent_from_16(a: u64)
    requires
        SIXTEEN <= a < SIGN,
        between_zero_and(a, 60),
    ensures
        1027 <= exponent(a) <= 1028,
{
    lemma_pow2_pos(1074);
    lemma_small_exponent(a);
    assert(a / FRACTIONS >= 1027) by (nonlinear_arith)
        requires
            a >= 0x4030_0000_0000_0000,
            FRACTIONS == 0x10_0000_0000_0000,
    ;
}

/// The exponent of a number from 4 to 10.
proof fn lemma_exponent_from_4(b: u64)
    requires
        FOUR <= b < SIGN,
        between_zero_and(b, 10),
    ensures
        1025 <= exponent(b) <= 1026,
{
    lemma_pow2_pos(1074);
    assert(b / FRACTIONS >= 1025) by (nonlinear_arith)
        requires
            b >= 0x4010_0000_0000_0000,
            FRACTIONS == 0x10_0000_0000_0000,
    ;
    lemma_landmarks();
    if b >= SIXTEEN {
        if b > SIXTEEN {
            lemma_units_order(SIXTEEN, b);
        }
        assert(false);
    }
    assert(b / FRACTIONS < 1027) by (nonlinear_arith)
        requires
            b < 0x4030_0000_0000_0000,
            FRACTIONS == 0x10_0000_0000_0000,
    ;
}

/// The product of two numbers in the ranges given is that of their
/// significands, shifted.
proof fn lemma_product_of_significands(a: u64, b: u64)
    requires
        1027 <= exponent(a) <= 1028,
        1025 <= exponent(b) <= 1026,
    ensures
        product_44(a, b) == nearest(
            significand(a) * significand(b),
            pow2((2106 - exponent(a) - exponent(b)) as nat),
        ),
        product_43(a, b) == nearest(
            significand(a) * significand(b),
            pow2((2107 - exponent(a) - exponent(b)) as nat),
        ),
        below_512(a, b) == (significand(a) * significand(b) < pow2(
            (2159 - exponent(a) - exponent(b)) as nat,
        )),
{
    let x = significand(a) * significand(b);
    let k = (scale(a) + scale(b)) as nat;
    let e = exponent(a) + exponent(b);
    lemma_pow2_adds(scale(a), scale(b));
    lemma_pow2_pos(k);
    assert(product(a, b) == x * pow2(k)) by (nonlinear_arith)
        requires
            product(a, b) == (significand(a) * pow2(scale(a))) * (significand(b) * pow2(scale(b))),
            x == significand(a) * significand(b),
            pow2(k) == pow2(scale(a)) * pow2(scale(b)),
    ;
    let s = (2106 - e) as nat;
    lemma_pow2_pos(s);
    lemma_pow2_adds(s, k);
    lemma_nearest_scale(x, pow2(s), pow2(k));
    let t = (2107 - e) as nat;
    lemma_pow2_pos(t);
    lemma_pow2_adds(t, k);
    lemma_nearest_scale(x, pow2(t), pow2(k));
    let u = (2159 - e) as nat;
    lemma_pow2_adds(u, k);
    vstd::arithmetic::power2::lemma2_to64();
    lemma_pow2_adds(9, 2148);
    assert(512 * pow2(2148) == pow2(u) * pow2(k));
    assert((x * pow2(k) < pow2(u) * pow2(k)) == (x < pow2(u))) by (nonlinear_arith)
        requires
            pow2(k) > 0,
    ;
}

/// The exponents and the product of the significands of two numbers.
fn multiply_significands(a: u64, b: u64) -> (r: (u32, u128))
    requires
        1027 <= exponent(a) <= 1028,
        1025 <= exponent(b) <= 1026,
    ensures
        r.0 == exponent(a) + exponent(b),
        r.1 == significand(a) * significand(b),
        r.1 < 0x400_0000_0000_0000_0000_0000_0000,
{
    let ea: u64 = (a / FRACTIONS) % 2048;
    let eb: u64 = (b / FRACTIONS) % 2048;
    let ma: u128 = (FRACTIONS + a % FRACTIONS) as u128;
    let mb: u128 = (FRACTIONS + b % FRACTIONS) as u128;
    proof {
        assert(ma * mb < 0x20_0000_0000_0000 * 0x20_0000_0000_0000) by (nonlinear_arith)
            requires
                ma < 0x20_0000_0000_0000,
                mb < 0x20_0000_0000_0000,
        ;
    }
    ((ea + eb) as u32, ma * mb)
}

/// Whether the product of a number of at most 60 and one of at most 10, as
/// double precision multiplication gives it, is more than `limit` steps of two
/// to the power of -44.
pub fn product_exceeds(a: u64, b: u64, limit: u64) -> (r: bool)
    requires
        between_zero_and(a, 60),
        between_zero_and(b, 10),
        limit >= 240 * 0x1000_0000_0000,
    ensures
        r == (product_44(a, b) > limit),
        r ==> SIXTEEN <= a < SIGN && FOUR <= b < SIGN,
{
    proof {
        lemma_landmarks();
        vstd::arithmetic::power2::lemma2_to64();
        vstd::arithmetic::power2::lemma2_to64_rest();
        lemma_pow2_pos(1074);
        if a >= SIGN {
            lemma_product_bound(a, b, 0, 10);
        } else if b >= SIGN {
            lemma_product_bound(a, b, 60, 0);
        } else if a < SIXTEEN {
            lemma_units_order(a, SIXTEEN);
            lemma_product_bound(a, b, 16, 10);
        } else if b < FOUR {
            lemma_units_order(b, FOUR);
            lemma_product_bound(a, b, 60, 4);
        }
    }
    if a >= SIGN || b >= SIGN || a < SIXTEEN || b < FOUR {
        return false;
    }
    proof {
        lemma_exponent_from_16(a);
        lemma_exponent_from_4(b);
        lemma_product_of_significands(a, b);
    }
    let (e, x) = multiply_significands(a, b);
    nearest_shifted(x, 2106 - e) > limit as u128
}

/// The nearest number of steps is no more than the number divided, plus one.
proof fn lemma_nearest_within(x: nat, d: nat)
    requires
        d > 0,
    ensures
        nearest(x, d) <= x + 1,
{
    assert(x / d <= x) by (nonlinear_arith)
        requires
            d >= 1,
    ;
}

/// A product of at most 60 times 10 is at most 6000 tenths.
proof fn lemma_tenths_bound(a: u64, b: u64)
    requires
        between_zero_and(a, 60),
        between_zero_and(b, 10),
    ensures
        product_tenths(a, b) <= 6000,
{
    lemma_product_bound(a, b, 60, 10);
    if below_512(a, b) {
        vstd::arithmetic::power2::lemma2_to64();
        vstd::arithmetic::power2::lemma2_to64_rest();
        lemma_nearest_order(product_44(a, b) * 10, 6000 * pow2(44), pow2(44));
        lemma_nearest_whole(6000, pow2(44));
    } else {
        lemma_pow2_pos(43);
        lemma_pow2_pos(2105);
        lemma_pow2_adds(43, 2105);
        assert(600 * pow2(2148) == (600 * pow2(43)) * pow2(2105)) by (nonlinear_arith)
            requires
                pow2(2148) == pow2(43) * pow2(2105),
        ;
        lemma_nearest_order(product(a, b), (600 * pow2(43)) * pow2(2105), pow2(2105));
        lemma_nearest_whole(600 * pow2(43), pow2(2105));
        lemma_nearest_order(product_43(a, b) * 10, 6000 * pow2(43), pow2(43));
        lemma_nearest_whole(6000, pow2(43));
    }
}

/// The decimal text of a number of tenths.
pub open spec fn tenths_text(n: nat) -> Seq<char> {
    decimal(n / 10) + seq!['.'] + padded(n, 1)
}

/// The product of two numbers, as double precision multiplication gives it, in
/// decimal with one digit after the point.
pub fn product_text(a: u64, b: u64) -> (s: String)
    requires
        between_zero_and(a, 60),
        between_zero_and(b, 10),
        SIXTEEN <= a < SIGN,
        FOUR <= b < SIGN,
    ensures
        s@ == tenths_text(product_tenths(a, b)),
{
    proof {
        lemma_exponent_from_16(a);
        lemma_exponent_from_4(b);
        lemma_product_of_significands(a, b);
        vstd::arithmetic::power2::lemma2_to64();
        vstd::arithmetic::power2::lemma2_to64_rest();
    }
    let (e, x) = multiply_significands(a, b);
    let n: u128;
    if x < power_of_two(2159 - e) {
        let p = nearest_shifted(x, 2106 - e);
        proof {
            lemma_nearest_within(x as nat, pow2((2106 - e) as nat));
        }
        n = nearest_shifted(p * 10, 44);
        proof {
            lemma_nearest_within((p * 10) as nat, pow2(44));
        }
    } else {
        let p = nearest_shifted(x, 2107 - e);
        proof {
            lemma_nearest_within(x as nat, pow2((2107 - e) as nat));
        }
        n = nearest_shifted(p * 10, 43);
        proof {
            lemma_nearest_within((p * 10) as nat, pow2(43));
        }
    }
    proof {
        assert(n == product_tenths(a, b));
        lemma_tenths_bound(a, b);
    }
    let mut s: String = String::new();
    let t: u64 = n as u64;
    push_decimal(&mut s, t / 10);
    let ghost u = s@;
    proof {
        assert(u =~= decimal((t / 10) as nat));
    }
    s.push('.');
    proof {
        assert(s@ =~= u + seq!['.']);
    }
    push_padded(&mut s, t, 1);
    s
}

// What the patterns and the texts stand for.

/// A pattern has eleven bits of exponent above 52 bits of fraction, and a sign
/// above both. With the exponent 0 its magnitude is the fraction in units of
/// two to the power of -1074; with any other but the highest it is two to the
/// power of 52 and the fraction, doubled for each step of the exponent after
/// the first. The highest exponent is that of no number.
pub proof fn law_what_a_pattern_stands_for(bits: u64)
    ensures
        ({
            let e = (bits as nat / 4503599627370496) % 2048;
            let f = bits as nat % 4503599627370496;
            &&& finite(bits) <==> e != 2047
            &&& negative(bits) <==> bits >= 9223372036854775808
            &&& e == 0 ==> units(bits) == f
            &&& e > 0 ==> units(bits) == (4503599627370496 + f) * pow2((e - 1) as nat)
        }),
        one() == pow2(1074),
        units(0x3ff0_0000_0000_0000) == pow2(1074),
{
    vstd::arithmetic::power2::lemma2_to64();
    vstd::arithmetic::power2::lemma2_to64_rest();
    assert(significand(0x3ff0_0000_0000_0000) == 1 * pow2(52));
    lemma_whole_number(0x3ff0_0000_0000_0000, 1, 52);
    if exponent(bits) == 0 {
        assert(units(bits) == fraction(bits)) by (nonlinear_arith)
            requires
                units(bits) == fraction(bits) * pow2(0),
                pow2(0) == 1,
        ;
    }
}

/// The number between zero and the limit, both included, and nothing else.
pub proof fn law_what_lies_between(bits: u64, limit: nat)
    ensures
        between_zero_and(bits, limit) <==> finite(bits) && (negative(bits) ==> units(bits) == 0) && units(bits)
            <= limit * pow2(1074),
{
}

/// Reads a decimal text with three digits after the point: whether it has a
/// minus sign, and its thousandths.
pub open spec fn read_thousandths(text: Seq<char>) -> Option<(bool, nat)> {
    let minus = text.len() > 0 && text[0] == '-';
    let body = if minus {
        text.skip(1)
    } else {
        text
    };
    let n = body.len() - 4;
    if n > 0 && body[n] == '.' && all_digits(body.take(n)) && all_digits(body.skip(n + 1)) {
        Some((minus, digits_value(body.take(n)) * 1000 + digits_value(body.skip(n + 1))))
    } else {
        None
    }
}

/// The text has nothing but digits.
pub open spec fn all_digits(s: Seq<char>) -> bool {
    forall|i: int| 0 <= i < s.len() ==> '0' <= #[trigger] s[i] <= '9'
}

proof fn lemma_three_digits(n: nat)
    ensures
        padded(n, 3).len() == 3,
        all_digits(padded(n, 3)),
        digits_value(padded(n, 3)) == n % 1000,
{
    reveal_with_fuel(padded, 4);
    reveal_with_fuel(digits_value, 4);
    let p = padded(n, 3);
    let a = digit((n / 10 / 10) % 10);
    let b = digit((n / 10) % 10);
    let c = digit(n % 10);
    assert(p =~= seq![a, b, c]);
    assert(p.drop_last() =~= seq![a, b]);
    assert(p.drop_last().drop_last() =~= seq![a]);
    assert(p.drop_last().drop_last().drop_last() =~= Seq::empty());
    assert(n % 1000 == (n / 10 / 10) % 10 * 100 + (n / 10) % 10 * 10 + n % 10);
}

/// The text of a number reads back as its sign and as its thousandths, to the
/// nearest: no more than half a thousandth away, and where two are as near, the
/// even one.
pub proof fn law_text_reads_back_as_the_number(bits: u64)
    ensures
        read_thousandths(fixed(bits)) matches Some((minus, t)) && {
            &&& minus == (bits >= 9223372036854775808)
            &&& 2 * (units(bits) * 1000) <= 2 * (t * pow2(1074)) + pow2(1074)
            &&& 2 * (t * pow2(1074)) <= 2 * (units(bits) * 1000) + pow2(1074)
            &&& (2 * (units(bits) * 1000) == 2 * (t * pow2(1074)) + pow2(1074) || 2 * (t * pow2(1074)) == 2 * (units(
                bits,
            ) * 1000) + pow2(1074)) ==> t % 2 == 0
        },
{
    let t = thousandths(bits);
    let x = units(bits) * 1000;
    let d = one();
    let w = decimal(t / 1000);
    let f = padded(t, 3);
    lemma_pow2_pos(1074);
    lemma_nearest_close(x, d);
    lemma_nearest_tie(x, d);
    lemma_decimal_digits(t / 1000);
    lemma_decimal_value(t / 1000);
    lemma_three_digits(t);
    let body = w + seq!['.'] + f;
    let text = fixed(bits);
    let n = body.len() - 4;
    assert(body.take(n) =~= w);
    assert(body.skip(n + 1) =~= f);
    assert forall|i: int| 0 <= i < w.len() implies '0' <= #[trigger] w[i] <= '9' by {
        assert(is_digit(w[i]));
    }
    assert(is_digit(w[0]));
    if negative(bits) {
        assert(text[0] == '-');
        assert(text.skip(1) =~= body);
    } else {
        assert(text =~= body);
        assert(text[0] == w[0]);
    }
}

/// Of two numbers that are equally near, `nearest` is the even one.
proof fn lemma_nearest_tie(x: nat, d: nat)
    requires
        d > 0,
    ensures
        2 * x == 2 * (nearest(x, d) * d) + d || 2 * (nearest(x, d) * d) == 2 * x + d ==> nearest(x, d) % 2 == 0,
{
    let q = x as int / d as int;
    let r = x as int % d as int;
    lemma_fundamental_div_mod(x as int, d as int);
    assert(x == q * d + r) by (nonlinear_arith)
        requires
            x == d * q + r,
    ;
    assert((q + 1) * d == q * d + d) by (nonlinear_arith);
}

/// Reads a decimal text with one digit after the point, in tenths.
pub open spec fn read_tenths(text: Seq<char>) -> Option<nat> {
    let n = text.len() - 2;
    if n > 0 && text[n] == '.' && all_digits(text.take(n)) && all_digits(text.skip(n + 1)) {
        Some(digits_value(text.take(n)) * 10 + digits_value(text.skip(n + 1)))
    } else {
        None
    }
}

/// The text of a number of tenths reads back as the number.
pub proof fn law_tenths_read_back(n: nat)
    ensures
        read_tenths(tenths_text(n)) == Some(n),
{
    reveal_with_fuel(padded, 2);
    reveal_with_fuel(digits_value, 2);
    let w = decimal(n / 10);
    let f = padded(n, 1);
    let text = tenths_text(n);
    lemma_decimal_digits(n / 10);
    lemma_decimal_value(n / 10);
    assert(f =~= seq![digit(n % 10)]);
    assert(f.drop_last() =~= Seq::empty());
    assert(digits_value(f) == n % 10);
    assert(text.take(text.len() - 2) =~= w);
    assert(text.skip(text.len() - 1) =~= f);
    assert forall|i: int| 0 <= i < w.len() implies '0' <= #[trigger] w[i] <= '9' by {
        assert(is_digit(w[i]));
    }
}

} // verus!
