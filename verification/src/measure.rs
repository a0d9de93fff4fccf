//! Byte counts as text: gigabytes, megabytes, unit-scaled sizes and percentages.
//!
//! The displayed digits are those of IEEE double arithmetic (divide, then print with a fixed
//! number of decimals), carried out exactly on integers. A double holds 53 significant bits;
//! a result between two doubles goes to the nearer one, and halfway to the even one.

use crate::number::{self, decimal, decimal_zero_padded};
use vstd::arithmetic::power2::*;
use vstd::prelude::*;
use vstd::string::*;

verus! {

/// The integer nearest to `n / d`; halfway, the even one.
pub open spec fn nearest(n: nat, d: nat) -> nat {
    if 2 * (n % d) < d || (2 * (n % d) == d && (n / d) % 2 == 0) {
        n / d
    } else {
        n / d + 1
    }
}

/// How many low bits of `n` lie below the 53 significant ones.
pub open spec fn excess_bits(n: nat) -> nat
    decreases n,
{
    if n < 0x20_0000_0000_0000 {
        0
    } else {
        1 + excess_bits(n / 2)
    }
}

/// The double nearest to the integer `n`.
pub open spec fn as_double(n: nat) -> nat {
    nearest(n, pow2(excess_bits(n))) * pow2(excess_bits(n))
}

/// How often `n` is doubled until `n / d` has 53 bits in front of the binary point.
pub open spec fn quotient_scale(n: nat, d: nat) -> nat
    decreases
        if n < 0x10_0000_0000_0000 * d {
            0x10_0000_0000_0000 * d - n
        } else {
            0
        },
{
    if n == 0 || n >= 0x10_0000_0000_0000 * d {
        0
    } else {
        1 + quotient_scale(2 * n, d)
    }
}

/// The 53 significant bits of the double nearest to `n / d`; its value is this number
/// divided by `2^quotient_scale(n, d)`. For quotients below `2^53`.
pub open spec fn quotient_bits(n: nat, d: nat) -> nat {
    nearest(n * pow2(quotient_scale(n, d)), d)
}

/// The double quotient of `n` and `d`, times `unit`, to the nearest integer: with a power of
/// ten for `unit`, what printing the quotient with that many decimals shows.
pub open spec fn quotient_in_units(n: nat, d: nat, unit: nat) -> nat {
    nearest(quotient_bits(n, d) * unit, pow2(quotient_scale(n, d)))
}

/// The number `v / 10^places`, written with `places` decimals.
pub open spec fn fixed_point(v: nat, unit: nat, places: nat) -> Seq<char> {
    number::dec(v / unit) + "."@ + number::dec_zero_padded(v % unit, places)
}

/// `bytes` in units of 10^9, with two decimals.
pub open spec fn gigabytes_text(bytes: nat) -> Seq<char> {
    fixed_point(quotient_in_units(as_double(bytes), 1_000_000_000, 100), 100, 2)
}

/// `bytes` in units of 10^6, with one decimal.
pub open spec fn megabytes_text(bytes: nat) -> Seq<char> {
    fixed_point(quotient_in_units(as_double(bytes), 1_000_000, 10), 10, 1)
}

/// The power of 1024 by which a size of at least 1024 is shown, and the unit's name.
pub open spec fn size_unit(n: nat) -> (nat, Seq<char>) {
    if n < 0x10_0000 {
        (0x400, "KB"@)
    } else if n < 0x4000_0000 {
        (0x10_0000, "MB"@)
    } else if n < 0x100_0000_0000 {
        (0x4000_0000, "GB"@)
    } else {
        (0x100_0000_0000, "TB"@)
    }
}

/// A byte count for people: plain below 1024, else scaled by powers of 1024 with one decimal.
pub open spec fn human_text(b: nat) -> Seq<char> {
    if b < 1024 {
        number::dec(b) + " B"@
    } else {
        let n = as_double(b);
        fixed_point(nearest(n * 10, size_unit(n).0), 10, 1) + " "@ + size_unit(n).1
    }
}

/// The share of `done` in `total` in whole percent: the double quotient times 100.0, cut off.
pub open spec fn percent_of(done: nat, total: nat) -> nat {
    let n = as_double(done);
    let d = as_double(total);
    as_double(quotient_bits(n, d) * 100) / pow2(quotient_scale(n, d))
}

/// A number below 2^53 is a double.
pub proof fn lemma_small_is_double(n: nat)
    requires
        n < 0x20_0000_0000_0000,
    ensures
        as_double(n) == n,
{
    lemma2_to64();
    assert(excess_bits(n) == 0);
    assert(n % 1 == 0 && n / 1 == n) by (nonlinear_arith);
    assert(nearest(n, 1) == n);
}

/// Rounding to 53 bits moves a number by less than itself.
proof fn lemma_as_double_bound(n: nat)
    ensures
        n <= 2 * as_double(n),
        as_double(n) <= 2 * n,
        n > 0 ==> as_double(n) > 0,
        pow2(excess_bits(n)) <= n || excess_bits(n) == 0,
    decreases n,
{
    lemma_excess_fits(n);
    let p = pow2(excess_bits(n));
    lemma_pow2_pos(excess_bits(n));
    let q = n / p;
    assert(q * p + n % p == n) by {
        vstd::arithmetic::div_mod::lemma_fundamental_div_mod(n as int, p as int);
        vstd::arithmetic::mul::lemma_mul_is_commutative(p as int, q as int);
    }
    if n > 0 {
        assert(q >= 1) by {
            vstd::arithmetic::div_mod::lemma_div_is_ordered(p as int, n as int, p as int);
            vstd::arithmetic::div_mod::lemma_div_basics(p as int);
        }
    }
    assert((q + 1) * p == q * p + p) by (nonlinear_arith);
    assert(q * p >= 0) by (nonlinear_arith)
        requires
            q >= 0,
            p >= 0,
    ;
    if q >= 1 {
        assert(q * p >= p) by (nonlinear_arith)
            requires
                q >= 1,
                p >= 0,
        ;
    }
}

proof fn lemma_excess_fits(n: nat)
    ensures
        n > 0 ==> pow2(excess_bits(n)) <= n,
    decreases n,
{
    lemma2_to64();
    if n >= 0x20_0000_0000_0000 {
        lemma_excess_fits(n / 2);
        lemma_pow2_unfold(excess_bits(n));
    }
}

/// Rounding keeps the order.
proof fn lemma_nearest_grows(a: nat, b: nat, d: nat)
    requires
        a <= b,
        d > 0,
    ensures
        nearest(a, d) <= nearest(b, d),
{
    vstd::arithmetic::div_mod::lemma_fundamental_div_mod(a as int, d as int);
    vstd::arithmetic::div_mod::lemma_fundamental_div_mod(b as int, d as int);
    vstd::arithmetic::div_mod::lemma_div_is_ordered(a as int, b as int, d as int);
    if a / d == b / d {
        assert(a % d <= b % d);
    }
}

/// A multiple of the divisor is not rounded.
proof fn lemma_nearest_exact(k: nat, d: nat)
    requires
        d > 0,
    ensures
        nearest(k * d, d) == k,
{
    vstd::arithmetic::div_mod::lemma_div_multiples_vanish(k as int, d as int);
    vstd::arithmetic::div_mod::lemma_mod_multiples_basic(k as int, d as int);
    vstd::arithmetic::mul::lemma_mul_is_commutative(k as int, d as int);
}

/// The bits of a number that count lie between 2^52 and 2^53 once any are dropped.
proof fn lemma_excess_range(n: nat)
    ensures
        n < 0x20_0000_0000_0000 * pow2(excess_bits(n)),
        excess_bits(n) > 0 ==> n >= 0x10_0000_0000_0000 * pow2(excess_bits(n)),
    decreases n,
{
    lemma2_to64();
    if n >= 0x20_0000_0000_0000 {
        lemma_excess_range(n / 2);
        lemma_pow2_unfold(excess_bits(n));
    }
}

/// The larger a number, the more of its bits do not count.
proof fn lemma_excess_grows(a: nat, b: nat)
    requires
        a <= b,
    ensures
        excess_bits(a) <= excess_bits(b),
    decreases b,
{
    if a >= 0x20_0000_0000_0000 {
        lemma_excess_grows(a / 2, b / 2);
    }
}

/// Rounding to doubles keeps the order.
proof fn lemma_as_double_grows(a: nat, b: nat)
    requires
        a <= b,
    ensures
        as_double(a) <= as_double(b),
{
    let s = excess_bits(a);
    let t = excess_bits(b);
    let p = pow2(s);
    let q = pow2(t);
    lemma_pow2_pos(s);
    lemma_pow2_pos(t);
    lemma_excess_grows(a, b);
    lemma_excess_range(a);
    lemma_excess_range(b);
    if s == t {
        lemma_nearest_grows(a, b, p);
        assert(nearest(a, p) * p <= nearest(b, p) * p) by (nonlinear_arith)
            requires
                nearest(a, p) <= nearest(b, p),
        ;
    } else {
        // Between the two lies the power of two where the spacing of the doubles changes.
        lemma_nearest_small(a, p, 0x20_0000_0000_0000);
        assert(as_double(a) <= 0x20_0000_0000_0000 * p) by (nonlinear_arith)
            requires
                as_double(a) == nearest(a, p) * p,
                nearest(a, p) <= 0x20_0000_0000_0000,
        ;
        lemma_pow2_unfold(t);
        assert(p <= pow2((t - 1) as nat)) by {
            if s < t - 1 {
                vstd::arithmetic::power2::lemma_pow2_strictly_increases(s, (t - 1) as nat);
            }
        }
        assert(2 * p <= q);
        lemma_nearest_exact(0x10_0000_0000_0000, q);
        lemma_nearest_grows(0x10_0000_0000_0000 * q, b, q);
        assert(as_double(b) >= 0x10_0000_0000_0000 * q) by (nonlinear_arith)
            requires
                as_double(b) == nearest(b, q) * q,
                nearest(b, q) >= 0x10_0000_0000_0000,
        ;
    }
}

/// A hundred times a power of two is a double.
proof fn lemma_hundredfold_is_double(s: nat)
    ensures
        excess_bits(100 * pow2(s)) <= s,
        as_double(100 * pow2(s)) == 100 * pow2(s),
    decreases s,
{
    lemma2_to64();
    let n = 100 * pow2(s);
    if s > 0 {
        lemma_pow2_unfold(s);
        lemma_hundredfold_is_double((s - 1) as nat);
        assert(n / 2 == 100 * pow2((s - 1) as nat));
    }
    let e = excess_bits(n);
    let k = pow2((s - e) as nat);
    lemma_pow2_pos(e);
    lemma_pow2_adds((s - e) as nat, e);
    assert(n == (100 * k) * pow2(e)) by (nonlinear_arith)
        requires
            n == 100 * (k * pow2(e)),
    ;
    lemma_nearest_exact(100 * k, pow2(e));
}

/// A share of a whole is at most 100 percent.
pub proof fn law_percent_is_a_percentage(done: nat, total: nat)
    requires
        done <= total,
        total > 0,
    ensures
        percent_of(done, total) <= 100,
{
    let n = as_double(done);
    let d = as_double(total);
    lemma_as_double_bound(total);
    lemma_as_double_grows(done, total);
    let s = quotient_scale(n, d);
    let p = pow2(s);
    lemma_pow2_pos(s);
    assert(n * p <= p * d) by (nonlinear_arith)
        requires
            n <= d,
    ;
    lemma_nearest_small(n * p, d, p);
    let m = quotient_bits(n, d);
    lemma_hundredfold_is_double(s);
    lemma_as_double_grows(m * 100, 100 * p);
    vstd::arithmetic::div_mod::lemma_div_is_ordered(as_double(m * 100) as int, (100 * p) as int, p as int);
    vstd::arithmetic::div_mod::lemma_div_multiples_vanish(100, p as int);
    vstd::arithmetic::mul::lemma_mul_is_commutative(100, p as int);
}

fn nearest_exec(n: u128, d: u128) -> (r: u128)
    requires
        0 < d <= u128::MAX / 2,
        n < u128::MAX,
    ensures
        r == nearest(n as nat, d as nat),
{
    let q: u128 = n / d;
    let m: u128 = n % d;
    if 2 * m < d || (2 * m == d && q % 2 == 0) {
        q
    } else {
        q + 1
    }
}

/// The double nearest to `n`.
fn as_double_exec(n: u128) -> (r: u128)
    requires
        n < 0x1_0000_0000_0000_0000_0000_0000,
    ensures
        r == as_double(n as nat),
        n <= 2 * r,
        r <= 2 * n,
        n > 0 ==> r > 0,
{
    let mut m: u128 = n;
    let mut p: u128 = 1;
    let ghost mut t: nat = 0;
    proof {
        lemma2_to64();
    }
    while m >= 0x20_0000_0000_0000
        invariant
            excess_bits(n as nat) == t + excess_bits(m as nat),
            p == pow2(t),
            m * p <= n,
            p >= 1,
            n < 0x1_0000_0000_0000_0000_0000_0000,
        decreases m,
    {
        proof {
            lemma_pow2_unfold(t + 1);
            assert((m / 2) * (2 * p) <= m * p) by (nonlinear_arith)
                requires
                    p >= 1,
                    m >= 0,
            ;
            assert(2 * p <= m * p) by (nonlinear_arith)
                requires
                    p >= 1,
                    m >= 2,
            ;
            t = t + 1;
        }
        m = m / 2;
        p = 2 * p;
    }
    proof {
        lemma_as_double_bound(n as nat);
        lemma_excess_fits(n as nat);
        if n == 0 {
            lemma2_to64();
        }
    }
    let q: u128 = nearest_exec(n, p);
    assert(q * p == as_double(n as nat));
    q * p
}

/// The 53 significant bits of `n / d`, and the power of two by which they are scaled.
fn quotient_exec(n: u128, d: u128) -> (r: (u128, u128))
    requires
        n < 0x20_0000_0000_0000 * d,
        0 < d <= 0x2_0000_0000_0000_0000,
    ensures
        r.0 == quotient_bits(n as nat, d as nat),
        r.1 == pow2(quotient_scale(n as nat, d as nat)),
        r.0 <= 0x20_0000_0000_0000,
        0 < r.1 <= 0x40_0000_0000_0000_0000_0000_0000_0000,
{
    let mut m: u128 = n;
    let mut p: u128 = 1;
    let ghost mut s: nat = 0;
    proof {
        lemma2_to64();
    }
    while m > 0 && m < 0x10_0000_0000_0000 * d
        invariant
            quotient_scale(n as nat, d as nat) == s + quotient_scale(m as nat, d as nat),
            p == pow2(s),
            m == n * p,
            p >= 1,
            m < 0x20_0000_0000_0000 * d,
            m == 0 ==> p == 1,
            m > 0 ==> p <= m,
            0 < d <= 0x2_0000_0000_0000_0000,
        decreases
            if m < 0x10_0000_0000_0000 * d {
                0x10_0000_0000_0000 * d - m
            } else {
                0
            },
    {
        proof {
            lemma_pow2_unfold(s + 1);
            assert(n * (2 * p) == 2 * (n * p)) by (nonlinear_arith);
            s = s + 1;
        }
        m = 2 * m;
        p = 2 * p;
    }
    let q: u128 = nearest_exec(m, d);
    proof {
        lemma_quotient_bound(m as nat, d as nat);
    }
    (q, p)
}

/// A quotient below `2^53` rounds to at most `2^53`.
proof fn lemma_quotient_bound(m: nat, d: nat)
    requires
        d > 0,
        m < 0x20_0000_0000_0000 * d,
    ensures
        nearest(m, d) <= 0x20_0000_0000_0000,
{
    vstd::arithmetic::div_mod::lemma_fundamental_div_mod(m as int, d as int);
    vstd::arithmetic::div_mod::lemma_mod_bound(m as int, d as int);
    let q = m / d;
    if q >= 0x20_0000_0000_0000 {
        assert(d * q >= d * 0x20_0000_0000_0000) by (nonlinear_arith)
            requires
                q >= 0x20_0000_0000_0000,
                d > 0,
        ;
    }
}

/// Rounding a quotient does not take it past a whole bound.
proof fn lemma_nearest_small(n: nat, d: nat, bound: nat)
    requires
        d > 0,
        n <= bound * d,
    ensures
        nearest(n, d) <= bound,
{
    vstd::arithmetic::div_mod::lemma_fundamental_div_mod(n as int, d as int);
    vstd::arithmetic::div_mod::lemma_mod_bound(n as int, d as int);
    let q = n / d;
    assert(d * q <= bound * d);
    assert(q <= bound) by (nonlinear_arith)
        requires
            d * q <= bound * d,
            d > 0,
    ;
    if q == bound {
        assert(d * q == bound * d) by (nonlinear_arith)
            requires
                q == bound,
        ;
        assert(n % d == 0);
    }
}

/// `v / unit` with `places` decimals, where `unit` is `10^places`.
fn fixed_point_exec(v: u64, unit: u64, places: usize) -> (r: String)
    requires
        unit > 0,
    ensures
        r@ == fixed_point(v as nat, unit as nat, places as nat),
{
    let mut r = decimal(v / unit);
    r.append(".");
    r.append(decimal_zero_padded(v % unit, places).as_str());
    r
}

/// The double quotient of a byte count and `d`, in `1 / unit`ths.
fn scaled_count(bytes: u64, d: u64, unit: u64) -> (r: u64)
    requires
        1_000_000 <= d,
        0 < unit <= 100,
    ensures
        r == quotient_in_units(as_double(bytes as nat), d as nat, unit as nat),
{
    let n: u128 = as_double_exec(bytes as u128);
    assert(n < 0x20_0000_0000_0000 * d);
    let (m, p) = quotient_exec(n, d as u128);
    proof {
        lemma_units_bound(n as nat, d as nat, unit as nat);
        assert(m * unit <= 0x20_0000_0000_0000 * 100) by (nonlinear_arith)
            requires
                m <= 0x20_0000_0000_0000,
                unit <= 100,
        ;
    }
    nearest_exec(m * unit as u128, p) as u64
}

/// A 64-bit count over a million, in hundredths, fits in 64 bits.
proof fn lemma_units_bound(n: nat, d: nat, unit: nat)
    requires
        n <= 0x2_0000_0000_0000_0000,
        1_000_000 <= d,
        0 < unit <= 100,
    ensures
        quotient_in_units(n, d, unit) <= u64::MAX,
{
    let s = quotient_scale(n, d);
    let p = pow2(s);
    lemma_pow2_pos(s);
    let b = (0x2_0000_0000_0000_0000nat / 1_000_000 + 1) * p;
    assert(n * p <= b * d) by (nonlinear_arith)
        requires
            n <= 0x2_0000_0000_0000_0000,
            d >= 1_000_000,
            b == (0x2_0000_0000_0000_0000nat / 1_000_000 + 1) * p,
            p > 0,
    ;
    lemma_nearest_small(n * p, d, b);
    let m = quotient_bits(n, d);
    assert(m * unit <= (100 * (0x2_0000_0000_0000_0000nat / 1_000_000 + 1)) * p) by (nonlinear_arith)
        requires
            m <= b,
            b == (0x2_0000_0000_0000_0000nat / 1_000_000 + 1) * p,
            unit <= 100,
            p > 0,
    ;
    lemma_nearest_small(m * unit, p, (100 * (0x2_0000_0000_0000_0000nat / 1_000_000 + 1)) as nat);
}

/// A byte count in gigabytes, with two decimals.
pub fn gigabytes(bytes: u64) -> (r: String)
    ensures
        r@ == gigabytes_text(bytes as nat),
{
    fixed_point_exec(scaled_count(bytes, 1_000_000_000, 100), 100, 2)
}

/// A byte count in megabytes, with one decimal.
pub fn megabytes(bytes: u64) -> (r: String)
    ensures
        r@ == megabytes_text(bytes as nat),
{
    fixed_point_exec(scaled_count(bytes, 1_000_000, 10), 10, 1)
}

/// A byte count for people, such as "512 B" or "18.7 MB".
pub fn human(b: u64) -> (r: String)
    ensures
        r@ == human_text(b as nat),
{
    if b < 1024 {
        return decimal(b).concat(" B");
    }
    let n: u128 = as_double_exec(b as u128);
    let (unit, name): (u128, &str) = if n < 0x10_0000 {
        (0x400, "KB")
    } else if n < 0x4000_0000 {
        (0x10_0000, "MB")
    } else if n < 0x100_0000_0000 {
        (0x4000_0000, "GB")
    } else {
        (0x100_0000_0000, "TB")
    };
    proof {
        lemma_nearest_small(n as nat * 10, unit as nat, 0x1_0000_0000_0000);
    }
    let mut r = fixed_point_exec(nearest_exec(n * 10, unit) as u64, 10, 1);
    r.append(" ");
    r.append(name);
    r
}

/// The share of `done` in `total`, in whole percent; 0 when there is nothing to do.
pub fn percent(done: u64, total: u64) -> (r: u64)
    requires
        done <= total,
    ensures
        total == 0 ==> r == 0,
        total > 0 ==> r == percent_of(done as nat, total as nat),
        r <= 100,
{
    if total == 0 {
        return 0;
    }
    let n: u128 = as_double_exec(done as u128);
    let d: u128 = as_double_exec(total as u128);
    let (m, p) = quotient_exec(n, d);
    let v: u128 = as_double_exec(m * 100);
    proof {
        law_percent_is_a_percentage(done as nat, total as nat);
    }
    (v / p) as u64
}

/// Rounding goes to the nearest whole number, and halfway to the even one.
pub proof fn law_rounding_goes_to_the_nearest(n: nat, d: nat)
    requires
        d > 0,
    ensures
        2 * (nearest(n, d) * d - n) <= d,
        2 * (n - nearest(n, d) * d) <= d,
        2 * (nearest(n, d) * d - n) == d || 2 * (n - nearest(n, d) * d) == d ==> nearest(n, d) % 2 == 0,
{
    vstd::arithmetic::div_mod::lemma_fundamental_div_mod(n as int, d as int);
    vstd::arithmetic::div_mod::lemma_mod_bound(n as int, d as int);
    let q = n / d;
    assert(q * d == d * q && (q + 1) * d == d * q + d) by (nonlinear_arith);
}

/// A quotient is scaled up until no more of its bits are lost than a double would lose.
proof fn lemma_scale_is_large(n: nat, d: nat)
    requires
        0 < n,
        d > 0,
    ensures
        n * pow2(quotient_scale(n, d)) >= 0x10_0000_0000_0000 * d,
    decreases
        if n < 0x10_0000_0000_0000 * d {
            0x10_0000_0000_0000 * d - n
        } else {
            0
        },
{
    lemma2_to64();
    if n < 0x10_0000_0000_0000 * d {
        lemma_scale_is_large(2 * n, d);
        let s = quotient_scale(2 * n, d);
        lemma_pow2_unfold(s + 1);
        assert((2 * n) * pow2(s) == n * pow2(s + 1)) by (nonlinear_arith)
            requires
                pow2(s + 1) == 2 * pow2(s),
        ;
    } else {
        assert(quotient_scale(n, d) == 0);
        assert(n * 1 == n);
    }
}

/// A whole number of units is shown as it is, as long as a double can hold it.
proof fn lemma_whole_units_are_exact(k: nat, step: nat, unit: nat)
    requires
        k * step < 0x20_0000_0000_0000,
        step >= 1_000,
        0 < unit <= 100,
        step * unit >= 1_000_000,
    ensures
        quotient_in_units(as_double(k * step), step * unit, unit) == k,
{
    let n = k * step;
    let d = step * unit;
    lemma_small_is_double(n);
    let s = quotient_scale(n, d);
    let p = pow2(s);
    lemma_pow2_pos(s);
    let bits = quotient_bits(n, d);
    if k == 0 {
        assert(n == 0) by (nonlinear_arith)
            requires
                k == 0,
                n == k * step,
        ;
        assert(0 * p == 0);
        lemma_nearest_exact(0, d);
        assert(0 * d == 0 && bits == 0);
        lemma_nearest_exact(0, p);
        assert(bits * unit == 0 * p) by (nonlinear_arith)
            requires
                bits == 0,
        ;
    } else {
        assert(n > 0) by (nonlinear_arith)
            requires
                k > 0,
                step > 0,
                n == k * step,
        ;
        lemma_scale_is_large(n, d);
        assert(2 * p >= d) by (nonlinear_arith)
            requires
                n * p >= 0x10_0000_0000_0000 * d,
                n < 0x20_0000_0000_0000,
                p >= 0,
        ;
        law_rounding_goes_to_the_nearest(n * p, d);
        // The rounding error of the quotient, in units, is less than half of one.
        let e = bits * unit - k * p;
        assert(bits * d - n * p == e * step) by (nonlinear_arith)
            requires
                e == bits * unit - k * p,
                d == step * unit,
                n == k * step,
        ;
        assert(2 * e <= unit) by (nonlinear_arith)
            requires
                2 * (e * step) <= step * unit,
                step > 0,
        ;
        assert(-2 * e <= unit) by (nonlinear_arith)
            requires
                -2 * (e * step) <= step * unit,
                step > 0,
        ;
        assert(p >= 500_000);
        lemma_nearest_around(k, p, e);
        assert(bits * unit == k * p + e);
    }
}

/// A number close to a multiple is rounded to it.
proof fn lemma_nearest_around(k: nat, p: nat, e: int)
    requires
        p > 0,
        -p < 2 * e < p,
        k * p + e >= 0,
    ensures
        nearest((k * p + e) as nat, p) == k,
{
    let n = (k * p + e) as nat;
    if e >= 0 {
        vstd::arithmetic::div_mod::lemma_fundamental_div_mod_converse(n as int, p as int, k as int, e);
    } else {
        assert(k >= 1) by (nonlinear_arith)
            requires
                k * p + e >= 0,
                e < 0,
                k >= 0,
                p > 0,
        ;
        assert((k - 1) * p + (p + e) == k * p + e) by (nonlinear_arith);
        assert(p * (k - 1) == (k - 1) * p) by (nonlinear_arith);
        vstd::arithmetic::div_mod::lemma_fundamental_div_mod_converse(n as int, p as int, k - 1, p + e);
    }
}

/// A whole number of hundredths of a gigabyte is shown as such, and a whole number of tenths of a megabyte: nothing is
/// lost on the way through a double.
pub proof fn law_whole_amounts_are_shown_exactly(k: nat)
    ensures
        k * 10_000_000 < 0x20_0000_0000_0000 ==> gigabytes_text(k * 10_000_000) == number::dec(k / 100) + "."@
            + number::dec_zero_padded(k % 100, 2),
        k * 100_000 < 0x20_0000_0000_0000 ==> megabytes_text(k * 100_000) == number::dec(k / 10) + "."@
            + number::dec_zero_padded(k % 10, 1),
{
    if k * 10_000_000 < 0x20_0000_0000_0000 {
        lemma_whole_units_are_exact(k, 10_000_000, 100);
    }
    if k * 100_000 < 0x20_0000_0000_0000 {
        lemma_whole_units_are_exact(k, 100_000, 10);
    }
}

/// A size is shown in the largest of its units that it fills: bytes below a kilobyte, then powers of 1024. A whole number
/// of a unit is shown as such.
pub proof fn law_sizes_are_shown_in_their_unit(k: nat)
    requires
        1 <= k < 1024,
    ensures
        human_text(k) == number::dec(k) + " B"@,
        human_text(k * 0x400) == number::dec(k) + "."@ + number::dec_zero_padded(0, 1) + " "@ + "KB"@,
        human_text(k * 0x10_0000) == number::dec(k) + "."@ + number::dec_zero_padded(0, 1) + " "@ + "MB"@,
        human_text(k * 0x4000_0000) == number::dec(k) + "."@ + number::dec_zero_padded(0, 1) + " "@ + "GB"@,
        human_text(k * 0x100_0000_0000) == number::dec(k) + "."@ + number::dec_zero_padded(0, 1) + " "@ + "TB"@,
{
    lemma_small_is_double(k * 0x400);
    lemma_small_is_double(k * 0x10_0000);
    lemma_small_is_double(k * 0x4000_0000);
    lemma_small_is_double(k * 0x100_0000_0000);
    lemma_nearest_exact(10 * k, 0x400);
    lemma_nearest_exact(10 * k, 0x10_0000);
    lemma_nearest_exact(10 * k, 0x4000_0000);
    lemma_nearest_exact(10 * k, 0x100_0000_0000);
    assert(k * 0x400 * 10 == (10 * k) * 0x400);
    assert(k * 0x10_0000 * 10 == (10 * k) * 0x10_0000);
    assert(k * 0x4000_0000 * 10 == (10 * k) * 0x4000_0000);
    assert(k * 0x100_0000_0000 * 10 == (10 * k) * 0x100_0000_0000);
    assert((10 * k) / 10 == k && (10 * k) % 10 == 0);
}

/// Nothing of the whole is no percent, and all of it is a hundred.
pub proof fn law_percent_starts_at_nothing_and_ends_at_all(total: nat)
    requires
        0 < total < 0x20_0000_0000_0000,
    ensures
        percent_of(0, total) == 0,
        percent_of(total, total) == 100,
{
    lemma2_to64();
    lemma_small_is_double(0);
    lemma_small_is_double(total);
    assert(quotient_scale(0, total) == 0);
    lemma_nearest_exact(0, total);
    assert(quotient_bits(0, total) == 0);
    let s = quotient_scale(total, total);
    let p = pow2(s);
    lemma_pow2_pos(s);
    assert(total * p == p * total) by (nonlinear_arith);
    lemma_nearest_exact(p, total);
    lemma_hundredfold_is_double(s);
    assert(p * 100 == 100 * p);
    vstd::arithmetic::div_mod::lemma_div_multiples_vanish(100, p as int);
    assert(p * 100 == 100 * p);
}

/// A number below 2^60 is at most 64 away from its double.
proof fn lemma_as_double_near(m: nat)
    requires
        m < 0x1000_0000_0000_0000,
    ensures
        as_double(m) <= m + 64,
        m <= as_double(m) + 64,
{
    lemma2_to64();
    let e = excess_bits(m);
    assert(e <= 7) by {
        reveal_with_fuel(excess_bits, 9);
    }
    let p = pow2(e);
    lemma_pow2_pos(e);
    assert(p <= 128) by {
        if e < 7 {
            vstd::arithmetic::power2::lemma_pow2_strictly_increases(e, 7);
        }
    }
    law_rounding_goes_to_the_nearest(m, p);
}

/// The percentage is the share in whole percent: no more than was reached, and less than it by one percent at most.
pub proof fn law_percent_follows_the_share(done: nat, total: nat)
    requires
        done <= total,
        0 < total < 0x100_0000_0000,
    ensures
        percent_of(done, total) * total <= 100 * done <= (percent_of(done, total) + 1) * total,
{
    lemma_small_is_double(done);
    lemma_small_is_double(total);
    let s = quotient_scale(done, total);
    let p = pow2(s);
    lemma_pow2_pos(s);
    let bits = quotient_bits(done, total);
    if done == 0 {
        law_percent_starts_at_nothing_and_ends_at_all(total);
    } else {
        lemma_scale_is_large(done, total);
        assert(p >= 0x10_0000_0000_0000) by (nonlinear_arith)
            requires
                done * p >= 0x10_0000_0000_0000 * total,
                done <= total,
                total > 0,
                p >= 0,
        ;
        law_rounding_goes_to_the_nearest(done * p, total);
        lemma_bits_fit(done, total);
        let m = bits * 100;
        lemma_as_double_near(m);
        let v = as_double(m);
        let q = v / p;
        vstd::arithmetic::div_mod::lemma_fundamental_div_mod(v as int, p as int);
        vstd::arithmetic::div_mod::lemma_mod_bound(v as int, p as int);
        let r = v % p;
        assert(q * total <= 100 * done) by (nonlinear_arith)
            requires
                2 * (bits * total - done * p) <= total,
                v <= bits * 100 + 64,
                v == p * q + r,
                0 <= r,
                total < 0x100_0000_0000,
                p >= 0x10_0000_0000_0000,
                total > 0,
        {
            assert(v * total <= (bits * 100 + 64) * total);
            assert(p * (q * total) <= v * total);
            assert(p * (q * total) <= 100 * (done * p) + 114 * total);
            assert(p * (q * total - 100 * done) <= 114 * total);
            if q * total - 100 * done >= 1 {
                assert(p * (q * total - 100 * done) >= p);
            }
        }
        assert(100 * done <= (q + 1) * total) by (nonlinear_arith)
            requires
                2 * (done * p - bits * total) <= total,
                bits * 100 <= v + 64,
                v == p * q + r,
                r < p,
                total < 0x100_0000_0000,
                p >= 0x10_0000_0000_0000,
                total > 0,
        {
            assert(v < p * (q + 1));
            assert((bits * 100) * total <= (v + 64) * total);
            assert((v + 64) * total <= (p * (q + 1) + 64) * total);
            assert(100 * (done * p) <= (bits * 100) * total + 50 * total);
            assert(p * (100 * done - (q + 1) * total) <= 114 * total);
            if 100 * done - (q + 1) * total >= 1 {
                assert(p * (100 * done - (q + 1) * total) >= p);
            }
        }
    }
}

/// The bits of a quotient of at most one fit in a double.
proof fn lemma_bits_fit(n: nat, d: nat)
    requires
        0 < n <= d,
    ensures
        quotient_bits(n, d) <= 0x20_0000_0000_0000,
{
    lemma_scale_is_small(n, d);
    lemma_nearest_small(n * pow2(quotient_scale(n, d)), d, 0x20_0000_0000_0000);
}

proof fn lemma_scale_is_small(n: nat, d: nat)
    requires
        n < 0x20_0000_0000_0000 * d,
        d > 0,
    ensures
        n * pow2(quotient_scale(n, d)) <= 0x20_0000_0000_0000 * d,
    decreases
        if n < 0x10_0000_0000_0000 * d {
            0x10_0000_0000_0000 * d - n
        } else {
            0
        },
{
    lemma2_to64();
    if n > 0 && n < 0x10_0000_0000_0000 * d {
        lemma_scale_is_small(2 * n, d);
        let s = quotient_scale(2 * n, d);
        lemma_pow2_unfold(s + 1);
        assert((2 * n) * pow2(s) == n * pow2(s + 1)) by (nonlinear_arith)
            requires
                pow2(s + 1) == 2 * pow2(s),
        ;
    } else {
        assert(n * 1 == n);
    }
}

/// Amounts, sizes and percentages, as they are carried out.
pub proof fn law_amounts_as_they_are_carried_out(
    bytes: u64,
    done: u64,
    total: u64,
    shown: (String, String, String),
    share: u64,
)
    requires
        call_ensures(gigabytes, (bytes,), shown.0),
        call_ensures(megabytes, (bytes,), shown.1),
        call_ensures(human, (bytes,), shown.2),
        call_ensures(percent, (done, total), share),
    ensures
        shown.0@ == gigabytes_text(bytes as nat),
        shown.1@ == megabytes_text(bytes as nat),
        shown.2@ == human_text(bytes as nat),
        bytes < 1024 ==> shown.2@ == number::dec(bytes as nat) + " B"@,
        share <= 100,
        total == 0 ==> share == 0,
        total > 0 ==> share == percent_of(done as nat, total as nat),
{
}

} // verus!
