//! Double-precision arithmetic on non-negative numbers, carried out on integers.
//!
//! Percentages and milliseconds are computed in double precision before they are
//! printed, and the rounding on the way shows in the last digit of some of them. A
//! double is an integer over a power of two here, so every step is exact. What is
//! proved is proved of these definitions; that the machine's doubles, and their
//! printed forms, agree with them is shown by tests alone.

use crate::text::{round_half_even, rounded, rounding_is_nearest};
use vstd::arithmetic::div_mod::{lemma_fundamental_div_mod, lemma_fundamental_div_mod_converse};
use vstd::arithmetic::power2::{
    lemma2_to64, lemma2_to64_rest, lemma_pow2_adds, lemma_pow2_pos, lemma_pow2_strictly_increases,
    lemma_pow2_unfold, pow2,
};
use vstd::prelude::*;

verus! {

/// The number of binary digits of `n`.
pub open spec fn bits(n: nat) -> nat
    decreases n,
{
    if n == 0 {
        0
    } else {
        1 + bits(n / 2)
    }
}

/// The double nearest to the integer `n`: the integer with at most 53 significant
/// binary digits, ties going to the even one.
pub open spec fn whole(n: nat) -> nat {
    if bits(n) <= 53 {
        n
    } else {
        let unit = pow2((bits(n) - 53) as nat);
        round_half_even(n, unit) * unit
    }
}

/// The double nearest to `num / den`, as a numerator over a power of two: the pair
/// `(n, k)` stands for `n / 2^k`.
pub open spec fn quotient(num: nat, den: nat) -> (nat, nat) {
    let shift = 52 + bits(den) - bits(num);
    if num == 0 {
        (0, 0)
    } else if shift >= 0 {
        let k = if num * pow2(shift as nat) < den * pow2(52) {
            (shift + 1) as nat
        } else {
            shift as nat
        };
        (round_half_even(num * pow2(k), den), k)
    } else {
        let j = if num < den * pow2((52 - shift) as nat) {
            (-shift - 1) as nat
        } else {
            -shift as nat
        };
        (round_half_even(num, den * pow2(j)) * pow2(j), 0)
    }
}

proof fn pow2_grows(a: nat, b: nat)
    requires
        a <= b,
    ensures
        0 < pow2(a) <= pow2(b),
{
    lemma_pow2_pos(a);
    if a < b {
        lemma_pow2_strictly_increases(a, b);
    }
}

proof fn bits_bound(n: nat)
    requires
        n > 0,
    ensures
        bits(n) > 0,
        pow2((bits(n) - 1) as nat) <= n < pow2(bits(n)),
    decreases n,
{
    lemma2_to64();
    if n > 1 {
        bits_bound(n / 2);
        lemma_pow2_unfold(bits(n));
        lemma_pow2_unfold((bits(n) - 1) as nat);
    } else {
        assert(bits(0) == 0);
        assert(bits(1) == 1);
    }
}

proof fn bits_are(n: nat, b: nat)
    requires
        pow2(b) <= n < pow2(b + 1),
    ensures
        bits(n) == b + 1,
{
    lemma_pow2_pos(b);
    bits_bound(n);
    if bits(n) <= b {
        pow2_grows(bits(n), b);
    }
    if bits(n) > b + 1 {
        pow2_grows(b + 1, (bits(n) - 1) as nat);
    }
}

proof fn bits_below(n: nat, b: nat)
    requires
        n < pow2(b),
    ensures
        bits(n) <= b,
{
    if n > 0 && bits(n) > b {
        bits_bound(n);
        pow2_grows(b, (bits(n) - 1) as nat);
    }
}

proof fn bits_scaled(n: nat, z: nat)
    requires
        n > 0,
    ensures
        bits(n * pow2(z)) == bits(n) + z,
{
    bits_bound(n);
    lemma_pow2_pos(z);
    let b = (bits(n) - 1) as nat;
    lemma_pow2_adds(b, z);
    lemma_pow2_adds(b + 1, z);
    assert(b + 1 + z == b + z + 1);
    let p = pow2(z);
    assert(pow2(b) * p <= n * p && n * p < pow2(b + 1) * p) by (nonlinear_arith)
        requires
            pow2(b) <= n < pow2(b + 1),
            p > 0,
    ;
    bits_are(n * p, b + z);
}

/// Division with remainder of a scaled pair.
proof fn rounding_scaled(x: nat, y: nat, c: nat)
    requires
        y > 0,
        c > 0,
    ensures
        y * c > 0,
        round_half_even(x * c, y * c) == round_half_even(x, y),
{
    let (q, r) = (x as int / y as int, x as int % y as int);
    lemma_fundamental_div_mod(x as int, y as int);
    assert(0 <= r < y) by (nonlinear_arith)
        requires
            r == x as int % y as int,
            y > 0,
    ;
    assert(x * c == q * (y * c) + r * c && 0 <= r * c < y * c && y * c > 0) by (nonlinear_arith)
        requires
            x == y * q + r,
            0 <= r < y,
            c > 0,
    ;
    lemma_fundamental_div_mod_converse((x * c) as int, (y * c) as int, q, r * c);
    assert((2 * (r * c) > y * c <==> 2 * r > y) && (2 * (r * c) == y * c <==> 2 * r == y))
        by (nonlinear_arith)
        requires
            c > 0,
    ;
}

/// A whole number of units in front of a remainder.
proof fn rounding_shifted(x: nat, y: nat, d: nat)
    requires
        d > 0,
    ensures
        (x * d + y) / d == x + y / d,
        (x * d + y) % d == y % d,
{
    let (q, r) = (y as int / d as int, y as int % d as int);
    lemma_fundamental_div_mod(y as int, d as int);
    assert(0 <= r < d) by (nonlinear_arith)
        requires
            r == y as int % d as int,
            d > 0,
    ;
    assert(x * d + y == (x + q) * d + r) by (nonlinear_arith)
        requires
            y == d * q + r,
    ;
    lemma_fundamental_div_mod_converse((x * d + y) as int, d as int, x + q, r);
}

/// Multiplying by a power of two changes no digit: it is exact.
pub proof fn scaling_is_exact(n: nat, z: nat)
    ensures
        whole(n * pow2(z)) == whole(n) * pow2(z),
{
    let p = pow2(z);
    lemma_pow2_pos(z);
    if n == 0 {
        assert(n * p == 0) by (nonlinear_arith)
            requires
                n == 0,
        ;
    } else {
        bits_scaled(n, z);
        let b = bits(n);
        if b + z > 53 {
            let u = (b + z - 53) as nat;
            lemma_pow2_pos(u);
            if b <= 53 {
                let w = (53 - b) as nat;
                assert(w + u == z);
                lemma_pow2_adds(w, u);
                let q = n * pow2(w);
                assert(n * p == q * pow2(u)) by (nonlinear_arith)
                    requires
                        p == pow2(w) * pow2(u),
                        q == n * pow2(w),
                ;
                rounding_shifted(q, 0, pow2(u));
                assert(0nat / pow2(u) == 0 && 0nat % pow2(u) == 0) by (nonlinear_arith)
                    requires
                        pow2(u) > 0,
                ;
                assert(round_half_even(n * p, pow2(u)) == q);
            } else {
                let unit = pow2((b - 53) as nat);
                lemma_pow2_pos((b - 53) as nat);
                lemma_pow2_adds((b - 53) as nat, z);
                assert((b - 53) as nat + z == u);
                rounding_scaled(n, unit, p);
                let m = round_half_even(n, unit);
                assert(m * (unit * p) == (m * unit) * p) by (nonlinear_arith);
            }
        }
    }
}

proof fn big_powers()
    ensures
        pow2(52) == 0x10_0000_0000_0000,
        pow2(53) == 0x20_0000_0000_0000,
        pow2(64) == 0x1_0000_0000_0000_0000,
        pow2(126) == 0x4000_0000_0000_0000_0000_0000_0000_0000,
        pow2(127) == 0x8000_0000_0000_0000_0000_0000_0000_0000,
        pow2(128) == u128::MAX + 1,
{
    lemma2_to64();
    lemma2_to64_rest();
    lemma_pow2_adds(64, 62);
    lemma_pow2_adds(64, 63);
    lemma_pow2_adds(64, 64);
}

/// The number of binary digits of `n`.
fn bit_count(n: u128) -> (count: u32)
    ensures
        count == bits(n as nat),
        count <= 128,
{
    let mut rest: u128 = n;
    let mut count: u32 = 0;
    proof {
        big_powers();
        bits_below(n as nat, 128);
    }
    while rest > 0
        invariant
            count + bits(rest as nat) == bits(n as nat) <= 128,
        decreases rest,
    {
        rest = rest / 2;
        count = count + 1;
    }
    count
}

/// Two to the power of `k`.
fn power(k: u32) -> (p: u128)
    requires
        k <= 127,
    ensures
        p == pow2(k as nat),
{
    let mut p: u128 = 1;
    let mut i: u32 = 0;
    proof {
        lemma2_to64();
        big_powers();
    }
    while i < k
        invariant
            i <= k <= 127,
            p == pow2(i as nat),
            pow2(127) == 0x8000_0000_0000_0000_0000_0000_0000_0000,
        decreases k - i,
    {
        proof {
            lemma_pow2_unfold((i + 1) as nat);
            pow2_grows((i + 1) as nat, 127);
        }
        p = p * 2;
        i = i + 1;
    }
    p
}

/// The double nearest to the integer `n`.
pub(crate) fn to_whole(n: u128) -> (d: u128)
    requires
        n <= u128::MAX / 4,
    ensures
        d == whole(n as nat),
        d <= 2 * n,
{
    proof {
        doubles_are_close(n as nat);
        lemma_pow2_pos(53);
        let (x, y, p) = (n as int, whole(n as nat) as int, pow2(53) as int);
        assert(y <= 2 * x) by (nonlinear_arith)
            requires
                (y - x) * p <= x,
                p >= 1,
                x >= 0,
        ;
    }
    let count: u32 = bit_count(n);
    if count <= 53 {
        return n;
    }
    proof {
        big_powers();
        bits_below(n as nat, 126);
    }
    let unit: u128 = power(count - 53);
    proof {
        lemma_pow2_pos((count - 53) as nat);
        pow2_grows((count - 53) as nat, 126);
        whole_bound(n as nat, 126);
    }
    rounded(n, unit) * unit
}

/// A double that is nearest to a number below a power of two does not exceed it.
proof fn whole_bound(n: nat, b: nat)
    requires
        n <= pow2(b),
    ensures
        whole(n) <= pow2(b),
{
    if bits(n) > 53 {
        let e = bits(n);
        bits_bound(n);
        if e - 1 > b {
            lemma_pow2_strictly_increases(b, (e - 1) as nat);
        }
        let u = (e - 53) as nat;
        let unit = pow2(u);
        lemma_pow2_pos(u);
        // Both bounds are whole numbers of units.
        let top = if n == pow2(b) {
            b
        } else {
            if e > b {
                lemma_pow2_pos(b);
                pow2_grows(b, (e - 1) as nat);
            }
            e
        };
        assert(top <= b);
        pow2_grows(top, b);
        lemma_pow2_adds((top - u) as nat, u);
        assert((top - u) as nat + u == top);
        rounding_stays_below(n, pow2((top - u) as nat), unit);
        let m = round_half_even(n, unit);
        assert(m * unit <= pow2((top - u) as nat) * unit) by (nonlinear_arith)
            requires
                m <= pow2((top - u) as nat),
                unit > 0,
        ;
    }
}

/// What is at most a whole number of units is so after rounding.
proof fn rounding_stays_below(n: nat, q: nat, unit: nat)
    requires
        unit > 0,
        n <= q * unit,
    ensures
        round_half_even(n, unit) <= q,
{
    rounding_is_nearest(n, unit);
    let m = round_half_even(n, unit);
    if m > q {
        assert((m - q) * unit >= unit) by (nonlinear_arith)
            requires
                m - q >= 1,
                unit > 0,
        ;
        assert((m - q) * unit == m * unit - q * unit) by (nonlinear_arith);
        // Then the rounding would be off by more than half a unit, unless by nothing.
        assert(2 * (m * unit - n) >= 2 * unit);
    }
}

/// What is at least a whole number of units is so after rounding.
proof fn rounding_stays_above(n: nat, q: nat, unit: nat)
    requires
        unit > 0,
        n >= q * unit,
    ensures
        round_half_even(n, unit) >= q,
{
    lemma_fundamental_div_mod(n as int, unit as int);
    assert(n / unit >= q) by (nonlinear_arith)
        requires
            n == unit * (n / unit) + n as int % unit as int,
            (n as int % unit as int) < unit,
            n >= q * unit,
            unit > 0,
    ;
}

/// The digits of a quotient leave room: with operands of at most 64 bits and one
/// more, its numerator has at most 66.
proof fn quotient_room(num: nat, den: nat)
    requires
        0 < num <= pow2(64),
        0 < den <= pow2(64),
    ensures
        ({
            let shift = 52 + bits(den) - bits(num);
            let (n, k) = quotient(num, den);
            &&& shift <= 116
            &&& -shift <= 12
            &&& k <= 117
            &&& n <= pow2(66)
            &&& den * pow2(52) <= pow2(116)
            &&& (shift >= 0 ==> num * pow2(shift as nat) < pow2(117) && num * pow2(
                (shift + 1) as nat,
            ) < pow2(118))
            &&& (shift < 0 ==> den * pow2((52 - shift) as nat) <= pow2(117))
        }),
{
    let (x, y) = (bits(num), bits(den));
    let shift = 52 + y - x;
    bits_bound(num);
    bits_bound(den);
    if x > 65 {
        lemma_pow2_strictly_increases(64, (x - 1) as nat);
    }
    if y > 65 {
        lemma_pow2_strictly_increases(64, (y - 1) as nat);
    }
    lemma_pow2_pos(52);
    lemma_pow2_adds(64, 52);
    assert(den * pow2(52) <= pow2(64) * pow2(52)) by (nonlinear_arith)
        requires
            den <= pow2(64),
            pow2(52) > 0,
    ;
    let (n, k) = quotient(num, den);
    if shift >= 0 {
        let s = shift as nat;
        lemma_pow2_pos(s);
        lemma_pow2_adds(x, s);
        assert(num * pow2(s) < pow2(x) * pow2(s)) by (nonlinear_arith)
            requires
                num < pow2(x),
                pow2(s) > 0,
        ;
        assert(x + s == 52 + y);
        pow2_grows(52 + y, 117);
        lemma_pow2_unfold(s + 1);
        lemma_pow2_unfold(118);
        assert(num * (2 * pow2(s)) == 2 * (num * pow2(s))) by (nonlinear_arith);
        // The numerator is at most four times 2^53.
        lemma_pow2_adds(55, (y - 1) as nat);
        lemma_pow2_unfold(54 + y);
        lemma_pow2_unfold(53 + y);
        assert(num * pow2(k) <= pow2(54 + y));
        lemma_pow2_pos(55);
        assert(pow2(55) * pow2((y - 1) as nat) <= pow2(55) * den) by (nonlinear_arith)
            requires
                pow2((y - 1) as nat) <= den,
        ;
        rounding_stays_below(num * pow2(k), pow2(55), den);
        pow2_grows(55, 66);
    } else {
        lemma_pow2_adds(y, (52 - shift) as nat);
        lemma_pow2_pos((52 - shift) as nat);
        assert(den * pow2((52 - shift) as nat) <= pow2(y) * pow2((52 - shift) as nat))
            by (nonlinear_arith)
            requires
                den < pow2(y),
                pow2((52 - shift) as nat) > 0,
        ;
        assert(y + (52 - shift) as nat == x);
        pow2_grows(y + (52 - shift) as nat, 117);
        let j = if num < den * pow2((52 - shift) as nat) {
            (-shift - 1) as nat
        } else {
            -shift as nat
        };
        let unit = den * pow2(j);
        lemma_pow2_pos(j);
        assert(unit >= pow2(j) && unit > 0) by (nonlinear_arith)
            requires
                unit == den * pow2(j),
                den > 0,
                pow2(j) > 0,
        ;
        let m = round_half_even(num, unit);
        rounding_is_nearest(num, unit);
        assert(m * pow2(j) <= m * unit) by (nonlinear_arith)
            requires
                unit >= pow2(j),
        ;
        // Half a unit is no more than half the number itself here.
        assert(unit <= 2 * pow2(64)) by {
            lemma_pow2_adds(y, j);
            assert(den * pow2(j) <= pow2(y) * pow2(j)) by (nonlinear_arith)
                requires
                    den < pow2(y),
                    pow2(j) > 0,
            ;
            pow2_grows(y + j, 65);
            lemma_pow2_unfold(65);
        }
        lemma_pow2_unfold(66);
        lemma_pow2_unfold(65);
    }
}

/// The double nearest to `num / den`, as a numerator and the exponent of the power
/// of two below it.
pub(crate) fn to_quotient(num: u128, den: u128) -> (q: (u128, u32))
    requires
        num <= 0x1_0000_0000_0000_0000,
        0 < den <= 0x1_0000_0000_0000_0000,
    ensures
        q.0 == quotient(num as nat, den as nat).0,
        q.1 == quotient(num as nat, den as nat).1,
        q.0 <= 0x4_0000_0000_0000_0000,
        q.1 <= 117,
{
    if num == 0 {
        return (0, 0);
    }
    let num_bits: u32 = bit_count(num);
    let den_bits: u32 = bit_count(den);
    proof {
        big_powers();
        lemma_pow2_adds(64, 2);
        lemma2_to64();
        quotient_room(num as nat, den as nat);
        pow2_grows(116, 126);
        pow2_grows(117, 126);
        pow2_grows(118, 126);
    }
    if 52 + den_bits >= num_bits {
        let shift: u32 = 52 + den_bits - num_bits;
        let k: u32 = if num * power(shift) < den * power(52) {
            shift + 1
        } else {
            shift
        };
        (rounded(num * power(k), den), k)
    } else {
        let over: u32 = num_bits - den_bits - 52;
        let j: u32 = if num < den * power(52 + over) {
            over - 1
        } else {
            over
        };
        proof {
            lemma_pow2_pos(j as nat);
            pow2_grows(j as nat, (52 + over) as nat);
            assert(den * pow2(j as nat) <= den * pow2((52 + over) as nat)) by (nonlinear_arith)
                requires
                    pow2(j as nat) <= pow2((52 + over) as nat),
            ;
            assert(den * pow2(j as nat) > 0) by (nonlinear_arith)
                requires
                    den > 0,
                    pow2(j as nat) > 0,
            ;
        }
        (rounded(num, den * power(j)) * power(j), 0)
    }
}

/// A time of `nanos` nanoseconds in seconds: whole seconds and their fraction, each
/// as a double, added up. The pair `(n, k)` stands for `n / 2^k`.
pub open spec fn seconds(nanos: nat) -> (nat, nat) {
    let (part, k) = quotient(nanos % 1_000_000_000, 1_000_000_000);
    (whole(whole(nanos / 1_000_000_000) * pow2(k) + part), k)
}

/// A time of `nanos` nanoseconds in milliseconds, as a double, to the nearest
/// thousandth.
pub open spec fn millis_thousandths(nanos: nat) -> nat {
    let (n, k) = seconds(nanos);
    round_half_even(whole(1000 * n) * 1000, pow2(k))
}

/// The double nearest to `n`, as its significant digits and the power of two behind
/// them.
fn split_whole(n: u128) -> (r: (u128, u32))
    requires
        n <= u128::MAX / 4,
    ensures
        whole(n as nat) == r.0 * pow2(r.1 as nat),
        r.0 <= 0x20_0000_0000_0000,
        r.1 == 0 || r.1 + 53 == bits(n as nat),
        r.1 > 0 ==> r.0 >= 0x10_0000_0000_0000,
        r.1 == 0 ==> r.0 == n < 0x20_0000_0000_0000,
{
    let count: u32 = bit_count(n);
    proof {
        big_powers();
        bits_below(n as nat, 126);
        lemma2_to64();
    }
    if count <= 53 {
        proof {
            if n > 0 {
                bits_bound(n as nat);
                pow2_grows(count as nat, 53);
            }
            assert(n * pow2(0) == n);
        }
        return (n, 0);
    }
    let z: u32 = count - 53;
    let unit: u128 = power(z);
    proof {
        lemma_pow2_pos(z as nat);
        pow2_grows(z as nat, 126);
        bits_bound(n as nat);
        lemma_pow2_adds(53, z as nat);
        lemma_pow2_adds(52, z as nat);
        rounding_stays_below(n as nat, pow2(53), unit as nat);
        rounding_stays_above(n as nat, pow2(52), unit as nat);
    }
    (rounded(n, unit), z)
}

/// The fraction of a second is less than a second, also as a double.
proof fn part_is_small(rest: nat)
    requires
        0 < rest < 1_000_000_000,
    ensures
        ({
            let (part, k) = quotient(rest, 1_000_000_000);
            52 <= k <= 83 && part < pow2(k)
        }),
{
    let den: nat = 1_000_000_000;
    lemma2_to64();
    bits_are(den, 29);
    bits_below(rest, 30);
    bits_bound(rest);
    let (part, k) = quotient(rest, den);
    big_powers();
    pow2_grows(52, k);
    assert(rest * pow2(k) <= (pow2(k) - 1) * den) by (nonlinear_arith)
        requires
            rest + 1 <= den,
            pow2(k) >= den,
            den > 0,
    ;
    rounding_stays_below(rest * pow2(k), (pow2(k) - 1) as nat, den);
}

/// A sum whose fraction ends below the last place of the whole part.
proof fn sum_with_part(a: nat, part: nat, k: nat)
    requires
        0 < a < pow2(53),
        52 <= k,
        part < pow2(k),
    ensures
        ({
            let z = (bits(a) + k - 53) as nat;
            let front = a * pow2((53 - bits(a)) as nat);
            let q = part / pow2(z);
            let r = part % pow2(z);
            &&& bits(a) <= 53
            &&& front < pow2(53)
            &&& q <= pow2(53)
            &&& whole(a * pow2(k) + part) == (front + q + (if 2 * r > pow2(z) || (2 * r == pow2(z)
                && (front + q) % 2 == 1) {
                1nat
            } else {
                0nat
            })) * pow2(z)
        }),
{
    let b = bits(a);
    bits_bound(a);
    bits_below(a, 53);
    let n = a * pow2(k) + part;
    bits_of_sum(a, part, k);
    let z = (b + k - 53) as nat;
    let w = (53 - b) as nat;
    assert(w + z == k);
    lemma_pow2_adds(w, z);
    lemma_pow2_pos(z);
    lemma_pow2_pos(w);
    let front = a * pow2(w);
    assert(n == front * pow2(z) + part) by (nonlinear_arith)
        requires
            n == a * pow2(k) + part,
            pow2(k) == pow2(w) * pow2(z),
            front == a * pow2(w),
    ;
    lemma_pow2_adds(b, w);
    assert(front < pow2(b) * pow2(w)) by (nonlinear_arith)
        requires
            a < pow2(b),
            front == a * pow2(w),
            pow2(w) > 0,
    ;
    rounding_shifted(front, part, pow2(z));
    let q = part / pow2(z);
    assert(q < pow2(w)) by {
        lemma_fundamental_div_mod(part as int, pow2(z) as int);
        assert(q < pow2(w)) by (nonlinear_arith)
            requires
                part == pow2(z) * q + part as int % pow2(z) as int,
                part as int % pow2(z) as int >= 0,
                part < pow2(w) * pow2(z),
                pow2(z) > 0,
        ;
    }
    pow2_grows(w, 53);
    assert(bits(n) == b + k);
    if b + k <= 53 {
        // Only when the sum is short enough to be exact.
        assert(z == 0);
        lemma2_to64();
        assert(part / 1 == part && part % 1 == 0);
        assert(front * 1 + part == n);
    } else {
        assert((bits(n) - 53) as nat == z);
    }
}

/// A number and a fraction behind it.
proof fn bits_of_sum(a: nat, part: nat, k: nat)
    requires
        a > 0,
        part < pow2(k),
    ensures
        bits(a * pow2(k) + part) == bits(a) + k,
{
    bits_bound(a);
    lemma_pow2_pos(k);
    let b = (bits(a) - 1) as nat;
    lemma_pow2_adds(b, k);
    lemma_pow2_adds(b + 1, k);
    assert(b + 1 + k == b + k + 1);
    let p = pow2(k);
    assert(pow2(b) * p <= a * p + part && a * p + part < pow2(b + 1) * p) by (nonlinear_arith)
        requires
            pow2(b) <= a < pow2(b + 1),
            p > 0,
            0 <= part < p,
    ;
    bits_are(a * p + part, b + k);
}

/// Behind a whole part of more than 53 binary digits the fraction is lost.
proof fn sum_without_part(m: nat, u: nat, part: nat, k: nat)
    requires
        pow2(52) <= m <= pow2(53),
        u >= 1,
        part < pow2(k),
    ensures
        whole((m * pow2(u)) * pow2(k) + part) == m * pow2(u + k),
{
    let n = (m * pow2(u)) * pow2(k) + part;
    lemma_pow2_adds(u, k);
    lemma_pow2_pos(u + k);
    lemma_pow2_pos(u);
    assert(n == m * pow2(u + k) + part) by (nonlinear_arith)
        requires
            n == (m * pow2(u)) * pow2(k) + part,
            pow2(u + k) == pow2(u) * pow2(k),
    ;
    pow2_grows(k + 1, u + k);
    lemma_pow2_unfold(k + 1);
    lemma_pow2_unfold(53);
    let z = if m == pow2(53) {
        u + k + 1
    } else {
        u + k
    };
    let top = if m == pow2(53) {
        pow2(52)
    } else {
        m
    };
    lemma_pow2_unfold(u + k + 1);
    assert(m * pow2(u + k) == top * pow2(z)) by (nonlinear_arith)
        requires
            m == pow2(53) ==> top == pow2(52) && pow2(z) == 2 * pow2(u + k),
            m != pow2(53) ==> top == m && pow2(z) == pow2(u + k),
            pow2(53) == 2 * pow2(52),
    ;
    assert(2 * part < pow2(z));
    lemma_pow2_pos(52);
    bits_are(top, 52);
    bits_of_sum(top, part, z);
    rounding_shifted(top, part, pow2(z));
    assert(part / pow2(z) == 0 && part % pow2(z) == part) by {
        lemma_fundamental_div_mod_converse(part as int, pow2(z) as int, 0, part as int);
    }
    assert((bits(n) - 53) as nat == z);
}

/// The sum of `secs` and `part / 2^k`, both as doubles: its significant digits and
/// the power of two behind them, over `2^k`.
fn sum_parts(secs: u128, part: u128, k: u32) -> (r: (u128, u32))
    requires
        secs <= u64::MAX,
        (k == 0 && part == 0) || (52 <= k <= 83 && part < pow2(k as nat)),
    ensures
        whole(whole(secs as nat) * pow2(k as nat) + part as nat) == r.0 * pow2(r.1 as nat),
        r.0 <= 0x40_0000_0000_0000,
        r.1 <= k + 12,
{
    proof {
        big_powers();
        lemma2_to64();
        bits_below(secs as nat, 64);
        pow2_grows(k as nat, 83);
        pow2_grows(83, 126);
    }
    let (a, u): (u128, u32) = split_whole(secs);
    if u > 0 {
        proof {
            lemma_pow2_pos(k as nat);
            sum_without_part(a as nat, u as nat, part as nat, k as nat);
        }
        return (a, u + k);
    }
    if a == 0 || k == 0 {
        proof {
            assert(a * pow2(k as nat) + part == a + part) by (nonlinear_arith)
                requires
                    a == 0 || (k == 0 && pow2(k as nat) == 1),
            ;
            if a == 0 {
                bits_below(part as nat, k as nat);
            } else {
                bits_below(a as nat, 53);
            }
        }
        return split_whole(a + part);
    }
    proof {
        sum_with_part(a as nat, part as nat, k as nat);
    }
    let b: u32 = bit_count(a);
    let z: u32 = b + k - 53;
    proof {
        pow2_grows(z as nat, 83);
        pow2_grows((53 - b) as nat, 53);
    }
    let unit: u128 = power(z);
    let q: u128 = part / unit;
    let r: u128 = part % unit;
    let m: u128 = a * power(53 - b) + q;
    if 2 * r > unit || (2 * r == unit && m % 2 == 1) {
        (m + 1, z)
    } else {
        (m, z)
    }
}

/// A time of `nanos` nanoseconds in milliseconds, to the nearest thousandth.
pub(crate) fn to_millis_thousandths(nanos: u128) -> (n: u128)
    requires
        nanos / 1_000_000_000 <= u64::MAX,
    ensures
        n == millis_thousandths(nanos as nat),
        n < u128::MAX,
{
    let secs: u128 = nanos / 1_000_000_000;
    let rest: u128 = nanos % 1_000_000_000;
    let (part, k): (u128, u32) = to_quotient(rest, 1_000_000_000);
    proof {
        big_powers();
        lemma2_to64();
        if rest > 0 {
            part_is_small(rest as nat);
        }
        bits_below(secs as nat, 64);
    }
    let (m, z): (u128, u32) = sum_parts(secs, part, k);
    let product: u128 = to_whole(1000 * m);
    proof {
        scaling_is_exact((1000 * m) as nat, z as nat);
        let s = seconds(nanos as nat).0;
        assert(1000 * s == (1000 * m) * pow2(z as nat)) by (nonlinear_arith)
            requires
                s == m * pow2(z as nat),
        ;
        assert(whole(1000 * s) == product * pow2(z as nat));
        lemma_pow2_adds(10, 54);
        lemma_pow2_adds(53, 1);
        whole_bound((1000 * m) as nat, 64);
    }
    if z >= k {
        proof {
            let up = (z - k) as nat;
            lemma_pow2_adds(up, k as nat);
            assert(up + k as nat == z as nat);
            lemma_pow2_pos(k as nat);
            pow2_grows(up, 16);
            let t = product * 1000 * pow2(up);
            assert((product * pow2(z as nat)) * 1000 == t * pow2(k as nat)) by (nonlinear_arith)
                requires
                    pow2(z as nat) == pow2(up) * pow2(k as nat),
                    t == product * 1000 * pow2(up),
            ;
            rounding_shifted(t as nat, 0, pow2(k as nat));
            assert(0nat / pow2(k as nat) == 0 && 0nat % pow2(k as nat) == 0) by (nonlinear_arith)
                requires
                    pow2(k as nat) > 0,
            ;
            assert(product * 1000 * pow2(up) <= product * 1000 * 0x1_0000) by (nonlinear_arith)
                requires
                    pow2(up) <= 0x1_0000,
                    product >= 0,
            ;
        }
        product * 1000 * power(z - k)
    } else {
        proof {
            let down = (k - z) as nat;
            lemma_pow2_adds(down, z as nat);
            assert(down + z as nat == k as nat);
            lemma_pow2_pos(down);
            lemma_pow2_pos(z as nat);
            assert((product * pow2(z as nat)) * 1000 == (product * 1000) * pow2(z as nat))
                by (nonlinear_arith);
            rounding_scaled((product * 1000) as nat, pow2(down), pow2(z as nat));
            pow2_grows(down, 126);
        }
        let unit: u128 = power(k - z);
        let n: u128 = rounded(product * 1000, unit);
        proof {
            assert(product * 1000 <= (product * 1000) * unit) by (nonlinear_arith)
                requires
                    unit >= 1,
                    product >= 0,
            ;
            rounding_stays_below((product * 1000) as nat, (product * 1000) as nat, unit as nat);
        }
        n
    }
}

/// A double is off by at most one part in 2^53.
pub proof fn doubles_are_close(n: nat)
    ensures
        (whole(n) - n) * pow2(53) <= n,
        (n - whole(n)) * pow2(53) <= n,
{
    if bits(n) > 53 {
        bits_bound(n);
        let u = (bits(n) - 53) as nat;
        let unit = pow2(u) as int;
        lemma_pow2_pos(u);
        rounding_is_nearest(n, pow2(u));
        lemma_pow2_adds(u, 52);
        assert((bits(n) - 1) as nat == u + 52);
        lemma_pow2_unfold(53);
        let (x, d, h) = (n as int, whole(n) as int, pow2(52) as int);
        assert((d - x) * (2 * h) <= x && (x - d) * (2 * h) <= x) by (nonlinear_arith)
            requires
                2 * (d - x) <= unit,
                2 * (x - d) <= unit,
                unit * h <= x,
                h >= 0,
        ;
    } else {
        assert(0 * pow2(53) == 0) by (nonlinear_arith);
    }
}

/// Rounding to doubles never turns the order of two numbers around.
pub proof fn doubles_keep_the_order(a: nat, b: nat)
    requires
        a <= b,
    ensures
        whole(a) <= whole(b),
{
    if a > 0 {
        let (x, y) = (bits(a), bits(b));
        bits_bound(a);
        bits_bound(b);
        if x > y {
            pow2_grows(y, (x - 1) as nat);
        }
        if x < y {
            whole_bound(a, x);
            pow2_grows(x, (y - 1) as nat);
            if y > 53 {
                let u = (y - 53) as nat;
                lemma_pow2_pos(u);
                lemma_pow2_adds(52, u);
                assert(52 + u == (y - 1) as nat);
                rounding_stays_above(b, pow2(52), pow2(u));
                let m = round_half_even(b, pow2(u));
                assert(m * pow2(u) >= pow2(52) * pow2(u)) by (nonlinear_arith)
                    requires
                        m >= pow2(52),
                ;
            }
        } else if x > 53 {
            let unit = pow2((x - 53) as nat);
            lemma_pow2_pos((x - 53) as nat);
            rounding_keeps_the_order(a, b, unit);
            let (m, n) = (round_half_even(a, unit), round_half_even(b, unit));
            assert(m * unit <= n * unit) by (nonlinear_arith)
                requires
                    m <= n,
            ;
        }
    } else {
        assert(whole(0) == 0);
    }
}

proof fn rounding_keeps_the_order(a: nat, b: nat, unit: nat)
    requires
        a <= b,
        unit > 0,
    ensures
        round_half_even(a, unit) <= round_half_even(b, unit),
{
    let (q, r) = (b as int / unit as int, b as int % unit as int);
    lemma_fundamental_div_mod(b as int, unit as int);
    lemma_fundamental_div_mod(a as int, unit as int);
    let (p, s) = (a as int / unit as int, a as int % unit as int);
    assert(0 <= r < unit && 0 <= s < unit && p <= q && (p == q ==> s <= r)) by (nonlinear_arith)
        requires
            b == unit * q + r,
            a == unit * p + s,
            r == b as int % unit as int,
            s == a as int % unit as int,
            a <= b,
            unit > 0,
    ;
}

/// A share of a whole is at most one, and the share of everything is one.
pub proof fn shares_are_at_most_one(num: nat, den: nat)
    requires
        num <= den,
        den > 0,
    ensures
        quotient(num, den).0 <= pow2(quotient(num, den).1),
        num == den ==> quotient(num, den) == (pow2(52), 52nat),
{
    let (n, k) = quotient(num, den);
    lemma_pow2_pos(k);
    if num > 0 {
        bits_bound(num);
        bits_bound(den);
        if bits(num) > bits(den) {
            pow2_grows(bits(den), (bits(num) - 1) as nat);
        }
        assert(num * pow2(k) <= pow2(k) * den) by (nonlinear_arith)
            requires
                num <= den,
        ;
        rounding_stays_below(num * pow2(k), pow2(k), den);
        if num == den {
            let one = pow2(52);
            assert(num * one == one * den) by (nonlinear_arith)
                requires
                    num == den,
            ;
            rounding_shifted(one, 0, den);
            assert(0nat / den == 0 && 0nat % den == 0) by (nonlinear_arith)
                requires
                    den > 0,
            ;
        }
    }
}

/// A percentage as a double, to the nearest tenth.
pub open spec fn percent_tenths(num: nat, den: nat) -> nat {
    let (n, k) = quotient(whole(num), whole(den));
    round_half_even(whole(100 * n) * 10, pow2(k))
}

/// A percentage as a double, to the nearest tenth.
pub(crate) fn to_percent_tenths(num: u64, den: u64) -> (tenths: u128)
    requires
        den > 0,
    ensures
        tenths == percent_tenths(num as nat, den as nat),
{
    proof {
        big_powers();
        whole_bound(num as nat, 64);
        whole_bound(den as nat, 64);
        doubles_keep_the_order(1, den as nat);
        lemma2_to64();
        assert(bits(0) == 0);
        assert(bits(1) == 1);
    }
    let (n, k): (u128, u32) = to_quotient(to_whole(num as u128), to_whole(den as u128));
    let product: u128 = to_whole(100 * n);
    proof {
        pow2_grows(k as nat, 126);
        pow2_grows(80, 126);
        lemma_pow2_adds(64, 16);
        whole_bound((100 * n) as nat, 80);
    }
    rounded(product * 10, power(k))
}

/// A percentage of a share is between nothing and a hundred: zero of nothing, and a
/// hundred of everything.
pub proof fn percentages_are_in_range(num: nat, den: nat)
    requires
        num <= den,
        den > 0,
    ensures
        percent_tenths(num, den) <= 1000,
        num == 0 ==> percent_tenths(num, den) == 0,
        num == den ==> percent_tenths(num, den) == 1000,
{
    lemma2_to64();
    assert(bits(0) == 0);
    assert(bits(1) == 1);
    doubles_keep_the_order(num, den);
    doubles_keep_the_order(1, den);
    shares_are_at_most_one(whole(num), whole(den));
    let (n, k) = quotient(whole(num), whole(den));
    lemma_pow2_pos(k);
    pow2_grows(7, 53);
    bits_below(100, 53);
    scaling_is_exact(100, k);
    doubles_keep_the_order(100 * n, 100 * pow2(k));
    rounding_stays_below(whole(100 * n) * 10, 1000, pow2(k));
    if num == den {
        rounding_shifted(1000, 0, pow2(k));
        assert(0nat / pow2(k) == 0 && 0nat % pow2(k) == 0) by (nonlinear_arith)
            requires
                pow2(k) > 0,
        ;
    }
}

/// A share as a double is off by at most one part in 2^53.
pub proof fn shares_are_close(num: nat, den: nat)
    requires
        num <= den,
        den > 0,
    ensures
        ({
            let (n, k) = quotient(num, den);
            &&& (n * den - num * pow2(k)) * pow2(53) <= num * pow2(k)
            &&& (num * pow2(k) - n * den) * pow2(53) <= num * pow2(k)
        }),
{
    let (n, k) = quotient(num, den);
    if num == 0 {
        assert(0 * den == 0 && 0 * pow2(0) == 0 && 0 * pow2(53) == 0) by (nonlinear_arith);
    } else {
        let (x, y) = (bits(num), bits(den));
        bits_bound(num);
        bits_bound(den);
        if x > y {
            pow2_grows(y, (x - 1) as nat);
        }
        let s = (52 + y - x) as nat;
        // Scaled up by 2^s or by twice that, the share is at least 2^52.
        lemma_pow2_adds((x - 1) as nat, s);
        lemma_pow2_adds(y, 51);
        lemma_pow2_unfold(52);
        lemma_pow2_unfold(53);
        lemma_pow2_unfold(s + 1);
        lemma_pow2_pos(s);
        lemma_pow2_pos(51);
        let (p, q, h) = (pow2(s) as int, pow2((x - 1) as nat) as int, pow2(51) as int);
        let (a, b, c) = (num as int, den as int, pow2(y) as int);
        assert(q * p == c * h) by {
            assert((x - 1) as nat + s == y + 51);
        }
        assert(a * p >= b * h && a * (2 * p) == 2 * (a * p) && b * (2 * h) == 2 * (b * h))
            by (nonlinear_arith)
            requires
                q * p == c * h,
                a >= q,
                b <= c,
                p > 0,
                h > 0,
        ;
        let scaled = num * pow2(k);
        assert(scaled >= den * pow2(52));
        rounding_is_nearest(scaled, den);
        let (d, t, w) = (n * den - scaled, scaled as int, pow2(52) as int);
        assert(d * (2 * w) <= t && (-d) * (2 * w) <= t) by (nonlinear_arith)
            requires
                2 * d <= b,
                -2 * d <= b,
                b * w <= t,
                w >= 0,
        ;
    }
}

/// A difference that is at most one part in 2^53 of `n` is small against it, however
/// often it is taken within reason.
proof fn small_part(d: int, n: int)
    requires
        d * pow2(53) <= n,
        n >= 0,
    ensures
        100_000 * d <= n,
{
    lemma2_to64();
    lemma2_to64_rest();
    if d > 0 {
        let m = pow2(53) as int;
        assert(100_000 * d <= d * m) by (nonlinear_arith)
            requires
                m >= 100_000,
                d > 0,
        ;
    }
}

/// A percentage of a share is the share itself, to within a tenth of a percent.
pub proof fn percentages_are_near(num: nat, den: nat)
    requires
        num <= den,
        den > 0,
    ensures
        percent_tenths(num, den) * den <= 1000 * num + den,
        1000 * num <= percent_tenths(num, den) * den + den,
{
    lemma2_to64();
    assert(bits(0) == 0);
    assert(bits(1) == 1);
    let (w, v) = (whole(num), whole(den));
    doubles_keep_the_order(num, den);
    doubles_keep_the_order(1, den);
    doubles_are_close(num);
    doubles_are_close(den);
    small_part(w - num, num as int);
    small_part(num - w, num as int);
    small_part(v - den, den as int);
    small_part(den - v, den as int);
    shares_are_at_most_one(w, v);
    shares_are_close(w, v);
    percentages_are_in_range(num, den);
    let (n, k) = quotient(w, v);
    let unit = pow2(k);
    lemma_pow2_pos(k);
    let product = whole(100 * n);
    doubles_are_close(100 * n);
    small_part(product - 100 * n, 100 * n as int);
    small_part(100 * n - product, 100 * n as int);
    let tenths = percent_tenths(num, den);
    rounding_is_nearest(product * 10, unit);
    let (a, b, t, u, q) = (w as int, v as int, tenths as int, unit as int, n as int);
    assert(a * u >= 0) by (nonlinear_arith)
        requires
            a >= 0,
            u > 0,
    ;
    small_part(q * b - a * u, a * u);
    small_part(a * u - q * b, a * u);
    // In units of 2^-k, the tenths are near to the thousandfold share.
    assert(8 * (t * u - 1000 * q) <= 5 * u && 8 * (1000 * q - t * u) <= 5 * u);
    assert(a * u <= b * u) by (nonlinear_arith)
        requires
            a <= b,
            u > 0,
    ;
    let e = t * b - 1000 * a;
    assert((e * u) == b * (t * u - 1000 * q) + 1000 * (q * b - a * u)) by (nonlinear_arith)
        requires
            e == t * b - 1000 * a,
    ;
    let f = t * u - 1000 * q;
    assert(8 * (b * f) <= 5 * (b * u) && -8 * (b * f) <= 5 * (b * u)) by (nonlinear_arith)
        requires
            8 * f <= 5 * u,
            -8 * f <= 5 * u,
            b >= 0,
    ;
    assert(b * u == u * b) by (nonlinear_arith);
    assert(4 * (e * u) <= 3 * (b * u) && -4 * (e * u) <= 3 * (b * u));
    assert(4 * e <= 3 * b && -4 * e <= 3 * b) by (nonlinear_arith)
        requires
            4 * (e * u) <= 3 * (b * u),
            -4 * (e * u) <= 3 * (b * u),
            u > 0,
    ;
    // The double of the whole is near to the whole.
    let (c, d) = (den as int, v - den);
    assert(t * b == t * c + t * d) by (nonlinear_arith)
        requires
            b == c + d,
    ;
    assert(100 * (t * d) <= c && -100 * (t * d) <= c) by (nonlinear_arith)
        requires
            100_000 * d <= c,
            -100_000 * d <= c,
            0 <= t <= 1000,
            c >= 0,
    ;
}

/// A time in thousandths of a millisecond is the time itself, to the nearest one: it
/// is off by half a thousandth and one part in 2^50 at most, so by no more than half
/// a thousandth within the first twelve days.
pub proof fn milliseconds_are_near(nanos: nat)
    ensures
        (1000 * millis_thousandths(nanos) - nanos - 500) * pow2(50) <= nanos,
        (nanos - 1000 * millis_thousandths(nanos) - 500) * pow2(50) <= nanos,
        nanos < 1_000_000_000_000_000 ==> 1000 * millis_thousandths(nanos) <= nanos + 500
            && nanos <= 1000 * millis_thousandths(nanos) + 500,
{
    let second: nat = 1_000_000_000;
    let (s, r) = (nanos / second, nanos % second);
    let (part, k) = quotient(r, second);
    let unit = pow2(k);
    lemma_pow2_pos(k);
    shares_are_close(r, second);
    let w = whole(s);
    doubles_are_close(s);
    let sum = w * unit + part;
    let n = whole(sum);
    doubles_are_close(sum);
    let product = whole(1000 * n);
    doubles_are_close(1000 * n);
    let t = millis_thousandths(nanos);
    rounding_is_nearest(product * 1000, unit);
    let (m, u) = (pow2(53) as int, unit as int);
    lemma2_to64();
    lemma2_to64_rest();
    // What the whole seconds and their part are off by, in units of 2^-k nanoseconds.
    let exact = nanos * u;
    let off = sum * second - exact;
    assert(off == (w - s) * u * second + (part * second - r * u) && exact == s * u * second + r * u)
        by (nonlinear_arith)
        requires
            off == sum * second - exact,
            exact == nanos * u,
            sum == w * u + part,
            nanos == s * second + r,
    ;
    let (d, p) = (w - s, part * second - r * u);
    assert(off * m <= exact && (-off) * m <= exact) by (nonlinear_arith)
        requires
            off == d * u * second + p,
            exact == s * u * second + r * u,
            d * m <= s,
            (-d) * m <= s,
            p * m <= r * u,
            (-p) * m <= r * u,
            u > 0,
            second > 0,
    ;
    assert(exact >= 0) by (nonlinear_arith)
        requires
            exact == nanos * u,
            nanos >= 0,
            u > 0,
    ;
    small_part(off, exact);
    small_part(n - sum, sum as int);
    let (e1, e2, e3) = (t * u - 1000 * product, product - 1000 * n, n - sum);
    let all = 1000 * (t * u) - exact;
    assert(1_000_000 * all == 1_000_000_000 * e1 + 1_000_000_000_000 * e2 + 1_000_000_000_000_000
        * e3 + 1_000_000 * off);
    assert((1_000_000 * all) * m == 1_000_000_000 * (e1 * m) + 1_000_000_000_000 * (e2 * m)
        + 1_000_000_000_000_000 * (e3 * m) + 1_000_000 * (off * m)) by (nonlinear_arith)
        requires
            1_000_000 * all == 1_000_000_000 * e1 + 1_000_000_000_000 * e2
                + 1_000_000_000_000_000 * e3 + 1_000_000 * off,
    ;
    assert(2 * (e1 * m) <= u * m && -2 * (e1 * m) <= u * m) by (nonlinear_arith)
        requires
            2 * e1 <= u,
            -2 * e1 <= u,
            m > 0,
    ;
    assert((1_000_000 * all) * m == 1_000_000 * (all * m)) by (nonlinear_arith);
    assert((-off) * m == -(off * m) && (-e2) * m == -(e2 * m) && (-e3) * m == -(e3 * m))
        by (nonlinear_arith);
    assert(e2 * m <= 1000 * n && -(e2 * m) <= 1000 * n);
    assert(e3 * m <= sum && -(e3 * m) <= sum);
    assert(all * m <= 500 * (u * m) + 8 * exact && -(all * m) <= 500 * (u * m) + 8 * exact);
    let x = 1000 * t - nanos;
    assert(all == x * u) by (nonlinear_arith)
        requires
            all == 1000 * (t * u) - exact,
            exact == nanos * u,
            x == 1000 * t - nanos,
    ;
    assert(x * m <= 500 * m + 8 * nanos && -(x * m) <= 500 * m + 8 * nanos) by (nonlinear_arith)
        requires
            all == x * u,
            exact == nanos * u,
            all * m <= 500 * (u * m) + 8 * exact,
            -(all * m) <= 500 * (u * m) + 8 * exact,
            u > 0,
    ;
}

} // verus!
