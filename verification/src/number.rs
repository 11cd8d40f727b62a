//! Numbers of the language: IEEE-754 binary64 values, held as their 64-bit
//! patterns. Everything here is decided on the bits alone; arithmetic that
//! rounds is left to whoever drives the interpreter.
use vstd::prelude::*;

verus! {

/// The sign bit.
pub const SIGN: u64 = 0x8000_0000_0000_0000;

/// Two to the 52nd: the implicit leading bit of a normal significand.
pub const HIDDEN: u64 = 0x0010_0000_0000_0000;

/// Two to the 53rd.
pub const TWICE_HIDDEN: u64 = 0x0020_0000_0000_0000;

/// Two to the 54th.
pub const FOUR_HIDDEN: u64 = 0x0040_0000_0000_0000;

/// The pattern of positive infinity; every larger magnitude is a NaN.
pub const INFINITY: u64 = 0x7ff0_0000_0000_0000;

/// The pattern of the machine epsilon, two to the minus 52nd.
pub const EPSILON: u64 = 0x3cb0_0000_0000_0000;

/// The pattern of two to the 63rd, the first magnitude outside `i64`.
pub const TWO_TO_63: u64 = 0x43e0_0000_0000_0000;

/// The pattern of two to the 64th, the first magnitude outside `u64`.
pub const TWO_TO_64: u64 = 0x43f0_0000_0000_0000;

/// The exponent field of 1.0.
pub const BIAS: u64 = 1023;

/// The exponent field at which the significand is the number's integer value.
pub const UNIT: u64 = 1075;

/// The pattern without its sign bit.
pub open spec fn magnitude(bits: u64) -> u64 {
    if bits >= SIGN {
        (bits - SIGN) as u64
    } else {
        bits
    }
}

pub open spec fn is_negative(bits: u64) -> bool {
    bits >= SIGN
}

pub open spec fn is_nan(bits: u64) -> bool {
    magnitude(bits) > INFINITY
}

pub open spec fn is_finite(bits: u64) -> bool {
    magnitude(bits) < INFINITY
}

/// Plus or minus zero.
pub open spec fn is_zero(bits: u64) -> bool {
    magnitude(bits) == 0
}

/// The biased exponent field, 0 to 2047.
pub open spec fn exponent(bits: u64) -> nat {
    (magnitude(bits) / HIDDEN) as nat
}

/// The significand of a normal number, with its leading bit.
pub open spec fn significand(bits: u64) -> nat {
    (HIDDEN + magnitude(bits) % HIDDEN) as nat
}

/// The pattern with the sign bit flipped: the negated number.
pub open spec fn negated(bits: u64) -> u64 {
    if bits >= SIGN {
        (bits - SIGN) as u64
    } else {
        (bits + SIGN) as u64
    }
}

/// A key that orders the numbers that are not NaN as their values are ordered.
pub open spec fn order_key(bits: u64) -> int {
    if bits >= SIGN {
        -(magnitude(bits) as int)
    } else {
        bits as int
    }
}

/// `a < b` as numbers: false as soon as one of them is a NaN.
pub open spec fn less(a: u64, b: u64) -> bool {
    !is_nan(a) && !is_nan(b) && order_key(a) < order_key(b)
}

/// Whether the magnitude of `difference` is below the machine epsilon.
pub open spec fn negligible(difference: u64) -> bool {
    magnitude(difference) < EPSILON
}

/// `v` divided by two, `k` times, rounding down.
pub open spec fn halved(v: nat, k: nat) -> nat
    decreases k,
{
    if k == 0 {
        v
    } else {
        halved(v / 2, (k - 1) as nat)
    }
}

/// Whether two to the `k` divides `v`.
pub open spec fn divisible(v: nat, k: nat) -> bool
    decreases k,
{
    if k == 0 {
        true
    } else {
        v % 2 == 0 && divisible(v / 2, (k - 1) as nat)
    }
}

/// Two to the `k`.
pub open spec fn two_to(k: nat) -> nat
    decreases k,
{
    if k == 0 {
        1
    } else {
        2 * two_to((k - 1) as nat)
    }
}

/// The integer part of the magnitude of a finite number below two to the 64th.
pub open spec fn whole(bits: u64) -> nat
    recommends
        magnitude(bits) < TWO_TO_64,
{
    let e = exponent(bits);
    if e < BIAS {
        0
    } else if e < UNIT {
        halved(significand(bits), (UNIT - e) as nat)
    } else {
        significand(bits) * two_to((e - UNIT) as nat)
    }
}

/// Whether the number is finite and has no fractional part.
pub open spec fn is_integral(bits: u64) -> bool {
    let e = exponent(bits);
    if !is_finite(bits) {
        false
    } else if e < BIAS {
        is_zero(bits)
    } else if e < UNIT {
        divisible(significand(bits), (UNIT - e) as nat)
    } else {
        true
    }
}

/// The number cut to an `i64`: toward zero, the range's ends for what lies
/// outside it, 0 for a NaN.
pub open spec fn as_i64(bits: u64) -> i64 {
    if is_nan(bits) {
        0
    } else if magnitude(bits) >= TWO_TO_63 {
        if is_negative(bits) {
            i64::MIN
        } else {
            i64::MAX
        }
    } else if is_negative(bits) {
        (-(whole(bits) as int)) as i64
    } else {
        whole(bits) as i64
    }
}

/// The number cut to a `usize`: toward zero, 0 for a negative number or a
/// NaN, the largest `usize` for what lies above it.
pub open spec fn as_index(bits: u64) -> usize {
    if is_nan(bits) || is_negative(bits) {
        0
    } else if magnitude(bits) >= TWO_TO_64 || whole(bits) > usize::MAX {
        usize::MAX
    } else {
        whole(bits) as usize
    }
}

/// The number cut to an `i32`, as `as_i64` cuts it to an `i64`.
pub open spec fn as_i32(bits: u64) -> i32 {
    let wide = as_i64(bits);
    if is_nan(bits) {
        0
    } else if wide > i32::MAX {
        i32::MAX
    } else if wide < i32::MIN {
        i32::MIN
    } else {
        wide as i32
    }
}

/// A positive integer below two to the 52nd, doubled until it reaches it,
/// with the exponent field that keeps the value.
pub open spec fn grown(m: nat, e: nat) -> (nat, nat)
    decreases
            (if m < HIDDEN {
                HIDDEN - m
            } else {
                0
            }),
{
    if m == 0 || m >= HIDDEN {
        (m, e)
    } else {
        grown(2 * m, (e - 1) as nat)
    }
}

/// An integer of at least two to the 54th, halved until it is below it, with
/// the exponent field that keeps the value and whether a one was dropped.
pub open spec fn shrunk(m: nat, e: nat, lost: bool) -> (nat, nat, bool)
    decreases m,
{
    if m < FOUR_HIDDEN {
        (m, e, lost)
    } else {
        shrunk(m / 2, e + 1, lost || m % 2 == 1)
    }
}

/// The pattern of the binary64 number nearest to the integer `m`, ties to the
/// even significand.
pub open spec fn from_magnitude(m: nat) -> nat {
    if m == 0 {
        0
    } else if m < TWICE_HIDDEN {
        let (s, e) = grown(m, UNIT as nat);
        (e * HIDDEN + (s - HIDDEN)) as nat
    } else {
        let (g, e, lost) = shrunk(m, UNIT as nat, false);
        let q = g / 2;
        let up: nat = if g % 2 == 1 && (lost || q % 2 == 1) {
            1
        } else {
            0
        };
        ((e + 1) * HIDDEN + (q - HIDDEN) + up) as nat
    }
}

/// The pattern of the binary64 number nearest to the integer `n`.
pub open spec fn from_int(n: int) -> nat {
    if n < 0 {
        (SIGN + from_magnitude((-n) as nat)) as nat
    } else {
        from_magnitude(n as nat)
    }
}

pub fn magnitude_of(bits: u64) -> (r: u64)
    ensures
        r == magnitude(bits),
{
    if bits >= SIGN {
        bits - SIGN
    } else {
        bits
    }
}

pub fn negative(bits: u64) -> (r: bool)
    ensures
        r == is_negative(bits),
{
    bits >= SIGN
}

pub fn nan(bits: u64) -> (r: bool)
    ensures
        r == is_nan(bits),
{
    magnitude_of(bits) > INFINITY
}

pub fn zero(bits: u64) -> (r: bool)
    ensures
        r == is_zero(bits),
{
    magnitude_of(bits) == 0
}

/// The negated number.
pub fn negate(bits: u64) -> (r: u64)
    ensures
        r == negated(bits),
{
    if bits >= SIGN {
        bits - SIGN
    } else {
        bits + SIGN
    }
}

/// Whether `a < b` as numbers.
pub fn is_less(a: u64, b: u64) -> (r: bool)
    ensures
        r == less(a, b),
{
    if nan(a) || nan(b) {
        false
    } else if a >= SIGN {
        if b >= SIGN {
            b - SIGN < a - SIGN
        } else {
            a - SIGN > 0 || b > 0
        }
    } else {
        b < SIGN && a < b
    }
}

/// Whether a difference is below the machine epsilon in magnitude.
pub fn is_negligible(difference: u64) -> (r: bool)
    ensures
        r == negligible(difference),
{
    magnitude_of(difference) < EPSILON
}

fn halve(v: u64, k: u64) -> (r: (u64, bool))
    ensures
        r.0 == halved(v as nat, k as nat),
        r.1 == divisible(v as nat, k as nat),
        r.0 <= v,
{
    let mut value: u64 = v;
    let mut exact: bool = true;
    let mut left: u64 = k;
    while left > 0
        invariant
            halved(value as nat, left as nat) == halved(v as nat, k as nat),
            (exact && divisible(value as nat, left as nat)) == divisible(v as nat, k as nat),
            value <= v,
        decreases left,
    {
        exact = exact && value % 2 == 0;
        value = value / 2;
        left = left - 1;
    }
    (value, exact)
}

proof fn lemma_two_to_sum(a: nat, b: nat)
    ensures
        two_to(a + b) == two_to(a) * two_to(b),
    decreases a,
{
    if a > 0 {
        lemma_two_to_sum((a - 1) as nat, b);
        assert(two_to(a + b) == 2 * two_to((a - 1 + b) as nat));
        assert(2 * (two_to((a - 1) as nat) * two_to(b)) == (2 * two_to((a - 1) as nat)) * two_to(b))
            by (nonlinear_arith);
    } else {
        assert(two_to(a + b) == two_to(b));
        assert(1 * two_to(b) == two_to(b));
    }
}

proof fn lemma_two_to_values()
    ensures
        two_to(0) == 1,
        two_to(10) == 1024,
        two_to(11) == 2048,
        two_to(52) == HIDDEN,
{
    reveal_with_fuel(two_to, 13);
    assert(two_to(12) == 4096);
    lemma_two_to_sum(10, 10);
    assert(two_to(20) == 1048576);
    lemma_two_to_sum(20, 20);
    assert(two_to(40) == 1099511627776);
    lemma_two_to_sum(40, 12);
    assert(two_to(52) == 4503599627370496);
}

proof fn lemma_two_to_monotonic(a: nat, b: nat)
    requires
        a <= b,
    ensures
        1 <= two_to(a) <= two_to(b),
    decreases b,
{
    if b > a {
        lemma_two_to_monotonic(a, (b - 1) as nat);
    } else if a > 0 {
        lemma_two_to_monotonic((a - 1) as nat, (a - 1) as nat);
    }
}

proof fn lemma_two_to_bound(k: nat)
    requires
        k <= 11,
    ensures
        1 <= two_to(k) <= 2048,
{
    lemma_two_to_values();
    lemma_two_to_monotonic(k, 11);
}

fn power(k: u64) -> (r: u64)
    requires
        k <= 11,
    ensures
        r == two_to(k as nat),
        1 <= r <= 2048,
{
    let mut value: u64 = 1;
    let mut done: u64 = 0;
    while done < k
        invariant
            done <= k <= 11,
            value == two_to(done as nat),
        decreases k - done,
    {
        proof {
            lemma_two_to_bound(done as nat);
        }
        value = value * 2;
        done = done + 1;
    }
    proof {
        lemma_two_to_bound(k as nat);
    }
    value
}

/// The integer part of the magnitude, for a magnitude below two to the 64th.
fn whole_of(bits: u64) -> (r: u64)
    requires
        magnitude(bits) < TWO_TO_64,
    ensures
        r == whole(bits),
        magnitude(bits) < TWO_TO_63 ==> r < 0x8000_0000_0000_0000,
{
    let m: u64 = magnitude_of(bits);
    let e: u64 = m / HIDDEN;
    let s: u64 = HIDDEN + m % HIDDEN;
    if e < BIAS {
        0
    } else if e < UNIT {
        halve(s, UNIT - e).0
    } else {
        let p: u64 = power(e - UNIT);
        assert(s * p <= 0x001f_ffff_ffff_ffff * 2048) by (nonlinear_arith)
            requires
                s <= 0x001f_ffff_ffff_ffff,
                p <= 2048,
        ;
        proof {
            if m < TWO_TO_63 {
                lemma_two_to_bound((e - UNIT) as nat);
                lemma_two_to_small((e - UNIT) as nat);
                assert(s * p <= 0x001f_ffff_ffff_ffff * 1024) by (nonlinear_arith)
                    requires
                        s <= 0x001f_ffff_ffff_ffff,
                        p <= 1024,
                ;
            }
        }
        s * p
    }
}

proof fn lemma_two_to_small(k: nat)
    requires
        k <= 10,
    ensures
        two_to(k) <= 1024,
{
    lemma_two_to_values();
    lemma_two_to_monotonic(k, 10);
}

/// Whether the number is finite and has no fractional part.
pub fn integral(bits: u64) -> (r: bool)
    ensures
        r == is_integral(bits),
{
    let m: u64 = magnitude_of(bits);
    let e: u64 = m / HIDDEN;
    if m >= INFINITY {
        false
    } else if e < BIAS {
        m == 0
    } else if e < UNIT {
        halve(HIDDEN + m % HIDDEN, UNIT - e).1
    } else {
        true
    }
}

/// The number cut to an `i64`.
pub fn to_i64(bits: u64) -> (r: i64)
    ensures
        r == as_i64(bits),
{
    let m: u64 = magnitude_of(bits);
    if m > INFINITY {
        0
    } else if m >= TWO_TO_63 {
        if bits >= SIGN {
            i64::MIN
        } else {
            i64::MAX
        }
    } else {
        let w: u64 = whole_of(bits);
        if bits >= SIGN {
            0 - (w as i64)
        } else {
            w as i64
        }
    }
}

/// The number cut to a `usize`.
pub fn to_index(bits: u64) -> (r: usize)
    ensures
        r == as_index(bits),
{
    let m: u64 = magnitude_of(bits);
    if m > INFINITY || bits >= SIGN {
        0
    } else if m >= TWO_TO_64 {
        usize::MAX
    } else {
        let w: u64 = whole_of(bits);
        if w > usize::MAX as u64 {
            usize::MAX
        } else {
            w as usize
        }
    }
}

/// The number cut to an `i32`.
pub fn to_i32(bits: u64) -> (r: i32)
    ensures
        r == as_i32(bits),
{
    let wide: i64 = to_i64(bits);
    if nan(bits) {
        0
    } else if wide > i32::MAX as i64 {
        i32::MAX
    } else if wide < i32::MIN as i64 {
        i32::MIN
    } else {
        wide as i32
    }
}

/// The pattern of the number nearest to `m`.
pub fn from_u64(m: u64) -> (r: u64)
    ensures
        r == from_magnitude(m as nat),
        r < SIGN,
{
    if m == 0 {
        0
    } else if m < TWICE_HIDDEN {
        let mut s: u64 = m;
        let mut e: u64 = UNIT;
        while s < HIDDEN
            invariant
                0 < s < TWICE_HIDDEN,
                grown(s as nat, e as nat) == grown(m as nat, UNIT as nat),
                e <= UNIT,
                s >= two_to((UNIT - e) as nat),
            decreases e,
        {
            proof {
                lemma_two_to_values();
                if UNIT - e >= 52 {
                    lemma_two_to_monotonic(52, (UNIT - e) as nat);
                }
                lemma_two_to_growth((UNIT - e) as nat);
            }
            s = s * 2;
            e = e - 1;
        }
        assert(e * HIDDEN <= 1075 * 0x0010_0000_0000_0000) by (nonlinear_arith)
            requires
                e <= 1075,
        ;
        e * HIDDEN + (s - HIDDEN)
    } else {
        let mut g: u64 = m;
        let mut e: u64 = UNIT;
        let mut lost: bool = false;
        proof {
            lemma_two_to_values();
            assert(g as nat * two_to(0) == g as nat) by (nonlinear_arith)
                requires
                    two_to(0) == 1,
            ;
        }
        while g >= FOUR_HIDDEN
            invariant
                g >= TWICE_HIDDEN,
                shrunk(g as nat, e as nat, lost) == shrunk(m as nat, UNIT as nat, false),
                UNIT <= e <= UNIT + 10,
                g as nat * two_to((e - UNIT) as nat) <= u64::MAX,
            decreases g,
        {
            proof {
                lemma_shrink_step(g as nat, (e - UNIT) as nat);
            }
            lost = lost || g % 2 == 1;
            g = g / 2;
            e = e + 1;
        }
        let q: u64 = g / 2;
        let up: u64 = if g % 2 == 1 && (lost || q % 2 == 1) {
            1
        } else {
            0
        };
        assert((e + 1) * HIDDEN <= 1086 * 0x0010_0000_0000_0000) by (nonlinear_arith)
            requires
                e + 1 <= 1086,
        ;
        (e + 1) * HIDDEN + (q - HIDDEN) + up
    }
}

proof fn lemma_two_to_growth(k: nat)
    ensures
        two_to(k + 1) == 2 * two_to(k),
        two_to(k) >= 1,
    decreases k,
{
    if k > 0 {
        lemma_two_to_growth((k - 1) as nat);
    }
}

proof fn lemma_shrink_step(g: nat, k: nat)
    requires
        g >= FOUR_HIDDEN,
        g * two_to(k) <= u64::MAX,
    ensures
        k < 10,
        (g / 2) * two_to(k + 1) <= u64::MAX,
{
    lemma_two_to_growth(k);
    lemma_two_to_monotonic(0, k);
    assert((g / 2) * (2 * two_to(k)) <= g * two_to(k)) by (nonlinear_arith)
        requires
            two_to(k) >= 1,
    ;
    if k >= 10 {
        lemma_two_to_at_least(k);
        assert(g * two_to(k) >= FOUR_HIDDEN * 1024) by (nonlinear_arith)
            requires
                g >= FOUR_HIDDEN,
                two_to(k) >= 1024,
        ;
    }
}

proof fn lemma_two_to_at_least(k: nat)
    requires
        k >= 10,
    ensures
        two_to(k) >= 1024,
{
    lemma_two_to_values();
    lemma_two_to_monotonic(10, k);
}

/// The pattern of the number nearest to `n`.
pub fn from_i64(n: i64) -> (r: u64)
    ensures
        r == from_int(n as int),
{
    if n >= 0 {
        from_u64(n as u64)
    } else if n == i64::MIN {
        SIGN + from_u64(0x8000_0000_0000_0000)
    } else {
        SIGN + from_u64((0 - n) as u64)
    }
}

/// The pattern of the number nearest to `n`.
pub fn from_index(n: usize) -> (r: u64)
    ensures
        r == from_int(n as int),
{
    from_u64(n as u64)
}

/// Halving once more halves the result.
proof fn lemma_halved_step(v: nat, k: nat)
    ensures
        halved(v, k + 1) == halved(v, k) / 2,
        divisible(v, k + 1) == (divisible(v, k) && halved(v, k) % 2 == 0),
    decreases k,
{
    if k > 0 {
        lemma_halved_step(v / 2, (k - 1) as nat);
        assert(halved(v, k + 1) == halved(v / 2, k));
        assert(divisible(v, k + 1) == (v % 2 == 0 && divisible(v / 2, k)));
    } else {
        assert(halved(v, 1) == halved(v / 2, 0));
        assert(divisible(v, 1) == (v % 2 == 0 && divisible(v / 2, 0)));
    }
}

/// A significand that was doubled gives its integer back when it is halved
/// as often.
proof fn lemma_grown(m: nat, e: nat)
    requires
        0 < m < TWICE_HIDDEN,
        e >= BIAS,
        m * two_to((e - BIAS) as nat) >= HIDDEN,
    ensures
        HIDDEN <= grown(m, e).0 < TWICE_HIDDEN,
        BIAS <= grown(m, e).1 <= e,
        halved(grown(m, e).0, (e - grown(m, e).1) as nat) == m,
        divisible(grown(m, e).0, (e - grown(m, e).1) as nat),
    decreases
            (if m < HIDDEN {
                HIDDEN - m
            } else {
                0
            }),
{
    if m < HIDDEN {
        if e == BIAS {
            lemma_two_to_values();
            assert(m * two_to(0) == m) by (nonlinear_arith)
                requires
                    two_to(0) == 1,
            ;
        }
        lemma_two_to_growth((e - 1 - BIAS) as nat);
        assert((2 * m) * two_to((e - 1 - BIAS) as nat) == m * (2 * two_to((e - 1 - BIAS) as nat)))
            by (nonlinear_arith);
        lemma_grown(2 * m, (e - 1) as nat);
        let (s, f) = grown(2 * m, (e - 1) as nat);
        lemma_halved_step(s, (e - 1 - f) as nat);
    }
}

/// An integer below two to the 53rd is a number exactly: the number that
/// it becomes has no fractional part, and its integer part is the integer.
pub proof fn lemma_small_integers_are_exact(n: int)
    requires
        -(TWICE_HIDDEN as int) < n < TWICE_HIDDEN,
    ensures
        from_int(n) <= u64::MAX,
        is_integral(from_int(n) as u64),
        as_i64(from_int(n) as u64) == n,
        n >= 0 ==> whole(from_int(n) as u64) == n,
{
    let m: nat = if n < 0 {
        (-n) as nat
    } else {
        n as nat
    };
    if m > 0 {
        lemma_two_to_values();
        assert(m * two_to(52) >= HIDDEN) by (nonlinear_arith)
            requires
                m >= 1,
                two_to(52) == HIDDEN,
        ;
        lemma_grown(m, UNIT as nat);
        let (s, f) = grown(m, UNIT as nat);
        let bits = from_magnitude(m);
        assert(bits == f * HIDDEN + (s - HIDDEN));
        assert(f * HIDDEN <= 1075 * 0x0010_0000_0000_0000) by (nonlinear_arith)
            requires
                f <= 1075,
        ;
        assert(bits / (HIDDEN as nat) == f && bits % (HIDDEN as nat) == s - HIDDEN)
            by (nonlinear_arith)
            requires
                bits == f * HIDDEN + (s - HIDDEN),
                0 <= s - HIDDEN < HIDDEN,
                HIDDEN == 0x0010_0000_0000_0000,
        ;
        if f == UNIT {
            assert(s * two_to(0) == s) by (nonlinear_arith)
                requires
                    two_to(0) == 1,
            ;
        }
    }
}

/// What halving `k` times leaves out: `v` lies at the halved value times
/// two to the `k`, or less than two to the `k` above it, and lies at it
/// exactly when two to the `k` divides `v`.
pub proof fn lemma_halved_rest(v: nat, k: nat)
    ensures
        halved(v, k) * two_to(k) <= v < halved(v, k) * two_to(k) + two_to(k),
        divisible(v, k) <==> v == halved(v, k) * two_to(k),
    decreases k,
{
    if k > 0 {
        lemma_halved_rest(v / 2, (k - 1) as nat);
        let h = halved(v / 2, (k - 1) as nat);
        let p = two_to((k - 1) as nat);
        assert(halved(v, k) == h);
        assert(two_to(k) == 2 * p);
        assert(h * (2 * p) == 2 * (h * p)) by (nonlinear_arith);
        assert(divisible(v, k) == (v % 2 == 0 && divisible(v / 2, (k - 1) as nat)));
    } else {
        assert(halved(v, 0) * two_to(0) == v) by (nonlinear_arith)
            requires
                halved(v, 0) == v,
                two_to(0) == 1,
        ;
    }
}

/// An integer that was halved until it fits is the integer halved as
/// often as the exponent field grew, and a one was dropped exactly when
/// the integer is no multiple of that power of two.
proof fn lemma_shrunk(m: nat, e: nat, lost: bool)
    ensures
        shrunk(m, e, lost).1 >= e,
        shrunk(m, e, lost).0 == halved(m, (shrunk(m, e, lost).1 - e) as nat),
        shrunk(m, e, lost).2 == (lost || !divisible(m, (shrunk(m, e, lost).1 - e) as nat)),
        shrunk(m, e, lost).0 < FOUR_HIDDEN,
        m >= TWICE_HIDDEN ==> shrunk(m, e, lost).0 >= TWICE_HIDDEN,
    decreases m,
{
    if m >= FOUR_HIDDEN {
        lemma_shrunk(m / 2, e + 1, lost || m % 2 == 1);
        let after = shrunk(m / 2, e + 1, lost || m % 2 == 1);
        let k = (after.1 - (e + 1)) as nat;
        assert(halved(m, k + 1) == halved(m / 2, k));
        assert(divisible(m, k + 1) == (m % 2 == 0 && divisible(m / 2, k)));
    }
}

/// The distance between the numbers of the size of the integer `m`, for an
/// integer of at least two to the 53rd.
pub open spec fn spacing(m: nat) -> nat {
    two_to((shrunk(m, UNIT as nat, false).1 + 1 - UNIT) as nat)
}

/// An integer of at least two to the 53rd becomes the number nearest to
/// it: a multiple of the spacing that is at most half the spacing away,
/// and the even multiple where two are as near.
pub proof fn lemma_large_integers_are_rounded(m: nat)
    requires
        TWICE_HIDDEN <= m <= u64::MAX,
    ensures
        from_magnitude(m) <= TWO_TO_64,
        ({
            let w = whole(from_magnitude(m) as u64);
            let unit = spacing(m);
            &&& unit > 0
            &&& w % unit == 0
            &&& w / unit <= TWICE_HIDDEN
            &&& 2 * (w - m) <= unit
            &&& 2 * (m - w) <= unit
            &&& (2 * (w - m) == unit || 2 * (m - w) == unit) ==> (w / unit) % 2 == 0
        }),
{
    let (g, e, lost) = shrunk(m, UNIT as nat, false);
    lemma_shrunk(m, UNIT as nat, false);
    let j = (e - UNIT) as nat;
    lemma_halved_rest(m, j);
    lemma_two_to_values();
    lemma_two_to_growth(j);
    lemma_two_to_growth(j + 1);
    let p = two_to(j);
    let unit = two_to(j + 1);
    assert(unit == 2 * p);
    assert(spacing(m) == unit);
    if j >= 11 {
        lemma_two_to_monotonic(11, j);
        assert(g * p >= TWICE_HIDDEN * 2048) by (nonlinear_arith)
            requires
                g >= TWICE_HIDDEN,
                p >= 2048,
        ;
    }
    let q = g / 2;
    let guard = g % 2;
    let up: nat = if guard == 1 && (lost || q % 2 == 1) {
        1
    } else {
        0
    };
    let chosen = q + up;
    let bits = from_magnitude(m);
    assert(bits == (e + 1) * HIDDEN + (q - HIDDEN) + up);
    let r = (m - g * p) as nat;
    assert(g * p == (2 * q + guard) * p);
    assert((2 * q + guard) * p == q * unit + guard * p) by (nonlinear_arith)
        requires
            unit == 2 * p,
    ;
    assert(chosen * unit == q * unit + up * unit) by (nonlinear_arith)
        requires
            chosen == q + up,
    ;
    assert(up * unit == if up == 1 {
        unit
    } else {
        0
    }) by (nonlinear_arith)
        requires
            up <= 1,
    ;
    assert(guard * p == if guard == 1 {
        p
    } else {
        0
    }) by (nonlinear_arith)
        requires
            guard <= 1,
    ;
    assert((e + 1) * HIDDEN <= 1086 * 0x0010_0000_0000_0000) by (nonlinear_arith)
        requires
            e + 1 <= 1086,
    ;
    let w = whole(bits as u64);
    if chosen < TWICE_HIDDEN {
        assert(bits / (HIDDEN as nat) == e + 1 && bits % (HIDDEN as nat) == chosen - HIDDEN)
            by (nonlinear_arith)
            requires
                bits == (e + 1) * HIDDEN + (chosen - HIDDEN),
                0 <= chosen - HIDDEN < HIDDEN,
                HIDDEN == 0x0010_0000_0000_0000,
        ;
        assert(w == chosen * unit);
    } else {
        assert(bits == (e + 2) * HIDDEN) by (nonlinear_arith)
            requires
                bits == (e + 1) * HIDDEN + (chosen - HIDDEN),
                chosen == TWICE_HIDDEN,
                TWICE_HIDDEN == 2 * HIDDEN,
        ;
        assert(bits / (HIDDEN as nat) == e + 2 && bits % (HIDDEN as nat) == 0)
            by (nonlinear_arith)
            requires
                bits == (e + 2) * HIDDEN,
                HIDDEN == 0x0010_0000_0000_0000,
        ;
        lemma_two_to_growth(j + 1);
        assert(HIDDEN * two_to(j + 2) == chosen * unit) by (nonlinear_arith)
            requires
                chosen == 2 * HIDDEN,
                two_to(j + 2) == 2 * unit,
        ;
        assert(w == chosen * unit);
    }
    assert(w % unit == 0 && w / unit == chosen) by (nonlinear_arith)
        requires
            w == chosen * unit,
            unit > 0,
    ;
}

} // verus!
