//! The ease-in curve of one slide.
//!
//! A segment moves a value from `b` to `b + c` while its clock runs from `0`
//! to `d`. In between it follows `b + c * 2^(10 * (t / d - 1))`: almost at
//! rest at first, fast at the end. Times are whole nanoseconds and positions
//! whole units of the caller's choosing, so the power of two is read in fixed
//! point: the exponent's range of ten octaves is cut into 160 knots, the knot
//! values are `2^(i / 16 - 10)` scaled by [`UNIT`] and rounded down, and the
//! curve runs straight from knot to knot. The result is rounded towards `b`.

use vstd::prelude::*;
use vstd::arithmetic::power2::{lemma2_to64, pow2};
use vstd::bits::lemma_u64_shr_is_div;

verus! {

/// The weight that stands for the whole way: `2^30`.
pub const UNIT: u64 = 0x4000_0000;

/// Knot intervals from one end of a segment to the other.
pub const STEPS: u64 = 160;

/// Why a segment, or a popup built on one, cannot be made.
#[derive(Debug, Clone, Copy, PartialEq, Eq, Structural)]
pub enum ConstructionError {
    /// The duration is zero, so no time could be a fraction of it.
    ZeroDuration,
    /// The far end of the way does not fit the position type.
    SpanOutOfRange,
}

/// One interpolation segment and the time at which it is read.
#[derive(Debug, Clone, Copy, PartialEq, Eq, Structural)]
pub struct Easing {
    /// Time since the segment began, in nanoseconds.
    pub t: u64,
    /// The value at `t == 0`.
    pub b: i64,
    /// The signed way from `b` to the target.
    pub c: i64,
    /// The time at which the target is reached, in nanoseconds.
    pub d: u64,
}

/// Values that an ease-in curve can be read from.
pub trait Exp {
    /// Whether the value may be read.
    spec fn ready(&self) -> bool;

    /// The value of the curve.
    spec fn eased(&self) -> int;

    /// Reads the curve.
    fn calc_in(&self) -> (r: i64)
        requires
            self.ready(),
        ensures
            r == self.eased(),
    ;
}

/// `2^(j / 16)` scaled by `UNIT` and rounded down, for `0 <= j < 16`.
pub open spec fn root_table(j: int) -> int {
    if j == 0 {
        1073741824
    } else if j == 1 {
        1121280435
    } else if j == 2 {
        1170923761
    } else if j == 3 {
        1222764985
    } else if j == 4 {
        1276901416
    } else if j == 5 {
        1333434672
    } else if j == 6 {
        1392470868
    } else if j == 7 {
        1454120821
    } else if j == 8 {
        1518500249
    } else if j == 9 {
        1585729999
    } else if j == 10 {
        1655936264
    } else if j == 11 {
        1729250826
    } else if j == 12 {
        1805811301
    } else if j == 13 {
        1885761398
    } else if j == 14 {
        1969251187
    } else {
        2056437386
    }
}

/// The weight at knot `i` of 160: `2^(i / 16 - 10)` scaled by `UNIT`.
pub open spec fn knot(i: int) -> int {
    root_table(i % 16) / (pow2((10 - i / 16) as nat) as int)
}

/// The share of the way, out of `UNIT`, covered at time `t` of `d`, for
/// `0 <= t < d`: the knot below `160 * t / d`, and from there the straight
/// line to the next knot.
pub open spec fn ramp(t: int, d: int) -> int {
    let i = (160 * t) / d;
    let rest = (160 * t) % d;
    knot(i) + ((knot(i + 1) - knot(i)) * rest) / d
}

/// The signed way covered at time `t` on a segment of way `c` and duration
/// `d`: nothing at `0`, all of it from `d` on, and in between the share that
/// `ramp` gives, rounded towards zero.
pub open spec fn travelled(t: int, c: int, d: int) -> int {
    if t == 0 {
        0
    } else if t >= d {
        c
    } else if c >= 0 {
        (c * ramp(t, d)) / (UNIT as int)
    } else {
        -(((-c) * ramp(t, d)) / (UNIT as int))
    }
}

proof fn lemma_share(x: int, w1: int, w2: int, u: int)
    by (nonlinear_arith)
    requires
        0 <= x,
        0 <= w1 <= w2,
        0 < u,
    ensures
        0 <= (x * w1) / u <= (x * w2) / u,
        (x * u) / u == x,
{
}

proof fn lemma_share_is_short(x: int, w: int, u: int)
    by (nonlinear_arith)
    requires
        0 < x,
        0 <= w < u,
    ensures
        (x * w) / u < x,
{
}

proof fn lemma_share_is_some(x: int, w: int, u: int)
    by (nonlinear_arith)
    requires
        0 < u,
        0 <= w,
        u <= x * w,
    ensures
        1 <= (x * w) / u,
{
}

proof fn lemma_step(t: int, d: int)
    by (nonlinear_arith)
    requires
        0 <= t < d,
    ensures
        0 <= (160 * t) / d < 160,
        0 <= (160 * t) % d < d,
        160 * t == d * ((160 * t) / d) + (160 * t) % d,
{
}

proof fn lemma_step_order(t1: int, t2: int, d: int)
    by (nonlinear_arith)
    requires
        0 <= t1 <= t2 < d,
    ensures
        (160 * t1) / d <= (160 * t2) / d,
        (160 * t1) / d == (160 * t2) / d ==> (160 * t1) % d <= (160 * t2) % d,
{
}

proof fn lemma_table(j: int)
    requires
        0 <= j < 16,
    ensures
        UNIT <= root_table(j) < 2 * UNIT,
        j < 15 ==> root_table(j) < root_table(j + 1),
        root_table(0) == UNIT,
{
}

proof fn lemma_halvings(o: int) -> (p: int)
    requires
        0 <= o <= 10,
    ensures
        p == pow2((10 - o) as nat),
        1 <= p <= 1024,
        o < 10 ==> p == 2 * pow2((10 - (o + 1)) as nat),
        o == 10 ==> p == 1,
        o == 0 ==> p == 1024,
{
    lemma2_to64();
    pow2((10 - o) as nat) as int
}

proof fn lemma_knot_step(i: int)
    requires
        0 <= i < 160,
    ensures
        0x10_0000 <= knot(i) <= knot(i + 1) <= UNIT,
        knot(159) < knot(160) == UNIT,
        knot(0) == 0x10_0000,
{
    let o = i / 16;
    let j = i % 16;
    let p = lemma_halvings(o);
    lemma_table(j);
    lemma_table(0);
    lemma_table(15);
    let top = lemma_halvings(10);
    let last = lemma_halvings(9);
    let first = lemma_halvings(0);
    assert(160int % 16 == 0 && 160int / 16 == 10);
    assert(159int % 16 == 15 && 159int / 16 == 9);
    assert(0int % 16 == 0 && 0int / 16 == 0);
    assert(top == pow2(0) && last == pow2(1) && first == pow2(10));
    assert(knot(160) == UNIT);
    assert(knot(159) == root_table(15) / 2);
    assert(knot(0) == 0x10_0000);
    assert(knot(i) == root_table(j) / p);
    assert(0x10_0000 <= knot(i)) by (nonlinear_arith)
        requires
            knot(i) == root_table(j) / p,
            0x4000_0000 <= root_table(j),
            1 <= p <= 1024,
    ;
    if j == 15 {
        let q = lemma_halvings(o + 1);
        assert((i + 1) % 16 == 0 && (i + 1) / 16 == o + 1);
        assert(knot(i + 1) == 0x4000_0000int / q);
        assert(knot(i) <= knot(i + 1) <= 0x4000_0000) by (nonlinear_arith)
            requires
                knot(i) == root_table(j) / p,
                knot(i + 1) == 0x4000_0000int / q,
                p == 2 * q,
                1 <= q,
                0 <= root_table(j) < 0x8000_0000,
        ;
    } else {
        assert((i + 1) % 16 == j + 1 && (i + 1) / 16 == o);
        assert(knot(i + 1) == root_table(j + 1) / p);
        lemma_table(j + 1);
        assert(knot(i) <= knot(i + 1) <= 0x4000_0000) by (nonlinear_arith)
            requires
                knot(i) == root_table(j) / p,
                knot(i + 1) == root_table(j + 1) / p,
                2 <= p,
                0 <= root_table(j) <= root_table(j + 1) < 0x8000_0000,
        ;
    }
}

proof fn lemma_knot_order(i: int, j: int)
    requires
        0 <= i <= j <= 160,
    ensures
        0x10_0000 <= knot(i) <= knot(j) <= UNIT,
    decreases j - i,
{
    if i < j {
        lemma_knot_step(j - 1);
        lemma_knot_order(i, j - 1);
    } else if i < 160 {
        lemma_knot_step(i);
    } else {
        lemma_knot_step(159);
    }
}

proof fn lemma_ramp_between(t: int, d: int)
    requires
        0 <= t < d,
    ensures
        0 <= (160 * t) / d < 160,
        knot((160 * t) / d) <= ramp(t, d) <= knot((160 * t) / d + 1),
        0x10_0000 <= ramp(t, d) < UNIT,
{
    lemma_step(t, d);
    let i = (160 * t) / d;
    let rest = (160 * t) % d;
    let rise = knot(i + 1) - knot(i);
    lemma_knot_step(i);
    lemma_knot_order(i + 1, 160);
    lemma_share(rise, rest, d, d);
    if i == 159 {
        lemma_share_is_short(rise, rest, d);
    } else {
        lemma_knot_order(i + 1, 159);
    }
}

proof fn lemma_ramp_order(t1: int, t2: int, d: int)
    requires
        0 <= t1 <= t2 < d,
    ensures
        ramp(t1, d) <= ramp(t2, d),
{
    lemma_step_order(t1, t2, d);
    lemma_ramp_between(t1, d);
    lemma_ramp_between(t2, d);
    let i1 = (160 * t1) / d;
    let i2 = (160 * t2) / d;
    if i1 == i2 {
        lemma_knot_step(i1);
        lemma_share(knot(i1 + 1) - knot(i1), (160 * t1) % d, (160 * t2) % d, d);
    } else {
        lemma_knot_order(i1 + 1, i2);
    }
}

/// `x` multiplied sixteen times by itself.
pub open spec fn sixteenth_power(x: int) -> int {
    let x2 = x * x;
    let x4 = x2 * x2;
    let x8 = x4 * x4;
    x8 * x8
}

/// Each entry of the table is `2^(j / 16)` scaled by `UNIT` and rounded
/// down: it is the largest number whose sixteenth power is at most `2^j`
/// times that of `UNIT`.
pub proof fn lemma_table_is_rounded_down(j: int)
    requires
        0 <= j < 16,
    ensures
        sixteenth_power(root_table(j)) <= pow2(j as nat) * sixteenth_power(UNIT as int)
            < sixteenth_power(root_table(j) + 1),
{
    lemma2_to64();
    if j == 0 {
        assert(sixteenth_power(1073741824) <= 1 * sixteenth_power(0x4000_0000) < sixteenth_power(
            1073741825,
        )) by (nonlinear_arith);
    } else if j == 1 {
        assert(sixteenth_power(1121280435) <= 2 * sixteenth_power(0x4000_0000) < sixteenth_power(
            1121280436,
        )) by (nonlinear_arith);
    } else if j == 2 {
        assert(sixteenth_power(1170923761) <= 4 * sixteenth_power(0x4000_0000) < sixteenth_power(
            1170923762,
        )) by (nonlinear_arith);
    } else if j == 3 {
        assert(sixteenth_power(1222764985) <= 8 * sixteenth_power(0x4000_0000) < sixteenth_power(
            1222764986,
        )) by (nonlinear_arith);
    } else if j == 4 {
        assert(sixteenth_power(1276901416) <= 16 * sixteenth_power(0x4000_0000) < sixteenth_power(
            1276901417,
        )) by (nonlinear_arith);
    } else if j == 5 {
        assert(sixteenth_power(1333434672) <= 32 * sixteenth_power(0x4000_0000) < sixteenth_power(
            1333434673,
        )) by (nonlinear_arith);
    } else if j == 6 {
        assert(sixteenth_power(1392470868) <= 64 * sixteenth_power(0x4000_0000) < sixteenth_power(
            1392470869,
        )) by (nonlinear_arith);
    } else if j == 7 {
        assert(sixteenth_power(1454120821) <= 128 * sixteenth_power(0x4000_0000) < sixteenth_power(
            1454120822,
        )) by (nonlinear_arith);
    } else if j == 8 {
        assert(sixteenth_power(1518500249) <= 256 * sixteenth_power(0x4000_0000) < sixteenth_power(
            1518500250,
        )) by (nonlinear_arith);
    } else if j == 9 {
        assert(sixteenth_power(1585729999) <= 512 * sixteenth_power(0x4000_0000) < sixteenth_power(
            1585730000,
        )) by (nonlinear_arith);
    } else if j == 10 {
        assert(sixteenth_power(1655936264) <= 1024 * sixteenth_power(0x4000_0000) < sixteenth_power(
            1655936265,
        )) by (nonlinear_arith);
    } else if j == 11 {
        assert(sixteenth_power(1729250826) <= 2048 * sixteenth_power(0x4000_0000) < sixteenth_power(
            1729250827,
        )) by (nonlinear_arith);
    } else if j == 12 {
        assert(sixteenth_power(1805811301) <= 4096 * sixteenth_power(0x4000_0000) < sixteenth_power(
            1805811302,
        )) by (nonlinear_arith);
    } else if j == 13 {
        assert(sixteenth_power(1885761398) <= 8192 * sixteenth_power(0x4000_0000) < sixteenth_power(
            1885761399,
        )) by (nonlinear_arith);
    } else if j == 14 {
        assert(sixteenth_power(1969251187) <= 16384 * sixteenth_power(0x4000_0000) < sixteenth_power(
            1969251188,
        )) by (nonlinear_arith);
    } else {
        assert(sixteenth_power(2056437386) <= 32768 * sixteenth_power(0x4000_0000) < sixteenth_power(
            2056437387,
        )) by (nonlinear_arith);
    }
}

/// At each tenth of the duration the share is a power of two exactly: at
/// `n` tenths it is `2^(n - 10)` of `UNIT`.
pub proof fn lemma_octaves_exact(t: int, d: int, n: int)
    requires
        0 <= n < 10,
        0 < d,
        10 * t == n * d,
    ensures
        ramp(t, d) == UNIT as int / (pow2((10 - n) as nat) as int),
{
    lemma2_to64();
    assert(160 * t == (16 * n) * d) by (nonlinear_arith)
        requires
            10 * t == n * d,
    ;
    assert((160 * t) / d == 16 * n && (160 * t) % d == 0) by (nonlinear_arith)
        requires
            160 * t == (16 * n) * d,
            0 < d,
    ;
    assert((16 * n) % 16 == 0 && (16 * n) / 16 == n);
    assert(((knot(16 * n + 1) - knot(16 * n)) * 0) / d == 0) by (nonlinear_arith)
        requires
            0 < d,
    ;
}

/// The way covered never shrinks with time, never overshoots, and has the
/// sign of the whole way.
pub proof fn lemma_travelled_grows(t1: int, t2: int, c: int, d: int)
    requires
        0 <= t1 <= t2,
        0 < d,
    ensures
        c >= 0 ==> 0 <= travelled(t1, c, d) <= travelled(t2, c, d) <= c,
        c <= 0 ==> 0 >= travelled(t1, c, d) >= travelled(t2, c, d) >= c,
{
    let m: int = if c >= 0 { c } else { -c };
    if 0 < t1 < d {
        lemma_ramp_between(t1, d);
        lemma_share(m, ramp(t1, d), UNIT as int, UNIT as int);
    }
    if 0 < t2 < d {
        lemma_ramp_between(t2, d);
        lemma_share(m, ramp(t2, d), UNIT as int, UNIT as int);
    }
    if 0 < t1 && t2 < d {
        lemma_ramp_order(t1, t2, d);
        lemma_share(m, ramp(t1, d), ramp(t2, d), UNIT as int);
    }
}

/// Before its duration is over a segment with somewhere to go has not
/// arrived; and where the way is at least 1024 units long, it has left the
/// start as soon as its clock has moved.
pub proof fn lemma_travelled_strictly_inside(t: int, c: int, d: int)
    requires
        0 <= t < d,
        c != 0,
    ensures
        travelled(t, c, d) != c,
        (t > 0 && (c >= 1024 || c <= -1024)) ==> travelled(t, c, d) != 0,
{
    let m: int = if c >= 0 { c } else { -c };
    if t > 0 {
        lemma_ramp_between(t, d);
        lemma_share_is_short(m, ramp(t, d), UNIT as int);
        if m >= 1024 {
            assert(UNIT <= m * ramp(t, d)) by (nonlinear_arith)
                requires
                    m >= 1024,
                    ramp(t, d) >= 0x10_0000,
                    UNIT == 0x4000_0000,
            ;
            lemma_share(m, ramp(t, d), UNIT as int, UNIT as int);
            lemma_share_is_some(m, ramp(t, d), UNIT as int);
        }
    }
}

fn root(j: u64) -> (r: u64)
    requires
        j < 16,
    ensures
        r == root_table(j as int),
{
    if j == 0 {
        1073741824
    } else if j == 1 {
        1121280435
    } else if j == 2 {
        1170923761
    } else if j == 3 {
        1222764985
    } else if j == 4 {
        1276901416
    } else if j == 5 {
        1333434672
    } else if j == 6 {
        1392470868
    } else if j == 7 {
        1454120821
    } else if j == 8 {
        1518500249
    } else if j == 9 {
        1585729999
    } else if j == 10 {
        1655936264
    } else if j == 11 {
        1729250826
    } else if j == 12 {
        1805811301
    } else if j == 13 {
        1885761398
    } else if j == 14 {
        1969251187
    } else {
        2056437386
    }
}

fn knot_weight(i: u64) -> (r: u64)
    requires
        i <= STEPS,
    ensures
        r == knot(i as int),
{
    let table: u64 = root(i % 16);
    let halvings: u64 = 10 - i / 16;
    proof {
        lemma_u64_shr_is_div(table, halvings);
    }
    table >> halvings
}

/// The share of the way, out of `UNIT`, covered at time `t` of `d`.
pub fn ramp_weight(t: u64, d: u64) -> (r: u64)
    requires
        t < d,
    ensures
        r == ramp(t as int, d as int),
        r < UNIT,
{
    let scaled: u128 = 160 * (t as u128);
    let step: u128 = scaled / (d as u128);
    let rest: u128 = scaled % (d as u128);
    proof {
        lemma_step(t as int, d as int);
        lemma_ramp_between(t as int, d as int);
        lemma_knot_step(step as int);
    }
    let low: u64 = knot_weight(step as u64);
    let high: u64 = knot_weight(step as u64 + 1);
    let rise: u128 = (high - low) as u128;
    proof {
        lemma_share(rise as int, rest as int, d as int, d as int);
        assert(rise * rest <= rise * d) by (nonlinear_arith)
            requires
                0 <= rest <= d,
                0 <= rise,
        ;
        assert(rise * d <= 0x4000_0000 * 0x1_0000_0000_0000_0000) by (nonlinear_arith)
            requires
                0 <= rise <= 0x4000_0000,
                0 <= d <= 0x1_0000_0000_0000_0000,
        ;
    }
    let climb: u128 = (rise * rest) / (d as u128);
    low + climb as u64
}

impl Easing {
    /// Whether the segment has a duration and both its ends are positions.
    pub open spec fn wf(&self) -> bool {
        &&& self.d > 0
        &&& i64::MIN <= self.b + self.c <= i64::MAX
    }

    /// The value of the segment at time `t`.
    pub open spec fn eased_at(&self, t: int) -> int {
        self.b + travelled(t, self.c as int, self.d as int)
    }

    /// The segment from `b` to `b + c` over `d` nanoseconds, read at `t`.
    /// A segment without duration, or whose far end is no position, is
    /// refused.
    pub fn new(t: u64, b: i64, c: i64, d: u64) -> (r: Result<Easing, ConstructionError>)
        ensures
            d == 0 ==> r == Err::<Easing, ConstructionError>(ConstructionError::ZeroDuration),
            d > 0 && !(i64::MIN <= b + c <= i64::MAX) ==> r == Err::<Easing, ConstructionError>(
                ConstructionError::SpanOutOfRange,
            ),
            d > 0 && i64::MIN <= b + c <= i64::MAX ==> r == Ok::<Easing, ConstructionError>(
                (Easing { t, b, c, d }),
            ),
            r matches Ok(s) ==> s.wf(),
    {
        if d == 0 {
            Err(ConstructionError::ZeroDuration)
        } else if b.checked_add(c).is_none() {
            Err(ConstructionError::SpanOutOfRange)
        } else {
            Ok(Easing { t, b, c, d })
        }
    }

    /// Whether the segment is well formed, for callers that filled in the
    /// fields themselves.
    pub fn well_formed(&self) -> (r: bool)
        ensures
            r == self.wf(),
    {
        self.d > 0 && self.b.checked_add(self.c).is_some()
    }

    /// The same segment read at time `t`.
    pub fn at(&self, t: u64) -> (r: Easing)
        ensures
            r == (Easing { t, ..*self }),
    {
        Easing { t, b: self.b, c: self.c, d: self.d }
    }
}

impl Exp for Easing {
    open spec fn ready(&self) -> bool {
        self.wf()
    }

    open spec fn eased(&self) -> int {
        self.eased_at(self.t as int)
    }

    /// The start exactly at `t == 0`, the target exactly from `t == d` on,
    /// and the curve in between.
    fn calc_in(&self) -> (r: i64) {
        if self.t == 0 {
            self.b
        } else if self.t >= self.d {
            self.b + self.c
        } else {
            let weight: u128 = ramp_weight(self.t, self.d) as u128;
            proof {
                lemma_travelled_grows(self.t as int, self.t as int, self.c as int, self.d as int);
            }
            if self.c >= 0 {
                let way: u128 = self.c as u128;
                proof {
                    lemma_share(way as int, weight as int, UNIT as int, UNIT as int);
                    assert(way * weight <= 0x8000_0000_0000_0000 * 0x4000_0000)
                        by (nonlinear_arith)
                        requires
                            0 <= way <= 0x8000_0000_0000_0000,
                            0 <= weight <= 0x4000_0000,
                    ;
                }
                let moved: u128 = (way * weight) / (UNIT as u128);
                (self.b as i128 + moved as i128) as i64
            } else {
                let way: u128 = (-(self.c as i128)) as u128;
                proof {
                    lemma_share(way as int, weight as int, UNIT as int, UNIT as int);
                    assert(way * weight <= 0x8000_0000_0000_0000 * 0x4000_0000)
                        by (nonlinear_arith)
                        requires
                            0 <= way <= 0x8000_0000_0000_0000,
                            0 <= weight <= 0x4000_0000,
                    ;
                }
                let moved: u128 = (way * weight) / (UNIT as u128);
                (self.b as i128 - moved as i128) as i64
            }
        }
    }
}

/// At its start a segment reads its start value exactly, and from the end
/// of its duration on it reads its target exactly.
pub proof fn lemma_boundaries_exact(s: Easing, t: int)
    requires
        s.wf(),
    ensures
        s.eased_at(0) == s.b,
        t >= s.d ==> s.eased_at(t) == s.b + s.c,
{
}

/// As time goes from `t1` to a later `t2` the value never moves back: it
/// stays between the start and the target and is at `t2` at least as far
/// from the start, in the direction of the way, as at `t1`.
pub proof fn lemma_moves_toward_target(s: Easing, t1: int, t2: int)
    requires
        s.wf(),
        0 <= t1 <= t2,
    ensures
        s.c >= 0 ==> s.b <= s.eased_at(t1) <= s.eased_at(t2) <= s.b + s.c,
        s.c <= 0 ==> s.b >= s.eased_at(t1) >= s.eased_at(t2) >= s.b + s.c,
{
    lemma_travelled_grows(t1, t2, s.c as int, s.d as int);
}

/// Between two times at which the value differs at all, it has moved
/// towards the target and not away from it. (Two times may read the same
/// value where the way between them is shorter than one unit.)
pub proof fn lemma_moves_strictly_where_it_moves(s: Easing, t1: int, t2: int)
    requires
        s.wf(),
        0 <= t1 < t2,
        s.eased_at(t1) != s.eased_at(t2),
    ensures
        s.c != 0,
        s.c > 0 ==> s.eased_at(t1) < s.eased_at(t2),
        s.c < 0 ==> s.eased_at(t1) > s.eased_at(t2),
{
    lemma_travelled_grows(t1, t2, s.c as int, s.d as int);
}

/// While its duration is not over, a segment with somewhere to go has not
/// arrived; and one whose way is at least 1024 units long has left its
/// start as soon as its clock has moved.
pub proof fn lemma_strictly_inside(s: Easing, t: int)
    requires
        s.wf(),
        0 <= t < s.d,
        s.c != 0,
    ensures
        s.eased_at(t) != s.b + s.c,
        (t > 0 && (s.c >= 1024 || s.c <= -1024)) ==> s.eased_at(t) != s.b,
{
    lemma_travelled_strictly_inside(t, s.c as int, s.d as int);
}

} // verus!
