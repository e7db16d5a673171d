//! The radius test: is a photograph within a given distance of a station?
//!
//! Positions are compared on a plane. One metre east is taken to be
//! 0.00001141 of a degree of longitude and one metre north 0.00000899 of a
//! degree of latitude, wherever on Earth the station lies. With coordinates in
//! billionths of a degree, a photograph lies `dx / 11410` metres east and
//! `dy / 8990` metres north of a station, where `dx` and `dy` are the
//! differences of their coordinates. It is within a radius of `r` billionths
//! of a metre when
//!
//! ```text
//! (dx / 11410)^2 + (dy / 8990)^2 <= (r / 1000000000)^2
//! ```
//!
//! Multiplied by the square of `1141 * 899 * 100000000000`, both sides are
//! integers, and that is the form in which [`within`] states the test and
//! [`is_within`] decides it, exactly, with no square root and no rounding.

use vstd::prelude::*;
use crate::decimal::Decimal;

verus! {

/// Hundred-millionths of a degree of longitude in one metre.
pub const LONGITUDE_PER_METRE: u64 = 1141;

/// Hundred-millionths of a degree of latitude in one metre.
pub const LATITUDE_PER_METRE: u64 = 899;

/// The distance east from one longitude to another, both in billionths of a
/// degree, in units of which a metre holds `1141 * 899 * 1000000000`.
pub open spec fn east(from: int, to: int) -> int {
    (to - from) * LATITUDE_PER_METRE * 100_000_000
}

/// The distance north from one latitude to another, in the same units.
pub open spec fn north(from: int, to: int) -> int {
    (to - from) * LONGITUDE_PER_METRE * 100_000_000
}

/// A radius of `radius` billionths of a metre, in the same units.
pub open spec fn reach(radius: int) -> int {
    radius * LONGITUDE_PER_METRE * LATITUDE_PER_METRE
}

/// Whether the point at `(longitude, latitude)` lies within `radius` of the
/// centre `(centre_longitude, centre_latitude)`: the squared distance is at
/// most the squared radius. A point at exactly the radius is within it.
pub open spec fn within(
    centre_longitude: int,
    centre_latitude: int,
    longitude: int,
    latitude: int,
    radius: int,
) -> bool {
    let x = east(centre_longitude, longitude);
    let y = north(centre_latitude, latitude);
    let r = reach(radius);
    x * x + y * y <= r * r
}

/// The test in metres, cleared of fractions. With `dx` and `dy` the
/// differences of the coordinates in billionths of a degree and `r` the
/// radius in billionths of a metre, the point is within the radius exactly
/// when `(dx / 11410)^2 + (dy / 8990)^2 <= (r / 1000000000)^2`, both sides
/// multiplied by the square of `11410 * 8990 * 1000000000`.
pub proof fn lemma_within_in_metres(
    centre_longitude: int,
    centre_latitude: int,
    longitude: int,
    latitude: int,
    radius: int,
)
    ensures
        within(centre_longitude, centre_latitude, longitude, latitude, radius) <==> {
            let dx = longitude - centre_longitude;
            let dy = latitude - centre_latitude;
            (dx * dx) * (8990 * 8990) * (1_000_000_000 * 1_000_000_000int) + (dy * dy) * (11410
                * 11410) * (1_000_000_000 * 1_000_000_000int) <= (radius * radius) * (11410 * 11410)
                * (8990 * 8990)
        },
{
    let dx = longitude - centre_longitude;
    let dy = latitude - centre_latitude;
    let x = east(centre_longitude, longitude);
    let y = north(centre_latitude, latitude);
    let r = reach(radius);
    assert(x == dx * 89_900_000_000);
    assert(y == dy * 114_100_000_000);
    assert(r == radius * 1_025_759);
    assert(x * x == (dx * dx) * 8_082_010_000_000_000_000_000) by (nonlinear_arith)
        requires
            x == dx * 89_900_000_000,
    ;
    assert(y * y == (dy * dy) * 13_018_810_000_000_000_000_000) by (nonlinear_arith)
        requires
            y == dy * 114_100_000_000,
    ;
    assert(r * r == (radius * radius) * 1_052_181_526_081) by (nonlinear_arith)
        requires
            r == radius * 1_025_759,
    ;
    assert(8990 * 8990 * (1_000_000_000 * 1_000_000_000int)
        == 8_082_010_000_000_000_000_000int * 10000);
    assert(11410 * 11410 * (1_000_000_000 * 1_000_000_000int)
        == 13_018_810_000_000_000_000_000int * 10000);
    assert((11410 * 11410) * (8990 * 8990) == 1_052_181_526_081int * 10000);
    let a = dx * dx;
    let b = dy * dy;
    let c = radius * radius;
    assert((a * (8990 * 8990)) * (1_000_000_000 * 1_000_000_000int) == (a
        * 8_082_010_000_000_000_000_000) * 10000) by (nonlinear_arith);
    assert((b * (11410 * 11410)) * (1_000_000_000 * 1_000_000_000int) == (b
        * 13_018_810_000_000_000_000_000) * 10000) by (nonlinear_arith);
    assert((c * (11410 * 11410)) * (8990 * 8990) == (c * 1_052_181_526_081) * 10000)
        by (nonlinear_arith);
}

/// Two to the power forty-two, the base of the three-digit numbers below.
spec fn base() -> int {
    0x400_0000_0000
}

/// A natural number in three digits of base 2^42; the digits may be larger
/// than the base.
struct Wide {
    high: u128,
    mid: u128,
    low: u128,
}

impl Wide {
    spec fn value(self) -> int {
        self.high * base() * base() + self.mid * base() + self.low
    }

    spec fn normal(self) -> bool {
        self.mid < base() && self.low < base()
    }
}

/// The square of `x`.
fn square(x: u128) -> (w: Wide)
    requires
        x < 0x8_0000_0000_0000_0000_0000,
    ensures
        w.value() == x * x,
        w.high < 0x4_0000_0000_0000_0000_0000,
        w.mid < 0x10_0000_0000_0000_0000_0000,
        w.low < 0x10_0000_0000_0000_0000_0000,
{
    let h: u128 = x / 0x400_0000_0000;
    let l: u128 = x % 0x400_0000_0000;
    assert(h < 0x200_0000_0000);
    assert(l < 0x400_0000_0000);
    assert(h * h < 0x4_0000_0000_0000_0000_0000) by (nonlinear_arith)
        requires
            h < 0x200_0000_0000,
    ;
    assert(h * l < 0x8_0000_0000_0000_0000_0000) by (nonlinear_arith)
        requires
            h < 0x200_0000_0000,
            l < 0x400_0000_0000,
    ;
    assert(l * l < 0x10_0000_0000_0000_0000_0000) by (nonlinear_arith)
        requires
            l < 0x400_0000_0000,
    ;
    let w = Wide { high: h * h, mid: 2 * (h * l), low: l * l };
    assert(w.value() == x * x) by (nonlinear_arith)
        requires
            x == h * 0x400_0000_0000 + l,
            w.high == h * h,
            w.mid == 2 * (h * l),
            w.low == l * l,
            w.value() == w.high * 0x400_0000_0000 * 0x400_0000_0000 + w.mid * 0x400_0000_0000
                + w.low,
    ;
    w
}

/// The same number with its two lower digits below the base.
fn normalized(w: Wide) -> (n: Wide)
    requires
        w.high < 0x8_0000_0000_0000_0000_0000,
        w.mid < 0x20_0000_0000_0000_0000_0000,
        w.low < 0x20_0000_0000_0000_0000_0000,
    ensures
        n.value() == w.value(),
        n.normal(),
{
    let low: u128 = w.low % 0x400_0000_0000;
    let carry: u128 = w.low / 0x400_0000_0000;
    let middle: u128 = w.mid + carry;
    let mid: u128 = middle % 0x400_0000_0000;
    let high: u128 = w.high + middle / 0x400_0000_0000;
    Wide { high, mid, low }
}

/// Whether `s` is at most `t`.
fn at_most(s: &Wide, t: &Wide) -> (b: bool)
    requires
        s.normal(),
        t.normal(),
    ensures
        b == (s.value() <= t.value()),
{
    if s.high != t.high {
        assert(s.high < t.high ==> s.value() < t.value()) by (nonlinear_arith)
            requires
                s.normal(),
                t.normal(),
                s.value() == s.high * base() * base() + s.mid * base() + s.low,
                t.value() == t.high * base() * base() + t.mid * base() + t.low,
                base() == 0x400_0000_0000,
        ;
        assert(s.high > t.high ==> s.value() > t.value()) by (nonlinear_arith)
            requires
                s.normal(),
                t.normal(),
                s.value() == s.high * base() * base() + s.mid * base() + s.low,
                t.value() == t.high * base() * base() + t.mid * base() + t.low,
                base() == 0x400_0000_0000,
        ;
        s.high < t.high
    } else if s.mid != t.mid {
        s.mid < t.mid
    } else {
        s.low <= t.low
    }
}

/// The distance between two values, as a natural number.
fn distance(a: i64, b: i64) -> (d: u128)
    ensures
        d == if a <= b {
            b - a
        } else {
            a - b
        },
{
    if a <= b {
        (b as i128 - a as i128) as u128
    } else {
        (a as i128 - b as i128) as u128
    }
}

/// Decides [`within`] for a centre, a point and a radius given as decimals:
/// coordinates in degrees, the radius in metres. A negative radius reaches as
/// far as the positive one.
pub fn is_within(
    centre_longitude: Decimal,
    centre_latitude: Decimal,
    longitude: Decimal,
    latitude: Decimal,
    radius: Decimal,
) -> (inside: bool)
    ensures
        inside == within(
            centre_longitude.nanos as int,
            centre_latitude.nanos as int,
            longitude.nanos as int,
            latitude.nanos as int,
            radius.nanos as int,
        ),
{
    let ghost x = east(centre_longitude.nanos as int, longitude.nanos as int);
    let ghost y = north(centre_latitude.nanos as int, latitude.nanos as int);
    let ghost r = reach(radius.nanos as int);
    let a: u128 = distance(centre_longitude.nanos, longitude.nanos) * 89_900_000_000;
    let b: u128 = distance(centre_latitude.nanos, latitude.nanos) * 114_100_000_000;
    let c: u128 = distance(0, radius.nanos) * 1_025_759;
    assert(a == x || a == -x);
    assert(b == y || b == -y);
    assert(c == r || c == -r);
    assert(a * a == x * x && b * b == y * y && c * c == r * r) by (nonlinear_arith)
        requires
            a == x || a == -x,
            b == y || b == -y,
            c == r || c == -r,
    ;
    if a > c || b > c {
        assert(a * a + b * b > c * c) by (nonlinear_arith)
            requires
                a > c || b > c,
                a >= 0,
                b >= 0,
                c >= 0,
        ;
        return false;
    }
    let sa = square(a);
    let sb = square(b);
    let sc = square(c);
    let sum = Wide { high: sa.high + sb.high, mid: sa.mid + sb.mid, low: sa.low + sb.low };
    assert(sum.value() == sa.value() + sb.value()) by (nonlinear_arith)
        requires
            sum.high == sa.high + sb.high,
            sum.mid == sa.mid + sb.mid,
            sum.low == sa.low + sb.low,
            sum.value() == sum.high * base() * base() + sum.mid * base() + sum.low,
            sa.value() == sa.high * base() * base() + sa.mid * base() + sa.low,
            sb.value() == sb.high * base() * base() + sb.mid * base() + sb.low,
    ;
    let left = normalized(sum);
    let right = normalized(sc);
    at_most(&left, &right)
}

} // verus!
