//! Food sources, the tick counter and the seasonal growing band.
//!
//! Season membership compares exact rational positions by cross-multiplying:
//! with year length `Y`, season fraction `s` permille and planet height `H`,
//! the band start at tick `t` is `(t mod Y)/Y` of the planet and the end is
//! that start plus `s/1000`, taken modulo one whole planet.  All fractions
//! are put over the common denominator `1000*Y`.

use vstd::prelude::*;
use vstd::arithmetic::div_mod::{
    lemma_fundamental_div_mod, lemma_fundamental_div_mod_converse_mod, lemma_mod_self_0,
    lemma_small_mod, lemma_add_mod_noop_right, lemma_mod_multiples_vanish,
    lemma_hoist_over_denominator, lemma_div_is_ordered, lemma_sub_mod_noop,
};
use vstd::arithmetic::mul::lemma_mul_inequality;

verus! {

/// The two kinds of food in the world.
#[derive(Copy, Clone, Debug, PartialEq, Eq, Structural)]
pub enum FoodType {
    Apple,
    Orange,
}

/// Marks a stationary producer of one food type.
#[derive(Copy, Clone, Debug, PartialEq, Eq, Structural)]
pub struct FoodSource(pub FoodType);

/// A stock of food, held by an agent or by a food source.
#[derive(Copy, Clone, Debug, PartialEq, Eq, Structural)]
pub struct FoodAmount {
    pub apples: u32,
    pub oranges: u32,
}

/// The monotonic tick counter: increases by exactly 1 per tick, never resets.
#[derive(Copy, Clone, Debug, PartialEq, Eq, Structural)]
pub struct TotalTicks(pub u32);

/// Start of the growing band at tick `t`, as a fraction of the planet scaled
/// by the common denominator `1000*y`.
pub open spec fn season_start_scaled(t: int, y: int) -> int {
    1000 * (t % y)
}

/// End of the growing band at tick `t`: the start advanced by `s` permille of
/// the planet, wrapped at one whole planet (denominator `1000*y`).
pub open spec fn season_end_scaled(t: int, y: int, s: int) -> int {
    (1000 * (t % y) + y * s) % (1000 * y)
}

/// Whether row `r` of a planet of height `h` lies in the growing band at tick
/// `t`.  Row position `r/h` is compared against the band `[start, end)`,
/// where the band wraps around the planet seam when `end <= start`.
pub open spec fn in_growing_season_spec(t: int, h: int, r: int, y: int, s: int) -> bool {
    let d = 1000 * y;
    let a = season_start_scaled(t, y);
    let e = season_end_scaled(t, y, s);
    if a < e {
        a * h <= r * d && r * d < e * h
    } else {
        r * d >= a * h || r * d < e * h
    }
}

/// Decides whether the row `food_location` is currently within the growing
/// band.  Mirrors `in_growing_season_spec` exactly, in 128-bit arithmetic.
pub fn is_in_growing_season(
    time: &TotalTicks,
    planet_height: u32,
    food_location: u32,
    year_length: u32,
    growing_season_length: u32,
) -> (res: bool)
    requires
        planet_height >= 1,
        year_length >= 1,
        food_location < planet_height,
        growing_season_length <= 1000,
    ensures
        res == in_growing_season_spec(
            time.0 as int,
            planet_height as int,
            food_location as int,
            year_length as int,
            growing_season_length as int,
        ),
{
    let t: u128 = time.0 as u128;
    let y: u128 = year_length as u128;
    let h: u128 = planet_height as u128;
    let r: u128 = food_location as u128;
    let s: u128 = growing_season_length as u128;
    let d: u128 = 1000 * y;
    let m: u128 = t % y;
    proof {
        lemma_fundamental_div_mod(t as int, y as int);
        assert(y * s <= 0x100000000000u128) by (nonlinear_arith)
            requires y < 0x100000000u128 && s <= 1000;
    }
    let a: u128 = 1000 * m;
    let e: u128 = (1000 * m + y * s) % d;
    proof {
        lemma_fundamental_div_mod((1000 * m + y * s) as int, d as int);
        assert(a * h < 0x100000000000000000000u128) by (nonlinear_arith)
            requires a < 0x100000000000u128 && h < 0x100000000u128;
        assert(e * h < 0x100000000000000000000u128) by (nonlinear_arith)
            requires e < 0x100000000000u128 && h < 0x100000000u128;
        assert(r * d < 0x100000000000000000000u128) by (nonlinear_arith)
            requires r < 0x100000000u128 && d < 0x100000000000u128;
    }
    if a < e {
        a * h <= r * d && r * d < e * h
    } else {
        r * d >= a * h || r * d < e * h
    }
}

/// How many rows of a planet of height `h` are in the growing band at tick
/// `t`, among the rows below `n`.
pub open spec fn rows_in_season(t: int, h: int, y: int, s: int, n: int) -> int
    decreases n,
{
    if n <= 0 {
        0
    } else {
        rows_in_season(t, h, y, s, n - 1) + if in_growing_season_spec(t, h, n - 1, y, s) {
            1int
        } else {
            0int
        }
    }
}

/// Smallest integer at least `x / d`.
pub open spec fn ceil_div(x: int, d: int) -> int {
    (x + d - 1) / d
}

/// Characterizes `ceil_div` for a nonnegative numerator.
proof fn lemma_ceil_div(x: int, d: int)
    requires
        d > 0,
        x >= 0,
    ensures
        ceil_div(x, d) * d >= x,
        (ceil_div(x, d) - 1) * d < x,
        ceil_div(x, d) >= 0,
        x <= d * ceil_div(x, d),
{
    let q = (x + d - 1) / d;
    lemma_fundamental_div_mod(x + d - 1, d);
    assert(q * d == d * q) by (nonlinear_arith);
    assert((q - 1) * d == d * q - d) by (nonlinear_arith);
    if q < 0 {
        assert(d * q <= -d) by (nonlinear_arith)
            requires d > 0 && q <= -1;
    }
}

/// An integer point `r` clears the rational bound `x/d` exactly when it
/// clears the integer ceiling of that bound.
proof fn lemma_point_vs_ceil(r: int, x: int, d: int)
    requires
        d > 0,
        x >= 0,
    ensures
        (r * d >= x) <==> (r >= ceil_div(x, d)),
{
    let q = ceil_div(x, d);
    lemma_ceil_div(x, d);
    if r >= q {
        lemma_mul_inequality(q, r, d);
    }
    if r <= q - 1 {
        lemma_mul_inequality(r, q - 1, d);
    }
}

/// `ceil_div` is monotone in the numerator.
proof fn lemma_ceil_div_ordered(x1: int, x2: int, d: int)
    requires
        d > 0,
        x1 <= x2,
    ensures
        ceil_div(x1, d) <= ceil_div(x2, d),
{
    lemma_div_is_ordered(x1 + d - 1, x2 + d - 1, d);
}

/// Adding whole multiples of the denominator shifts `ceil_div` exactly.
proof fn lemma_ceil_div_shift(x: int, j: int, d: int)
    requires
        d > 0,
    ensures
        ceil_div(x + j * d, d) == ceil_div(x, d) + j,
{
    lemma_hoist_over_denominator(x + d - 1, j, d as nat);
}

/// Closed form for counting an interval `[lo, hi)` among the rows `0..n`.
proof fn lemma_count_interval(t: int, h: int, y: int, s: int, n: int, lo: int, hi: int)
    requires
        0 <= lo <= hi,
        0 <= n,
        forall|r: int|
            0 <= r < n ==> (in_growing_season_spec(t, h, r, y, s) <==> (lo <= r < hi)),
    ensures
        rows_in_season(t, h, y, s, n) == if n <= lo {
            0int
        } else if n <= hi {
            n - lo
        } else {
            hi - lo
        },
    decreases n,
{
    if n > 0 {
        lemma_count_interval(t, h, y, s, n - 1, lo, hi);
    }
}

/// Closed form for counting a wrapped band (`r >= lo` or `r < hi`) among the
/// rows `0..n`.
proof fn lemma_count_wrapped(t: int, h: int, y: int, s: int, n: int, lo: int, hi: int)
    requires
        0 <= hi <= lo,
        0 <= n,
        forall|r: int|
            0 <= r < n ==> (in_growing_season_spec(t, h, r, y, s) <==> (r >= lo || r < hi)),
    ensures
        rows_in_season(t, h, y, s, n) == if n <= hi {
            n
        } else if n <= lo {
            hi
        } else {
            hi + (n - lo)
        },
    decreases n,
{
    if n > 0 {
        lemma_count_wrapped(t, h, y, s, n - 1, lo, hi);
    }
}

/// When the planet height spreads the season fraction over a whole number of
/// rows (`h*s` divisible by 1000), exactly `h*s/1000` rows are in season, at
/// every tick.
pub proof fn lemma_rows_in_season_count(t: int, h: int, y: int, s: int)
    requires
        t >= 0,
        h >= 1,
        y >= 1,
        1 <= s <= 1000,
        (h * s) % 1000 == 0,
    ensures
        rows_in_season(t, h, y, s, h) == (h * s) / 1000,
{
    let d = 1000 * y;
    let m = t % y;
    let a = season_start_scaled(t, y);
    let e = season_end_scaled(t, y, s);
    let k = (h * s) / 1000;

    lemma_fundamental_div_mod(t as int, y as int);
    assert(0 <= m < y);
    assert(a == 1000 * m);
    assert(a < d) by (nonlinear_arith)
        requires a == 1000 * m && 0 <= m < y && d == 1000 * y;

    // h*s == 1000*k, hence (y*s)*h == k*d.
    lemma_fundamental_div_mod(h * s, 1000);
    assert(h * s == 1000 * k);
    assert(0 <= y * s <= d) by (nonlinear_arith)
        requires y >= 1 && 0 <= s <= 1000 && d == 1000 * y;
    assert((y * s) * h == k * d) by (nonlinear_arith)
        requires h * s == 1000 * k && d == 1000 * y;
    assert(0 <= k <= h) by (nonlinear_arith)
        requires h * s == 1000 * k && h >= 1 && 0 <= s <= 1000;

    let lo = ceil_div(a * h, d);
    lemma_ceil_div(a * h, d);
    assert(a * h >= 0) by (nonlinear_arith)
        requires a >= 0 && h >= 1;
    assert(a * h < d * h) by (nonlinear_arith)
        requires 0 <= a < d && h >= 1;
    // lo <= h because (h)*d >= a*h.
    assert(h * d >= a * h) by (nonlinear_arith)
        requires 0 <= a < d && h >= 1;
    lemma_point_vs_ceil(h, a * h, d);
    assert(lo <= h);
    lemma_point_vs_ceil(0, a * h, d);

    if a + y * s < d {
        // No wraparound of the band end.
        lemma_small_mod((a + y * s) as nat, d as nat);
        assert(e == a + y * s);
        let hi = ceil_div(e * h, d);
        assert(e * h == a * h + (y * s) * h) by (nonlinear_arith)
            requires e == a + y * s;
        assert(e * h == a * h + k * d);
        lemma_ceil_div_shift(a * h, k, d);
        assert(hi == lo + k);
        if s < 1000 {
            assert(a < e) by (nonlinear_arith)
                requires e == a + y * s && y >= 1 && s >= 1;
            assert forall|r: int| 0 <= r < h implies (in_growing_season_spec(t, h, r, y, s)
                <==> (lo <= r < hi)) by {
                lemma_point_vs_ceil(r, a * h, d);
                lemma_point_vs_ceil(r, e * h, d);
                assert(e * h >= 0) by (nonlinear_arith)
                    requires e >= 0 && h >= 1;
            }
            assert(e <= d) by (nonlinear_arith)
                requires e == a + y * s && a + y * s < d;
            assert(e * h <= d * h) by (nonlinear_arith)
                requires 0 <= e <= d && h >= 1;
            lemma_point_vs_ceil(h, e * h, d);
            assert(hi <= h);
            lemma_count_interval(t, h, y, s, h, lo, hi);
        } else {
            // s == 1000 and a + y*s < d is impossible: y*s == d.
            assert(y * s == d) by (nonlinear_arith)
                requires s == 1000 && d == 1000 * y;
            assert(false);
        }
    } else {
        // The band end wraps around the planet seam.
        assert(a + y * s - d < d);
        assert(a + y * s - d >= 0);
        lemma_mod_multiples_vanish(1, a + y * s - d, d);
        lemma_small_mod((a + y * s - d) as nat, d as nat);
        assert(e == a + y * s - d);
        let hi = ceil_div(e * h, d);
        assert(e * h == a * h + (y * s) * h - d * h) by (nonlinear_arith)
            requires e == a + y * s - d;
        assert(e * h == a * h + (k - h) * d) by (nonlinear_arith)
            requires e * h == a * h + k * d - d * h;
        lemma_ceil_div_shift(a * h, k - h, d);
        assert(hi == lo + k - h);
        assert(e <= a) by (nonlinear_arith)
            requires e == a + y * s - d && y * s <= d;
        assert(e * h <= a * h) by (nonlinear_arith)
            requires 0 <= e <= a && h >= 1;
        lemma_ceil_div_ordered(e * h, a * h, d);
        assert(hi <= lo);
        assert(e * h >= 0) by (nonlinear_arith)
            requires e >= 0 && h >= 1;
        lemma_point_vs_ceil(0, e * h, d);
        assert(hi >= 0);
        assert forall|r: int| 0 <= r < h implies (in_growing_season_spec(t, h, r, y, s)
            <==> (r >= lo || r < hi)) by {
            lemma_point_vs_ceil(r, a * h, d);
            lemma_point_vs_ceil(r, e * h, d);
            if a < e {
                assert(a * h < e * h) by (nonlinear_arith)
                    requires 0 <= a < e && h >= 1;
            }
        }
        lemma_count_wrapped(t, h, y, s, h, lo, hi);
    }
}

/// Wrapped-interval membership `p in [a, e)` (full circle when `a == e`),
/// rewritten relative to the interval start.
proof fn lemma_wrapped_member_normal(p: int, a: int, e: int, d: int)
    requires
        0 < d,
        0 <= p < d,
        0 <= a < d,
        0 <= e < d,
    ensures
        (if a < e {
            a <= p && p < e
        } else {
            p >= a || p < e
        }) <==> ((p - a) % d < (e - a) % d || a == e),
{
    if p >= a {
        lemma_small_mod((p - a) as nat, d as nat);
    } else {
        lemma_fundamental_div_mod_converse_mod(p - a, d, -1, p - a + d);
    }
    if e >= a {
        lemma_small_mod((e - a) as nat, d as nat);
    } else {
        lemma_fundamental_div_mod_converse_mod(e - a, d, -1, e - a + d);
    }
}

/// With one row per tick (year length equal to planet height), the growing
/// band rotates by exactly one row per tick: a row's membership at the next
/// tick equals its predecessor row's membership now, so no row re-enters
/// the season out of order.
pub proof fn lemma_season_rotates_one_row(t: int, h: int, s: int, r: int)
    requires
        t >= 0,
        h >= 1,
        0 <= s <= 1000,
        0 <= r < h,
    ensures
        in_growing_season_spec(t + 1, h, (r + 1) % h, h, s) == in_growing_season_spec(
            t,
            h,
            r,
            h,
            s,
        ),
{
    let d = 1000 * h;
    let a = season_start_scaled(t, h);
    let e = season_end_scaled(t, h, s);
    lemma_season_band_advances(t, h, s);
    let a2 = season_start_scaled(t + 1, h);
    let e2 = season_end_scaled(t + 1, h, s);
    assert(a2 == (a + 1000) % d);
    assert(e2 == (e + 1000) % d);

    lemma_fundamental_div_mod(t, h);
    assert(0 <= a < d) by (nonlinear_arith)
        requires a == 1000 * (t % h) && 0 <= t % h < h && d == 1000 * h;
    lemma_fundamental_div_mod(1000 * (t % h) + h * s, d);
    assert(0 <= e < d);
    lemma_fundamental_div_mod(a + 1000, d);
    assert(0 <= a2 < d);
    lemma_fundamental_div_mod(e + 1000, d);
    assert(0 <= e2 < d);

    let p = 1000 * r;
    let r2 = (r + 1) % h;
    if r + 1 < h {
        lemma_small_mod((r + 1) as nat, h as nat);
    } else {
        lemma_mod_self_0(h);
    }
    let p2 = 1000 * r2;
    assert(0 <= p < d && 0 <= p2 < d) by (nonlinear_arith)
        requires
            p == 1000 * r && p2 == 1000 * r2 && 0 <= r < h && 0 <= r2 < h && d == 1000 * h,
    ;
    // The successor row's scaled position is the position advanced by one
    // tick's worth, wrapped.
    if r + 1 < h {
        assert(p + 1000 == 1000 * (r + 1)) by (nonlinear_arith)
            requires p == 1000 * r;
        lemma_small_mod((p + 1000) as nat, d as nat);
        assert(p2 == (p + 1000) % d);
    } else {
        assert(p + 1000 == d) by (nonlinear_arith)
            requires p == 1000 * r && r + 1 == h && d == 1000 * h;
        lemma_mod_self_0(d);
        assert(p2 == (p + 1000) % d);
    }

    // Membership compares positions and boundaries over the denominator
    // 1000*h; cancelling the common factor h reduces it to `p in [a, e)`.
    assert((a * h <= r * (1000 * h)) <==> (a <= 1000 * r)) by (nonlinear_arith)
        requires h >= 1;
    assert((r * (1000 * h) < e * h) <==> (1000 * r < e)) by (nonlinear_arith)
        requires h >= 1;
    assert((a2 * h <= r2 * (1000 * h)) <==> (a2 <= 1000 * r2)) by (nonlinear_arith)
        requires h >= 1;
    assert((r2 * (1000 * h) < e2 * h) <==> (1000 * r2 < e2)) by (nonlinear_arith)
        requires h >= 1;
    assert((r * (1000 * h) >= a * h) <==> (1000 * r >= a)) by (nonlinear_arith)
        requires h >= 1;
    assert((r2 * (1000 * h) >= a2 * h) <==> (1000 * r2 >= a2)) by (nonlinear_arith)
        requires h >= 1;
    assert(in_growing_season_spec(t, h, r, h, s) == (if a < e {
        a <= p && p < e
    } else {
        p >= a || p < e
    }));
    assert(in_growing_season_spec(t + 1, h, r2, h, s) == (if a2 < e2 {
        a2 <= p2 && p2 < e2
    } else {
        p2 >= a2 || p2 < e2
    }));

    lemma_wrapped_member_normal(p, a, e, d);
    lemma_wrapped_member_normal(p2, a2, e2, d);
    // Shifting position and both boundaries by the same amount changes
    // neither relative offset.
    lemma_sub_mod_noop(p + 1000, a + 1000, d);
    lemma_small_mod(p as nat, d as nat);
    lemma_small_mod(a as nat, d as nat);
    lemma_small_mod(e as nat, d as nat);
    assert((p2 - a2) % d == (p - a) % d);
    lemma_sub_mod_noop(e + 1000, a + 1000, d);
    assert((e2 - a2) % d == (e - a) % d);
    // The full-circle case is also shift-invariant.
    assert(a == e ==> a2 == e2);
    if a2 == e2 && a != e {
        if a + 1000 < d && e + 1000 < d {
            lemma_small_mod((a + 1000) as nat, d as nat);
            lemma_small_mod((e + 1000) as nat, d as nat);
            assert(false);
        } else if a + 1000 >= d && e + 1000 >= d {
            lemma_mod_multiples_vanish(-1, a + 1000, d);
            lemma_mod_multiples_vanish(-1, e + 1000, d);
            lemma_small_mod((a + 1000 - d) as nat, d as nat);
            lemma_small_mod((e + 1000 - d) as nat, d as nat);
            assert(false);
        } else if a + 1000 < d {
            lemma_small_mod((a + 1000) as nat, d as nat);
            lemma_mod_multiples_vanish(-1, e + 1000, d);
            lemma_small_mod((e + 1000 - d) as nat, d as nat);
            assert(false);
        } else {
            lemma_mod_multiples_vanish(-1, a + 1000, d);
            lemma_small_mod((a + 1000 - d) as nat, d as nat);
            lemma_small_mod((e + 1000) as nat, d as nat);
            assert(false);
        }
    }
}

/// Advancing the tick counter by 1 advances both band boundaries by exactly
/// one tick's worth — `1/y` of the planet, i.e. 1000 scaled units — modulo
/// one whole planet.
pub proof fn lemma_season_band_advances(t: int, y: int, s: int)
    requires
        t >= 0,
        y >= 1,
        0 <= s <= 1000,
    ensures
        season_start_scaled(t + 1, y) == (season_start_scaled(t, y) + 1000) % (1000 * y),
        season_end_scaled(t + 1, y, s) == (season_end_scaled(t, y, s) + 1000) % (1000 * y),
{
    let d = 1000 * y;
    let m = t % y;
    lemma_fundamental_div_mod(t as int, y as int);
    let q = t / y;
    assert(0 <= m < y);
    if m + 1 < y {
        assert(t + 1 == q * y + (m + 1)) by (nonlinear_arith)
            requires t == y * q + m;
        lemma_fundamental_div_mod_converse_mod(t + 1, y, q, m + 1);
        assert((t + 1) % y == m + 1);
        assert(1000 * (m + 1) < d) by (nonlinear_arith)
            requires m + 1 < y && d == 1000 * y;
        lemma_small_mod((1000 * (m + 1)) as nat, d as nat);
        assert(season_start_scaled(t + 1, y) == 1000 * m + 1000);
        // End boundary: both sides reduce to (1000*m + y*s + 1000) % d.
        lemma_add_mod_noop_right(1000, 1000 * m + y * s, d);
        assert(1000 * (m + 1) + y * s == 1000 * m + y * s + 1000) by (nonlinear_arith);
    } else {
        assert(m + 1 == y);
        assert(t + 1 == (q + 1) * y + 0) by (nonlinear_arith)
            requires t == y * q + m && m + 1 == y;
        lemma_fundamental_div_mod_converse_mod(t + 1, y, q + 1, 0);
        assert((t + 1) % y == 0);
        assert(1000 * m + 1000 == d) by (nonlinear_arith)
            requires m + 1 == y && d == 1000 * y;
        lemma_mod_self_0(d);
        assert(season_start_scaled(t + 1, y) == 0);
        // End boundary: the old start plus 1000 is exactly one whole planet.
        lemma_add_mod_noop_right(1000, 1000 * m + y * s, d);
        lemma_mod_multiples_vanish(1, y * s, d);
        assert(1000 * m + y * s + 1000 == y * s + d) by (nonlinear_arith)
            requires 1000 * m + 1000 == d;
        assert(1000 * ((t + 1) % y) + y * s == y * s);
    }
}

} // verus!

use crate::config::Config;
use crate::rng::random_below;
use crate::world::{FoodSite, World};

verus! {

/// The stock a source holds of its own food type.
pub open spec fn source_stock(s: FoodSite) -> u32 {
    match s.source.0 {
        FoodType::Apple => s.amount.apples,
        FoodType::Orange => s.amount.oranges,
    }
}

/// Whether a source may grow this tick: stock below the cap of 3 and its row
/// inside the growing band.
pub open spec fn can_grow_spec(s: FoodSite, config: Config, t: u32) -> bool {
    &&& source_stock(s) < 3
    &&& in_growing_season_spec(
        t as int,
        config.map.size_y.value as int,
        s.pos.to_real_spec(config).y as int,
        config.game.year_length.value as int,
        config.game.growing_season_length.value as int,
    )
}

/// The source with one more unit of its own type.
pub open spec fn grown_spec(s: FoodSite) -> FoodSite {
    match s.source.0 {
        FoodType::Apple => FoodSite {
            amount: FoodAmount { apples: (s.amount.apples + 1) as u32, oranges: s.amount.oranges },
            ..s
        },
        FoodType::Orange => FoodSite {
            amount: FoodAmount { apples: s.amount.apples, oranges: (s.amount.oranges + 1) as u32 },
            ..s
        },
    }
}

/// The clock phase as a relation between the world before and after:
/// exactly `time_system`'s contract.
pub open spec fn time_system_rel(a: World, b: World) -> bool {
    &&& a.time.0 < u32::MAX
    &&& b.wf()
    &&& b.time.0 == a.time.0 + 1
    &&& b.config == a.config
    &&& b.next_id == a.next_id
    &&& b.people == a.people
    &&& b.person_lookup == a.person_lookup
    &&& b.food_sites == a.food_sites
    &&& b.food_lookup == a.food_lookup
    &&& b.interactions == a.interactions
    &&& b.stats == a.stats
}

/// The growth phase as a relation: exactly `food_growth`'s contract.
pub open spec fn food_growth_rel(a: World, b: World) -> bool {
    &&& b.wf()
    &&& b.config == a.config
    &&& b.time == a.time
    &&& b.next_id == a.next_id
    &&& b.people == a.people
    &&& b.person_lookup == a.person_lookup
    &&& b.food_lookup == a.food_lookup
    &&& b.interactions == a.interactions
    &&& b.stats == a.stats
    &&& b.food_sites@.len() == a.food_sites@.len()
    &&& forall|i: int|
        0 <= i < a.food_sites@.len() ==> {
            let s0 = #[trigger] a.food_sites@[i];
            let s1 = b.food_sites@[i];
            &&& (s1 == s0 || (can_grow_spec(s0, a.config, a.time.0) && s1 == grown_spec(s0)))
            &&& (a.config.game.growth.value >= 1000 && can_grow_spec(s0, a.config, a.time.0)
                ==> s1 == grown_spec(s0))
            &&& (a.config.game.growth.value == 0 ==> s1 == s0)
        }
}

/// Advances the tick counter by exactly 1.
pub fn time_system(world: &mut World)
    requires
        old(world).wf(),
        old(world).time.0 < u32::MAX,
    ensures
        final(world).wf(),
        final(world).time.0 == old(world).time.0 + 1,
        final(world).config == old(world).config,
        final(world).next_id == old(world).next_id,
        final(world).people == old(world).people,
        final(world).person_lookup == old(world).person_lookup,
        final(world).food_sites == old(world).food_sites,
        final(world).food_lookup == old(world).food_lookup,
        final(world).interactions == old(world).interactions,
        final(world).stats == old(world).stats,
        time_system_rel(*old(world), *final(world)),
{
    world.time.0 = world.time.0 + 1;
}

/// Rolls growth for every food source: with the configured permille
/// probability, an in-season source below the stock cap gains one unit of
/// its type.  Each source draws independently; a certain probability (1000)
/// always grows an eligible source, probability 0 never does.
pub fn food_growth(world: &mut World)
    requires
        old(world).wf(),
    ensures
        final(world).wf(),
        final(world).config == old(world).config,
        final(world).time == old(world).time,
        final(world).next_id == old(world).next_id,
        final(world).people == old(world).people,
        final(world).person_lookup == old(world).person_lookup,
        final(world).food_lookup == old(world).food_lookup,
        final(world).interactions == old(world).interactions,
        final(world).stats == old(world).stats,
        final(world).food_sites@.len() == old(world).food_sites@.len(),
        forall|i: int|
            0 <= i < old(world).food_sites@.len() ==> {
                let s0 = #[trigger] old(world).food_sites@[i];
                let s1 = final(world).food_sites@[i];
                &&& (s1 == s0 || (can_grow_spec(s0, old(world).config, old(world).time.0) && s1
                    == grown_spec(s0)))
                &&& (old(world).config.game.growth.value >= 1000 && can_grow_spec(
                    s0,
                    old(world).config,
                    old(world).time.0,
                ) ==> s1 == grown_spec(s0))
                &&& (old(world).config.game.growth.value == 0 ==> s1 == s0)
            },
        food_growth_rel(*old(world), *final(world)),
{
    let n: usize = world.food_sites.len();
    let mut i: usize = 0;
    while i < n
        invariant
            old(world).wf(),
            world.config == old(world).config,
            world.time == old(world).time,
            world.next_id == old(world).next_id,
            world.people == old(world).people,
            world.person_lookup == old(world).person_lookup,
            world.food_lookup == old(world).food_lookup,
            world.interactions == old(world).interactions,
            world.stats == old(world).stats,
            n == world.food_sites@.len(),
            old(world).food_sites@.len() == n,
            0 <= i <= n,
            forall|j: int|
                0 <= j < i ==> {
                    let s0 = #[trigger] old(world).food_sites@[j];
                    let s1 = world.food_sites@[j];
                    &&& (s1 == s0 || (can_grow_spec(s0, old(world).config, old(world).time.0) && s1
                        == grown_spec(s0)))
                    &&& (old(world).config.game.growth.value >= 1000 && can_grow_spec(
                        s0,
                        old(world).config,
                        old(world).time.0,
                    ) ==> s1 == grown_spec(s0))
                    &&& (old(world).config.game.growth.value == 0 ==> s1 == s0)
                },
            forall|j: int| i <= j < n ==> world.food_sites@[j] == #[trigger] old(world).food_sites@[j],
        decreases n - i,
    {
        let draw: u32 = random_below(1000);
        let stock: u32 = match world.food_sites[i].source.0 {
            FoodType::Apple => world.food_sites[i].amount.apples,
            FoodType::Orange => world.food_sites[i].amount.oranges,
        };
        let row: u32 = world.food_sites[i].pos.to_real(&world.config).y;
        if draw < world.config.game.growth.value && stock < 3 && is_in_growing_season(
            &world.time,
            world.config.map.size_y.value,
            row,
            world.config.game.year_length.value,
            world.config.game.growing_season_length.value,
        ) {
            match world.food_sites[i].source.0 {
                FoodType::Apple => {
                    let a: u32 = world.food_sites[i].amount.apples;
                    world.food_sites[i].amount.apples = a + 1;
                },
                FoodType::Orange => {
                    let o: u32 = world.food_sites[i].amount.oranges;
                    world.food_sites[i].amount.oranges = o + 1;
                },
            }
            proof {
                assert(world.food_sites@[i as int] == grown_spec(old(world).food_sites@[i as int]));
            }
        }
        i = i + 1;
    }
    proof {
        assert forall|j: int| 0 <= j < world.food_sites@.len() implies (
        #[trigger] world.food_sites@[j]).wf(world.config) by {
            let s0 = old(world).food_sites@[j];
            assert(s0.wf(world.config));
            assert(world.food_sites@[j] == s0 || (can_grow_spec(s0, old(world).config, old(world).time.0)
                && world.food_sites@[j] == grown_spec(s0)));
        }
        assert forall|i2: int, j2: int| 0 <= i2 < j2 < world.food_sites@.len() implies (
        #[trigger] world.food_sites@[i2]).id != (#[trigger] world.food_sites@[j2]).id by {
            assert(world.food_sites@[i2].id == old(world).food_sites@[i2].id);
            assert(world.food_sites@[j2].id == old(world).food_sites@[j2].id);
        }
        assert forall|j: int| 0 <= j < world.food_sites@.len() implies {
            let rc = (#[trigger] world.food_sites@[j]).pos.to_real_spec(world.config);
            world.food_lookup.entities@.contains_key(rc) && world.food_lookup.entities@[rc]
                == world.food_sites@[j].id
        } by {
            assert(world.food_sites@[j].pos == old(world).food_sites@[j].pos);
            assert(world.food_sites@[j].id == old(world).food_sites@[j].id);
        }
        assert forall|j: int| 0 <= j < world.food_sites@.len() implies (
        #[trigger] world.food_sites@[j]).id < world.next_id by {
            assert(world.food_sites@[j].id == old(world).food_sites@[j].id);
        }
    }
}

} // verus!
