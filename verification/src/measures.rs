//! Coordinate topology: the mapping from unbounded virtual coordinates to
//! bounded real grid cells, for the four supported world geometries.

use vstd::prelude::*;
use vstd::arithmetic::div_mod::{lemma_fundamental_div_mod, lemma_fundamental_div_mod_converse_mod};
use crate::config::Config;

verus! {

/// The rule mapping an unbounded coordinate displacement to a bounded grid
/// cell: both axes wrap, both clamp, or one of each.
#[derive(Copy, Clone, Debug, PartialEq, Eq, Structural)]
pub enum GeometryType {
    Torus,
    FlatEarth,
    RingVertical,
    RingHorizontal,
}

/// A signed, unbounded coordinate pair, as carried by agents and movement
/// targets.  Only its projection through `to_real` is ever a grid cell.
#[derive(Copy, Clone, Debug, PartialEq, Eq, Structural)]
pub struct VirtualCoords {
    pub x: i32,
    pub y: i32,
}

/// A cell of the real grid: `0 <= x < size_x`, `0 <= y < size_y`.
#[derive(Copy, Clone, Debug, PartialEq, Eq, Structural)]
pub struct RealCoords {
    pub x: u32,
    pub y: u32,
}

/// `wrap(origin, delta, max)`: `origin + delta` taken modulo `max`, always in
/// `[0, max)`.  Spec-mode `%` is Euclidean, so no correction term is needed;
/// this equals `((origin + delta) mod max + max) mod max` in truncating
/// arithmetic.
pub open spec fn wrap_spec(origin: int, delta: int, max: int) -> int {
    (origin + delta) % max
}

/// `clamp(origin, delta, min, max)`: `origin + delta` saturated to
/// `[min, max - 1]`.
pub open spec fn limit_spec(origin: int, delta: int, min: int, max: int) -> int {
    if origin + delta < min {
        min
    } else if origin + delta >= max {
        max - 1
    } else {
        origin + delta
    }
}

/// Wraps `x + delta` into `[0, max)` (toroidal axis).
pub fn wrap_value(x: u32, delta: i32, max: u32) -> (r: u32)
    requires
        0 < max,
    ensures
        r == wrap_spec(x as int, delta as int, max as int),
        r < max,
{
    let s: i64 = x as i64 + delta as i64;
    let m: i64 = max as i64;
    if s >= 0 {
        let r: i64 = s % m;
        proof {
            lemma_fundamental_div_mod(s as int, m as int);
        }
        r as u32
    } else {
        let n: i64 = -s;
        let t: i64 = n % m;
        proof {
            lemma_fundamental_div_mod(n as int, m as int);
            let q = n as int / m as int;
            assert(n == m * q + t);
            if t == 0 {
                assert((-q) * m + 0 == -(m * q)) by (nonlinear_arith);
                lemma_fundamental_div_mod_converse_mod(s as int, m as int, -q, 0);
            } else {
                assert((-q - 1) * m + (m - t) == -(m * q + t)) by (nonlinear_arith);
                lemma_fundamental_div_mod_converse_mod(s as int, m as int, -q - 1, m - t);
            }
        }
        if t == 0 {
            0u32
        } else {
            (m - t) as u32
        }
    }
}

/// Clamps `x + delta` to `[min, max - 1]` (bounded axis).
pub fn limit_value(x: u32, delta: i32, min: u32, max: u32) -> (r: u32)
    requires
        min < max,
    ensures
        r == limit_spec(x as int, delta as int, min as int, max as int),
        min <= r < max,
{
    let s: i64 = x as i64 + delta as i64;
    if s < min as i64 {
        min
    } else if s >= max as i64 {
        max - 1
    } else {
        s as u32
    }
}

/// The wrapped value always lands in `[0, max)`.
pub proof fn lemma_wrap_in_bounds(origin: int, delta: int, max: int)
    requires
        0 < max,
    ensures
        0 <= wrap_spec(origin, delta, max) < max,
{
    lemma_fundamental_div_mod(origin + delta, max);
}

/// The clamped value always lands in `[min, max)`.
pub proof fn lemma_limit_in_bounds(origin: int, delta: int, min: int, max: int)
    requires
        min < max,
    ensures
        min <= limit_spec(origin, delta, min, max) < max,
{
}

impl VirtualCoords {
    /// The grid cell this virtual coordinate denotes under the configured
    /// topology.  This spec function is the single definition of coordinate
    /// semantics: a pure, deterministic map from (coordinate, configuration)
    /// to a cell.
    pub open spec fn to_real_spec(self, config: Config) -> RealCoords {
        let w = config.map.size_x.value as int;
        let h = config.map.size_y.value as int;
        match config.map.geometry.value {
            GeometryType::Torus => RealCoords {
                x: wrap_spec(0, self.x as int, w) as u32,
                y: wrap_spec(0, self.y as int, h) as u32,
            },
            GeometryType::FlatEarth => RealCoords {
                x: limit_spec(0, self.x as int, 0, w) as u32,
                y: limit_spec(0, self.y as int, 0, h) as u32,
            },
            GeometryType::RingVertical => RealCoords {
                x: limit_spec(0, self.x as int, 0, w) as u32,
                y: wrap_spec(0, self.y as int, h) as u32,
            },
            GeometryType::RingHorizontal => RealCoords {
                x: wrap_spec(0, self.x as int, w) as u32,
                y: limit_spec(0, self.y as int, 0, h) as u32,
            },
        }
    }

    /// Projects the virtual coordinate onto the real grid.
    pub fn to_real(self, config: &Config) -> (r: RealCoords)
        requires
            config.valid(),
        ensures
            r == self.to_real_spec(*config),
            r.x < config.map.size_x.value,
            r.y < config.map.size_y.value,
    {
        proof {
            lemma_to_real_in_bounds(self, *config);
        }
        match config.map.geometry.value {
            GeometryType::Torus => {
                let x: u32 = wrap_value(0, self.x, config.map.size_x.value);
                let y: u32 = wrap_value(0, self.y, config.map.size_y.value);
                RealCoords { x, y }
            },
            GeometryType::FlatEarth => {
                let x: u32 = limit_value(0, self.x, 0, config.map.size_x.value);
                let y: u32 = limit_value(0, self.y, 0, config.map.size_y.value);
                RealCoords { x, y }
            },
            GeometryType::RingVertical => {
                let x: u32 = limit_value(0, self.x, 0, config.map.size_x.value);
                let y: u32 = wrap_value(0, self.y, config.map.size_y.value);
                RealCoords { x, y }
            },
            GeometryType::RingHorizontal => {
                let x: u32 = wrap_value(0, self.x, config.map.size_x.value);
                let y: u32 = limit_value(0, self.y, 0, config.map.size_y.value);
                RealCoords { x, y }
            },
        }
    }

    /// Whether this virtual coordinate already is a grid cell, so that its
    /// projection is itself.
    pub open spec fn canonical(self, config: Config) -> bool {
        &&& 0 <= self.x < config.map.size_x.value
        &&& 0 <= self.y < config.map.size_y.value
    }
}

impl RealCoords {
    /// The same cell as a (canonical) virtual coordinate.
    pub open spec fn as_virtual_spec(self) -> VirtualCoords {
        VirtualCoords { x: self.x as i32, y: self.y as i32 }
    }

    /// Converts a cell back to a virtual coordinate denoting the same cell.
    pub fn as_virtual(self) -> (r: VirtualCoords)
        requires
            self.x <= i32::MAX,
            self.y <= i32::MAX,
        ensures
            r == self.as_virtual_spec(),
    {
        VirtualCoords { x: self.x as i32, y: self.y as i32 }
    }
}

/// The real-coordinate projection is always in bounds:
/// `0 <= x < W` and `0 <= y < H`, for every agent position and topology.
pub proof fn lemma_to_real_in_bounds(v: VirtualCoords, config: Config)
    requires
        config.map.size_x.value >= 1,
        config.map.size_y.value >= 1,
    ensures
        v.to_real_spec(config).x < config.map.size_x.value,
        v.to_real_spec(config).y < config.map.size_y.value,
{
    let w = config.map.size_x.value as int;
    let h = config.map.size_y.value as int;
    lemma_wrap_in_bounds(0, v.x as int, w);
    lemma_wrap_in_bounds(0, v.y as int, h);
}

/// A canonical coordinate projects to itself, under every topology.
pub proof fn lemma_canonical_to_real(v: VirtualCoords, config: Config)
    requires
        config.map.size_x.value >= 1,
        config.map.size_y.value >= 1,
        v.canonical(config),
    ensures
        v.to_real_spec(config).x == v.x,
        v.to_real_spec(config).y == v.y,
{
    let w = config.map.size_x.value as int;
    let h = config.map.size_y.value as int;
    lemma_fundamental_div_mod_converse_mod(v.x as int, w, 0, v.x as int);
    lemma_fundamental_div_mod_converse_mod(v.y as int, h, 0, v.y as int);
}

/// Stepping one cell west from the western edge lands on the eastern edge,
/// and one cell east from the eastern edge lands on the western edge.
pub proof fn lemma_wrap_edges(max: int)
    requires
        0 < max,
    ensures
        wrap_spec(0, -1, max) == max - 1,
        wrap_spec(max - 1, 1, max) == 0,
{
    lemma_fundamental_div_mod_converse_mod(-1, max, -1, max - 1);
    lemma_fundamental_div_mod_converse_mod(max, max, 1, 0);
}

} // verus!
