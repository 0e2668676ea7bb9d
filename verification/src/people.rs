//! Agents: their state, their per-tick lifecycle steps, and neighbourhood
//! scans around them.
//!
//! Hunger levels are fixed-point milli-units (1000 = 1.0).  A person is
//! either alive, or dead-pending with a despawn countdown in `ttl`; despawned
//! people leave the world's storage entirely.

use vstd::prelude::*;
use crate::config::Config;
use crate::lookup::Lookup;
use crate::measures::{RealCoords, VirtualCoords};
use crate::planet::FoodAmount;

verus! {

/// The hunger threshold above which a food type demands eating (1.0).
pub const HUNGER_EAT_THRESHOLD: i64 = 1000;

/// Cap above which hunger no longer accumulates: a machine limit near the
/// top of the signed 64-bit fixed-point range.  Hunger grows without bound
/// while an agent is fed nothing; the word it is stored in does not, so
/// accumulation saturates here (about 4.6e15 hunger units).
pub const HUNGER_LIMIT: i64 = 0x4000000000000000;

/// Bound on the coordinates of stored movement targets and known food sites.
pub const TARGET_BOUND: i32 = 65536;

/// An agent's sex, fixed at spawn.
#[derive(Copy, Clone, Debug, PartialEq, Eq, Structural)]
pub enum Sex {
    Male,
    Female,
}

/// Per-food-type hunger, in milli-units; grows every tick unless fed.
#[derive(Copy, Clone, Debug, PartialEq, Eq, Structural)]
pub struct Hunger {
    pub apple: i64,
    pub orange: i64,
}

/// A known food site: the source's identity and where it was seen.
#[derive(Copy, Clone, Debug, PartialEq, Eq, Structural)]
pub struct Information {
    pub entity: u64,
    pub coords: VirtualCoords,
}

/// What an agent has learned about food sites.
#[derive(Debug)]
pub struct Knowledge {
    pub infos: Vec<Information>,
}

/// An agent of the settlement.
#[derive(Debug)]
pub struct Person {
    /// Unique identity, never reused.
    pub id: u64,
    /// Position; kept canonical (equal to its own grid projection).
    pub pos: VirtualCoords,
    /// Age in ticks.
    pub age: u32,
    pub sex: Sex,
    /// Recomputed every tick from age and the sex's fertile window.
    pub fertile: bool,
    /// Cleared on starvation or old age; the agent then counts down `ttl`.
    pub alive: bool,
    /// Ticks left until despawn, once dead.
    pub ttl: u32,
    pub hunger: Hunger,
    /// Held stock per food type, uncapped.
    pub food: FoodAmount,
    /// Pending movement target, stepped one cell per tick.
    pub move_to: Option<VirtualCoords>,
    /// Set together with a movement target; the agent forages on arrival.
    pub forage: bool,
    pub knowledge: Knowledge,
}

impl Person {
    /// Bounds every system relies on: a canonical position, bounded movement
    /// targets and known sites, and hunger within its accumulation range.
    pub open spec fn wf(&self, config: Config) -> bool {
        &&& self.pos.canonical(config)
        &&& match self.move_to {
            Some(d) => -TARGET_BOUND <= d.x <= TARGET_BOUND && -TARGET_BOUND <= d.y
                <= TARGET_BOUND,
            None => true,
        }
        &&& -1000000 <= self.hunger.apple <= HUNGER_LIMIT + 1000000
        &&& -1000000 <= self.hunger.orange <= HUNGER_LIMIT + 1000000
        &&& forall|k: int|
            0 <= k < self.knowledge.infos@.len() ==> {
                let c = (#[trigger] self.knowledge.infos@[k]).coords;
                -TARGET_BOUND <= c.x <= TARGET_BOUND && -TARGET_BOUND <= c.y <= TARGET_BOUND
            }
    }
}

impl Default for Person {
    /// A fresh test-stand agent: newborn, sated, holding three of each food.
    fn default() -> (r: Person)
        ensures
            r.id == 0,
            r.pos == (VirtualCoords { x: 5, y: 3 }),
            r.age == 0,
            r.sex == Sex::Male,
            !r.fertile,
            r.alive,
            r.ttl == 0,
            r.hunger == (Hunger { apple: 0, orange: 0 }),
            r.food == (FoodAmount { apples: 3, oranges: 3 }),
            r.move_to is None,
            !r.forage,
            r.knowledge.infos@.len() == 0,
    {
        Person {
            id: 0,
            pos: VirtualCoords { x: 5, y: 3 },
            age: 0,
            sex: Sex::Male,
            fertile: false,
            alive: true,
            ttl: 0,
            hunger: Hunger { apple: 0, orange: 0 },
            food: FoodAmount { apples: 3, oranges: 3 },
            move_to: None,
            forage: false,
            knowledge: Knowledge { infos: Vec::new() },
        }
    }
}

/// Whether `age` lies in the male fertile window: the half-open range
/// `[min-fraction, max-fraction)` of the maximum age.
pub open spec fn in_male_fertile_age_spec(age: u32, config: Config) -> bool {
    let max_age = config.game.max_person_age.value as int;
    &&& config.game.min_fertile_age_male.value * max_age <= 1000 * age
    &&& 1000 * age < config.game.max_fertile_age_male.value * max_age
}

/// Whether `age` lies in the female fertile window: the half-open range
/// `[min-fraction, max-fraction)` of the maximum age.
pub open spec fn in_female_fertile_age_spec(age: u32, config: Config) -> bool {
    let max_age = config.game.max_person_age.value as int;
    &&& config.game.min_fertile_age_female.value * max_age <= 1000 * age
    &&& 1000 * age < config.game.max_fertile_age_female.value * max_age
}

/// Whether `age` lies in the fertile window of `sex`.
pub open spec fn in_fertile_age_spec(sex: Sex, age: u32, config: Config) -> bool {
    match sex {
        Sex::Male => in_male_fertile_age_spec(age, config),
        Sex::Female => in_female_fertile_age_spec(age, config),
    }
}

/// Decides male fertility from age.
pub fn is_in_male_fertile_age(age: u32, config: &Config) -> (r: bool)
    requires
        config.valid(),
    ensures
        r == in_male_fertile_age_spec(age, *config),
{
    let max_age: u64 = config.game.max_person_age.value as u64;
    let lo: u64 = config.game.min_fertile_age_male.value as u64;
    let hi: u64 = config.game.max_fertile_age_male.value as u64;
    proof {
        assert(lo * max_age <= 1000000000000 && hi * max_age <= 1000000000000)
            by (nonlinear_arith)
            requires lo <= 1000 && hi <= 1000 && max_age <= 1000000000;
    }
    lo * max_age <= 1000 * (age as u64) && 1000 * (age as u64) < hi * max_age
}

/// Decides female fertility from age.
pub fn is_in_female_fertile_age(age: u32, config: &Config) -> (r: bool)
    requires
        config.valid(),
    ensures
        r == in_female_fertile_age_spec(age, *config),
{
    let max_age: u64 = config.game.max_person_age.value as u64;
    let lo: u64 = config.game.min_fertile_age_female.value as u64;
    let hi: u64 = config.game.max_fertile_age_female.value as u64;
    proof {
        assert(lo * max_age <= 1000000000000 && hi * max_age <= 1000000000000)
            by (nonlinear_arith)
            requires lo <= 1000 && hi <= 1000 && max_age <= 1000000000;
    }
    lo * max_age <= 1000 * (age as u64) && 1000 * (age as u64) < hi * max_age
}

/// The outcome of one eat action on (hunger, stock): the new hunger, the new
/// stock, and whether the agent starved instead.
///
/// The apple branch is tried before the orange branch; a type relieves
/// hunger only if its hunger exceeds 1.0 and at least one unit is held.
/// When neither type qualifies the agent dies of starvation.
pub open spec fn eat_step_spec(hunger: Hunger, food: FoodAmount, config: Config) -> (Hunger,
    FoodAmount,
    bool,
) {
    let dec = config.game.hunger_decrease.value as i64;
    if hunger.apple > HUNGER_EAT_THRESHOLD && food.apples > 0 {
        (
            Hunger { apple: (hunger.apple - dec) as i64, orange: hunger.orange },
            FoodAmount { apples: (food.apples - 1) as u32, oranges: food.oranges },
            false,
        )
    } else if hunger.orange > HUNGER_EAT_THRESHOLD && food.oranges > 0 {
        (
            Hunger { apple: hunger.apple, orange: (hunger.orange - dec) as i64 },
            FoodAmount { apples: food.apples, oranges: (food.oranges - 1) as u32 },
            false,
        )
    } else {
        (hunger, food, true)
    }
}

/// Executes one eat action; returns the new hunger and stock, and whether
/// the agent starved.
pub fn eat_step(hunger: Hunger, food: FoodAmount, config: &Config) -> (r: (Hunger, FoodAmount, bool))
    requires
        config.valid(),
        -1000000 <= hunger.apple <= HUNGER_LIMIT + 1000000,
        -1000000 <= hunger.orange <= HUNGER_LIMIT + 1000000,
    ensures
        r == eat_step_spec(hunger, food, *config),
{
    let dec: i64 = config.game.hunger_decrease.value as i64;
    if hunger.apple > HUNGER_EAT_THRESHOLD && food.apples > 0 {
        (
            Hunger { apple: hunger.apple - dec, orange: hunger.orange },
            FoodAmount { apples: food.apples - 1, oranges: food.oranges },
            false,
        )
    } else if hunger.orange > HUNGER_EAT_THRESHOLD && food.oranges > 0 {
        (
            Hunger { apple: hunger.apple, orange: hunger.orange - dec },
            FoodAmount { apples: food.apples, oranges: food.oranges - 1 },
            false,
        )
    } else {
        (Hunger { apple: hunger.apple, orange: hunger.orange }, FoodAmount { apples: food.apples, oranges: food.oranges }, true)
    }
}

/// The eight neighbour offsets of a cell, in scan order.
pub open spec fn neighbour_offsets() -> Seq<(int, int)> {
    seq![
        (-1int, -1int),
        (-1int, 0int),
        (-1int, 1int),
        (0int, -1int),
        (0int, 1int),
        (1int, -1int),
        (1int, 0int),
        (1int, 1int),
    ]
}

/// Whether `c` is one of the eight neighbour coordinates of `origin`.
pub open spec fn is_neighbour_of(c: VirtualCoords, origin: VirtualCoords) -> bool {
    exists|k: int|
        0 <= k < 8 && c.x == origin.x + (#[trigger] neighbour_offsets()[k]).0 && c.y == origin.y
            + neighbour_offsets()[k].1
}

/// On a torus of at least 3 cells per side, distinct neighbour coordinates
/// of one origin always project to distinct cells: no wrap can fold two of
/// the eight neighbours onto the same cell.
pub proof fn lemma_torus_neighbours_distinct(
    c1: VirtualCoords,
    c2: VirtualCoords,
    origin: VirtualCoords,
    config: Config,
)
    requires
        config.map.geometry.value is Torus,
        config.map.size_x.value >= 3,
        config.map.size_y.value >= 3,
        is_neighbour_of(c1, origin),
        is_neighbour_of(c2, origin),
        c1 != c2,
        -TARGET_BOUND <= origin.x <= TARGET_BOUND,
        -TARGET_BOUND <= origin.y <= TARGET_BOUND,
    ensures
        c1.to_real_spec(config) != c2.to_real_spec(config),
{
    let w = config.map.size_x.value as int;
    let h = config.map.size_y.value as int;
    let k1 = choose|k: int|
        0 <= k < 8 && c1.x == origin.x + (#[trigger] neighbour_offsets()[k]).0 && c1.y == origin.y
            + neighbour_offsets()[k].1;
    let k2 = choose|k: int|
        0 <= k < 8 && c2.x == origin.x + (#[trigger] neighbour_offsets()[k]).0 && c2.y == origin.y
            + neighbour_offsets()[k].1;
    if c1.to_real_spec(config) == c2.to_real_spec(config) {
        lemma_close_mod_equal(c1.x as int, c2.x as int, w);
        lemma_close_mod_equal(c1.y as int, c2.y as int, h);
        assert(false);
    }
}

/// Two integers within less than one modulus of each other and with equal
/// remainders are equal.
proof fn lemma_close_mod_equal(a: int, b: int, m: int)
    requires
        m >= 3,
        -2 <= a - b <= 2,
        a % m == b % m,
    ensures
        a == b,
{
    vstd::arithmetic::div_mod::lemma_fundamental_div_mod(a, m);
    vstd::arithmetic::div_mod::lemma_fundamental_div_mod(b, m);
    let qa = a / m;
    let qb = b / m;
    assert(a - b == (qa - qb) * m) by (nonlinear_arith)
        requires a == m * qa + a % m && b == m * qb + b % m && a % m == b % m;
    assert(qa == qb) by (nonlinear_arith)
        requires a - b == (qa - qb) * m && -2 <= a - b <= 2 && m >= 3;
}

/// Whether `c` is a neighbour of `origin` that projects to a cell different
/// from `origin`'s own and unoccupied in `map`.
pub open spec fn is_free_neighbour(
    c: VirtualCoords,
    origin: VirtualCoords,
    config: Config,
    map: Map<RealCoords, u64>,
) -> bool {
    &&& is_neighbour_of(c, origin)
    &&& c.to_real_spec(config) != origin.to_real_spec(config)
    &&& !map.contains_key(c.to_real_spec(config))
}

/// Whether `c` is a neighbour of `origin` that projects to a cell different
/// from `origin`'s own and occupied in `map`.
pub open spec fn is_occupied_neighbour(
    c: VirtualCoords,
    origin: VirtualCoords,
    config: Config,
    map: Map<RealCoords, u64>,
) -> bool {
    &&& is_neighbour_of(c, origin)
    &&& c.to_real_spec(config) != origin.to_real_spec(config)
    &&& map.contains_key(c.to_real_spec(config))
}

/// Collects the neighbours of `coords` whose cell is free: exactly those
/// virtual coordinates `c` with `is_free_neighbour(c, coords, ..)`.
pub fn free_neighbouring_coords(
    config: &Config,
    coords: &VirtualCoords,
    lookup: &Lookup<Person>,
) -> (r: Vec<VirtualCoords>)
    requires
        config.valid(),
        lookup.entities.wf(),
        coords.canonical(*config),
    ensures
        forall|k: int|
            0 <= k < r@.len() ==> is_free_neighbour(
                #[trigger] r@[k],
                *coords,
                *config,
                lookup.entities@,
            ),
        forall|c: VirtualCoords|
            is_free_neighbour(c, *coords, *config, lookup.entities@) ==> r@.contains(c),
        forall|k: int|
            0 <= k < r@.len() ==> -TARGET_BOUND <= (#[trigger] r@[k]).x <= TARGET_BOUND
                && -TARGET_BOUND <= r@[k].y <= TARGET_BOUND,
        forall|k1: int, k2: int| 0 <= k1 < k2 < r@.len() ==> (#[trigger] r@[k1]) != (#[trigger] r@[k2]),
{
    let mut result: Vec<VirtualCoords> = Vec::new();
    let origin_position: RealCoords = coords.to_real(config);
    let mut dx: i32 = -1;
    while dx <= 1
        invariant
            -1 <= dx <= 2,
            config.valid(),
            lookup.entities.wf(),
            coords.canonical(*config),
            origin_position == coords.to_real_spec(*config),
            forall|k: int|
                0 <= k < result@.len() ==> is_free_neighbour(
                    #[trigger] result@[k],
                    *coords,
                    *config,
                    lookup.entities@,
                ),
            forall|c: VirtualCoords|
                is_free_neighbour(c, *coords, *config, lookup.entities@) && c.x - coords.x < dx
                    ==> result@.contains(c),
            forall|k: int|
                0 <= k < result@.len() ==> -TARGET_BOUND <= (#[trigger] result@[k]).x
                    <= TARGET_BOUND && -TARGET_BOUND <= result@[k].y <= TARGET_BOUND,
            forall|k: int| 0 <= k < result@.len() ==> (#[trigger] result@[k]).x - coords.x < dx,
            forall|k1: int, k2: int|
                0 <= k1 < k2 < result@.len() ==> (#[trigger] result@[k1]) != (
                #[trigger] result@[k2]),
        decreases 2 - dx,
    {
        let mut dy: i32 = -1;
        while dy <= 1
            invariant
                -1 <= dx <= 1,
                -1 <= dy <= 2,
                config.valid(),
                lookup.entities.wf(),
                coords.canonical(*config),
                origin_position == coords.to_real_spec(*config),
                forall|k: int|
                    0 <= k < result@.len() ==> is_free_neighbour(
                        #[trigger] result@[k],
                        *coords,
                        *config,
                        lookup.entities@,
                    ),
                forall|c: VirtualCoords|
                    is_free_neighbour(c, *coords, *config, lookup.entities@) && (c.x - coords.x < dx
                        || (c.x - coords.x == dx && c.y - coords.y < dy)) ==> result@.contains(c),
                forall|k: int|
                    0 <= k < result@.len() ==> -TARGET_BOUND <= (#[trigger] result@[k]).x
                        <= TARGET_BOUND && -TARGET_BOUND <= result@[k].y <= TARGET_BOUND,
                forall|k: int|
                    0 <= k < result@.len() ==> ((#[trigger] result@[k]).x - coords.x < dx || (
                    result@[k].x - coords.x == dx && result@[k].y - coords.y < dy)),
                forall|k1: int, k2: int|
                    0 <= k1 < k2 < result@.len() ==> (#[trigger] result@[k1]) != (
                    #[trigger] result@[k2]),
            decreases 2 - dy,
        {
            let ghost result0 = result@;
            let new_position = VirtualCoords { x: coords.x + dx, y: coords.y + dy };
            let real_position: RealCoords = new_position.to_real(config);
            let differs: bool = real_position.x != origin_position.x || real_position.y
                != origin_position.y;
            let takes: bool = differs && lookup.entities.get(real_position).is_none();
            if takes {
                proof {
                    assert(neighbour_offsets()[offset_index(dx as int, dy as int)] == (
                        dx as int,
                        dy as int,
                    ));
                    assert(is_neighbour_of(new_position, *coords));
                }
                result.push(new_position);
                proof {
                    assert(result@.last() == new_position);
                }
            }
            proof {
                assert forall|c: VirtualCoords|
                    is_free_neighbour(c, *coords, *config, lookup.entities@) && (c.x - coords.x
                        < dx || (c.x - coords.x == dx && c.y - coords.y < dy + 1)) implies result@
                    .contains(c) by {
                    if c.x - coords.x == dx && c.y - coords.y == dy {
                        assert(c == new_position);
                        assert(c.to_real_spec(*config) != coords.to_real_spec(*config));
                        assert(differs);
                        assert(!lookup.entities@.contains_key(c.to_real_spec(*config)));
                        assert(takes);
                        assert(result@.last() == c);
                    } else {
                        assert(result0.contains(c));
                        let i = choose|i: int| 0 <= i < result0.len() && result0[i] == c;
                        assert(result@[i] == c);
                    }
                }
            }
            dy = dy + 1;
        }
        dx = dx + 1;
    }
    result
}

/// The index of offset `(dx, dy)` in `neighbour_offsets`.
pub open spec fn offset_index(dx: int, dy: int) -> int {
    if dx == -1 {
        dy + 1
    } else if dx == 0 {
        if dy == -1 {
            3
        } else {
            4
        }
    } else {
        dy + 6
    }
}

/// Collects the neighbours of `coords` whose cell is occupied: exactly those
/// virtual coordinates `c` with `is_occupied_neighbour(c, coords, ..)`.
pub fn occupied_neighbouring_coords(
    config: &Config,
    coords: &VirtualCoords,
    lookup: &Lookup<Person>,
) -> (r: Vec<VirtualCoords>)
    requires
        config.valid(),
        lookup.entities.wf(),
        coords.canonical(*config),
    ensures
        forall|k: int|
            0 <= k < r@.len() ==> is_occupied_neighbour(
                #[trigger] r@[k],
                *coords,
                *config,
                lookup.entities@,
            ),
        forall|c: VirtualCoords|
            is_occupied_neighbour(c, *coords, *config, lookup.entities@) ==> r@.contains(c),
        forall|k1: int, k2: int| 0 <= k1 < k2 < r@.len() ==> (#[trigger] r@[k1]) != (#[trigger] r@[k2]),
{
    let mut result: Vec<VirtualCoords> = Vec::new();
    let origin_position: RealCoords = coords.to_real(config);
    let mut dx: i32 = -1;
    while dx <= 1
        invariant
            -1 <= dx <= 2,
            config.valid(),
            lookup.entities.wf(),
            coords.canonical(*config),
            origin_position == coords.to_real_spec(*config),
            forall|k: int|
                0 <= k < result@.len() ==> is_occupied_neighbour(
                    #[trigger] result@[k],
                    *coords,
                    *config,
                    lookup.entities@,
                ),
            forall|c: VirtualCoords|
                is_occupied_neighbour(c, *coords, *config, lookup.entities@) && c.x - coords.x < dx
                    ==> result@.contains(c),
            forall|k: int| 0 <= k < result@.len() ==> (#[trigger] result@[k]).x - coords.x < dx,
            forall|k1: int, k2: int|
                0 <= k1 < k2 < result@.len() ==> (#[trigger] result@[k1]) != (
                #[trigger] result@[k2]),
        decreases 2 - dx,
    {
        let mut dy: i32 = -1;
        while dy <= 1
            invariant
                -1 <= dx <= 1,
                -1 <= dy <= 2,
                config.valid(),
                lookup.entities.wf(),
                coords.canonical(*config),
                origin_position == coords.to_real_spec(*config),
                forall|k: int|
                    0 <= k < result@.len() ==> is_occupied_neighbour(
                        #[trigger] result@[k],
                        *coords,
                        *config,
                        lookup.entities@,
                    ),
                forall|c: VirtualCoords|
                    is_occupied_neighbour(c, *coords, *config, lookup.entities@) && (c.x - coords.x
                        < dx || (c.x - coords.x == dx && c.y - coords.y < dy)) ==> result@.contains(
                        c,
                    ),
                forall|k: int|
                    0 <= k < result@.len() ==> ((#[trigger] result@[k]).x - coords.x < dx || (
                    result@[k].x - coords.x == dx && result@[k].y - coords.y < dy)),
                forall|k1: int, k2: int|
                    0 <= k1 < k2 < result@.len() ==> (#[trigger] result@[k1]) != (
                    #[trigger] result@[k2]),
            decreases 2 - dy,
        {
            let ghost result0 = result@;
            let new_position = VirtualCoords { x: coords.x + dx, y: coords.y + dy };
            let real_position: RealCoords = new_position.to_real(config);
            let differs: bool = real_position.x != origin_position.x || real_position.y
                != origin_position.y;
            let takes: bool = differs && lookup.entities.get(real_position).is_some();
            if takes {
                proof {
                    assert(neighbour_offsets()[offset_index(dx as int, dy as int)] == (
                        dx as int,
                        dy as int,
                    ));
                    assert(is_neighbour_of(new_position, *coords));
                }
                result.push(new_position);
                proof {
                    assert(result@.last() == new_position);
                }
            }
            proof {
                assert forall|c: VirtualCoords|
                    is_occupied_neighbour(c, *coords, *config, lookup.entities@) && (c.x - coords.x
                        < dx || (c.x - coords.x == dx && c.y - coords.y < dy + 1)) implies result@
                    .contains(c) by {
                    if c.x - coords.x == dx && c.y - coords.y == dy {
                        assert(c == new_position);
                        assert(c.to_real_spec(*config) != coords.to_real_spec(*config));
                        assert(differs);
                        assert(lookup.entities@.contains_key(c.to_real_spec(*config)));
                        assert(takes);
                        assert(result@.last() == c);
                    } else {
                        assert(result0.contains(c));
                        let i = choose|i: int| 0 <= i < result0.len() && result0[i] == c;
                        assert(result@[i] == c);
                    }
                }
            }
            dy = dy + 1;
        }
        dx = dx + 1;
    }
    result
}

} // verus!

use crate::world::{unchanged_except_people, World};

verus! {

/// One tick of hunger accumulation: both hunger levels of a living agent
/// grow by the configured rate, until the accumulation cap.
pub open spec fn hunger_step_spec(p: Person, config: Config) -> Person {
    if p.alive {
        let inc = config.game.hunger_increase.value as i64;
        Person {
            hunger: Hunger {
                apple: if p.hunger.apple <= HUNGER_LIMIT {
                    (p.hunger.apple + inc) as i64
                } else {
                    p.hunger.apple
                },
                orange: if p.hunger.orange <= HUNGER_LIMIT {
                    (p.hunger.orange + inc) as i64
                } else {
                    p.hunger.orange
                },
            },
            ..p
        }
    } else {
        p
    }
}

/// Death: the liveness flag clears and the despawn countdown starts.
pub open spec fn mark_dead_spec(p: Person, config: Config) -> Person {
    Person { alive: false, ttl: config.game.person_ttl.value, ..p }
}

/// One tick of aging: a living agent's age grows by 1; past the configured
/// maximum age (when one is set) the agent dies.
pub open spec fn aging_step_spec(p: Person, config: Config) -> Person {
    if p.alive {
        let age2: u32 = if p.age < 0xffffffffu32 {
            (p.age + 1) as u32
        } else {
            p.age
        };
        let p2 = Person { age: age2, ..p };
        if config.game.max_person_age.value > 0 && age2 > config.game.max_person_age.value {
            mark_dead_spec(p2, config)
        } else {
            p2
        }
    } else {
        p
    }
}

/// Fertility recomputation: a living agent is fertile exactly when its age
/// lies in its sex's fertile window.
pub open spec fn fertility_step_spec(p: Person, config: Config) -> Person {
    if p.alive {
        Person { fertile: in_fertile_age_spec(p.sex, p.age, config), ..p }
    } else {
        p
    }
}

/// The hunger phase as a relation between the world before and after:
/// exactly `hunger_system`'s contract, element by element.
pub open spec fn hunger_system_rel(a: World, b: World) -> bool {
    &&& b.wf()
    &&& unchanged_except_people(&a, &b)
    &&& b.people@.len() == a.people@.len()
    &&& forall|i: int|
        0 <= i < a.people@.len() ==> b.people@[i] == hunger_step_spec(
            #[trigger] a.people@[i],
            a.config,
        )
}

/// The aging phase as a relation: exactly `aging_system`'s contract.
pub open spec fn aging_system_rel(a: World, b: World) -> bool {
    &&& b.wf()
    &&& unchanged_except_people(&a, &b)
    &&& b.people@.len() == a.people@.len()
    &&& forall|i: int|
        0 <= i < a.people@.len() ==> b.people@[i] == aging_step_spec(
            #[trigger] a.people@[i],
            a.config,
        )
}

/// The fertility phase as a relation: exactly `fertility_system`'s
/// contract.
pub open spec fn fertility_system_rel(a: World, b: World) -> bool {
    &&& b.wf()
    &&& unchanged_except_people(&a, &b)
    &&& b.people@.len() == a.people@.len()
    &&& forall|i: int|
        0 <= i < a.people@.len() ==> b.people@[i] == fertility_step_spec(
            #[trigger] a.people@[i],
            a.config,
        )
}

/// Raises every living agent's hunger by the configured rate.
pub fn hunger_system(world: &mut World)
    requires
        old(world).wf(),
    ensures
        final(world).wf(),
        unchanged_except_people(old(world), final(world)),
        final(world).people@ == old(world).people@.map_values(
            |p: Person| hunger_step_spec(p, old(world).config),
        ),
        hunger_system_rel(*old(world), *final(world)),
{
    let inc: i64 = world.config.game.hunger_increase.value as i64;
    let n: usize = world.people.len();
    let mut i: usize = 0;
    while i < n
        invariant
            old(world).wf(),
            unchanged_except_people(old(world), world),
            inc == old(world).config.game.hunger_increase.value as i64,
            n == world.people@.len(),
            old(world).people@.len() == n,
            0 <= i <= n,
            forall|j: int|
                0 <= j < i ==> world.people@[j] == hunger_step_spec(
                    #[trigger] old(world).people@[j],
                    old(world).config,
                ),
            forall|j: int| i <= j < n ==> world.people@[j] == #[trigger] old(world).people@[j],
        decreases n - i,
    {
        if world.people[i].alive {
            let ha: i64 = world.people[i].hunger.apple;
            if ha <= HUNGER_LIMIT {
                world.people[i].hunger.apple = ha + inc;
            }
            let ho: i64 = world.people[i].hunger.orange;
            if ho <= HUNGER_LIMIT {
                world.people[i].hunger.orange = ho + inc;
            }
        }
        proof {
            assert(world.people@[i as int] == hunger_step_spec(
                old(world).people@[i as int],
                old(world).config,
            ));
        }
        i = i + 1;
    }
    proof {
        assert(world.people@ =~= old(world).people@.map_values(
            |p: Person| hunger_step_spec(p, old(world).config),
        ));
        assert forall|j: int| 0 <= j < world.people@.len() implies (
        #[trigger] world.people@[j]).wf(world.config) by {
            assert(world.people@[j] == hunger_step_spec(old(world).people@[j], old(world).config));
        }
    }
}

/// Ages every living agent by one tick and kills those past the maximum age.
pub fn aging_system(world: &mut World)
    requires
        old(world).wf(),
    ensures
        final(world).wf(),
        unchanged_except_people(old(world), final(world)),
        final(world).people@ == old(world).people@.map_values(
            |p: Person| aging_step_spec(p, old(world).config),
        ),
        aging_system_rel(*old(world), *final(world)),
{
    let max_age: u32 = world.config.game.max_person_age.value;
    let ttl: u32 = world.config.game.person_ttl.value;
    let n: usize = world.people.len();
    let mut i: usize = 0;
    while i < n
        invariant
            old(world).wf(),
            unchanged_except_people(old(world), world),
            max_age == old(world).config.game.max_person_age.value,
            ttl == old(world).config.game.person_ttl.value,
            n == world.people@.len(),
            old(world).people@.len() == n,
            0 <= i <= n,
            forall|j: int|
                0 <= j < i ==> world.people@[j] == aging_step_spec(
                    #[trigger] old(world).people@[j],
                    old(world).config,
                ),
            forall|j: int| i <= j < n ==> world.people@[j] == #[trigger] old(world).people@[j],
        decreases n - i,
    {
        if world.people[i].alive {
            let age: u32 = world.people[i].age;
            if age < 0xffffffffu32 {
                world.people[i].age = age + 1;
            }
            if max_age > 0 && world.people[i].age > max_age {
                world.people[i].alive = false;
                world.people[i].ttl = ttl;
            }
        }
        proof {
            assert(world.people@[i as int] == aging_step_spec(
                old(world).people@[i as int],
                old(world).config,
            ));
        }
        i = i + 1;
    }
    proof {
        assert(world.people@ =~= old(world).people@.map_values(
            |p: Person| aging_step_spec(p, old(world).config),
        ));
        assert forall|j: int| 0 <= j < world.people@.len() implies (
        #[trigger] world.people@[j]).wf(world.config) by {
            assert(world.people@[j] == aging_step_spec(old(world).people@[j], old(world).config));
        }
    }
}

/// Recomputes every living agent's fertile flag from its age.
pub fn fertility_system(world: &mut World)
    requires
        old(world).wf(),
    ensures
        final(world).wf(),
        unchanged_except_people(old(world), final(world)),
        final(world).people@ == old(world).people@.map_values(
            |p: Person| fertility_step_spec(p, old(world).config),
        ),
        fertility_system_rel(*old(world), *final(world)),
{
    let n: usize = world.people.len();
    let mut i: usize = 0;
    while i < n
        invariant
            old(world).wf(),
            world.config.valid(),
            unchanged_except_people(old(world), world),
            n == world.people@.len(),
            old(world).people@.len() == n,
            0 <= i <= n,
            forall|j: int|
                0 <= j < i ==> world.people@[j] == fertility_step_spec(
                    #[trigger] old(world).people@[j],
                    old(world).config,
                ),
            forall|j: int| i <= j < n ==> world.people@[j] == #[trigger] old(world).people@[j],
        decreases n - i,
    {
        if world.people[i].alive {
            let fertile: bool = match world.people[i].sex {
                Sex::Male => is_in_male_fertile_age(world.people[i].age, &world.config),
                Sex::Female => is_in_female_fertile_age(world.people[i].age, &world.config),
            };
            world.people[i].fertile = fertile;
        }
        proof {
            assert(world.people@[i as int] == fertility_step_spec(
                old(world).people@[i as int],
                old(world).config,
            ));
        }
        i = i + 1;
    }
    proof {
        assert(world.people@ =~= old(world).people@.map_values(
            |p: Person| fertility_step_spec(p, old(world).config),
        ));
        assert forall|j: int| 0 <= j < world.people@.len() implies (
        #[trigger] world.people@[j]).wf(world.config) by {
            assert(world.people@[j] == fertility_step_spec(
                old(world).people@[j],
                old(world).config,
            ));
        }
    }
}

/// Kills the agent at index `i`: clears its liveness flag and starts the
/// configured despawn countdown.  Its cell stays claimed in the spatial
/// index until the countdown ends.
pub fn mark_entity_as_dead(world: &mut World, i: usize)
    requires
        old(world).wf(),
        i < old(world).people@.len(),
    ensures
        final(world).wf(),
        unchanged_except_people(old(world), final(world)),
        final(world).people@ == old(world).people@.update(
            i as int,
            mark_dead_spec(old(world).people@[i as int], old(world).config),
        ),
{
    let ttl: u32 = world.config.game.person_ttl.value;
    world.people[i].alive = false;
    world.people[i].ttl = ttl;
    proof {
        assert(world.people@ =~= old(world).people@.update(
            i as int,
            mark_dead_spec(old(world).people@[i as int], old(world).config),
        ));
        assert forall|j: int| 0 <= j < world.people@.len() implies (
        #[trigger] world.people@[j]).wf(world.config) by {
            if j != i {
                assert(world.people@[j] == old(world).people@[j]);
            }
        }
    }
}

} // verus!

use crate::rng::{random_below, random_below_usize, random_coin};
use crate::world::{count_alive, FoodSite};

verus! {

/// The unit step toward a destination from a real cell: the horizontal
/// axis is corrected first, then the vertical one; (0, 0) on arrival.
pub open spec fn step_delta_spec(dest: VirtualCoords, rc: RealCoords) -> (int, int) {
    let mvx = dest.x - rc.x;
    let mvy = dest.y - rc.y;
    if mvx > 0 {
        (1int, 0int)
    } else if mvx < 0 {
        (-1int, 0int)
    } else if mvy > 0 {
        (0int, 1int)
    } else if mvy < 0 {
        (0int, -1int)
    } else {
        (0int, 0int)
    }
}

/// Two agent states that differ at most in position and movement target.
pub open spec fn same_but_movement(p0: Person, p1: Person) -> bool {
    p1 == Person { pos: p1.pos, move_to: p1.move_to, ..p0 }
}

/// The outcome of one agent's movement attempt, against the spatial index
/// as it stands when the agent's turn comes: the unit step toward the
/// pending target (horizontal axis first), the target cleared exactly when
/// the displacement is zero, and the step committed — position changed and
/// the index updated in one logical step — only if the stepped-to cell is
/// free; otherwise position, index and target are left for a retry.
pub open spec fn move_step_spec(p: Person, lookup: Map<RealCoords, u64>, config: Config) -> (
    Person,
    Map<RealCoords, u64>,
) {
    if p.alive && p.move_to is Some {
        let dest = p.move_to->Some_0;
        let rc = p.pos.to_real_spec(config);
        let delta = step_delta_spec(dest, rc);
        let p1 = if delta.0 == 0 && delta.1 == 0 {
            Person { move_to: None, ..p }
        } else {
            p
        };
        let np = VirtualCoords { x: (p.pos.x + delta.0) as i32, y: (p.pos.y + delta.1) as i32 };
        let rcn = np.to_real_spec(config);
        if !lookup.contains_key(rcn) {
            (Person { pos: rcn.as_virtual_spec(), ..p1 }, lookup.remove(rc).insert(rcn, p.id))
        } else {
            (p1, lookup)
        }
    } else {
        (p, lookup)
    }
}

/// The movement phase folded over the first `n` agents in storage order:
/// each agent's step sees the index as left by the agents before it.
pub open spec fn move_phase_spec(
    people: Seq<Person>,
    lookup: Map<RealCoords, u64>,
    config: Config,
    n: int,
) -> (Seq<Person>, Map<RealCoords, u64>)
    decreases n,
{
    if n <= 0 {
        (people, lookup)
    } else {
        let prev = move_phase_spec(people, lookup, config, n - 1);
        let step = move_step_spec(prev.0[n - 1], prev.1, config);
        (prev.0.update(n - 1, step.0), step.1)
    }
}

/// The fold keeps the population's length and never touches an agent whose
/// turn has not come.
pub proof fn lemma_move_phase_untouched(
    people: Seq<Person>,
    lookup: Map<RealCoords, u64>,
    config: Config,
    n: int,
)
    requires
        0 <= n <= people.len(),
    ensures
        move_phase_spec(people, lookup, config, n).0.len() == people.len(),
        forall|j: int|
            n <= j < people.len() ==> move_phase_spec(people, lookup, config, n).0[j]
                == people[j],
    decreases n,
{
    if n > 0 {
        lemma_move_phase_untouched(people, lookup, config, n - 1);
    }
}

/// The movement phase as a relation between the world before and after:
/// exactly `move_system`'s contract.
pub open spec fn move_system_rel(a: World, b: World) -> bool {
    &&& b.wf()
    &&& b.config == a.config
    &&& b.time == a.time
    &&& b.next_id == a.next_id
    &&& b.food_sites == a.food_sites
    &&& b.food_lookup == a.food_lookup
    &&& b.interactions == a.interactions
    &&& b.stats == a.stats
    &&& b.people@.len() == a.people@.len()
    &&& ({
        let r = move_phase_spec(
            a.people@,
            a.person_lookup.entities@,
            a.config,
            a.people@.len() as int,
        );
        b.people@ == r.0 && b.person_lookup.entities@ == r.1
    })
    &&& forall|i: int|
        0 <= i < a.people@.len() ==> same_but_movement(#[trigger] a.people@[i], b.people@[i])
    &&& forall|i: int|
        0 <= i < a.people@.len() && !(#[trigger] a.people@[i]).alive ==> b.people@[i]
            == a.people@[i]
}

/// Steps every living agent with a pending movement target one grid cell
/// toward it, in storage order: exactly the fold of `move_step_spec` over
/// the population, against the evolving spatial index.
#[verifier::rlimit(100)]
#[verifier::spinoff_prover]
pub fn move_system(world: &mut World)
    requires
        old(world).wf(),
    ensures
        final(world).wf(),
        final(world).config == old(world).config,
        final(world).time == old(world).time,
        final(world).next_id == old(world).next_id,
        final(world).food_sites == old(world).food_sites,
        final(world).food_lookup == old(world).food_lookup,
        final(world).interactions == old(world).interactions,
        final(world).stats == old(world).stats,
        final(world).people@.len() == old(world).people@.len(),
        ({
            let r = move_phase_spec(
                old(world).people@,
                old(world).person_lookup.entities@,
                old(world).config,
                old(world).people@.len() as int,
            );
            final(world).people@ == r.0 && final(world).person_lookup.entities@ == r.1
        }),
        forall|i: int|
            0 <= i < old(world).people@.len() ==> same_but_movement(
                #[trigger] old(world).people@[i],
                final(world).people@[i],
            ),
        forall|i: int|
            0 <= i < old(world).people@.len() && !(#[trigger] old(world).people@[i]).alive
                ==> final(world).people@[i] == old(world).people@[i],
        move_system_rel(*old(world), *final(world)),
{
    let ghost people0 = old(world).people@;
    let ghost lookup0 = old(world).person_lookup.entities@;
    let ghost cfg = old(world).config;
    let n: usize = world.people.len();
    let mut i: usize = 0;
    while i < n
        invariant
            world.wf(),
            world.config == old(world).config,
            world.time == old(world).time,
            world.next_id == old(world).next_id,
            world.food_sites == old(world).food_sites,
            world.food_lookup == old(world).food_lookup,
            world.interactions == old(world).interactions,
            world.stats == old(world).stats,
            people0 == old(world).people@,
            lookup0 == old(world).person_lookup.entities@,
            cfg == old(world).config,
            n == world.people@.len(),
            old(world).people@.len() == n,
            0 <= i <= n,
            world.people@ == move_phase_spec(people0, lookup0, cfg, i as int).0,
            world.person_lookup.entities@ == move_phase_spec(people0, lookup0, cfg, i as int).1,
            forall|j: int|
                0 <= j < n ==> same_but_movement(
                    #[trigger] old(world).people@[j],
                    world.people@[j],
                ),
            forall|j: int|
                0 <= j < n && !(#[trigger] old(world).people@[j]).alive ==> world.people@[j] == old(
                    world,
                ).people@[j],
            forall|j: int| i <= j < n ==> world.people@[j] == #[trigger] old(world).people@[j],
        decreases n - i,
    {
        let ghost fold_pre = move_phase_spec(people0, lookup0, cfg, i as int);
        let ghost step = move_step_spec(fold_pre.0[i as int], fold_pre.1, cfg);
        proof {
            lemma_move_phase_untouched(people0, lookup0, cfg, i as int);
            assert(fold_pre.0[i as int] == people0[i as int]);
        }
        let alive_now: bool = world.people[i].alive;
        let move_opt: Option<VirtualCoords> = world.people[i].move_to;
        if alive_now {
            if let Some(dest) = move_opt {
                let pos: VirtualCoords = world.people[i].pos;
                let rc: RealCoords = pos.to_real(&world.config);
                let mvx: i64 = dest.x as i64 - rc.x as i64;
                let mvy: i64 = dest.y as i64 - rc.y as i64;
                let (dx, dy): (i32, i32) = if mvx > 0 {
                    (1, 0)
                } else if mvx < 0 {
                    (-1, 0)
                } else if mvy > 0 {
                    (0, 1)
                } else if mvy < 0 {
                    (0, -1)
                } else {
                    (0, 0)
                };
                proof {
                    assert(step_delta_spec(dest, rc) == (dx as int, dy as int));
                }
                if dx == 0 && dy == 0 {
                    world.people[i].move_to = None;
                }
                let new_position = VirtualCoords { x: pos.x + dx, y: pos.y + dy };
                let rc_new: RealCoords = new_position.to_real(&world.config);
                if world.person_lookup.entities.get(rc_new).is_none() {
                    proof {
                        world.person_lookup.entities.lemma_dom_finite();
                        assert(world.people@[i as int].pos.to_real_spec(world.config) == rc);
                    }
                    world.person_lookup.entities.remove(rc);
                    world.person_lookup.entities.insert(rc_new, world.people[i].id);
                    world.people[i].pos = rc_new.as_virtual();
                    proof {
                        crate::measures::lemma_canonical_to_real(world.people@[i as int].pos, cfg);
                        assert(world.people@[i as int].pos.to_real_spec(cfg) == rc_new);
                        assert(world.people@[i as int] == step.0);
                        assert(world.person_lookup.entities@ == step.1);
                        assert forall|j: int| 0 <= j < world.people@.len() implies {
                            let c = (#[trigger] world.people@[j]).pos.to_real_spec(cfg);
                            world.person_lookup.entities@.contains_key(c)
                                && world.person_lookup.entities@[c] == world.people@[j].id
                        } by {
                            if j != i {
                                let c = world.people@[j].pos.to_real_spec(cfg);
                                if c == rc {
                                    assert(world.people@[j].id == world.people@[i as int].id);
                                    assert(false);
                                }
                            }
                        }
                    }
                } else {
                    proof {
                        assert(world.people@[i as int] == step.0);
                        assert(world.person_lookup.entities@ == step.1);
                    }
                }
            }
        }
        proof {
            assert(world.people@ =~= fold_pre.0.update(i as int, step.0));
            assert(world.people@ == move_phase_spec(people0, lookup0, cfg, i as int + 1).0);
            assert(world.person_lookup.entities@ == move_phase_spec(
                people0,
                lookup0,
                cfg,
                i as int + 1,
            ).1);
            assert(same_but_movement(old(world).people@[i as int], world.people@[i as int]));
        }
        i = i + 1;
    }
}

/// Two agent states that differ at most in held food and foraging flag.
pub open spec fn same_but_forage(p0: Person, p1: Person) -> bool {
    p1 == Person { food: p1.food, forage: p1.forage, ..p0 }
}

/// Whether some stored food site carries the identity `fid`.
pub open spec fn has_site(sites: Seq<FoodSite>, fid: u64) -> bool {
    exists|j: int| 0 <= j < sites.len() && (#[trigger] sites[j]).id == fid
}

/// The index of the food site carrying `fid` (unique, since identities are).
pub open spec fn site_index_for(sites: Seq<FoodSite>, fid: u64) -> int {
    choose|j: int| 0 <= j < sites.len() && (#[trigger] sites[j]).id == fid
}

/// The outcome of one agent's foraging attempt: a living agent with a
/// raised flag standing on a source's cell takes one unit of the source's
/// own type when stock is there (and its own word is not full), and the
/// flag clears whenever the agent stands on a source's cell; otherwise
/// agent and sites are untouched.
pub open spec fn forage_step_spec(
    p: Person,
    sites: Seq<FoodSite>,
    food_lookup: Map<RealCoords, u64>,
    config: Config,
) -> (Person, Seq<FoodSite>) {
    if p.alive && p.forage && food_lookup.contains_key(p.pos.to_real_spec(config)) {
        let fid = food_lookup[p.pos.to_real_spec(config)];
        if has_site(sites, fid) {
            let j = site_index_for(sites, fid);
            let site = sites[j];
            let p1 = Person { forage: false, ..p };
            match site.source.0 {
                crate::planet::FoodType::Apple => {
                    if site.amount.apples > 0 && p.food.apples < 0xffffffffu32 {
                        (
                            Person {
                                food: FoodAmount {
                                    apples: (p.food.apples + 1) as u32,
                                    oranges: p.food.oranges,
                                },
                                ..p1
                            },
                            sites.update(
                                j,
                                FoodSite {
                                    amount: FoodAmount {
                                        apples: (site.amount.apples - 1) as u32,
                                        oranges: site.amount.oranges,
                                    },
                                    ..site
                                },
                            ),
                        )
                    } else {
                        (p1, sites)
                    }
                },
                crate::planet::FoodType::Orange => {
                    if site.amount.oranges > 0 && p.food.oranges < 0xffffffffu32 {
                        (
                            Person {
                                food: FoodAmount {
                                    apples: p.food.apples,
                                    oranges: (p.food.oranges + 1) as u32,
                                },
                                ..p1
                            },
                            sites.update(
                                j,
                                FoodSite {
                                    amount: FoodAmount {
                                        apples: site.amount.apples,
                                        oranges: (site.amount.oranges - 1) as u32,
                                    },
                                    ..site
                                },
                            ),
                        )
                    } else {
                        (p1, sites)
                    }
                },
            }
        } else {
            (p, sites)
        }
    } else {
        (p, sites)
    }
}

/// The foraging phase folded over the first `n` agents in storage order.
pub open spec fn forage_phase_spec(
    people: Seq<Person>,
    sites: Seq<FoodSite>,
    food_lookup: Map<RealCoords, u64>,
    config: Config,
    n: int,
) -> (Seq<Person>, Seq<FoodSite>)
    decreases n,
{
    if n <= 0 {
        (people, sites)
    } else {
        let prev = forage_phase_spec(people, sites, food_lookup, config, n - 1);
        let step = forage_step_spec(prev.0[n - 1], prev.1, food_lookup, config);
        (prev.0.update(n - 1, step.0), step.1)
    }
}

/// The fold keeps both lengths and never touches an agent whose turn has
/// not come.
pub proof fn lemma_forage_phase_untouched(
    people: Seq<Person>,
    sites: Seq<FoodSite>,
    food_lookup: Map<RealCoords, u64>,
    config: Config,
    n: int,
)
    requires
        0 <= n <= people.len(),
    ensures
        forage_phase_spec(people, sites, food_lookup, config, n).0.len() == people.len(),
        forage_phase_spec(people, sites, food_lookup, config, n).1.len() == sites.len(),
        forall|j: int|
            n <= j < people.len() ==> forage_phase_spec(people, sites, food_lookup, config, n).0[j]
                == people[j],
    decreases n,
{
    if n > 0 {
        lemma_forage_phase_untouched(people, sites, food_lookup, config, n - 1);
    }
}

/// The foraging phase as a relation between the world before and after:
/// exactly `foraging_system`'s contract.
pub open spec fn foraging_system_rel(a: World, b: World) -> bool {
    &&& b.wf()
    &&& b.config == a.config
    &&& b.time == a.time
    &&& b.next_id == a.next_id
    &&& b.person_lookup == a.person_lookup
    &&& b.food_lookup == a.food_lookup
    &&& b.interactions == a.interactions
    &&& b.stats == a.stats
    &&& b.people@.len() == a.people@.len()
    &&& b.food_sites@.len() == a.food_sites@.len()
    &&& ({
        let r = forage_phase_spec(
            a.people@,
            a.food_sites@,
            a.food_lookup.entities@,
            a.config,
            a.people@.len() as int,
        );
        b.people@ == r.0 && b.food_sites@ == r.1
    })
    &&& forall|i: int|
        0 <= i < a.people@.len() ==> same_but_forage(#[trigger] a.people@[i], b.people@[i])
    &&& forall|j: int|
        0 <= j < a.food_sites@.len() ==> {
            let s0 = #[trigger] a.food_sites@[j];
            let s1 = b.food_sites@[j];
            &&& s1 == (FoodSite { amount: s1.amount, ..s0 })
            &&& s1.amount.apples <= s0.amount.apples
            &&& s1.amount.oranges <= s0.amount.oranges
        }
}

/// Lets every living agent with a raised foraging flag take food where it
/// stands, in storage order: exactly the fold of `forage_step_spec` over
/// the population.
#[verifier::rlimit(100)]
#[verifier::spinoff_prover]
pub fn foraging_system(world: &mut World)
    requires
        old(world).wf(),
    ensures
        final(world).wf(),
        final(world).config == old(world).config,
        final(world).time == old(world).time,
        final(world).next_id == old(world).next_id,
        final(world).person_lookup == old(world).person_lookup,
        final(world).food_lookup == old(world).food_lookup,
        final(world).interactions == old(world).interactions,
        final(world).stats == old(world).stats,
        final(world).people@.len() == old(world).people@.len(),
        final(world).food_sites@.len() == old(world).food_sites@.len(),
        ({
            let r = forage_phase_spec(
                old(world).people@,
                old(world).food_sites@,
                old(world).food_lookup.entities@,
                old(world).config,
                old(world).people@.len() as int,
            );
            final(world).people@ == r.0 && final(world).food_sites@ == r.1
        }),
        forall|i: int|
            0 <= i < old(world).people@.len() ==> same_but_forage(
                #[trigger] old(world).people@[i],
                final(world).people@[i],
            ),
        forall|j: int|
            0 <= j < old(world).food_sites@.len() ==> {
                let s0 = #[trigger] old(world).food_sites@[j];
                let s1 = final(world).food_sites@[j];
                &&& s1 == (FoodSite { amount: s1.amount, ..s0 })
                &&& s1.amount.apples <= s0.amount.apples
                &&& s1.amount.oranges <= s0.amount.oranges
            },
        foraging_system_rel(*old(world), *final(world)),
{
    let ghost people0 = old(world).people@;
    let ghost sites0 = old(world).food_sites@;
    let ghost flookup = old(world).food_lookup.entities@;
    let ghost cfg = old(world).config;
    let n: usize = world.people.len();
    let mut i: usize = 0;
    while i < n
        invariant
            world.wf(),
            world.config == old(world).config,
            world.time == old(world).time,
            world.next_id == old(world).next_id,
            world.person_lookup == old(world).person_lookup,
            world.food_lookup == old(world).food_lookup,
            world.interactions == old(world).interactions,
            world.stats == old(world).stats,
            people0 == old(world).people@,
            sites0 == old(world).food_sites@,
            flookup == old(world).food_lookup.entities@,
            cfg == old(world).config,
            n == world.people@.len(),
            old(world).people@.len() == n,
            world.food_sites@.len() == old(world).food_sites@.len(),
            0 <= i <= n,
            world.people@ == forage_phase_spec(people0, sites0, flookup, cfg, i as int).0,
            world.food_sites@ == forage_phase_spec(people0, sites0, flookup, cfg, i as int).1,
            forall|j: int|
                0 <= j < n ==> same_but_forage(#[trigger] old(world).people@[j], world.people@[j]),
            forall|j: int| i <= j < n ==> world.people@[j] == #[trigger] old(world).people@[j],
            forall|j: int|
                0 <= j < old(world).food_sites@.len() ==> {
                    let s0 = #[trigger] old(world).food_sites@[j];
                    let s1 = world.food_sites@[j];
                    &&& s1 == (FoodSite { amount: s1.amount, ..s0 })
                    &&& s1.amount.apples <= s0.amount.apples
                    &&& s1.amount.oranges <= s0.amount.oranges
                },
        decreases n - i,
    {
        let ghost fold_pre = forage_phase_spec(people0, sites0, flookup, cfg, i as int);
        let ghost step = forage_step_spec(fold_pre.0[i as int], fold_pre.1, flookup, cfg);
        proof {
            lemma_forage_phase_untouched(people0, sites0, flookup, cfg, i as int);
            assert(fold_pre.0[i as int] == people0[i as int]);
        }
        if world.people[i].alive && world.people[i].forage {
            let rc: RealCoords = world.people[i].pos.to_real(&world.config);
            if let Some(fid) = world.food_lookup.entities.get(rc) {
                if let Some(sj) = world.food_index_of(fid) {
                    proof {
                        assert(has_site(world.food_sites@, fid));
                        let jspec = site_index_for(world.food_sites@, fid);
                        assert(world.food_sites@[jspec].id == fid);
                        assert(jspec == sj);
                    }
                    match world.food_sites[sj].source.0 {
                        crate::planet::FoodType::Apple => {
                            let stock: u32 = world.food_sites[sj].amount.apples;
                            let held: u32 = world.people[i].food.apples;
                            if stock > 0 && held < 0xffffffffu32 {
                                world.people[i].food.apples = held + 1;
                                world.food_sites[sj].amount.apples = stock - 1;
                            }
                        },
                        crate::planet::FoodType::Orange => {
                            let stock: u32 = world.food_sites[sj].amount.oranges;
                            let held: u32 = world.people[i].food.oranges;
                            if stock > 0 && held < 0xffffffffu32 {
                                world.people[i].food.oranges = held + 1;
                                world.food_sites[sj].amount.oranges = stock - 1;
                            }
                        },
                    }
                    world.people[i].forage = false;
                    proof {
                        assert(world.people@[i as int] == step.0);
                        assert(world.food_sites@ =~= step.1);
                        assert forall|j: int| 0 <= j < world.people@.len() implies {
                            let c = (#[trigger] world.people@[j]).pos.to_real_spec(world.config);
                            world.person_lookup.entities@.contains_key(c)
                                && world.person_lookup.entities@[c] == world.people@[j].id
                        } by {
                            assert(world.people@[j].pos == old(world).people@[j].pos);
                            assert(world.people@[j].id == old(world).people@[j].id);
                        }
                        assert forall|j: int| 0 <= j < world.food_sites@.len() implies {
                            let c = (#[trigger] world.food_sites@[j]).pos.to_real_spec(
                                world.config,
                            );
                            world.food_lookup.entities@.contains_key(c)
                                && world.food_lookup.entities@[c] == world.food_sites@[j].id
                        } by {
                            assert(world.food_sites@[j].pos == old(world).food_sites@[j].pos);
                            assert(world.food_sites@[j].id == old(world).food_sites@[j].id);
                        }
                    }
                } else {
                    proof {
                        if has_site(world.food_sites@, fid) {
                            let jspec = site_index_for(world.food_sites@, fid);
                            assert(world.food_sites@[jspec].id == fid);
                            assert(false);
                        }
                    }
                }
            }
        }
        proof {
            assert(world.people@ =~= fold_pre.0.update(i as int, step.0));
            assert(world.people@ == forage_phase_spec(people0, sites0, flookup, cfg, i as int + 1).0);
            assert(world.food_sites@ == forage_phase_spec(
                people0,
                sites0,
                flookup,
                cfg,
                i as int + 1,
            ).1);
        }
        i = i + 1;
    }
}

} // verus!

verus! {

/// How many of the first `n` people are alive, as counted by prefix.
proof fn lemma_count_alive_take_step(s: Seq<Person>, i: int)
    requires
        0 <= i < s.len(),
    ensures
        count_alive(s.take(i + 1)) == count_alive(s.take(i)) + if s[i].alive {
            1int
        } else {
            0int
        },
{
    assert(s.take(i + 1).drop_last() =~= s.take(i));
    assert(s.take(i + 1).last() == s[i]);
}

/// Picks a uniformly random living agent's index, if any agent is alive.
fn pick_random_living_index(people: &Vec<Person>) -> (r: Option<usize>)
    ensures
        match r {
            Some(k) => k < people@.len() && people@[k as int].alive,
            None => count_alive(people@) == 0,
        },
{
    let n: usize = people.len();
    let mut count: usize = 0;
    let mut i: usize = 0;
    while i < n
        invariant
            n == people@.len(),
            0 <= i <= n,
            count == count_alive(people@.take(i as int)),
            count <= i,
        decreases n - i,
    {
        proof {
            lemma_count_alive_take_step(people@, i as int);
        }
        if people[i].alive {
            count = count + 1;
        }
        i = i + 1;
    }
    proof {
        assert(people@.take(n as int) =~= people@);
    }
    if count == 0 {
        return None;
    }
    let target: usize = random_below_usize(count);
    let mut seen: usize = 0;
    let mut j: usize = 0;
    while j < n
        invariant
            n == people@.len(),
            0 <= j <= n,
            seen == count_alive(people@.take(j as int)),
            seen <= target,
            target < count_alive(people@),
        decreases n - j,
    {
        proof {
            lemma_count_alive_take_step(people@, j as int);
        }
        if people[j].alive {
            if seen == target {
                return Some(j);
            }
            seen = seen + 1;
        }
        j = j + 1;
    }
    proof {
        assert(people@.take(n as int) =~= people@);
        assert(false);
    }
    None
}

/// How a living agent comes through the cleanup pass: unchanged except
/// that its stock may have grown through the inheritance lottery (and did
/// not change at all when the lottery is off).
pub open spec fn survivor_image(p0: Person, p1: Person, lottery: bool) -> bool {
    &&& p1 == (Person { food: p1.food, ..p0 })
    &&& p1.food.apples >= p0.food.apples
    &&& p1.food.oranges >= p0.food.oranges
    &&& (!lottery ==> p1.food == p0.food)
}

/// How a dead agent still counting down comes through the cleanup pass:
/// unchanged except for exactly one tick less on the countdown.
pub open spec fn countdown_image(p0: Person, p1: Person) -> bool {
    p1 == (Person { ttl: (p0.ttl - 1) as u32, ..p0 })
}

/// `a + b` saturated at the machine word, as inherited stock is added.
pub open spec fn sat_add_u32(a: u32, b: u32) -> u32 {
    if a + b > u32::MAX {
        u32::MAX as u32
    } else {
        (a + b) as u32
    }
}

/// One despawn as a relation between the world before and after: exactly
/// `despawn_person_at`'s contract for the agent at index `j`.
pub open spec fn despawn_rel(pre: World, post: World, j: int) -> bool {
    &&& post.wf()
    &&& post.config == pre.config
    &&& post.time == pre.time
    &&& post.next_id == pre.next_id
    &&& post.food_sites == pre.food_sites
    &&& post.food_lookup == pre.food_lookup
    &&& post.interactions == pre.interactions
    &&& post.stats == pre.stats
    &&& post.person_lookup.entities@ == pre.person_lookup.entities@.remove(
        pre.people@[j].pos.to_real_spec(pre.config),
    )
    &&& crate::world::count_alive(post.people@) == crate::world::count_alive(pre.people@)
    &&& ({
        let removed = pre.people@.remove(j);
        let dead = pre.people@[j];
        if pre.config.game.death_lottery.value && crate::world::count_alive(pre.people@) > 0 {
            exists|w: int|
                0 <= w < removed.len() && (#[trigger] removed[w]).alive && post.people@
                    == removed.update(
                    w,
                    Person {
                        food: FoodAmount {
                            apples: sat_add_u32(removed[w].food.apples, dead.food.apples),
                            oranges: sat_add_u32(removed[w].food.oranges, dead.food.oranges),
                        },
                        ..removed[w]
                    },
                )
        } else {
            post.people@ == removed
        }
    })
}

/// Despawns the dead agent at index `i`, whose countdown has run out: its
/// record leaves the world and its cell leaves the spatial index, and —
/// when the inheritance lottery is on and anyone lives — exactly one
/// uniformly random living agent's stock grows by exactly the despawned
/// agent's stock per type (saturating at the machine word), with everyone
/// else untouched; without the lottery (or survivors) the agent simply
/// disappears.
#[verifier::rlimit(100)]
pub fn despawn_person_at(world: &mut World, i: usize)
    requires
        old(world).wf(),
        i < old(world).people@.len(),
        crate::world::despawn_due(old(world).people@[i as int]),
    ensures
        final(world).wf(),
        final(world).config == old(world).config,
        final(world).time == old(world).time,
        final(world).next_id == old(world).next_id,
        final(world).food_sites == old(world).food_sites,
        final(world).food_lookup == old(world).food_lookup,
        final(world).interactions == old(world).interactions,
        final(world).stats == old(world).stats,
        final(world).person_lookup.entities@ == old(world).person_lookup.entities@.remove(
            old(world).people@[i as int].pos.to_real_spec(old(world).config),
        ),
        crate::world::count_alive(final(world).people@) == crate::world::count_alive(
            old(world).people@,
        ),
        ({
            let removed = old(world).people@.remove(i as int);
            let dead = old(world).people@[i as int];
            if old(world).config.game.death_lottery.value && crate::world::count_alive(
                old(world).people@,
            ) > 0 {
                exists|w: int|
                    0 <= w < removed.len() && (#[trigger] removed[w]).alive && final(world).people@
                        == removed.update(
                        w,
                        Person {
                            food: FoodAmount {
                                apples: sat_add_u32(removed[w].food.apples, dead.food.apples),
                                oranges: sat_add_u32(removed[w].food.oranges, dead.food.oranges),
                            },
                            ..removed[w]
                        },
                    )
            } else {
                final(world).people@ == removed
            }
        }),
        despawn_rel(*old(world), *final(world), i as int),
{
    let ghost pre = *world;
    let rc: RealCoords = world.people[i].pos.to_real(&world.config);
    let food: FoodAmount = world.people[i].food;
    proof {
        world.person_lookup.entities.lemma_dom_finite();
    }
    world.person_lookup.entities.remove(rc);
    world.people.remove(i);
    proof {
        crate::world::lemma_count_alive_remove(pre.people@, i as int);
        assert forall|j: int| 0 <= j < world.people@.len() implies {
            let c = (#[trigger] world.people@[j]).pos.to_real_spec(world.config);
            world.person_lookup.entities@.contains_key(c) && world.person_lookup.entities@[c]
                == world.people@[j].id
        } by {
            let j0 = if j < i {
                j
            } else {
                j + 1
            };
            assert(world.people@[j] == pre.people@[j0]);
            let c = pre.people@[j0].pos.to_real_spec(pre.config);
            if c == rc {
                assert(pre.people@[j0].id == pre.people@[i as int].id);
                assert(false);
            }
        }
        assert forall|p2: int, q: int| 0 <= p2 < q < world.people@.len() implies (
        #[trigger] world.people@[p2]).id != (#[trigger] world.people@[q]).id by {
            let p0 = if p2 < i {
                p2
            } else {
                p2 + 1
            };
            let q0 = if q < i {
                q
            } else {
                q + 1
            };
            assert(world.people@[p2] == pre.people@[p0]);
            assert(world.people@[q] == pre.people@[q0]);
        }
        assert forall|j: int| 0 <= j < world.people@.len() implies (
        #[trigger] world.people@[j]).wf(world.config) && world.people@[j].id < world.next_id by {
            let j0 = if j < i {
                j
            } else {
                j + 1
            };
            assert(world.people@[j] == pre.people@[j0]);
        }
    }
    if world.config.game.death_lottery.value {
        let winner_opt: Option<usize> = pick_random_living_index(&world.people);
        if let Some(w) = winner_opt {
            let ghost before_win = world.people@;
            let wa: u32 = world.people[w].food.apples;
            let wo: u32 = world.people[w].food.oranges;
            world.people[w].food.apples = if wa as u64 + food.apples as u64 <= u32::MAX as u64 {
                wa + food.apples
            } else {
                u32::MAX
            };
            world.people[w].food.oranges = if wo as u64 + food.oranges as u64 <= u32::MAX as u64 {
                wo + food.oranges
            } else {
                u32::MAX
            };
            proof {
                assert(world.people@ =~= before_win.update(w as int, world.people@[w as int]));
                crate::world::lemma_count_alive_update(
                    before_win,
                    w as int,
                    world.people@[w as int],
                );
                assert forall|j: int| 0 <= j < world.people@.len() implies {
                    let c = (#[trigger] world.people@[j]).pos.to_real_spec(world.config);
                    world.person_lookup.entities@.contains_key(c)
                        && world.person_lookup.entities@[c] == world.people@[j].id
                } by {}
                assert(world.people@[w as int] == (Person {
                    food: FoodAmount {
                        apples: sat_add_u32(before_win[w as int].food.apples, food.apples),
                        oranges: sat_add_u32(before_win[w as int].food.oranges, food.oranges),
                    },
                    ..before_win[w as int]
                }));
                let removed = pre.people@.remove(i as int);
                assert(before_win == removed);
                crate::world::lemma_count_alive_bounds(before_win);
                assert(crate::world::count_alive(pre.people@) > 0);
                assert((#[trigger] removed[w as int]).alive);
                assert(world.people@ == removed.update(
                    w as int,
                    Person {
                        food: FoodAmount {
                            apples: sat_add_u32(
                                removed[w as int].food.apples,
                                pre.people@[i as int].food.apples,
                            ),
                            oranges: sat_add_u32(
                                removed[w as int].food.oranges,
                                pre.people@[i as int].food.oranges,
                            ),
                        },
                        ..removed[w as int]
                    },
                ));
            }
        } else {
            proof {
                if crate::world::count_alive(pre.people@) > 0 {
                    assert(false);
                }
            }
        }
    }
}

/// The despawn phase as a relation between the world before and after:
/// exactly `cleanup_system`'s contract.
pub open spec fn cleanup_system_rel(a: World, b: World) -> bool {
    &&& b.wf()
    &&& b.config == a.config
    &&& b.time == a.time
    &&& b.next_id == a.next_id
    &&& b.food_sites == a.food_sites
    &&& b.food_lookup == a.food_lookup
    &&& b.interactions == a.interactions
    &&& b.stats == a.stats
    &&& b.people@.len() == a.people@.len() - crate::world::count_due(a.people@)
    &&& crate::world::count_alive(b.people@) == crate::world::count_alive(a.people@)
    &&& forall|oi: int|
        0 <= oi < a.people@.len() && (#[trigger] a.people@[oi]).alive ==> exists|j: int|
            0 <= j < b.people@.len() && survivor_image(
                a.people@[oi],
                #[trigger] b.people@[j],
                a.config.game.death_lottery.value,
            )
    &&& forall|oi: int|
        0 <= oi < a.people@.len() && !(#[trigger] a.people@[oi]).alive && a.people@[oi].ttl > 0
            ==> exists|j: int|
            0 <= j < b.people@.len() && countdown_image(a.people@[oi], #[trigger] b.people@[j])
    &&& forall|oi: int|
        0 <= oi < a.people@.len() && crate::world::despawn_due(#[trigger] a.people@[oi])
            ==> !b.person_lookup.entities@.contains_key(
            a.people@[oi].pos.to_real_spec(a.config),
        )
}

/// Counts down every dead agent's despawn countdown; at zero the agent
/// despawns: its entry leaves the spatial index and its record leaves the
/// world, and — when the inheritance lottery is enabled — its held food
/// passes to one uniformly random living agent.  Every living agent
/// survives as `survivor_image` says; every dead agent still counting down
/// survives as `countdown_image` says; exactly the due agents disappear.
#[verifier::rlimit(100)]
#[verifier::spinoff_prover]
pub fn cleanup_system(world: &mut World)
    requires
        old(world).wf(),
    ensures
        final(world).wf(),
        final(world).config == old(world).config,
        final(world).time == old(world).time,
        final(world).next_id == old(world).next_id,
        final(world).food_sites == old(world).food_sites,
        final(world).food_lookup == old(world).food_lookup,
        final(world).interactions == old(world).interactions,
        final(world).stats == old(world).stats,
        final(world).people@.len() == old(world).people@.len() - crate::world::count_due(
            old(world).people@,
        ),
        crate::world::count_alive(final(world).people@) == crate::world::count_alive(
            old(world).people@,
        ),
        forall|oi: int|
            0 <= oi < old(world).people@.len() && (#[trigger] old(world).people@[oi]).alive
                ==> exists|j: int|
                0 <= j < final(world).people@.len() && survivor_image(
                    old(world).people@[oi],
                    #[trigger] final(world).people@[j],
                    old(world).config.game.death_lottery.value,
                ),
        forall|oi: int|
            0 <= oi < old(world).people@.len() && !(#[trigger] old(world).people@[oi]).alive
                && old(world).people@[oi].ttl > 0 ==> exists|j: int|
                0 <= j < final(world).people@.len() && countdown_image(
                    old(world).people@[oi],
                    #[trigger] final(world).people@[j],
                ),
        forall|oi: int|
            0 <= oi < old(world).people@.len() && crate::world::despawn_due(
                #[trigger] old(world).people@[oi],
            ) ==> !final(world).person_lookup.entities@.contains_key(
                old(world).people@[oi].pos.to_real_spec(old(world).config),
            ),
        cleanup_system_rel(*old(world), *final(world)),
{
    let ghost people0 = old(world).people@;
    let ghost n0 = old(world).people@.len() as int;
    let ghost lottery = old(world).config.game.death_lottery.value;
    let ghost mut processed: int = 0;
    let mut i: usize = 0;
    while i < world.people.len()
        invariant
            world.wf(),
            world.config == old(world).config,
            world.time == old(world).time,
            world.next_id == old(world).next_id,
            world.food_sites == old(world).food_sites,
            world.food_lookup == old(world).food_lookup,
            world.interactions == old(world).interactions,
            world.stats == old(world).stats,
            people0 == old(world).people@,
            n0 == old(world).people@.len(),
            lottery == old(world).config.game.death_lottery.value,
            count_alive(world.people@) == count_alive(people0),
            0 <= i as int <= world.people@.len(),
            0 <= processed <= n0,
            world.people@.len() == i as int + (n0 - processed),
            i as int == processed - crate::world::count_due(people0.take(processed)),
            forall|j: int|
                i <= j < world.people@.len() ==> survivor_image(
                    people0[processed + (j - i)],
                    #[trigger] world.people@[j],
                    lottery,
                ) && (!people0[processed + (j - i)].alive ==> world.people@[j] == people0[processed
                    + (j - i)]),
            forall|oi: int|
                0 <= oi < processed && (#[trigger] people0[oi]).alive ==> exists|j: int|
                    0 <= j < i && survivor_image(people0[oi], #[trigger] world.people@[j], lottery),
            forall|oi: int|
                0 <= oi < processed && !(#[trigger] people0[oi]).alive && people0[oi].ttl > 0
                    ==> exists|j: int|
                    0 <= j < i && countdown_image(people0[oi], #[trigger] world.people@[j]),
            forall|oi: int|
                0 <= oi < processed && crate::world::despawn_due(#[trigger] people0[oi])
                    ==> !world.person_lookup.entities@.contains_key(
                    people0[oi].pos.to_real_spec(old(world).config),
                ),
        decreases world.people@.len() - i,
    {
        let ghost seq0 = world.people@;
        proof {
            crate::world::lemma_count_due_take_step(people0, processed);
            assert(survivor_image(people0[processed], world.people@[i as int], lottery));
        }
        if world.people[i].alive {
            proof {
                processed = processed + 1;
            }
            i = i + 1;
        } else if world.people[i].ttl > 0 {
            let t: u32 = world.people[i].ttl;
            world.people[i].ttl = t - 1;
            proof {
                crate::world::lemma_count_alive_update(seq0, i as int, world.people@[i as int]);
                assert(world.people@[i as int] == (Person {
                    ttl: (people0[processed].ttl - 1) as u32,
                    ..people0[processed]
                }));
                assert(countdown_image(people0[processed], world.people@[i as int]));
                assert forall|j: int| 0 <= j < world.people@.len() implies {
                    let c = (#[trigger] world.people@[j]).pos.to_real_spec(world.config);
                    world.person_lookup.entities@.contains_key(c)
                        && world.person_lookup.entities@[c] == world.people@[j].id
                } by {}
                assert forall|j: int|
                    i < j < world.people@.len() implies survivor_image(
                    people0[processed + (j - i)],
                    #[trigger] world.people@[j],
                    lottery,
                ) && (!people0[processed + (j - i)].alive ==> world.people@[j] == people0[processed
                    + (j - i)]) by {
                    assert(world.people@[j] == seq0[j]);
                }
                assert forall|oi: int|
                    0 <= oi < processed && (#[trigger] people0[oi]).alive implies exists|j: int|
                    0 <= j < i && survivor_image(
                        people0[oi],
                        #[trigger] world.people@[j],
                        lottery,
                    ) by {
                    let j = choose|j: int|
                        0 <= j < i && survivor_image(people0[oi], #[trigger] seq0[j], lottery);
                    assert(world.people@[j] == seq0[j]);
                }
                assert forall|oi: int|
                    0 <= oi < processed && !(#[trigger] people0[oi]).alive && people0[oi].ttl > 0
                        implies exists|j: int|
                    0 <= j < i && countdown_image(people0[oi], #[trigger] world.people@[j]) by {
                    let j = choose|j: int|
                        0 <= j < i && countdown_image(people0[oi], #[trigger] seq0[j]);
                    assert(world.people@[j] == seq0[j]);
                }
                processed = processed + 1;
            }
            i = i + 1;
        } else {
            let ghost pre = *world;
            proof {
                assert(crate::world::despawn_due(world.people@[i as int]));
                assert(pre.people@[i as int].pos.to_real_spec(pre.config)
                    == people0[processed].pos.to_real_spec(old(world).config));
            }
            despawn_person_at(world, i);
            proof {
                let removed = pre.people@.remove(i as int);
                let dead = pre.people@[i as int];
                let lottery_ran = pre.config.game.death_lottery.value && count_alive(pre.people@)
                    > 0;
                if lottery_ran {
                    let w = choose|w: int|
                        0 <= w < removed.len() && (#[trigger] removed[w]).alive && world.people@
                            == removed.update(
                            w,
                            Person {
                                food: FoodAmount {
                                    apples: sat_add_u32(removed[w].food.apples, dead.food.apples),
                                    oranges: sat_add_u32(
                                        removed[w].food.oranges,
                                        dead.food.oranges,
                                    ),
                                },
                                ..removed[w]
                            },
                        );
                    assert forall|j: int|
                        0 <= j < world.people@.len() implies survivor_image(
                        removed[j],
                        #[trigger] world.people@[j],
                        lottery,
                    ) && (!removed[j].alive ==> world.people@[j] == removed[j]) by {
                        if j != w {
                            assert(world.people@[j] == removed[j]);
                        }
                    }
                } else {
                    assert(world.people@ == removed);
                    assert forall|j: int|
                        0 <= j < world.people@.len() implies survivor_image(
                        removed[j],
                        #[trigger] world.people@[j],
                        lottery,
                    ) && (!removed[j].alive ==> world.people@[j] == removed[j]) by {}
                }
                // With each current entry related to `removed`, carry every
                // invariant over the removal.
                assert forall|j: int|
                    i <= j < world.people@.len() implies survivor_image(
                    people0[processed + 1 + (j - i)],
                    #[trigger] world.people@[j],
                    lottery,
                ) && (!people0[processed + 1 + (j - i)].alive ==> world.people@[j] == people0[
                processed + 1 + (j - i)]) by {
                    let oi = processed + 1 + (j - i);
                    assert(removed[j] == seq0[j + 1]);
                    assert(survivor_image(people0[oi], seq0[j + 1], lottery));
                    assert(survivor_image(removed[j], world.people@[j], lottery));
                }
                assert forall|oi: int|
                    0 <= oi < processed + 1 && (#[trigger] people0[oi]).alive implies exists|
                    j: int,
                |
                    0 <= j < i && survivor_image(
                        people0[oi],
                        #[trigger] world.people@[j],
                        lottery,
                    ) by {
                    assert(oi < processed);
                    let j = choose|j: int|
                        0 <= j < i && survivor_image(people0[oi], #[trigger] seq0[j], lottery);
                    assert(removed[j] == seq0[j]);
                    assert(survivor_image(removed[j], world.people@[j], lottery));
                    assert(survivor_image(people0[oi], world.people@[j], lottery));
                }
                assert forall|oi: int|
                    0 <= oi < processed + 1 && !(#[trigger] people0[oi]).alive && people0[oi].ttl
                        > 0 implies exists|j: int|
                    0 <= j < i && countdown_image(people0[oi], #[trigger] world.people@[j]) by {
                    assert(oi < processed);
                    let j = choose|j: int|
                        0 <= j < i && countdown_image(people0[oi], #[trigger] seq0[j]);
                    assert(removed[j] == seq0[j]);
                    assert(!removed[j].alive);
                    assert(world.people@[j] == removed[j]);
                }
                processed = processed + 1;
            }
        }
    }
    proof {
        assert(people0.take(n0) =~= people0);
    }
}

/// Seeds the world's starting population: the world is filled up to
/// exactly `min(starting_people, size_x*size_y)` agents (a world already
/// that populous is left alone), each on a previously unoccupied cell —
/// a random cell where random placement succeeds within its budget, else
/// the first free cell of a deterministic sweep, which always exists while
/// the grid is not full.  Each new agent has a random age below the
/// maximum (0 when no maximum is set), a random sex, three of each food
/// and no hunger; existing entities are untouched.
pub fn init_people(world: &mut World)
    requires
        old(world).wf(),
        old(world).next_id <= u64::MAX - 0x40000000,
    ensures
        final(world).wf(),
        final(world).config == old(world).config,
        final(world).time == old(world).time,
        final(world).food_sites == old(world).food_sites,
        final(world).food_lookup == old(world).food_lookup,
        final(world).interactions == old(world).interactions,
        final(world).stats == old(world).stats,
        final(world).people@.len() as int == ({
            let target = if old(world).config.game.starting_people.value as int <= old(
                world,
            ).config.map.size_x.value as int * old(world).config.map.size_y.value as int {
                old(world).config.game.starting_people.value as int
            } else {
                old(world).config.map.size_x.value as int * old(
                    world,
                ).config.map.size_y.value as int
            };
            if old(world).people@.len() as int >= target {
                old(world).people@.len() as int
            } else {
                target
            }
        }),
        forall|j: int|
            0 <= j < old(world).people@.len() ==> final(world).people@[j] == #[trigger] old(
                world,
            ).people@[j],
        forall|j: int|
            old(world).people@.len() <= j < final(world).people@.len() ==> {
                let p = #[trigger] final(world).people@[j];
                &&& p.alive
                &&& p.food == (FoodAmount { apples: 3, oranges: 3 })
                &&& p.hunger == (Hunger { apple: 0, orange: 0 })
                &&& p.move_to is None
                &&& !p.forage
                &&& p.ttl == 0
                &&& (old(world).config.game.max_person_age.value > 0 ==> p.age < old(
                    world,
                ).config.game.max_person_age.value)
                &&& (old(world).config.game.max_person_age.value == 0 ==> p.age == 0)
            },
{
    proof {
        assert(world.config.map.size_x.value as u64 * world.config.map.size_y.value as u64
            <= 0x40000000u64) by (nonlinear_arith)
            requires
                world.config.map.size_x.value as u64 <= 32768
                    && world.config.map.size_y.value as u64 <= 32768,
        ;
    }
    let cells: u64 = world.config.map.size_x.value as u64 * world.config.map.size_y.value as u64;
    let target: u64 = if world.config.game.starting_people.value as u64 > cells {
        cells
    } else {
        world.config.game.starting_people.value as u64
    };
    while (world.person_lookup.entities.len() as u64) < target
        invariant
            world.wf(),
            world.config == old(world).config,
            world.time == old(world).time,
            world.food_sites == old(world).food_sites,
            world.food_lookup == old(world).food_lookup,
            world.interactions == old(world).interactions,
            world.stats == old(world).stats,
            old(world).next_id <= u64::MAX - 0x40000000,
            cells as int == old(world).config.map.size_x.value as int * old(
                world,
            ).config.map.size_y.value as int,
            cells <= 0x40000000,
            target as int == (if old(world).config.game.starting_people.value as int
                <= cells as int {
                old(world).config.game.starting_people.value as int
            } else {
                cells as int
            }),
            world.people@.len() >= old(world).people@.len(),
            world.people@.len() as int <= (if old(world).people@.len() as int >= target as int {
                old(world).people@.len() as int
            } else {
                target as int
            }),
            world.next_id as int <= old(world).next_id as int + (world.people@.len() - old(
                world,
            ).people@.len()),
            forall|j: int|
                0 <= j < old(world).people@.len() ==> world.people@[j] == #[trigger] old(
                    world,
                ).people@[j],
            forall|j: int|
                old(world).people@.len() <= j < world.people@.len() ==> {
                    let p = #[trigger] world.people@[j];
                    &&& p.alive
                    &&& p.food == (FoodAmount { apples: 3, oranges: 3 })
                    &&& p.hunger == (Hunger { apple: 0, orange: 0 })
                    &&& p.move_to is None
                    &&& !p.forage
                    &&& p.ttl == 0
                    &&& (old(world).config.game.max_person_age.value > 0 ==> p.age < old(
                        world,
                    ).config.game.max_person_age.value)
                    &&& (old(world).config.game.max_person_age.value == 0 ==> p.age == 0)
                },
        decreases target as int - world.people@.len(),
    {
        let ghost len0 = world.people@.len() as int;
        let age: u32 = if world.config.game.max_person_age.value > 0 {
            random_below(world.config.game.max_person_age.value)
        } else {
            0
        };
        let sex: Sex = if random_coin() {
            Sex::Male
        } else {
            Sex::Female
        };
        let mut placed: bool = false;
        let mut tries: u32 = 0;
        while !placed && tries < 64
            invariant
                world.wf(),
                world.config == old(world).config,
                world.time == old(world).time,
                world.food_sites == old(world).food_sites,
                world.food_lookup == old(world).food_lookup,
                world.interactions == old(world).interactions,
                world.stats == old(world).stats,
                old(world).next_id <= u64::MAX - 0x40000000,
                tries <= 64,
                old(world).config.game.max_person_age.value > 0 ==> age < old(
                    world,
                ).config.game.max_person_age.value,
                old(world).config.game.max_person_age.value == 0 ==> age == 0,
                len0 == (if placed {
                    world.people@.len() - 1
                } else {
                    world.people@.len() as int
                }),
                len0 >= old(world).people@.len(),
                len0 < target as int,
                target <= cells <= 0x40000000,
                world.next_id as int <= old(world).next_id as int + (world.people@.len() - old(
                    world,
                ).people@.len()),
                forall|j: int|
                    0 <= j < old(world).people@.len() ==> world.people@[j] == #[trigger] old(
                        world,
                    ).people@[j],
                forall|j: int|
                    old(world).people@.len() <= j < world.people@.len() ==> {
                        let p = #[trigger] world.people@[j];
                        &&& p.alive
                        &&& p.food == (FoodAmount { apples: 3, oranges: 3 })
                        &&& p.hunger == (Hunger { apple: 0, orange: 0 })
                        &&& p.move_to is None
                        &&& !p.forage
                        &&& p.ttl == 0
                        &&& (old(world).config.game.max_person_age.value > 0 ==> p.age < old(
                            world,
                        ).config.game.max_person_age.value)
                        &&& (old(world).config.game.max_person_age.value == 0 ==> p.age == 0)
                    },
            decreases 64 - tries,
        {
            let ghost before_try = world.people@;
            let x: u32 = random_below(world.config.map.size_x.value);
            let y: u32 = random_below(world.config.map.size_y.value);
            let pos = VirtualCoords { x: x as i32, y: y as i32 };
            let r: Option<u64> = world.spawn_person(
                pos,
                sex,
                age,
                FoodAmount { apples: 3, oranges: 3 },
                Hunger { apple: 0, orange: 0 },
            );
            proof {
                assert forall|j: int|
                    old(world).people@.len() <= j < world.people@.len() implies {
                    let p = #[trigger] world.people@[j];
                    &&& p.alive
                    &&& p.food == (FoodAmount { apples: 3, oranges: 3 })
                    &&& p.hunger == (Hunger { apple: 0, orange: 0 })
                    &&& p.move_to is None
                    &&& !p.forage
                    &&& p.ttl == 0
                    &&& (old(world).config.game.max_person_age.value > 0 ==> p.age < old(
                        world,
                    ).config.game.max_person_age.value)
                    &&& (old(world).config.game.max_person_age.value == 0 ==> p.age == 0)
                } by {
                    if j < before_try.len() {
                        assert(world.people@[j] == before_try[j]);
                    } else {
                        assert(world.people@[j] == world.people@.last());
                    }
                }
            }
            if r.is_some() {
                placed = true;
            }
            tries = tries + 1;
        }
        if !placed {
            proof {
                // Fewer agents stand than the grid has cells, so the sweep
                // below finds a free one.
                assert(world.person_lookup.entities@.dom().len() < cells as int);
            }
            let cell: RealCoords = world.person_lookup.entities.first_free_cell(
                world.config.map.size_x.value,
                world.config.map.size_y.value,
            );
            let pos: VirtualCoords = cell.as_virtual();
            proof {
                crate::measures::lemma_canonical_to_real(pos, world.config);
                assert(pos.to_real_spec(world.config) == cell);
            }
            let r: Option<u64> = world.spawn_person(
                pos,
                sex,
                age,
                FoodAmount { apples: 3, oranges: 3 },
                Hunger { apple: 0, orange: 0 },
            );
            proof {
                assert(r is Some);
            }
        }
    }
}

} // verus!
