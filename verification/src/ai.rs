//! The per-agent decision engine: a fixed list of needs, each scored in
//! milli-units, evaluated in declared priority order with
//! first-at-or-above-threshold-wins semantics, and the actions of the
//! winning needs.
//!
//! Scores are fixed-point milli-units (1000 = 1.0); the winning threshold
//! is 800 (0.8).  Site scores compare exact rationals by putting them over
//! the common denominator `1000 * (1 + apples + oranges)`.

use vstd::prelude::*;
use crate::config::Config;
use crate::lookup::Lookup;
use crate::measures::{RealCoords, VirtualCoords};
use crate::people::{
    eat_step, eat_step_spec, mark_dead_spec, Information, Person, HUNGER_EAT_THRESHOLD,
    TARGET_BOUND,
};
use crate::planet::{FoodAmount, FoodSource};
use crate::world::{unchanged_except_people, World};

verus! {

/// The score at or above which a need wins (0.8 in milli-units).
pub const SCORE_THRESHOLD: u32 = 800;

/// The competing needs, in their fixed priority order.
#[derive(Copy, Clone, Debug, PartialEq, Eq, Structural)]
pub enum Need {
    /// Some food type's hunger demands eating.
    Hungry,
    /// Stock is short of the goal: seek food or explore.
    MoveNeed,
}

/// The hunger need scores 1.0 when either food type's hunger exceeds 1.0,
/// else 0.
pub open spec fn hungry_score_spec(p: Person) -> u32 {
    if p.hunger.apple > HUNGER_EAT_THRESHOLD || p.hunger.orange > HUNGER_EAT_THRESHOLD {
        1000
    } else {
        0
    }
}

/// The seek-food need: 0 while a movement target is pending, else the
/// stock shortfall relative to the goal plus the configured bias, clamped
/// to [0, 1].  Division truncates toward zero, as the executable code does.
pub open spec fn move_score_spec(p: Person, config: Config) -> u32 {
    if p.move_to is Some {
        0
    } else {
        let goal = config.ai.food_amount_goal.value as int;
        let lack_a = goal - p.food.apples;
        let lack_o = goal - p.food.oranges;
        let lack = if lack_a >= lack_o {
            lack_a
        } else {
            lack_o
        };
        let scaled = if lack >= 0 {
            lack * 1000 / goal
        } else {
            -((-lack) * 1000 / goal)
        };
        let raw = scaled + config.ai.food_amount_threshold.value;
        if raw < 0 {
            0
        } else if raw > 1000 {
            1000
        } else {
            raw as u32
        }
    }
}

/// The need that wins for this agent: the first need, in priority order
/// (hunger, then seek-food), whose score reaches the threshold.
pub open spec fn decide_spec(p: Person, config: Config) -> Option<Need> {
    if hungry_score_spec(p) >= SCORE_THRESHOLD {
        Some(Need::Hungry)
    } else if move_score_spec(p, config) >= SCORE_THRESHOLD {
        Some(Need::MoveNeed)
    } else {
        None
    }
}

/// Scores the hunger need.
pub fn hungry_scorer(p: &Person) -> (r: u32)
    ensures
        r == hungry_score_spec(*p),
{
    if p.hunger.apple > HUNGER_EAT_THRESHOLD || p.hunger.orange > HUNGER_EAT_THRESHOLD {
        1000
    } else {
        0
    }
}

/// Scores the seek-food need.
pub fn move_scorer(p: &Person, config: &Config) -> (r: u32)
    requires
        config.valid(),
    ensures
        r == move_score_spec(*p, *config),
{
    if p.move_to.is_some() {
        return 0;
    }
    let goal: i64 = config.ai.food_amount_goal.value as i64;
    let lack_a: i64 = goal - p.food.apples as i64;
    let lack_o: i64 = goal - p.food.oranges as i64;
    let lack: i64 = if lack_a >= lack_o {
        lack_a
    } else {
        lack_o
    };
    let scaled: i64 = if lack >= 0 {
        lack * 1000 / goal
    } else {
        -((-lack) * 1000 / goal)
    };
    let raw: i64 = scaled + config.ai.food_amount_threshold.value as i64;
    if raw < 0 {
        0
    } else if raw > 1000 {
        1000
    } else {
        raw as u32
    }
}

/// Picks the winning need for this agent, if any.
pub fn decide(p: &Person, config: &Config) -> (r: Option<Need>)
    requires
        config.valid(),
    ensures
        r == decide_spec(*p, *config),
{
    if hungry_scorer(p) >= SCORE_THRESHOLD {
        Some(Need::Hungry)
    } else if move_scorer(p, config) >= SCORE_THRESHOLD {
        Some(Need::MoveNeed)
    } else {
        None
    }
}

/// One agent's passage through the eat action: agents whose winning need is
/// hunger eat (or starve) by `eat_step_spec`; everyone else is untouched.
pub open spec fn eat_phase_step_spec(p: Person, config: Config) -> Person {
    if p.alive && decide_spec(p, config) == Some(Need::Hungry) {
        let r = eat_step_spec(p.hunger, p.food, config);
        if r.2 {
            mark_dead_spec(p, config)
        } else {
            Person { hunger: r.0, food: r.1, ..p }
        }
    } else {
        p
    }
}

/// The eat phase as a relation between the world before and after:
/// exactly `eat_action_system`'s contract, element by element.
pub open spec fn eat_action_system_rel(a: World, b: World) -> bool {
    &&& b.wf()
    &&& unchanged_except_people(&a, &b)
    &&& b.people@.len() == a.people@.len()
    &&& forall|i: int|
        0 <= i < a.people@.len() ==> b.people@[i] == eat_phase_step_spec(
            #[trigger] a.people@[i],
            a.config,
        )
}

/// Runs the eat action for every living agent whose winning need is hunger:
/// it eats one unit of a qualifying food type, or dies of starvation when
/// no type qualifies.
pub fn eat_action_system(world: &mut World)
    requires
        old(world).wf(),
    ensures
        final(world).wf(),
        unchanged_except_people(old(world), final(world)),
        final(world).people@ == old(world).people@.map_values(
            |p: Person| eat_phase_step_spec(p, old(world).config),
        ),
        eat_action_system_rel(*old(world), *final(world)),
{
    let n: usize = world.people.len();
    let mut i: usize = 0;
    while i < n
        invariant
            old(world).wf(),
            world.config.valid(),
            unchanged_except_people(old(world), world),
            n == world.people@.len(),
            old(world).people@.len() == n,
            0 <= i <= n,
            forall|j: int|
                0 <= j < i ==> world.people@[j] == eat_phase_step_spec(
                    #[trigger] old(world).people@[j],
                    old(world).config,
                ),
            forall|j: int| i <= j < n ==> world.people@[j] == #[trigger] old(world).people@[j],
        decreases n - i,
    {
        if world.people[i].alive {
            let need: Option<Need> = decide(&world.people[i], &world.config);
            if let Some(Need::Hungry) = need {
                proof {
                    assert(old(world).people@[i as int].wf(old(world).config));
                }
                let r: (crate::people::Hunger, FoodAmount, bool) = eat_step(
                    world.people[i].hunger,
                    world.people[i].food,
                    &world.config,
                );
                if r.2 {
                    let ttl: u32 = world.config.game.person_ttl.value;
                    world.people[i].alive = false;
                    world.people[i].ttl = ttl;
                } else {
                    world.people[i].hunger = r.0;
                    world.people[i].food = r.1;
                }
            }
        }
        proof {
            assert(world.people@[i as int] == eat_phase_step_spec(
                old(world).people@[i as int],
                old(world).config,
            ));
        }
        i = i + 1;
    }
    proof {
        assert(world.people@ =~= old(world).people@.map_values(
            |p: Person| eat_phase_step_spec(p, old(world).config),
        ));
        assert forall|j: int| 0 <= j < world.people@.len() implies (
        #[trigger] world.people@[j]).wf(world.config) by {
            assert(world.people@[j] == eat_phase_step_spec(
                old(world).people@[j],
                old(world).config,
            ));
            assert(old(world).people@[j].wf(old(world).config));
        }
    }
}

/// Whether `c` lies on one of the four cardinal rays of length `v` around
/// `origin` (the origin cell itself included).
pub open spec fn on_ray(c: VirtualCoords, origin: VirtualCoords, v: int) -> bool {
    ||| (c.y == origin.y && origin.x - v <= c.x <= origin.x + v)
    ||| (c.x == origin.x && origin.y - v <= c.y <= origin.y + v)
}

/// Searches outward along the four cardinal rays, up to the vision range,
/// for cells occupied by a food source.  Returns one record per occupied
/// scanned coordinate: the source's identity and where it was seen.  Every
/// occupied ray coordinate is reported.
pub fn find_food(
    food_lookup: &Lookup<FoodSource>,
    config: &Config,
    origin: &VirtualCoords,
    vision_range: u32,
) -> (r: Vec<Information>)
    requires
        config.valid(),
        food_lookup.entities.wf(),
        origin.canonical(*config),
        vision_range <= 1024,
    ensures
        forall|k: int|
            0 <= k < r@.len() ==> {
                let info = #[trigger] r@[k];
                &&& on_ray(info.coords, *origin, vision_range as int)
                &&& food_lookup.entities@.contains_key(info.coords.to_real_spec(*config))
                &&& info.entity == food_lookup.entities@[info.coords.to_real_spec(*config)]
                &&& -TARGET_BOUND <= info.coords.x <= TARGET_BOUND
                &&& -TARGET_BOUND <= info.coords.y <= TARGET_BOUND
            },
        forall|c: VirtualCoords|
            on_ray(c, *origin, vision_range as int) && food_lookup.entities@.contains_key(
                c.to_real_spec(*config),
            ) ==> exists|k: int| 0 <= k < r@.len() && (#[trigger] r@[k]).coords == c,
        forall|k1: int, k2: int|
            0 <= k1 < k2 < r@.len() && (#[trigger] r@[k1]).coords == (#[trigger] r@[k2]).coords
                ==> r@[k1].coords == *origin,
{
    let mut result: Vec<Information> = Vec::new();
    let v: i32 = vision_range as i32;
    let mut dx: i32 = -v;
    while dx <= v
        invariant
            config.valid(),
            food_lookup.entities.wf(),
            origin.canonical(*config),
            0 <= v <= 1024,
            -v <= dx <= v + 1,
            forall|k: int|
                0 <= k < result@.len() ==> {
                    let info = #[trigger] result@[k];
                    &&& on_ray(info.coords, *origin, v as int)
                    &&& food_lookup.entities@.contains_key(info.coords.to_real_spec(*config))
                    &&& info.entity == food_lookup.entities@[info.coords.to_real_spec(*config)]
                    &&& -TARGET_BOUND <= info.coords.x <= TARGET_BOUND
                    &&& -TARGET_BOUND <= info.coords.y <= TARGET_BOUND
                },
            forall|c: VirtualCoords|
                c.y == origin.y && origin.x - v <= c.x < origin.x + dx
                    && food_lookup.entities@.contains_key(c.to_real_spec(*config)) ==> exists|
                    k: int,
                |
                    0 <= k < result@.len() && (#[trigger] result@[k]).coords == c,
            forall|k: int|
                0 <= k < result@.len() ==> (#[trigger] result@[k]).coords.y == origin.y
                    && result@[k].coords.x - origin.x < dx,
            forall|k1: int, k2: int|
                0 <= k1 < k2 < result@.len() ==> (#[trigger] result@[k1]).coords.x < (
                #[trigger] result@[k2]).coords.x,
        decreases v + 1 - dx,
    {
        let ghost result0 = result@;
        let c = VirtualCoords { x: origin.x + dx, y: origin.y };
        let rc: RealCoords = c.to_real(config);
        if let Some(id) = food_lookup.entities.get(rc) {
            result.push(Information { entity: id, coords: c });
            proof {
                assert(result@.last() == (Information { entity: id, coords: c }));
            }
        }
        proof {
            assert forall|c2: VirtualCoords|
                c2.y == origin.y && origin.x - v <= c2.x < origin.x + dx + 1
                    && food_lookup.entities@.contains_key(c2.to_real_spec(*config)) implies exists|
                k: int,
            |
                0 <= k < result@.len() && (#[trigger] result@[k]).coords == c2 by {
                if c2.x == origin.x + dx {
                    assert(c2 == c);
                    assert(result@.last() == (Information {
                        entity: food_lookup.entities@[c.to_real_spec(*config)],
                        coords: c,
                    }));
                } else {
                    assert(exists|k: int|
                        0 <= k < result0.len() && (#[trigger] result0[k]).coords == c2);
                    let k = choose|k: int|
                        0 <= k < result0.len() && (#[trigger] result0[k]).coords == c2;
                    assert(result@[k].coords == c2);
                }
            }
        }
        dx = dx + 1;
    }
    let ghost xlen = result@.len() as int;
    let mut dy: i32 = -v;
    while dy <= v
        invariant
            0 <= xlen <= result@.len(),
            forall|k: int|
                0 <= k < xlen ==> (#[trigger] result@[k]).coords.y == origin.y,
            forall|k1: int, k2: int|
                0 <= k1 < k2 < xlen ==> (#[trigger] result@[k1]).coords.x < (
                #[trigger] result@[k2]).coords.x,
            forall|k: int|
                xlen <= k < result@.len() ==> (#[trigger] result@[k]).coords.x == origin.x
                    && result@[k].coords.y - origin.y < dy,
            forall|k1: int, k2: int|
                xlen <= k1 < k2 < result@.len() ==> (#[trigger] result@[k1]).coords.y < (
                #[trigger] result@[k2]).coords.y,
            config.valid(),
            food_lookup.entities.wf(),
            origin.canonical(*config),
            0 <= v <= 1024,
            -v <= dy <= v + 1,
            forall|k: int|
                0 <= k < result@.len() ==> {
                    let info = #[trigger] result@[k];
                    &&& on_ray(info.coords, *origin, v as int)
                    &&& food_lookup.entities@.contains_key(info.coords.to_real_spec(*config))
                    &&& info.entity == food_lookup.entities@[info.coords.to_real_spec(*config)]
                    &&& -TARGET_BOUND <= info.coords.x <= TARGET_BOUND
                    &&& -TARGET_BOUND <= info.coords.y <= TARGET_BOUND
                },
            forall|c: VirtualCoords|
                c.y == origin.y && origin.x - v <= c.x <= origin.x + v
                    && food_lookup.entities@.contains_key(c.to_real_spec(*config)) ==> exists|
                    k: int,
                |
                    0 <= k < result@.len() && (#[trigger] result@[k]).coords == c,
            forall|c: VirtualCoords|
                c.x == origin.x && origin.y - v <= c.y < origin.y + dy
                    && food_lookup.entities@.contains_key(c.to_real_spec(*config)) ==> exists|
                    k: int,
                |
                    0 <= k < result@.len() && (#[trigger] result@[k]).coords == c,
        decreases v + 1 - dy,
    {
        let ghost result0 = result@;
        let c = VirtualCoords { x: origin.x, y: origin.y + dy };
        let rc: RealCoords = c.to_real(config);
        if let Some(id) = food_lookup.entities.get(rc) {
            result.push(Information { entity: id, coords: c });
            proof {
                assert(result@.last() == (Information { entity: id, coords: c }));
            }
        }
        proof {
            assert forall|c2: VirtualCoords|
                (c2.y == origin.y && origin.x - v <= c2.x <= origin.x + v
                    && food_lookup.entities@.contains_key(c2.to_real_spec(*config))) || (c2.x
                    == origin.x && origin.y - v <= c2.y < origin.y + dy + 1
                    && food_lookup.entities@.contains_key(
                    c2.to_real_spec(*config),
                )) implies exists|k: int|
                0 <= k < result@.len() && (#[trigger] result@[k]).coords == c2 by {
                if c2.x == origin.x && c2.y == origin.y + dy
                    && food_lookup.entities@.contains_key(c2.to_real_spec(*config)) {
                    assert(c2 == c);
                    assert(result@.last() == (Information {
                        entity: food_lookup.entities@[c.to_real_spec(*config)],
                        coords: c,
                    }));
                } else {
                    assert(exists|k: int|
                        0 <= k < result0.len() && (#[trigger] result0[k]).coords == c2);
                    let k = choose|k: int|
                        0 <= k < result0.len() && (#[trigger] result0[k]).coords == c2;
                    assert(result@[k].coords == c2);
                }
            }
            assert forall|k: int|
                xlen <= k < result@.len() implies (#[trigger] result@[k]).coords.x == origin.x
                && result@[k].coords.y - origin.y < dy + 1 by {
                if k < result0.len() {
                    assert(result@[k] == result0[k]);
                } else {
                    assert(result@[k] == result@.last());
                }
            }
            assert forall|k1: int, k2: int|
                xlen <= k1 < k2 < result@.len() implies (#[trigger] result@[k1]).coords.y < (
            #[trigger] result@[k2]).coords.y by {
                assert(result@[k1] == result0[k1]);
                if k2 < result0.len() {
                    assert(result@[k2] == result0[k2]);
                } else {
                    assert(result@[k2] == result@.last());
                }
            }
        }
        dy = dy + 1;
    }
    proof {
        assert forall|k1: int, k2: int|
            0 <= k1 < k2 < result@.len() && (#[trigger] result@[k1]).coords == (
            #[trigger] result@[k2]).coords implies result@[k1].coords == *origin by {
            if k2 < xlen {
                assert(result@[k1].coords.x < result@[k2].coords.x);
                assert(false);
            } else if k1 >= xlen {
                assert(result@[k1].coords.y < result@[k2].coords.y);
                assert(false);
            } else {
                assert(result@[k1].coords.y == origin.y);
                assert(result@[k2].coords.x == origin.x);
            }
        }
    }
    result
}

} // verus!

verus! {

/// Manhattan distance between two virtual coordinates.
pub open spec fn manhattan_spec(c: VirtualCoords, o: VirtualCoords) -> int {
    (if c.x >= o.x {
        c.x - o.x
    } else {
        o.x - c.x
    }) + (if c.y >= o.y {
        c.y - o.y
    } else {
        o.y - c.y
    })
}

/// The score of a food site for an agent, as an exact integer: the real
/// score `pref_a*A + pref_o*O - dist*rate` scaled by the positive constant
/// `1000 * (1 + apples + oranges)`, so all comparisons are exact.
///
/// The type preference favours the food type held less, relative to half
/// the goal amount: the apple preference is `1 - a/(1+a+o)` while apples
/// are below half the goal (else 0), and the orange preference is its
/// complement while oranges are below half the goal (else 0).  The
/// distance cost is the Manhattan distance times the hunger-accumulation
/// rate.
pub open spec fn site_score_spec(pf: FoodAmount, sa: FoodAmount, dist: int, config: Config) -> int {
    let d = 1 + pf.apples + pf.oranges;
    let m = config.ai.food_amount_goal.value / 2;
    let pa = if pf.apples < m {
        1 + pf.oranges
    } else {
        0
    };
    let po = if pf.oranges < m {
        d - pa
    } else {
        0
    };
    1000 * (pa * sa.apples + po * sa.oranges) - dist * (config.game.hunger_increase.value as int)
        * d
}

/// Computes a site's exact scaled score.
pub fn site_score(pf: FoodAmount, sa: FoodAmount, dist: u32, config: &Config) -> (r: i128)
    requires
        config.valid(),
        dist <= 1000000,
    ensures
        r == site_score_spec(pf, sa, dist as int, *config),
{
    let d: i128 = 1 + pf.apples as i128 + pf.oranges as i128;
    let m: u32 = config.ai.food_amount_goal.value / 2;
    let pa: i128 = if pf.apples < m {
        1 + pf.oranges as i128
    } else {
        0
    };
    let po: i128 = if pf.oranges < m {
        d - pa
    } else {
        0
    };
    proof {
        assert(pa * sa.apples as i128 <= 0x200000000i128 * 0x100000000i128) by (nonlinear_arith)
            requires 0 <= pa <= 0x200000000i128 && sa.apples < 0x100000000i128;
        assert(po * sa.oranges as i128 <= 0x200000000i128 * 0x100000000i128) by (nonlinear_arith)
            requires 0 <= po <= 0x200000000i128 && sa.oranges < 0x100000000i128;
        assert(0 <= (dist as i128) * (config.game.hunger_increase.value as i128)
            <= 1000000000000i128) by (nonlinear_arith)
            requires
                0 <= dist as i128 <= 1000000i128 && 0 <= config.game.hunger_increase.value as i128
                    <= 1000000i128,
        ;
        assert((dist as i128) * (config.game.hunger_increase.value as i128) * d <= 1000000i128
            * 1000000i128 * 0x200000000i128) by (nonlinear_arith)
            requires
                0 <= dist as i128 <= 1000000i128 && 0 <= config.game.hunger_increase.value as i128
                    <= 1000000i128 && 0 <= d <= 0x200000000i128,
        ;
    }
    let gain: i128 = 1000 * (pa * sa.apples as i128 + po * sa.oranges as i128);
    let cost: i128 = (dist as i128) * (config.game.hunger_increase.value as i128) * d;
    gain - cost
}

/// Every food site visible on the rays around `coords` scores at most
/// `bound` for an agent holding `pf`.
pub open spec fn scanned_site_score_le(
    w: World,
    pf: FoodAmount,
    coords: VirtualCoords,
    bound: int,
) -> bool {
    forall|c: VirtualCoords, j: int|
        0 <= j < w.food_sites@.len() && on_ray(c, coords, w.config.ai.vision_range.value as int)
            && w.food_lookup.entities@.contains_key(#[trigger] c.to_real_spec(w.config)) && (
        #[trigger] w.food_sites@[j]).id == w.food_lookup.entities@[c.to_real_spec(w.config)]
            ==> site_score_spec(pf, w.food_sites@[j].amount, manhattan_spec(c, coords), w.config)
            <= bound
}

/// Picks the best-scoring food site visible from `coords` for an agent
/// holding `pf`: a scanned coordinate whose occupying site's score is
/// positive and at least every other visible site's score.  `None` when no
/// visible site scores above zero.
pub fn best_food_destination(world: &World, pf: FoodAmount, coords: VirtualCoords) -> (r: Option<
    VirtualCoords,
>)
    requires
        world.wf(),
        coords.canonical(world.config),
    ensures
        match r {
            Some(d) => {
                &&& on_ray(d, coords, world.config.ai.vision_range.value as int)
                &&& world.food_lookup.entities@.contains_key(d.to_real_spec(world.config))
                &&& -TARGET_BOUND <= d.x <= TARGET_BOUND && -TARGET_BOUND <= d.y <= TARGET_BOUND
                &&& exists|j: int|
                    0 <= j < world.food_sites@.len() && (#[trigger] world.food_sites@[j]).id
                        == world.food_lookup.entities@[d.to_real_spec(world.config)] && {
                        let s = site_score_spec(
                            pf,
                            world.food_sites@[j].amount,
                            manhattan_spec(d, coords),
                            world.config,
                        );
                        s > 0 && scanned_site_score_le(*world, pf, coords, s)
                    }
            },
            None => scanned_site_score_le(*world, pf, coords, 0),
        },
{
    let infos: Vec<Information> = find_food(
        &world.food_lookup,
        &world.config,
        &coords,
        world.config.ai.vision_range.value,
    );
    let n: usize = infos.len();
    let mut best: Option<VirtualCoords> = None;
    let mut best_score: i128 = 0;
    let ghost mut best_j: int = 0;
    let mut k: usize = 0;
    while k < n
        invariant
            world.wf(),
            coords.canonical(world.config),
            n == infos@.len(),
            0 <= k <= n,
            forall|q: int|
                0 <= q < infos@.len() ==> {
                    let info = #[trigger] infos@[q];
                    &&& on_ray(info.coords, coords, world.config.ai.vision_range.value as int)
                    &&& world.food_lookup.entities@.contains_key(
                        info.coords.to_real_spec(world.config),
                    )
                    &&& info.entity == world.food_lookup.entities@[info.coords.to_real_spec(
                        world.config,
                    )]
                    &&& -TARGET_BOUND <= info.coords.x <= TARGET_BOUND && -TARGET_BOUND
                        <= info.coords.y <= TARGET_BOUND
                },
            forall|q: int, j: int|
                0 <= q < k && 0 <= j < world.food_sites@.len() && (#[trigger] world.food_sites@[j]).id
                    == (#[trigger] infos@[q]).entity ==> site_score_spec(
                    pf,
                    world.food_sites@[j].amount,
                    manhattan_spec(infos@[q].coords, coords),
                    world.config,
                ) <= best_score,
            best is None ==> best_score == 0,
            best matches Some(d) ==> {
                &&& on_ray(d, coords, world.config.ai.vision_range.value as int)
                &&& world.food_lookup.entities@.contains_key(d.to_real_spec(world.config))
                &&& -TARGET_BOUND <= d.x <= TARGET_BOUND && -TARGET_BOUND <= d.y <= TARGET_BOUND
                &&& 0 <= best_j < world.food_sites@.len()
                &&& world.food_sites@[best_j].id == world.food_lookup.entities@[d.to_real_spec(
                    world.config,
                )]
                &&& site_score_spec(
                    pf,
                    world.food_sites@[best_j].amount,
                    manhattan_spec(d, coords),
                    world.config,
                ) == best_score
                &&& best_score > 0
            },
        decreases n - k,
    {
        let info: Information = infos[k];
        if let Some(jf) = world.food_index_of(info.entity) {
            let dxv: i64 = info.coords.x as i64 - coords.x as i64;
            let dyv: i64 = info.coords.y as i64 - coords.y as i64;
            let dxa: i64 = if dxv >= 0 {
                dxv
            } else {
                -dxv
            };
            let dya: i64 = if dyv >= 0 {
                dyv
            } else {
                -dyv
            };
            let dist: u32 = (dxa + dya) as u32;
            let s: i128 = site_score(pf, world.food_sites[jf].amount, dist, &world.config);
            if s > best_score {
                best = Some(info.coords);
                best_score = s;
                proof {
                    best_j = jf as int;
                }
            }
            proof {
                assert forall|q: int, j: int|
                    0 <= q < k + 1 && 0 <= j < world.food_sites@.len() && (
                    #[trigger] world.food_sites@[j]).id == (#[trigger] infos@[q]).entity
                        implies site_score_spec(
                    pf,
                    world.food_sites@[j].amount,
                    manhattan_spec(infos@[q].coords, coords),
                    world.config,
                ) <= best_score by {
                    if q == k {
                        if j != jf {
                            assert(world.food_sites@[j].id != world.food_sites@[jf as int].id);
                        }
                    }
                }
            }
        } else {
            proof {
                assert forall|q: int, j: int|
                    0 <= q < k + 1 && 0 <= j < world.food_sites@.len() && (
                    #[trigger] world.food_sites@[j]).id == (#[trigger] infos@[q]).entity
                        implies site_score_spec(
                    pf,
                    world.food_sites@[j].amount,
                    manhattan_spec(infos@[q].coords, coords),
                    world.config,
                ) <= best_score by {
                    if q == k {
                        assert(world.food_sites@[j].id != infos@[k as int].entity);
                    }
                }
            }
        }
        k = k + 1;
    }
    proof {
        if best is Some {
            let d = best->Some_0;
            assert(world.food_sites@[best_j].id == world.food_lookup.entities@[d.to_real_spec(
                world.config,
            )]);
        }
        assert forall|c: VirtualCoords, j: int|
            0 <= j < world.food_sites@.len() && on_ray(
                c,
                coords,
                world.config.ai.vision_range.value as int,
            ) && world.food_lookup.entities@.contains_key(#[trigger] c.to_real_spec(world.config))
                && (#[trigger] world.food_sites@[j]).id == world.food_lookup.entities@[c.to_real_spec(
                world.config,
            )] implies site_score_spec(
            pf,
            world.food_sites@[j].amount,
            manhattan_spec(c, coords),
            world.config,
        ) <= best_score by {
            assert(exists|q: int| 0 <= q < infos@.len() && (#[trigger] infos@[q]).coords == c);
            let q = choose|q: int| 0 <= q < infos@.len() && (#[trigger] infos@[q]).coords == c;
            assert(infos@[q].entity == world.food_lookup.entities@[c.to_real_spec(world.config)]);
            assert(world.food_sites@[j].id == infos@[q].entity);
        }
    }
    best
}

/// A destination the engine may choose for an agent at `p0`: either the
/// best-scoring food site visible along its rays (its score positive and at
/// least every other visible site's), or — when no visible site scores
/// above zero — a single-axis single-step exploration target.
pub open spec fn chosen_destination_ok(w: World, p0: Person, d: VirtualCoords) -> bool {
    ||| {
        &&& on_ray(d, p0.pos, w.config.ai.vision_range.value as int)
        &&& w.food_lookup.entities@.contains_key(d.to_real_spec(w.config))
        &&& exists|j: int|
            0 <= j < w.food_sites@.len() && (#[trigger] w.food_sites@[j]).id
                == w.food_lookup.entities@[d.to_real_spec(w.config)] && {
                let sc = site_score_spec(
                    p0.food,
                    w.food_sites@[j].amount,
                    manhattan_spec(d, p0.pos),
                    w.config,
                );
                sc > 0 && scanned_site_score_le(w, p0.food, p0.pos, sc)
            }
    }
    ||| {
        &&& scanned_site_score_le(w, p0.food, p0.pos, 0)
        &&& ((d.x == p0.pos.x && p0.pos.y - 1 <= d.y <= p0.pos.y + 1) || (d.y == p0.pos.y
            && p0.pos.x - 1 <= d.x <= p0.pos.x + 1))
    }
}

/// One agent's passage through the move action: an agent whose winning need
/// is seek-food records a pending movement target chosen as
/// `chosen_destination_ok` describes and raises its foraging flag; everyone
/// else is untouched.
pub open spec fn move_action_applied(p0: Person, p1: Person, w: World) -> bool {
    if p0.alive && decide_spec(p0, w.config) == Some(Need::MoveNeed) {
        &&& p1 == (Person { move_to: p1.move_to, forage: true, ..p0 })
        &&& match p1.move_to {
            Some(d) => chosen_destination_ok(w, p0, d),
            None => false,
        }
    } else {
        p1 == p0
    }
}

/// The movement-target phase as a relation: exactly
/// `move_action_system`'s contract.
pub open spec fn move_action_system_rel(a: World, b: World) -> bool {
    &&& b.wf()
    &&& unchanged_except_people(&a, &b)
    &&& b.people@.len() == a.people@.len()
    &&& forall|i: int|
        0 <= i < a.people@.len() ==> move_action_applied(#[trigger] a.people@[i], b.people@[i], a)
}

/// Runs the move action for every living agent whose winning need is
/// seek-food: the agent is given a movement target — the best-scoring
/// visible food site, or a random single-axis single-step fallback — and
/// its foraging flag is raised.
pub fn move_action_system(world: &mut World)
    requires
        old(world).wf(),
    ensures
        final(world).wf(),
        unchanged_except_people(old(world), final(world)),
        final(world).people@.len() == old(world).people@.len(),
        forall|i: int|
            0 <= i < old(world).people@.len() ==> move_action_applied(
                #[trigger] old(world).people@[i],
                final(world).people@[i],
                *old(world),
            ),
        move_action_system_rel(*old(world), *final(world)),
{
    let n: usize = world.people.len();
    let mut i: usize = 0;
    while i < n
        invariant
            old(world).wf(),
            world.wf(),
            unchanged_except_people(old(world), world),
            n == world.people@.len(),
            old(world).people@.len() == n,
            0 <= i <= n,
            forall|j: int|
                0 <= j < i ==> move_action_applied(
                    #[trigger] old(world).people@[j],
                    world.people@[j],
                    *old(world),
                ),
            forall|j: int| i <= j < n ==> world.people@[j] == #[trigger] old(world).people@[j],
        decreases n - i,
    {
        if world.people[i].alive {
            let need: Option<Need> = decide(&world.people[i], &world.config);
            if let Some(Need::MoveNeed) = need {
                let pf: FoodAmount = world.people[i].food;
                let pos: VirtualCoords = world.people[i].pos;
                let dest: VirtualCoords = match best_food_destination(&*world, pf, pos) {
                    Some(d) => d,
                    None => {
                        // No worthwhile site in sight: a random single-axis
                        // step of -1, 0 or 1 (no diagonal moves).
                        let step: i32 = (crate::rng::random_below(3) as i32) - 1;
                        if crate::rng::random_coin() {
                            VirtualCoords { x: pos.x + step, y: pos.y }
                        } else {
                            VirtualCoords { x: pos.x, y: pos.y + step }
                        }
                    },
                };
                world.people[i].move_to = Some(dest);
                world.people[i].forage = true;
                proof {
                    assert(world.people@[i as int].wf(world.config));
                    assert(chosen_destination_ok(
                        *old(world),
                        old(world).people@[i as int],
                        dest,
                    ));
                    assert(move_action_applied(
                        old(world).people@[i as int],
                        world.people@[i as int],
                        *old(world),
                    ));
                }
            }
        }
        proof {
            assert forall|j: int| 0 <= j < world.people@.len() implies (
            #[trigger] world.people@[j]).wf(world.config) by {
                assert(move_action_applied(
                    old(world).people@[j],
                    world.people@[j],
                    *old(world),
                ) || world.people@[j] == old(world).people@[j]);
            }
            assert forall|j: int| 0 <= j < world.people@.len() implies {
                let rc = (#[trigger] world.people@[j]).pos.to_real_spec(world.config);
                world.person_lookup.entities@.contains_key(rc) && world.person_lookup.entities@[rc]
                    == world.people@[j].id
            } by {
                assert(world.people@[j].pos == old(world).people@[j].pos);
                assert(world.people@[j].id == old(world).people@[j].id);
            }
        }
        i = i + 1;
    }
}

} // verus!

verus! {

/// The exploration need scores 1.0 for an agent that knows no food site.
pub open spec fn missing_info_score_spec(p: Person) -> u32 {
    if p.knowledge.infos@.len() == 0 {
        1000
    } else {
        0
    }
}

/// Scores the exploration need.
pub fn missing_info_scorer(p: &Person) -> (r: u32)
    ensures
        r == missing_info_score_spec(*p),
{
    if p.knowledge.infos.len() == 0 {
        1000
    } else {
        0
    }
}

/// Two agent states that differ at most in knowledge.
pub open spec fn same_but_knowledge(p0: Person, p1: Person) -> bool {
    p1 == Person { knowledge: p1.knowledge, ..p0 }
}

/// Whether `infos` is a faithful scan of the four cardinal rays around
/// `origin`: every entry is an occupied ray coordinate with its occupant's
/// identity, and every occupied ray coordinate is reported.
pub open spec fn knowledge_scan_ok(infos: Seq<Information>, origin: VirtualCoords, w: World) -> bool {
    let v = w.config.ai.vision_range.value as int;
    &&& forall|k: int|
        0 <= k < infos.len() ==> {
            let info = #[trigger] infos[k];
            &&& on_ray(info.coords, origin, v)
            &&& w.food_lookup.entities@.contains_key(info.coords.to_real_spec(w.config))
            &&& info.entity == w.food_lookup.entities@[info.coords.to_real_spec(w.config)]
        }
    &&& forall|c: VirtualCoords|
        on_ray(c, origin, v) && w.food_lookup.entities@.contains_key(
            #[trigger] c.to_real_spec(w.config),
        ) ==> exists|k: int| 0 <= k < infos.len() && (#[trigger] infos[k]).coords == c
}

/// Refreshes every living agent's knowledge with exactly the food sites
/// currently visible along its four cardinal rays; dead agents are
/// untouched.
pub fn look_around_action_system(world: &mut World)
    requires
        old(world).wf(),
    ensures
        final(world).wf(),
        unchanged_except_people(old(world), final(world)),
        final(world).people@.len() == old(world).people@.len(),
        forall|i: int|
            0 <= i < old(world).people@.len() ==> same_but_knowledge(
                #[trigger] old(world).people@[i],
                final(world).people@[i],
            ),
        forall|i: int|
            0 <= i < old(world).people@.len() && (#[trigger] old(world).people@[i]).alive
                ==> knowledge_scan_ok(
                final(world).people@[i].knowledge.infos@,
                old(world).people@[i].pos,
                *old(world),
            ),
        forall|i: int|
            0 <= i < old(world).people@.len() && !(#[trigger] old(world).people@[i]).alive
                ==> final(world).people@[i] == old(world).people@[i],
{
    let n: usize = world.people.len();
    let mut i: usize = 0;
    while i < n
        invariant
            old(world).wf(),
            world.wf(),
            unchanged_except_people(old(world), world),
            n == world.people@.len(),
            old(world).people@.len() == n,
            0 <= i <= n,
            forall|j: int|
                0 <= j < n ==> same_but_knowledge(
                    #[trigger] old(world).people@[j],
                    world.people@[j],
                ),
            forall|j: int|
                0 <= j < i && (#[trigger] old(world).people@[j]).alive ==> knowledge_scan_ok(
                    world.people@[j].knowledge.infos@,
                    old(world).people@[j].pos,
                    *old(world),
                ),
            forall|j: int|
                0 <= j < i && !(#[trigger] old(world).people@[j]).alive ==> world.people@[j]
                    == old(world).people@[j],
            forall|j: int| i <= j < n ==> world.people@[j] == #[trigger] old(world).people@[j],
        decreases n - i,
    {
        if world.people[i].alive {
            let pos: VirtualCoords = world.people[i].pos;
            let infos: Vec<Information> = find_food(
                &world.food_lookup,
                &world.config,
                &pos,
                world.config.ai.vision_range.value,
            );
            world.people[i].knowledge = crate::people::Knowledge { infos };
            proof {
                assert(world.people@[i as int].wf(world.config));
                assert(knowledge_scan_ok(
                    world.people@[i as int].knowledge.infos@,
                    old(world).people@[i as int].pos,
                    *old(world),
                ));
                assert forall|j: int| 0 <= j < world.people@.len() implies {
                    let rc = (#[trigger] world.people@[j]).pos.to_real_spec(world.config);
                    world.person_lookup.entities@.contains_key(rc)
                        && world.person_lookup.entities@[rc] == world.people@[j].id
                } by {
                    assert(world.people@[j].pos == old(world).people@[j].pos);
                    assert(world.people@[j].id == old(world).people@[j].id);
                }
            }
        }
        i = i + 1;
    }
}

/// Forgets half (rounded down) of every agent's known food sites, chosen
/// at random.
pub fn brain_wash(world: &mut World)
    requires
        old(world).wf(),
    ensures
        final(world).wf(),
        unchanged_except_people(old(world), final(world)),
        final(world).people@.len() == old(world).people@.len(),
        forall|i: int|
            0 <= i < old(world).people@.len() ==> same_but_knowledge(
                #[trigger] old(world).people@[i],
                final(world).people@[i],
            ),
        forall|i: int|
            0 <= i < old(world).people@.len() ==> final(world).people@[i].knowledge.infos@.len()
                == (#[trigger] old(world).people@[i]).knowledge.infos@.len() - (old(
                world,
            ).people@[i].knowledge.infos@.len() / 2),
{
    let n: usize = world.people.len();
    let mut i: usize = 0;
    while i < n
        invariant
            old(world).wf(),
            world.wf(),
            unchanged_except_people(old(world), world),
            n == world.people@.len(),
            old(world).people@.len() == n,
            0 <= i <= n,
            forall|j: int|
                0 <= j < n ==> same_but_knowledge(
                    #[trigger] old(world).people@[j],
                    world.people@[j],
                ),
            forall|j: int|
                0 <= j < i ==> world.people@[j].knowledge.infos@.len() == (#[trigger] old(
                    world,
                ).people@[j]).knowledge.infos@.len() - (old(
                    world,
                ).people@[j].knowledge.infos@.len() / 2),
            forall|j: int| i <= j < n ==> world.people@[j] == #[trigger] old(world).people@[j],
        decreases n - i,
    {
        let len0: usize = world.people[i].knowledge.infos.len();
        let mut to_remove: usize = len0 / 2;
        while to_remove > 0
            invariant
                old(world).wf(),
                world.wf(),
                unchanged_except_people(old(world), world),
                n == world.people@.len(),
                old(world).people@.len() == n,
                0 <= i < n,
                forall|j: int|
                    0 <= j < n ==> same_but_knowledge(
                        #[trigger] old(world).people@[j],
                        world.people@[j],
                    ),
                forall|j: int|
                    0 <= j < i ==> world.people@[j].knowledge.infos@.len() == (#[trigger] old(
                        world,
                    ).people@[j]).knowledge.infos@.len() - (old(
                        world,
                    ).people@[j].knowledge.infos@.len() / 2),
                forall|j: int|
                    i < j < n ==> world.people@[j] == #[trigger] old(world).people@[j],
                same_but_knowledge(old(world).people@[i as int], world.people@[i as int]),
                world.people@[i as int].knowledge.infos@.len() == old(
                    world,
                ).people@[i as int].knowledge.infos@.len() - ((old(
                    world,
                ).people@[i as int].knowledge.infos@.len() / 2) - to_remove),
                to_remove <= old(world).people@[i as int].knowledge.infos@.len() / 2,
                forall|k: int|
                    0 <= k < world.people@[i as int].knowledge.infos@.len() ==> {
                        let c = (#[trigger] world.people@[i as int].knowledge.infos@[k]).coords;
                        -TARGET_BOUND <= c.x <= TARGET_BOUND && -TARGET_BOUND <= c.y
                            <= TARGET_BOUND
                    },
            decreases to_remove,
        {
            let cur_len: usize = world.people[i].knowledge.infos.len();
            let idx: usize = crate::rng::random_below_usize(cur_len);
            world.people[i].knowledge.infos.remove(idx);
            to_remove = to_remove - 1;
            proof {
                assert(world.people@[i as int].wf(world.config));
                assert forall|j: int| 0 <= j < world.people@.len() implies {
                    let rc = (#[trigger] world.people@[j]).pos.to_real_spec(world.config);
                    world.person_lookup.entities@.contains_key(rc)
                        && world.person_lookup.entities@[rc] == world.people@[j].id
                } by {
                    assert(world.people@[j].pos == old(world).people@[j].pos);
                    assert(world.people@[j].id == old(world).people@[j].id);
                }
            }
        }
        i = i + 1;
    }
}

} // verus!
