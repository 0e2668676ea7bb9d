//! Per-tick aggregates and the trade ledger, read by external reporting and
//! never by the core's own decisions.

use vstd::prelude::*;

verus! {

/// One accepted barter: apples moved one way, oranges the other.
#[derive(Copy, Clone, Debug, PartialEq, Eq, Structural)]
pub struct Transaction {
    pub apples: u32,
    pub oranges: u32,
}

/// Append-only per-tick aggregates and the accepted trades of each tick.
#[derive(Debug)]
pub struct Statistics {
    pub apple_history_sources: Vec<u32>,
    pub orange_history_sources: Vec<u32>,
    pub apple_history_people: Vec<u32>,
    pub orange_history_people: Vec<u32>,
    pub people_history: Vec<u32>,
    /// One bucket per tick; trades accepted that tick, in order.
    pub trade_history: Vec<Vec<Transaction>>,
    pub current_food: u32,
    pub current_apples: u32,
    pub current_oranges: u32,
    pub current_people: u32,
}

impl Statistics {
    /// An empty record, as the world starts with.
    pub fn new() -> (r: Statistics)
        ensures
            r.apple_history_sources@.len() == 0,
            r.orange_history_sources@.len() == 0,
            r.apple_history_people@.len() == 0,
            r.orange_history_people@.len() == 0,
            r.people_history@.len() == 0,
            r.trade_history@.len() == 0,
            r.current_food == 0,
            r.current_apples == 0,
            r.current_oranges == 0,
            r.current_people == 0,
    {
        Statistics {
            apple_history_sources: Vec::new(),
            orange_history_sources: Vec::new(),
            apple_history_people: Vec::new(),
            orange_history_people: Vec::new(),
            people_history: Vec::new(),
            trade_history: Vec::new(),
            current_food: 0,
            current_apples: 0,
            current_oranges: 0,
            current_people: 0,
        }
    }
}

} // verus!

use crate::people::Person;
use crate::world::{count_alive, FoodSite, World};

verus! {

/// `x` clamped into a `u64`.
pub open spec fn clamp_u64(x: int) -> u64 {
    if x > u64::MAX {
        u64::MAX as u64
    } else if x < 0 {
        0
    } else {
        x as u64
    }
}

/// `x` clamped into a `u32`.
pub open spec fn clamp_u32(x: int) -> u32 {
    if x > u32::MAX {
        u32::MAX as u32
    } else if x < 0 {
        0
    } else {
        x as u32
    }
}

/// Total apples held by food sources.
pub open spec fn sum_site_apples(s: Seq<FoodSite>) -> int
    decreases s.len(),
{
    if s.len() == 0 {
        0
    } else {
        sum_site_apples(s.drop_last()) + s.last().amount.apples
    }
}

/// Total oranges held by food sources.
pub open spec fn sum_site_oranges(s: Seq<FoodSite>) -> int
    decreases s.len(),
{
    if s.len() == 0 {
        0
    } else {
        sum_site_oranges(s.drop_last()) + s.last().amount.oranges
    }
}

/// Total apples held by living agents.
pub open spec fn sum_alive_apples(s: Seq<Person>) -> int
    decreases s.len(),
{
    if s.len() == 0 {
        0
    } else {
        sum_alive_apples(s.drop_last()) + if s.last().alive {
            s.last().food.apples as int
        } else {
            0
        }
    }
}

/// Total oranges held by living agents.
pub open spec fn sum_alive_oranges(s: Seq<Person>) -> int
    decreases s.len(),
{
    if s.len() == 0 {
        0
    } else {
        sum_alive_oranges(s.drop_last()) + if s.last().alive {
            s.last().food.oranges as int
        } else {
            0
        }
    }
}

/// The statistics phase as a relation between the world before and after:
/// exactly `food_statistics`'s contract.
pub open spec fn food_statistics_rel(a: World, b: World) -> bool {
    &&& b.wf()
    &&& b.config == a.config
    &&& b.time == a.time
    &&& b.next_id == a.next_id
    &&& b.people == a.people
    &&& b.person_lookup == a.person_lookup
    &&& b.food_sites == a.food_sites
    &&& b.food_lookup == a.food_lookup
    &&& b.interactions == a.interactions
    &&& b.stats.trade_history == a.stats.trade_history
    &&& b.stats.apple_history_sources@ == a.stats.apple_history_sources@.push(
        clamp_u32(sum_site_apples(a.food_sites@)),
    )
    &&& b.stats.orange_history_sources@ == a.stats.orange_history_sources@.push(
        clamp_u32(sum_site_oranges(a.food_sites@)),
    )
    &&& b.stats.apple_history_people@ == a.stats.apple_history_people@.push(
        clamp_u32(sum_alive_apples(a.people@)),
    )
    &&& b.stats.orange_history_people@ == a.stats.orange_history_people@.push(
        clamp_u32(sum_alive_oranges(a.people@)),
    )
    &&& b.stats.people_history@ == a.stats.people_history@.push(
        clamp_u32(count_alive(a.people@)),
    )
    &&& b.stats.current_apples == clamp_u32(sum_site_apples(a.food_sites@))
    &&& b.stats.current_oranges == clamp_u32(sum_site_oranges(a.food_sites@))
    &&& b.stats.current_food == clamp_u32(
        sum_site_apples(a.food_sites@) + sum_site_oranges(a.food_sites@),
    )
    &&& b.stats.current_people == clamp_u32(count_alive(a.people@))
}

/// Appends this tick's aggregates: total food held by sources and by
/// living agents per type, and the living population.  Each recorded value
/// is the exact total, clamped into its machine word.
#[verifier::rlimit(100)]
pub fn food_statistics(world: &mut World)
    requires
        old(world).wf(),
    ensures
        final(world).wf(),
        final(world).config == old(world).config,
        final(world).time == old(world).time,
        final(world).next_id == old(world).next_id,
        final(world).people == old(world).people,
        final(world).person_lookup == old(world).person_lookup,
        final(world).food_sites == old(world).food_sites,
        final(world).food_lookup == old(world).food_lookup,
        final(world).interactions == old(world).interactions,
        final(world).stats.trade_history == old(world).stats.trade_history,
        final(world).stats.apple_history_sources@ == old(world).stats.apple_history_sources@.push(
            clamp_u32(sum_site_apples(old(world).food_sites@)),
        ),
        final(world).stats.orange_history_sources@ == old(
            world,
        ).stats.orange_history_sources@.push(clamp_u32(sum_site_oranges(old(world).food_sites@))),
        final(world).stats.apple_history_people@ == old(world).stats.apple_history_people@.push(
            clamp_u32(sum_alive_apples(old(world).people@)),
        ),
        final(world).stats.orange_history_people@ == old(world).stats.orange_history_people@.push(
            clamp_u32(sum_alive_oranges(old(world).people@)),
        ),
        final(world).stats.people_history@ == old(world).stats.people_history@.push(
            clamp_u32(count_alive(old(world).people@)),
        ),
        final(world).stats.current_apples == clamp_u32(sum_site_apples(old(world).food_sites@)),
        final(world).stats.current_oranges == clamp_u32(sum_site_oranges(old(world).food_sites@)),
        final(world).stats.current_food == clamp_u32(
            sum_site_apples(old(world).food_sites@) + sum_site_oranges(old(world).food_sites@),
        ),
        final(world).stats.current_people == clamp_u32(count_alive(old(world).people@)),
        food_statistics_rel(*old(world), *final(world)),
{
    let ns: usize = world.food_sites.len();
    let mut apple_sum_sources: u64 = 0;
    let mut orange_sum_sources: u64 = 0;
    let mut i: usize = 0;
    while i < ns
        invariant
            old(world).wf(),
            *world == *old(world),
            ns == world.food_sites@.len(),
            0 <= i <= ns,
            apple_sum_sources == clamp_u64(sum_site_apples(world.food_sites@.take(i as int))),
            orange_sum_sources == clamp_u64(sum_site_oranges(world.food_sites@.take(i as int))),
            sum_site_apples(world.food_sites@.take(i as int)) >= 0,
            sum_site_oranges(world.food_sites@.take(i as int)) >= 0,
        decreases ns - i,
    {
        proof {
            assert(world.food_sites@.take(i + 1).drop_last() =~= world.food_sites@.take(i as int));
            assert(world.food_sites@.take(i + 1).last() == world.food_sites@[i as int]);
        }
        let xa: u64 = world.food_sites[i].amount.apples as u64;
        apple_sum_sources = if apple_sum_sources > u64::MAX - xa {
            u64::MAX
        } else {
            apple_sum_sources + xa
        };
        let xo: u64 = world.food_sites[i].amount.oranges as u64;
        orange_sum_sources = if orange_sum_sources > u64::MAX - xo {
            u64::MAX
        } else {
            orange_sum_sources + xo
        };
        proof {
            assert(sum_site_apples(world.food_sites@.take(i + 1)) == sum_site_apples(
                world.food_sites@.take(i as int),
            ) + world.food_sites@[i as int].amount.apples);
            assert(sum_site_oranges(world.food_sites@.take(i + 1)) == sum_site_oranges(
                world.food_sites@.take(i as int),
            ) + world.food_sites@[i as int].amount.oranges);
        }
        i = i + 1;
    }
    proof {
        assert(world.food_sites@.take(ns as int) =~= world.food_sites@);
    }
    let np: usize = world.people.len();
    let mut apple_sum_people: u64 = 0;
    let mut orange_sum_people: u64 = 0;
    let mut people_sum: u64 = 0;
    let mut j: usize = 0;
    while j < np
        invariant
            old(world).wf(),
            *world == *old(world),
            np == world.people@.len(),
            0 <= j <= np,
            apple_sum_people == clamp_u64(sum_alive_apples(world.people@.take(j as int))),
            orange_sum_people == clamp_u64(sum_alive_oranges(world.people@.take(j as int))),
            people_sum == clamp_u64(count_alive(world.people@.take(j as int))),
            sum_alive_apples(world.people@.take(j as int)) >= 0,
            sum_alive_oranges(world.people@.take(j as int)) >= 0,
            count_alive(world.people@.take(j as int)) >= 0,
        decreases np - j,
    {
        proof {
            assert(world.people@.take(j + 1).drop_last() =~= world.people@.take(j as int));
            assert(world.people@.take(j + 1).last() == world.people@[j as int]);
        }
        if world.people[j].alive {
            let xa: u64 = world.people[j].food.apples as u64;
            apple_sum_people = if apple_sum_people > u64::MAX - xa {
                u64::MAX
            } else {
                apple_sum_people + xa
            };
            let xo: u64 = world.people[j].food.oranges as u64;
            orange_sum_people = if orange_sum_people > u64::MAX - xo {
                u64::MAX
            } else {
                orange_sum_people + xo
            };
            people_sum = if people_sum > u64::MAX - 1 {
                u64::MAX
            } else {
                people_sum + 1
            };
        }
        proof {
            assert(sum_alive_apples(world.people@.take(j + 1)) == sum_alive_apples(
                world.people@.take(j as int),
            ) + if world.people@[j as int].alive {
                world.people@[j as int].food.apples as int
            } else {
                0
            });
            assert(sum_alive_oranges(world.people@.take(j + 1)) == sum_alive_oranges(
                world.people@.take(j as int),
            ) + if world.people@[j as int].alive {
                world.people@[j as int].food.oranges as int
            } else {
                0
            });
            assert(count_alive(world.people@.take(j + 1)) == count_alive(
                world.people@.take(j as int),
            ) + if world.people@[j as int].alive {
                1int
            } else {
                0
            });
        }
        j = j + 1;
    }
    proof {
        assert(world.people@.take(np as int) =~= world.people@);
    }
    let ca: u32 = if apple_sum_sources > u32::MAX as u64 {
        u32::MAX
    } else {
        apple_sum_sources as u32
    };
    let co: u32 = if orange_sum_sources > u32::MAX as u64 {
        u32::MAX
    } else {
        orange_sum_sources as u32
    };
    let cap: u32 = if apple_sum_people > u32::MAX as u64 {
        u32::MAX
    } else {
        apple_sum_people as u32
    };
    let cop: u32 = if orange_sum_people > u32::MAX as u64 {
        u32::MAX
    } else {
        orange_sum_people as u32
    };
    let cp: u32 = if people_sum > u32::MAX as u64 {
        u32::MAX
    } else {
        people_sum as u32
    };
    let total_sources: u64 = if apple_sum_sources > u64::MAX - orange_sum_sources {
        u64::MAX
    } else {
        apple_sum_sources + orange_sum_sources
    };
    let cf: u32 = if total_sources > u32::MAX as u64 {
        u32::MAX
    } else {
        total_sources as u32
    };
    world.stats.apple_history_sources.push(ca);
    world.stats.orange_history_sources.push(co);
    world.stats.apple_history_people.push(cap);
    world.stats.orange_history_people.push(cop);
    world.stats.people_history.push(cp);
    world.stats.current_food = cf;
    world.stats.current_apples = ca;
    world.stats.current_oranges = co;
    world.stats.current_people = cp;
}

} // verus!
