//! Same-tick adjacency records between agents, and the two systems that
//! consume them: breeding and trade.

use vstd::prelude::*;

verus! {

/// An adjacency discovered this tick between two distinct agents.  Both
/// directions of a mutual pair are recorded independently.
#[derive(Copy, Clone, Debug, PartialEq, Eq, Structural)]
pub struct PeopleInteraction {
    pub a: u64,
    pub b: u64,
}

} // verus!

use crate::people::{free_neighbouring_coords, is_free_neighbour, Hunger, Person, Sex};
use crate::planet::FoodAmount;
use crate::rng::{random_below_usize, random_coin};
use crate::stats::Transaction;
use crate::world::World;

verus! {

/// The square of the utility `sqrt(apples * oranges)`.  The square root is
/// strictly monotone on nonnegative numbers, so every utility comparison in
/// the economy is equivalent to the same comparison of these products.
pub open spec fn utility_sq(f: FoodAmount) -> int {
    f.apples * f.oranges
}

/// Whether the marginal rate of substitution is defined and below 1: the
/// party is relatively apple-rich.
///
/// With utility `U(a, o) = sqrt(a*o)`, the marginal utility of apples is
/// `sqrt((a+1)*o) - sqrt(a*o)` and of oranges `sqrt(a*(o+1)) - sqrt(a*o)`;
/// their ratio is defined only when the denominator is nonzero (`a > 0`),
/// and is then below 1 exactly when `(a+1)*o < a*(o+1)`, i.e. `o < a`.
pub open spec fn mrs_lt_one(f: FoodAmount) -> bool {
    f.apples > 0 && f.oranges < f.apples
}

/// Whether the marginal rate of substitution is defined and above 1: the
/// party is relatively orange-rich (`o > a`, with `a > 0` so the rate is
/// finite).
pub open spec fn mrs_gt_one(f: FoodAmount) -> bool {
    f.apples > 0 && f.oranges > f.apples
}

/// Apples offered by the apple-rich party `a` to `b`: half the surplus,
/// at least one unit.
pub open spec fn apples_to_trade_spec(a: FoodAmount, b: FoodAmount) -> int {
    if a.apples > b.apples {
        let d = (a.apples - b.apples) / 2;
        if d < 1 {
            1
        } else {
            d
        }
    } else {
        1
    }
}

/// Oranges asked from the orange-rich party `b`: half the shortfall,
/// at least one unit.
pub open spec fn oranges_to_trade_spec(a: FoodAmount, b: FoodAmount) -> int {
    if a.oranges < b.oranges {
        let d = (b.oranges - a.oranges) / 2;
        if d < 1 {
            1
        } else {
            d
        }
    } else {
        1
    }
}

/// The outcome of offering apples for oranges, `a` being the apple-rich
/// party: the two post-trade inventories and the trade record, or `None`
/// when the quantities do not fit the inventories (or a stock would overflow
/// its machine word), or when either party's utility would not strictly
/// rise.
pub open spec fn trade_outcome_spec(a: FoodAmount, b: FoodAmount) -> Option<
    (FoodAmount, FoodAmount, Transaction),
> {
    let ta = apples_to_trade_spec(a, b);
    let to = oranges_to_trade_spec(a, b);
    if ta <= a.apples && to <= b.oranges && a.oranges + to <= u32::MAX && b.apples + ta
        <= u32::MAX {
        let a2 = FoodAmount { apples: (a.apples - ta) as u32, oranges: (a.oranges + to) as u32 };
        let b2 = FoodAmount { apples: (b.apples + ta) as u32, oranges: (b.oranges - to) as u32 };
        if utility_sq(a2) > utility_sq(a) && utility_sq(b2) > utility_sq(b) {
            Some((a2, b2, Transaction { apples: ta as u32, oranges: to as u32 }))
        } else {
            None
        }
    } else {
        None
    }
}

/// A committed trade strictly increases both parties' utility and conserves
/// the total stock of each food type.
pub proof fn lemma_trade_increases_utility(a: FoodAmount, b: FoodAmount)
    ensures
        match trade_outcome_spec(a, b) {
            Some(r) => {
                &&& utility_sq(r.0) > utility_sq(a)
                &&& utility_sq(r.1) > utility_sq(b)
                &&& r.0.apples + r.1.apples == a.apples + b.apples
                &&& r.0.oranges + r.1.oranges == a.oranges + b.oranges
            },
            None => true,
        },
{
}

/// Between an apple-rich and an orange-rich party the trade quantities
/// always fit the inventories: only a utility objection (or a full machine
/// word) stops such a trade.
pub proof fn lemma_trade_quantities_fit(a: FoodAmount, b: FoodAmount)
    requires
        mrs_lt_one(a),
        mrs_gt_one(b),
    ensures
        apples_to_trade_spec(a, b) <= a.apples,
        oranges_to_trade_spec(a, b) <= b.oranges,
{
}

/// Executes one barter attempt, `a_food` being the apple-rich party's
/// inventory: exactly `trade_outcome_spec`.
pub fn trade_apples_for_oranges(a_food: FoodAmount, b_food: FoodAmount) -> (r: Option<
    (FoodAmount, FoodAmount, Transaction),
>)
    ensures
        r == trade_outcome_spec(a_food, b_food),
{
    let ta: u32 = if a_food.apples > b_food.apples {
        let d: u32 = (a_food.apples - b_food.apples) / 2;
        if d < 1 {
            1
        } else {
            d
        }
    } else {
        1
    };
    let to: u32 = if a_food.oranges < b_food.oranges {
        let d: u32 = (b_food.oranges - a_food.oranges) / 2;
        if d < 1 {
            1
        } else {
            d
        }
    } else {
        1
    };
    if !(ta <= a_food.apples && to <= b_food.oranges && a_food.oranges as u64 + to as u64
        <= u32::MAX as u64 && b_food.apples as u64 + ta as u64 <= u32::MAX as u64) {
        return None;
    }
    let a2 = FoodAmount { apples: a_food.apples - ta, oranges: a_food.oranges + to };
    let b2 = FoodAmount { apples: b_food.apples + ta, oranges: b_food.oranges - to };
    proof {
        assert forall|x: int, y: int|
            0 <= x < 0x100000000 && 0 <= y < 0x100000000 implies #[trigger] (x * y)
            < 0x10000000000000000 by {
            vstd::arithmetic::mul::lemma_mul_upper_bound(x, 0xffffffff, y, 0xffffffff);
        }
    }
    let u_a: u64 = a_food.apples as u64 * a_food.oranges as u64;
    let u_b: u64 = b_food.apples as u64 * b_food.oranges as u64;
    let u_a2: u64 = a2.apples as u64 * a2.oranges as u64;
    let u_b2: u64 = b2.apples as u64 * b2.oranges as u64;
    if u_a2 > u_a && u_b2 > u_b {
        Some((a2, b2, Transaction { apples: ta, oranges: to }))
    } else {
        None
    }
}

} // verus!

verus! {

/// Two agent states that differ at most in held food.
pub open spec fn same_but_food(p0: Person, p1: Person) -> bool {
    p1 == Person { food: p1.food, ..p0 }
}

/// Whether some stored agent carries the identity `id`.
pub open spec fn has_person(people: Seq<Person>, id: u64) -> bool {
    exists|i: int| 0 <= i < people.len() && (#[trigger] people[i]).id == id
}

/// The index of the agent carrying `id` (unique, since identities are).
pub open spec fn person_index_for(people: Seq<Person>, id: u64) -> int {
    choose|i: int| 0 <= i < people.len() && (#[trigger] people[i]).id == id
}

/// The outcome of one interaction record under barter: when both identities
/// resolve to living agents, one relatively apple-rich (MRS < 1) and the
/// other relatively orange-rich (MRS > 1), apples flow from the rich side
/// by `trade_outcome_spec`; every other pair — including any with a
/// zero-apple party, whose MRS is undefined — is a no-op.
pub open spec fn trade_step_spec(people: Seq<Person>, r: PeopleInteraction) -> (
    Seq<Person>,
    Option<Transaction>,
) {
    if has_person(people, r.a) && has_person(people, r.b) {
        let ia = person_index_for(people, r.a);
        let ib = person_index_for(people, r.b);
        let pa = people[ia];
        let pb = people[ib];
        if pa.alive && pb.alive {
            if mrs_lt_one(pa.food) && mrs_gt_one(pb.food) {
                match trade_outcome_spec(pa.food, pb.food) {
                    Some(t) => (
                        people.update(ia, Person { food: t.0, ..pa }).update(
                            ib,
                            Person { food: t.1, ..pb },
                        ),
                        Some(t.2),
                    ),
                    None => (people, None),
                }
            } else if mrs_gt_one(pa.food) && mrs_lt_one(pb.food) {
                match trade_outcome_spec(pb.food, pa.food) {
                    Some(t) => (
                        people.update(ib, Person { food: t.0, ..pb }).update(
                            ia,
                            Person { food: t.1, ..pa },
                        ),
                        Some(t.2),
                    ),
                    None => (people, None),
                }
            } else {
                (people, None)
            }
        } else {
            (people, None)
        }
    } else {
        (people, None)
    }
}

/// Barter folded over the first `k` interaction records in order: the
/// resulting population and the transactions committed, oldest first.
pub open spec fn trade_phase_spec(
    people: Seq<Person>,
    records: Seq<PeopleInteraction>,
    k: int,
) -> (Seq<Person>, Seq<Transaction>)
    decreases k,
{
    if k <= 0 {
        (people, Seq::empty())
    } else {
        let prev = trade_phase_spec(people, records, k - 1);
        let step = trade_step_spec(prev.0, records[k - 1]);
        (
            step.0,
            prev.1 + match step.1 {
                Some(t) => seq![t],
                None => Seq::<Transaction>::empty(),
            },
        )
    }
}

/// The fold keeps the population's length.
pub proof fn lemma_trade_phase_len(people: Seq<Person>, records: Seq<PeopleInteraction>, k: int)
    requires
        0 <= k,
    ensures
        trade_phase_spec(people, records, k).0.len() == people.len(),
    decreases k,
{
    if k > 0 {
        lemma_trade_phase_len(people, records, k - 1);
    }
}

/// The barter phase as a relation between the world before and after:
/// exactly `trade_interaction_system`'s contract.
pub open spec fn trade_interaction_system_rel(a: World, b: World) -> bool {
    &&& b.wf()
    &&& b.config == a.config
    &&& b.time == a.time
    &&& b.next_id == a.next_id
    &&& b.person_lookup == a.person_lookup
    &&& b.food_sites == a.food_sites
    &&& b.food_lookup == a.food_lookup
    &&& b.interactions == a.interactions
    &&& b.stats.apple_history_sources == a.stats.apple_history_sources
    &&& b.stats.orange_history_sources == a.stats.orange_history_sources
    &&& b.stats.apple_history_people == a.stats.apple_history_people
    &&& b.stats.orange_history_people == a.stats.orange_history_people
    &&& b.stats.people_history == a.stats.people_history
    &&& b.stats.current_food == a.stats.current_food
    &&& b.stats.current_apples == a.stats.current_apples
    &&& b.stats.current_oranges == a.stats.current_oranges
    &&& b.stats.current_people == a.stats.current_people
    &&& b.people@.len() == a.people@.len()
    &&& (a.config.game.trade_allowed.value ==> ({
        let r = trade_phase_spec(a.people@, a.interactions@, a.interactions@.len() as int);
        &&& b.people@ == r.0
        &&& (a.stats.trade_history@.len() > 0 ==> {
            &&& b.stats.trade_history@.len() == a.stats.trade_history@.len()
            &&& b.stats.trade_history@.last()@ == a.stats.trade_history@.last()@ + r.1
            &&& forall|q: int|
                0 <= q < a.stats.trade_history@.len() - 1 ==> b.stats.trade_history@[q]
                    == #[trigger] a.stats.trade_history@[q]
        })
        &&& (a.stats.trade_history@.len() == 0 ==> (if r.1.len() == 0 {
            b.stats.trade_history@.len() == 0
        } else {
            b.stats.trade_history@.len() == 1 && b.stats.trade_history@[0]@ == r.1
        }))
    }))
    &&& forall|i: int|
        0 <= i < a.people@.len() ==> same_but_food(#[trigger] a.people@[i], b.people@[i])
    &&& forall|i: int|
        0 <= i < a.people@.len() ==> (b.people@[i].food == (#[trigger] a.people@[i]).food
            || utility_sq(b.people@[i].food) > utility_sq(a.people@[i].food))
    &&& (!a.config.game.trade_allowed.value ==> b == a)
}

/// Applies barter to every pair in this tick's interaction set, in order,
/// when trade is enabled: exactly the fold of `trade_step_spec`, with every
/// committed transaction appended to the current trade-history bucket (a
/// first bucket is opened if none exists).  An agent's inventory only ever
/// changes by a committed trade, so its utility (squared) never decreases,
/// and strictly rises whenever its inventory changed.
#[verifier::rlimit(100)]
pub fn trade_interaction_system(world: &mut World)
    requires
        old(world).wf(),
    ensures
        final(world).wf(),
        final(world).config == old(world).config,
        final(world).time == old(world).time,
        final(world).next_id == old(world).next_id,
        final(world).person_lookup == old(world).person_lookup,
        final(world).food_sites == old(world).food_sites,
        final(world).food_lookup == old(world).food_lookup,
        final(world).interactions == old(world).interactions,
        final(world).stats.apple_history_sources == old(world).stats.apple_history_sources,
        final(world).stats.orange_history_sources == old(world).stats.orange_history_sources,
        final(world).stats.apple_history_people == old(world).stats.apple_history_people,
        final(world).stats.orange_history_people == old(world).stats.orange_history_people,
        final(world).stats.people_history == old(world).stats.people_history,
        final(world).stats.current_food == old(world).stats.current_food,
        final(world).stats.current_apples == old(world).stats.current_apples,
        final(world).stats.current_oranges == old(world).stats.current_oranges,
        final(world).stats.current_people == old(world).stats.current_people,
        final(world).people@.len() == old(world).people@.len(),
        old(world).config.game.trade_allowed.value ==> ({
            let r = trade_phase_spec(
                old(world).people@,
                old(world).interactions@,
                old(world).interactions@.len() as int,
            );
            &&& final(world).people@ == r.0
            &&& (old(world).stats.trade_history@.len() > 0 ==> {
                &&& final(world).stats.trade_history@.len() == old(
                    world,
                ).stats.trade_history@.len()
                &&& final(world).stats.trade_history@.last()@ == old(
                    world,
                ).stats.trade_history@.last()@ + r.1
                &&& forall|q: int|
                    0 <= q < old(world).stats.trade_history@.len() - 1 ==> final(world).stats.trade_history@[q]
                        == #[trigger] old(world).stats.trade_history@[q]
            })
            &&& (old(world).stats.trade_history@.len() == 0 ==> (if r.1.len() == 0 {
                final(world).stats.trade_history@.len() == 0
            } else {
                final(world).stats.trade_history@.len() == 1
                    && final(world).stats.trade_history@[0]@ == r.1
            }))
        }),
        forall|i: int|
            0 <= i < old(world).people@.len() ==> same_but_food(
                #[trigger] old(world).people@[i],
                final(world).people@[i],
            ),
        forall|i: int|
            0 <= i < old(world).people@.len() ==> (final(world).people@[i].food == (
            #[trigger] old(world).people@[i]).food || utility_sq(final(world).people@[i].food)
                > utility_sq(old(world).people@[i].food)),
        !old(world).config.game.trade_allowed.value ==> *final(world) == *old(world),
        trade_interaction_system_rel(*old(world), *final(world)),
{
    if !world.config.game.trade_allowed.value {
        return ;
    }
    let ghost people0 = old(world).people@;
    let ghost records = old(world).interactions@;
    let ghost hist0 = old(world).stats.trade_history@;
    let n: usize = world.interactions.len();
    let mut k: usize = 0;
    while k < n
        invariant
            old(world).wf(),
            world.wf(),
            old(world).config.game.trade_allowed.value,
            world.config == old(world).config,
            world.time == old(world).time,
            world.next_id == old(world).next_id,
            world.person_lookup == old(world).person_lookup,
            world.food_sites == old(world).food_sites,
            world.food_lookup == old(world).food_lookup,
            world.interactions == old(world).interactions,
            world.stats.apple_history_sources == old(world).stats.apple_history_sources,
            world.stats.orange_history_sources == old(world).stats.orange_history_sources,
            world.stats.apple_history_people == old(world).stats.apple_history_people,
            world.stats.orange_history_people == old(world).stats.orange_history_people,
            world.stats.people_history == old(world).stats.people_history,
            world.stats.current_food == old(world).stats.current_food,
            world.stats.current_apples == old(world).stats.current_apples,
            world.stats.current_oranges == old(world).stats.current_oranges,
            world.stats.current_people == old(world).stats.current_people,
            people0 == old(world).people@,
            records == old(world).interactions@,
            hist0 == old(world).stats.trade_history@,
            n == world.interactions@.len(),
            0 <= k <= n,
            world.people@.len() == old(world).people@.len(),
            world.people@ == trade_phase_spec(people0, records, k as int).0,
            ({
                let appended = trade_phase_spec(people0, records, k as int).1;
                &&& (hist0.len() > 0 ==> {
                    &&& world.stats.trade_history@.len() == hist0.len()
                    &&& world.stats.trade_history@.last()@ == hist0.last()@ + appended
                    &&& forall|q: int|
                        0 <= q < hist0.len() - 1 ==> world.stats.trade_history@[q] == #[trigger] hist0[q]
                })
                &&& (hist0.len() == 0 ==> (if appended.len() == 0 {
                    world.stats.trade_history@.len() == 0
                } else {
                    world.stats.trade_history@.len() == 1 && world.stats.trade_history@[0]@
                        == appended
                }))
            }),
            forall|i: int|
                0 <= i < old(world).people@.len() ==> same_but_food(
                    #[trigger] old(world).people@[i],
                    world.people@[i],
                ),
            forall|i: int|
                0 <= i < old(world).people@.len() ==> (world.people@[i].food == (
                #[trigger] old(world).people@[i]).food || utility_sq(world.people@[i].food)
                    > utility_sq(old(world).people@[i].food)),
        decreases n - k,
    {
        let ghost fold_pre = trade_phase_spec(people0, records, k as int);
        let ghost step = trade_step_spec(fold_pre.0, records[k as int]);
        let ia_opt: Option<usize> = world.person_index_of(world.interactions[k].a);
        let ib_opt: Option<usize> = world.person_index_of(world.interactions[k].b);
        proof {
            if let Some(ia) = ia_opt {
                assert(has_person(world.people@, records[k as int].a));
                assert(world.people@[person_index_for(world.people@, records[k as int].a)].id
                    == records[k as int].a);
                assert(person_index_for(world.people@, records[k as int].a) == ia as int);
            } else {
                if has_person(world.people@, records[k as int].a) {
                    let w = person_index_for(world.people@, records[k as int].a);
                    assert(world.people@[w].id == records[k as int].a);
                    assert(false);
                }
            }
            if let Some(ib) = ib_opt {
                assert(has_person(world.people@, records[k as int].b));
                assert(world.people@[person_index_for(world.people@, records[k as int].b)].id
                    == records[k as int].b);
                assert(person_index_for(world.people@, records[k as int].b) == ib as int);
            } else {
                if has_person(world.people@, records[k as int].b) {
                    let w = person_index_for(world.people@, records[k as int].b);
                    assert(world.people@[w].id == records[k as int].b);
                    assert(false);
                }
            }
        }
        if let (Some(ia), Some(ib)) = (ia_opt, ib_opt) {
            proof {
                assert(world.people@[ia as int].id != world.people@[ib as int].id);
            }
            if world.people[ia].alive && world.people[ib].alive {
                let fa: FoodAmount = world.people[ia].food;
                let fb: FoodAmount = world.people[ib].food;
                let a_rich: bool = fa.apples > 0 && fa.oranges < fa.apples;
                let a_poor: bool = fa.apples > 0 && fa.oranges > fa.apples;
                let b_rich: bool = fb.apples > 0 && fb.oranges < fb.apples;
                let b_poor: bool = fb.apples > 0 && fb.oranges > fb.apples;
                let traded: Option<Transaction> = if a_rich && b_poor {
                    match trade_apples_for_oranges(fa, fb) {
                        Some(r) => {
                            world.people[ia].food = r.0;
                            world.people[ib].food = r.1;
                            Some(r.2)
                        },
                        None => None,
                    }
                } else if a_poor && b_rich {
                    match trade_apples_for_oranges(fb, fa) {
                        Some(r) => {
                            world.people[ib].food = r.0;
                            world.people[ia].food = r.1;
                            Some(r.2)
                        },
                        None => None,
                    }
                } else {
                    None
                };
                proof {
                    assert(world.people@ =~= step.0);
                    assert(traded == step.1);
                }
                if let Some(t) = traded {
                    let buckets: usize = world.stats.trade_history.len();
                    if buckets == 0 {
                        let mut bucket: Vec<Transaction> = Vec::new();
                        bucket.push(t);
                        world.stats.trade_history.push(bucket);
                    } else {
                        world.stats.trade_history[buckets - 1].push(t);
                    }
                }
                proof {
                    assert forall|i: int|
                        0 <= i < world.people@.len() implies (#[trigger] world.people@[i]).wf(
                        world.config,
                    ) by {
                        assert(same_but_food(old(world).people@[i], world.people@[i]));
                        assert(old(world).people@[i].wf(world.config));
                    }
                    assert forall|i: int| 0 <= i < world.people@.len() implies {
                        let rc = (#[trigger] world.people@[i]).pos.to_real_spec(world.config);
                        world.person_lookup.entities@.contains_key(rc)
                            && world.person_lookup.entities@[rc] == world.people@[i].id
                    } by {
                        assert(same_but_food(old(world).people@[i], world.people@[i]));
                    }
                }
            } else {
                proof {
                    assert(world.people@ =~= step.0);
                }
            }
        } else {
            proof {
                assert(world.people@ =~= step.0);
            }
        }
        proof {
            let appended = trade_phase_spec(people0, records, k as int + 1).1;
            if step.1 is None {
                assert(appended =~= fold_pre.1);
                if hist0.len() > 0 {
                    assert(world.stats.trade_history@.last()@ == hist0.last()@ + appended);
                }
            } else {
                assert(appended =~= fold_pre.1 + seq![step.1->Some_0]);
                if hist0.len() > 0 {
                    assert(world.stats.trade_history@.last()@ =~= hist0.last()@ + appended);
                } else {
                    assert(world.stats.trade_history@[0]@ =~= appended);
                }
            }
        }
        k = k + 1;
    }
}

/// The interaction-discard phase as a relation between the world before
/// and after: exactly `cleanup_interactions_system`'s contract.
pub open spec fn cleanup_interactions_system_rel(a: World, b: World) -> bool {
    &&& b.wf()
    &&& b.config == a.config
    &&& b.time == a.time
    &&& b.next_id == a.next_id
    &&& b.people == a.people
    &&& b.person_lookup == a.person_lookup
    &&& b.food_sites == a.food_sites
    &&& b.food_lookup == a.food_lookup
    &&& b.stats == a.stats
    &&& b.interactions@.len() == 0
}

/// Discards every interaction of this tick.
pub fn cleanup_interactions_system(world: &mut World)
    requires
        old(world).wf(),
    ensures
        final(world).wf(),
        final(world).config == old(world).config,
        final(world).time == old(world).time,
        final(world).next_id == old(world).next_id,
        final(world).people == old(world).people,
        final(world).person_lookup == old(world).person_lookup,
        final(world).food_sites == old(world).food_sites,
        final(world).food_lookup == old(world).food_lookup,
        final(world).stats == old(world).stats,
        final(world).interactions@.len() == 0,
        cleanup_interactions_system_rel(*old(world), *final(world)),
{
    world.interactions.clear();
}

} // verus!

use crate::measures::VirtualCoords;
use crate::people::is_occupied_neighbour;

verus! {

/// What a parent keeps after giving half (rounded down) of each stock.
pub open spec fn parent_after_spec(f: FoodAmount) -> FoodAmount {
    FoodAmount {
        apples: (f.apples - f.apples / 2) as u32,
        oranges: (f.oranges - f.oranges / 2) as u32,
    }
}

/// What the child receives: the sum of both parents' given halves.
pub open spec fn baby_food_spec(f: FoodAmount, m: FoodAmount) -> FoodAmount {
    FoodAmount {
        apples: (f.apples / 2 + m.apples / 2) as u32,
        oranges: (f.oranges / 2 + m.oranges / 2) as u32,
    }
}

/// Breeding loses no food: per type, what the parents keep plus what the
/// child receives equals exactly what the parents held.
pub proof fn lemma_breeding_conserves_food(f: FoodAmount, m: FoodAmount)
    ensures
        parent_after_spec(f).apples + parent_after_spec(m).apples + baby_food_spec(f, m).apples
            == f.apples + m.apples,
        parent_after_spec(f).oranges + parent_after_spec(m).oranges + baby_food_spec(f, m).oranges
            == f.oranges + m.oranges,
{
}

/// The shape of a completed birth between the parents at the given
/// indices: each parent keeps its halved stock, everyone else is untouched,
/// and a newborn child — holding the two given halves, age 0, no hunger —
/// stands appended on a cell that was free and borders the mother.
pub open spec fn birth_outcome(pre: World, post: World, father_i: int, mother_i: int) -> bool {
    let f0 = pre.people@[father_i].food;
    let m0 = pre.people@[mother_i].food;
    let child = post.people@.last();
    &&& post.people@.len() == pre.people@.len() + 1
    &&& post.people@[father_i] == (Person {
        food: parent_after_spec(f0),
        ..pre.people@[father_i]
    })
    &&& post.people@[mother_i] == (Person {
        food: parent_after_spec(m0),
        ..pre.people@[mother_i]
    })
    &&& forall|i: int|
        0 <= i < pre.people@.len() && i != father_i && i != mother_i ==> post.people@[i]
            == #[trigger] pre.people@[i]
    &&& child.id == pre.next_id
    &&& post.next_id == pre.next_id + 1
    &&& child.age == 0
    &&& child.alive
    &&& child.food == baby_food_spec(f0, m0)
    &&& child.hunger == (Hunger { apple: 0, orange: 0 })
    &&& !pre.person_lookup.entities@.contains_key(child.pos.to_real_spec(pre.config))
    &&& exists|c: VirtualCoords|
        is_free_neighbour(c, pre.people@[mother_i].pos, pre.config, pre.person_lookup.entities@)
            && c.to_real_spec(pre.config) == child.pos.to_real_spec(pre.config)
}

/// Whether `father_id` and `mother_id` resolve to a living fertile male and
/// a living fertile female.
pub open spec fn breeding_roles_ok(people: Seq<Person>, father_id: u64, mother_id: u64) -> bool {
    &&& has_person(people, father_id)
    &&& has_person(people, mother_id)
    &&& {
        let fi = person_index_for(people, father_id);
        let mi = person_index_for(people, mother_id);
        &&& people[fi].alive && people[fi].fertile && people[fi].sex is Male
        &&& people[mi].alive && people[mi].fertile && people[mi].sex is Female
    }
}

/// Whether the parents at these indices may breed: some free cell borders
/// the mother, and the parents' pooled stock of each food type exceeds
/// twice the configured food-for-baby amount.
pub open spec fn breeding_eligible_spec(w: World, father_i: int, mother_i: int) -> bool {
    let f0 = w.people@[father_i].food;
    let m0 = w.people@[mother_i].food;
    let ffb = w.config.game.food_for_baby.value as int;
    &&& exists|c: VirtualCoords|
        is_free_neighbour(c, w.people@[mother_i].pos, w.config, w.person_lookup.entities@)
    &&& f0.apples + m0.apples > 2 * ffb
    &&& f0.oranges + m0.oranges > 2 * ffb
}

/// Attempts reproduction between the father and mother at the given
/// indices.  When eligible (and identities have not run out), each parent's
/// stock is halved and a child holding the two given halves is spawned on a
/// free cell bordering the mother — never on an occupied cell — with age 0,
/// no hunger and a random sex.  Otherwise nothing changes at all.
#[verifier::rlimit(100)]
pub fn create_baby(world: &mut World, father_i: usize, mother_i: usize) -> (r: Option<u64>)
    requires
        old(world).wf(),
        father_i < old(world).people@.len(),
        mother_i < old(world).people@.len(),
        father_i != mother_i,
    ensures
        final(world).wf(),
        final(world).config == old(world).config,
        final(world).time == old(world).time,
        final(world).food_sites == old(world).food_sites,
        final(world).food_lookup == old(world).food_lookup,
        final(world).interactions == old(world).interactions,
        final(world).stats == old(world).stats,
        r is None ==> *final(world) == *old(world),
        r is Some <==> (breeding_eligible_spec(*old(world), father_i as int, mother_i as int)
            && old(world).next_id < u64::MAX),
        r is Some ==> birth_outcome(
            *old(world),
            *final(world),
            father_i as int,
            mother_i as int,
        ),
{
    if world.next_id == u64::MAX {
        return None;
    }
    let mother_pos: VirtualCoords = world.people[mother_i].pos;
    let free: Vec<VirtualCoords> = free_neighbouring_coords(
        &world.config,
        &mother_pos,
        &world.person_lookup,
    );
    let f0: FoodAmount = world.people[father_i].food;
    let m0: FoodAmount = world.people[mother_i].food;
    let ffb: u64 = world.config.game.food_for_baby.value as u64;
    if free.len() > 0 && (f0.apples as u64 + m0.apples as u64 > 2 * ffb) && (f0.oranges as u64
        + m0.oranges as u64 > 2 * ffb) {
        let baby_food = FoodAmount {
            apples: f0.apples / 2 + m0.apples / 2,
            oranges: f0.oranges / 2 + m0.oranges / 2,
        };
        world.people[father_i].food = FoodAmount {
            apples: f0.apples - f0.apples / 2,
            oranges: f0.oranges - f0.oranges / 2,
        };
        world.people[mother_i].food = FoodAmount {
            apples: m0.apples - m0.apples / 2,
            oranges: m0.oranges - m0.oranges / 2,
        };
        proof {
            assert forall|i: int| 0 <= i < world.people@.len() implies (
            #[trigger] world.people@[i]).wf(world.config) by {
                assert(world.people@[i] == old(world).people@[i] || world.people@[i] == (Person {
                    food: world.people@[i].food,
                    ..old(world).people@[i]
                }));
            }
            assert forall|i: int| 0 <= i < world.people@.len() implies {
                let rc = (#[trigger] world.people@[i]).pos.to_real_spec(world.config);
                world.person_lookup.entities@.contains_key(rc)
                    && world.person_lookup.entities@[rc] == world.people@[i].id
            } by {
                assert(world.people@[i].pos == old(world).people@[i].pos);
                assert(world.people@[i].id == old(world).people@[i].id);
            }
        }
        let idx: usize = random_below_usize(free.len());
        let cell: VirtualCoords = free[idx];
        let sex: Sex = if random_coin() {
            Sex::Male
        } else {
            Sex::Female
        };
        let r: Option<u64> = world.spawn_person(
            cell,
            sex,
            0,
            baby_food,
            Hunger { apple: 0, orange: 0 },
        );
        proof {
            assert(is_free_neighbour(
                cell,
                old(world).people@[mother_i as int].pos,
                old(world).config,
                old(world).person_lookup.entities@,
            ));
            assert(r is Some);
            let child = final(world).people@.last();
            crate::measures::lemma_canonical_to_real(child.pos, world.config);
            assert(child.pos.to_real_spec(world.config) == cell.to_real_spec(world.config));
        }
        r
    } else {
        proof {
            if free@.len() == 0 {
                if exists|c: VirtualCoords|
                    is_free_neighbour(
                        c,
                        old(world).people@[mother_i as int].pos,
                        old(world).config,
                        old(world).person_lookup.entities@,
                    ) {
                    let c = choose|c: VirtualCoords|
                        is_free_neighbour(
                            c,
                            old(world).people@[mother_i as int].pos,
                            old(world).config,
                            old(world).person_lookup.entities@,
                        );
                    assert(free@.contains(c));
                }
            }
        }
        None
    }
}

} // verus!

verus! {

/// One breeding direction as a relation between the world before and
/// after: exactly `breed_pair`'s contract.
pub open spec fn breed_pair_rel(pre: World, post: World, father_id: u64, mother_id: u64) -> bool {
    &&& post.wf()
    &&& post.config == pre.config
    &&& post.time == pre.time
    &&& post.food_sites == pre.food_sites
    &&& post.food_lookup == pre.food_lookup
    &&& post.interactions == pre.interactions
    &&& post.stats == pre.stats
    &&& post.people@.len() >= pre.people@.len()
    &&& (!breeding_roles_ok(pre.people@, father_id, mother_id) ==> post == pre)
    &&& (breeding_roles_ok(pre.people@, father_id, mother_id) ==> ({
        let fi = person_index_for(pre.people@, father_id);
        let mi = person_index_for(pre.people@, mother_id);
        if breeding_eligible_spec(pre, fi, mi) && pre.next_id < u64::MAX {
            birth_outcome(pre, post, fi, mi)
        } else {
            post == pre
        }
    }))
    &&& forall|i: int|
        0 <= i < pre.people@.len() ==> same_but_food(
            #[trigger] pre.people@[i],
            post.people@[i],
        )
    &&& forall|k: int|
        pre.people@.len() <= k < post.people@.len() ==> {
            let child = #[trigger] post.people@[k];
            child.age == 0 && child.alive && child.hunger == (Hunger { apple: 0, orange: 0 })
        }
}

/// Attempts one breeding direction: `father_id` as father, `mother_id` as
/// mother.  When the identities resolve to a living fertile male and a
/// living fertile female, the outcome is exactly reproduction's: a birth
/// (`birth_outcome`) when the pair is eligible and identities remain, and
/// no change at all otherwise.
pub fn breed_pair(world: &mut World, father_id: u64, mother_id: u64)
    requires
        old(world).wf(),
        father_id != mother_id,
    ensures
        final(world).wf(),
        final(world).config == old(world).config,
        final(world).time == old(world).time,
        final(world).food_sites == old(world).food_sites,
        final(world).food_lookup == old(world).food_lookup,
        final(world).interactions == old(world).interactions,
        final(world).stats == old(world).stats,
        final(world).people@.len() >= old(world).people@.len(),
        !breeding_roles_ok(old(world).people@, father_id, mother_id) ==> *final(world) == *old(
            world,
        ),
        breeding_roles_ok(old(world).people@, father_id, mother_id) ==> ({
            let fi = person_index_for(old(world).people@, father_id);
            let mi = person_index_for(old(world).people@, mother_id);
            if breeding_eligible_spec(*old(world), fi, mi) && old(world).next_id < u64::MAX {
                birth_outcome(*old(world), *final(world), fi, mi)
            } else {
                *final(world) == *old(world)
            }
        }),
        forall|i: int|
            0 <= i < old(world).people@.len() ==> same_but_food(
                #[trigger] old(world).people@[i],
                final(world).people@[i],
            ),
        forall|k: int|
            old(world).people@.len() <= k < final(world).people@.len() ==> {
                let child = #[trigger] final(world).people@[k];
                child.age == 0 && child.alive && child.hunger == (Hunger { apple: 0, orange: 0 })
            },
        breed_pair_rel(*old(world), *final(world), father_id, mother_id),
{
    let fi_opt: Option<usize> = world.person_index_of(father_id);
    let mi_opt: Option<usize> = world.person_index_of(mother_id);
    proof {
        if let Some(fi) = fi_opt {
            assert(has_person(world.people@, father_id));
            assert(world.people@[person_index_for(world.people@, father_id)].id == father_id);
            assert(person_index_for(world.people@, father_id) == fi as int);
        } else {
            if has_person(world.people@, father_id) {
                let w = person_index_for(world.people@, father_id);
                assert(world.people@[w].id == father_id);
                assert(false);
            }
        }
        if let Some(mi) = mi_opt {
            assert(has_person(world.people@, mother_id));
            assert(world.people@[person_index_for(world.people@, mother_id)].id == mother_id);
            assert(person_index_for(world.people@, mother_id) == mi as int);
        } else {
            if has_person(world.people@, mother_id) {
                let w = person_index_for(world.people@, mother_id);
                assert(world.people@[w].id == mother_id);
                assert(false);
            }
        }
    }
    if let (Some(fi), Some(mi)) = (fi_opt, mi_opt) {
        let father_ok: bool = world.people[fi].alive && world.people[fi].fertile && matches!(
            world.people[fi].sex,
            Sex::Male,
        );
        let mother_ok: bool = world.people[mi].alive && world.people[mi].fertile && matches!(
            world.people[mi].sex,
            Sex::Female,
        );
        if father_ok && mother_ok {
            proof {
                assert(world.people@[fi as int].id != world.people@[mi as int].id);
                assert(breeding_roles_ok(world.people@, father_id, mother_id));
            }
            let _ = create_baby(world, fi, mi);
        } else {
            proof {
                assert(!breeding_roles_ok(world.people@, father_id, mother_id));
            }
        }
    }
}

/// The breeding phase as a relation between the world before and after:
/// exactly `breeding_interaction_system`'s contract — in particular the
/// trace chaining `breed_pair_rel` through both directions of every
/// record, in order.
pub open spec fn breeding_interaction_system_rel(a: World, b: World) -> bool {
    &&& b.wf()
    &&& b.config == a.config
    &&& b.time == a.time
    &&& b.food_sites == a.food_sites
    &&& b.food_lookup == a.food_lookup
    &&& b.interactions == a.interactions
    &&& b.stats == a.stats
    &&& b.people@.len() >= a.people@.len()
    &&& forall|i: int|
        0 <= i < a.people@.len() ==> same_but_food(#[trigger] a.people@[i], b.people@[i])
    &&& forall|k: int|
        a.people@.len() <= k < b.people@.len() ==> {
            let child = #[trigger] b.people@[k];
            child.age == 0 && child.alive && child.hunger == (Hunger { apple: 0, orange: 0 })
        }
    &&& exists|tr: Seq<World>|
        {
            &&& #[trigger] tr.len() == 2 * a.interactions@.len() + 1
            &&& tr[0] == a
            &&& tr[tr.len() - 1] == b
            &&& forall|k: int|
                0 <= k < a.interactions@.len() ==> breed_pair_rel(
                    #[trigger] tr[2 * k],
                    tr[2 * k + 1],
                    a.interactions@[k].a,
                    a.interactions@[k].b,
                ) && breed_pair_rel(
                    tr[2 * k + 1],
                    tr[2 * k + 2],
                    a.interactions@[k].b,
                    a.interactions@[k].a,
                )
        }
}

/// Runs breeding over this tick's interaction set: for every interaction
/// both father/mother assignments are tried independently.
pub fn breeding_interaction_system(world: &mut World)
    requires
        old(world).wf(),
    ensures
        final(world).wf(),
        final(world).config == old(world).config,
        final(world).time == old(world).time,
        final(world).food_sites == old(world).food_sites,
        final(world).food_lookup == old(world).food_lookup,
        final(world).interactions == old(world).interactions,
        final(world).stats == old(world).stats,
        final(world).people@.len() >= old(world).people@.len(),
        ({
            let r0 = old(world).interactions@[0];
            old(world).interactions@.len() >= 1 && breeding_roles_ok(
                old(world).people@,
                r0.a,
                r0.b,
            ) && breeding_eligible_spec(
                *old(world),
                person_index_for(old(world).people@, r0.a),
                person_index_for(old(world).people@, r0.b),
            ) && old(world).next_id < u64::MAX
        }) ==> final(world).people@.len() >= old(world).people@.len() + 1,
        exists|tr: Seq<World>|
            {
                &&& #[trigger] tr.len() == 2 * old(world).interactions@.len() + 1
                &&& tr[0] == *old(world)
                &&& tr[tr.len() - 1] == *final(world)
                &&& forall|k: int|
                    0 <= k < old(world).interactions@.len() ==> breed_pair_rel(
                        #[trigger] tr[2 * k],
                        tr[2 * k + 1],
                        old(world).interactions@[k].a,
                        old(world).interactions@[k].b,
                    ) && breed_pair_rel(
                        tr[2 * k + 1],
                        tr[2 * k + 2],
                        old(world).interactions@[k].b,
                        old(world).interactions@[k].a,
                    )
            },
        breeding_interaction_system_rel(*old(world), *final(world)),
        forall|i: int|
            0 <= i < old(world).people@.len() ==> same_but_food(
                #[trigger] old(world).people@[i],
                final(world).people@[i],
            ),
        forall|k: int|
            old(world).people@.len() <= k < final(world).people@.len() ==> {
                let child = #[trigger] final(world).people@[k];
                child.age == 0 && child.alive && child.hunger == (Hunger { apple: 0, orange: 0 })
            },
{
    let ghost mut tr: Seq<World> = seq![*old(world)];
    let ghost forced = ({
        let r0 = old(world).interactions@[0];
        old(world).interactions@.len() >= 1 && breeding_roles_ok(old(world).people@, r0.a, r0.b)
            && breeding_eligible_spec(
            *old(world),
            person_index_for(old(world).people@, r0.a),
            person_index_for(old(world).people@, r0.b),
        ) && old(world).next_id < u64::MAX
    });
    let n: usize = world.interactions.len();
    let mut k: usize = 0;
    while k < n
        invariant
            world.wf(),
            world.config == old(world).config,
            world.time == old(world).time,
            world.food_sites == old(world).food_sites,
            world.food_lookup == old(world).food_lookup,
            world.interactions == old(world).interactions,
            world.stats == old(world).stats,
            world.people@.len() >= old(world).people@.len(),
            n == world.interactions@.len(),
            0 <= k <= n,
            forced == ({
                let r0 = old(world).interactions@[0];
                old(world).interactions@.len() >= 1 && breeding_roles_ok(
                    old(world).people@,
                    r0.a,
                    r0.b,
                ) && breeding_eligible_spec(
                    *old(world),
                    person_index_for(old(world).people@, r0.a),
                    person_index_for(old(world).people@, r0.b),
                ) && old(world).next_id < u64::MAX
            }),
            k == 0 ==> *world == *old(world),
            k >= 1 && forced ==> world.people@.len() >= old(world).people@.len() + 1,
            tr.len() == 2 * k + 1,
            tr[0] == *old(world),
            tr[tr.len() - 1] == *world,
            forall|k2: int|
                0 <= k2 < k ==> breed_pair_rel(
                    #[trigger] tr[2 * k2],
                    tr[2 * k2 + 1],
                    old(world).interactions@[k2].a,
                    old(world).interactions@[k2].b,
                ) && breed_pair_rel(
                    tr[2 * k2 + 1],
                    tr[2 * k2 + 2],
                    old(world).interactions@[k2].b,
                    old(world).interactions@[k2].a,
                ),
            forall|i: int|
                0 <= i < old(world).people@.len() ==> same_but_food(
                    #[trigger] old(world).people@[i],
                    world.people@[i],
                ),
            forall|q: int|
                old(world).people@.len() <= q < world.people@.len() ==> {
                    let child = #[trigger] world.people@[q];
                    child.age == 0 && child.alive && child.hunger == (Hunger {
                        apple: 0,
                        orange: 0,
                    })
                },
        decreases n - k,
    {
        let a: u64 = world.interactions[k].a;
        let b: u64 = world.interactions[k].b;
        let ghost before_first = world.people@;
        let ghost world_pre = *world;
        breed_pair(world, a, b);
        let ghost before_second = world.people@;
        proof {
            tr = tr.push(*world);
            assert(breed_pair_rel(world_pre, *world, a, b));
        }
        proof {
            if k == 0 && forced {
                assert(birth_outcome(world_pre, *world, person_index_for(
                    world_pre.people@,
                    a,
                ), person_index_for(world_pre.people@, b)));
                assert(world.people@.len() >= old(world).people@.len() + 1);
            }
        }
        breed_pair(world, b, a);
        proof {
            tr = tr.push(*world);
            assert(tr.len() == 2 * (k + 1) + 1);
            assert(breed_pair_rel(tr[2 * k as int + 1], *world, b, a));
            assert forall|k2: int|
                0 <= k2 < k + 1 implies breed_pair_rel(
                #[trigger] tr[2 * k2],
                tr[2 * k2 + 1],
                old(world).interactions@[k2].a,
                old(world).interactions@[k2].b,
            ) && breed_pair_rel(
                tr[2 * k2 + 1],
                tr[2 * k2 + 2],
                old(world).interactions@[k2].b,
                old(world).interactions@[k2].a,
            ) by {
                if k2 == k {
                    assert(tr[2 * k2] == world_pre);
                    assert(tr[2 * k2 + 1] == tr[tr.len() - 2]);
                }
            }
        }
        proof {
            let base = old(world).people@.len() as int;
            assert forall|q: int| base <= q < world.people@.len() implies {
                let child = #[trigger] world.people@[q];
                child.age == 0 && child.alive && child.hunger == (Hunger { apple: 0, orange: 0 })
            } by {
                if q < before_second.len() {
                    assert(same_but_food(before_second[q], world.people@[q]));
                    if q < before_first.len() {
                        assert(same_but_food(before_first[q], before_second[q]));
                    }
                }
            }
            assert forall|i: int| 0 <= i < base implies same_but_food(
                #[trigger] old(world).people@[i],
                world.people@[i],
            ) by {
                assert(same_but_food(before_first[i], before_second[i]));
                assert(same_but_food(before_second[i], world.people@[i]));
            }
        }
        k = k + 1;
    }
}

/// Whether the interaction set holds the record `(a, b)`.
pub open spec fn pair_recorded(s: Seq<PeopleInteraction>, a: u64, b: u64) -> bool {
    exists|k: int| 0 <= k < s.len() && #[trigger] s[k] == (PeopleInteraction { a, b })
}

proof fn lemma_recorded_extend(
    s1: Seq<PeopleInteraction>,
    s2: Seq<PeopleInteraction>,
    a: u64,
    b: u64,
)
    requires
        pair_recorded(s1, a, b),
        s2.len() >= s1.len(),
        forall|k: int| 0 <= k < s1.len() ==> s2[k] == #[trigger] s1[k],
    ensures
        pair_recorded(s2, a, b),
{
    let k = choose|k: int| 0 <= k < s1.len() && #[trigger] s1[k] == (PeopleInteraction { a, b });
    assert(s2[k] == (PeopleInteraction { a, b }));
}

/// Whether agent `i` sees agent `j`: some neighbour coordinate of `i`'s
/// position projects onto `j`'s cell.
pub open spec fn sees(w: World, i: int, j: int) -> bool {
    exists|c: VirtualCoords|
        is_occupied_neighbour(c, w.people@[i].pos, w.config, w.person_lookup.entities@) && (
        #[trigger] c.to_real_spec(w.config)) == w.people@[j].pos.to_real_spec(w.config)
}

/// Whether the world records `b` as the living occupant of a cell bordering
/// the living agent `a`.
pub open spec fn adjacency_witness(w: World, a: u64, b: u64) -> bool {
    exists|i: int|
        0 <= i < w.people@.len() && (#[trigger] w.people@[i]).id == a && w.people@[i].alive && (
        exists|c: VirtualCoords|
            is_occupied_neighbour(c, w.people@[i].pos, w.config, w.person_lookup.entities@)
                && w.person_lookup.entities@[c.to_real_spec(w.config)] == b)
}

/// Whether `a` is the identity of one of the first `bound` stored agents.
pub open spec fn id_among_first(people: Seq<Person>, bound: int, a: u64) -> bool {
    exists|i2: int| 0 <= i2 < bound && (#[trigger] people[i2]).id == a
}

/// The adjacency-detection phase as a relation between the world before
/// and after: exactly `add_interaction_system`'s contract.
pub open spec fn add_interaction_system_rel(a: World, b: World) -> bool {
    &&& b.wf()
    &&& b.config == a.config
    &&& b.time == a.time
    &&& b.next_id == a.next_id
    &&& b.people == a.people
    &&& b.person_lookup == a.person_lookup
    &&& b.food_sites == a.food_sites
    &&& b.food_lookup == a.food_lookup
    &&& b.stats == a.stats
    &&& b.interactions@.len() >= a.interactions@.len()
    &&& forall|k: int|
        0 <= k < a.interactions@.len() ==> b.interactions@[k] == #[trigger] a.interactions@[k]
    &&& forall|k: int|
        a.interactions@.len() <= k < b.interactions@.len() ==> {
            let r = #[trigger] b.interactions@[k];
            r.a != r.b && adjacency_witness(a, r.a, r.b)
        }
    &&& forall|i: int, j: int|
        0 <= i < a.people@.len() && 0 <= j < a.people@.len() && (#[trigger] a.people@[i]).alive
            && (#[trigger] a.people@[j]).alive && sees(a, i, j) ==> pair_recorded(
            b.interactions@,
            a.people@[i].id,
            a.people@[j].id,
        )
}

/// Scans every living agent's 8-neighbourhood and records one interaction
/// per occupied neighbouring cell whose occupant is a living agent.  Each
/// record pairs two distinct identities that really were adjacent; on a
/// torus of at least 3 cells per side no record is ever duplicated.
#[verifier::rlimit(100)]
#[verifier::spinoff_prover]
pub fn add_interaction_system(world: &mut World)
    requires
        old(world).wf(),
    ensures
        final(world).wf(),
        final(world).config == old(world).config,
        final(world).time == old(world).time,
        final(world).next_id == old(world).next_id,
        final(world).people == old(world).people,
        final(world).person_lookup == old(world).person_lookup,
        final(world).food_sites == old(world).food_sites,
        final(world).food_lookup == old(world).food_lookup,
        final(world).stats == old(world).stats,
        final(world).interactions@.len() >= old(world).interactions@.len(),
        forall|k: int|
            0 <= k < old(world).interactions@.len() ==> final(world).interactions@[k] == #[trigger] old(
                world,
            ).interactions@[k],
        forall|k: int|
            old(world).interactions@.len() <= k < final(world).interactions@.len() ==> {
                let r = #[trigger] final(world).interactions@[k];
                r.a != r.b && adjacency_witness(*old(world), r.a, r.b)
            },
        forall|i: int, j: int|
            0 <= i < old(world).people@.len() && 0 <= j < old(world).people@.len() && (
            #[trigger] old(world).people@[i]).alive && (#[trigger] old(world).people@[j]).alive
                && sees(*old(world), i, j) ==> pair_recorded(
                final(world).interactions@,
                old(world).people@[i].id,
                old(world).people@[j].id,
            ),
        add_interaction_system_rel(*old(world), *final(world)),
        ({
            &&& old(world).config.map.geometry.value is Torus
            &&& old(world).config.map.size_x.value >= 3
            &&& old(world).config.map.size_y.value >= 3
        }) ==> forall|k1: int, k2: int|
            old(world).interactions@.len() <= k1 < k2 < final(world).interactions@.len() ==> (
            #[trigger] final(world).interactions@[k1]) != (#[trigger] final(world).interactions@[k2]),
{
    let ghost nodup = old(world).config.map.geometry.value is Torus && old(
        world,
    ).config.map.size_x.value >= 3 && old(world).config.map.size_y.value >= 3;
    let n: usize = world.people.len();
    let mut i: usize = 0;
    while i < n
        invariant
            old(world).wf(),
            world.wf(),
            world.config == old(world).config,
            world.time == old(world).time,
            world.next_id == old(world).next_id,
            world.people == old(world).people,
            world.person_lookup == old(world).person_lookup,
            world.food_sites == old(world).food_sites,
            world.food_lookup == old(world).food_lookup,
            world.stats == old(world).stats,
            n == world.people@.len(),
            0 <= i <= n,
            world.interactions@.len() >= old(world).interactions@.len(),
            forall|k: int|
                0 <= k < old(world).interactions@.len() ==> world.interactions@[k] == #[trigger] old(
                    world,
                ).interactions@[k],
            forall|k: int|
                old(world).interactions@.len() <= k < world.interactions@.len() ==> {
                    let r = #[trigger] world.interactions@[k];
                    r.a != r.b && adjacency_witness(*old(world), r.a, r.b)
                },
            forall|i2: int, j: int|
                0 <= i2 < i && 0 <= j < n && (#[trigger] world.people@[i2]).alive && (
                #[trigger] world.people@[j]).alive && sees(*old(world), i2, j) ==> pair_recorded(
                    world.interactions@,
                    world.people@[i2].id,
                    world.people@[j].id,
                ),
            nodup == (old(world).config.map.geometry.value is Torus && old(
                world,
            ).config.map.size_x.value >= 3 && old(world).config.map.size_y.value >= 3),
            nodup ==> forall|k1: int, k2: int|
                old(world).interactions@.len() <= k1 < k2 < world.interactions@.len() ==> (
                #[trigger] world.interactions@[k1]) != (#[trigger] world.interactions@[k2]),
            nodup ==> forall|k: int|
                old(world).interactions@.len() <= k < world.interactions@.len()
                    ==> id_among_first(world.people@, i as int, (
                #[trigger] world.interactions@[k]).a),
        decreases n - i,
    {
        if world.people[i].alive {
            let my_id: u64 = world.people[i].id;
            let my_pos: VirtualCoords = world.people[i].pos;
            let neighbors: Vec<VirtualCoords> = crate::people::occupied_neighbouring_coords(
                &world.config,
                &my_pos,
                &world.person_lookup,
            );
            let ghost agent_start = world.interactions@.len() as int;
            proof {
                if nodup {
                    assert forall|k: int|
                        old(world).interactions@.len() <= k < agent_start implies id_among_first(
                        world.people@,
                        i as int,
                        (#[trigger] world.interactions@[k]).a,
                    ) by {}
                }
            }
            let m: usize = neighbors.len();
            let mut j: usize = 0;
            while j < m
                invariant
                    old(world).wf(),
                    world.wf(),
                    world.config == old(world).config,
                    world.time == old(world).time,
                    world.next_id == old(world).next_id,
                    world.people == old(world).people,
                    world.person_lookup == old(world).person_lookup,
                    world.food_sites == old(world).food_sites,
                    world.food_lookup == old(world).food_lookup,
                    world.stats == old(world).stats,
                    0 <= i < n,
                    n == world.people@.len(),
                    my_id == world.people@[i as int].id,
                    my_pos == world.people@[i as int].pos,
                    world.people@[i as int].alive,
                    m == neighbors@.len(),
                    0 <= j <= m,
                    forall|q: int|
                        0 <= q < neighbors@.len() ==> is_occupied_neighbour(
                            #[trigger] neighbors@[q],
                            my_pos,
                            world.config,
                            world.person_lookup.entities@,
                        ),
                    world.interactions@.len() >= old(world).interactions@.len(),
                    forall|k: int|
                        0 <= k < old(world).interactions@.len() ==> world.interactions@[k]
                            == #[trigger] old(world).interactions@[k],
                    forall|k: int|
                        old(world).interactions@.len() <= k < world.interactions@.len() ==> {
                            let r = #[trigger] world.interactions@[k];
                            r.a != r.b && adjacency_witness(*old(world), r.a, r.b)
                        },
                    forall|i2: int, j2: int|
                        0 <= i2 < i && 0 <= j2 < n && (#[trigger] world.people@[i2]).alive && (
                        #[trigger] world.people@[j2]).alive && sees(*old(world), i2, j2)
                            ==> pair_recorded(
                            world.interactions@,
                            world.people@[i2].id,
                            world.people@[j2].id,
                        ),
                    forall|j2: int, q2: int|
                        0 <= j2 < n && (#[trigger] world.people@[j2]).alive && 0 <= q2 < j && (
                        #[trigger] neighbors@[q2]).to_real_spec(world.config)
                            == world.people@[j2].pos.to_real_spec(world.config) ==> pair_recorded(
                            world.interactions@,
                            my_id,
                            world.people@[j2].id,
                        ),
                    nodup == (old(world).config.map.geometry.value is Torus && old(
                        world,
                    ).config.map.size_x.value >= 3 && old(world).config.map.size_y.value >= 3),
                    old(world).interactions@.len() <= agent_start <= world.interactions@.len(),
                    forall|k1: int, k2: int|
                        0 <= k1 < k2 < neighbors@.len() ==> (#[trigger] neighbors@[k1]) != (
                        #[trigger] neighbors@[k2]),
                    nodup ==> forall|k1: int, k2: int|
                        old(world).interactions@.len() <= k1 < k2 < world.interactions@.len()
                            ==> (#[trigger] world.interactions@[k1]) != (
                        #[trigger] world.interactions@[k2]),
                    nodup ==> forall|k: int|
                        old(world).interactions@.len() <= k < agent_start ==> id_among_first(
                            world.people@,
                            i as int,
                            (#[trigger] world.interactions@[k]).a,
                        ),
                    nodup ==> forall|k: int|
                        agent_start <= k < world.interactions@.len() ==> (
                        #[trigger] world.interactions@[k]).a == my_id && exists|q: int|
                            0 <= q < j && world.interactions@[k].b
                                == world.person_lookup.entities@[(#[trigger] neighbors@[q]).to_real_spec(
                                world.config,
                            )],
                decreases m - j,
            {
                let ghost inner0 = world.interactions@;
                let c: VirtualCoords = neighbors[j];
                let rc = c.to_real(&world.config);
                let occ_opt: Option<u64> = world.person_lookup.entities.get(rc);
                let target_opt: Option<usize> = if let Some(b) = occ_opt {
                    if b != my_id {
                        world.person_index_of(b)
                    } else {
                        None
                    }
                } else {
                    None
                };
                if let Some(jb) = target_opt {
                    if world.people[jb].alive {
                        let b: u64 = world.people[jb].id;
                        world.interactions.push(PeopleInteraction { a: my_id, b });
                        proof {
                            let w0 = *old(world);
                            assert(w0.people@[i as int].id == my_id);
                            assert(is_occupied_neighbour(
                                c,
                                w0.people@[i as int].pos,
                                w0.config,
                                w0.person_lookup.entities@,
                            ));
                            assert(w0.person_lookup.entities@[c.to_real_spec(w0.config)] == b);
                            assert(adjacency_witness(w0, my_id, b));
                            assert(world.interactions@.last() == (PeopleInteraction {
                                a: my_id,
                                b,
                            }));
                            if nodup {
                                // The fresh record differs from every earlier
                                // one: other agents' records carry other
                                // identities, and this agent's earlier records
                                // carry the occupants of other cells.
                                let lastk = world.interactions@.len() - 1;
                                assert forall|k: int|
                                    old(world).interactions@.len() <= k < lastk implies (
                                #[trigger] world.interactions@[k]) != world.interactions@[lastk] by {
                                    if k < agent_start {
                                        assert(id_among_first(world.people@, i as int, inner0[k].a));
                                        let i2 = choose|i2: int|
                                            0 <= i2 < i as int && (#[trigger] world.people@[i2]).id
                                                == inner0[k].a;
                                        assert(world.people@[i2].id != world.people@[i as int].id);
                                        assert(world.interactions@[k] == inner0[k]);
                                    } else {
                                        let q = choose|q: int|
                                            0 <= q < j && inner0[k].b
                                                == world.person_lookup.entities@[(
                                            #[trigger] neighbors@[q]).to_real_spec(world.config)];
                                        assert(neighbors@[q] != c);
                                        assert(is_occupied_neighbour(
                                            neighbors@[q],
                                            my_pos,
                                            world.config,
                                            world.person_lookup.entities@,
                                        ));
                                        crate::people::lemma_torus_neighbours_distinct(
                                            neighbors@[q],
                                            c,
                                            my_pos,
                                            world.config,
                                        );
                                        crate::world::lemma_index_occupants_distinct(
                                            *world,
                                            neighbors@[q].to_real_spec(world.config),
                                            c.to_real_spec(world.config),
                                        );
                                        assert(world.interactions@[k] == inner0[k]);
                                        assert(world.interactions@[k].b
                                            != world.interactions@[lastk].b);
                                    }
                                }
                            }
                        }
                    }
                }
                proof {
                    if nodup {
                        assert forall|k: int|
                            old(world).interactions@.len() <= k < agent_start implies id_among_first(
                            world.people@,
                            i as int,
                            (#[trigger] world.interactions@[k]).a,
                        ) by {
                            assert(world.interactions@[k] == inner0[k]);
                            assert(id_among_first(world.people@, i as int, inner0[k].a));
                        }
                    }
                    // Records persist across this iteration's push.
                    assert forall|i2: int, j2: int|
                        0 <= i2 < i && 0 <= j2 < n && (#[trigger] world.people@[i2]).alive && (
                        #[trigger] world.people@[j2]).alive && sees(*old(world), i2, j2)
                            implies pair_recorded(
                        world.interactions@,
                        world.people@[i2].id,
                        world.people@[j2].id,
                    ) by {
                        lemma_recorded_extend(
                            inner0,
                            world.interactions@,
                            world.people@[i2].id,
                            world.people@[j2].id,
                        );
                    }
                    // Any living agent standing on this neighbour cell is
                    // now paired with the scanning agent.
                    assert forall|j2: int, q2: int|
                        0 <= j2 < n && (#[trigger] world.people@[j2]).alive && 0 <= q2 < j + 1 && (
                        #[trigger] neighbors@[q2]).to_real_spec(world.config)
                            == world.people@[j2].pos.to_real_spec(world.config) implies pair_recorded(
                        world.interactions@,
                        my_id,
                        world.people@[j2].id,
                    ) by {
                        if q2 < j {
                            lemma_recorded_extend(
                                inner0,
                                world.interactions@,
                                my_id,
                                world.people@[j2].id,
                            );
                        } else {
                            let rc2 = c.to_real_spec(world.config);
                            assert(world.person_lookup.entities@.contains_key(rc2));
                            assert(world.person_lookup.entities@[rc2] == world.people@[j2].id);
                            assert(occ_opt->Some_0 == world.people@[j2].id);
                            if world.people@[j2].id == my_id {
                                // The scanning agent's own cell differs from
                                // every scanned neighbour cell.
                                assert(world.people@[j2].id == world.people@[i as int].id);
                                assert(j2 == i);
                                assert(rc2 != world.people@[i as int].pos.to_real_spec(
                                    world.config,
                                ));
                                assert(false);
                            }
                            assert(target_opt is Some);
                            let jbv = target_opt->Some_0;
                            assert(world.people@[jbv as int].id == world.people@[j2].id);
                            assert(jbv == j2);
                            assert(world.interactions@.last() == (PeopleInteraction {
                                a: my_id,
                                b: world.people@[j2].id,
                            }));
                        }
                    }
                }
                j = j + 1;
            }
            proof {
                // Every cell this agent sees occupied is among its scanned
                // neighbours, so all its adjacencies are now recorded.
                assert forall|j2: int|
                    0 <= j2 < n && (#[trigger] world.people@[j2]).alive && sees(
                        *old(world),
                        i as int,
                        j2,
                    ) implies pair_recorded(
                    world.interactions@,
                    world.people@[i as int].id,
                    world.people@[j2].id,
                ) by {
                    let c = choose|c: VirtualCoords|
                        is_occupied_neighbour(
                            c,
                            old(world).people@[i as int].pos,
                            old(world).config,
                            old(world).person_lookup.entities@,
                        ) && (#[trigger] c.to_real_spec(old(world).config))
                            == old(world).people@[j2].pos.to_real_spec(old(world).config);
                    assert(neighbors@.contains(c));
                    let q2 = choose|q2: int| 0 <= q2 < neighbors@.len() && neighbors@[q2] == c;
                    assert((neighbors@[q2]).to_real_spec(world.config) == world.people@[
                        j2].pos.to_real_spec(world.config));
                }
            }
        } else {
            proof {
                assert forall|i2: int, j2: int|
                    0 <= i2 < i + 1 && 0 <= j2 < n && (#[trigger] world.people@[i2]).alive && (
                    #[trigger] world.people@[j2]).alive && sees(*old(world), i2, j2)
                        implies pair_recorded(
                    world.interactions@,
                    world.people@[i2].id,
                    world.people@[j2].id,
                ) by {
                    if i2 == i {
                        assert(!world.people@[i as int].alive);
                        assert(false);
                    }
                }
            }
        }
        i = i + 1;
    }
}

} // verus!
