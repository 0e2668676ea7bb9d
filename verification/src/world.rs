//! The whole simulation state and its well-formedness invariant, shared by
//! every per-tick system.

use vstd::prelude::*;
use crate::config::Config;
use crate::interactions::PeopleInteraction;
use crate::lookup::{CoordMap, Lookup};
use crate::measures::{RealCoords, VirtualCoords};
use crate::people::{Hunger, Knowledge, Person, Sex, HUNGER_LIMIT};
use crate::planet::{FoodAmount, FoodSource, FoodType, TotalTicks};
use crate::stats::Statistics;

verus! {

/// A stationary food source placed in the world: one food type, a stock of
/// that type in `[0, 3]`, and a fixed position.
#[derive(Debug)]
pub struct FoodSite {
    pub id: u64,
    pub source: FoodSource,
    pub amount: FoodAmount,
    pub pos: VirtualCoords,
}

impl FoodSite {
    /// A canonical position and a stock of only its own type, capped at 3.
    pub open spec fn wf(&self, config: Config) -> bool {
        &&& self.pos.canonical(config)
        &&& match self.source.0 {
            crate::planet::FoodType::Apple => self.amount.oranges == 0 && self.amount.apples <= 3,
            crate::planet::FoodType::Orange => self.amount.apples == 0 && self.amount.oranges <= 3,
        }
    }
}

/// How many of the people are alive.
pub open spec fn count_alive(s: Seq<Person>) -> int
    decreases s.len(),
{
    if s.len() == 0 {
        0
    } else {
        count_alive(s.drop_last()) + if s.last().alive {
            1int
        } else {
            0int
        }
    }
}

/// How many of the people are dead and awaiting despawn.
pub open spec fn count_dead_pending(s: Seq<Person>) -> int
    decreases s.len(),
{
    if s.len() == 0 {
        0
    } else {
        count_dead_pending(s.drop_last()) + if !s.last().alive {
            1int
        } else {
            0int
        }
    }
}

/// Whether a stored agent is due to despawn this cleanup pass.
pub open spec fn despawn_due(p: Person) -> bool {
    !p.alive && p.ttl == 0
}

/// How many of the people are due to despawn.
pub open spec fn count_due(s: Seq<Person>) -> int
    decreases s.len(),
{
    if s.len() == 0 {
        0
    } else {
        count_due(s.drop_last()) + if despawn_due(s.last()) {
            1int
        } else {
            0int
        }
    }
}

/// Prefix counting of `count_due`, one entry at a time.
pub proof fn lemma_count_due_take_step(s: Seq<Person>, i: int)
    requires
        0 <= i < s.len(),
    ensures
        count_due(s.take(i + 1)) == count_due(s.take(i)) + if despawn_due(s[i]) {
            1int
        } else {
            0int
        },
{
    assert(s.take(i + 1).drop_last() =~= s.take(i));
    assert(s.take(i + 1).last() == s[i]);
}

/// The living count is never negative, and positive wherever someone lives.
pub proof fn lemma_count_alive_bounds(s: Seq<Person>)
    ensures
        0 <= count_alive(s) <= s.len(),
        forall|w: int| 0 <= w < s.len() && (#[trigger] s[w]).alive ==> count_alive(s) >= 1,
    decreases s.len(),
{
    if s.len() > 0 {
        lemma_count_alive_bounds(s.drop_last());
        assert forall|w: int|
            0 <= w < s.len() && (#[trigger] s[w]).alive implies count_alive(s) >= 1 by {
            if w < s.len() - 1 {
                assert(s.drop_last()[w].alive);
            }
        }
    }
}

/// Removing an entry changes the living count only if it was alive.
pub proof fn lemma_count_alive_remove(s: Seq<Person>, i: int)
    requires
        0 <= i < s.len(),
    ensures
        count_alive(s.remove(i)) == count_alive(s) - if s[i].alive {
            1int
        } else {
            0int
        },
    decreases s.len(),
{
    if i == s.len() - 1 {
        assert(s.remove(i) =~= s.drop_last());
    } else {
        assert(s.remove(i).drop_last() =~= s.drop_last().remove(i));
        assert(s.remove(i).last() == s.last());
        lemma_count_alive_remove(s.drop_last(), i);
    }
}

/// Replacing an entry by one of the same liveness keeps the living count.
pub proof fn lemma_count_alive_update(s: Seq<Person>, i: int, p: Person)
    requires
        0 <= i < s.len(),
        p.alive == s[i].alive,
    ensures
        count_alive(s.update(i, p)) == count_alive(s),
    decreases s.len(),
{
    if i == s.len() - 1 {
        assert(s.update(i, p).drop_last() =~= s.drop_last());
        assert(s.update(i, p).last() == p);
    } else {
        assert(s.update(i, p).drop_last() =~= s.drop_last().update(i, p));
        assert(s.update(i, p).last() == s.last());
        lemma_count_alive_update(s.drop_last(), i, p);
    }
}

/// Everyone stored is either alive or dead-pending.
pub proof fn lemma_population_partition(s: Seq<Person>)
    ensures
        count_alive(s) + count_dead_pending(s) == s.len(),
    decreases s.len(),
{
    if s.len() > 0 {
        lemma_population_partition(s.drop_last());
    }
}

/// The complete simulation state.
#[derive(Debug)]
pub struct World {
    pub config: Config,
    pub time: TotalTicks,
    /// Source of fresh entity identities; strictly above every id in use.
    pub next_id: u64,
    /// All agents, alive or dead-pending; despawned agents are removed.
    pub people: Vec<Person>,
    /// One entry per stored agent, at its real cell.
    pub person_lookup: Lookup<Person>,
    /// All food sources; never destroyed, never moved.
    pub food_sites: Vec<FoodSite>,
    /// One entry per food source, at its real cell.
    pub food_lookup: Lookup<FoodSource>,
    /// This tick's adjacency records; cleared before the tick ends.
    pub interactions: Vec<PeopleInteraction>,
    pub stats: Statistics,
}

impl World {
    /// The agent part of the invariant: well-formed distinct agents, each
    /// registered in the spatial index at its own cell, and the index no
    /// larger than the population — so indexed cells and stored agents are
    /// in bijection.
    pub open spec fn people_wf(&self) -> bool {
        &&& forall|i: int|
            0 <= i < self.people@.len() ==> (#[trigger] self.people@[i]).wf(self.config)
        &&& forall|i: int, j: int|
            0 <= i < j < self.people@.len() ==> (#[trigger] self.people@[i]).id
                != (#[trigger] self.people@[j]).id
        &&& forall|i: int|
            0 <= i < self.people@.len() ==> {
                let rc = (#[trigger] self.people@[i]).pos.to_real_spec(self.config);
                self.person_lookup.entities@.contains_key(rc) && self.person_lookup.entities@[rc]
                    == self.people@[i].id
            }
        &&& self.person_lookup.entities.wf()
        &&& self.person_lookup.entities@.dom().len() == self.people@.len()
        &&& forall|i: int| 0 <= i < self.people@.len() ==> (#[trigger] self.people@[i]).id < self.next_id
    }

    /// The food part of the invariant, mirroring `people_wf`.
    pub open spec fn food_wf(&self) -> bool {
        &&& forall|i: int|
            0 <= i < self.food_sites@.len() ==> (#[trigger] self.food_sites@[i]).wf(self.config)
        &&& forall|i: int, j: int|
            0 <= i < j < self.food_sites@.len() ==> (#[trigger] self.food_sites@[i]).id
                != (#[trigger] self.food_sites@[j]).id
        &&& forall|i: int|
            0 <= i < self.food_sites@.len() ==> {
                let rc = (#[trigger] self.food_sites@[i]).pos.to_real_spec(self.config);
                self.food_lookup.entities@.contains_key(rc) && self.food_lookup.entities@[rc]
                    == self.food_sites@[i].id
            }
        &&& self.food_lookup.entities.wf()
        &&& self.food_lookup.entities@.dom().len() == self.food_sites@.len()
        &&& forall|i: int|
            0 <= i < self.food_sites@.len() ==> (#[trigger] self.food_sites@[i]).id < self.next_id
    }

    /// No interaction ever pairs an agent with itself.
    pub open spec fn interactions_wf(&self) -> bool {
        forall|k: int|
            0 <= k < self.interactions@.len() ==> (#[trigger] self.interactions@[k]).a
                != self.interactions@[k].b
    }

    /// The invariant every system preserves.
    pub open spec fn wf(&self) -> bool {
        &&& self.config.valid()
        &&& self.people_wf()
        &&& self.food_wf()
        &&& self.interactions_wf()
    }

    /// An empty world under `config`.
    pub fn new(config: Config) -> (r: World)
        requires
            config.valid(),
        ensures
            r.wf(),
            r.config == config,
            r.time.0 == 0,
            r.next_id == 0,
            r.people@.len() == 0,
            r.person_lookup.entities@ == Map::<RealCoords, u64>::empty(),
            r.food_sites@.len() == 0,
            r.food_lookup.entities@ == Map::<RealCoords, u64>::empty(),
            r.interactions@.len() == 0,
            r.stats.trade_history@.len() == 0,
    {
        let w = World {
            config,
            time: TotalTicks(0),
            next_id: 0,
            people: Vec::new(),
            person_lookup: Lookup { entities: CoordMap::new(), default: None },
            food_sites: Vec::new(),
            food_lookup: Lookup { entities: CoordMap::new(), default: None },
            interactions: Vec::new(),
            stats: Statistics::new(),
        };
        proof {
            assert(w.person_lookup.entities@.dom() =~= Set::<RealCoords>::empty());
            assert(w.food_lookup.entities@.dom() =~= Set::<RealCoords>::empty());
        }
        w
    }

    /// Distinct stored agents always stand on distinct cells.
    pub proof fn lemma_people_distinct_cells(&self, i: int, j: int)
        requires
            self.people_wf(),
            0 <= i < self.people@.len(),
            0 <= j < self.people@.len(),
            i != j,
        ensures
            self.people@[i].pos.to_real_spec(self.config) != self.people@[j].pos.to_real_spec(
                self.config,
            ),
    {
        if self.people@[i].pos.to_real_spec(self.config) == self.people@[j].pos.to_real_spec(
            self.config,
        ) {
            assert(self.people@[i].id == self.people@[j].id);
        }
    }

    /// Places a new agent on the cell `pos` denotes.  Succeeds exactly when
    /// that cell is free (and identities have not run out); on success the
    /// agent is stored with a fresh identity, a canonical position, the
    /// given attributes, and fertility computed from its age and sex.
    pub fn spawn_person(
        &mut self,
        pos: VirtualCoords,
        sex: Sex,
        age: u32,
        food: FoodAmount,
        hunger: Hunger,
    ) -> (r: Option<u64>)
        requires
            old(self).wf(),
            -1000000 <= hunger.apple <= HUNGER_LIMIT + 1000000,
            -1000000 <= hunger.orange <= HUNGER_LIMIT + 1000000,
        ensures
            final(self).wf(),
            final(self).config == old(self).config,
            final(self).time == old(self).time,
            final(self).food_sites == old(self).food_sites,
            final(self).food_lookup == old(self).food_lookup,
            final(self).interactions == old(self).interactions,
            final(self).stats == old(self).stats,
            r is Some <==> (!old(self).person_lookup.entities@.contains_key(
                pos.to_real_spec(old(self).config),
            ) && old(self).next_id < u64::MAX),
            r is None ==> *final(self) == *old(self),
            r is Some ==> {
                let rc = pos.to_real_spec(old(self).config);
                let p = Person {
                    id: old(self).next_id,
                    pos: rc.as_virtual_spec(),
                    age,
                    sex,
                    fertile: crate::people::in_fertile_age_spec(sex, age, old(self).config),
                    alive: true,
                    ttl: 0,
                    hunger,
                    food,
                    move_to: None,
                    forage: false,
                    knowledge: final(self).people@.last().knowledge,
                };
                &&& r->Some_0 == old(self).next_id
                &&& final(self).next_id == old(self).next_id + 1
                &&& final(self).people@ == old(self).people@.push(p)
                &&& final(self).people@.last().knowledge.infos@.len() == 0
                &&& final(self).person_lookup.entities@ == old(
                    self,
                ).person_lookup.entities@.insert(rc, old(self).next_id)
            },
    {
        if self.next_id == u64::MAX {
            return None;
        }
        let rc: RealCoords = pos.to_real(&self.config);
        if self.person_lookup.entities.get(rc).is_some() {
            return None;
        }
        let fertile: bool = match sex {
            Sex::Male => crate::people::is_in_male_fertile_age(age, &self.config),
            Sex::Female => crate::people::is_in_female_fertile_age(age, &self.config),
        };
        let id: u64 = self.next_id;
        let p = Person {
            id,
            pos: rc.as_virtual(),
            age,
            sex,
            fertile,
            alive: true,
            ttl: 0,
            hunger,
            food,
            move_to: None,
            forage: false,
            knowledge: Knowledge { infos: Vec::new() },
        };
        proof {
            self.person_lookup.entities.lemma_dom_finite();
        }
        self.people.push(p);
        self.person_lookup.entities.insert(rc, id);
        self.next_id = id + 1;
        proof {
            let cfg = self.config;
            let n = self.people@.len() - 1;
            assert(self.people@[n].pos.canonical(cfg));
            crate::measures::lemma_canonical_to_real(self.people@[n].pos, cfg);
            assert(self.people@[n].pos.to_real_spec(cfg) == rc);
            assert forall|i: int| 0 <= i < self.people@.len() implies {
                let c = (#[trigger] self.people@[i]).pos.to_real_spec(cfg);
                self.person_lookup.entities@.contains_key(c) && self.person_lookup.entities@[c]
                    == self.people@[i].id
            } by {
                if i < n {
                    assert(self.people@[i] == old(self).people@[i]);
                }
            }
        }
        Some(id)
    }

    /// Places a food source of `kind` holding `stock` units on the cell `pos`
    /// denotes.  Succeeds exactly when that cell holds no other source (and
    /// identities have not run out).
    pub fn add_food_source(&mut self, pos: VirtualCoords, kind: FoodType, stock: u32) -> (r: Option<
        u64,
    >)
        requires
            old(self).wf(),
            stock <= 3,
        ensures
            final(self).wf(),
            final(self).config == old(self).config,
            final(self).time == old(self).time,
            final(self).people == old(self).people,
            final(self).person_lookup == old(self).person_lookup,
            final(self).interactions == old(self).interactions,
            final(self).stats == old(self).stats,
            r is Some <==> (!old(self).food_lookup.entities@.contains_key(
                pos.to_real_spec(old(self).config),
            ) && old(self).next_id < u64::MAX),
            r is None ==> *final(self) == *old(self),
            r is Some ==> {
                let rc = pos.to_real_spec(old(self).config);
                let site = FoodSite {
                    id: old(self).next_id,
                    source: FoodSource(kind),
                    amount: match kind {
                        FoodType::Apple => FoodAmount { apples: stock, oranges: 0 },
                        FoodType::Orange => FoodAmount { apples: 0, oranges: stock },
                    },
                    pos: rc.as_virtual_spec(),
                };
                &&& r->Some_0 == old(self).next_id
                &&& final(self).next_id == old(self).next_id + 1
                &&& final(self).food_sites@ == old(self).food_sites@.push(site)
                &&& final(self).food_lookup.entities@ == old(self).food_lookup.entities@.insert(
                    rc,
                    old(self).next_id,
                )
            },
    {
        if self.next_id == u64::MAX {
            return None;
        }
        let rc: RealCoords = pos.to_real(&self.config);
        if self.food_lookup.entities.get(rc).is_some() {
            return None;
        }
        let id: u64 = self.next_id;
        let site = FoodSite {
            id,
            source: FoodSource(kind),
            amount: match kind {
                FoodType::Apple => FoodAmount { apples: stock, oranges: 0 },
                FoodType::Orange => FoodAmount { apples: 0, oranges: stock },
            },
            pos: rc.as_virtual(),
        };
        proof {
            self.food_lookup.entities.lemma_dom_finite();
        }
        self.food_sites.push(site);
        self.food_lookup.entities.insert(rc, id);
        self.next_id = id + 1;
        proof {
            let cfg = self.config;
            let n = self.food_sites@.len() - 1;
            assert(self.food_sites@[n].pos.canonical(cfg));
            crate::measures::lemma_canonical_to_real(self.food_sites@[n].pos, cfg);
            assert(self.food_sites@[n].pos.to_real_spec(cfg) == rc);
            assert forall|i: int| 0 <= i < self.food_sites@.len() implies {
                let c = (#[trigger] self.food_sites@[i]).pos.to_real_spec(cfg);
                self.food_lookup.entities@.contains_key(c) && self.food_lookup.entities@[c]
                    == self.food_sites@[i].id
            } by {
                if i < n {
                    assert(self.food_sites@[i] == old(self).food_sites@[i]);
                }
            }
        }
        Some(id)
    }

    /// The index of the agent with identity `id`, if stored.
    pub fn person_index_of(&self, id: u64) -> (r: Option<usize>)
        ensures
            match r {
                Some(i) => 0 <= i < self.people@.len() && self.people@[i as int].id == id,
                None => forall|i: int|
                    0 <= i < self.people@.len() ==> (#[trigger] self.people@[i]).id != id,
            },
    {
        let n: usize = self.people.len();
        let mut i: usize = 0;
        while i < n
            invariant
                n == self.people@.len(),
                0 <= i <= n,
                forall|j: int| 0 <= j < i ==> (#[trigger] self.people@[j]).id != id,
            decreases n - i,
        {
            if self.people[i].id == id {
                return Some(i);
            }
            i = i + 1;
        }
        None
    }

    /// The index of the food site with identity `id`, if stored.
    pub fn food_index_of(&self, id: u64) -> (r: Option<usize>)
        ensures
            match r {
                Some(i) => 0 <= i < self.food_sites@.len() && self.food_sites@[i as int].id == id,
                None => forall|i: int|
                    0 <= i < self.food_sites@.len() ==> (#[trigger] self.food_sites@[i]).id != id,
            },
    {
        let n: usize = self.food_sites.len();
        let mut i: usize = 0;
        while i < n
            invariant
                n == self.food_sites@.len(),
                0 <= i <= n,
                forall|j: int| 0 <= j < i ==> (#[trigger] self.food_sites@[j]).id != id,
            decreases n - i,
        {
            if self.food_sites[i].id == id {
                return Some(i);
            }
            i = i + 1;
        }
        None
    }
}

/// The set of cells the stored agents stand on.
pub open spec fn people_cells(s: Seq<Person>, config: Config) -> Set<RealCoords>
    decreases s.len(),
{
    if s.len() == 0 {
        Set::empty()
    } else {
        people_cells(s.drop_last(), config).insert(s.last().pos.to_real_spec(config))
    }
}

proof fn lemma_people_cells(s: Seq<Person>, config: Config)
    requires
        forall|i: int, j: int|
            0 <= i < j < s.len() ==> (#[trigger] s[i]).pos.to_real_spec(config) != (
            #[trigger] s[j]).pos.to_real_spec(config),
    ensures
        people_cells(s, config).finite(),
        people_cells(s, config).len() == s.len(),
        forall|c: RealCoords|
            #[trigger] people_cells(s, config).contains(c) <==> exists|i: int|
                0 <= i < s.len() && (#[trigger] s[i]).pos.to_real_spec(config) == c,
    decreases s.len(),
{
    if s.len() > 0 {
        assert forall|i: int, j: int|
            0 <= i < j < s.drop_last().len() implies (#[trigger] s.drop_last()[i]).pos.to_real_spec(
            config,
        ) != (#[trigger] s.drop_last()[j]).pos.to_real_spec(config) by {
            assert(s.drop_last()[i] == s[i]);
            assert(s.drop_last()[j] == s[j]);
        }
        lemma_people_cells(s.drop_last(), config);
        let prev = people_cells(s.drop_last(), config);
        let lastc = s.last().pos.to_real_spec(config);
        if prev.contains(lastc) {
            let i = choose|i: int|
                0 <= i < s.drop_last().len() && (#[trigger] s.drop_last()[i]).pos.to_real_spec(
                    config,
                ) == lastc;
            assert(s[i].pos.to_real_spec(config) == lastc);
            assert(false);
        }
        assert forall|c: RealCoords| #[trigger] people_cells(s, config).contains(c) implies exists|
            i: int,
        | 0 <= i < s.len() && (#[trigger] s[i]).pos.to_real_spec(config) == c by {
            if c == lastc {
                assert(s[s.len() - 1].pos.to_real_spec(config) == c);
            } else {
                let i = choose|i: int|
                    0 <= i < s.drop_last().len() && (#[trigger] s.drop_last()[i]).pos.to_real_spec(
                        config,
                    ) == c;
                assert(s[i].pos.to_real_spec(config) == c);
            }
        }
        assert forall|c: RealCoords|
            (exists|i: int| 0 <= i < s.len() && (#[trigger] s[i]).pos.to_real_spec(config) == c)
                implies #[trigger] people_cells(s, config).contains(c) by {
            let i = choose|i: int|
                0 <= i < s.len() && (#[trigger] s[i]).pos.to_real_spec(config) == c;
            if i < s.len() - 1 {
                assert(s.drop_last()[i].pos.to_real_spec(config) == c);
            }
        }
    }
}

/// Distinct occupied cells always hold distinct occupants: the spatial
/// index holds exactly one entry per stored agent, so its values — the
/// occupants' identities — never repeat across cells.
pub proof fn lemma_index_occupants_distinct(w: World, k1: RealCoords, k2: RealCoords)
    requires
        w.wf(),
        w.person_lookup.entities@.contains_key(k1),
        w.person_lookup.entities@.contains_key(k2),
        k1 != k2,
    ensures
        w.person_lookup.entities@[k1] != w.person_lookup.entities@[k2],
{
    let dom = w.person_lookup.entities@.dom();
    assert forall|i: int, j: int|
        0 <= i < j < w.people@.len() implies (#[trigger] w.people@[i]).pos.to_real_spec(w.config)
        != (#[trigger] w.people@[j]).pos.to_real_spec(w.config) by {
        w.lemma_people_distinct_cells(i, j);
    }
    lemma_people_cells(w.people@, w.config);
    let cells = people_cells(w.people@, w.config);
    assert forall|c: RealCoords| #[trigger] cells.contains(c) implies dom.contains(c) by {
        let i = choose|i: int|
            0 <= i < w.people@.len() && (#[trigger] w.people@[i]).pos.to_real_spec(w.config) == c;
    }
    w.person_lookup.entities.lemma_dom_finite();
    vstd::set_lib::lemma_len_subset(cells, dom);
    vstd::set_lib::lemma_subset_equality(cells, dom);
    assert(cells.contains(k1));
    assert(cells.contains(k2));
    let i1 = choose|i: int|
        0 <= i < w.people@.len() && (#[trigger] w.people@[i]).pos.to_real_spec(w.config) == k1;
    let i2 = choose|i: int|
        0 <= i < w.people@.len() && (#[trigger] w.people@[i]).pos.to_real_spec(w.config) == k2;
    assert(w.person_lookup.entities@[k1] == w.people@[i1].id);
    assert(w.person_lookup.entities@[k2] == w.people@[i2].id);
    assert(i1 != i2);
}

/// Frame condition: everything but the agents themselves is untouched.
pub open spec fn unchanged_except_people(pre: &World, post: &World) -> bool {
    &&& post.config == pre.config
    &&& post.time == pre.time
    &&& post.next_id == pre.next_id
    &&& post.person_lookup == pre.person_lookup
    &&& post.food_sites == pre.food_sites
    &&& post.food_lookup == pre.food_lookup
    &&& post.interactions == pre.interactions
    &&& post.stats == pre.stats
}

/// The Spatial Index size invariant: in a well-formed world the index holds
/// exactly one entry per living agent plus one per dead agent awaiting
/// despawn.
pub proof fn lemma_spatial_index_size(w: &World)
    requires
        w.wf(),
    ensures
        w.person_lookup.entities@.dom().len() == count_alive(w.people@) + count_dead_pending(
            w.people@,
        ),
{
    lemma_population_partition(w.people@);
}

} // verus!

verus! {

/// The opening of this tick's empty trade bucket as a relation between the
/// world before and after: everything unchanged but one new, empty bucket
/// at the end of the trade ledger.
pub open spec fn trade_bucket_opened_rel(a: World, b: World) -> bool {
    &&& b.wf()
    &&& b.config == a.config
    &&& b.time == a.time
    &&& b.next_id == a.next_id
    &&& b.people == a.people
    &&& b.person_lookup == a.person_lookup
    &&& b.food_sites == a.food_sites
    &&& b.food_lookup == a.food_lookup
    &&& b.interactions == a.interactions
    &&& b.stats.apple_history_sources == a.stats.apple_history_sources
    &&& b.stats.orange_history_sources == a.stats.orange_history_sources
    &&& b.stats.apple_history_people == a.stats.apple_history_people
    &&& b.stats.orange_history_people == a.stats.orange_history_people
    &&& b.stats.people_history == a.stats.people_history
    &&& b.stats.current_food == a.stats.current_food
    &&& b.stats.current_apples == a.stats.current_apples
    &&& b.stats.current_oranges == a.stats.current_oranges
    &&& b.stats.current_people == a.stats.current_people
    &&& b.stats.trade_history@.len() == a.stats.trade_history@.len() + 1
    &&& b.stats.trade_history@.last()@.len() == 0
    &&& forall|q: int|
        0 <= q < a.stats.trade_history@.len() ==> b.stats.trade_history@[q] == #[trigger] a.stats.trade_history@[q]
}

impl World {
    /// Advances the simulation by one tick, in the fixed system order: the
    /// clock, food growth, decision scoring with eat and movement-target
    /// actions, movement commits, foraging, adjacency detection, breeding,
    /// trade, hunger, aging, fertility, despawns, statistics, and finally
    /// the discarding of this tick's interactions.  The world invariant —
    /// including the spatial-index size equality — holds again afterwards,
    /// and the whole tick is witnessed as the chain of the sixteen phase
    /// relations in that order.
    #[verifier::rlimit(100)]
    #[verifier::spinoff_prover]
    pub fn tick(&mut self)
        requires
            old(self).wf(),
            old(self).time.0 < u32::MAX,
        ensures
            final(self).wf(),
            final(self).config == old(self).config,
            final(self).time.0 == old(self).time.0 + 1,
            final(self).interactions@.len() == 0,
            final(self).person_lookup.entities@.dom().len() == count_alive(final(self).people@)
                + count_dead_pending(final(self).people@),
            final(self).stats.trade_history@.len() == old(self).stats.trade_history@.len() + 1,
            final(self).stats.people_history@.len() == old(self).stats.people_history@.len() + 1,
            final(self).stats.apple_history_sources@.len() == old(
                self,
            ).stats.apple_history_sources@.len() + 1,
            final(self).stats.current_people == crate::stats::clamp_u32(
                count_alive(final(self).people@),
            ),
            exists|tr: Seq<World>|
                {
                    &&& #[trigger] tr.len() == 17
                    &&& tr[0] == *old(self)
                    &&& tr[16] == *final(self)
                    &&& crate::planet::time_system_rel(tr[0], tr[1])
                    &&& crate::planet::food_growth_rel(tr[1], tr[2])
                    &&& trade_bucket_opened_rel(tr[2], tr[3])
                    &&& crate::ai::move_action_system_rel(tr[3], tr[4])
                    &&& crate::ai::eat_action_system_rel(tr[4], tr[5])
                    &&& crate::people::move_system_rel(tr[5], tr[6])
                    &&& crate::people::foraging_system_rel(tr[6], tr[7])
                    &&& crate::interactions::add_interaction_system_rel(tr[7], tr[8])
                    &&& crate::interactions::breeding_interaction_system_rel(tr[8], tr[9])
                    &&& crate::interactions::trade_interaction_system_rel(tr[9], tr[10])
                    &&& crate::people::hunger_system_rel(tr[10], tr[11])
                    &&& crate::people::aging_system_rel(tr[11], tr[12])
                    &&& crate::people::fertility_system_rel(tr[12], tr[13])
                    &&& crate::people::cleanup_system_rel(tr[13], tr[14])
                    &&& crate::stats::food_statistics_rel(tr[14], tr[15])
                    &&& crate::interactions::cleanup_interactions_system_rel(tr[15], tr[16])
                },
    {
        crate::planet::time_system(self);
        let ghost t1 = *self;
        crate::planet::food_growth(self);
        let ghost t2 = *self;
        self.stats.trade_history.push(Vec::new());
        let ghost t3 = *self;
        proof {
            assert(trade_bucket_opened_rel(t2, t3));
        }
        crate::ai::move_action_system(self);
        let ghost t4 = *self;
        crate::ai::eat_action_system(self);
        let ghost t5 = *self;
        crate::people::move_system(self);
        let ghost t6 = *self;
        crate::people::foraging_system(self);
        let ghost t7 = *self;
        crate::interactions::add_interaction_system(self);
        let ghost t8 = *self;
        crate::interactions::breeding_interaction_system(self);
        let ghost t9 = *self;
        crate::interactions::trade_interaction_system(self);
        let ghost t10 = *self;
        crate::people::hunger_system(self);
        let ghost t11 = *self;
        crate::people::aging_system(self);
        let ghost t12 = *self;
        crate::people::fertility_system(self);
        let ghost t13 = *self;
        crate::people::cleanup_system(self);
        let ghost t14 = *self;
        crate::stats::food_statistics(self);
        let ghost t15 = *self;
        crate::interactions::cleanup_interactions_system(self);
        proof {
            lemma_spatial_index_size(self);
            let tr = seq![
                *old(self),
                t1,
                t2,
                t3,
                t4,
                t5,
                t6,
                t7,
                t8,
                t9,
                t10,
                t11,
                t12,
                t13,
                t14,
                t15,
                *self,
            ];
            assert(tr.len() == 17);
            assert(tr[0] == *old(self));
            assert(tr[16] == *self);
            assert(crate::planet::time_system_rel(tr[0], tr[1]));
            assert(crate::planet::food_growth_rel(tr[1], tr[2]));
            assert(trade_bucket_opened_rel(tr[2], tr[3]));
            assert(crate::ai::move_action_system_rel(tr[3], tr[4]));
            assert(crate::ai::eat_action_system_rel(tr[4], tr[5]));
            assert(crate::people::move_system_rel(tr[5], tr[6]));
            assert(crate::people::foraging_system_rel(tr[6], tr[7]));
            assert(crate::interactions::add_interaction_system_rel(tr[7], tr[8]));
            assert(crate::interactions::breeding_interaction_system_rel(tr[8], tr[9]));
            assert(crate::interactions::trade_interaction_system_rel(tr[9], tr[10]));
            assert(crate::people::hunger_system_rel(tr[10], tr[11]));
            assert(crate::people::aging_system_rel(tr[11], tr[12]));
            assert(crate::people::fertility_system_rel(tr[12], tr[13]));
            assert(crate::people::cleanup_system_rel(tr[13], tr[14]));
            assert(crate::stats::food_statistics_rel(tr[14], tr[15]));
            assert(crate::interactions::cleanup_interactions_system_rel(tr[15], tr[16]));
        }
    }
}

} // verus!
