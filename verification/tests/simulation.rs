use space_business::config::{AiConfig, Config, ConfigValue, GameConfig, MapConfig};
use space_business::measures::{GeometryType, VirtualCoords};
use space_business::people::{Hunger, Sex};
use space_business::planet::{FoodAmount, FoodType};
use space_business::world::World;

fn quiet_config() -> Config {
    Config {
        game: GameConfig {
            growth: ConfigValue { value: 0 },
            hunger_increase: ConfigValue { value: 0 },
            hunger_decrease: ConfigValue { value: 700 },
            starting_people: ConfigValue { value: 0 },
            max_person_age: ConfigValue { value: 100 },
            person_ttl: ConfigValue { value: 2 },
            food_for_baby: ConfigValue { value: 3 },
            year_length: ConfigValue { value: 100 },
            growing_season_length: ConfigValue { value: 1000 },
            min_fertile_age_male: ConfigValue { value: 100 },
            max_fertile_age_male: ConfigValue { value: 900 },
            min_fertile_age_female: ConfigValue { value: 100 },
            max_fertile_age_female: ConfigValue { value: 900 },
            death_lottery: ConfigValue { value: false },
            trade_allowed: ConfigValue { value: false },
        },
        map: MapConfig {
            size_x: ConfigValue { value: 10 },
            size_y: ConfigValue { value: 8 },
            geometry: ConfigValue { value: GeometryType::Torus },
        },
        ai: AiConfig {
            food_amount_goal: ConfigValue { value: 1 },
            food_amount_threshold: ConfigValue { value: 0 },
            vision_range: ConfigValue { value: 5 },
        },
    }
}

fn no_hunger() -> Hunger {
    Hunger { apple: 0, orange: 0 }
}

#[test]
fn fertile_window_includes_its_lower_boundary() {
    // The fertile window is half-open [min-fraction, max-fraction): an age
    // exactly on the lower boundary is fertile, one on the upper is not.
    let mut config = quiet_config();
    config.game.min_fertile_age_male = ConfigValue { value: 500 };
    config.game.max_fertile_age_male = ConfigValue { value: 900 };
    assert!(space_business::people::is_in_male_fertile_age(50, &config));
    assert!(!space_business::people::is_in_male_fertile_age(49, &config));
    assert!(!space_business::people::is_in_male_fertile_age(90, &config));
    assert!(space_business::people::is_in_male_fertile_age(89, &config));
    config.game.min_fertile_age_female = ConfigValue { value: 100 };
    config.game.max_fertile_age_female = ConfigValue { value: 700 };
    assert!(space_business::people::is_in_female_fertile_age(10, &config));
    assert!(!space_business::people::is_in_female_fertile_age(9, &config));
    assert!(!space_business::people::is_in_female_fertile_age(70, &config));
}

#[test]
fn seeding_reaches_the_exact_starting_population() {
    let mut config = quiet_config();
    config.game.starting_people = ConfigValue { value: 30 };
    let mut world = World::new(config);
    space_business::people::init_people(&mut world);
    assert_eq!(world.people.len(), 30);
    assert_eq!(world.person_lookup.entities.len(), 30);
    for i in 0..world.people.len() {
        assert!(world.people[i].alive);
        assert_eq!(world.people[i].food, FoodAmount { apples: 3, oranges: 3 });
        assert!(world.people[i].age < 100);
    }
    // Oversubscribed: the population is capped at the cell count, with
    // every cell of the map occupied.
    let mut config2 = quiet_config();
    config2.map.size_x = ConfigValue { value: 4 };
    config2.map.size_y = ConfigValue { value: 4 };
    config2.game.starting_people = ConfigValue { value: 99 };
    let mut world2 = World::new(config2);
    space_business::people::init_people(&mut world2);
    assert_eq!(world2.people.len(), 16);
    assert_eq!(world2.person_lookup.entities.len(), 16);
}

#[test]
fn spawning_on_an_occupied_cell_is_refused() {
    let mut world = World::new(quiet_config());
    let pos = VirtualCoords { x: 3, y: 3 };
    let first = world.spawn_person(pos, Sex::Male, 50, FoodAmount { apples: 1, oranges: 1 }, no_hunger());
    assert!(first.is_some());
    let second = world.spawn_person(pos, Sex::Female, 50, FoodAmount { apples: 1, oranges: 1 }, no_hunger());
    assert!(second.is_none());
    assert_eq!(world.people.len(), 1);
    assert_eq!(world.person_lookup.entities.len(), 1);
}

#[test]
fn adjacent_fertile_pair_breeds() {
    // Two adjacent fertile agents, one male one female, each holding 10
    // apples and 10 oranges, with food_for_baby = 3.  Both directions of
    // the mutual adjacency are tried, so the pair produces two children:
    // one holding the parents' first halves (10/10), a second holding the
    // halves of what remained (4/4); the parents end at 3/3.  Stock of each
    // type is conserved exactly, and every agent stands on its own cell.
    let mut world = World::new(quiet_config());
    let stock = FoodAmount { apples: 10, oranges: 10 };
    world
        .spawn_person(VirtualCoords { x: 2, y: 2 }, Sex::Male, 50, stock, no_hunger())
        .unwrap();
    world
        .spawn_person(VirtualCoords { x: 2, y: 3 }, Sex::Female, 50, stock, no_hunger())
        .unwrap();
    assert!(world.people[0].fertile);
    assert!(world.people[1].fertile);
    world.tick();
    assert_eq!(world.people.len(), 4);
    assert_eq!(world.person_lookup.entities.len(), 4);
    assert_eq!(world.people[0].food, FoodAmount { apples: 3, oranges: 3 });
    assert_eq!(world.people[1].food, FoodAmount { apples: 3, oranges: 3 });
    assert_eq!(world.people[2].food, FoodAmount { apples: 10, oranges: 10 });
    assert_eq!(world.people[3].food, FoodAmount { apples: 4, oranges: 4 });
    let apples: u32 = world.people.iter().map(|p| p.food.apples).sum();
    let oranges: u32 = world.people.iter().map(|p| p.food.oranges).sum();
    assert_eq!(apples, 20);
    assert_eq!(oranges, 20);
    // The children were born this tick and aged once with everyone else.
    assert_eq!(world.people[2].age, 1);
    assert_eq!(world.people[3].age, 1);
    assert!(world.people[2].alive && world.people[3].alive);
    // Each child was spawned on a free cell bordering its mother.
    for child in [&world.people[2], &world.people[3]] {
        assert!((child.pos.x - 2).abs() <= 1);
        assert!((child.pos.y - 3).abs() <= 1);
    }
}

#[test]
fn breeding_needs_enough_pooled_food() {
    // Each summed stock must exceed twice food_for_baby; at exactly twice
    // it does not, and nothing changes.
    let mut config = quiet_config();
    config.game.food_for_baby = ConfigValue { value: 10 };
    let mut world = World::new(config);
    let stock = FoodAmount { apples: 10, oranges: 10 };
    world
        .spawn_person(VirtualCoords { x: 2, y: 2 }, Sex::Male, 50, stock, no_hunger())
        .unwrap();
    world
        .spawn_person(VirtualCoords { x: 2, y: 3 }, Sex::Female, 50, stock, no_hunger())
        .unwrap();
    world.tick();
    assert_eq!(world.people.len(), 2);
    assert_eq!(world.people[0].food, stock);
    assert_eq!(world.people[1].food, stock);
}

#[test]
fn single_source_grows_to_the_cap() {
    // A single food source at stock 0, growth probability 1.0 and an
    // always-in-season configuration: stock 1 after one tick, capped at 3
    // from the third tick on.
    let mut config = quiet_config();
    config.game.growth = ConfigValue { value: 1000 };
    let mut world = World::new(config);
    world.add_food_source(VirtualCoords { x: 4, y: 4 }, FoodType::Apple, 0).unwrap();
    world.tick();
    assert_eq!(world.food_sites[0].amount.apples, 1);
    world.tick();
    world.tick();
    assert_eq!(world.food_sites[0].amount.apples, 3);
    world.tick();
    world.tick();
    assert_eq!(world.food_sites[0].amount.apples, 3);
    assert_eq!(world.food_sites[0].amount.oranges, 0);
}

#[test]
fn growth_probability_zero_never_grows() {
    let mut world = World::new(quiet_config());
    world.add_food_source(VirtualCoords { x: 4, y: 4 }, FoodType::Orange, 1).unwrap();
    for _ in 0..5 {
        world.tick();
    }
    assert_eq!(world.food_sites[0].amount.oranges, 1);
}

#[test]
fn starving_agent_with_no_stock_dies() {
    // Hunger above 1.0 for apples, no apples held, no orange hunger and no
    // oranges: the eat action cannot relieve anything, so the agent
    // transitions to dead-pending.
    let mut world = World::new(quiet_config());
    world
        .spawn_person(
            VirtualCoords { x: 1, y: 1 },
            Sex::Male,
            20,
            FoodAmount { apples: 0, oranges: 0 },
            Hunger { apple: 1500, orange: 0 },
        )
        .unwrap();
    world.tick();
    assert!(!world.people[0].alive);
    // The despawn countdown started at 2 and already counted one tick.
    assert_eq!(world.people[0].ttl, 1);
    // A dead-pending agent still claims its cell in the spatial index.
    assert_eq!(world.person_lookup.entities.len(), 1);
    world.tick();
    assert_eq!(world.people.len(), 1);
    world.tick();
    // The countdown ran out: despawned and removed from the index.
    assert_eq!(world.people.len(), 0);
    assert_eq!(world.person_lookup.entities.len(), 0);
}

#[test]
fn eating_consumes_stock_and_relieves_hunger() {
    let mut world = World::new(quiet_config());
    world
        .spawn_person(
            VirtualCoords { x: 1, y: 1 },
            Sex::Female,
            20,
            FoodAmount { apples: 2, oranges: 0 },
            Hunger { apple: 1500, orange: 0 },
        )
        .unwrap();
    world.tick();
    assert!(world.people[0].alive);
    assert_eq!(world.people[0].food.apples, 1);
    assert_eq!(world.people[0].hunger.apple, 800);
}

#[test]
fn orange_branch_feeds_when_apples_cannot() {
    // Apple hunger is high but no apples are held; orange hunger also
    // qualifies and oranges are in stock, so the orange branch feeds.
    let mut world = World::new(quiet_config());
    world
        .spawn_person(
            VirtualCoords { x: 1, y: 1 },
            Sex::Female,
            20,
            FoodAmount { apples: 0, oranges: 2 },
            Hunger { apple: 1500, orange: 1200 },
        )
        .unwrap();
    world.tick();
    assert!(world.people[0].alive);
    assert_eq!(world.people[0].food.oranges, 1);
    assert_eq!(world.people[0].hunger.orange, 500);
    assert_eq!(world.people[0].hunger.apple, 1500);
}

#[test]
fn trade_runs_between_adjacent_unbalanced_agents() {
    let mut config = quiet_config();
    config.game.trade_allowed = ConfigValue { value: true };
    let mut world = World::new(config);
    world
        .spawn_person(
            VirtualCoords { x: 2, y: 2 },
            Sex::Male,
            95,
            FoodAmount { apples: 10, oranges: 2 },
            no_hunger(),
        )
        .unwrap();
    world
        .spawn_person(
            VirtualCoords { x: 2, y: 3 },
            Sex::Female,
            95,
            FoodAmount { apples: 2, oranges: 10 },
            no_hunger(),
        )
        .unwrap();
    world.tick();
    assert_eq!(world.people[0].food, FoodAmount { apples: 6, oranges: 6 });
    assert_eq!(world.people[1].food, FoodAmount { apples: 6, oranges: 6 });
    let bucket = world.stats.trade_history.last().unwrap();
    assert_eq!(bucket.len(), 1);
    assert_eq!(bucket[0].apples, 4);
    assert_eq!(bucket[0].oranges, 4);
}

#[test]
fn trade_disabled_flag_stops_all_barter() {
    let mut world = World::new(quiet_config());
    world
        .spawn_person(
            VirtualCoords { x: 2, y: 2 },
            Sex::Male,
            95,
            FoodAmount { apples: 10, oranges: 2 },
            no_hunger(),
        )
        .unwrap();
    world
        .spawn_person(
            VirtualCoords { x: 2, y: 3 },
            Sex::Female,
            95,
            FoodAmount { apples: 2, oranges: 10 },
            no_hunger(),
        )
        .unwrap();
    world.tick();
    assert_eq!(world.people[0].food, FoodAmount { apples: 10, oranges: 2 });
    assert_eq!(world.people[1].food, FoodAmount { apples: 2, oranges: 10 });
    assert_eq!(world.stats.trade_history.last().unwrap().len(), 0);
}

#[test]
fn agent_walks_to_the_best_food_site_and_forages() {
    let mut config = quiet_config();
    config.ai.food_amount_goal = ConfigValue { value: 10 };
    config.ai.food_amount_threshold = ConfigValue { value: 200 };
    config.game.hunger_increase = ConfigValue { value: 100 };
    let mut world = World::new(config);
    world
        .spawn_person(
            VirtualCoords { x: 2, y: 2 },
            Sex::Male,
            50,
            FoodAmount { apples: 3, oranges: 3 },
            no_hunger(),
        )
        .unwrap();
    world.add_food_source(VirtualCoords { x: 5, y: 2 }, FoodType::Apple, 3).unwrap();
    world.tick();
    // The seek-food score is (10-3)/10 + 0.2 = 0.9, above the threshold:
    // the visible site became the target and one step was taken toward it.
    assert_eq!(world.people[0].move_to, Some(VirtualCoords { x: 5, y: 2 }));
    assert!(world.people[0].forage);
    assert_eq!(world.people[0].pos, VirtualCoords { x: 3, y: 2 });
    world.tick();
    assert_eq!(world.people[0].pos, VirtualCoords { x: 4, y: 2 });
    world.tick();
    // Arrived, and foraged one apple from the source.
    assert_eq!(world.people[0].pos, VirtualCoords { x: 5, y: 2 });
    assert_eq!(world.people[0].food.apples, 4);
    assert_eq!(world.food_sites[0].amount.apples, 2);
    assert!(!world.people[0].forage);
    world.tick();
    // The displacement is now zero: the target is cleared.
    assert_eq!(world.people[0].move_to, None);
}

#[test]
fn blocked_step_keeps_agent_in_place() {
    // An agent whose single step toward its target lands on an occupied
    // cell stays put and keeps the target for the next tick.
    let mut config = quiet_config();
    config.ai.food_amount_goal = ConfigValue { value: 10 };
    config.ai.food_amount_threshold = ConfigValue { value: 200 };
    config.game.hunger_increase = ConfigValue { value: 100 };
    let mut world = World::new(config);
    world
        .spawn_person(
            VirtualCoords { x: 2, y: 2 },
            Sex::Male,
            50,
            FoodAmount { apples: 3, oranges: 3 },
            no_hunger(),
        )
        .unwrap();
    // A well-fed blocker that will not move or breed.
    world
        .spawn_person(
            VirtualCoords { x: 3, y: 2 },
            Sex::Male,
            95,
            FoodAmount { apples: 10, oranges: 10 },
            no_hunger(),
        )
        .unwrap();
    world.add_food_source(VirtualCoords { x: 5, y: 2 }, FoodType::Apple, 3).unwrap();
    world.tick();
    assert_eq!(world.people[0].pos, VirtualCoords { x: 2, y: 2 });
    assert_eq!(world.people[0].move_to, Some(VirtualCoords { x: 5, y: 2 }));
}

#[test]
fn despawning_transfers_the_exact_stock_to_one_survivor() {
    // The despawn primitive itself: the due agent leaves storage and the
    // index, and with the lottery on the one survivor inherits exactly the
    // dead agent's stock per type.
    let mut config = quiet_config();
    config.game.death_lottery = ConfigValue { value: true };
    let mut world = World::new(config);
    world
        .spawn_person(
            VirtualCoords { x: 1, y: 1 },
            Sex::Male,
            20,
            FoodAmount { apples: 5, oranges: 7 },
            no_hunger(),
        )
        .unwrap();
    world
        .spawn_person(
            VirtualCoords { x: 6, y: 6 },
            Sex::Female,
            20,
            FoodAmount { apples: 2, oranges: 1 },
            no_hunger(),
        )
        .unwrap();
    world.people[0].alive = false;
    world.people[0].ttl = 0;
    space_business::people::despawn_person_at(&mut world, 0);
    assert_eq!(world.people.len(), 1);
    assert_eq!(world.person_lookup.entities.len(), 1);
    assert_eq!(world.people[0].food, FoodAmount { apples: 7, oranges: 8 });
}

#[test]
fn dead_agent_inventory_passes_to_a_living_agent() {
    let mut config = quiet_config();
    config.game.death_lottery = ConfigValue { value: true };
    config.game.person_ttl = ConfigValue { value: 0 };
    let mut world = World::new(config);
    world
        .spawn_person(
            VirtualCoords { x: 1, y: 1 },
            Sex::Male,
            20,
            FoodAmount { apples: 0, oranges: 9 },
            Hunger { apple: 1500, orange: 0 },
        )
        .unwrap();
    world
        .spawn_person(
            VirtualCoords { x: 6, y: 6 },
            Sex::Female,
            95,
            FoodAmount { apples: 1, oranges: 1 },
            no_hunger(),
        )
        .unwrap();
    // The first agent starves this tick; with a zero countdown it despawns
    // the same tick, and the lottery hands its oranges to the survivor.
    world.tick();
    assert_eq!(world.people.len(), 1);
    assert_eq!(world.people[0].food, FoodAmount { apples: 1, oranges: 10 });
    assert_eq!(world.person_lookup.entities.len(), 1);
}

#[test]
fn spatial_index_matches_population_every_tick() {
    let mut config = quiet_config();
    config.game.trade_allowed = ConfigValue { value: true };
    config.game.hunger_increase = ConfigValue { value: 300 };
    config.game.growth = ConfigValue { value: 1000 };
    config.ai.food_amount_goal = ConfigValue { value: 10 };
    config.ai.food_amount_threshold = ConfigValue { value: 500 };
    let mut world = World::new(config);
    world
        .spawn_person(
            VirtualCoords { x: 2, y: 2 },
            Sex::Male,
            50,
            FoodAmount { apples: 10, oranges: 10 },
            no_hunger(),
        )
        .unwrap();
    world
        .spawn_person(
            VirtualCoords { x: 2, y: 3 },
            Sex::Female,
            50,
            FoodAmount { apples: 10, oranges: 10 },
            no_hunger(),
        )
        .unwrap();
    world
        .spawn_person(
            VirtualCoords { x: 7, y: 5 },
            Sex::Female,
            30,
            FoodAmount { apples: 0, oranges: 0 },
            Hunger { apple: 2000, orange: 2000 },
        )
        .unwrap();
    world.add_food_source(VirtualCoords { x: 5, y: 2 }, FoodType::Apple, 2).unwrap();
    world.add_food_source(VirtualCoords { x: 0, y: 6 }, FoodType::Orange, 1).unwrap();
    for _ in 0..12 {
        world.tick();
        let total = world.people.len();
        assert_eq!(world.person_lookup.entities.len(), total);
        // All stored agents are alive or dead-pending, each on its own cell.
        for i in 0..world.people.len() {
            for j in 0..i {
                let a = world.people[i].pos.to_real(&world.config);
                let b = world.people[j].pos.to_real(&world.config);
                assert_ne!(a, b);
            }
        }
        // Interactions never outlive their tick.
        assert_eq!(world.interactions.len(), 0);
    }
}

#[test]
fn knowledge_fills_on_look_around_and_halves_on_brain_wash() {
    // Vision 3, so neither ray wraps all the way around to see a site
    // twice: one site on each ray gives exactly two known sites.
    let mut config = quiet_config();
    config.ai.vision_range = ConfigValue { value: 3 };
    let mut world = World::new(config);
    world
        .spawn_person(
            VirtualCoords { x: 2, y: 2 },
            Sex::Male,
            50,
            FoodAmount { apples: 3, oranges: 3 },
            no_hunger(),
        )
        .unwrap();
    world.add_food_source(VirtualCoords { x: 5, y: 2 }, FoodType::Apple, 3).unwrap();
    world.add_food_source(VirtualCoords { x: 2, y: 5 }, FoodType::Orange, 3).unwrap();
    space_business::ai::look_around_action_system(&mut world);
    assert_eq!(world.people[0].knowledge.infos.len(), 2);
    space_business::ai::brain_wash(&mut world);
    assert_eq!(world.people[0].knowledge.infos.len(), 1);
    let kept = world.people[0].knowledge.infos[0];
    assert!(kept.coords == VirtualCoords { x: 5, y: 2 } || kept.coords == VirtualCoords { x: 2, y: 5 });
}
