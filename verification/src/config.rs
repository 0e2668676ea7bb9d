//! Live simulation configuration, read by every system once per tick.
//!
//! Rates, probabilities and fractions are fixed-point integers: probabilities
//! and fractions of a whole are given in permille (1000 = 1.0), hunger rates
//! and scores in milli-units (1000 = 1.0).  `valid` bounds every knob so that
//! all arithmetic in the core stays in range.

use vstd::prelude::*;
use crate::measures::GeometryType;

verus! {

/// One unit of fixed-point scale: 1.0 is represented as 1000.
pub const MILLI: u32 = 1000;

/// A single tunable value.
#[derive(Copy, Clone, Debug, PartialEq, Eq, Structural)]
pub struct ConfigValue<T> {
    pub value: T,
}

/// Gameplay knobs: growth, hunger, lifecycle, seasons, breeding and trade.
#[derive(Copy, Clone, Debug, PartialEq, Eq, Structural)]
pub struct GameConfig {
    /// Probability, in permille, that an in-season food source grows per tick.
    pub growth: ConfigValue<u32>,
    /// Hunger added per food type per tick, in milli-units.
    pub hunger_increase: ConfigValue<u32>,
    /// Hunger relieved by eating one unit, in milli-units.
    pub hunger_decrease: ConfigValue<u32>,
    /// Population spawned at world setup.
    pub starting_people: ConfigValue<u32>,
    /// Age, in ticks, beyond which an agent dies; 0 disables old-age death.
    pub max_person_age: ConfigValue<u32>,
    /// Ticks between an agent's death and its despawn.
    pub person_ttl: ConfigValue<u32>,
    /// Food threshold for breeding: each summed stock must exceed twice this.
    pub food_for_baby: ConfigValue<u32>,
    /// Ticks per seasonal cycle.
    pub year_length: ConfigValue<u32>,
    /// Length of the growing season as a permille fraction of the year.
    pub growing_season_length: ConfigValue<u32>,
    /// Start of the male fertile window, as a permille fraction of max age.
    pub min_fertile_age_male: ConfigValue<u32>,
    /// End of the male fertile window, as a permille fraction of max age.
    pub max_fertile_age_male: ConfigValue<u32>,
    /// Start of the female fertile window, as a permille fraction of max age.
    pub min_fertile_age_female: ConfigValue<u32>,
    /// End of the female fertile window, as a permille fraction of max age.
    pub max_fertile_age_female: ConfigValue<u32>,
    /// When set, a despawning agent's stock passes to a random living agent.
    pub death_lottery: ConfigValue<bool>,
    /// Global switch for the barter economy.
    pub trade_allowed: ConfigValue<bool>,
}

/// World-shape knobs.
#[derive(Copy, Clone, Debug, PartialEq, Eq, Structural)]
pub struct MapConfig {
    pub size_x: ConfigValue<u32>,
    pub size_y: ConfigValue<u32>,
    pub geometry: ConfigValue<GeometryType>,
}

/// Decision-engine knobs.
#[derive(Copy, Clone, Debug, PartialEq, Eq, Structural)]
pub struct AiConfig {
    /// Stock of each food type an agent aims to hold.
    pub food_amount_goal: ConfigValue<u32>,
    /// Additive bias of the seek-food score, in milli-units.
    pub food_amount_threshold: ConfigValue<u32>,
    /// How many cells an agent scans along each cardinal ray.
    pub vision_range: ConfigValue<u32>,
}

/// The complete configuration read by the core.
#[derive(Copy, Clone, Debug, PartialEq, Eq, Structural)]
pub struct Config {
    pub game: GameConfig,
    pub map: MapConfig,
    pub ai: AiConfig,
}

impl Config {
    /// Bounds under which every computation of the core stays in range:
    /// a non-empty world of at most 32768 cells per side, permille fractions
    /// at most 1000, and rates small enough that per-tick sums fit in 64
    /// bits.  These are machine-range caps only — generous enough that they
    /// exclude no plausible run — not domain rules.
    pub open spec fn valid(&self) -> bool {
        &&& 1 <= self.map.size_x.value <= 32768
        &&& 1 <= self.map.size_y.value <= 32768
        &&& 1 <= self.game.year_length.value <= 1000000
        &&& self.game.growing_season_length.value <= 1000
        &&& self.game.growth.value <= 1000
        &&& self.game.hunger_increase.value <= 1000000
        &&& self.game.hunger_decrease.value <= 1000000
        &&& self.game.max_person_age.value <= 1000000000
        &&& self.game.person_ttl.value <= 1000000000
        &&& self.game.food_for_baby.value <= 1000000000
        &&& self.game.min_fertile_age_male.value <= 1000
        &&& self.game.max_fertile_age_male.value <= 1000
        &&& self.game.min_fertile_age_female.value <= 1000
        &&& self.game.max_fertile_age_female.value <= 1000
        &&& 1 <= self.ai.food_amount_goal.value <= 1000000
        &&& self.ai.food_amount_threshold.value <= 1000000
        &&& self.ai.vision_range.value <= 1024
    }

    /// Run-time check of `valid`, for callers outside verified code.
    pub fn is_valid(&self) -> (r: bool)
        ensures
            r == self.valid(),
    {
        1 <= self.map.size_x.value && self.map.size_x.value <= 32768
            && 1 <= self.map.size_y.value && self.map.size_y.value <= 32768
            && 1 <= self.game.year_length.value && self.game.year_length.value <= 1000000
            && self.game.growing_season_length.value <= 1000
            && self.game.growth.value <= 1000
            && self.game.hunger_increase.value <= 1000000
            && self.game.hunger_decrease.value <= 1000000
            && self.game.max_person_age.value <= 1000000000
            && self.game.person_ttl.value <= 1000000000
            && self.game.food_for_baby.value <= 1000000000
            && self.game.min_fertile_age_male.value <= 1000
            && self.game.max_fertile_age_male.value <= 1000
            && self.game.min_fertile_age_female.value <= 1000
            && self.game.max_fertile_age_female.value <= 1000
            && 1 <= self.ai.food_amount_goal.value && self.ai.food_amount_goal.value <= 1000000
            && self.ai.food_amount_threshold.value <= 1000000
            && self.ai.vision_range.value <= 1024
    }
}

} // verus!
