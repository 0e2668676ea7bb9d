use space_business::config::{AiConfig, Config, ConfigValue, GameConfig, MapConfig};
use space_business::measures::{wrap_value, limit_value, GeometryType, RealCoords, VirtualCoords};

fn base_config(geometry: GeometryType) -> Config {
    Config {
        game: GameConfig {
            growth: ConfigValue { value: 0 },
            hunger_increase: ConfigValue { value: 0 },
            hunger_decrease: ConfigValue { value: 0 },
            starting_people: ConfigValue { value: 0 },
            max_person_age: ConfigValue { value: 100 },
            person_ttl: ConfigValue { value: 5 },
            food_for_baby: ConfigValue { value: 3 },
            year_length: ConfigValue { value: 100 },
            growing_season_length: ConfigValue { value: 100 },
            min_fertile_age_male: ConfigValue { value: 100 },
            max_fertile_age_male: ConfigValue { value: 900 },
            min_fertile_age_female: ConfigValue { value: 100 },
            max_fertile_age_female: ConfigValue { value: 900 },
            death_lottery: ConfigValue { value: false },
            trade_allowed: ConfigValue { value: false },
        },
        map: MapConfig {
            size_x: ConfigValue { value: 10 },
            size_y: ConfigValue { value: 8 },
            geometry: ConfigValue { value: geometry },
        },
        ai: AiConfig {
            food_amount_goal: ConfigValue { value: 1 },
            food_amount_threshold: ConfigValue { value: 0 },
            vision_range: ConfigValue { value: 5 },
        },
    }
}

#[test]
fn should_wrap_value_correctly() {
    assert_eq!(wrap_value(0, -1, 10), 9);
    assert_eq!(wrap_value(9, 1, 10), 0);
}

#[test]
fn wrap_value_stays_in_bounds() {
    for max in 1u32..12 {
        for x in 0..max {
            for delta in -30i32..30 {
                let r = wrap_value(x, delta, max);
                assert!(r < max);
            }
        }
    }
}

#[test]
fn limit_value_saturates_at_both_edges() {
    assert_eq!(limit_value(0, -3, 0, 10), 0);
    assert_eq!(limit_value(9, 5, 0, 10), 9);
    assert_eq!(limit_value(4, 2, 0, 10), 6);
    for x in 2u32..10 {
        for delta in -30i32..30 {
            let r = limit_value(x, delta, 2, 10);
            assert!(r >= 2 && r < 10);
        }
    }
}

#[test]
fn torus_wraps_both_axes() {
    let config = base_config(GeometryType::Torus);
    let v = VirtualCoords { x: -1, y: -1 };
    assert_eq!(v.to_real(&config), RealCoords { x: 9, y: 7 });
    let v = VirtualCoords { x: 10, y: 8 };
    assert_eq!(v.to_real(&config), RealCoords { x: 0, y: 0 });
}

#[test]
fn flat_earth_clamps_both_axes() {
    let config = base_config(GeometryType::FlatEarth);
    let v = VirtualCoords { x: -4, y: 99 };
    assert_eq!(v.to_real(&config), RealCoords { x: 0, y: 7 });
}

#[test]
fn rings_mix_wrapping_and_clamping() {
    let config = base_config(GeometryType::RingVertical);
    let v = VirtualCoords { x: -4, y: -1 };
    assert_eq!(v.to_real(&config), RealCoords { x: 0, y: 7 });
    let config = base_config(GeometryType::RingHorizontal);
    assert_eq!(v.to_real(&config), RealCoords { x: 6, y: 0 });
}

#[test]
fn projection_is_deterministic_and_in_bounds() {
    for geometry in [
        GeometryType::Torus,
        GeometryType::FlatEarth,
        GeometryType::RingVertical,
        GeometryType::RingHorizontal,
    ] {
        let config = base_config(geometry);
        for x in -25i32..25 {
            for y in -25i32..25 {
                let v = VirtualCoords { x, y };
                let first = v.to_real(&config);
                let second = v.to_real(&config);
                assert_eq!(first, second);
                assert!(first.x < config.map.size_x.value);
                assert!(first.y < config.map.size_y.value);
            }
        }
    }
}
