use space_business::planet::{is_in_growing_season, TotalTicks};

#[test]
fn test_is_in_growing_season() {
    let time = TotalTicks(0);
    let planet_height = 50;
    let year_length = 100;
    let growing_season_length = 100;
    let food_location = 0;
    assert_eq!(
        is_in_growing_season(
            &time,
            planet_height,
            food_location,
            year_length,
            growing_season_length
        ),
        true
    );
    let food_location = 4;
    assert_eq!(
        is_in_growing_season(
            &time,
            planet_height,
            food_location,
            year_length,
            growing_season_length
        ),
        true
    );
    let food_location = 5;
    assert_eq!(
        is_in_growing_season(
            &time,
            planet_height,
            food_location,
            year_length,
            growing_season_length
        ),
        false
    );
    let time = TotalTicks(95);
    let food_location = 48;
    assert_eq!(
        is_in_growing_season(
            &time,
            planet_height,
            food_location,
            year_length,
            growing_season_length
        ),
        true
    );
    let food_location = 0;
    assert_eq!(
        is_in_growing_season(
            &time,
            planet_height,
            food_location,
            year_length,
            growing_season_length
        ),
        true
    );
    let food_location = 3;
    assert_eq!(
        is_in_growing_season(
            &time,
            planet_height,
            food_location,
            year_length,
            growing_season_length
        ),
        false
    );
}

fn rows_in_season(t: u32, h: u32, y: u32, s: u32) -> u32 {
    let mut count = 0;
    for r in 0..h {
        if is_in_growing_season(&TotalTicks(t), h, r, y, s) {
            count += 1;
        }
    }
    count
}

#[test]
fn in_season_row_count_matches_season_fraction() {
    // Whenever h*s is a whole number of rows (h*s divisible by 1000), the
    // growing band covers exactly h*s/1000 rows, at every tick.
    for t in [0, 1, 7, 49, 50, 95, 99, 100, 250] {
        assert_eq!(rows_in_season(t, 50, 100, 100), 5);
        assert_eq!(rows_in_season(t, 50, 100, 1000), 50);
        assert_eq!(rows_in_season(t, 10, 10, 300), 3);
        assert_eq!(rows_in_season(t, 8, 3, 500), 4);
    }
}

#[test]
fn advancing_one_tick_shifts_the_band_by_one_row() {
    // With one row per tick (h == y), the set of in-season rows at t+1 is
    // the set at t shifted by exactly one row around the seam.
    let h = 10;
    let y = 10;
    let s = 300;
    for t in 0..25u32 {
        for r in 0..h {
            let now = is_in_growing_season(&TotalTicks(t), h, r, y, s);
            let later = is_in_growing_season(&TotalTicks(t + 1), h, (r + 1) % h, y, s);
            assert_eq!(now, later);
        }
    }
}

#[test]
fn season_wraps_around_the_planet_seam() {
    // Near the end of the year the band covers the last rows and the first.
    let t = TotalTicks(95);
    assert!(is_in_growing_season(&t, 50, 48, 100, 100));
    assert!(is_in_growing_season(&t, 50, 49, 100, 100));
    assert!(is_in_growing_season(&t, 50, 0, 100, 100));
    assert!(is_in_growing_season(&t, 50, 2, 100, 100));
    assert!(!is_in_growing_season(&t, 50, 3, 100, 100));
    assert!(!is_in_growing_season(&t, 50, 47, 100, 100));
}
