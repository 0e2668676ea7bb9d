use space_business::interactions::trade_apples_for_oranges;
use space_business::planet::FoodAmount;

#[test]
fn trade_moves_surplus_toward_balance() {
    let a = FoodAmount { apples: 10, oranges: 2 };
    let b = FoodAmount { apples: 2, oranges: 10 };
    let r = trade_apples_for_oranges(a, b).expect("trade should commit");
    assert_eq!(r.0, FoodAmount { apples: 6, oranges: 6 });
    assert_eq!(r.1, FoodAmount { apples: 6, oranges: 6 });
    assert_eq!(r.2.apples, 4);
    assert_eq!(r.2.oranges, 4);
}

#[test]
fn trade_refuses_when_utility_would_not_rise() {
    // Equal balanced inventories: the forced single-unit swap would not
    // strictly raise either side's utility.
    let a = FoodAmount { apples: 5, oranges: 5 };
    let b = FoodAmount { apples: 5, oranges: 5 };
    assert!(trade_apples_for_oranges(a, b).is_none());
}

#[test]
fn trade_quantities_use_half_the_gap_with_a_floor_of_one() {
    let a = FoodAmount { apples: 2, oranges: 5 };
    let b = FoodAmount { apples: 1, oranges: 20 };
    // The apple gap of 1 halves to 0 and is floored to one unit; the
    // orange gap of 15 halves to 7.
    let r = trade_apples_for_oranges(a, b).expect("trade should commit");
    assert_eq!(r.2.apples, 1);
    assert_eq!(r.2.oranges, 7);
    assert_eq!(r.0, FoodAmount { apples: 1, oranges: 12 });
    assert_eq!(r.1, FoodAmount { apples: 2, oranges: 13 });
}

#[test]
fn no_committed_trade_ever_decreases_utility() {
    // Sweep a grid of inventories and confirm the utility-increase gate:
    // whenever a trade commits, both parties' apples*oranges products
    // strictly rise, and stock of each type is conserved.
    for aa in 0u32..12 {
        for ao in 0u32..12 {
            for ba in 0u32..12 {
                for bo in 0u32..12 {
                    let a = FoodAmount { apples: aa, oranges: ao };
                    let b = FoodAmount { apples: ba, oranges: bo };
                    if let Some((a2, b2, t)) = trade_apples_for_oranges(a, b) {
                        let ua = u64::from(aa) * u64::from(ao);
                        let ub = u64::from(ba) * u64::from(bo);
                        let ua2 = u64::from(a2.apples) * u64::from(a2.oranges);
                        let ub2 = u64::from(b2.apples) * u64::from(b2.oranges);
                        assert!(ua2 > ua);
                        assert!(ub2 > ub);
                        assert_eq!(a2.apples + b2.apples, aa + ba);
                        assert_eq!(a2.oranges + b2.oranges, ao + bo);
                        assert!(t.apples >= 1 && t.oranges >= 1);
                    }
                }
            }
        }
    }
}
