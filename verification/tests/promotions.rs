//! The two promotion strategies against whole orders.

use cart_pricing::activity::{FixedPrice, FullMinusOne};
use cart_pricing::order::Order;
use cart_pricing::sku::StockKeepingUnit;

fn sku(name: &str, price: &str) -> StockKeepingUnit {
    StockKeepingUnit::new(name, price, price, 100, Vec::new()).expect("price text must parse")
}

fn names(list: &[&str]) -> Vec<String> {
    list.iter().map(|n| String::from(*n)).collect()
}

#[test]
fn full_minus_one_discounts_the_usable_slice() {
    // Cart {A: price 10, qty 5}, threshold 4 on A: usableCount is 4, the
    // cheapest four units are consumed into the discount, and the fifth
    // unit stays unaffected.
    let mut order = Order::new();
    assert!(order.items.add(sku("A", "10"), 5));
    let activity = FullMinusOne { full_number: 4, skus: names(&["A"]) };
    order.apply(activity);
    assert_eq!(order.activity_bonus, 4000);
}

#[test]
fn full_minus_one_below_threshold_contributes_nothing() {
    let mut order = Order::new();
    assert!(order.items.add(sku("A", "10"), 3));
    let activity = FullMinusOne { full_number: 4, skus: names(&["A"]) };
    order.apply(activity);
    assert_eq!(order.activity_bonus, 0);
}

#[test]
fn full_minus_one_takes_cheapest_units_first() {
    // Eligible: cheap at 2.00 x1, dear at 10.00 x3. One group of four:
    // every eligible unit participates, the whole eligible value is freed.
    let mut order = Order::new();
    assert!(order.items.add(sku("cheap", "2.00"), 1));
    assert!(order.items.add(sku("dear", "10.00"), 3));
    assert!(order.items.add(sku("outside", "99.00"), 7));
    let activity = FullMinusOne { full_number: 4, skus: names(&["cheap", "dear"]) };
    order.apply(activity);
    assert_eq!(order.activity_bonus, 200 + 3 * 1000);
}

#[test]
fn full_minus_one_partial_group_excludes_remainder() {
    // Eligible: 2.00 x2 and 10.00 x3: five units, one group of four.
    // The cheapest four are 2+2+10+10.
    let mut order = Order::new();
    assert!(order.items.add(sku("cheap", "2.00"), 2));
    assert!(order.items.add(sku("dear", "10.00"), 3));
    let activity = FullMinusOne { full_number: 4, skus: names(&["cheap", "dear"]) };
    order.apply(activity);
    assert_eq!(order.activity_bonus, 2 * 200 + 2 * 1000);
}

#[test]
fn fixed_price_bundle_scenario() {
    // Cart {B: 20 x6, C: 30 x3} under bundle size 3 at fixed price 80:
    // times = 3, the nine cheapest units cost 6*20 + 3*30 = 210, and the
    // bonus is 3*80 - 210 = 30.
    let mut order = Order::new();
    assert!(order.items.add(sku("B", "20"), 6));
    assert!(order.items.add(sku("C", "30"), 3));
    let activity = FixedPrice {
        fixed_number: 3,
        fixed_price: 8000,
        skus: names(&["B", "C"]),
    };
    order.apply(activity);
    assert_eq!(order.activity_bonus, 3000);
}

#[test]
fn fixed_price_never_discounts_upward() {
    // A bundle price below the natural price of the cheapest units yields
    // no discount, never a negative one.
    let mut order = Order::new();
    assert!(order.items.add(sku("B", "20"), 6));
    assert!(order.items.add(sku("C", "30"), 3));
    let activity = FixedPrice {
        fixed_number: 3,
        fixed_price: 5000,
        skus: names(&["B", "C"]),
    };
    order.apply(activity);
    assert_eq!(order.activity_bonus, 0);
}

#[test]
fn fixed_price_grows_with_whole_bundles_of_cheap_lines() {
    // Growing B (a line whose bundle of three sells naturally for 60.00,
    // below the fixed 80.00) by one whole bundle raises the bonus.
    let mut base = Order::new();
    assert!(base.items.add(sku("B", "20"), 6));
    assert!(base.items.add(sku("C", "30"), 3));
    let mut grown = Order::new();
    assert!(grown.items.add(sku("B", "20"), 9));
    assert!(grown.items.add(sku("C", "30"), 3));
    let promo = |o: &mut Order| {
        let activity = FixedPrice {
            fixed_number: 3,
            fixed_price: 8000,
            skus: names(&["B", "C"]),
        };
        o.apply(activity);
    };
    promo(&mut base);
    promo(&mut grown);
    assert_eq!(base.activity_bonus, 3000);
    assert_eq!(grown.activity_bonus, 5000);
    assert!(grown.activity_bonus >= base.activity_bonus);
}

#[test]
fn full_minus_one_grows_with_whole_groups() {
    // Growing an eligible quantity by a whole group never shrinks the
    // bonus: qty 4 -> one group, qty 8 -> two groups.
    let mut small = Order::new();
    assert!(small.items.add(sku("A", "10"), 4));
    let mut large = Order::new();
    assert!(large.items.add(sku("A", "10"), 8));
    let promo = |o: &mut Order| {
        let activity = FullMinusOne { full_number: 4, skus: names(&["A"]) };
        o.apply(activity);
    };
    promo(&mut small);
    promo(&mut large);
    assert!(large.activity_bonus >= small.activity_bonus);
    assert_eq!(small.activity_bonus, 4000);
    assert_eq!(large.activity_bonus, 8000);
}
