//! Price text parsing and bought-set totals.

use cart_pricing::money::parse_price;
use cart_pricing::sku::{BoughtSkuSet, StockKeepingUnit};

fn sku(name: &str, price: &str) -> StockKeepingUnit {
    StockKeepingUnit::new(name, price, price, 200, Vec::new()).expect("price text must parse")
}

#[test]
fn parse_price_exact_cents() {
    assert_eq!(parse_price("5.99"), Some(599));
    assert_eq!(parse_price("10"), Some(1000));
    assert_eq!(parse_price("0.5"), Some(50));
    assert_eq!(parse_price("0"), Some(0));
    assert_eq!(parse_price("5.990"), Some(599));
}

#[test]
fn parse_price_rejections() {
    // Finer than one cent.
    assert_eq!(parse_price("5.999"), None);
    // Negative.
    assert_eq!(parse_price("-1"), None);
    // Not a number.
    assert_eq!(parse_price("abc"), None);
    assert_eq!(parse_price(""), None);
}

#[test]
fn parse_price_at_the_money_word_boundary() {
    // u64::MAX cents exactly, then one more.
    assert_eq!(parse_price("184467440737095516.15"), Some(u64::MAX));
    assert_eq!(parse_price("184467440737095516.16"), None);
}

#[test]
fn sku_construction_and_getters() {
    let s = sku("widget", "5.99");
    assert_eq!(s.name(), "widget");
    assert_eq!(s.price(), 599);
    assert_eq!(s.weight(), 200);
    assert!(s.attrs().is_empty());
    assert!(StockKeepingUnit::new("w", "not-a-price", "0", 0, Vec::new()).is_none());
}

#[test]
fn sku_identity_is_by_name() {
    let a = sku("same", "1.00");
    let b = sku("same", "2.00");
    let c = sku("other", "1.00");
    assert!(a == b);
    assert!(a != c);
}

#[test]
fn bought_set_totals() {
    let mut set = BoughtSkuSet::new();
    assert!(set.add(sku("a", "5.99"), 3));
    assert!(set.add(sku("b", "3.50"), 2));
    // 3 * 599 + 2 * 350
    assert_eq!(set.total_amount(), 2497);
    assert_eq!(set.total_number(), 5);
    assert_eq!(set.checked_total_amount(), Some(2497));
}

#[test]
fn bought_set_rejects_duplicates_and_zero() {
    let mut set = BoughtSkuSet::new();
    assert!(set.add(sku("a", "1.00"), 1));
    assert!(!set.add(sku("a", "2.00"), 1));
    assert!(!set.add(sku("b", "1.00"), 0));
    assert_eq!(set.total_number(), 1);
}

#[test]
fn total_amount_is_order_independent() {
    let mut one = BoughtSkuSet::new();
    assert!(one.add(sku("a", "5.99"), 3));
    assert!(one.add(sku("b", "3.50"), 2));
    assert!(one.add(sku("c", "90.99"), 1));
    let mut other = BoughtSkuSet::new();
    assert!(other.add(sku("c", "90.99"), 1));
    assert!(other.add(sku("b", "3.50"), 2));
    assert!(other.add(sku("a", "5.99"), 3));
    assert_eq!(one.total_amount(), other.total_amount());
    assert_eq!(one.total_number(), other.total_number());
}

#[test]
fn filters_and_intersections() {
    let mut set = BoughtSkuSet::new();
    assert!(set.add(sku("a", "1.00"), 1));
    assert!(set.add(sku("b", "20.00"), 2));
    assert!(set.add(sku("c", "3.00"), 3));

    let dear = set.filter(|s: &StockKeepingUnit| s.price() > 250);
    let dear_names: Vec<&str> = dear.iter().map(|e| e.0.name()).collect();
    assert_eq!(dear_names, vec!["b", "c"]);

    let mut other = BoughtSkuSet::new();
    assert!(other.add(sku("c", "1.23"), 9));
    assert!(other.add(sku("x", "1.00"), 1));
    let both = set.intersect(&other);
    assert_eq!(both.len(), 1);
    assert_eq!(both[0].0.name(), "c");
    assert_eq!(both[0].1, 3);

    let picked = set.intersect_by_sku_name(vec!["a", "c", "zzz"]);
    let picked_names: Vec<&str> = picked.iter().map(|e| e.0.name()).collect();
    assert_eq!(picked_names, vec!["a", "c"]);

    let listed = set.select_by_names(&vec![String::from("b")]);
    assert_eq!(listed.len(), 1);
    assert_eq!(listed[0].1, 2);
}

#[test]
fn exceeds_are_strict() {
    let mut set = BoughtSkuSet::new();
    assert!(set.add(sku("a", "50.00"), 2));
    // Amount is exactly 100.00.
    assert!(!set.total_exceeds(10000));
    assert!(set.total_exceeds(9999));
    assert!(!set.count_exceeds(2));
    assert!(set.count_exceeds(1));
}
