//! The order pipeline end to end, with shipping, coupons and attributes.

use cart_pricing::activity::FullMinusOne;
use cart_pricing::attribute::Attribute;
use cart_pricing::coupon::Coupon;
use cart_pricing::order::Order;
use cart_pricing::shipping::{Address, ShippingMethod};
use cart_pricing::sku::StockKeepingUnit;

fn sku(name: &str, price: &str) -> StockKeepingUnit {
    StockKeepingUnit::new(name, price, price, 100, Vec::new()).expect("price text must parse")
}

#[test]
fn fresh_order_is_empty() {
    let order = Order::new();
    assert_eq!(order.items_amount(), 0);
    assert_eq!(order.coupon_bonus, 0);
    assert_eq!(order.activity_bonus, 0);
    assert_eq!(order.shipping_fee, 0);
    assert_eq!(order.total_amount, 0);
    assert!(!order.status_shipping);
}

#[test]
fn shipping_method_ids_and_fees() {
    let standard = ShippingMethod::StandardShipping(Address::new());
    let expedited = ShippingMethod::ExpeditedShipping(Address::new());
    assert_eq!(standard.id(), 1);
    assert_eq!(expedited.id(), 2);

    let mut order = Order::new();
    order.process_shipping_fee(&standard);
    assert_eq!(order.shipping_fee, 1087);
    assert!(order.status_shipping);
    order.process_shipping_fee(&expedited);
    assert_eq!(order.shipping_fee, 2177);
}

#[test]
fn coupons_accumulate() {
    let mut order = Order::new();
    order.apply(Coupon::ProductCoupon(500));
    order.apply(Coupon::ProductCoupon(250));
    assert_eq!(order.coupon_bonus, 750);
}

#[test]
fn attributes_carry_their_name() {
    let attr = Attribute::new(7, "organic");
    assert_eq!(attr.name(), "organic");
    let s = StockKeepingUnit::new("a", "1.00", "2.00", 5, vec![attr]).unwrap();
    assert_eq!(s.attrs().len(), 1);
    assert_eq!(s.attrs()[0].name(), "organic");
}

#[test]
fn pipeline_end_to_end() {
    // Items 10 x 5 = 50.00; full-minus-one on four units frees 40.00;
    // standard shipping 10.87; a 5.00 coupon; the payable total is
    // 50.00 + 10.87 - 5.00 - 40.00 = 15.87.
    let mut order = Order::new();
    assert!(order.items.add(sku("A", "10"), 5));
    order.process_basic();
    assert_eq!(order.items_amount(), 5000);

    order.apply(FullMinusOne { full_number: 4, skus: vec![String::from("A")] });
    assert_eq!(order.activity_bonus, 4000);

    order.process_shipping_fee(&ShippingMethod::StandardShipping(Address::new()));
    order.apply(Coupon::ProductCoupon(500));
    order.process_summary();

    assert_eq!(order.total_amount, 5000 + 1087 - 500 - 4000);
}

#[test]
fn summary_can_go_below_zero() {
    // An unconditional coupon larger than the cart drives the total
    // negative; the total is signed and keeps the exact value.
    let mut order = Order::new();
    assert!(order.items.add(sku("A", "1.00"), 1));
    order.process_basic();
    order.apply(Coupon::ProductCoupon(500));
    order.process_summary();
    assert_eq!(order.total_amount, 100 - 500);
}
