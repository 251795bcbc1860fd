//! The bonus rule engine: validation, eligibility, repeat count and charge.

use cart_pricing::bonus::limit::{
    ApplyConditionLimit, ApplyObjectLimit, ApplyRangeLimit, BonusFormLimit, CalSuperposition,
    CanApplyByProducts, CanApplyByTime, OrderUnrelatedLimits, ProductSetLimit, SuperpositionLimit,
    TimeLimit, UserRelatedLimit, UseTimeLimit,
};
use cart_pricing::bonus::{Bonus, BonusOrigin, ConfigError, Country, Domain};
use cart_pricing::order::Order;
use cart_pricing::sku::StockKeepingUnit;

fn sku(name: &str, price: &str) -> StockKeepingUnit {
    StockKeepingUnit::new(name, price, price, 100, Vec::new()).expect("price text must parse")
}

fn rule(
    apply_object: ApplyObjectLimit,
    product_set: ProductSetLimit,
    condition: ApplyConditionLimit,
    bonus_form: BonusFormLimit,
    apply_range: ApplyRangeLimit,
    superposition: SuperpositionLimit,
) -> Result<Bonus, ConfigError> {
    Bonus::new(
        Country(String::from("NL")),
        Domain(String::from("web")),
        apply_object,
        product_set,
        condition,
        bonus_form,
        apply_range,
        superposition,
        OrderUnrelatedLimits {
            time_limit: TimeLimit::Always,
            use_time_limit: UseTimeLimit::NoCeiling,
            user_related_limit: UserRelatedLimit::No,
        },
        BonusOrigin::PointsSystem,
    )
}

#[test]
fn validation_rejects_unsupported_configurations() {
    let r = rule(
        ApplyObjectLimit::Product,
        ProductSetLimit::AttributeSet(Vec::new()),
        ApplyConditionLimit::NoCondition,
        BonusFormLimit::Amount(100),
        ApplyRangeLimit::NoCap,
        SuperpositionLimit::Times(1),
    );
    assert!(matches!(r, Err(ConfigError::UnsupportedProductSet)));

    let r = rule(
        ApplyObjectLimit::Product,
        ProductSetLimit::NoFilter,
        ApplyConditionLimit::AmountAndNumber(100, 2),
        BonusFormLimit::Amount(100),
        ApplyRangeLimit::NoCap,
        SuperpositionLimit::Times(1),
    );
    assert!(matches!(r, Err(ConfigError::UnsupportedCondition)));

    let r = rule(
        ApplyObjectLimit::Product,
        ProductSetLimit::NoFilter,
        ApplyConditionLimit::NoCondition,
        BonusFormLimit::FixedPrice(100),
        ApplyRangeLimit::NoCap,
        SuperpositionLimit::Times(1),
    );
    assert!(matches!(r, Err(ConfigError::UnsupportedBonusForm)));

    let r = rule(
        ApplyObjectLimit::Product,
        ProductSetLimit::NoFilter,
        ApplyConditionLimit::NoCondition,
        BonusFormLimit::Percent(101),
        ApplyRangeLimit::NoCap,
        SuperpositionLimit::Times(1),
    );
    assert!(matches!(r, Err(ConfigError::PercentOutOfRange)));

    let r = rule(
        ApplyObjectLimit::Product,
        ProductSetLimit::NoFilter,
        ApplyConditionLimit::Amount(0),
        BonusFormLimit::Percent(10),
        ApplyRangeLimit::NoCap,
        SuperpositionLimit::Auto,
    );
    assert!(matches!(r, Err(ConfigError::ZeroThreshold)));

    let r = rule(
        ApplyObjectLimit::Product,
        ProductSetLimit::NoFilter,
        ApplyConditionLimit::Amount(100),
        BonusFormLimit::Percent(10),
        ApplyRangeLimit::NoCap,
        SuperpositionLimit::Auto,
    );
    assert!(r.is_ok());
}

#[test]
fn strict_amount_threshold_at_the_boundary() {
    // Condition amount-threshold 100.00, eligible filtered amount exactly
    // 100.00: not eligible, nothing contributed.
    let b = rule(
        ApplyObjectLimit::Product,
        ProductSetLimit::NoFilter,
        ApplyConditionLimit::Amount(10000),
        BonusFormLimit::Percent(50),
        ApplyRangeLimit::NoCap,
        SuperpositionLimit::Times(1),
    )
    .unwrap();
    let mut order = Order::new();
    assert!(order.items.add(sku("a", "50.00"), 2));
    order.process_basic();
    assert!(!b.is_meet_condition(&order.items));
    assert!(!b.can_apply(&order.items));
    b.apply_at(&mut order, 0);
    assert_eq!(order.activity_bonus, 0);

    // One cent more and the rule fires.
    let mut bigger = Order::new();
    assert!(bigger.items.add(sku("a", "50.00"), 2));
    assert!(bigger.items.add(sku("b", "0.01"), 1));
    assert!(b.is_meet_condition(&bigger.items));
}

#[test]
fn percentage_bonus_contributes_half_of_forty() {
    // Percentage 50%, itemsAmount 40.00, times 1: the raw bonus 20.00 is
    // within the items amount and is contributed in full.
    let b = rule(
        ApplyObjectLimit::Product,
        ProductSetLimit::NoFilter,
        ApplyConditionLimit::NoCondition,
        BonusFormLimit::Percent(50),
        ApplyRangeLimit::NoCap,
        SuperpositionLimit::Times(1),
    )
    .unwrap();
    let mut order = Order::new();
    assert!(order.items.add(sku("a", "40.00"), 1));
    order.process_basic();
    assert_eq!(b.charge(&order), Some(2000));
    b.apply_at(&mut order, 0);
    assert_eq!(order.activity_bonus, 2000);
}

#[test]
fn percentage_bonus_is_capped_at_items_amount() {
    // 60% three times would be 180% of the items amount; the cap holds it
    // at the items amount.
    let b = rule(
        ApplyObjectLimit::Product,
        ProductSetLimit::NoFilter,
        ApplyConditionLimit::NoCondition,
        BonusFormLimit::Percent(60),
        ApplyRangeLimit::NoCap,
        SuperpositionLimit::Times(3),
    )
    .unwrap();
    let mut order = Order::new();
    assert!(order.items.add(sku("a", "40.00"), 1));
    order.process_basic();
    assert_eq!(b.charge(&order), Some(4000));
}

#[test]
fn flat_amount_bonus_is_capped_at_items_amount() {
    let b = rule(
        ApplyObjectLimit::Product,
        ProductSetLimit::NoFilter,
        ApplyConditionLimit::NoCondition,
        BonusFormLimit::Amount(9900),
        ApplyRangeLimit::NoCap,
        SuperpositionLimit::Times(1),
    )
    .unwrap();
    let mut order = Order::new();
    assert!(order.items.add(sku("a", "40.00"), 1));
    order.process_basic();
    assert_eq!(b.charge(&order), Some(4000));
    b.apply_at(&mut order, 0);
    assert_eq!(order.activity_bonus, 4000);
}

#[test]
fn range_capped_percentage_counts_cheapest_units() {
    // Cap of one unit per application, once: only the single cheapest
    // eligible unit is counted, at 100%.
    let b = rule(
        ApplyObjectLimit::Product,
        ProductSetLimit::SKUSet(vec![String::from("cheap"), String::from("dear")]),
        ApplyConditionLimit::NoCondition,
        BonusFormLimit::Percent(100),
        ApplyRangeLimit::Number(1),
        SuperpositionLimit::Times(1),
    )
    .unwrap();
    let mut order = Order::new();
    assert!(order.items.add(sku("cheap", "1.00"), 1));
    assert!(order.items.add(sku("dear", "2.00"), 1));
    assert!(order.items.add(sku("outside", "50.00"), 1));
    order.process_basic();
    assert_eq!(b.charge(&order), Some(100));
}

#[test]
fn auto_superposition_derives_from_its_own_condition() {
    // Amount threshold 10.00, filtered amount 40.00: eligible, and the
    // rule repeats floor(40 / 10) = 4 times.
    let b = rule(
        ApplyObjectLimit::Product,
        ProductSetLimit::NoFilter,
        ApplyConditionLimit::Amount(1000),
        BonusFormLimit::Amount(100),
        ApplyRangeLimit::NoCap,
        SuperpositionLimit::Auto,
    )
    .unwrap();
    let mut order = Order::new();
    assert!(order.items.add(sku("a", "40.00"), 1));
    order.process_basic();
    assert_eq!(b.charge(&order), Some(400));

    // Below the threshold the auto count is zero.
    let mut small = Order::new();
    assert!(small.items.add(sku("a", "9.99"), 1));
    small.process_basic();
    assert_eq!(b.charge(&small), Some(0));
}

#[test]
fn auto_superposition_by_count() {
    let times = SuperpositionLimit::Auto;
    let mut order = Order::new();
    assert!(order.items.add(sku("a", "1.00"), 7));
    assert_eq!(times.apply_times(&order.items, &ApplyConditionLimit::Number(2)), 3);
    assert_eq!(times.apply_times(&order.items, &ApplyConditionLimit::Number(8)), 0);
    assert_eq!(SuperpositionLimit::Times(5).apply_times(&order.items, &ApplyConditionLimit::NoCondition), 5);
}

#[test]
fn shipping_fee_percentage_bonus() {
    let b = rule(
        ApplyObjectLimit::ShippingFee,
        ProductSetLimit::NoFilter,
        ApplyConditionLimit::NoCondition,
        BonusFormLimit::Percent(50),
        ApplyRangeLimit::NoCap,
        SuperpositionLimit::Times(1),
    )
    .unwrap();
    let mut order = Order::new();
    assert!(order.items.add(sku("a", "10.00"), 1));
    order.shipping_fee = 1088;
    assert_eq!(b.charge(&order), Some(544));
}

#[test]
fn charge_is_pure() {
    let b = rule(
        ApplyObjectLimit::Product,
        ProductSetLimit::NoFilter,
        ApplyConditionLimit::NoCondition,
        BonusFormLimit::Percent(37),
        ApplyRangeLimit::NoCap,
        SuperpositionLimit::Times(2),
    )
    .unwrap();
    let mut order = Order::new();
    assert!(order.items.add(sku("a", "13.37"), 3));
    order.process_basic();
    let first = b.charge(&order);
    let second = b.charge(&order);
    assert_eq!(first, second);
    assert!(first.is_some());
}

#[test]
fn order_unrelated_gates_block_application() {
    let blocked_by_time = Bonus::new(
        Country(String::from("NL")),
        Domain(String::from("web")),
        ApplyObjectLimit::Product,
        ProductSetLimit::NoFilter,
        ApplyConditionLimit::NoCondition,
        BonusFormLimit::Amount(100),
        ApplyRangeLimit::NoCap,
        SuperpositionLimit::Times(1),
        OrderUnrelatedLimits {
            time_limit: TimeLimit::Start(1000),
            use_time_limit: UseTimeLimit::NoCeiling,
            user_related_limit: UserRelatedLimit::No,
        },
        BonusOrigin::MarketingOperationStaff,
    )
    .unwrap();
    let mut order = Order::new();
    assert!(order.items.add(sku("a", "10.00"), 1));
    order.process_basic();
    blocked_by_time.apply_at(&mut order, 500);
    assert_eq!(order.activity_bonus, 0);
    blocked_by_time.apply_at(&mut order, 1500);
    assert_eq!(order.activity_bonus, 100);

    // The sample user is user zero with two past redemptions.
    let blocked_by_user = Bonus::new(
        Country(String::from("NL")),
        Domain(String::from("web")),
        ApplyObjectLimit::Product,
        ProductSetLimit::NoFilter,
        ApplyConditionLimit::NoCondition,
        BonusFormLimit::Amount(100),
        ApplyRangeLimit::NoCap,
        SuperpositionLimit::Times(1),
        OrderUnrelatedLimits {
            time_limit: TimeLimit::Always,
            use_time_limit: UseTimeLimit::Number(1),
            user_related_limit: UserRelatedLimit::Yes(7),
        },
        BonusOrigin::ReturnCompensation,
    )
    .unwrap();
    let mut order2 = Order::new();
    assert!(order2.items.add(sku("a", "10.00"), 1));
    order2.process_basic();
    blocked_by_user.apply_at(&mut order2, 0);
    assert_eq!(order2.activity_bonus, 0);
}

#[test]
fn time_window_bounds() {
    let window = TimeLimit::StartDuration { start: 100, duration: 50 };
    assert!(!window.covers(100));
    assert!(window.covers(101));
    assert!(window.covers(149));
    assert!(!window.covers(150));
    assert!(TimeLimit::Always.covers(i64::MIN));
    assert!(TimeLimit::Always.covers_now());
}

#[test]
fn rule_applies_through_the_generic_order_hook() {
    let b = rule(
        ApplyObjectLimit::Product,
        ProductSetLimit::NoFilter,
        ApplyConditionLimit::NoCondition,
        BonusFormLimit::Amount(250),
        ApplyRangeLimit::NoCap,
        SuperpositionLimit::Times(1),
    )
    .unwrap();
    let mut order = Order::new();
    assert!(order.items.add(sku("a", "10.00"), 1));
    order.process_basic();
    order.apply(b);
    assert_eq!(order.activity_bonus, 250);
}

#[test]
fn empty_filtered_set_is_never_eligible() {
    let b = rule(
        ApplyObjectLimit::Product,
        ProductSetLimit::SKUSet(vec![String::from("nothere")]),
        ApplyConditionLimit::NoCondition,
        BonusFormLimit::Amount(100),
        ApplyRangeLimit::NoCap,
        SuperpositionLimit::Times(1),
    )
    .unwrap();
    let mut order = Order::new();
    assert!(order.items.add(sku("a", "10.00"), 1));
    assert!(!b.is_meet_condition(&order.items));
}
