//! The bonus rule engine: a general-purpose evaluator for one configured
//! discount rule.
//!
//! A [`Bonus`] combines a target (the goods or the shipping fee), a
//! product-set filter, an eligibility condition, a bonus form, an optional
//! per-application range cap, a repeat count and the order-unrelated gates.
//! Configurations the evaluator does not implement are rejected when the
//! rule is built, never silently reinterpreted; arithmetic that would not
//! fit its machine word skips the rule instead of misapplying it.

pub mod limit;

use vstd::prelude::*;
use vstd::arithmetic::mul::{
    lemma_mul_nonnegative, lemma_mul_upper_bound, lemma_mul_inequality, lemma_mul_by_zero_is_zero,
    lemma_mul_is_commutative,
};
use vstd::arithmetic::div_mod::{lemma_div_is_ordered, lemma_div_multiples_vanish};
use crate::allocation::{
    consume_value, seq_lines_total, seq_lines_count, count_units, sort_lines, consume_cheapest,
    checked_seq_total, lemma_consume_nonneg, lemma_consume_all, lemma_div_mul_bound, Line,
};
use crate::bonus::limit::{
    ApplyObjectLimit, ApplyConditionLimit, ProductSetLimit, ProductSetFilter, BonusFormLimit,
    ApplyRangeLimit, SuperpositionLimit, CalSuperposition, OrderUnrelatedLimits,
    CanApplyByOrderUnrelatedInfo, CanApplyByProducts, CanApplyByTime, CanApplyByUseTime,
    CanApplyByUser, now_timestamp,
};
use crate::order::{ApplyToOrder, Order};
use crate::sku::{BoughtSkuSet, EntryView, entry_lines};

verus! {

/// The country a bonus campaign runs in.
#[derive(Debug)]
pub struct Country(pub String);

/// The sales domain a bonus campaign belongs to.
#[derive(Debug)]
pub struct Domain(pub String);

/// Where a bonus was issued.
#[derive(Debug)]
pub enum BonusOrigin {
    /// Granted by the loyalty points system.
    PointsSystem,
    /// Compensation for a returned purchase.
    ReturnCompensation,
    /// Compensation for an out-of-stock purchase.
    OutOfStockCompensation,
    /// Granted by customer service staff.
    CustomerServiceStaff,
    /// Granted by marketing operation staff.
    MarketingOperationStaff,
}

/// Why a rule configuration is rejected when the rule is built.
#[derive(Debug)]
pub enum ConfigError {
    /// The product-set filter uses attribute matching, which the evaluator
    /// does not implement.
    UnsupportedProductSet,
    /// The condition combines amount and count, which the evaluator does
    /// not implement.
    UnsupportedCondition,
    /// The bonus form is the fixed bundle price, which is the activity
    /// engine's bundle promotion, not a rule form.
    UnsupportedBonusForm,
    /// A percentage above one hundred.
    PercentOutOfRange,
    /// An auto-derived repeat count over a zero threshold.
    ZeroThreshold,
}

/// The configuration fault of a prospective rule, checked in a fixed order,
/// or `None` when the rule is accepted.
pub open spec fn spec_config_error(
    product_set: ProductSetLimit,
    condition: ApplyConditionLimit,
    bonus_form: BonusFormLimit,
    superposition: SuperpositionLimit,
) -> Option<ConfigError> {
    if !product_set.filter_supported() {
        Some(ConfigError::UnsupportedProductSet)
    } else if !condition.supported() {
        Some(ConfigError::UnsupportedCondition)
    } else if bonus_form is FixedPrice {
        Some(ConfigError::UnsupportedBonusForm)
    } else if bonus_form matches BonusFormLimit::Percent(p) && p > 100 {
        Some(ConfigError::PercentOutOfRange)
    } else if superposition is Auto && ((condition matches ApplyConditionLimit::Amount(t) && t
        == 0) || (condition matches ApplyConditionLimit::Number(n) && n == 0)) {
        Some(ConfigError::ZeroThreshold)
    } else {
        None
    }
}

/// One configured discount rule.
#[derive(Debug)]
pub struct Bonus {
    /// The country the rule runs in.
    pub country: Country,
    /// The sales domain the rule belongs to.
    pub domain: Domain,
    /// Whether the rule discounts the goods or the shipping fee.
    pub apply_object: ApplyObjectLimit,
    /// Which purchased lines are candidates.
    pub product_set: ProductSetLimit,
    /// What an eligible subset must exceed before the rule fires.
    pub condition: ApplyConditionLimit,
    /// How the bonus is formed.
    pub bonus_form: BonusFormLimit,
    /// How many units one application may count, for product percentages.
    pub apply_range: ApplyRangeLimit,
    /// How often the rule repeats on one order.
    pub superposition: SuperpositionLimit,
    /// Time window, redemption ceiling and user scoping.
    pub order_unrelated: OrderUnrelatedLimits,
    /// Where the bonus was issued.
    pub origin: BonusOrigin,
}

impl Bonus {
    /// The configurations the evaluator implements. [`Bonus::new`] accepts
    /// exactly these.
    pub open spec fn supported(self) -> bool {
        spec_config_error(self.product_set, self.condition, self.bonus_form, self.superposition)
            is None
    }

    /// The candidate lines of the given order entries under this rule's
    /// product-set filter.
    pub open spec fn spec_filtered(self, items: Seq<EntryView>) -> Seq<EntryView> {
        self.product_set.filter_spec(items)
    }

    /// Whether the rule's condition fires on these order entries: the
    /// filtered subset is non-empty and strictly exceeds the configured
    /// threshold.
    pub open spec fn spec_meets_condition(self, items: Seq<EntryView>) -> bool {
        let f = self.spec_filtered(items);
        f.len() > 0 && match self.condition {
            ApplyConditionLimit::NoCondition => true,
            ApplyConditionLimit::Amount(t) => seq_lines_total(entry_lines(f)) > t,
            ApplyConditionLimit::Number(t) => seq_lines_count(entry_lines(f)) > t,
            ApplyConditionLimit::AmountAndNumber(_, _) => false,
            ApplyConditionLimit::AmountOrNumber(_, _) => false,
        }
    }

    /// How often the rule applies to these order entries: the fixed count,
    /// or the eligible metric of its own condition divided by the
    /// threshold; one when auto-derived without a condition.
    pub open spec fn spec_times(self, items: Seq<EntryView>) -> int {
        match self.superposition {
            SuperpositionLimit::Times(k) => k as int,
            SuperpositionLimit::Auto => match self.condition {
                ApplyConditionLimit::NoCondition => 1,
                ApplyConditionLimit::Amount(t) => seq_lines_total(
                    entry_lines(self.spec_filtered(items)),
                ) / (t as int),
                ApplyConditionLimit::Number(t) => seq_lines_count(
                    entry_lines(self.spec_filtered(items)),
                ) / (t as int),
                ApplyConditionLimit::AmountAndNumber(_, _) => 0,
                ApplyConditionLimit::AmountOrNumber(_, _) => 0,
            },
        }
    }

    /// The exact bonus this rule contributes to the given order, before any
    /// machine-word limit: for the goods, a percentage of the recorded
    /// items amount or of the cheapest range-capped eligible units, or a
    /// flat amount, percentage-of-amount and flat forms capped at the items
    /// amount; for the shipping fee, a percentage of the fee or a flat
    /// amount, uncapped. Percentages floor at whole cents.
    pub open spec fn spec_charge(self, order: Order) -> int {
        let f = self.spec_filtered(order.items@);
        let times = self.spec_times(order.items@);
        let items_amount = order.items_amount as int;
        match self.apply_object {
            ApplyObjectLimit::Product => match self.bonus_form {
                BonusFormLimit::Percent(p) => match self.apply_range {
                    ApplyRangeLimit::NoCap => if items_amount * p * times / 100 <= items_amount {
                        items_amount * p * times / 100
                    } else {
                        items_amount
                    },
                    ApplyRangeLimit::Number(capn) => (p as int) * consume_value(
                        entry_lines(f).to_multiset(),
                        (capn as int) * times,
                    ) / 100,
                },
                BonusFormLimit::Amount(a) => if (a as int) * times <= items_amount {
                    (a as int) * times
                } else {
                    items_amount
                },
                BonusFormLimit::FixedPrice(_) => 0,
            },
            ApplyObjectLimit::ShippingFee => match self.bonus_form {
                BonusFormLimit::Percent(p) => (order.shipping_fee as int) * (p as int) * times
                    / 100,
                BonusFormLimit::Amount(a) => (a as int) * times,
                BonusFormLimit::FixedPrice(_) => 0,
            },
        }
    }

    /// The machine limits under which the auto-derived repeat count can be
    /// computed: an auto amount metric must fit the widest machine word.
    pub open spec fn spec_times_fits(self, items: Seq<EntryView>) -> bool {
        match self.superposition {
            SuperpositionLimit::Auto => match self.condition {
                ApplyConditionLimit::Amount(_) => seq_lines_total(
                    entry_lines(self.spec_filtered(items)),
                ) <= u128::MAX,
                _ => true,
            },
            _ => true,
        }
    }

    /// The machine limits under which the rule's bonus can be carried out:
    /// the repeat count is computable, a range-capped natural price fits
    /// the money word, and a shipping-fee bonus fits the money word.
    /// Product bonuses without a range cap always fit, as the items amount
    /// caps them.
    pub open spec fn spec_charge_fits(self, order: Order) -> bool {
        let f = self.spec_filtered(order.items@);
        let times = self.spec_times(order.items@);
        self.spec_times_fits(order.items@) && match self.apply_object {
            ApplyObjectLimit::Product => match self.bonus_form {
                BonusFormLimit::Percent(p) => match self.apply_range {
                    ApplyRangeLimit::NoCap => true,
                    ApplyRangeLimit::Number(capn) => consume_value(
                        entry_lines(f).to_multiset(),
                        (capn as int) * times,
                    ) <= u64::MAX,
                },
                _ => true,
            },
            ApplyObjectLimit::ShippingFee => self.spec_charge(order) <= u64::MAX,
        }
    }

    /// Builds a rule after validating its configuration.
    ///
    /// Fails fast, at setup time, on every configuration the evaluator does
    /// not implement: attribute-based product filters, combined conditions,
    /// the fixed-bundle-price form, a percentage above one hundred, and an
    /// auto-derived repeat count over a zero threshold.
    pub fn new(
        country: Country,
        domain: Domain,
        apply_object: ApplyObjectLimit,
        product_set: ProductSetLimit,
        condition: ApplyConditionLimit,
        bonus_form: BonusFormLimit,
        apply_range: ApplyRangeLimit,
        superposition: SuperpositionLimit,
        order_unrelated: OrderUnrelatedLimits,
        origin: BonusOrigin,
    ) -> (r: Result<Bonus, ConfigError>)
        ensures
            r is Ok <==> spec_config_error(product_set, condition, bonus_form, superposition)
                is None,
            r matches Ok(b) ==> b == (Bonus {
                country,
                domain,
                apply_object,
                product_set,
                condition,
                bonus_form,
                apply_range,
                superposition,
                order_unrelated,
                origin,
            }) && b.supported(),
            r matches Err(e) ==> Some(e) == spec_config_error(
                product_set,
                condition,
                bonus_form,
                superposition,
            ),
    {
        match &product_set {
            ProductSetLimit::AttributeSet(_) => {
                return Err(ConfigError::UnsupportedProductSet);
            },
            ProductSetLimit::SKUAndAttributeSet(_, _) => {
                return Err(ConfigError::UnsupportedProductSet);
            },
            ProductSetLimit::SKUOrAttributeSet(_, _) => {
                return Err(ConfigError::UnsupportedProductSet);
            },
            _ => {},
        }
        match &condition {
            ApplyConditionLimit::AmountAndNumber(_, _) => {
                return Err(ConfigError::UnsupportedCondition);
            },
            ApplyConditionLimit::AmountOrNumber(_, _) => {
                return Err(ConfigError::UnsupportedCondition);
            },
            _ => {},
        }
        match &bonus_form {
            BonusFormLimit::FixedPrice(_) => {
                return Err(ConfigError::UnsupportedBonusForm);
            },
            BonusFormLimit::Percent(p) => {
                if *p > 100 {
                    return Err(ConfigError::PercentOutOfRange);
                }
            },
            _ => {},
        }
        if let SuperpositionLimit::Auto = &superposition {
            match &condition {
                ApplyConditionLimit::Amount(t) => {
                    if *t == 0 {
                        return Err(ConfigError::ZeroThreshold);
                    }
                },
                ApplyConditionLimit::Number(t) => {
                    if *t == 0 {
                        return Err(ConfigError::ZeroThreshold);
                    }
                },
                _ => {},
            }
        }
        Ok(
            Bonus {
                country,
                domain,
                apply_object,
                product_set,
                condition,
                bonus_form,
                apply_range,
                superposition,
                order_unrelated,
                origin,
            },
        )
    }

    /// Whether this rule's configuration is one the evaluator implements.
    pub fn is_supported(&self) -> (r: bool)
        ensures
            r == self.supported(),
    {
        let product_ok = match &self.product_set {
            ProductSetLimit::NoFilter => true,
            ProductSetLimit::SKUSet(_) => true,
            _ => false,
        };
        if !product_ok {
            return false;
        }
        let condition_ok = match &self.condition {
            ApplyConditionLimit::NoCondition => true,
            ApplyConditionLimit::Amount(_) => true,
            ApplyConditionLimit::Number(_) => true,
            _ => false,
        };
        if !condition_ok {
            return false;
        }
        let form_ok = match &self.bonus_form {
            BonusFormLimit::Percent(p) => *p <= 100,
            BonusFormLimit::Amount(_) => true,
            BonusFormLimit::FixedPrice(_) => false,
        };
        if !form_ok {
            return false;
        }
        match &self.superposition {
            SuperpositionLimit::Times(_) => true,
            SuperpositionLimit::Auto => match &self.condition {
                ApplyConditionLimit::Amount(t) => *t > 0,
                ApplyConditionLimit::Number(t) => *t > 0,
                _ => true,
            },
        }
    }

    /// Whether the rule's condition fires on the bought products: its
    /// filtered subset is non-empty and strictly exceeds the configured
    /// threshold.
    pub fn is_meet_condition(&self, order_items: &BoughtSkuSet) -> (r: bool)
        requires
            self.supported(),
        ensures
            r == self.spec_meets_condition(order_items@),
    {
        let filtered = self.product_set.filter(order_items);
        if filtered.skus.len() == 0 {
            return false;
        }
        match &self.condition {
            ApplyConditionLimit::NoCondition => true,
            ApplyConditionLimit::Amount(t) => filtered.total_exceeds(*t),
            ApplyConditionLimit::Number(t) => filtered.count_exceeds(*t),
            ApplyConditionLimit::AmountAndNumber(_, _) => {
                proof {
                    assert(false);
                }
                false
            },
            ApplyConditionLimit::AmountOrNumber(_, _) => {
                proof {
                    assert(false);
                }
                false
            },
        }
    }

    /// The bonus this rule contributes to the order, in cents, exactly as
    /// [`Bonus::spec_charge`] states it; `None` when a machine-word limit
    /// prevents carrying it out, in which case the rule is skipped. Pure:
    /// the order is read, never changed, and the result is a function of
    /// the order's value alone.
    pub fn charge(&self, order: &Order) -> (r: Option<u64>)
        requires
            self.supported(),
        ensures
            r == (if self.spec_charge_fits(*order) {
                Some(self.spec_charge(*order) as u64)
            } else {
                None::<u64>
            }),
    {
        let filtered = self.product_set.filter(&order.items);
        let lines = filtered.lines();
        let ghost f = self.spec_filtered(order.items@);
        let times: u128 = match &self.superposition {
            SuperpositionLimit::Times(k) => *k as u128,
            SuperpositionLimit::Auto => match &self.condition {
                ApplyConditionLimit::NoCondition => 1,
                ApplyConditionLimit::Amount(t) => {
                    match checked_seq_total(&lines) {
                        Some(total) => total / (*t as u128),
                        None => {
                            return None;
                        },
                    }
                },
                ApplyConditionLimit::Number(t) => count_units(&lines) / (*t as u128),
                ApplyConditionLimit::AmountAndNumber(_, _) => {
                    proof {
                        assert(false);
                    }
                    0
                },
                ApplyConditionLimit::AmountOrNumber(_, _) => {
                    proof {
                        assert(false);
                    }
                    0
                },
            },
        };
        proof {
            assert(times as int == self.spec_times(order.items@));
            assert(self.spec_times_fits(order.items@));
        }
        match &self.apply_object {
            ApplyObjectLimit::Product => match &self.bonus_form {
                BonusFormLimit::Percent(p) => match &self.apply_range {
                    ApplyRangeLimit::NoCap => Some(
                        percent_of_amount(order.items_amount, *p, times),
                    ),
                    ApplyRangeLimit::Number(capn) => {
                        let cnt: u128 = count_units(&lines);
                        let budget: u128 = if *capn == 0 {
                            proof {
                                lemma_mul_by_zero_is_zero(times as int);
                            }
                            0
                        } else if times > cnt / (*capn as u128) {
                            proof {
                                lemma_count_is_ms(entry_lines(f));
                                lemma_div_mul_bound(times as int, *capn as int, cnt as int);
                                lemma_mul_is_commutative(times as int, *capn as int);
                                lemma_consume_all(
                                    entry_lines(f).to_multiset(),
                                    (*capn as int) * (times as int),
                                );
                                lemma_consume_all(entry_lines(f).to_multiset(), cnt as int);
                            }
                            cnt
                        } else {
                            proof {
                                lemma_div_mul_bound(times as int, *capn as int, cnt as int);
                                lemma_mul_is_commutative(times as int, *capn as int);
                            }
                            (*capn as u128) * times
                        };
                        proof {
                            assert(consume_value(
                                entry_lines(f).to_multiset(),
                                (*capn as int) * (times as int),
                            ) == consume_value(entry_lines(f).to_multiset(), budget as int));
                        }
                        let sorted = sort_lines(&lines);
                        match consume_cheapest(&sorted, budget) {
                            None => None,
                            Some(c) => {
                                proof {
                                    lemma_consume_nonneg(entry_lines(f).to_multiset(), budget as int);
                                    lemma_percent_le(*p, c);
                                }
                                Some((((*p as u128) * (c as u128) / 100) as u64))
                            },
                        }
                    },
                },
                BonusFormLimit::Amount(a) => Some(flat_capped(*a, times, order.items_amount)),
                BonusFormLimit::FixedPrice(_) => {
                    proof {
                        assert(false);
                    }
                    None
                },
            },
            ApplyObjectLimit::ShippingFee => match &self.bonus_form {
                BonusFormLimit::Percent(p) => {
                    proof {
                        lemma_mul_nonnegative(order.shipping_fee as int, *p as int);
                        lemma_mul_upper_bound(
                            order.shipping_fee as int,
                            u64::MAX as int,
                            *p as int,
                            100,
                        );
                    }
                    let t2: u128 = (order.shipping_fee as u128) * (*p as u128);
                    if t2 == 0 {
                        proof {
                            lemma_mul_by_zero_is_zero(times as int);
                        }
                        return Some(0);
                    }
                    if times > u128::MAX / t2 {
                        proof {
                            lemma_div_mul_bound(times as int, t2 as int, u128::MAX as int);
                            lemma_mul_is_commutative(times as int, t2 as int);
                            lemma_div_is_ordered(
                                u128::MAX as int + 1,
                                (t2 as int) * (times as int),
                                100,
                            );
                        }
                        return None;
                    }
                    proof {
                        lemma_div_mul_bound(times as int, t2 as int, u128::MAX as int);
                        lemma_mul_is_commutative(times as int, t2 as int);
                    }
                    let prod: u128 = t2 * times;
                    let value: u128 = prod / 100;
                    if value > u64::MAX as u128 {
                        None
                    } else {
                        Some(value as u64)
                    }
                },
                BonusFormLimit::Amount(a) => {
                    if *a == 0 {
                        proof {
                            lemma_mul_by_zero_is_zero(times as int);
                        }
                        return Some(0);
                    }
                    if times > (u64::MAX as u128) / (*a as u128) {
                        proof {
                            lemma_div_mul_bound(times as int, *a as int, u64::MAX as int);
                            lemma_mul_is_commutative(times as int, *a as int);
                        }
                        return None;
                    }
                    proof {
                        lemma_div_mul_bound(times as int, *a as int, u64::MAX as int);
                        lemma_mul_is_commutative(times as int, *a as int);
                    }
                    Some(((*a as u128) * times) as u64)
                },
                BonusFormLimit::FixedPrice(_) => {
                    proof {
                        assert(false);
                    }
                    None
                },
            },
        }
    }
}

impl Bonus {
    /// The order as it stands after applying this rule at the given time:
    /// unchanged when any gate fails — the time window, the redemption
    /// ceiling, the user scoping, the eligibility condition — or when a
    /// machine-word limit prevents carrying the bonus out; otherwise the
    /// activity bonus grows by exactly the rule's charge.
    pub open spec fn spec_outcome(self, pre: Order, now: i64) -> Order {
        if !self.supported() {
            pre
        } else if !(self.order_unrelated.time_limit.covers_spec(now)
            && !self.order_unrelated.use_time_limit.is_exceed_max_spec(pre.user)
            && self.order_unrelated.user_related_limit.check_user_spec(pre.user)
            && self.spec_meets_condition(pre.items@)) {
            pre
        } else if self.spec_charge_fits(pre) && pre.activity_bonus + self.spec_charge(pre)
            <= u64::MAX {
            Order { activity_bonus: (pre.activity_bonus + self.spec_charge(pre)) as u64, ..pre }
        } else {
            pre
        }
    }

    /// Applies this rule to the order, taking the given instant as the
    /// present time.
    pub fn apply_at(&self, order: &mut Order, now: i64)
        requires
            self.supported(),
        ensures
            *final(order) == self.spec_outcome(*old(order), now),
    {
        if !self.order_unrelated.time_limit.covers(now) {
            return ;
        }
        if self.order_unrelated.use_time_limit.is_exceed_max(&order.user) {
            return ;
        }
        if !self.order_unrelated.user_related_limit.check_user(&order.user) {
            return ;
        }
        if !self.is_meet_condition(&order.items) {
            return ;
        }
        let ghost pre = *order;
        match self.charge(order) {
            None => {
                // A machine-word limit prevents carrying the bonus out: the
                // rule is skipped.
            },
            Some(bonus) => {
                proof {
                    lemma_charge_bounds(*self, pre);
                }
                if bonus <= u64::MAX - order.activity_bonus {
                    order.activity_bonus = order.activity_bonus + bonus;
                }
            },
        }
    }
}

impl ApplyToOrder for Bonus {
    /// The rule applies as of one reading of the present time; a rule whose
    /// configuration the evaluator does not implement applies nothing.
    open spec fn apply_spec(&self, pre: Order, post: Order) -> bool {
        exists|now: i64| post == self.spec_outcome(pre, now)
    }

    fn apply_to_order(&self, order: &mut Order) {
        let ghost pre = *order;
        if !self.is_supported() {
            proof {
                assert(*order == self.spec_outcome(pre, 0));
            }
            return ;
        }
        let now = now_timestamp();
        self.apply_at(order, now);
    }
}

impl CanApplyByProducts for Bonus {
    /// The rule's configuration is implemented and its condition fires on
    /// the bought products.
    open spec fn can_apply_spec(&self, order_items: BoughtSkuSet) -> bool {
        self.supported() && self.spec_meets_condition(order_items@)
    }

    fn can_apply(&self, order_items: &BoughtSkuSet) -> (r: bool) {
        if !self.is_supported() {
            return false;
        }
        self.is_meet_condition(order_items)
    }
}

impl CalSuperposition for SuperpositionLimit {
    /// The repeat count: the fixed count, or the eligible metric of the
    /// given condition over the whole bought-set divided by its threshold;
    /// one when auto-derived without a condition.
    open spec fn apply_times_spec(&self, items: BoughtSkuSet, config: ApplyConditionLimit) -> int {
        match *self {
            SuperpositionLimit::Times(k) => k as int,
            SuperpositionLimit::Auto => match config {
                ApplyConditionLimit::NoCondition => 1,
                ApplyConditionLimit::Amount(t) => if t > 0 {
                    items.spec_total() / (t as int)
                } else {
                    0
                },
                ApplyConditionLimit::Number(t) => if t > 0 {
                    items.spec_count() / (t as int)
                } else {
                    0
                },
                ApplyConditionLimit::AmountAndNumber(_, _) => 0,
                ApplyConditionLimit::AmountOrNumber(_, _) => 0,
            },
        }
    }

    fn apply_times(&self, items: &BoughtSkuSet, config: &ApplyConditionLimit) -> (r: u32) {
        match self {
            SuperpositionLimit::Times(k) => *k,
            SuperpositionLimit::Auto => {
                let lines = items.lines();
                match config {
                    ApplyConditionLimit::NoCondition => 1,
                    ApplyConditionLimit::Amount(t) => {
                        if *t == 0 {
                            return 0;
                        }
                        match checked_seq_total(&lines) {
                            Some(total) => (total / (*t as u128)) as u32,
                            None => {
                                // The metric exceeds the widest machine
                                // word, so the quotient exceeds the
                                // caller's counter too.
                                proof {
                                    vstd::arithmetic::div_mod::lemma_div_is_ordered(
                                        u128::MAX as int + 1,
                                        items.spec_total(),
                                        *t as int,
                                    );
                                    vstd::arithmetic::div_mod::lemma_div_is_ordered_by_denominator(
                                        u128::MAX as int + 1,
                                        *t as int,
                                        u64::MAX as int,
                                    );
                                    assert(false);
                                }
                                0
                            },
                        }
                    },
                    ApplyConditionLimit::Number(t) => {
                        if *t == 0 {
                            return 0;
                        }
                        (count_units(&lines) / (*t as u128)) as u32
                    },
                    ApplyConditionLimit::AmountAndNumber(_, _) => 0,
                    ApplyConditionLimit::AmountOrNumber(_, _) => 0,
                }
            },
        }
    }
}

/// A supported rule's repeat count is never negative.
pub proof fn lemma_times_nonneg(b: Bonus, items: Seq<EntryView>)
    requires
        b.supported(),
    ensures
        b.spec_times(items) >= 0,
{
    let lines = entry_lines(b.spec_filtered(items));
    crate::allocation::lemma_seq_lines_nonneg(lines);
    match b.superposition {
        SuperpositionLimit::Times(_) => {},
        SuperpositionLimit::Auto => {
            match b.condition {
                ApplyConditionLimit::Amount(t) => {
                    vstd::arithmetic::div_mod::lemma_div_pos_is_pos(
                        seq_lines_total(lines),
                        t as int,
                    );
                },
                ApplyConditionLimit::Number(t) => {
                    vstd::arithmetic::div_mod::lemma_div_pos_is_pos(
                        seq_lines_count(lines),
                        t as int,
                    );
                },
                _ => {},
            }
        },
    }
}

/// A supported rule's charge is never negative, and fits the money word
/// whenever the machine limits of [`Bonus::spec_charge_fits`] hold.
pub proof fn lemma_charge_bounds(b: Bonus, order: Order)
    requires
        b.supported(),
    ensures
        b.spec_charge(order) >= 0,
        b.spec_charge_fits(order) ==> b.spec_charge(order) <= u64::MAX,
{
    let f = b.spec_filtered(order.items@);
    let times = b.spec_times(order.items@);
    let items_amount = order.items_amount as int;
    lemma_times_nonneg(b, order.items@);
    match b.apply_object {
        ApplyObjectLimit::Product => {
            match b.bonus_form {
                BonusFormLimit::Percent(p) => {
                    match b.apply_range {
                        ApplyRangeLimit::NoCap => {
                            lemma_mul_nonnegative(items_amount, p as int);
                            lemma_mul_nonnegative(items_amount * p, times);
                            vstd::arithmetic::div_mod::lemma_div_pos_is_pos(
                                items_amount * p * times,
                                100,
                            );
                        },
                        ApplyRangeLimit::Number(capn) => {
                            let c = consume_value(
                                entry_lines(f).to_multiset(),
                                (capn as int) * times,
                            );
                            lemma_consume_nonneg(
                                entry_lines(f).to_multiset(),
                                (capn as int) * times,
                            );
                            lemma_mul_nonnegative(p as int, c);
                            vstd::arithmetic::div_mod::lemma_div_pos_is_pos((p as int) * c, 100);
                            if b.spec_charge_fits(order) {
                                lemma_mul_inequality(p as int, 100, c);
                                lemma_div_is_ordered((p as int) * c, 100 * c, 100);
                                lemma_div_multiples_vanish(c, 100);
                                lemma_mul_is_commutative(100, c);
                            }
                        },
                    }
                },
                BonusFormLimit::Amount(a) => {
                    lemma_mul_nonnegative(a as int, times);
                },
                BonusFormLimit::FixedPrice(_) => {},
            }
        },
        ApplyObjectLimit::ShippingFee => {
            match b.bonus_form {
                BonusFormLimit::Percent(p) => {
                    lemma_mul_nonnegative(order.shipping_fee as int, p as int);
                    lemma_mul_nonnegative((order.shipping_fee as int) * (p as int), times);
                    vstd::arithmetic::div_mod::lemma_div_pos_is_pos(
                        (order.shipping_fee as int) * (p as int) * times,
                        100,
                    );
                },
                BonusFormLimit::Amount(a) => {
                    lemma_mul_nonnegative(a as int, times);
                },
                BonusFormLimit::FixedPrice(_) => {},
            }
        },
    }
}

/// Once the items stage has recorded the order's subtotal, a
/// product-targeted bonus in percentage or flat form never exceeds that
/// items amount, whatever the rule's range cap and repeat count.
pub proof fn lemma_product_bonus_within_items(b: Bonus, order: Order)
    requires
        b.supported(),
        b.apply_object is Product,
        order.items_amount == order.items.spec_total(),
    ensures
        b.spec_charge(order) <= order.items_amount,
{
    let f = b.spec_filtered(order.items@);
    let times = b.spec_times(order.items@);
    let items_amount = order.items_amount as int;
    match b.bonus_form {
        BonusFormLimit::Percent(p) => {
            match b.apply_range {
                ApplyRangeLimit::NoCap => {},
                ApplyRangeLimit::Number(capn) => {
                    let ms = entry_lines(f).to_multiset();
                    let c = consume_value(ms, (capn as int) * times);
                    crate::allocation::lemma_consume_le_total(ms, (capn as int) * times);
                    crate::allocation::lemma_seq_lines_sums(entry_lines(f));
                    lemma_filtered_total_le(b, order.items@);
                    // p * c / 100 <= c because p <= 100.
                    lemma_consume_nonneg(ms, (capn as int) * times);
                    lemma_mul_inequality(p as int, 100, c);
                    lemma_div_is_ordered((p as int) * c, 100 * c, 100);
                    lemma_div_multiples_vanish(c, 100);
                    lemma_mul_is_commutative(100, c);
                },
            }
        },
        BonusFormLimit::Amount(_) => {},
        BonusFormLimit::FixedPrice(_) => {},
    }
}

/// A rule's filtered candidate lines sum to at most the whole bought-set.
proof fn lemma_filtered_total_le(b: Bonus, items: Seq<EntryView>)
    requires
        b.supported(),
    ensures
        seq_lines_total(entry_lines(b.spec_filtered(items))) <= seq_lines_total(
            entry_lines(items),
        ),
        seq_lines_count(entry_lines(b.spec_filtered(items))) <= seq_lines_count(
            entry_lines(items),
        ),
{
    match b.product_set {
        ProductSetLimit::NoFilter => {},
        ProductSetLimit::SKUSet(names) => {
            crate::sku::lemma_select_total_le(items, names@);
        },
        _ => {},
    }
}

/// With an auto-derived repeat count, the count equals the eligible metric
/// of the rule's own condition divided by its threshold, and is zero
/// whenever the metric falls below the threshold.
pub proof fn lemma_auto_times(b: Bonus, items: Seq<EntryView>)
    requires
        b.supported(),
        b.superposition is Auto,
    ensures
        b.condition matches ApplyConditionLimit::Amount(t) ==> b.spec_times(items)
            == seq_lines_total(entry_lines(b.spec_filtered(items))) / (t as int) && (
        seq_lines_total(entry_lines(b.spec_filtered(items))) < t ==> b.spec_times(items) == 0),
        b.condition matches ApplyConditionLimit::Number(t) ==> b.spec_times(items)
            == seq_lines_count(entry_lines(b.spec_filtered(items))) / (t as int) && (
        seq_lines_count(entry_lines(b.spec_filtered(items))) < t ==> b.spec_times(items) == 0),
{
    let lines = entry_lines(b.spec_filtered(items));
    crate::allocation::lemma_seq_lines_nonneg(lines);
    match b.condition {
        ApplyConditionLimit::Amount(t) => {
            if seq_lines_total(lines) < t {
                vstd::arithmetic::div_mod::lemma_basic_div(seq_lines_total(lines), t as int);
            }
        },
        ApplyConditionLimit::Number(t) => {
            if seq_lines_count(lines) < t {
                vstd::arithmetic::div_mod::lemma_basic_div(seq_lines_count(lines), t as int);
            }
        },
        _ => {},
    }
}

/// A listing's unit count equals its batch's.
proof fn lemma_count_is_ms(lines: Seq<Line>)
    ensures
        seq_lines_count(lines) == crate::allocation::lines_count(lines.to_multiset()),
{
    crate::allocation::lemma_seq_lines_sums(lines);
}

/// A percentage of at most one hundred of a value stays at or below it.
proof fn lemma_percent_le(p: u32, c: u64)
    requires
        p <= 100,
    ensures
        0 <= (p as int) * (c as int) / 100 <= c,
{
    lemma_mul_nonnegative(p as int, c as int);
    lemma_mul_inequality(p as int, 100, c as int);
    lemma_div_is_ordered((p as int) * (c as int), 100 * (c as int), 100);
    lemma_div_multiples_vanish(c as int, 100);
    lemma_mul_is_commutative(100, c as int);
    vstd::arithmetic::div_mod::lemma_div_pos_is_pos((p as int) * (c as int), 100);
}

/// `min(amount * p * times / 100, amount)`, computed without overflow: the
/// percentage-of-amount product bonus.
fn percent_of_amount(amount: u64, p: u32, times: u128) -> (r: u64)
    requires
        p <= 100,
    ensures
        r as int == if (amount as int) * (p as int) * (times as int) / 100 <= amount {
            (amount as int) * (p as int) * (times as int) / 100
        } else {
            amount as int
        },
{
    let ghost raw = (amount as int) * (p as int) * (times as int) / 100;
    if p == 0 {
        proof {
            lemma_mul_by_zero_is_zero(amount as int);
            lemma_mul_by_zero_is_zero(times as int);
            vstd::arithmetic::div_mod::lemma_div_of0(100);
        }
        return 0;
    }
    if times > u128::MAX / (p as u128) {
        proof {
            lemma_div_mul_bound(times as int, p as int, u128::MAX as int);
            lemma_mul_is_commutative(times as int, p as int);
            lemma_pt_cap(amount, (p as int) * (times as int));
            vstd::arithmetic::mul::lemma_mul_is_associative(amount as int, p as int, times as int);
        }
        return amount;
    }
    proof {
        lemma_div_mul_bound(times as int, p as int, u128::MAX as int);
        lemma_mul_is_commutative(times as int, p as int);
    }
    let pt: u128 = (p as u128) * times;
    if pt >= 100 {
        proof {
            lemma_pt_cap(amount, pt as int);
            vstd::arithmetic::mul::lemma_mul_is_associative(amount as int, p as int, times as int);
        }
        amount
    } else {
        proof {
            lemma_mul_nonnegative(amount as int, pt as int);
            lemma_mul_inequality(pt as int, 100, amount as int);
            lemma_mul_is_commutative(pt as int, amount as int);
            lemma_mul_is_commutative(100, amount as int);
            lemma_div_is_ordered((amount as int) * (pt as int), (amount as int) * 100, 100);
            lemma_div_multiples_vanish(amount as int, 100);
            vstd::arithmetic::div_mod::lemma_div_pos_is_pos((amount as int) * (pt as int), 100);
            vstd::arithmetic::mul::lemma_mul_is_associative(amount as int, p as int, times as int);
        }
        (((amount as u128) * pt) / 100) as u64
    }
}

/// With a whole percentage times repeat count of at least one hundred, the
/// raw percentage bonus reaches the full amount.
proof fn lemma_pt_cap(amount: u64, pt: int)
    requires
        pt >= 100,
    ensures
        (amount as int) * pt / 100 >= amount,
{
    lemma_mul_inequality(100, pt, amount as int);
    lemma_mul_is_commutative(100, amount as int);
    lemma_mul_is_commutative(pt, amount as int);
    lemma_div_is_ordered((amount as int) * 100, (amount as int) * pt, 100);
    lemma_div_multiples_vanish(amount as int, 100);
}

/// `min(a * times, amount)`, computed without overflow: the flat-amount
/// product bonus capped at the items amount.
fn flat_capped(a: u64, times: u128, amount: u64) -> (r: u64)
    ensures
        r as int == if (a as int) * (times as int) <= amount {
            (a as int) * (times as int)
        } else {
            amount as int
        },
{
    if a == 0 {
        proof {
            lemma_mul_by_zero_is_zero(times as int);
        }
        return 0;
    }
    if times > (amount as u128) / (a as u128) {
        proof {
            lemma_div_mul_bound(times as int, a as int, amount as int);
            lemma_mul_is_commutative(times as int, a as int);
        }
        amount
    } else {
        proof {
            lemma_div_mul_bound(times as int, a as int, amount as int);
            lemma_mul_is_commutative(times as int, a as int);
        }
        ((a as u128) * times) as u64
    }
}

} // verus!
