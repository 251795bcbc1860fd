//! The order aggregate and its pipeline stages.
//!
//! An [`Order`] owns a user, a bought-set and the monetary accumulators of
//! one checkout. Pipeline stages mutate it in strict sequence: items total,
//! promotion and bonus application, shipping fee, coupons, then the summary
//! `total = items + shipping - coupon - activity`.

use vstd::prelude::*;
use crate::sku::BoughtSkuSet;
use crate::shipping::ShippingMethod;
use crate::user::User;

verus! {

/// Lets another entity change an order's inner state, in the way its
/// [`ApplyToOrder::apply_spec`] relation states.
pub trait ApplyToOrder {
    /// How the order after the application relates to the order before it.
    spec fn apply_spec(&self, pre: Order, post: Order) -> bool;

    /// Applies this entity's effect to the order.
    fn apply_to_order(&self, order: &mut Order)
        ensures
            self.apply_spec(*old(order), *final(order)),
    ;
}

/// An order: a bought-set together with the running monetary results of one
/// checkout and its stage-completion flags.
#[derive(Debug)]
pub struct Order {
    /// The account placing the order.
    pub user: User,
    /// What was bought.
    pub items: BoughtSkuSet,
    /// Accumulated coupon discount, in cents.
    pub coupon_bonus: u64,
    /// Accumulated promotion discount, in cents.
    pub activity_bonus: u64,
    /// The shipping fee, in cents.
    pub shipping_fee: u64,
    /// The items subtotal, in cents; set by the items stage.
    pub items_amount: u64,
    /// The final payable total, in cents; set by the summary stage. Signed,
    /// as discounts may exceed the goods' value.
    pub total_amount: i128,
    /// Diagnostic flag: the coupon stage ran.
    pub status_coupon: bool,
    /// Diagnostic flag: the promotion stage ran.
    pub status_activity: bool,
    /// Diagnostic flag: the shipping stage ran.
    pub status_shipping: bool,
    /// Diagnostic flag: the summary stage ran.
    pub status_total: bool,
}

impl Order {
    /// A fresh order: empty bought-set, all accumulators zero, no stage run
    /// yet.
    pub fn new() -> (r: Self)
        ensures
            r.items@.len() == 0,
            r.items.wf(),
            r.coupon_bonus == 0,
            r.activity_bonus == 0,
            r.shipping_fee == 0,
            r.items_amount == 0,
            r.total_amount == 0,
            !r.status_coupon,
            !r.status_activity,
            !r.status_shipping,
            !r.status_total,
    {
        Order {
            user: User,
            items: BoughtSkuSet::new(),
            coupon_bonus: 0,
            activity_bonus: 0,
            shipping_fee: 0,
            items_amount: 0,
            total_amount: 0,
            status_coupon: false,
            status_activity: false,
            status_shipping: false,
            status_total: false,
        }
    }

    /// The first pipeline stage: records the items subtotal.
    ///
    /// The subtotal must fit in a `u64`;
    /// [`crate::sku::BoughtSkuSet::checked_total_amount`] lets a caller test
    /// that first.
    pub fn process_basic(&mut self)
        requires
            old(self).items.spec_total() <= u64::MAX,
        ensures
            *final(self) == (Order {
                items_amount: old(self).items.spec_total() as u64,
                ..*old(self)
            }),
    {
        self.process_items();
    }

    /// The recorded items subtotal, in cents.
    pub fn items_amount(&self) -> (r: u64)
        ensures
            r == self.items_amount,
    {
        self.items_amount
    }

    /// Computes and records the value of all bought entries.
    fn process_items(&mut self)
        requires
            old(self).items.spec_total() <= u64::MAX,
        ensures
            *final(self) == (Order {
                items_amount: old(self).items.spec_total() as u64,
                ..*old(self)
            }),
    {
        let amount = self.items.total_amount();
        self.items_amount = amount;
    }

    /// The shipping stage: records the fee of the chosen shipping method and
    /// marks the stage done.
    pub fn process_shipping_fee(&mut self, shipping_method: &ShippingMethod)
        ensures
            *final(self) == (Order {
                shipping_fee: shipping_method.spec_fee(),
                status_shipping: true,
                ..*old(self)
            }),
    {
        shipping_method.apply_to_order(self);
        self.status_shipping = true;
    }

    /// Applies one discount-bearing entity — a promotion, a coupon or a
    /// bonus rule — to this order.
    pub fn apply<A: ApplyToOrder>(&mut self, applicable: A)
        ensures
            applicable.apply_spec(*old(self), *final(self)),
    {
        applicable.apply_to_order(self);
    }

    /// The last stage: the payable total, `items + shipping - coupon -
    /// activity`.
    pub fn process_summary(&mut self)
        ensures
            *final(self) == (Order {
                total_amount: (old(self).items_amount + old(self).shipping_fee - old(
                    self,
                ).coupon_bonus - old(self).activity_bonus) as i128,
                ..*old(self)
            }),
    {
        self.total_amount = self.items_amount as i128 + self.shipping_fee as i128
            - self.coupon_bonus as i128 - self.activity_bonus as i128;
    }
}

} // verus!
