//! The coupon collaborator: flat product discounts summed into the order's
//! coupon bonus.

use vstd::prelude::*;
use crate::order::{ApplyToOrder, Order};

verus! {

/// A redeemed coupon.
#[derive(Debug)]
pub enum Coupon {
    /// A flat discount on the goods, in cents.
    ProductCoupon(u64),
}

impl ApplyToOrder for Coupon {
    /// A product coupon adds its flat amount to the coupon bonus; when that
    /// sum would not fit the accumulator, the coupon is skipped and the
    /// order is unchanged.
    open spec fn apply_spec(&self, pre: Order, post: Order) -> bool {
        match *self {
            Coupon::ProductCoupon(bonus) => if pre.coupon_bonus + bonus <= u64::MAX {
                post == (Order { coupon_bonus: (pre.coupon_bonus + bonus) as u64, ..pre })
            } else {
                post == pre
            },
        }
    }

    fn apply_to_order(&self, order: &mut Order) {
        match self {
            Coupon::ProductCoupon(bonus) => {
                if *bonus <= u64::MAX - order.coupon_bonus {
                    order.coupon_bonus = order.coupon_bonus + *bonus;
                }
            },
        }
    }
}

} // verus!
