//! The shipping collaborator: addresses and the two known shipping methods
//! with their fixed fees.

use vstd::prelude::*;
use crate::order::{ApplyToOrder, Order};

verus! {

/// An administrative region of an address.
#[derive(Debug)]
pub struct Region {
    /// Numeric region code.
    pub region_id: i32,
    /// Short region code.
    pub region_code: String,
    /// Region display name.
    pub region_name: String,
}

impl Region {
    /// The region carries no data yet.
    pub open spec fn spec_blank(self) -> bool {
        self.region_id == 0 && self.region_code@ == Seq::<char>::empty() && self.region_name@
            == Seq::<char>::empty()
    }

    /// A blank region.
    pub fn new() -> (r: Self)
        ensures
            r.spec_blank(),
    {
        Region { region_id: 0, region_code: String::new(), region_name: String::new() }
    }
}

/// A delivery address: country, province, city and postal code.
#[derive(Debug)]
pub struct Address {
    /// Destination country.
    pub country: Region,
    /// Destination province.
    pub province: Region,
    /// Destination city.
    pub city: Region,
    /// Postal code.
    pub zip_code: String,
}

impl Address {
    /// The address carries no data yet.
    pub open spec fn spec_blank(self) -> bool {
        self.country.spec_blank() && self.province.spec_blank() && self.city.spec_blank()
            && self.zip_code@ == Seq::<char>::empty()
    }

    /// A blank address.
    pub fn new() -> (r: Self)
        ensures
            r.spec_blank(),
    {
        Address {
            country: Region::new(),
            province: Region::new(),
            city: Region::new(),
            zip_code: String::new(),
        }
    }
}

/// A chosen way of shipping an order to an address.
#[derive(Debug)]
pub enum ShippingMethod {
    /// Ordinary delivery.
    StandardShipping(Address),
    /// Faster delivery at a higher fee.
    ExpeditedShipping(Address),
}

impl ShippingMethod {
    /// The method's numeric identifier.
    pub open spec fn spec_id(self) -> i32 {
        match self {
            ShippingMethod::StandardShipping(_) => 1,
            ShippingMethod::ExpeditedShipping(_) => 2,
        }
    }

    /// The method's fixed fee, in cents.
    pub open spec fn spec_fee(self) -> u64 {
        match self {
            ShippingMethod::StandardShipping(_) => 1087,
            ShippingMethod::ExpeditedShipping(_) => 2177,
        }
    }

    /// The method's numeric identifier.
    pub fn id(&self) -> (r: i32)
        ensures
            r == self.spec_id(),
    {
        match self {
            ShippingMethod::StandardShipping(_) => 1,
            ShippingMethod::ExpeditedShipping(_) => 2,
        }
    }
}

impl ApplyToOrder for ShippingMethod {
    /// Shipping sets the order's fee to this method's fixed fee and changes
    /// nothing else.
    open spec fn apply_spec(&self, pre: Order, post: Order) -> bool {
        post == (Order { shipping_fee: self.spec_fee(), ..pre })
    }

    fn apply_to_order(&self, order: &mut Order) {
        match self {
            ShippingMethod::StandardShipping(_) => {
                order.shipping_fee = 1087;
            },
            ShippingMethod::ExpeditedShipping(_) => {
                order.shipping_fee = 2177;
            },
        }
    }
}

} // verus!
