//! Pricing engine for shopping-cart checkout: catalog items with exact
//! cent-denominated prices, a bought-set of purchased lines, promotion
//! strategies, a rule-based bonus engine with eligibility, repeat-count and
//! capping logic, and the order pipeline that combines them.

pub mod activity;
pub mod allocation;
pub mod attribute;
pub mod bonus;
pub mod coupon;
pub mod money;
pub mod order;
pub mod shipping;
pub mod sku;
pub mod unique_type;
pub mod user;
