//! The limits a bonus rule is composed of: what it applies to, the
//! condition an eligible subset must exceed, the product-set filter, the
//! bonus form, the per-application range cap, the repeat count, and the
//! order-unrelated gates (time window, redemption ceiling, user scoping).

use vstd::prelude::*;
use crate::sku::{BoughtSkuSet, SkuName, EntryView, spec_select_by_names};
use crate::attribute::Attribute;
use crate::user::{User, UserId};

verus! {

/// What a bonus rule applies to: the goods or the shipping fee.
#[derive(Debug)]
pub enum ApplyObjectLimit {
    /// The rule discounts the goods.
    Product,
    /// The rule discounts the shipping fee.
    ShippingFee,
}

/// The condition an eligible subset must strictly exceed before a rule
/// fires.
#[derive(Debug)]
pub enum ApplyConditionLimit {
    /// No condition: any non-empty eligible subset fires the rule.
    NoCondition,
    /// The eligible subset's monetary amount must exceed this many cents.
    Amount(u64),
    /// The eligible subset's unit count must exceed this.
    Number(u32),
    /// Both thresholds at once; not supported, rejected at rule setup.
    AmountAndNumber(u64, u32),
    /// Either threshold; not supported, rejected at rule setup.
    AmountOrNumber(u64, u32),
}

impl ApplyConditionLimit {
    /// The condition kinds the evaluator implements.
    pub open spec fn supported(self) -> bool {
        match self {
            ApplyConditionLimit::NoCondition => true,
            ApplyConditionLimit::Amount(_) => true,
            ApplyConditionLimit::Number(_) => true,
            ApplyConditionLimit::AmountAndNumber(_, _) => false,
            ApplyConditionLimit::AmountOrNumber(_, _) => false,
        }
    }
}

/// An entity that can tell whether an order's products let it apply.
pub trait CanApplyByProducts {
    /// What [`CanApplyByProducts::can_apply`] returns.
    spec fn can_apply_spec(&self, order_items: BoughtSkuSet) -> bool;

    /// Whether the bought products meet this entity's conditions.
    fn can_apply(&self, order_items: &BoughtSkuSet) -> (r: bool)
        ensures
            r == self.can_apply_spec(*order_items),
    ;
}

/// Which purchased lines are candidates for a rule.
#[derive(Debug)]
pub enum ProductSetLimit {
    /// No filter: every purchased line is a candidate.
    NoFilter,
    /// Only lines whose SKU name is listed.
    SKUSet(Vec<SkuName>),
    /// Attribute-based filtering; not supported, rejected at rule setup.
    AttributeSet(Vec<Attribute>),
    /// Name and attribute; not supported, rejected at rule setup.
    SKUAndAttributeSet(Vec<SkuName>, Vec<Attribute>),
    /// Name or attribute; not supported, rejected at rule setup.
    SKUOrAttributeSet(Vec<SkuName>, Vec<Attribute>),
}

/// A filter from a bought-set to its candidate lines.
pub trait ProductSetFilter {
    /// The filter kinds the evaluator implements.
    spec fn filter_supported(&self) -> bool;

    /// What [`ProductSetFilter::filter`] keeps.
    spec fn filter_spec(&self, order_items: Seq<EntryView>) -> Seq<EntryView>;

    /// The candidate lines of the bought-set, in its order.
    fn filter(&self, order_items: &BoughtSkuSet) -> (r: BoughtSkuSet)
        requires
            self.filter_supported(),
        ensures
            r@ == self.filter_spec(order_items@),
            order_items.wf() ==> r.wf(),
    ;
}

/// How a rule's bonus is formed.
#[derive(Debug)]
pub enum BonusFormLimit {
    /// A percentage of the discounted amount, in whole percent (at most
    /// one hundred).
    Percent(u32),
    /// A flat amount, in cents.
    Amount(u64),
    /// A fixed bundle price, in cents; carried by the configuration model
    /// but not a rule form the evaluator implements — the bundle promotion
    /// of the activity engine covers it. Rejected at rule setup.
    FixedPrice(u64),
}

/// For product-targeted bonuses: how many units, per single application,
/// the bonus form may be computed against.
#[derive(Debug)]
pub enum ApplyRangeLimit {
    /// No cap.
    NoCap,
    /// At most this many units per application.
    Number(u32),
}

/// How often a rule may repeat on one order.
#[derive(Debug)]
pub enum SuperpositionLimit {
    /// A fixed repeat count.
    Times(u32),
    /// Auto-derived from the rule's own condition: eligible metric divided
    /// by the threshold.
    Auto,
}

/// An entity that can compute its repeat count over a bought-set.
pub trait CalSuperposition {
    /// What [`CalSuperposition::apply_times`] returns.
    spec fn apply_times_spec(&self, items: BoughtSkuSet, config: ApplyConditionLimit) -> int;

    /// How often the rule applies to these items under this condition.
    fn apply_times(&self, items: &BoughtSkuSet, config: &ApplyConditionLimit) -> (r: u32)
        requires
            config.supported(),
            self.apply_times_spec(*items, *config) <= u32::MAX,
        ensures
            r == self.apply_times_spec(*items, *config),
    ;
}

/// The gates of a rule that do not look at the order's contents.
#[derive(Debug)]
pub struct OrderUnrelatedLimits {
    /// The time window the rule is active in.
    pub time_limit: TimeLimit,
    /// The ceiling on a user's past redemptions.
    pub use_time_limit: UseTimeLimit,
    /// The user scoping of the rule.
    pub user_related_limit: UserRelatedLimit,
}

/// An entity that can tell from order-unrelated facts whether it applies.
pub trait CanApplyByOrderUnrelatedInfo {
    /// What [`CanApplyByOrderUnrelatedInfo::can_apply`] returns.
    spec fn can_apply_spec(&self, user: User) -> bool;

    /// Whether the user-side gates let the rule apply. The time window is
    /// checked separately, as it needs a clock reading.
    fn can_apply(&self, user: &User) -> (r: bool)
        ensures
            r == self.can_apply_spec(*user),
    ;
}

/// An entity gated by a time window.
pub trait CanApplyByTime {
    /// What [`CanApplyByTime::covers`] returns.
    spec fn covers_spec(&self, time: i64) -> bool;

    /// Whether the given time, in seconds since the Unix epoch, falls in
    /// the window.
    fn covers(&self, time: i64) -> (r: bool)
        ensures
            r == self.covers_spec(time),
    ;
}

/// An entity gated by a redemption ceiling.
pub trait CanApplyByUseTime {
    /// What [`CanApplyByUseTime::is_exceed_max`] returns.
    spec fn is_exceed_max_spec(&self, user: User) -> bool;

    /// Whether the user's past redemptions already exceed the ceiling.
    fn is_exceed_max(&self, user: &User) -> (r: bool)
        ensures
            r == self.is_exceed_max_spec(*user),
    ;
}

/// An entity gated by user identity.
pub trait CanApplyByUser {
    /// What [`CanApplyByUser::check_user`] returns.
    spec fn check_user_spec(&self, user: User) -> bool;

    /// Whether the rule is open to this user.
    fn check_user(&self, user: &User) -> (r: bool)
        ensures
            r == self.check_user_spec(*user),
    ;
}

impl CanApplyByOrderUnrelatedInfo for OrderUnrelatedLimits {
    open spec fn can_apply_spec(&self, user: User) -> bool {
        !self.use_time_limit.is_exceed_max_spec(user) && self.user_related_limit.check_user_spec(
            user,
        )
    }

    fn can_apply(&self, user: &User) -> (r: bool) {
        !self.use_time_limit.is_exceed_max(user) && self.user_related_limit.check_user(user)
    }
}

/// The time window a rule is active in, in seconds since the Unix epoch.
#[derive(Debug)]
pub enum TimeLimit {
    /// Always active.
    Always,
    /// Active strictly after this instant.
    Start(i64),
    /// Active strictly after `start` and strictly before `start +
    /// duration`.
    StartDuration {
        /// When the window opens.
        start: i64,
        /// How many seconds it stays open.
        duration: i64,
    },
}

/// Relies on chrono's `Utc::now` and `DateTime::timestamp`: the current
/// time, in whole seconds since the Unix epoch. Two readings need not
/// agree.
#[verifier::external_body]
pub(crate) fn now_timestamp() -> i64 {
    chrono::Utc::now().timestamp()
}

impl TimeLimit {
    /// Whether the window is open at the present moment, by one clock
    /// reading.
    pub fn covers_now(&self) -> (r: bool)
        ensures
            exists|now: i64| r == self.covers_spec(now),
    {
        let now = now_timestamp();
        self.covers(now)
    }
}

impl CanApplyByTime for TimeLimit {
    open spec fn covers_spec(&self, time: i64) -> bool {
        match *self {
            TimeLimit::Always => true,
            TimeLimit::Start(start) => start < time,
            TimeLimit::StartDuration { start, duration } => start < time && start + duration
                > time,
        }
    }

    fn covers(&self, time: i64) -> (r: bool) {
        match self {
            TimeLimit::Always => true,
            TimeLimit::Start(start) => *start < time,
            TimeLimit::StartDuration { start, duration } => *start < time && (*start as i128
                + *duration as i128) > time as i128,
        }
    }
}

/// The ceiling on how often one user may redeem a rule.
#[derive(Debug)]
pub enum UseTimeLimit {
    /// No ceiling.
    NoCeiling,
    /// At most this many past redemptions.
    Number(u32),
}

impl CanApplyByUseTime for UseTimeLimit {
    open spec fn is_exceed_max_spec(&self, user: User) -> bool {
        match *self {
            UseTimeLimit::NoCeiling => false,
            UseTimeLimit::Number(limit) => user.spec_history_len() > limit,
        }
    }

    fn is_exceed_max(&self, user: &User) -> (r: bool) {
        match self {
            UseTimeLimit::NoCeiling => false,
            UseTimeLimit::Number(limit) => user.bonus_use_history().len() > *limit as usize,
        }
    }
}

/// Whether a rule is scoped to one user.
#[derive(Debug)]
pub enum UserRelatedLimit {
    /// Open to every user.
    No,
    /// Open to the one listed user.
    Yes(UserId),
}

impl CanApplyByUser for UserRelatedLimit {
    open spec fn check_user_spec(&self, user: User) -> bool {
        match *self {
            UserRelatedLimit::No => true,
            UserRelatedLimit::Yes(id) => id == user.spec_user_id(),
        }
    }

    fn check_user(&self, user: &User) -> (r: bool) {
        match self {
            UserRelatedLimit::No => true,
            UserRelatedLimit::Yes(id) => *id == user.get_user_id(),
        }
    }
}

/// Whether taking part in a rule is the buyer's choice.
#[derive(Debug)]
pub enum OptionalLimit {
    /// The buyer may decline the rule.
    Optional,
    /// Applied when possible without asking.
    TryCompulsory,
    /// Always applied.
    Compulsory,
}

/// Whether a rule is shown to buyers.
#[derive(Debug)]
pub enum VisibilityLimit {
    /// Hidden.
    No,
    /// Shown.
    Yes,
}

impl ProductSetFilter for ProductSetLimit {
    open spec fn filter_supported(&self) -> bool {
        match *self {
            ProductSetLimit::NoFilter => true,
            ProductSetLimit::SKUSet(_) => true,
            ProductSetLimit::AttributeSet(_) => false,
            ProductSetLimit::SKUAndAttributeSet(_, _) => false,
            ProductSetLimit::SKUOrAttributeSet(_, _) => false,
        }
    }

    open spec fn filter_spec(&self, order_items: Seq<EntryView>) -> Seq<EntryView> {
        match *self {
            ProductSetLimit::NoFilter => order_items,
            ProductSetLimit::SKUSet(names) => spec_select_by_names(order_items, names@),
            _ => Seq::empty(),
        }
    }

    fn filter(&self, order_items: &BoughtSkuSet) -> (r: BoughtSkuSet) {
        match self {
            ProductSetLimit::NoFilter => order_items.clone(),
            ProductSetLimit::SKUSet(names) => {
                let entries = order_items.select_by_names(names);
                proof {
                    if order_items.wf() {
                        crate::sku::lemma_select_by_names_wf(order_items@, names@);
                    }
                }
                BoughtSkuSet { skus: entries }
            },
            ProductSetLimit::AttributeSet(_) => {
                proof {
                    assert(false);
                }
                BoughtSkuSet::new()
            },
            ProductSetLimit::SKUAndAttributeSet(_, _) => {
                proof {
                    assert(false);
                }
                BoughtSkuSet::new()
            },
            ProductSetLimit::SKUOrAttributeSet(_, _) => {
                proof {
                    assert(false);
                }
                BoughtSkuSet::new()
            },
        }
    }
}

} // verus!
