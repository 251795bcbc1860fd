//! The user collaborator: identity and redemption history, as the checkout
//! core consumes them.

use vstd::prelude::*;

verus! {

/// A user's numeric identity.
pub type UserId = u32;

/// The account on whose behalf an order is placed. A stand-in with a fixed
/// identity and history, as the external user service is out of the core.
#[derive(Debug)]
pub struct User;

/// One recorded redemption of a bonus by a user.
pub struct BonusUseLog;

impl User {
    /// How many bonus redemptions the user has made.
    pub open spec fn spec_history_len(self) -> nat {
        2
    }

    /// The user's numeric identity.
    pub open spec fn spec_user_id(self) -> UserId {
        0
    }

    /// The user's past bonus redemptions; this sample user has exactly two.
    pub fn bonus_use_history(&self) -> (r: Vec<BonusUseLog>)
        ensures
            r@.len() == self.spec_history_len(),
    {
        vec![BonusUseLog {  }, BonusUseLog {  }]
    }

    /// The user's numeric identity; this sample user is user zero.
    pub fn get_user_id(&self) -> (r: UserId)
        ensures
            r == self.spec_user_id(),
    {
        0
    }
}

/// A user's display name.
pub type UserName = String;

} // verus!
