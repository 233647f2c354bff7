use vstd::prelude::*;
use barter_integration::model::SubscriptionId;

pub mod book;
pub mod stateless;

verus! {

/// A message that may name the subscription it belongs to.
pub trait Identifier {
    /// The routing key the message names.
    spec fn spec_id(&self) -> Option<SubscriptionId>;

    /// The routing key of the message; `None` for heartbeats and other control frames.
    fn id(&self) -> (r: Option<SubscriptionId>)
        ensures
            r == self.spec_id(),
    ;
}

} // verus!
