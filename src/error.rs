use vstd::prelude::*;
use barter_integration::model::SubscriptionId;

verus! {

/// Everything that can go wrong while subscribing to, or reading, a market feed.
#[derive(Debug)]
pub enum DataError {
    /// A message named a routing key that no subscription of this connection has.
    Unidentifiable(SubscriptionId),
    /// Two subscriptions of one batch were given the same routing key.
    DuplicateSubscriptionId(SubscriptionId),
    /// The exchange rejected a subscription of the batch; the text is its reason.
    Subscribe(String),
    /// The exchange did not acknowledge the whole batch in time.
    SubscribeTimeout,
    /// The transport failed; the text describes how.
    Socket(String),
    /// An order book delta does not follow on from the book's state.
    InvalidSequence { prev_last_update_id: u64, first_update_id: u64 },
}

} // verus!
