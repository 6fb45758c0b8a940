//! A token that counts its holders, and a watcher that reads the count without
//! holding the token.

use std::sync::Arc;
use std::sync::Weak;
use vstd::prelude::*;
use super::types::strong_count;

verus! {

/// A freely cloneable token. Every clone is one more holder, every drop one less.
#[derive(Clone)]
pub struct UsageCounter(Arc<()>);

/// Reads the number of holders of a token without being one. It holds a
/// `std::sync::Weak`, which has an allocator parameter and cannot be declared here.
#[verifier::external_body]
pub struct UsageCounterWatcher(Weak<()>);

impl Clone for UsageCounterWatcher {
    /// `Weak::clone`: one more watcher of the same token.
    #[verifier::external_body]
    fn clone(&self) -> (watcher: Self) {
        UsageCounterWatcher(self.0.clone())
    }
}

/// What a count of holders means to the one who holds a token: nobody else holds
/// it.
pub open spec fn is_last(usages: usize) -> bool {
    usages == 1
}

/// What a count of holders means to a watcher: no holder is left.
pub open spec fn is_dropped(usages: usize) -> bool {
    usages == 0
}

impl UsageCounter {
    pub fn new() -> Self {
        UsageCounter(Arc::new(()))
    }

    /// Whether this holder was the only one at the moment of the call.
    pub fn is_this_the_last(&self) -> bool {
        count_is_last(self.number_of_usages())
    }

    /// The number of holders at the moment of the call. The one who asks is one of
    /// them.
    pub fn number_of_usages(&self) -> (usages: usize)
        ensures
            usages >= 1,
    {
        strong_count(&self.0)
    }

    /// `Arc::downgrade`: a watcher of this token.
    #[verifier::external_body]
    pub fn watcher(&self) -> (watcher: UsageCounterWatcher) {
        UsageCounterWatcher(Arc::downgrade(&self.0))
    }
}

impl Default for UsageCounter {
    fn default() -> Self {
        Self::new()
    }
}

impl UsageCounterWatcher {
    /// Whether exactly one holder was left at the moment of the call.
    pub fn is_observed_the_last(&self) -> bool {
        count_is_last(self.number_of_usages())
    }

    /// Whether no holder was left at the moment of the call. Once that is so it
    /// stays so.
    pub fn is_observed_dropped(&self) -> bool {
        count_is_dropped(self.number_of_usages())
    }

    /// `Weak::strong_count`: the number of holders at the moment of the call.
    #[verifier::external_body]
    pub fn number_of_usages(&self) -> (usages: usize) {
        Weak::strong_count(&self.0)
    }
}

/// Whether a count of holders says that one holder is left.
pub fn count_is_last(usages: usize) -> (last: bool)
    ensures
        last == is_last(usages),
{
    usages == 1
}

/// Whether a count of holders says that none is left.
pub fn count_is_dropped(usages: usize) -> (dropped: bool)
    ensures
        dropped == is_dropped(usages),
{
    usages == 0
}

} // verus!
