//! The interface between an import and whatever limits its resources.

use vstd::prelude::*;

verus! {

/// What a resource provider answers to a claim.
#[derive(Debug)]
pub enum ResourceClaimResult<T> {
    /// The claim was admitted; the value is the handle to release later.
    Granted(T),
    /// The budget is full for the moment; a later attempt may succeed.
    Busy,
    /// No later attempt for this size can succeed.
    Impossible,
}

impl<T> ResourceClaimResult<T> {
    /// The handle of an admitted claim.
    pub fn unwrap(self) -> (claim: T)
        requires
            self is Granted,
        ensures
            claim == self->Granted_0,
    {
        match self {
            Self::Granted(c) => c,
            Self::Busy => vstd::pervasive::unreached(),
            Self::Impossible => vstd::pervasive::unreached(),
        }
    }

    pub fn is_ok(&self) -> (r: bool)
        ensures
            r == (self is Granted),
    {
        matches!(self, Self::Granted(_))
    }

    pub fn is_busy(&self) -> (r: bool)
        ensures
            r == (self is Busy),
    {
        matches!(self, Self::Busy)
    }

    pub fn is_impossible(&self) -> (r: bool)
        ensures
            r == (self is Impossible),
    {
        matches!(self, Self::Impossible)
    }
}

/// A budget of concurrent claims.
///
/// `outstanding` counts the claims that were admitted and not yet released.
/// An implementation decides by its own policy which claims it admits; what
/// every implementation owes is that the count moves by one exactly when a
/// claim is admitted.
pub trait ResourceProvider {
    /// The handle of an admitted claim.
    type ResourceClaim;

    /// The states in which the provider's counters are consistent.
    spec fn valid(&self) -> bool;

    /// How many claims are admitted and not released.
    spec fn outstanding(&self) -> nat;

    /// Attempt to claim `size` bytes.
    fn claim(&mut self, size: usize) -> (r: ResourceClaimResult<Self::ResourceClaim>)
        requires
            old(self).valid(),
        ensures
            final(self).valid(),
            r is Granted ==> final(self).outstanding() == old(self).outstanding() + 1,
            !(r is Granted) ==> final(self).outstanding() == old(self).outstanding(),
    ;

    /// How many claims are active.
    fn claims_in_use(&self) -> (n: usize)
        requires
            self.valid(),
        ensures
            n == self.outstanding(),
    ;

    /// How many more claims could be admitted by count alone.
    fn spare_claims(&self) -> usize
        requires
            self.valid(),
    ;

    /// How many bytes the active claims hold.
    fn space_in_use(&self) -> usize
        requires
            self.valid(),
    ;

    /// How many bytes are left of the soft budget.
    fn spare_space(&self) -> usize
        requires
            self.valid(),
    ;
}

/// The handle of an admitted claim. Its holder releases it exactly once, to
/// the provider that admitted it.
pub trait ResourceAllocation {
    /// The provider that admits and takes back such handles.
    type Provider;

    /// Whether the handle was released.
    spec fn is_released(&self) -> bool;

    /// Whether `provider` is in a state in which it can take this handle back.
    spec fn releasable(&self, provider: &Self::Provider) -> bool;

    /// Give the claim back to its provider. A second release does nothing.
    fn release(&mut self, provider: &mut Self::Provider)
        requires
            old(self).releasable(old(provider)),
        ensures
            final(self).is_released(),
    ;

    /// Whether the handle was released.
    fn released(&self) -> (r: bool)
        ensures
            r == self.is_released(),
    ;
}

} // verus!
