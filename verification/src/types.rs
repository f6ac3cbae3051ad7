use vstd::prelude::*;

verus! {

/// Size limits for channel creation, supplied by the hosting runtime at
/// initialization and fixed for the lifetime of the pallet.
pub struct Config {
    /// Largest accepted byte length of a channel identifier.
    pub max_channel_id_bytes: u32,
    /// Largest accepted byte length of a member's secret blob.
    pub max_secret_bytes: u32,
}

/// Every way a handler call can fail. A failing call performs no mutation
/// and appends nothing to the event log.
#[derive(Clone, Copy, Debug, PartialEq, Eq, Structural)]
pub enum Error {
    /// A scalar read, removal or update was requested for an account with no
    /// stored entry. The store's implicit zero default does not count as a
    /// stored value.
    NoValueStored,
    /// An arithmetic increase would exceed the representable range.
    Overflow,
    /// A channel identifier or a secret blob exceeds its configured maximum
    /// byte length.
    TooLarge,
    /// Channel creation did not include the caller's own account in the
    /// supplied membership.
    CommonKeyOfOriginRequired,
}

} // verus!
