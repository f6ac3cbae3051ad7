use vstd::prelude::*;

verus! {

/// A record of the event log at the specification level: byte buffers appear
/// as mathematical sequences. Contracts and lemmas speak of these.
pub ghost enum Record {
    EntrySet { account: u64, value: u64 },
    EntryGot { account: u64, value: u64 },
    EntryTaken { account: u64, value: u64 },
    EntryIncreased { account: u64, old_value: u64, new_value: u64 },
    ChannelCreated { channel_id: Seq<u8>, accounts: Seq<u64> },
}

/// One event per successful handler call, in call order. Only kinds that some
/// handler actually produces are defined; no kind is reserved for handlers
/// that do not exist.
#[derive(Debug, PartialEq, Eq)]
pub enum Event {
    /// `set` wrote this value for this account.
    EntrySet(u64, u64),
    /// `get` read this value on behalf of this caller; storage is unchanged.
    EntryGot(u64, u64),
    /// `take` removed this account's entry, which held this value.
    EntryTaken(u64, u64),
    /// `increase` moved this account's entry from the first value to the second.
    EntryIncreased(u64, u64, u64),
    /// `new_channel` stored one secret per listed account under this channel
    /// identifier. The accounts are listed in ascending order.
    ChannelCreated(Vec<u8>, Vec<u64>),
}

impl Event {
    /// The specification-level record this event stands for.
    pub open spec fn rec(self) -> Record {
        match self {
            Event::EntrySet(a, v) => Record::EntrySet { account: a, value: v },
            Event::EntryGot(a, v) => Record::EntryGot { account: a, value: v },
            Event::EntryTaken(a, v) => Record::EntryTaken { account: a, value: v },
            Event::EntryIncreased(a, o, n) => Record::EntryIncreased {
                account: a,
                old_value: o,
                new_value: n,
            },
            Event::ChannelCreated(cid, accounts) => Record::ChannelCreated {
                channel_id: cid@,
                accounts: accounts@,
            },
        }
    }
}

} // verus!
