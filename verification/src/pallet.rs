use vstd::prelude::*;

use crate::events::Event;
use crate::events::Record;
use crate::membership::clone_bytes;
use crate::membership::Membership;
use crate::store::ChannelStore;
use crate::store::ScalarStore;
use crate::types::Config;
use crate::types::Error;

verus! {

/// The full observable state at the specification level: both registries and
/// the event log.
#[verifier::ext_equal]
pub ghost struct State {
    pub scalars: Map<u64, u64>,
    pub channels: Map<(Seq<u8>, u64), Seq<u8>>,
    pub log: Seq<Record>,
}

/// The state after `set`: the caller's value written, one record appended.
pub open spec fn set_tr(s: State, account: u64, value: u64) -> State {
    State {
        scalars: s.scalars.insert(account, value),
        channels: s.channels,
        log: s.log.push(Record::EntrySet { account, value }),
    }
}

/// Whether `get` succeeds: the target account has a stored entry.
pub open spec fn get_ok(s: State, target: u64) -> bool {
    s.scalars.contains_key(target)
}

/// The state after a successful `get`: storage unchanged, one record of the
/// read appended on behalf of the caller.
pub open spec fn get_tr(s: State, origin: u64, target: u64) -> State {
    State {
        scalars: s.scalars,
        channels: s.channels,
        log: s.log.push(Record::EntryGot { account: origin, value: s.scalars[target] }),
    }
}

/// Whether `take` succeeds: the caller has a stored entry.
pub open spec fn take_ok(s: State, account: u64) -> bool {
    s.scalars.contains_key(account)
}

/// The state after a successful `take`: the caller's entry removed, one
/// record of the removed value appended.
pub open spec fn take_tr(s: State, account: u64) -> State {
    State {
        scalars: s.scalars.remove(account),
        channels: s.channels,
        log: s.log.push(Record::EntryTaken { account, value: s.scalars[account] }),
    }
}

/// Whether `increase` succeeds: the caller has a stored entry and the sum
/// stays representable.
pub open spec fn increase_ok(s: State, account: u64, amount: u64) -> bool {
    s.scalars.contains_key(account) && s.scalars[account] + amount <= u64::MAX
}

/// The state after a successful `increase`: the sum written back, one record
/// of old and new value appended.
pub open spec fn increase_tr(s: State, account: u64, amount: u64) -> State {
    let old_value = s.scalars[account];
    let new_value = (old_value + amount) as u64;
    State {
        scalars: s.scalars.insert(account, new_value),
        channels: s.channels,
        log: s.log.push(Record::EntryIncreased { account, old_value, new_value }),
    }
}

/// Whether the channel creation inputs respect the configured size bounds:
/// the channel identifier and every supplied secret fit.
pub open spec fn channel_bounds_ok(cfg: Config, channel_id: Seq<u8>, mem: Map<u64, Seq<u8>>) -> bool {
    channel_id.len() <= cfg.max_channel_id_bytes && forall|a: u64|
        mem.dom().contains(a) ==> mem[a].len() <= cfg.max_secret_bytes
}

/// The channel rows after creation: one row per member account under this
/// channel identifier, every other row unchanged. Rows of the same channel
/// for accounts outside the membership are kept as they are.
pub open spec fn channels_written(
    channels: Map<(Seq<u8>, u64), Seq<u8>>,
    channel_id: Seq<u8>,
    mem: Map<u64, Seq<u8>>,
) -> Map<(Seq<u8>, u64), Seq<u8>> {
    Map::new(
        |k: (Seq<u8>, u64)| channels.dom().contains(k) || (k.0 == channel_id
            && mem.dom().contains(k.1)),
        |k: (Seq<u8>, u64)| if k.0 == channel_id && mem.dom().contains(k.1) {
            mem[k.1]
        } else {
            channels[k]
        },
    )
}

/// The state after a successful `new_channel`: the member rows written, one
/// record listing the member accounts in ascending order appended.
pub open spec fn new_channel_tr(
    s: State,
    channel_id: Seq<u8>,
    mem: Map<u64, Seq<u8>>,
    accounts: Seq<u64>,
) -> State {
    State {
        scalars: s.scalars,
        channels: channels_written(s.channels, channel_id, mem),
        log: s.log.push(Record::ChannelCreated { channel_id, accounts }),
    }
}

/// Both registries and the event log, owned as one handle. Each handler
/// validates before it mutates, so a failing call leaves the whole value
/// untouched, and appends exactly one event when it succeeds.
pub struct Pallet {
    scalars: ScalarStore,
    channels: ChannelStore,
    events: Vec<Event>,
}

impl Pallet {
    /// Both stores are well-formed.
    pub closed spec fn wf(self) -> bool {
        self.scalars.wf() && self.channels.wf()
    }

    /// The observable state this value denotes.
    pub closed spec fn state(self) -> State {
        State {
            scalars: self.scalars.as_map(),
            channels: self.channels.as_map(),
            log: self.events@.map_values(|e: Event| e.rec()),
        }
    }

    /// A pallet with empty registries and an empty event log.
    pub fn new() -> (r: Pallet)
        ensures
            r.wf(),
            r.state() == (State {
                scalars: Map::<u64, u64>::empty(),
                channels: Map::<(Seq<u8>, u64), Seq<u8>>::empty(),
                log: Seq::<Record>::empty(),
            }),
    {
        let r = Pallet {
            scalars: ScalarStore::new(),
            channels: ChannelStore::new(),
            events: Vec::new(),
        };
        proof {
            assert(r.events@.map_values(|e: Event| e.rec()) =~= Seq::<Record>::empty());
            assert(r.state() =~= (State {
                scalars: Map::<u64, u64>::empty(),
                channels: Map::<(Seq<u8>, u64), Seq<u8>>::empty(),
                log: Seq::<Record>::empty(),
            }));
        }
        r
    }

    /// Unconditionally store the caller's value, overwriting any prior entry.
    pub fn set_single_entry(&mut self, origin: u64, value: u64) -> (r: Result<(), Error>)
        requires
            old(self).wf(),
        ensures
            final(self).wf(),
            r == Ok::<(), Error>(()),
            final(self).state() == set_tr(old(self).state(), origin, value),
    {
        self.scalars.insert(origin, value);
        self.events.push(Event::EntrySet(origin, value));
        proof {
            assert(self.state().log =~= old(self).state().log.push(
                Record::EntrySet { account: origin, value },
            ));
            assert(self.state() =~= set_tr(old(self).state(), origin, value));
        }
        Ok(())
    }

    /// Read the target account's value on behalf of the caller. Storage is
    /// never mutated; the only side effect of success is the log record.
    pub fn get_single_entry(&mut self, origin: u64, target: u64) -> (r: Result<u64, Error>)
        requires
            old(self).wf(),
        ensures
            final(self).wf(),
            get_ok(old(self).state(), target) ==> r == Ok::<u64, Error>(
                old(self).state().scalars[target],
            ) && final(self).state() == get_tr(old(self).state(), origin, target),
            !get_ok(old(self).state(), target) ==> r == Err::<u64, Error>(Error::NoValueStored)
                && *final(self) == *old(self),
    {
        match self.scalars.get(target) {
            Some(value) => {
                self.events.push(Event::EntryGot(origin, value));
                proof {
                    assert(self.state().log =~= old(self).state().log.push(
                        Record::EntryGot { account: origin, value },
                    ));
                    assert(self.state() =~= get_tr(old(self).state(), origin, target));
                }
                Ok(value)
            },
            None => Err(Error::NoValueStored),
        }
    }

    /// Read and remove the caller's entry; later reads observe the store's
    /// implicit zero default, and the removed value is recorded.
    pub fn take_single_entry(&mut self, origin: u64) -> (r: Result<u64, Error>)
        requires
            old(self).wf(),
        ensures
            final(self).wf(),
            take_ok(old(self).state(), origin) ==> r == Ok::<u64, Error>(
                old(self).state().scalars[origin],
            ) && final(self).state() == take_tr(old(self).state(), origin),
            !take_ok(old(self).state(), origin) ==> r == Err::<u64, Error>(Error::NoValueStored)
                && *final(self) == *old(self),
    {
        match self.scalars.remove(origin) {
            Some(value) => {
                self.events.push(Event::EntryTaken(origin, value));
                proof {
                    assert(self.state().log =~= old(self).state().log.push(
                        Record::EntryTaken { account: origin, value },
                    ));
                    assert(self.state() =~= take_tr(old(self).state(), origin));
                }
                Ok(value)
            },
            None => Err(Error::NoValueStored),
        }
    }

    /// Add the amount to the caller's stored value. Requires an existing
    /// entry; an unrepresentable sum is rejected rather than wrapped.
    pub fn increase_single_entry(&mut self, origin: u64, amount: u64) -> (r: Result<u64, Error>)
        requires
            old(self).wf(),
        ensures
            final(self).wf(),
            !old(self).state().scalars.contains_key(origin) ==> r == Err::<u64, Error>(
                Error::NoValueStored,
            ) && *final(self) == *old(self),
            old(self).state().scalars.contains_key(origin) && !increase_ok(
                old(self).state(),
                origin,
                amount,
            ) ==> r == Err::<u64, Error>(Error::Overflow) && *final(self) == *old(self),
            increase_ok(old(self).state(), origin, amount) ==> r == Ok::<u64, Error>(
                (old(self).state().scalars[origin] + amount) as u64,
            ) && final(self).state() == increase_tr(old(self).state(), origin, amount),
    {
        match self.scalars.get(origin) {
            Some(old_value) => {
                match old_value.checked_add(amount) {
                    Some(new_value) => {
                        self.scalars.insert(origin, new_value);
                        self.events.push(Event::EntryIncreased(origin, old_value, new_value));
                        proof {
                            assert(self.state().log =~= old(self).state().log.push(
                                Record::EntryIncreased {
                                    account: origin,
                                    old_value,
                                    new_value,
                                },
                            ));
                            assert(self.state() =~= increase_tr(old(self).state(), origin, amount));
                        }
                        Ok(new_value)
                    },
                    None => Err(Error::Overflow),
                }
            },
            None => Err(Error::NoValueStored),
        }
    }

    /// Create (or extend) a channel: validate the size bounds, then that the
    /// caller supplied a secret for their own account, and only then store
    /// one secret per member under the channel identifier and record the
    /// member accounts in ascending order. A prior row of the same channel is
    /// overwritten for accounts inside the membership and kept for accounts
    /// outside it.
    pub fn new_channel(
        &mut self,
        config: &Config,
        origin: u64,
        channel_id: Vec<u8>,
        membership: &Membership,
    ) -> (r: Result<(), Error>)
        requires
            old(self).wf(),
            membership.wf(),
        ensures
            final(self).wf(),
            !channel_bounds_ok(*config, channel_id@, membership.secret_map()) ==> r == Err::<
                (),
                Error,
            >(Error::TooLarge) && *final(self) == *old(self),
            channel_bounds_ok(*config, channel_id@, membership.secret_map())
                && !membership.secret_map().dom().contains(origin) ==> r == Err::<(), Error>(
                Error::CommonKeyOfOriginRequired,
            ) && *final(self) == *old(self),
            channel_bounds_ok(*config, channel_id@, membership.secret_map())
                && membership.secret_map().dom().contains(origin) ==> r == Ok::<(), Error>(())
                && final(self).state() == new_channel_tr(
                old(self).state(),
                channel_id@,
                membership.secret_map(),
                membership.accounts(),
            ),
    {
        proof {
            membership.lemma_accounts();
        }
        let ghost mem = membership.secret_map();
        let ghost accts = membership.accounts();

        if channel_id.len() > config.max_channel_id_bytes as usize {
            return Err(Error::TooLarge);
        }
        let n = membership.len();
        let mut i: usize = 0;
        while i < n
            invariant
                i <= n,
                n == accts.len(),
                membership.wf(),
                mem == membership.secret_map(),
                accts == membership.accounts(),
                *self == *old(self),
                self.wf(),
                channel_id@.len() <= config.max_channel_id_bytes,
                forall|j: int| 0 <= j < i ==> mem[accts[j]].len() <= config.max_secret_bytes,
            decreases n - i,
        {
            if membership.secret_len_at(i) > config.max_secret_bytes as usize {
                proof {
                    membership.lemma_accounts();
                    assert(mem.dom().contains(accts[i as int]));
                    assert(!channel_bounds_ok(*config, channel_id@, mem));
                }
                return Err(Error::TooLarge);
            }
            i += 1;
        }
        proof {
            assert forall|a: u64| mem.dom().contains(a) implies mem[a].len()
                <= config.max_secret_bytes by {
                let idx = choose|idx: int| 0 <= idx < accts.len() && accts[idx] == a;
            }
            assert(channel_bounds_ok(*config, channel_id@, mem));
        }

        if !membership.contains_key(origin) {
            return Err(Error::CommonKeyOfOriginRequired);
        }

        let ghost base = old(self).state();
        let mut w: usize = 0;
        while w < n
            invariant
                w <= n,
                n == accts.len(),
                membership.wf(),
                mem == membership.secret_map(),
                accts == membership.accounts(),
                channel_bounds_ok(*config, channel_id@, mem),
                mem.dom().contains(origin),
                self.scalars == old(self).scalars,
                self.events@ == old(self).events@,
                self.channels.wf(),
                base == old(self).state(),
                self.channels.as_map() == channels_written(
                    base.channels,
                    channel_id@,
                    mem.restrict(accts.take(w as int).to_set()),
                ),
            decreases n - w,
        {
            let account = membership.account_at(w);
            let secret = membership.secret_cloned_at(w);
            let cid = clone_bytes(&channel_id);
            let ghost prev = self.channels.as_map();
            self.channels.insert(cid, account, secret);
            proof {
                membership.lemma_accounts();
                let aw = accts[w as int];
                assert(mem.dom().contains(aw));
                let tw = accts.take(w as int);
                let tw1 = accts.take(w + 1);
                assert(tw1.to_set() =~= tw.to_set().insert(aw)) by {
                    assert forall|x: u64|
                        tw1.to_set().contains(x) <==> tw.to_set().contains(x) || x == aw by {
                        if tw1.to_set().contains(x) {
                            let idx = choose|idx: int| 0 <= idx < tw1.len() && tw1[idx] == x;
                            if idx < w as int {
                                assert(tw[idx] == x);
                            }
                        }
                        if tw.to_set().contains(x) {
                            let idx = choose|idx: int| 0 <= idx < tw.len() && tw[idx] == x;
                            assert(tw1[idx] == x);
                        }
                        if x == aw {
                            assert(tw1[w as int] == x);
                        }
                    }
                }
                assert(self.channels.as_map() =~= channels_written(
                    base.channels,
                    channel_id@,
                    mem.restrict(accts.take(w + 1).to_set()),
                ));
            }
            w += 1;
        }
        proof {
            assert(accts.take(n as int) =~= accts);
            assert(mem.restrict(accts.to_set()) =~= mem) by {
                assert forall|a: u64| mem.dom().contains(a) implies accts.to_set().contains(a) by {
                    let idx = choose|idx: int| 0 <= idx < accts.len() && accts[idx] == a;
                }
            }
        }
        let account_vec = membership.account_list();
        self.events.push(Event::ChannelCreated(channel_id, account_vec));
        proof {
            assert(self.state().log =~= base.log.push(
                Record::ChannelCreated { channel_id: channel_id@, accounts: accts },
            ));
            assert(self.state() =~= new_channel_tr(base, channel_id@, mem, accts));
        }
        Ok(())
    }

    /// Raw scalar read with the store's implicit default: the stored value,
    /// or zero for an account with no entry. No existence check, no event.
    pub fn simple_map(&self, account: u64) -> (r: u64)
        requires
            self.wf(),
        ensures
            r == if self.state().scalars.contains_key(account) {
                self.state().scalars[account]
            } else {
                0u64
            },
    {
        self.scalars.get_or_default(account)
    }

    /// The secret stored for (channel identifier, account), if any.
    pub fn common_key_by_channel_id_account_id(&self, channel_id: &Vec<u8>, account: u64) -> (r:
        Option<&Vec<u8>>)
        requires
            self.wf(),
        ensures
            match r {
                Some(s) => self.state().channels.contains_key((channel_id@, account)) && s@
                    == self.state().channels[(channel_id@, account)],
                None => !self.state().channels.contains_key((channel_id@, account)),
            },
    {
        self.channels.get(channel_id, account)
    }

    /// How many events the log holds.
    pub fn event_count(&self) -> (r: usize)
        ensures
            r == self.state().log.len(),
    {
        self.events.len()
    }

    /// The most recent event, if any call has succeeded yet.
    pub fn last_event(&self) -> (r: Option<&Event>)
        ensures
            match r {
                Some(e) => self.state().log.len() > 0 && e.rec() == self.state().log.last(),
                None => self.state().log.len() == 0,
            },
    {
        if self.events.len() == 0 {
            None
        } else {
            Some(&self.events[self.events.len() - 1])
        }
    }

    /// The event at this position of the log, oldest first.
    pub fn event_at(&self, i: usize) -> (r: &Event)
        requires
            i < self.state().log.len(),
        ensures
            r.rec() == self.state().log[i as int],
    {
        &self.events[i]
    }
}

} // verus!
