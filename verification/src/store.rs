use vstd::prelude::*;
use vstd::std_specs::cmp::PartialEqSpec;

use crate::assoc::assoc_map;
use crate::assoc::assoc_unique;
use crate::assoc::lemma_assoc_absent;
use crate::assoc::lemma_assoc_at;
use crate::assoc::lemma_assoc_push;
use crate::assoc::lemma_assoc_remove;

verus! {

/// The scalar half of the backing store: one unsigned counter per account,
/// held as an association list with unique keys.
pub struct ScalarStore {
    entries: Vec<(u64, u64)>,
}

impl ScalarStore {
    /// No account occurs twice.
    pub closed spec fn wf(self) -> bool {
        assoc_unique(self.entries@)
    }

    /// The map this store denotes.
    pub closed spec fn as_map(self) -> Map<u64, u64> {
        assoc_map(self.entries@)
    }

    /// An empty store.
    pub fn new() -> (r: ScalarStore)
        ensures
            r.wf(),
            r.as_map() == Map::<u64, u64>::empty(),
    {
        let r = ScalarStore { entries: Vec::new() };
        proof {
            assert(r.as_map() =~= Map::<u64, u64>::empty());
        }
        r
    }

    /// The index of the entry holding this account, if any.
    fn find(&self, account: u64) -> (r: Option<usize>)
        ensures
            match r {
                Some(i) => i < self.entries@.len() && self.entries@[i as int].0 == account,
                None => forall|j: int| 0 <= j < self.entries@.len() ==> self.entries@[j].0 != account,
            },
    {
        let n = self.entries.len();
        let mut i: usize = 0;
        while i < n
            invariant
                i <= n,
                n == self.entries@.len(),
                forall|j: int| 0 <= j < i ==> self.entries@[j].0 != account,
            decreases n - i,
        {
            if self.entries[i].0 == account {
                return Some(i);
            }
            i += 1;
        }
        None
    }

    /// Whether the account has a stored entry.
    pub fn contains(&self, account: u64) -> (r: bool)
        ensures
            r == self.as_map().dom().contains(account),
    {
        match self.find(account) {
            Some(i) => {
                proof {
                    assert(i < self.entries@.len() && self.entries@[i as int].0 == account);
                }
                true
            },
            None => {
                proof {
                    lemma_assoc_absent(self.entries@, account);
                }
                false
            },
        }
    }

    /// The stored value, if the account has one.
    pub fn get(&self, account: u64) -> (r: Option<u64>)
        requires
            self.wf(),
        ensures
            match r {
                Some(v) => self.as_map().dom().contains(account) && v == self.as_map()[account],
                None => !self.as_map().dom().contains(account),
            },
    {
        match self.find(account) {
            Some(i) => {
                proof {
                    lemma_assoc_at(self.entries@, i as int);
                }
                Some(self.entries[i].1)
            },
            None => {
                proof {
                    lemma_assoc_absent(self.entries@, account);
                }
                None
            },
        }
    }

    /// Raw read with the store's implicit default: zero for an absent key.
    pub fn get_or_default(&self, account: u64) -> (r: u64)
        requires
            self.wf(),
        ensures
            r == if self.as_map().dom().contains(account) {
                self.as_map()[account]
            } else {
                0u64
            },
    {
        match self.get(account) {
            Some(v) => v,
            None => 0,
        }
    }

    /// Write the value for the account, overwriting any prior entry.
    pub fn insert(&mut self, account: u64, value: u64)
        requires
            old(self).wf(),
        ensures
            final(self).wf(),
            final(self).as_map() == old(self).as_map().insert(account, value),
    {
        let ghost s = self.entries@;
        match self.find(account) {
            Some(i) => {
                let _ = self.entries.remove(i);
                proof {
                    lemma_assoc_remove(s, i as int);
                    assert forall|j: int| 0 <= j < self.entries@.len() implies self.entries@[j].0
                        != account by {
                        let j0 = if j < i as int {
                            j
                        } else {
                            j + 1
                        };
                        assert(self.entries@[j] == s[j0]);
                        if j0 != i as int {
                            if j0 < i as int {
                                assert(s[j0].0 != s[i as int].0);
                            } else {
                                assert(s[i as int].0 != s[j0].0);
                            }
                        }
                    }
                    lemma_assoc_push(self.entries@, account, value);
                }
                self.entries.push((account, value));
                proof {
                    assert(self.as_map() =~= old(self).as_map().insert(account, value));
                }
            },
            None => {
                proof {
                    lemma_assoc_push(self.entries@, account, value);
                }
                self.entries.push((account, value));
            },
        }
    }

    /// Remove the account's entry, reporting the value it held.
    pub fn remove(&mut self, account: u64) -> (r: Option<u64>)
        requires
            old(self).wf(),
        ensures
            final(self).wf(),
            final(self).as_map() == old(self).as_map().remove(account),
            match r {
                Some(v) => old(self).as_map().dom().contains(account) && v == old(
                    self,
                ).as_map()[account],
                None => !old(self).as_map().dom().contains(account) && *final(self) == *old(self),
            },
    {
        let ghost s = self.entries@;
        match self.find(account) {
            Some(i) => {
                proof {
                    lemma_assoc_at(s, i as int);
                    lemma_assoc_remove(s, i as int);
                }
                let e = self.entries.remove(i);
                Some(e.1)
            },
            None => {
                proof {
                    lemma_assoc_absent(s, account);
                    assert(self.as_map() =~= old(self).as_map().remove(account));
                }
                None
            },
        }
    }
}

/// One row of the channel registry: the secret stored for one account under
/// one channel identifier.
pub struct ChannelRow {
    pub channel_id: Vec<u8>,
    pub account: u64,
    pub secret: Vec<u8>,
}

impl ChannelRow {
    /// The association-list entry this row denotes.
    pub open spec fn entry(self) -> ((Seq<u8>, u64), Seq<u8>) {
        ((self.channel_id@, self.account), self.secret@)
    }
}

/// The channel half of the backing store: one secret per (channel identifier,
/// account) pair, held as an association list with unique composite keys.
pub struct ChannelStore {
    rows: Vec<ChannelRow>,
}

impl ChannelStore {
    /// The association list this store's rows denote.
    pub closed spec fn entries(self) -> Seq<((Seq<u8>, u64), Seq<u8>)> {
        self.rows@.map_values(|r: ChannelRow| r.entry())
    }

    /// No (channel identifier, account) pair occurs twice.
    pub closed spec fn wf(self) -> bool {
        assoc_unique(self.entries())
    }

    /// The map this store denotes.
    pub closed spec fn as_map(self) -> Map<(Seq<u8>, u64), Seq<u8>> {
        assoc_map(self.entries())
    }

    /// An empty store.
    pub fn new() -> (r: ChannelStore)
        ensures
            r.wf(),
            r.as_map() == Map::<(Seq<u8>, u64), Seq<u8>>::empty(),
    {
        let r = ChannelStore { rows: Vec::new() };
        proof {
            assert(r.entries() =~= Seq::<((Seq<u8>, u64), Seq<u8>)>::empty());
            assert(r.as_map() =~= Map::<(Seq<u8>, u64), Seq<u8>>::empty());
        }
        r
    }

    /// The index of the row holding this (channel identifier, account), if any.
    fn find(&self, channel_id: &Vec<u8>, account: u64) -> (r: Option<usize>)
        ensures
            match r {
                Some(i) => i < self.rows@.len() && self.rows@[i as int].channel_id@ == channel_id@
                    && self.rows@[i as int].account == account,
                None => forall|j: int|
                    0 <= j < self.rows@.len() ==> !(self.rows@[j].channel_id@ == channel_id@
                        && self.rows@[j].account == account),
            },
    {
        let n = self.rows.len();
        let mut i: usize = 0;
        while i < n
            invariant
                i <= n,
                n == self.rows@.len(),
                forall|j: int|
                    0 <= j < i ==> !(self.rows@[j].channel_id@ == channel_id@
                        && self.rows@[j].account == account),
            decreases n - i,
        {
            if self.rows[i].account == account {
                let same = self.rows[i].channel_id == *channel_id;
                proof {
                    if same {
                        assert(self.rows@[i as int].channel_id@ =~= channel_id@);
                    } else {
                        if self.rows@[i as int].channel_id@ == channel_id@ {
                            assert(self.rows@[i as int].channel_id.eq_spec(channel_id));
                            assert(false);
                        }
                    }
                }
                if same {
                    return Some(i);
                }
            }
            i += 1;
        }
        None
    }

    /// Whether a secret is stored for (channel identifier, account).
    pub fn contains(&self, channel_id: &Vec<u8>, account: u64) -> (r: bool)
        ensures
            r == self.as_map().dom().contains((channel_id@, account)),
    {
        match self.find(channel_id, account) {
            Some(i) => {
                proof {
                    assert(self.entries()[i as int].0 == (channel_id@, account));
                }
                true
            },
            None => {
                proof {
                    assert forall|j: int| 0 <= j < self.entries().len() implies self.entries()[j].0
                        != (channel_id@, account) by {
                        assert(self.entries()[j] == self.rows@[j].entry());
                    }
                    lemma_assoc_absent(self.entries(), (channel_id@, account));
                }
                false
            },
        }
    }

    /// The secret stored for (channel identifier, account), if any.
    pub fn get(&self, channel_id: &Vec<u8>, account: u64) -> (r: Option<&Vec<u8>>)
        requires
            self.wf(),
        ensures
            match r {
                Some(s) => self.as_map().dom().contains((channel_id@, account)) && s@
                    == self.as_map()[(channel_id@, account)],
                None => !self.as_map().dom().contains((channel_id@, account)),
            },
    {
        match self.find(channel_id, account) {
            Some(i) => {
                proof {
                    assert(self.entries()[i as int] == self.rows@[i as int].entry());
                    lemma_assoc_at(self.entries(), i as int);
                }
                Some(&self.rows[i].secret)
            },
            None => {
                proof {
                    assert forall|j: int| 0 <= j < self.entries().len() implies self.entries()[j].0
                        != (channel_id@, account) by {
                        assert(self.entries()[j] == self.rows@[j].entry());
                    }
                    lemma_assoc_absent(self.entries(), (channel_id@, account));
                }
                None
            },
        }
    }

    /// Write the secret for (channel identifier, account), overwriting any
    /// prior row for that pair.
    pub fn insert(&mut self, channel_id: Vec<u8>, account: u64, secret: Vec<u8>)
        requires
            old(self).wf(),
        ensures
            final(self).wf(),
            final(self).as_map() == old(self).as_map().insert((channel_id@, account), secret@),
    {
        let ghost s = self.entries();
        let ghost key = (channel_id@, account);
        match self.find(&channel_id, account) {
            Some(i) => {
                let _ = self.rows.remove(i);
                proof {
                    assert forall|j: int| 0 <= j < self.entries().len() implies self.entries()[j]
                        == s.remove(i as int)[j] by {
                        let j0 = if j < i as int {
                            j
                        } else {
                            j + 1
                        };
                        assert(self.entries()[j] == self.rows@[j].entry());
                        assert(s[j0] == old(self).rows@[j0].entry());
                    }
                    assert(self.entries() =~= s.remove(i as int));
                    lemma_assoc_remove(s, i as int);
                    assert(s[i as int].0 == key);
                    assert forall|j: int| 0 <= j < self.entries().len() implies self.entries()[j].0
                        != key by {
                        let j0 = if j < i as int {
                            j
                        } else {
                            j + 1
                        };
                        assert(self.entries()[j] == s[j0]);
                        if j0 != i as int {
                            if j0 < i as int {
                                assert(s[j0].0 != s[i as int].0);
                            } else {
                                assert(s[i as int].0 != s[j0].0);
                            }
                        }
                    }
                    lemma_assoc_push(self.entries(), key, secret@);
                }
                let ghost mid = self.entries();
                self.rows.push(ChannelRow { channel_id, account, secret });
                proof {
                    assert(self.entries() =~= mid.push((key, secret@)));
                    assert(self.as_map() =~= old(self).as_map().insert(key, secret@));
                }
            },
            None => {
                proof {
                    assert forall|j: int| 0 <= j < self.entries().len() implies self.entries()[j].0
                        != key by {
                        assert(self.entries()[j] == self.rows@[j].entry());
                    }
                    lemma_assoc_push(self.entries(), key, secret@);
                }
                let ghost mid = self.entries();
                self.rows.push(ChannelRow { channel_id, account, secret });
                proof {
                    assert(self.entries() =~= mid.push((key, secret@)));
                }
            },
        }
    }
}

} // verus!
