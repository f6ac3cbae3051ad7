use vstd::prelude::*;

use crate::assoc::assoc_map;
use crate::assoc::assoc_unique;
use crate::assoc::lemma_assoc_absent;
use crate::assoc::lemma_assoc_at;
use crate::assoc::lemma_assoc_insert_at;
use crate::assoc::lemma_assoc_update;

verus! {

/// Copy a byte buffer; the copy holds the same bytes.
pub fn clone_bytes(v: &Vec<u8>) -> (r: Vec<u8>)
    ensures
        r@ == v@,
{
    let mut r: Vec<u8> = Vec::new();
    let n = v.len();
    let mut i: usize = 0;
    while i < n
        invariant
            i <= n,
            n == v@.len(),
            r@ == v@.take(i as int),
        decreases n - i,
    {
        r.push(v[i]);
        proof {
            assert(r@ =~= v@.take(i + 1));
        }
        i += 1;
    }
    proof {
        assert(v@.take(n as int) =~= v@);
    }
    r
}

/// The membership argument of channel creation: one secret blob per account.
/// Entries are kept in strictly ascending account order, so every account
/// occurs at most once and the account list read out of a membership is
/// canonical.
pub struct Membership {
    entries: Vec<(u64, Vec<u8>)>,
}

impl Membership {
    /// The association list the entries denote, with buffers as sequences.
    pub closed spec fn entry_seq(self) -> Seq<(u64, Seq<u8>)> {
        self.entries@.map_values(|p: (u64, Vec<u8>)| (p.0, p.1@))
    }

    /// The accounts in entry order: ascending when well-formed.
    pub closed spec fn accounts(self) -> Seq<u64> {
        self.entries@.map_values(|p: (u64, Vec<u8>)| p.0)
    }

    /// The mapping from account to secret.
    pub closed spec fn secret_map(self) -> Map<u64, Seq<u8>> {
        assoc_map(self.entry_seq())
    }

    /// Entries strictly ascend by account.
    pub closed spec fn wf(self) -> bool {
        forall|i: int, j: int|
            0 <= i < j < self.entries@.len() ==> self.entries@[i].0 < self.entries@[j].0
    }

    /// A well-formed membership lists each account once, in ascending order,
    /// and its account list carries exactly the mapped accounts, each bound
    /// to the secret stored beside it.
    pub proof fn lemma_accounts(self)
        requires
            self.wf(),
        ensures
            self.accounts().len() == self.entry_seq().len(),
            forall|i: int, j: int|
                0 <= i < j < self.accounts().len() ==> self.accounts()[i] < self.accounts()[j],
            forall|i: int|
                0 <= i < self.accounts().len() ==> #[trigger] self.secret_map().dom().contains(
                    self.accounts()[i],
                ) && self.secret_map()[self.accounts()[i]] == self.entry_seq()[i].1,
            forall|a: u64|
                #[trigger] self.secret_map().dom().contains(a) ==> exists|i: int|
                    0 <= i < self.accounts().len() && self.accounts()[i] == a,
    {
        self.lemma_unique();
        assert forall|i: int|
            0 <= i < self.accounts().len() implies #[trigger] self.secret_map().dom().contains(
            self.accounts()[i],
        ) && self.secret_map()[self.accounts()[i]] == self.entry_seq()[i].1 by {
            assert(self.entry_seq()[i].0 == self.accounts()[i]);
            lemma_assoc_at(self.entry_seq(), i);
        }
        assert forall|a: u64| #[trigger] self.secret_map().dom().contains(a) implies exists|i: int|
            0 <= i < self.accounts().len() && self.accounts()[i] == a by {
            let i = choose|i: int|
                0 <= i < self.entry_seq().len() && self.entry_seq()[i].0 == a;
            assert(self.accounts()[i] == a);
        }
    }

    /// Strictly ascending entries have unique keys.
    proof fn lemma_unique(self)
        requires
            self.wf(),
        ensures
            assoc_unique(self.entry_seq()),
    {
        assert forall|i: int, j: int|
            0 <= i < j < self.entry_seq().len() implies self.entry_seq()[i].0
            != self.entry_seq()[j].0 by {
            assert(self.entry_seq()[i].0 == self.entries@[i].0);
            assert(self.entry_seq()[j].0 == self.entries@[j].0);
        }
    }

    /// An empty membership.
    pub fn new() -> (r: Membership)
        ensures
            r.wf(),
            r.secret_map() == Map::<u64, Seq<u8>>::empty(),
            r.accounts() == Seq::<u64>::empty(),
    {
        let r = Membership { entries: Vec::new() };
        proof {
            assert(r.entry_seq() =~= Seq::<(u64, Seq<u8>)>::empty());
            assert(r.accounts() =~= Seq::<u64>::empty());
            assert(r.secret_map() =~= Map::<u64, Seq<u8>>::empty());
        }
        r
    }

    /// The number of member accounts.
    pub fn len(&self) -> (r: usize)
        ensures
            r == self.accounts().len(),
    {
        self.entries.len()
    }

    /// Whether this account is a member.
    pub fn contains_key(&self, account: u64) -> (r: bool)
        ensures
            r == self.secret_map().dom().contains(account),
    {
        let n = self.entries.len();
        let mut i: usize = 0;
        while i < n
            invariant
                i <= n,
                n == self.entries@.len(),
                forall|j: int| 0 <= j < i ==> self.entries@[j].0 != account,
            decreases n - i,
        {
            if self.entries[i].0 == account {
                proof {
                    assert(self.entry_seq()[i as int].0 == account);
                }
                return true;
            }
            i += 1;
        }
        proof {
            assert forall|j: int| 0 <= j < self.entry_seq().len() implies self.entry_seq()[j].0
                != account by {
                assert(self.entry_seq()[j].0 == self.entries@[j].0);
            }
            lemma_assoc_absent(self.entry_seq(), account);
        }
        false
    }

    /// The account of the entry at this position.
    pub fn account_at(&self, i: usize) -> (r: u64)
        requires
            i < self.accounts().len(),
        ensures
            r == self.accounts()[i as int],
    {
        self.entries[i].0
    }

    /// The byte length of the secret of the entry at this position.
    pub fn secret_len_at(&self, i: usize) -> (r: usize)
        requires
            self.wf(),
            i < self.accounts().len(),
        ensures
            r == self.secret_map()[self.accounts()[i as int]].len(),
    {
        proof {
            self.lemma_accounts();
            assert(self.entry_seq()[i as int].1 == self.entries@[i as int].1@);
        }
        self.entries[i].1.len()
    }

    /// A copy of the secret of the entry at this position.
    pub fn secret_cloned_at(&self, i: usize) -> (r: Vec<u8>)
        requires
            self.wf(),
            i < self.accounts().len(),
        ensures
            r@ == self.secret_map()[self.accounts()[i as int]],
    {
        proof {
            self.lemma_accounts();
            assert(self.entry_seq()[i as int].1 == self.entries@[i as int].1@);
        }
        clone_bytes(&self.entries[i].1)
    }

    /// A copy of the account list, in entry order.
    pub fn account_list(&self) -> (r: Vec<u64>)
        ensures
            r@ == self.accounts(),
    {
        let mut r: Vec<u64> = Vec::new();
        let n = self.entries.len();
        let mut i: usize = 0;
        while i < n
            invariant
                i <= n,
                n == self.entries@.len(),
                r@ == self.accounts().take(i as int),
            decreases n - i,
        {
            r.push(self.entries[i].0);
            proof {
                assert(self.accounts()[i as int] == self.entries@[i as int].0);
                assert(r@ =~= self.accounts().take(i + 1));
            }
            i += 1;
        }
        proof {
            assert(self.accounts().take(n as int) =~= self.accounts());
        }
        r
    }

    /// Record this account's secret, overwriting any prior entry for it.
    pub fn insert(&mut self, account: u64, secret: Vec<u8>)
        requires
            old(self).wf(),
        ensures
            final(self).wf(),
            final(self).secret_map() == old(self).secret_map().insert(account, secret@),
    {
        let ghost s0 = self.entries@;
        let ghost e0 = old(self).entry_seq();
        proof {
            self.lemma_unique();
        }
        let n = self.entries.len();
        let mut pos: usize = 0;
        while pos < n && self.entries[pos].0 < account
            invariant
                pos <= n,
                n == self.entries@.len(),
                self.entries@ == s0,
                forall|j: int| 0 <= j < pos ==> self.entries@[j].0 < account,
            decreases n - pos,
        {
            pos += 1;
        }
        if pos < n && self.entries[pos].0 == account {
            let _ = self.entries.remove(pos);
            self.entries.insert(pos, (account, secret));
            proof {
                assert forall|p: int| 0 <= p < self.entries@.len() implies self.entries@[p] == (
                if p == pos as int {
                    (account, secret)
                } else {
                    s0[p]
                }) by {
                    if p < pos as int {
                        assert(s0.remove(pos as int)[p] == s0[p]);
                    } else if p > pos as int {
                        assert(s0.remove(pos as int)[p - 1] == s0[p]);
                    }
                }
                assert forall|i: int, j: int|
                    0 <= i < j < self.entries@.len() implies self.entries@[i].0
                    < self.entries@[j].0 by {
                    assert(s0[pos as int].0 == account);
                }
                assert(self.entry_seq() =~= e0.update(pos as int, (account, secret@)));
                assert(e0[pos as int].0 == account);
                lemma_assoc_update(e0, pos as int, secret@);
            }
        } else {
            proof {
                assert forall|j: int| 0 <= j < e0.len() implies e0[j].0 != account by {
                    assert(e0[j].0 == s0[j].0);
                    if j >= pos as int {
                        if pos < n {
                            assert(s0[pos as int].0 > account);
                            if j > pos as int {
                                assert(s0[pos as int].0 < s0[j].0);
                            }
                        }
                    }
                }
                lemma_assoc_insert_at(e0, pos as int, account, secret@);
            }
            self.entries.insert(pos, (account, secret));
            proof {
                assert forall|i: int, j: int|
                    0 <= i < j < self.entries@.len() implies self.entries@[i].0
                    < self.entries@[j].0 by {
                    let i0 = if i < pos as int {
                        i
                    } else {
                        i - 1
                    };
                    let j0 = if j < pos as int {
                        j
                    } else {
                        j - 1
                    };
                    if i == pos as int {
                        assert(self.entries@[j] == s0[j0]);
                        assert(pos < n ==> s0[pos as int].0 > account);
                        if j0 > pos as int {
                            assert(s0[pos as int].0 < s0[j0].0);
                        }
                    } else if j == pos as int {
                        assert(self.entries@[i] == s0[i0]);
                    } else {
                        assert(self.entries@[i] == s0[i0]);
                        assert(self.entries@[j] == s0[j0]);
                    }
                }
                assert(self.entry_seq() =~= e0.insert(pos as int, (account, secret@)));
            }
        }
    }
}

} // verus!
