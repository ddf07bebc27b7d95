//! A content-addressed store of wager records keyed by `(race, bettor)`.
//!
//! The host ledger enforces one wager per bettor per race by deriving each
//! record's address from that pair and refusing to create an address twice;
//! this store reproduces those semantics: insertion fails on a duplicate key,
//! and retiring a record removes the only record under its key.

use vstd::prelude::*;

use crate::state::{AccountId, Bet};

verus! {

/// Two records share a storage address exactly when they agree on
/// `(race, bettor)`.
pub open spec fn same_key(a: Bet, b: Bet) -> bool {
    a.race == b.race && a.user == b.user
}

/// `post` is `pre` with exactly one record under `(race, user)` taken out.
pub open spec fn removed_key(pre: Seq<Bet>, post: Seq<Bet>, race: AccountId, user: AccountId) -> bool {
    exists|i: int|
        0 <= i < pre.len() && pre[i].race == race && pre[i].user == user && post == pre.remove(i)
}

/// The record store. Holds at most one wager record per `(race, bettor)`.
#[derive(Clone, Debug)]
pub struct BetStore {
    /// The live wager records, in order of creation.
    pub bets: Vec<Bet>,
}

impl BetStore {
    /// The store invariant: no two records share a key.
    pub open spec fn wf(self) -> bool {
        forall|i: int, j: int|
            0 <= i < j < self.bets@.len() ==> !same_key(self.bets@[i], self.bets@[j])
    }

    /// A record under `(race, user)` is live.
    pub open spec fn contains_key(self, race: AccountId, user: AccountId) -> bool {
        exists|i: int|
            0 <= i < self.bets@.len() && self.bets@[i].race == race && self.bets@[i].user == user
    }

    /// The record under `(race, user)`, when one is live.
    pub open spec fn record_at(self, race: AccountId, user: AccountId) -> Bet
        recommends
            self.contains_key(race, user),
    {
        self.bets@[choose|i: int|
            0 <= i < self.bets@.len() && self.bets@[i].race == race && self.bets@[i].user == user]
    }

    pub fn new() -> (s: BetStore)
        ensures
            s.wf(),
            s.bets@.len() == 0,
    {
        BetStore { bets: Vec::new() }
    }

    /// Index of the live record under `(race, user)`, if any.
    pub fn find(&self, race: AccountId, user: AccountId) -> (r: Option<usize>)
        ensures
            match r {
                Some(i) => {
                    &&& i < self.bets@.len()
                    &&& self.bets@[i as int].race == race
                    &&& self.bets@[i as int].user == user
                    &&& self.contains_key(race, user)
                },
                None => !self.contains_key(race, user),
            },
    {
        let mut i: usize = 0;
        while i < self.bets.len()
            invariant
                i <= self.bets@.len(),
                forall|j: int|
                    0 <= j < i ==> !(self.bets@[j].race == race && self.bets@[j].user == user),
            decreases self.bets@.len() - i,
        {
            let b = self.bets[i];
            if b.race == race && b.user == user {
                return Some(i);
            }
            i = i + 1;
        }
        None
    }

    /// Create a record; fails when its address `(race, bettor)` is taken.
    /// Returns `false` (and leaves the store unchanged) on a duplicate.
    pub fn insert(&mut self, bet: Bet) -> (created: bool)
        requires
            old(self).wf(),
        ensures
            final(self).wf(),
            created == !old(self).contains_key(bet.race, bet.user),
            created ==> final(self).bets@ == old(self).bets@.push(bet),
            !created ==> *final(self) == *old(self),
    {
        match self.find(bet.race, bet.user) {
            Some(_) => false,
            None => {
                self.bets.push(bet);
                assert forall|i: int, j: int| 0 <= i < j < self.bets@.len() implies !same_key(
                    self.bets@[i],
                    self.bets@[j],
                ) by {
                    if j == self.bets@.len() - 1 {
                        assert(!(self.bets@[i].race == bet.race && self.bets@[i].user == bet.user));
                    }
                }
                true
            },
        }
    }

    /// Retire the record under `(race, user)`: remove it from storage so
    /// that no later lookup can see it.
    pub fn remove(&mut self, race: AccountId, user: AccountId) -> (r: Option<Bet>)
        requires
            old(self).wf(),
        ensures
            final(self).wf(),
            match r {
                Some(bet) => {
                    &&& old(self).contains_key(race, user)
                    &&& bet.race == race
                    &&& bet.user == user
                    &&& bet == old(self).record_at(race, user)
                    &&& removed_key(old(self).bets@, final(self).bets@, race, user)
                    &&& !final(self).contains_key(race, user)
                },
                None => !old(self).contains_key(race, user) && *final(self) == *old(self),
            },
    {
        match self.find(race, user) {
            None => None,
            Some(i) => {
                let ghost pre = self.bets@;
                let bet = self.bets.remove(i);
                proof {
                    lemma_remove_keeps_unique(pre, self.bets@, i as int);
                    assert(removed_key(pre, self.bets@, race, user));
                    assert forall|j: int|
                        0 <= j < self.bets@.len() implies !(self.bets@[j].race == race
                        && self.bets@[j].user == user) by {
                        if j < i {
                            assert(!same_key(pre[j], pre[i as int]));
                        } else {
                            assert(self.bets@[j] == pre[j + 1]);
                            assert(!same_key(pre[i as int], pre[j + 1]));
                        }
                    }
                    assert(bet == old(self).record_at(race, user)) by {
                        let k = choose|k: int|
                            0 <= k < pre.len() && pre[k].race == race && pre[k].user == user;
                        if k != i {
                            if k < i {
                                assert(!same_key(pre[k], pre[i as int]));
                            } else {
                                assert(!same_key(pre[i as int], pre[k]));
                            }
                        }
                    }
                }
                Some(bet)
            },
        }
    }
}

/// Removing one element preserves key uniqueness.
pub proof fn lemma_remove_keeps_unique(pre: Seq<Bet>, post: Seq<Bet>, i: int)
    requires
        0 <= i < pre.len(),
        post == pre.remove(i),
        forall|p: int, q: int| 0 <= p < q < pre.len() ==> !same_key(pre[p], pre[q]),
    ensures
        forall|p: int, q: int| 0 <= p < q < post.len() ==> !same_key(post[p], post[q]),
{
    assert forall|p: int, q: int| 0 <= p < q < post.len() implies !same_key(post[p], post[q]) by {
        let p0: int = if p < i {
            p
        } else {
            p + 1
        };
        let q0: int = if q < i {
            q
        } else {
            q + 1
        };
        assert(post[p] == pre[p0]);
        assert(post[q] == pre[q0]);
        assert(!same_key(pre[p0], pre[q0]));
    }
}

} // verus!
