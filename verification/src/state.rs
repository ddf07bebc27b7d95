//! The two persistent entities: the race ledger and the wager record,
//! together with the pool-sum model that their accounting invariant uses.

use vstd::prelude::*;

verus! {

/// Number of outcomes a race can have; outcomes are numbered `1..=9`.
pub const OUTCOME_COUNT: usize = 9;

/// An opaque account identity (an address on the host ledger).
#[derive(Clone, Copy, PartialEq, Eq, Structural, Debug, Hash)]
pub struct AccountId(pub u64);

/// True exactly when `horse` names one of the nine outcomes.
pub open spec fn valid_horse(horse: u8) -> bool {
    1 <= horse <= 9
}

/// The stake accumulated in a sequence of per-outcome totals.
pub open spec fn pool_sum(s: Seq<u64>) -> int
    decreases s.len(),
{
    if s.len() == 0 {
        0
    } else {
        pool_sum(s.drop_last()) + s.last()
    }
}

pub proof fn lemma_pool_sum_nonneg(s: Seq<u64>)
    ensures
        pool_sum(s) >= 0,
    decreases s.len(),
{
    if s.len() > 0 {
        lemma_pool_sum_nonneg(s.drop_last());
    }
}

/// Every per-outcome total is at most the whole pool.
pub proof fn lemma_pool_sum_elem_bound(s: Seq<u64>, i: int)
    requires
        0 <= i < s.len(),
    ensures
        s[i] <= pool_sum(s),
    decreases s.len(),
{
    if i == s.len() - 1 {
        lemma_pool_sum_nonneg(s.drop_last());
    } else {
        lemma_pool_sum_elem_bound(s.drop_last(), i);
    }
}

pub proof fn lemma_pool_sum_push(s: Seq<u64>, v: u64)
    ensures
        pool_sum(s.push(v)) == pool_sum(s) + v,
{
    assert(s.push(v).drop_last() =~= s);
}

/// Replacing one entry changes the sum by the difference of that entry.
pub proof fn lemma_pool_sum_update(s: Seq<u64>, i: int, v: u64)
    requires
        0 <= i < s.len(),
    ensures
        pool_sum(s.update(i, v)) == pool_sum(s) - s[i] + v,
    decreases s.len(),
{
    if i == s.len() - 1 {
        assert(s.update(i, v).drop_last() =~= s.drop_last());
    } else {
        assert(s.update(i, v).drop_last() =~= s.drop_last().update(i, v));
        lemma_pool_sum_update(s.drop_last(), i, v);
    }
}

/// The aggregate pool state for one race.
#[derive(Clone, Debug)]
pub struct Race {
    /// Identity permitted to finalize this race. Immutable after creation.
    pub authority: AccountId,
    /// Derivation parameter of the ledger's custody address. Immutable.
    pub bump: u8,
    /// True from creation until finalization, then false forever.
    pub active: bool,
    /// 0 while the race is open; the winning outcome in `1..=9` afterwards.
    pub winning_horse: u8,
    /// Accumulated stake across all outcomes.
    pub total_pool: u64,
    /// Accumulated stake per outcome; entry `h - 1` belongs to outcome `h`.
    pub total_bets_on: Vec<u64>,
}

impl Race {
    /// The ledger invariant: the pool equals the sum of the per-outcome
    /// totals, and the lifecycle flag agrees with the recorded outcome.
    pub open spec fn wf(self) -> bool {
        &&& self.total_bets_on@.len() == OUTCOME_COUNT
        &&& self.total_pool == pool_sum(self.total_bets_on@)
        &&& (self.active <==> self.winning_horse == 0)
        &&& (self.winning_horse == 0 || valid_horse(self.winning_horse))
    }

    /// Stake accumulated on outcome `horse`.
    pub open spec fn stake_on(self, horse: u8) -> u64
        recommends
            valid_horse(horse),
            self.total_bets_on@.len() == OUTCOME_COUNT,
    {
        self.total_bets_on@[horse - 1]
    }
}

/// One bettor's stake: outcome and amount, linked to one race ledger.
#[derive(Clone, Copy, PartialEq, Eq, Structural, Debug)]
pub struct Bet {
    /// Identity of the depositor. Immutable.
    pub user: AccountId,
    /// The race ledger this wager belongs to. Immutable.
    pub race: AccountId,
    /// Chosen outcome, in `1..=9`. Immutable.
    pub horse: u8,
    /// Deposited stake. Immutable.
    pub amount: u64,
}

impl Bet {
    /// A record the settlement engine can have produced: a real outcome
    /// and a positive stake.
    pub open spec fn wf(self) -> bool {
        &&& valid_horse(self.horse)
        &&& self.amount > 0
    }
}

} // verus!
