//! The settlement engine: the four operations of the wagering system.
//!
//! Each operation is a single atomic state transition on the race ledger and
//! the wager-record store. The contracts say exactly which inputs succeed,
//! which error every other input gets, and that a failed operation changes
//! nothing. Fund movement itself (bettor to custody, custody to winner) is the
//! host ledger's concern; the engine fixes the amounts that move.

use vstd::prelude::*;

use vstd::arithmetic::div_mod::lemma_multiply_divide_le;
use vstd::arithmetic::mul::{lemma_mul_inequality, lemma_mul_upper_bound};

use crate::state::{
    lemma_pool_sum_elem_bound, lemma_pool_sum_push, lemma_pool_sum_update, pool_sum, valid_horse,
    AccountId, Bet, Race, OUTCOME_COUNT,
};
use crate::store::{removed_key, BetStore};

verus! {

/// Why an operation was refused. Every error aborts the whole transition.
#[derive(Clone, Copy, PartialEq, Eq, Structural, Debug)]
pub enum BettingError {
    /// An outcome outside `1..=9` was named.
    InvalidHorse,
    /// A wager of zero stake was placed.
    InvalidAmount,
    /// The operation needs an active race, but the race is finalized.
    RaceAlreadyFinalized,
    /// A payout was claimed before the race was finalized.
    RaceNotFinalized,
    /// The caller does not hold the required role or record.
    Unauthorized,
    /// The wager's outcome is not the winning outcome.
    NotAWinner,
    /// Accumulating the stake would exceed the 64-bit pool range.
    Overflow,
    /// A wager record for `(race, bettor)` already exists.
    AlreadyExists,
}

/// The inputs on which `place_bet` succeeds.
pub open spec fn place_bet_allowed(
    race: Race,
    store: BetStore,
    race_key: AccountId,
    user: AccountId,
    horse: u8,
    amount: u64,
) -> bool {
    &&& valid_horse(horse)
    &&& race.active
    &&& amount > 0
    &&& !store.contains_key(race_key, user)
    &&& race.total_pool + amount <= u64::MAX
}

/// The error `place_bet` returns when it is not allowed.
pub open spec fn place_bet_error(
    race: Race,
    store: BetStore,
    race_key: AccountId,
    user: AccountId,
    horse: u8,
    amount: u64,
) -> BettingError {
    if !valid_horse(horse) {
        BettingError::InvalidHorse
    } else if !race.active {
        BettingError::RaceAlreadyFinalized
    } else if amount == 0 {
        BettingError::InvalidAmount
    } else if store.contains_key(race_key, user) {
        BettingError::AlreadyExists
    } else {
        BettingError::Overflow
    }
}

/// `post` is `pre` with a stake of `amount` on `horse` booked: both the
/// outcome's total and the pool grow by `amount`; everything else is kept.
pub open spec fn bet_recorded(pre: Race, post: Race, horse: u8, amount: u64) -> bool {
    &&& post.authority == pre.authority
    &&& post.bump == pre.bump
    &&& post.active == pre.active
    &&& post.winning_horse == pre.winning_horse
    &&& post.total_pool == pre.total_pool + amount
    &&& post.total_bets_on@ == pre.total_bets_on@.update(
        horse - 1,
        (pre.total_bets_on@[horse - 1] + amount) as u64,
    )
}

/// The inputs on which `finalize_race` succeeds.
pub open spec fn finalize_allowed(race: Race, caller: AccountId, winning_horse: u8) -> bool {
    &&& valid_horse(winning_horse)
    &&& caller == race.authority
    &&& race.active
}

/// The error `finalize_race` returns when it is not allowed.
pub open spec fn finalize_error(race: Race, caller: AccountId, winning_horse: u8) -> BettingError {
    if !valid_horse(winning_horse) {
        BettingError::InvalidHorse
    } else if caller != race.authority {
        BettingError::Unauthorized
    } else {
        BettingError::RaceAlreadyFinalized
    }
}

/// `post` is `pre` with the winning outcome fixed: the race is closed, the
/// outcome is set, and no funds moved.
pub open spec fn finalized(pre: Race, post: Race, winning_horse: u8) -> bool {
    &&& post.authority == pre.authority
    &&& post.bump == pre.bump
    &&& !post.active
    &&& post.winning_horse == winning_horse
    &&& post.total_pool == pre.total_pool
    &&& post.total_bets_on@ == pre.total_bets_on@
}

/// The floor share of the pool owed to a winning stake of `amount` when
/// `winner_total` is staked on the winning outcome in a pool of `pool`.
pub open spec fn payout_of(amount: u64, pool: u64, winner_total: u64) -> int
    recommends
        winner_total > 0,
{
    (amount * pool) / (winner_total as int)
}

/// The inputs on which `claim_winnings` pays out.
pub open spec fn claim_allowed(
    race: Race,
    store: BetStore,
    race_key: AccountId,
    caller: AccountId,
) -> bool {
    &&& store.contains_key(race_key, caller)
    &&& !race.active
    &&& race.winning_horse != 0
    &&& store.record_at(race_key, caller).horse == race.winning_horse
}

/// The error `claim_winnings` returns when it does not pay out.
pub open spec fn claim_error(
    race: Race,
    store: BetStore,
    race_key: AccountId,
    caller: AccountId,
) -> BettingError {
    if !store.contains_key(race_key, caller) {
        BettingError::Unauthorized
    } else if race.active || race.winning_horse == 0 {
        BettingError::RaceNotFinalized
    } else {
        BettingError::NotAWinner
    }
}

/// The stake held by live records of `race_key` on `horse`.
pub open spec fn staked_on(bets: Seq<Bet>, race_key: AccountId, horse: u8) -> int
    decreases bets.len(),
{
    if bets.len() == 0 {
        0
    } else {
        staked_on(bets.drop_last(), race_key, horse) + if bets.last().race == race_key
            && bets.last().horse == horse {
            bets.last().amount as int
        } else {
            0
        }
    }
}

/// Appending one record adds its stake to exactly its own outcome's total.
pub proof fn lemma_staked_on_push(bets: Seq<Bet>, b: Bet, race_key: AccountId, horse: u8)
    ensures
        staked_on(bets.push(b), race_key, horse) == staked_on(bets, race_key, horse) + if b.race
            == race_key && b.horse == horse {
            b.amount as int
        } else {
            0
        },
{
    assert(bets.push(b).drop_last() =~= bets);
}

pub proof fn lemma_staked_on_nonneg(bets: Seq<Bet>, race_key: AccountId, horse: u8)
    ensures
        0 <= staked_on(bets, race_key, horse),
    decreases bets.len(),
{
    if bets.len() > 0 {
        lemma_staked_on_nonneg(bets.drop_last(), race_key, horse);
    }
}

/// Removing one record takes exactly its own contribution out of the total.
pub proof fn lemma_staked_on_remove(bets: Seq<Bet>, i: int, race_key: AccountId, horse: u8)
    requires
        0 <= i < bets.len(),
    ensures
        staked_on(bets.remove(i), race_key, horse) == staked_on(bets, race_key, horse) - if bets[i].race
            == race_key && bets[i].horse == horse {
            bets[i].amount as int
        } else {
            0
        },
    decreases bets.len(),
{
    if i == bets.len() - 1 {
        assert(bets.remove(i) =~= bets.drop_last());
    } else {
        assert(bets.remove(i).drop_last() =~= bets.drop_last().remove(i));
        assert(bets.remove(i).last() == bets.last());
        lemma_staked_on_remove(bets.drop_last(), i, race_key, horse);
    }
}

/// Every unit in the race's per-outcome totals is backed by a live wager
/// record: for each outcome, the total equals the stake of the live records
/// on it. This holds from the opening of a race up to its finalization;
/// a claimed payout then retires its record while the totals stay fixed.
pub open spec fn fully_backed(store: BetStore, race_key: AccountId, race: Race) -> bool {
    forall|h: u8|
        valid_horse(h) ==> #[trigger] staked_on(store.bets@, race_key, h) == race.total_bets_on@[h
            - 1]
}

/// Every live record of `race_key` in the store is one the engine created
/// against `race`: it names a real outcome, its stake is positive, and its
/// stake is contained in the race's total for that outcome. `place_bet`
/// establishes this for the record it creates and preserves it for the rest.
pub open spec fn consistent(store: BetStore, race_key: AccountId, race: Race) -> bool {
    forall|i: int|
        0 <= i < store.bets@.len() && (#[trigger] store.bets@[i]).race == race_key ==> {
            &&& store.bets@[i].wf()
            &&& store.bets@[i].amount <= race.total_bets_on@[store.bets@[i].horse - 1]
        }
}

/// Open a race: a fresh ledger bound to `authority`, active, with no outcome
/// decided and an empty pool. Refusing a second ledger for the same authority
/// is the host's address-derivation concern, not the engine's.
pub fn initialize_race(authority: AccountId, bump: u8) -> (race: Race)
    ensures
        race.wf(),
        race.authority == authority,
        race.bump == bump,
        race.active,
        race.winning_horse == 0,
        race.total_pool == 0,
        forall|h: u8| valid_horse(h) ==> race.stake_on(h) == 0,
{
    let mut bets: Vec<u64> = Vec::new();
    let mut i: usize = 0;
    while i < OUTCOME_COUNT
        invariant
            i <= OUTCOME_COUNT,
            bets@.len() == i,
            pool_sum(bets@) == 0,
            forall|j: int| 0 <= j < i ==> bets@[j] == 0,
        decreases OUTCOME_COUNT - i,
    {
        let ghost pre = bets@;
        bets.push(0);
        proof {
            lemma_pool_sum_push(pre, 0);
        }
        i = i + 1;
    }
    Race {
        authority,
        bump,
        active: true,
        winning_horse: 0,
        total_pool: 0,
        total_bets_on: bets,
    }
}

/// Place a wager: book `amount` on `horse` in the race's aggregates and
/// create the wager record, all or nothing. The caller moves the same
/// `amount` from the bettor into race custody in the same transition.
pub fn place_bet(
    race: &mut Race,
    store: &mut BetStore,
    race_key: AccountId,
    user: AccountId,
    horse: u8,
    amount: u64,
) -> (r: Result<(), BettingError>)
    requires
        old(race).wf(),
        old(store).wf(),
    ensures
        final(race).wf(),
        final(store).wf(),
        match r {
            Ok(_) => {
                &&& place_bet_allowed(*old(race), *old(store), race_key, user, horse, amount)
                &&& bet_recorded(*old(race), *final(race), horse, amount)
                &&& final(store).bets@ == old(store).bets@.push(
                    (Bet { user, race: race_key, horse, amount }),
                )
            },
            Err(e) => {
                &&& !place_bet_allowed(*old(race), *old(store), race_key, user, horse, amount)
                &&& e == place_bet_error(*old(race), *old(store), race_key, user, horse, amount)
                &&& *final(race) == *old(race)
                &&& *final(store) == *old(store)
            },
        },
        final(race).total_pool >= old(race).total_pool,
        final(race).active == old(race).active,
        final(race).winning_horse == old(race).winning_horse,
        final(race).authority == old(race).authority,
        consistent(*old(store), race_key, *old(race)) ==> consistent(
            *final(store),
            race_key,
            *final(race),
        ),
        crate::laws::race_step(
            *old(race),
            *final(race),
            (crate::laws::RaceOp::Place { horse, amount }),
        ),
        fully_backed(*old(store), race_key, *old(race)) ==> fully_backed(
            *final(store),
            race_key,
            *final(race),
        ),
        forall|k: AccountId, h: u8|
            !(k == race_key && h == horse) ==> #[trigger] staked_on(final(store).bets@, k, h)
                == staked_on(old(store).bets@, k, h),
        forall|k: AccountId, r2: Race|
            k != race_key && #[trigger] consistent(*old(store), k, r2) ==> consistent(
                *final(store),
                k,
                r2,
            ),
{
    if !(horse >= 1 && horse <= 9) {
        return Err(BettingError::InvalidHorse);
    }
    if !race.active {
        return Err(BettingError::RaceAlreadyFinalized);
    }
    if amount == 0 {
        return Err(BettingError::InvalidAmount);
    }
    if let Some(_) = store.find(race_key, user) {
        return Err(BettingError::AlreadyExists);
    }
    let new_pool = match race.total_pool.checked_add(amount) {
        Some(p) => p,
        None => {
            return Err(BettingError::Overflow);
        },
    };
    let ghost pre_bets = race.total_bets_on@;
    let idx: usize = (horse - 1) as usize;
    proof {
        lemma_pool_sum_elem_bound(pre_bets, idx as int);
    }
    let cur: u64 = race.total_bets_on[idx];
    race.total_bets_on[idx] = cur + amount;
    race.total_pool = new_pool;
    proof {
        lemma_pool_sum_update(pre_bets, idx as int, (cur + amount) as u64);
    }
    let bet = Bet { user, race: race_key, horse, amount };
    let created = store.insert(bet);
    proof {
        if consistent(*old(store), race_key, *old(race)) {
            assert forall|i: int|
                0 <= i < store.bets@.len() && (#[trigger] store.bets@[i]).race == race_key implies {
                &&& store.bets@[i].wf()
                &&& store.bets@[i].amount <= race.total_bets_on@[store.bets@[i].horse - 1]
            } by {
                if i < old(store).bets@.len() {
                    assert(store.bets@[i] == old(store).bets@[i]);
                    let h = store.bets@[i].horse;
                    if h - 1 == idx {
                        assert(race.total_bets_on@[h - 1] == cur + amount);
                    } else {
                        assert(race.total_bets_on@[h - 1] == pre_bets[h - 1]);
                    }
                } else {
                    assert(store.bets@[i] == bet);
                }
            }
        }
        if fully_backed(*old(store), race_key, *old(race)) {
            assert forall|h: u8| valid_horse(h) implies #[trigger] staked_on(
                store.bets@,
                race_key,
                h,
            ) == race.total_bets_on@[h - 1] by {
                lemma_staked_on_push(old(store).bets@, bet, race_key, h);
                if h != horse {
                    assert(race.total_bets_on@[h - 1] == pre_bets[h - 1]);
                }
            }
        }
        assert forall|k: AccountId, h: u8| !(k == race_key && h == horse) implies #[trigger] staked_on(
            store.bets@,
            k,
            h,
        ) == staked_on(old(store).bets@, k, h) by {
            lemma_staked_on_push(old(store).bets@, bet, k, h);
        }
        assert forall|k: AccountId, r2: Race|
            k != race_key && #[trigger] consistent(*old(store), k, r2) implies consistent(
            *store,
            k,
            r2,
        ) by {
            assert forall|j: int|
                0 <= j < store.bets@.len() && (#[trigger] store.bets@[j]).race == k implies {
                &&& store.bets@[j].wf()
                &&& store.bets@[j].amount <= r2.total_bets_on@[store.bets@[j].horse - 1]
            } by {
                assert(j < old(store).bets@.len());
                assert(store.bets@[j] == old(store).bets@[j]);
            }
        }
    }
    Ok(())
}

/// Fix the winning outcome: only the race authority may do it, only while the
/// race is active, and only once — afterwards the race is closed for good.
pub fn finalize_race(race: &mut Race, caller: AccountId, winning_horse: u8) -> (r: Result<
    (),
    BettingError,
>)
    requires
        old(race).wf(),
    ensures
        final(race).wf(),
        match r {
            Ok(_) => {
                &&& finalize_allowed(*old(race), caller, winning_horse)
                &&& finalized(*old(race), *final(race), winning_horse)
            },
            Err(e) => {
                &&& !finalize_allowed(*old(race), caller, winning_horse)
                &&& e == finalize_error(*old(race), caller, winning_horse)
                &&& *final(race) == *old(race)
            },
        },
        final(race).total_pool == old(race).total_pool,
        final(race).total_bets_on@ == old(race).total_bets_on@,
        final(race).authority == old(race).authority,
        crate::laws::race_step(
            *old(race),
            *final(race),
            (crate::laws::RaceOp::Finalize { caller, winning_horse }),
        ),
{
    if !(winning_horse >= 1 && winning_horse <= 9) {
        return Err(BettingError::InvalidHorse);
    }
    if !(caller == race.authority) {
        return Err(BettingError::Unauthorized);
    }
    if !race.active {
        return Err(BettingError::RaceAlreadyFinalized);
    }
    race.winning_horse = winning_horse;
    race.active = false;
    Ok(())
}

/// The pari-mutuel share: `floor(amount * pool / winner_total)`, computed in
/// 128-bit arithmetic so the product cannot overflow. A stake never exceeds
/// the total on its outcome, so the share never exceeds the pool.
pub fn winning_payout(amount: u64, pool: u64, winner_total: u64) -> (payout: u64)
    requires
        winner_total > 0,
        amount <= winner_total,
    ensures
        payout == payout_of(amount, pool, winner_total),
        payout <= pool,
{
    proof {
        lemma_mul_upper_bound(amount as int, u64::MAX as int, pool as int, u64::MAX as int);
        lemma_mul_inequality(amount as int, winner_total as int, pool as int);
        lemma_multiply_divide_le(
            (amount as int) * (pool as int),
            winner_total as int,
            pool as int,
        );
    }
    let wide: u128 = (amount as u128) * (pool as u128);
    let q: u128 = wide / (winner_total as u128);
    q as u64
}

/// Claim a payout: on a finalized race, the holder of the wager record under
/// `(race_key, caller)` whose outcome won is owed the pari-mutuel share of
/// the pool, and the record is retired in the same transition, so the claim
/// can never pay twice. A losing claim is refused and leaves the record live.
/// The caller releases exactly the returned amount from race custody.
pub fn claim_winnings(
    race: &Race,
    store: &mut BetStore,
    race_key: AccountId,
    caller: AccountId,
) -> (r: Result<u64, BettingError>)
    requires
        race.wf(),
        old(store).wf(),
        consistent(*old(store), race_key, *race),
    ensures
        final(store).wf(),
        consistent(*final(store), race_key, *race),
        match r {
            Ok(payout) => {
                &&& claim_allowed(*race, *old(store), race_key, caller)
                &&& payout == payout_of(
                    old(store).record_at(race_key, caller).amount,
                    race.total_pool,
                    race.stake_on(race.winning_horse),
                )
                &&& payout <= race.total_pool
                &&& removed_key(old(store).bets@, final(store).bets@, race_key, caller)
                &&& !final(store).contains_key(race_key, caller)
            },
            Err(e) => {
                &&& !claim_allowed(*race, *old(store), race_key, caller)
                &&& e == claim_error(*race, *old(store), race_key, caller)
                &&& *final(store) == *old(store)
            },
        },
        crate::laws::claim_step(
            *race,
            race_key,
            *old(store),
            *final(store),
            caller,
            (match r {
                Ok(p) => p,
                Err(_) => 0u64,
            }),
        ),
        forall|k: AccountId, h: u8|
            !(k == race_key && h == race.winning_horse) ==> #[trigger] staked_on(
                final(store).bets@,
                k,
                h,
            ) == staked_on(old(store).bets@, k, h),
        forall|k: AccountId, r2: Race|
            #[trigger] consistent(*old(store), k, r2) ==> consistent(*final(store), k, r2),
{
    let i = match store.find(race_key, caller) {
        Some(i) => i,
        None => {
            return Err(BettingError::Unauthorized);
        },
    };
    let bet = store.bets[i];
    proof {
        let k = choose|k: int|
            0 <= k < store.bets@.len() && store.bets@[k].race == race_key && store.bets@[k].user
                == caller;
        if k != i {
            if k < i {
                assert(!crate::store::same_key(store.bets@[k], store.bets@[i as int]));
            } else {
                assert(!crate::store::same_key(store.bets@[i as int], store.bets@[k]));
            }
        }
        assert(bet == store.record_at(race_key, caller));
    }
    if race.active || race.winning_horse == 0 {
        return Err(BettingError::RaceNotFinalized);
    }
    if bet.horse != race.winning_horse {
        return Err(BettingError::NotAWinner);
    }
    let idx: usize = (race.winning_horse - 1) as usize;
    let total_on_winner = race.total_bets_on[idx];
    proof {
        assert(bet.wf() && bet.amount <= race.total_bets_on@[bet.horse - 1]);
    }
    let payout = winning_payout(bet.amount, race.total_pool, total_on_winner);
    let removed = store.remove(race_key, caller);
    proof {
        assert(removed is Some);
        let pre = old(store).bets@;
        let ki = choose|ki: int|
            0 <= ki < pre.len() && pre[ki].race == race_key && pre[ki].user == caller && store.bets@
                == pre.remove(ki);
        assert(pre[ki] == bet) by {
            if ki != i as int {
                if ki < i as int {
                    assert(!crate::store::same_key(pre[ki], pre[i as int]));
                } else {
                    assert(!crate::store::same_key(pre[i as int], pre[ki]));
                }
            }
        }
        assert forall|k: AccountId, r2: Race|
            #[trigger] consistent(*old(store), k, r2) implies consistent(*store, k, r2) by {
            assert forall|j: int|
                0 <= j < store.bets@.len() && (#[trigger] store.bets@[j]).race == k implies {
                &&& store.bets@[j].wf()
                &&& store.bets@[j].amount <= r2.total_bets_on@[store.bets@[j].horse - 1]
            } by {
                if j < ki {
                    assert(store.bets@[j] == pre[j]);
                } else {
                    assert(store.bets@[j] == pre[j + 1]);
                }
            }
        }
        assert forall|k: AccountId, h: u8|
            !(k == race_key && h == race.winning_horse) implies #[trigger] staked_on(
            store.bets@,
            k,
            h,
        ) == staked_on(old(store).bets@, k, h) by {
            lemma_staked_on_remove(pre, ki, k, h);
        }
    }
    Ok(payout)
}

} // verus!
