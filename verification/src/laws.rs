//! The laws of the settlement engine, stated and proved over the same spec
//! functions the operation contracts use.

use vstd::prelude::*;

use vstd::arithmetic::div_mod::{
    lemma_div_pos_is_pos, lemma_fundamental_div_mod, lemma_mod_division_less_than_divisor,
};
use vstd::arithmetic::mul::{lemma_mul_inequality, lemma_mul_nonnegative};

use crate::engine::{
    bet_recorded, claim_allowed, claim_error, finalize_allowed, finalize_error, finalized,
    fully_backed, lemma_staked_on_nonneg, lemma_staked_on_remove, payout_of, staked_on,
    BettingError,
};
use crate::state::{
    lemma_pool_sum_elem_bound, lemma_pool_sum_update, pool_sum, valid_horse, AccountId, Bet, Race,
};
use crate::store::{lemma_remove_keeps_unique, removed_key, same_key, BetStore};

verus! {

/// One transition of a race ledger, as the engine allows them: a wager
/// booked, the outcome fixed, or a payout claimed. Each also admits the
/// refused case, which changes nothing.
pub enum RaceOp {
    Place { horse: u8, amount: u64 },
    Finalize { caller: AccountId, winning_horse: u8 },
    Claim,
}

/// The transition relation each engine operation guarantees on the race
/// ledger: either the operation's effect under its success conditions, or no
/// change at all. A claim never changes the ledger's aggregates.
pub open spec fn race_step(pre: Race, post: Race, op: RaceOp) -> bool {
    match op {
        RaceOp::Place { horse, amount } => (valid_horse(horse) && pre.active && amount > 0
            && pre.total_pool + amount <= u64::MAX && bet_recorded(pre, post, horse, amount)) || post
            == pre,
        RaceOp::Finalize { caller, winning_horse } => (finalize_allowed(pre, caller, winning_horse)
            && finalized(pre, post, winning_horse)) || post == pre,
        RaceOp::Claim => post == pre,
    }
}

/// One step preserves the ledger invariant, never shrinks the pool, and
/// changes nothing once the race is finalized.
pub proof fn lemma_race_step(pre: Race, post: Race, op: RaceOp)
    requires
        pre.wf(),
        race_step(pre, post, op),
    ensures
        post.wf(),
        post.total_pool >= pre.total_pool,
        !pre.active ==> post == pre,
{
    match op {
        RaceOp::Place { horse, amount } => {
            if valid_horse(horse) && pre.active && amount > 0 && pre.total_pool + amount
                <= u64::MAX && bet_recorded(pre, post, horse, amount) {
                lemma_pool_sum_elem_bound(pre.total_bets_on@, horse - 1);
                lemma_pool_sum_update(
                    pre.total_bets_on@,
                    horse - 1,
                    (pre.total_bets_on@[horse - 1] + amount) as u64,
                );
            }
        },
        RaceOp::Finalize { .. } => {},
        RaceOp::Claim => {},
    }
}

/// Conservation, monotonicity and one-shot finalization over a whole history.
///
/// For every sequence of operations: the pool equals the sum of the
/// per-outcome totals after every operation; the pool never decreases; and
/// once a race has been finalized, no later operation changes it at all — in
/// particular the winning outcome never changes after being set.
pub proof fn lemma_history(states: Seq<Race>, ops: Seq<RaceOp>)
    requires
        states.len() == ops.len() + 1,
        states[0].wf(),
        forall|i: int| 0 <= i < ops.len() ==> race_step(states[i], states[i + 1], #[trigger] ops[i]),
    ensures
        forall|i: int| 0 <= i < states.len() ==> (#[trigger] states[i]).wf(),
        forall|i: int|
            0 <= i < states.len() ==> (#[trigger] states[i]).total_pool == pool_sum(
                states[i].total_bets_on@,
            ),
        forall|i: int, j: int|
            0 <= i <= j < states.len() ==> (#[trigger] states[i]).total_pool <= (
            #[trigger] states[j]).total_pool,
        forall|i: int, j: int|
            0 <= i <= j < states.len() && !(#[trigger] states[i]).active ==> (
            #[trigger] states[j]) == states[i],
    decreases ops.len(),
{
    if ops.len() == 0 {
    } else {
        assert(race_step(states[0], states[1], ops[0]));
        lemma_race_step(states[0], states[1], ops[0]);
        let states2 = states.subrange(1, states.len() as int);
        let ops2 = ops.subrange(1, ops.len() as int);
        assert forall|i: int|
            0 <= i < ops2.len() implies race_step(states2[i], states2[i + 1], #[trigger] ops2[i]) by {
            assert(states2[i] == states[i + 1]);
            assert(states2[i + 1] == states[i + 2]);
            assert(ops2[i] == ops[i + 1]);
            assert(race_step(states[i + 1], states[i + 2], ops[i + 1]));
        }
        lemma_history(states2, ops2);
        assert forall|i: int| 0 <= i < states.len() implies (#[trigger] states[i]).wf() by {
            if i > 0 {
                assert(states[i] == states2[i - 1]);
            }
        }
        assert forall|i: int, j: int|
            0 <= i <= j < states.len() implies (#[trigger] states[i]).total_pool <= (
        #[trigger] states[j]).total_pool by {
            if i == 0 {
                if j > 0 {
                    assert(states[1] == states2[0]);
                    assert(states[j] == states2[j - 1]);
                    assert(states2[0].total_pool <= states2[j - 1].total_pool);
                }
            } else {
                assert(states[i] == states2[i - 1]);
                assert(states[j] == states2[j - 1]);
                assert(states2[i - 1].total_pool <= states2[j - 1].total_pool);
            }
        }
        assert forall|i: int, j: int|
            0 <= i <= j < states.len() && !(#[trigger] states[i]).active implies (
        #[trigger] states[j]) == states[i] by {
            if i == 0 {
                if j > 0 {
                    assert(states[1] == states[0]);
                    assert(states[1] == states2[0]);
                    assert(states[j] == states2[j - 1]);
                    assert(states2[j - 1] == states2[0]);
                }
            } else {
                assert(states[i] == states2[i - 1]);
                assert(states[j] == states2[j - 1]);
                assert(states2[j - 1] == states2[i - 1]);
            }
        }
    }
}

/// A race is finalized at most once: after a successful finalization, every
/// further finalization attempt is refused — with the closed-race error
/// whenever its inputs are otherwise in order — and the recorded winning
/// outcome is the one that was set.
pub proof fn lemma_single_finalize(
    pre: Race,
    post: Race,
    caller: AccountId,
    winning_horse: u8,
    caller2: AccountId,
    winning_horse2: u8,
)
    requires
        finalize_allowed(pre, caller, winning_horse),
        finalized(pre, post, winning_horse),
    ensures
        !finalize_allowed(post, caller2, winning_horse2),
        valid_horse(winning_horse2) && caller2 == post.authority ==> finalize_error(
            post,
            caller2,
            winning_horse2,
        ) == BettingError::RaceAlreadyFinalized,
        post.winning_horse == winning_horse,
        !post.active,
{
}

/// A wager is paid out at most once: retiring the record under
/// `(race_key, user)` leaves no record under that key, so every further
/// claim with that key is refused as unauthorized — whatever the race state —
/// and no second payout can be released for that wager.
pub proof fn lemma_claim_exactly_once(
    pre: BetStore,
    post: BetStore,
    race_key: AccountId,
    user: AccountId,
)
    requires
        pre.wf(),
        removed_key(pre.bets@, post.bets@, race_key, user),
    ensures
        !post.contains_key(race_key, user),
        forall|race: Race| !claim_allowed(race, post, race_key, user),
        forall|race: Race|
            #[trigger] claim_error(race, post, race_key, user) == BettingError::Unauthorized,
{
    let i = choose|i: int|
        0 <= i < pre.bets@.len() && pre.bets@[i].race == race_key && pre.bets@[i].user == user
            && post.bets@ == pre.bets@.remove(i);
    assert forall|j: int|
        0 <= j < post.bets@.len() implies !((#[trigger] post.bets@[j]).race == race_key
        && post.bets@[j].user == user) by {
        if j < i {
            assert(post.bets@[j] == pre.bets@[j]);
            assert(!same_key(pre.bets@[j], pre.bets@[i]));
        } else {
            assert(post.bets@[j] == pre.bets@[j + 1]);
            assert(!same_key(pre.bets@[i], pre.bets@[j + 1]));
        }
    }
}

/// One settlement attempt on a finalized race, as `claim_winnings`
/// guarantees it: a successful claim pays the record under
/// `(race_key, user)` its floor share and retires the record; every refused
/// attempt pays nothing and changes nothing.
pub open spec fn claim_step(
    race: Race,
    race_key: AccountId,
    pre: BetStore,
    post: BetStore,
    user: AccountId,
    payout: u64,
) -> bool {
    if claim_allowed(race, pre, race_key, user) {
        &&& payout == payout_of(
            pre.record_at(race_key, user).amount,
            race.total_pool,
            race.stake_on(race.winning_horse),
        )
        &&& removed_key(pre.bets@, post.bets@, race_key, user)
    } else {
        &&& payout == 0
        &&& post == pre
    }
}

/// The sum of the pari-mutuel shares of a sequence of winning stakes.
pub open spec fn sum_payouts(amounts: Seq<u64>, pool: u64, winner_total: u64) -> int
    decreases amounts.len(),
{
    if amounts.len() == 0 {
        0
    } else {
        sum_payouts(amounts.drop_last(), pool, winner_total) + payout_of(
            amounts.last(),
            pool,
            winner_total,
        )
    }
}

/// Scaled bounds on a partial sum of shares: `d * sum` stays within
/// `d - 1` per share of the exact proportional total.
proof fn lemma_sum_payouts_rec(amounts: Seq<u64>, pool: u64, winner_total: u64)
    requires
        winner_total > 0,
    ensures
        0 <= sum_payouts(amounts, pool, winner_total),
        (winner_total as int) * sum_payouts(amounts, pool, winner_total) <= pool_sum(amounts) * (
        pool as int),
        (winner_total as int) * sum_payouts(amounts, pool, winner_total) >= pool_sum(amounts) * (
        pool as int) - amounts.len() * (winner_total - 1),
    decreases amounts.len(),
{
    let d = winner_total as int;
    let p = pool as int;
    if amounts.len() == 0 {
    } else {
        let s = amounts.drop_last();
        let a = amounts.last() as int;
        lemma_sum_payouts_rec(s, pool, winner_total);
        let ps = pool_sum(s);
        let sp = sum_payouts(s, pool, winner_total);
        let x = a * p;
        let q = payout_of(amounts.last(), pool, winner_total);
        lemma_mul_nonnegative(a, p);
        lemma_fundamental_div_mod(x, d);
        lemma_mod_division_less_than_divisor(x, d);
        lemma_div_pos_is_pos(x, d);
        assert(d * q == x - x % d);
        assert(d * (sp + q) == d * sp + d * q) by (nonlinear_arith);
        assert((ps + a) * p == ps * p + a * p) by (nonlinear_arith);
        assert((amounts.len() as int) * (d - 1) == (s.len() as int) * (d - 1) + (d - 1))
            by (nonlinear_arith)
            requires
                amounts.len() == s.len() + 1,
        ;
        assert(pool_sum(amounts) == ps + a);
        assert(sum_payouts(amounts, pool, winner_total) == sp + q);
    }
}

/// The stakes of the live records of `race_key` on `horse`, in store order.
pub open spec fn winner_stakes(bets: Seq<Bet>, race_key: AccountId, horse: u8) -> Seq<u64>
    decreases bets.len(),
{
    if bets.len() == 0 {
        Seq::empty()
    } else if bets.last().race == race_key && bets.last().horse == horse {
        winner_stakes(bets.drop_last(), race_key, horse).push(bets.last().amount)
    } else {
        winner_stakes(bets.drop_last(), race_key, horse)
    }
}

/// The listed stakes sum to the stake held on the outcome.
pub proof fn lemma_winner_stakes_sum(bets: Seq<Bet>, race_key: AccountId, horse: u8)
    ensures
        pool_sum(winner_stakes(bets, race_key, horse)) == staked_on(bets, race_key, horse),
    decreases bets.len(),
{
    if bets.len() > 0 {
        lemma_winner_stakes_sum(bets.drop_last(), race_key, horse);
        if bets.last().race == race_key && bets.last().horse == horse {
            crate::state::lemma_pool_sum_push(
                winner_stakes(bets.drop_last(), race_key, horse),
                bets.last().amount,
            );
        }
    }
}

/// Payout proportionality in the aggregate: when stakes summing to the
/// winning outcome's total `winner_total` are each paid
/// `floor(amount * pool / winner_total)`, the payouts never exceed the pool,
/// and what the floor leaves behind — the dust — is less than one unit per
/// winning wager.
pub proof fn lemma_winner_payouts_bounded(amounts: Seq<u64>, pool: u64, winner_total: u64)
    requires
        winner_total > 0,
        pool_sum(amounts) == winner_total,
    ensures
        0 <= sum_payouts(amounts, pool, winner_total) <= pool,
        pool - sum_payouts(amounts, pool, winner_total) < amounts.len(),
{
    let d = winner_total as int;
    let p = pool as int;
    let sp = sum_payouts(amounts, pool, winner_total);
    let n = amounts.len() as int;
    assert(n > 0) by {
        if amounts.len() == 0 {
            assert(pool_sum(amounts) == 0);
        }
    }
    lemma_sum_payouts_rec(amounts, pool, winner_total);
    assert(d * sp <= d * p);
    assert(d * sp >= d * p - n * (d - 1));
    assert(sp <= p) by (nonlinear_arith)
        requires
            d > 0,
            d * sp <= d * p,
    ;
    assert(p - sp < n) by (nonlinear_arith)
        requires
            d > 0,
            n > 0,
            d * sp >= d * p - n * (d - 1),
    ;
}

/// No partial settlement overdraws the pool: stakes summing to at most the
/// winning total — for instance, the winners who have claimed so far — are
/// paid at most the pool in sum.
pub proof fn lemma_partial_payouts_bounded(amounts: Seq<u64>, pool: u64, winner_total: u64)
    requires
        winner_total > 0,
        pool_sum(amounts) <= winner_total,
    ensures
        0 <= sum_payouts(amounts, pool, winner_total) <= pool,
{
    let d = winner_total as int;
    let p = pool as int;
    let sp = sum_payouts(amounts, pool, winner_total);
    lemma_sum_payouts_rec(amounts, pool, winner_total);
    lemma_mul_inequality(pool_sum(amounts), d, p);
    assert(sp <= p) by (nonlinear_arith)
        requires
            d > 0,
            d * sp <= d * p,
    ;
}

/// Settlement of a finalized race: while every unit of the per-outcome
/// totals is backed by a live wager record, paying each winning record its
/// floor share releases at most the pool, and the dust left in custody is
/// less than one unit per winning wager.
pub proof fn lemma_settlement_bound(store: BetStore, race: Race, race_key: AccountId)
    requires
        race.wf(),
        !race.active,
        fully_backed(store, race_key, race),
        race.stake_on(race.winning_horse) > 0,
    ensures
        0 <= sum_payouts(
            winner_stakes(store.bets@, race_key, race.winning_horse),
            race.total_pool,
            race.stake_on(race.winning_horse),
        ) <= race.total_pool,
        race.total_pool - sum_payouts(
            winner_stakes(store.bets@, race_key, race.winning_horse),
            race.total_pool,
            race.stake_on(race.winning_horse),
        ) < winner_stakes(store.bets@, race_key, race.winning_horse).len(),
{
    let wh = race.winning_horse;
    lemma_winner_stakes_sum(store.bets@, race_key, wh);
    assert(staked_on(store.bets@, race_key, wh) == race.total_bets_on@[wh - 1]);
    lemma_winner_payouts_bounded(
        winner_stakes(store.bets@, race_key, wh),
        race.total_pool,
        race.stake_on(wh),
    );
}

/// The scaled claim-phase invariant: what has been paid out so far is
/// covered by the stake already taken out of the live winning records.
proof fn lemma_claim_phase_rec(
    race: Race,
    race_key: AccountId,
    stores: Seq<BetStore>,
    users: Seq<AccountId>,
    payouts: Seq<u64>,
)
    requires
        race.wf(),
        !race.active,
        race.stake_on(race.winning_horse) > 0,
        stores.len() == users.len() + 1,
        payouts.len() == users.len(),
        stores[0].wf(),
        staked_on(stores[0].bets@, race_key, race.winning_horse) == race.stake_on(
            race.winning_horse,
        ),
        forall|i: int|
            0 <= i < users.len() ==> claim_step(
                race,
                race_key,
                stores[i],
                stores[i + 1],
                #[trigger] users[i],
                payouts[i],
            ),
    ensures
        stores.last().wf(),
        0 <= staked_on(stores.last().bets@, race_key, race.winning_horse),
        0 <= pool_sum(payouts),
        (race.stake_on(race.winning_horse) as int) * pool_sum(payouts) <= (race.stake_on(
            race.winning_horse,
        ) - staked_on(stores.last().bets@, race_key, race.winning_horse)) * (
        race.total_pool as int),
    decreases users.len(),
{
    let wh = race.winning_horse;
    let d = race.stake_on(wh) as int;
    let p = race.total_pool as int;
    if users.len() == 0 {
        assert(stores.last() == stores[0]);
    } else {
        let n = users.len() - 1;
        let stores1 = stores.drop_last();
        assert forall|i: int|
            0 <= i < n implies claim_step(
            race,
            race_key,
            stores1[i],
            stores1[i + 1],
            #[trigger] users.drop_last()[i],
            payouts.drop_last()[i],
        ) by {
            assert(claim_step(race, race_key, stores[i], stores[i + 1], users[i], payouts[i]));
        }
        lemma_claim_phase_rec(race, race_key, stores1, users.drop_last(), payouts.drop_last());
        let pre = stores[n];
        let post = stores[n + 1];
        assert(stores1.last() == pre);
        assert(stores.last() == post);
        let s = staked_on(pre.bets@, race_key, wh);
        let rel = pool_sum(payouts.drop_last());
        let q = payouts[n] as int;
        assert(pool_sum(payouts) == rel + q);
        assert(claim_step(race, race_key, pre, post, users[n], payouts[n]));
        if claim_allowed(race, pre, race_key, users[n]) {
            let i = choose|i: int|
                0 <= i < pre.bets@.len() && pre.bets@[i].race == race_key && pre.bets@[i].user
                    == users[n] && post.bets@ == pre.bets@.remove(i);
            let k = choose|k: int|
                0 <= k < pre.bets@.len() && pre.bets@[k].race == race_key && pre.bets@[k].user
                    == users[n];
            assert(k == i) by {
                if k != i {
                    if k < i {
                        assert(!same_key(pre.bets@[k], pre.bets@[i]));
                    } else {
                        assert(!same_key(pre.bets@[i], pre.bets@[k]));
                    }
                }
            }
            let record = pre.record_at(race_key, users[n]);
            assert(pre.bets@[i] == record);
            assert(record.horse == wh);
            let a = record.amount as int;
            lemma_staked_on_remove(pre.bets@, i, race_key, wh);
            lemma_staked_on_nonneg(post.bets@, race_key, wh);
            lemma_remove_keeps_unique(pre.bets@, post.bets@, i);
            let x = a * p;
            lemma_mul_nonnegative(a, p);
            lemma_fundamental_div_mod(x, d);
            lemma_mod_division_less_than_divisor(x, d);
            lemma_div_pos_is_pos(x, d);
            assert(q == x / d);
            assert(d * q == x - x % d);
            assert(d * (rel + q) == d * rel + d * q) by (nonlinear_arith);
            assert((d - (s - a)) * p == (d - s) * p + a * p) by (nonlinear_arith);
        }
    }
}

/// Custody cannot be drained: over any sequence of settlement attempts on a
/// finalized race whose per-outcome totals are fully backed by live wager
/// records, the payouts released sum to at most the pool. Each record is
/// retired as it is paid, so no wager can contribute twice.
pub proof fn lemma_claim_phase_bounded(
    race: Race,
    race_key: AccountId,
    stores: Seq<BetStore>,
    users: Seq<AccountId>,
    payouts: Seq<u64>,
)
    requires
        race.wf(),
        !race.active,
        race.stake_on(race.winning_horse) > 0,
        stores.len() == users.len() + 1,
        payouts.len() == users.len(),
        stores[0].wf(),
        fully_backed(stores[0], race_key, race),
        forall|i: int|
            0 <= i < users.len() ==> claim_step(
                race,
                race_key,
                stores[i],
                stores[i + 1],
                #[trigger] users[i],
                payouts[i],
            ),
    ensures
        0 <= pool_sum(payouts) <= race.total_pool,
{
    let wh = race.winning_horse;
    let d = race.stake_on(wh) as int;
    let p = race.total_pool as int;
    assert(staked_on(stores[0].bets@, race_key, wh) == race.total_bets_on@[wh - 1]);
    lemma_claim_phase_rec(race, race_key, stores, users, payouts);
    let sf = staked_on(stores.last().bets@, race_key, wh);
    let rel = pool_sum(payouts);
    lemma_mul_inequality(d - sf, d, p);
    assert(rel <= p) by (nonlinear_arith)
        requires
            d > 0,
            d * rel <= d * p,
    ;
}

} // verus!
