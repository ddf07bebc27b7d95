use horse_betting::engine::{
    claim_winnings, finalize_race, initialize_race, place_bet, winning_payout, BettingError,
};
use horse_betting::state::AccountId;
use horse_betting::store::BetStore;

#[test]
fn initialize_race_starts_open_and_empty() {
    let race = initialize_race(AccountId(1), 254);
    assert_eq!(race.authority, AccountId(1));
    assert_eq!(race.bump, 254);
    assert!(race.active);
    assert_eq!(race.winning_horse, 0);
    assert_eq!(race.total_pool, 0);
    assert_eq!(race.total_bets_on, vec![0u64; 9]);
}

#[test]
fn scenario_proportional_payouts() {
    let authority = AccountId(1);
    let race_key = AccountId(10);
    let (a, b, c) = (AccountId(2), AccountId(3), AccountId(4));
    let mut race = initialize_race(authority, 7);
    let mut store = BetStore::new();

    assert_eq!(place_bet(&mut race, &mut store, race_key, a, 3, 100), Ok(()));
    assert_eq!(place_bet(&mut race, &mut store, race_key, b, 3, 300), Ok(()));
    assert_eq!(place_bet(&mut race, &mut store, race_key, c, 5, 200), Ok(()));
    assert_eq!(race.total_pool, 600);
    assert_eq!(race.total_bets_on[2], 400);
    assert_eq!(race.total_bets_on[4], 200);

    assert_eq!(finalize_race(&mut race, authority, 3), Ok(()));
    assert!(!race.active);
    assert_eq!(race.winning_horse, 3);

    assert_eq!(claim_winnings(&race, &mut store, race_key, a), Ok(150));
    assert_eq!(claim_winnings(&race, &mut store, race_key, b), Ok(450));
    assert_eq!(
        claim_winnings(&race, &mut store, race_key, c),
        Err(BettingError::NotAWinner)
    );
    // No dust here: 150 + 450 pays out the whole pool of 600.
}

#[test]
fn scenario_with_dust_residual() {
    let authority = AccountId(1);
    let race_key = AccountId(10);
    let (a, b, c) = (AccountId(2), AccountId(3), AccountId(4));
    let mut race = initialize_race(authority, 0);
    let mut store = BetStore::new();

    assert_eq!(place_bet(&mut race, &mut store, race_key, a, 3, 100), Ok(()));
    assert_eq!(place_bet(&mut race, &mut store, race_key, b, 3, 200), Ok(()));
    assert_eq!(place_bet(&mut race, &mut store, race_key, c, 5, 50), Ok(()));
    assert_eq!(finalize_race(&mut race, authority, 3), Ok(()));

    let pa = claim_winnings(&race, &mut store, race_key, a).unwrap();
    let pb = claim_winnings(&race, &mut store, race_key, b).unwrap();
    assert_eq!(pa, 116); // floor(100 * 350 / 300)
    assert_eq!(pb, 233); // floor(200 * 350 / 300)

    // The dust is bounded by the number of winning wagers minus one.
    let dust = race.total_pool - pa - pb;
    assert_eq!(dust, 1);
    assert!(dust < 2);
}

#[test]
fn place_bet_rejects_invalid_horse() {
    let authority = AccountId(1);
    let race_key = AccountId(10);
    let mut race = initialize_race(authority, 0);
    let mut store = BetStore::new();

    for horse in [0u8, 10, 255] {
        assert_eq!(
            place_bet(&mut race, &mut store, race_key, AccountId(2), horse, 100),
            Err(BettingError::InvalidHorse)
        );
    }
    // No state change.
    assert_eq!(race.total_pool, 0);
    assert_eq!(store.bets.len(), 0);
}

#[test]
fn place_bet_rejects_zero_amount() {
    let authority = AccountId(1);
    let race_key = AccountId(10);
    let mut race = initialize_race(authority, 0);
    let mut store = BetStore::new();

    assert_eq!(
        place_bet(&mut race, &mut store, race_key, AccountId(2), 4, 0),
        Err(BettingError::InvalidAmount)
    );
    assert_eq!(race.total_pool, 0);
    assert_eq!(store.bets.len(), 0);
}

#[test]
fn place_bet_rejects_duplicate_wager() {
    let authority = AccountId(1);
    let race_key = AccountId(10);
    let mut race = initialize_race(authority, 0);
    let mut store = BetStore::new();

    assert_eq!(place_bet(&mut race, &mut store, race_key, AccountId(2), 4, 100), Ok(()));
    assert_eq!(
        place_bet(&mut race, &mut store, race_key, AccountId(2), 6, 50),
        Err(BettingError::AlreadyExists)
    );
    assert_eq!(race.total_pool, 100);
    assert_eq!(store.bets.len(), 1);
}

#[test]
fn place_bet_rejects_pool_overflow() {
    let authority = AccountId(1);
    let race_key = AccountId(10);
    let mut race = initialize_race(authority, 0);
    let mut store = BetStore::new();

    assert_eq!(
        place_bet(&mut race, &mut store, race_key, AccountId(2), 4, u64::MAX),
        Ok(())
    );
    assert_eq!(
        place_bet(&mut race, &mut store, race_key, AccountId(3), 4, 1),
        Err(BettingError::Overflow)
    );
    assert_eq!(race.total_pool, u64::MAX);
    assert_eq!(store.bets.len(), 1);
}

#[test]
fn place_bet_rejects_closed_race() {
    let authority = AccountId(1);
    let race_key = AccountId(10);
    let mut race = initialize_race(authority, 0);
    let mut store = BetStore::new();

    assert_eq!(place_bet(&mut race, &mut store, race_key, AccountId(2), 4, 100), Ok(()));
    assert_eq!(finalize_race(&mut race, authority, 4), Ok(()));
    assert_eq!(
        place_bet(&mut race, &mut store, race_key, AccountId(3), 4, 100),
        Err(BettingError::RaceAlreadyFinalized)
    );
    assert_eq!(race.total_pool, 100);
}

#[test]
fn finalize_rejects_invalid_horse() {
    let authority = AccountId(1);
    let mut race = initialize_race(authority, 0);

    for horse in [0u8, 10, 200] {
        assert_eq!(
            finalize_race(&mut race, authority, horse),
            Err(BettingError::InvalidHorse)
        );
    }
    assert!(race.active);
    assert_eq!(race.winning_horse, 0);
}

#[test]
fn finalize_rejects_wrong_caller() {
    let authority = AccountId(1);
    let mut race = initialize_race(authority, 0);

    assert_eq!(
        finalize_race(&mut race, AccountId(99), 3),
        Err(BettingError::Unauthorized)
    );
    assert!(race.active);
}

#[test]
fn finalize_is_one_shot() {
    let authority = AccountId(1);
    let mut race = initialize_race(authority, 0);

    assert_eq!(finalize_race(&mut race, authority, 3), Ok(()));
    assert_eq!(
        finalize_race(&mut race, authority, 5),
        Err(BettingError::RaceAlreadyFinalized)
    );
    // The winning outcome never changes after being set.
    assert_eq!(race.winning_horse, 3);
    assert!(!race.active);
}

#[test]
fn claim_rejects_unfinalized_race() {
    let authority = AccountId(1);
    let race_key = AccountId(10);
    let mut race = initialize_race(authority, 0);
    let mut store = BetStore::new();

    assert_eq!(place_bet(&mut race, &mut store, race_key, AccountId(2), 4, 100), Ok(()));
    assert_eq!(
        claim_winnings(&race, &mut store, race_key, AccountId(2)),
        Err(BettingError::RaceNotFinalized)
    );
    assert_eq!(store.bets.len(), 1);
}

#[test]
fn claim_rejects_unknown_wager() {
    let authority = AccountId(1);
    let race_key = AccountId(10);
    let mut race = initialize_race(authority, 0);
    let mut store = BetStore::new();

    assert_eq!(place_bet(&mut race, &mut store, race_key, AccountId(2), 4, 100), Ok(()));
    assert_eq!(finalize_race(&mut race, authority, 4), Ok(()));
    assert_eq!(
        claim_winnings(&race, &mut store, race_key, AccountId(99)),
        Err(BettingError::Unauthorized)
    );
}

#[test]
fn claim_pays_at_most_once() {
    let authority = AccountId(1);
    let race_key = AccountId(10);
    let mut race = initialize_race(authority, 0);
    let mut store = BetStore::new();

    assert_eq!(place_bet(&mut race, &mut store, race_key, AccountId(2), 4, 100), Ok(()));
    assert_eq!(place_bet(&mut race, &mut store, race_key, AccountId(3), 5, 100), Ok(()));
    assert_eq!(finalize_race(&mut race, authority, 4), Ok(()));

    assert_eq!(claim_winnings(&race, &mut store, race_key, AccountId(2)), Ok(200));
    assert_eq!(store.bets.len(), 1);
    // The record is retired; a second claim finds nothing to pay.
    assert_eq!(
        claim_winnings(&race, &mut store, race_key, AccountId(2)),
        Err(BettingError::Unauthorized)
    );
    assert_eq!(store.bets.len(), 1);
}

#[test]
fn losing_claim_leaves_record_live() {
    let authority = AccountId(1);
    let race_key = AccountId(10);
    let mut race = initialize_race(authority, 0);
    let mut store = BetStore::new();

    assert_eq!(place_bet(&mut race, &mut store, race_key, AccountId(2), 4, 100), Ok(()));
    assert_eq!(place_bet(&mut race, &mut store, race_key, AccountId(3), 5, 100), Ok(()));
    assert_eq!(finalize_race(&mut race, authority, 4), Ok(()));

    assert_eq!(
        claim_winnings(&race, &mut store, race_key, AccountId(3)),
        Err(BettingError::NotAWinner)
    );
    // The losing record is not retired by a failed claim.
    assert_eq!(store.bets.len(), 2);
    assert_eq!(store.find(race_key, AccountId(3)), Some(1));
}

#[test]
fn conservation_after_every_operation() {
    let authority = AccountId(1);
    let race_key = AccountId(10);
    let mut race = initialize_race(authority, 0);
    let mut store = BetStore::new();

    let check = |race: &horse_betting::state::Race| {
        let sum: u64 = race.total_bets_on.iter().sum();
        assert_eq!(race.total_pool, sum);
    };
    check(&race);
    let _ = place_bet(&mut race, &mut store, race_key, AccountId(2), 1, 17);
    check(&race);
    let _ = place_bet(&mut race, &mut store, race_key, AccountId(3), 9, 25);
    check(&race);
    let _ = place_bet(&mut race, &mut store, race_key, AccountId(4), 0, 99);
    check(&race);
    let _ = finalize_race(&mut race, authority, 9);
    check(&race);
    let _ = claim_winnings(&race, &mut store, race_key, AccountId(3));
    check(&race);
}

#[test]
fn pool_never_shrinks_before_finalize() {
    let authority = AccountId(1);
    let race_key = AccountId(10);
    let mut race = initialize_race(authority, 0);
    let mut store = BetStore::new();

    let mut last: u64 = race.total_pool;
    let steps: [(u64, u8, u64); 4] = [(2, 3, 50), (3, 0, 10), (3, 3, 0), (4, 5, 70)];
    for (user, horse, amount) in steps {
        let _ = place_bet(&mut race, &mut store, race_key, AccountId(user), horse, amount);
        assert!(race.total_pool >= last);
        last = race.total_pool;
    }
    let _ = finalize_race(&mut race, authority, 3);
    assert!(race.total_pool >= last);
}

#[test]
fn one_bettor_may_wager_on_distinct_races() {
    let authority = AccountId(1);
    let bettor = AccountId(2);
    let (key_a, key_b) = (AccountId(10), AccountId(11));
    let mut race_a = initialize_race(authority, 0);
    let mut race_b = initialize_race(authority, 1);
    let mut store = BetStore::new();

    assert_eq!(place_bet(&mut race_a, &mut store, key_a, bettor, 3, 100), Ok(()));
    // The record's address is derived from the race too, so a second race
    // admits the same bettor.
    assert_eq!(place_bet(&mut race_b, &mut store, key_b, bettor, 4, 200), Ok(()));
    assert_eq!(store.bets.len(), 2);

    assert_eq!(finalize_race(&mut race_a, authority, 3), Ok(()));
    assert_eq!(claim_winnings(&race_a, &mut store, key_a, bettor), Ok(100));
    // Settling one race leaves the other race's record untouched.
    assert_eq!(store.find(key_b, bettor), Some(0));
    assert_eq!(store.bets.len(), 1);
}

#[test]
fn winning_payout_formula() {
    assert_eq!(winning_payout(100, 600, 400), 150);
    assert_eq!(winning_payout(300, 600, 400), 450);
    assert_eq!(winning_payout(200, 350, 300), 233);
    assert_eq!(winning_payout(1, u64::MAX, 1), u64::MAX);
    assert_eq!(winning_payout(u64::MAX, u64::MAX, u64::MAX), u64::MAX);
    assert_eq!(winning_payout(7, 0, 9), 0);
}
