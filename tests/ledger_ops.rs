use coin_war::{
    check_deposit, check_withdraw, create_pool, create_user, deposit, make_prediction, withdraw,
    ErrorCode, Game, Ledger, Pools, RoundPhase, TransactionType, User, GAME_DURATION_IN_DAYS,
    MINIMUM_DEPOSIT, NUM_POOLS, SECONDS_PER_DAY,
};

const TOKEN: u64 = 1_000_000_000;
const ROUND_END: i64 = 5 * SECONDS_PER_DAY;

fn open_ledger(codes: &[u8]) -> Ledger {
    let mut l = Ledger::new(0, ROUND_END);
    for c in codes {
        create_pool(&mut l, *c, 0).unwrap();
    }
    l
}

fn balanced(l: &Ledger) -> bool {
    (0..NUM_POOLS).all(|k| {
        let p = l.pools[k];
        let sum: u64 = l.users.iter().filter(|u| u.pool == Some(p.name)).map(|u| u.balance).sum();
        let members = l
            .users
            .iter()
            .filter(|u| u.pool == Some(p.name) && u.balance > 0)
            .count() as u64;
        p.total_deposit == sum && p.user_count == members
    })
}

#[test]
fn pool_codes_map_both_ways() {
    assert_eq!(Pools::from(1), Ok(Pools::Solana));
    assert_eq!(Pools::from(2), Ok(Pools::BNB));
    assert_eq!(Pools::from(3), Ok(Pools::Polygon));
    assert_eq!(Pools::from(4), Ok(Pools::Ethereum));
    assert_eq!(Pools::from(0), Err(ErrorCode::PoolUnknown));
    assert_eq!(Pools::from(5), Err(ErrorCode::PoolUnknown));
    assert_eq!(Pools::Polygon.to_code(), 3);
    assert_eq!(Pools::code_to_string(1), "Solana");
    assert_eq!(Pools::code_to_string(2), "BNB");
    assert_eq!(Pools::code_to_string(3), "Polygon");
    assert_eq!(Pools::code_to_string(4), "Ethereum");
    assert_eq!(Pools::code_to_string(0), "");
    assert_eq!(Pools::code_to_string(9), "");
    assert_eq!(TransactionType::Deposit.to_code(), 1);
    assert_eq!(TransactionType::Withdrawal.to_code(), 2);
}

#[test]
fn new_ledger_is_well_formed() {
    let l = Ledger::new(7, ROUND_END);
    assert!(l.check_wf());
    assert_eq!(l.pools.len(), NUM_POOLS);
    assert!(l.pools.iter().all(|p| !p.is_initialized));
    assert_eq!(l.game.game_id, 0);
    assert_eq!(l.game.start_time, 7);
    assert_eq!(l.game.phase, RoundPhase::Open);
}

#[test]
fn check_wf_rejects_inconsistent_totals() {
    let mut l = open_ledger(&[1]);
    let id = create_user(&mut l);
    deposit(&mut l, id, Pools::Solana, 3 * TOKEN, None, 0, true).unwrap();
    assert!(l.check_wf());
    l.pools[0].total_deposit += 1;
    assert!(!l.check_wf());
}

#[test]
fn create_pool_sets_fresh_aggregates() {
    let mut l = Ledger::new(0, ROUND_END);
    assert_eq!(create_pool(&mut l, 2, 42), Ok(()));
    let p = l.pools[1];
    assert!(p.is_initialized);
    assert_eq!(p.name, Pools::BNB);
    assert_eq!(p.last_update_timestamp, 42);
    assert_eq!(p.total_deposit, 0);
    assert_eq!(p.user_count, 0);
    assert_eq!(p.average_prediction, 0);
}

#[test]
fn create_pool_twice_fails_and_changes_nothing() {
    let mut l = open_ledger(&[1]);
    let id = create_user(&mut l);
    deposit(&mut l, id, Pools::Solana, 2 * TOKEN, Some(5), 0, true).unwrap();
    let pools = l.pools.clone();
    let users = l.users.clone();
    let game = l.game;
    assert_eq!(create_pool(&mut l, 1, 99), Err(ErrorCode::PoolAlreadyCreated));
    assert_eq!(create_pool(&mut l, 1, 99), Err(ErrorCode::PoolAlreadyCreated));
    assert_eq!(l.pools, pools);
    assert_eq!(l.users, users);
    assert_eq!(l.game, game);
}

#[test]
fn create_pool_unknown_code_fails() {
    let mut l = Ledger::new(0, ROUND_END);
    assert_eq!(create_pool(&mut l, 0, 0), Err(ErrorCode::PoolUnknown));
    assert_eq!(create_pool(&mut l, 5, 0), Err(ErrorCode::PoolUnknown));
}

#[test]
fn create_user_starts_empty() {
    let mut l = Ledger::new(0, ROUND_END);
    assert_eq!(create_user(&mut l), 0);
    assert_eq!(create_user(&mut l), 1);
    let u: User = l.users[1];
    assert_eq!(u.pool, None);
    assert_eq!(u.balance, 0);
    assert_eq!(u.current_weighted_balance, 0);
    assert_eq!(u.current_weighted_days, GAME_DURATION_IN_DAYS);
    assert_eq!(u.last_prediction, 0);
    assert_eq!(u.txn_count, 0);
}

#[test]
fn days_left_rounds_a_started_day_up() {
    let g = Game {
        game_id: 0,
        start_time: 0,
        end_time: ROUND_END,
        phase: RoundPhase::Open,
        winning_pool: None,
        winning_amount: 0,
        total_prize: 0,
        jackpot_paid: false,
    };
    assert_eq!(g.days_left(0), 5);
    assert_eq!(g.days_left(1), 5);
    assert_eq!(g.days_left(SECONDS_PER_DAY), 4);
    assert_eq!(g.days_left(ROUND_END - 1), 1);
    assert_eq!(g.days_left(ROUND_END), 0);
    assert_eq!(g.days_left(ROUND_END + 10), 0);
    assert_eq!(g.days_left(i64::MIN), 106_751_991_167_306);
}

#[test]
fn deposit_updates_user_pool_and_record() {
    let mut l = open_ledger(&[1]);
    let id = create_user(&mut l);
    let t = deposit(&mut l, id, Pools::Solana, 100 * TOKEN, Some(10), 1000, true).unwrap();
    assert_eq!(t.amount, 100 * TOKEN);
    assert_eq!(t.transaction_type, TransactionType::Deposit);
    assert_eq!(t.timestamp, 1000);
    assert_eq!(t.index, 0);
    assert_eq!(t.pool, Pools::Solana);
    let u = l.users[id];
    assert_eq!(u.pool, Some(Pools::Solana));
    assert_eq!(u.balance, 100 * TOKEN);
    assert_eq!(u.last_prediction, 10);
    assert_eq!(u.last_active, 1000);
    assert_eq!(u.txn_count, 1);
    // 5 days left: 5 * 100 tokens over 5 + 5 days.
    assert_eq!(u.current_weighted_balance, 500 * TOKEN as u128);
    assert_eq!(u.current_weighted_days, 10);
    assert_eq!(u.current_average_balance, 50 * TOKEN as u128);
    let p = l.pools[0];
    assert_eq!(p.total_deposit, 100 * TOKEN);
    assert_eq!(p.user_count, 1);
    assert_eq!(p.average_prediction, 10);
    assert!(l.check_wf());
}

#[test]
fn weighted_balance_accumulates_over_deposits() {
    let mut l = open_ledger(&[3]);
    let id = create_user(&mut l);
    // Deposits with 5, 3 and 1 days left.
    deposit(&mut l, id, Pools::Polygon, 2 * TOKEN, None, 0, true).unwrap();
    deposit(&mut l, id, Pools::Polygon, 4 * TOKEN, None, 2 * SECONDS_PER_DAY, true).unwrap();
    deposit(&mut l, id, Pools::Polygon, 8 * TOKEN, None, ROUND_END - 60, true).unwrap();
    let u = l.users[id];
    let expected = (5 * 2 + 3 * 4 + 8) as u128 * TOKEN as u128;
    assert_eq!(u.current_weighted_balance, expected);
    assert_eq!(u.current_weighted_days, 5 + 5 + 3 + 1);
    assert_eq!(u.current_average_balance, expected / 14);
    assert_eq!(u.balance, 14 * TOKEN);
    assert_eq!(l.pools[2].total_deposit, 14 * TOKEN);
    assert_eq!(l.pools[2].user_count, 1);
}

#[test]
fn deposit_after_round_end_has_no_weight() {
    let mut l = open_ledger(&[1]);
    let id = create_user(&mut l);
    deposit(&mut l, id, Pools::Solana, TOKEN, None, ROUND_END + 1, true).unwrap();
    let u = l.users[id];
    assert_eq!(u.current_weighted_balance, 0);
    assert_eq!(u.current_weighted_days, GAME_DURATION_IN_DAYS);
    assert_eq!(u.current_average_balance, 0);
}

#[test]
fn deposit_errors() {
    let mut l = open_ledger(&[1]);
    let id = create_user(&mut l);
    assert_eq!(
        deposit(&mut l, 7, Pools::Solana, TOKEN, None, 0, true),
        Err(ErrorCode::UserUnknown)
    );
    assert_eq!(
        deposit(&mut l, id, Pools::BNB, TOKEN, None, 0, true),
        Err(ErrorCode::PoolNotInitialized)
    );
    assert_eq!(
        deposit(&mut l, id, Pools::Solana, MINIMUM_DEPOSIT - 1, None, 0, true),
        Err(ErrorCode::DepositInsufficient)
    );
    assert_eq!(check_deposit(&l, id, Pools::Solana, MINIMUM_DEPOSIT, None, 0), Ok(()));
    assert_eq!(
        check_deposit(&l, id, Pools::Solana, 0, None, 0),
        Err(ErrorCode::DepositInsufficient)
    );
    assert_eq!(l.users[id].balance, 0);
    assert_eq!(l.pools[0].total_deposit, 0);
}

#[test]
fn deposit_overflow_is_rejected() {
    let mut l = open_ledger(&[1]);
    let a = create_user(&mut l);
    let b = create_user(&mut l);
    deposit(&mut l, a, Pools::Solana, u64::MAX - TOKEN, None, 0, true).unwrap();
    assert_eq!(
        deposit(&mut l, b, Pools::Solana, 2 * TOKEN, None, 0, true),
        Err(ErrorCode::Overflow)
    );
    assert_eq!(l.users[b].balance, 0);
    assert_eq!(l.pools[0].total_deposit, u64::MAX - TOKEN);
}

#[test]
fn unconfirmed_deposit_changes_nothing() {
    let mut l = open_ledger(&[1]);
    let id = create_user(&mut l);
    let before = l.users.clone();
    let pools = l.pools.clone();
    assert_eq!(
        deposit(&mut l, id, Pools::Solana, 5 * TOKEN, Some(3), 0, false),
        Err(ErrorCode::PaymentFailed)
    );
    assert_eq!(l.users, before);
    assert_eq!(l.pools, pools);
}

#[test]
fn withdraw_more_than_balance_is_rejected() {
    let mut l = open_ledger(&[1]);
    let id = create_user(&mut l);
    deposit(&mut l, id, Pools::Solana, 50 * TOKEN, None, 0, true).unwrap();
    assert_eq!(withdraw(&mut l, id, 100 * TOKEN, 0, true), Err(ErrorCode::InsufficientBalance));
    assert_eq!(check_withdraw(&l, id, 100 * TOKEN, 0), Err(ErrorCode::InsufficientBalance));
    assert_eq!(l.users[id].balance, 50 * TOKEN);
    assert_eq!(l.pools[0].total_deposit, 50 * TOKEN);
}

#[test]
fn withdraw_errors() {
    let mut l = open_ledger(&[1]);
    let id = create_user(&mut l);
    assert_eq!(withdraw(&mut l, 3, TOKEN, 0, true), Err(ErrorCode::UserUnknown));
    assert_eq!(withdraw(&mut l, id, 0, 0, true), Err(ErrorCode::InvalidWithdrawal));
    assert_eq!(withdraw(&mut l, id, 1, 0, true), Err(ErrorCode::InsufficientBalance));
    deposit(&mut l, id, Pools::Solana, 2 * TOKEN, None, 0, true).unwrap();
    assert_eq!(withdraw(&mut l, id, TOKEN, 0, false), Err(ErrorCode::PaymentFailed));
    assert_eq!(l.users[id].balance, 2 * TOKEN);
}

#[test]
fn partial_withdraw_resets_weighting_and_drops_prediction() {
    let mut l = open_ledger(&[1]);
    let a = create_user(&mut l);
    let b = create_user(&mut l);
    deposit(&mut l, a, Pools::Solana, 10 * TOKEN, Some(10), 0, true).unwrap();
    deposit(&mut l, b, Pools::Solana, 10 * TOKEN, Some(20), 0, true).unwrap();
    assert_eq!(l.pools[0].average_prediction, 15);
    let t = withdraw(&mut l, a, 4 * TOKEN, 500, true).unwrap();
    assert_eq!(t.transaction_type, TransactionType::Withdrawal);
    assert_eq!(t.amount, 4 * TOKEN);
    assert_eq!(t.index, 1);
    assert_eq!(t.pool, Pools::Solana);
    let u = l.users[a];
    assert_eq!(u.balance, 6 * TOKEN);
    assert_eq!(u.pool, Some(Pools::Solana));
    assert_eq!(u.last_prediction, 0);
    assert_eq!(u.current_average_balance, 6 * TOKEN as u128);
    assert_eq!(u.current_weighted_balance, 30 * TOKEN as u128);
    assert_eq!(u.current_weighted_days, GAME_DURATION_IN_DAYS);
    assert_eq!(u.txn_count, 2);
    let p = l.pools[0];
    assert_eq!(p.total_deposit, 16 * TOKEN);
    assert_eq!(p.user_count, 2);
    assert_eq!(p.average_prediction, 10);
    assert!(balanced(&l));
}

#[test]
fn full_withdraw_leaves_the_pool() {
    let mut l = open_ledger(&[4]);
    let id = create_user(&mut l);
    deposit(&mut l, id, Pools::Ethereum, 3 * TOKEN, Some(7), 0, true).unwrap();
    withdraw(&mut l, id, 3 * TOKEN, 0, true).unwrap();
    let u = l.users[id];
    assert_eq!(u.pool, None);
    assert_eq!(u.balance, 0);
    let p = l.pools[3];
    assert_eq!(p.total_deposit, 0);
    assert_eq!(p.user_count, 0);
    assert_eq!(p.average_prediction, 0);
    assert!(l.check_wf());
}

#[test]
fn deposit_into_another_pool_moves_the_user() {
    let mut l = open_ledger(&[1, 2]);
    let id = create_user(&mut l);
    deposit(&mut l, id, Pools::Solana, 10 * TOKEN, Some(4), 0, true).unwrap();
    assert_eq!(l.pools[0].total_deposit, 10 * TOKEN);
    assert_eq!(l.pools[0].user_count, 1);
    deposit(&mut l, id, Pools::BNB, 10 * TOKEN, None, 0, true).unwrap();
    assert_eq!(l.users[id].pool, Some(Pools::BNB));
    assert_eq!(l.users[id].balance, 20 * TOKEN);
    assert_eq!(l.pools[0].total_deposit, 0);
    assert_eq!(l.pools[0].user_count, 0);
    assert_eq!(l.pools[0].average_prediction, 0);
    assert_eq!(l.pools[1].total_deposit, 20 * TOKEN);
    assert_eq!(l.pools[1].user_count, 1);
    assert_eq!(l.pools[1].average_prediction, 4);
    assert!(balanced(&l));
}

#[test]
fn make_prediction_updates_the_average() {
    let mut l = open_ledger(&[1]);
    let a = create_user(&mut l);
    let b = create_user(&mut l);
    deposit(&mut l, a, Pools::Solana, TOKEN, Some(10), 0, true).unwrap();
    deposit(&mut l, b, Pools::Solana, TOKEN, Some(13), 0, true).unwrap();
    assert_eq!(l.pools[0].average_prediction, 11);
    assert_eq!(make_prediction(&mut l, a, Pools::Solana, 21), Ok(()));
    assert_eq!(l.users[a].last_prediction, 21);
    assert_eq!(l.pools[0].prediction_total, 34);
    assert_eq!(l.pools[0].average_prediction, 17);
    assert_eq!(l.pools[0].user_count, 2);
}

#[test]
fn make_prediction_errors() {
    let mut l = open_ledger(&[1, 2]);
    let a = create_user(&mut l);
    assert_eq!(make_prediction(&mut l, 9, Pools::Solana, 1), Err(ErrorCode::UserUnknown));
    assert_eq!(make_prediction(&mut l, a, Pools::Solana, 1), Err(ErrorCode::NotInPool));
    deposit(&mut l, a, Pools::Solana, TOKEN, None, 0, true).unwrap();
    assert_eq!(
        make_prediction(&mut l, a, Pools::BNB, 1),
        Err(ErrorCode::MultiplePoolNotAllowed)
    );
    assert_eq!(l.users[a].last_prediction, 0);
}

#[test]
fn totals_match_balances_after_mixed_operations() {
    let mut l = open_ledger(&[1, 2, 3, 4]);
    let ids: Vec<usize> = (0..5).map(|_| create_user(&mut l)).collect();
    let pools = [Pools::Solana, Pools::BNB, Pools::Polygon, Pools::Ethereum];
    for (n, id) in ids.iter().enumerate() {
        let pool = pools[n % 4];
        deposit(&mut l, *id, pool, (n as u64 + 1) * TOKEN, Some(n as u64), 0, true).unwrap();
        assert!(balanced(&l));
    }
    deposit(&mut l, ids[0], Pools::BNB, TOKEN, None, 100, true).unwrap();
    assert!(balanced(&l));
    withdraw(&mut l, ids[1], 2 * TOKEN, 200, true).unwrap();
    assert!(balanced(&l));
    withdraw(&mut l, ids[4], TOKEN, 300, true).unwrap();
    assert!(balanced(&l));
    make_prediction(&mut l, ids[2], Pools::Polygon, 77).unwrap();
    assert!(balanced(&l));
    assert!(l.check_wf());
    assert_eq!(l.pools[0].user_count, 1);
    assert_eq!(l.pools[1].user_count, 1);
    assert_eq!(l.pools[1].total_deposit, 2 * TOKEN);
}
