use coin_war::{
    check_jackpot, create_pool, create_user, deposit, jackpot_amount, make_prediction,
    pay_jackpot_winner, pay_winning_pool_user, prize_share_of, resolve_round,
    select_winning_pool, start_next_round, withdraw, ErrorCode, Ledger, Pools, RoundPhase,
    GAME_DURATION_IN_DAYS, SECONDS_PER_DAY,
};

const UNIT: u64 = 1_000_000_000;
const END: i64 = 5 * SECONDS_PER_DAY;

/// Pools Solana and BNB created; users 0 and 1 in Solana with 1 and 2 tokens,
/// user 2 in BNB with 5 tokens.
fn game_with_three_users() -> Ledger {
    let mut l = Ledger::new(0, END);
    create_pool(&mut l, 1, 0).unwrap();
    create_pool(&mut l, 2, 0).unwrap();
    for _ in 0..3 {
        create_user(&mut l);
    }
    deposit(&mut l, 0, Pools::Solana, UNIT, Some(10), 0, true).unwrap();
    deposit(&mut l, 1, Pools::Solana, 2 * UNIT, Some(10), 0, true).unwrap();
    deposit(&mut l, 2, Pools::BNB, 5 * UNIT, Some(9), 0, true).unwrap();
    l
}

#[test]
fn closest_prediction_wins() {
    // Solana: prediction 10 against 12 (delta 2); BNB: 9 against 12 (delta 3).
    let names = vec![1u8, 2, 3, 4];
    let predictions = vec![10u64, 9, 0, 0];
    let prices = vec![12u64, 12, 100, 100];
    assert_eq!(select_winning_pool(&names, &predictions, &prices), Ok(Pools::Solana));
}

#[test]
fn closest_prediction_wins_from_above_and_below() {
    let names = vec![1u8, 2, 3, 4];
    let predictions = vec![50u64, 95, 130, 2000];
    let prices = vec![100u64, 100, 120, 1990];
    assert_eq!(select_winning_pool(&names, &predictions, &prices), Ok(Pools::BNB));
    let predictions = vec![50u64, 95, 121, 1000];
    assert_eq!(select_winning_pool(&names, &predictions, &prices), Ok(Pools::Polygon));
}

#[test]
fn tie_goes_to_the_first_pool() {
    let names = vec![1u8, 2, 3, 4];
    let predictions = vec![20u64, 8, 8, 12];
    let prices = vec![10u64, 10, 12, 10];
    assert_eq!(select_winning_pool(&names, &predictions, &prices), Ok(Pools::BNB));
    let predictions = vec![u64::MAX, u64::MAX, u64::MAX, u64::MAX];
    let prices = vec![0u64, 0, 0, 0];
    assert_eq!(select_winning_pool(&names, &predictions, &prices), Ok(Pools::Solana));
}

#[test]
fn mismatched_inputs_are_rejected() {
    let names = vec![1u8, 2, 3, 4];
    let four = vec![1u64, 2, 3, 4];
    let three = vec![1u64, 2, 3];
    assert_eq!(
        select_winning_pool(&names, &three, &four),
        Err(ErrorCode::PoolsDataSizeDoNotMatch)
    );
    assert_eq!(
        select_winning_pool(&names, &four, &three),
        Err(ErrorCode::PoolsDataSizeDoNotMatch)
    );
    assert_eq!(
        select_winning_pool(&vec![1u8, 2], &three, &three),
        Err(ErrorCode::PoolsDataSizeDoNotMatch)
    );
    assert_eq!(
        select_winning_pool(&vec![2u8, 1, 3, 4], &four, &four),
        Err(ErrorCode::PoolsInWrongOrder)
    );
    assert_eq!(
        select_winning_pool(&vec![1u8, 2, 3, 5], &four, &four),
        Err(ErrorCode::PoolsInWrongOrder)
    );
}

#[test]
fn wrong_pool_list_of_matching_length_is_an_order_error() {
    let three = vec![1u64, 2, 3];
    let five = vec![1u64, 2, 3, 4, 5];
    let empty: Vec<u64> = Vec::new();
    assert_eq!(
        select_winning_pool(&vec![1u8, 2, 3], &three, &three),
        Err(ErrorCode::PoolsInWrongOrder)
    );
    assert_eq!(
        select_winning_pool(&vec![1u8, 2, 3, 4, 5], &five, &five),
        Err(ErrorCode::PoolsInWrongOrder)
    );
    assert_eq!(select_winning_pool(&Vec::new(), &empty, &empty), Err(ErrorCode::PoolsInWrongOrder));
}

#[test]
fn resolve_round_uses_pool_averages() {
    let mut l = game_with_three_users();
    // Solana averages 10, BNB 9; the two empty pools average 0.
    assert_eq!(resolve_round(&mut l, &vec![12, 12, 500, 500], 100), Ok(Pools::Solana));
    assert_eq!(l.game.phase, RoundPhase::Resolving);
    assert_eq!(l.game.winning_pool, Some(Pools::Solana));
    assert_eq!(l.game.total_prize, 100);
    assert_eq!(l.game.winning_amount, 0);
    assert_eq!(resolve_round(&mut l, &vec![12, 12, 500, 500], 100), Err(ErrorCode::WrongRoundPhase));
}

#[test]
fn resolve_round_needs_one_price_per_pool() {
    let mut l = game_with_three_users();
    assert_eq!(resolve_round(&mut l, &vec![12, 12], 100), Err(ErrorCode::PoolsDataSizeDoNotMatch));
    assert_eq!(l.game.phase, RoundPhase::Open);
}

#[test]
fn no_deposits_withdrawals_or_predictions_while_resolving() {
    let mut l = game_with_three_users();
    resolve_round(&mut l, &vec![12, 12, 500, 500], 100).unwrap();
    assert_eq!(
        deposit(&mut l, 0, Pools::Solana, UNIT, None, 0, true),
        Err(ErrorCode::WrongRoundPhase)
    );
    assert_eq!(withdraw(&mut l, 0, UNIT, 0, true), Err(ErrorCode::WrongRoundPhase));
    assert_eq!(make_prediction(&mut l, 0, Pools::Solana, 3), Err(ErrorCode::WrongRoundPhase));
}

#[test]
fn members_share_the_prize_by_stake() {
    let mut l = game_with_three_users();
    resolve_round(&mut l, &vec![12, 12, 500, 500], 100).unwrap();
    assert_eq!(prize_share_of(&l, 0), Ok(33));
    assert_eq!(prize_share_of(&l, 1), Ok(66));
    assert_eq!(pay_winning_pool_user(&mut l, 0, true), Ok(33));
    assert_eq!(pay_winning_pool_user(&mut l, 1, true), Ok(66));
    // Paid out: at most the prize, short by less than one unit per member.
    assert_eq!(l.game.winning_amount, 99);
    assert!(l.game.winning_amount <= 100 && l.game.winning_amount > 100 - 2);
    let u = l.users[1];
    assert_eq!(u.last_prediction, 0);
    assert_eq!(u.last_paid_game, Some(0));
    assert_eq!(u.game_history_count, 1);
    assert_eq!(u.current_average_balance, 2 * UNIT as u128);
    assert_eq!(u.current_weighted_balance, (2 * UNIT * GAME_DURATION_IN_DAYS) as u128);
    assert_eq!(u.balance, 2 * UNIT);
    assert_eq!(l.pools[0].total_deposit, 3 * UNIT);
    assert_eq!(l.pools[0].average_prediction, 0);
    assert!(l.check_wf());
}

#[test]
fn equal_stakes_share_exactly() {
    let mut l = Ledger::new(0, END);
    create_pool(&mut l, 4, 0).unwrap();
    for i in 0..4 {
        create_user(&mut l);
        deposit(&mut l, i, Pools::Ethereum, 3 * UNIT, Some(1), 0, true).unwrap();
    }
    resolve_round(&mut l, &vec![100, 100, 100, 1], 1000).unwrap();
    let mut paid = 0;
    for i in 0..4 {
        paid += pay_winning_pool_user(&mut l, i, true).unwrap();
    }
    assert_eq!(paid, 1000);
    assert_eq!(l.game.winning_amount, 1000);
}

#[test]
fn payout_errors() {
    let mut l = game_with_three_users();
    assert_eq!(pay_winning_pool_user(&mut l, 0, true), Err(ErrorCode::WrongRoundPhase));
    resolve_round(&mut l, &vec![12, 12, 500, 500], 100).unwrap();
    assert_eq!(pay_winning_pool_user(&mut l, 5, true), Err(ErrorCode::UserUnknown));
    assert_eq!(pay_winning_pool_user(&mut l, 2, true), Err(ErrorCode::NotInWinningPool));
    assert_eq!(pay_winning_pool_user(&mut l, 0, false), Err(ErrorCode::PaymentFailed));
    assert_eq!(l.users[0].last_paid_game, None);
    assert_eq!(l.game.winning_amount, 0);
    pay_winning_pool_user(&mut l, 0, true).unwrap();
    assert_eq!(pay_winning_pool_user(&mut l, 0, true), Err(ErrorCode::AlreadyPaid));
    assert_eq!(l.game.winning_amount, 33);
}

#[test]
fn jackpot_is_a_tenth_of_the_prize_paid_once() {
    assert_eq!(jackpot_amount(1000), 100);
    assert_eq!(jackpot_amount(99), 9);
    assert_eq!(jackpot_amount(u64::MAX), u64::MAX / 10);
    let mut l = game_with_three_users();
    assert_eq!(check_jackpot(&l, 1), Err(ErrorCode::WrongRoundPhase));
    resolve_round(&mut l, &vec![12, 12, 500, 500], 1000).unwrap();
    assert_eq!(check_jackpot(&l, 2), Err(ErrorCode::NotInWinningPool));
    assert_eq!(check_jackpot(&l, 1), Ok(100));
    assert_eq!(pay_jackpot_winner(&mut l, 1, false), Err(ErrorCode::PaymentFailed));
    assert!(!l.game.jackpot_paid);
    assert_eq!(pay_jackpot_winner(&mut l, 1, true), Ok(100));
    assert!(l.game.jackpot_paid);
    assert_eq!(pay_jackpot_winner(&mut l, 0, true), Err(ErrorCode::AlreadyPaid));
}

#[test]
fn next_round_carries_pools_and_restarts_weighting() {
    let mut l = game_with_three_users();
    assert_eq!(start_next_round(&mut l, 10, 20), Err(ErrorCode::WrongRoundPhase));
    resolve_round(&mut l, &vec![12, 12, 500, 500], 100).unwrap();
    pay_winning_pool_user(&mut l, 0, true).unwrap();
    assert_eq!(start_next_round(&mut l, END, 2 * END), Err(ErrorCode::WrongRoundPhase));
    assert_eq!(l.game.phase, RoundPhase::Resolving);
    pay_winning_pool_user(&mut l, 1, true).unwrap();
    let pools = l.pools.clone();
    let settled = start_next_round(&mut l, END, 2 * END).unwrap();
    assert_eq!(settled.phase, RoundPhase::Settled);
    assert_eq!(settled.game_id, 0);
    assert_eq!(settled.winning_pool, Some(Pools::Solana));
    assert_eq!(settled.winning_amount, 99);
    assert_eq!(l.game.game_id, 1);
    assert_eq!(l.game.phase, RoundPhase::Open);
    assert_eq!(l.game.start_time, END);
    assert_eq!(l.game.end_time, 2 * END);
    assert_eq!(l.game.winning_pool, None);
    assert_eq!(l.pools, pools);
    let u = l.users[2];
    assert_eq!(u.current_weighted_balance, (5 * UNIT * GAME_DURATION_IN_DAYS) as u128);
    assert_eq!(u.current_weighted_days, GAME_DURATION_IN_DAYS);
    assert_eq!(u.current_average_balance, 5 * UNIT as u128);
    assert_eq!(u.last_prediction, 9);
    assert!(l.check_wf());
    // The new round accepts deposits again, and a user paid last round can be paid again.
    deposit(&mut l, 0, Pools::Solana, UNIT, None, END, true).unwrap();
    // Both paid members had their predictions cleared: Solana averages 0.
    resolve_round(&mut l, &vec![5, 100, 100, 100], 10).unwrap();
    assert!(pay_winning_pool_user(&mut l, 0, true).is_ok());
}
