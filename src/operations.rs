use vstd::prelude::*;

use crate::accounting::{
    deposit_of, deposit_sum, lemma_sum_push, lemma_sum_zero, member_count, member_of,
    prediction_of, prediction_sum,
};
use crate::error::ErrorCode;
use crate::ledger::{accounts_consistent, can_reattribute, reattribute, user_wf, Ledger};
use crate::pools::{Pools, TransactionType};
use crate::records::{
    Pool, RoundPhase, Transaction, User, GAME_DURATION_IN_DAYS, MINIMUM_DEPOSIT,
};

verus! {

/// A pool as it is right after its creation.
pub open spec fn created_pool(name: Pools, now: i64) -> Pool {
    Pool {
        is_initialized: true,
        last_update_timestamp: now,
        total_deposit: 0,
        user_count: 0,
        name,
        prediction_total: 0,
        average_prediction: 0,
    }
}

/// A user as it is right after its creation.
pub open spec fn fresh_user() -> User {
    User {
        pool: None,
        last_prediction: 0,
        balance: 0,
        last_active: 0,
        game_history_count: 0,
        last_paid_game: None,
        current_average_balance: 0,
        current_weighted_balance: 0,
        current_weighted_days: GAME_DURATION_IN_DAYS,
        txn_count: 0,
    }
}

/// The user after a deposit of `amount` into `pool` with `days` days left in
/// the round: the amount joins the balance, and it enters the weighted average
/// with weight `days`.
pub open spec fn user_after_deposit(
    u: User,
    pool: Pools,
    amount: u64,
    prediction: Option<u64>,
    days: u64,
    now: i64,
) -> User {
    let wb = u.current_weighted_balance + days * amount;
    let wd = u.current_weighted_days + days;
    User {
        pool: Some(pool),
        balance: (u.balance + amount) as u64,
        last_prediction: match prediction {
            Some(x) => x,
            None => u.last_prediction,
        },
        current_weighted_balance: wb as u128,
        current_weighted_days: wd as u64,
        current_average_balance: (wb / wd) as u128,
        last_active: now,
        txn_count: (u.txn_count + 1) as u64,
        ..u
    }
}

/// Whether every field of the user stays in range through such a deposit.
pub open spec fn deposit_in_range(u: User, amount: u64, days: u64) -> bool {
    &&& u.balance + amount <= u64::MAX
    &&& u.current_weighted_balance + days * amount <= u128::MAX
    &&& u.current_weighted_days + days <= u64::MAX
    &&& u.txn_count < u64::MAX
}

/// The user after withdrawing `amount`: the weighted average restarts from
/// the remaining balance, the prediction is dropped, and a user left with
/// nothing leaves its pool.
pub open spec fn user_after_withdraw(u: User, amount: u64, now: i64) -> User {
    let b = u.balance - amount;
    User {
        pool: if b == 0 {
            None
        } else {
            u.pool
        },
        balance: b as u64,
        last_prediction: 0,
        current_average_balance: b as u128,
        current_weighted_balance: (b * GAME_DURATION_IN_DAYS) as u128,
        current_weighted_days: GAME_DURATION_IN_DAYS,
        last_active: now,
        txn_count: (u.txn_count + 1) as u64,
        ..u
    }
}

/// The record of a transaction of user `u`.
pub open spec fn record_of(
    u: User,
    pool: Pools,
    amount: u64,
    kind: TransactionType,
    now: i64,
) -> Transaction {
    Transaction { timestamp: now, amount, transaction_type: kind, index: u.txn_count, pool }
}

/// Why a deposit is rejected before any transfer, if it is.
pub open spec fn deposit_error(
    l: Ledger,
    user: usize,
    pool: Pools,
    amount: u64,
    prediction: Option<u64>,
    now: i64,
) -> Option<ErrorCode> {
    if user >= l.users@.len() {
        Some(ErrorCode::UserUnknown)
    } else if !l.pools@[pool.index() as int].is_initialized {
        Some(ErrorCode::PoolNotInitialized)
    } else if l.game.phase != RoundPhase::Open {
        Some(ErrorCode::WrongRoundPhase)
    } else if amount < MINIMUM_DEPOSIT {
        Some(ErrorCode::DepositInsufficient)
    } else {
        let u = l.users@[user as int];
        let days = l.game.days_left_spec(now) as u64;
        if !deposit_in_range(u, amount, days) || !can_reattribute(
            l.pools@,
            u,
            user_after_deposit(u, pool, amount, prediction, days, now),
        ) {
            Some(ErrorCode::Overflow)
        } else {
            None
        }
    }
}

/// Why a withdrawal is rejected before any transfer, if it is.
pub open spec fn withdraw_error(l: Ledger, user: usize, amount: u64, now: i64) -> Option<
    ErrorCode,
> {
    if user >= l.users@.len() {
        Some(ErrorCode::UserUnknown)
    } else if l.game.phase != RoundPhase::Open {
        Some(ErrorCode::WrongRoundPhase)
    } else if amount == 0 {
        Some(ErrorCode::InvalidWithdrawal)
    } else {
        let u = l.users@[user as int];
        if u.balance < amount {
            Some(ErrorCode::InsufficientBalance)
        } else if u.txn_count == u64::MAX || !can_reattribute(
            l.pools@,
            u,
            user_after_withdraw(u, amount, now),
        ) {
            Some(ErrorCode::Overflow)
        } else {
            None
        }
    }
}

/// Why a new prediction is rejected, if it is.
pub open spec fn prediction_error(l: Ledger, user: usize, pool: Pools, prediction: u64) -> Option<
    ErrorCode,
> {
    if user >= l.users@.len() {
        Some(ErrorCode::UserUnknown)
    } else if l.game.phase != RoundPhase::Open {
        Some(ErrorCode::WrongRoundPhase)
    } else {
        let u = l.users@[user as int];
        match u.pool {
            None => Some(ErrorCode::NotInPool),
            Some(q) => if q != pool {
                Some(ErrorCode::MultiplePoolNotAllowed)
            } else if !can_reattribute(l.pools@, u, User { last_prediction: prediction, ..u }) {
                Some(ErrorCode::Overflow)
            } else {
                None
            },
        }
    }
}

/// The outcome of a check that found the error `e`, if any.
pub open spec fn as_result(e: Option<ErrorCode>) -> Result<(), ErrorCode> {
    match e {
        Some(e) => Err(e),
        None => Ok(()),
    }
}

/// Creates the pool with stored code `pool_name`.
pub fn create_pool(ledger: &mut Ledger, pool_name: u8, now: i64) -> (r: Result<(), ErrorCode>)
    requires
        old(ledger).wf(),
    ensures
        final(ledger).wf(),
        Pools::of_code(pool_name) is None ==> r == Err::<(), ErrorCode>(ErrorCode::PoolUnknown),
        Pools::of_code(pool_name) matches Some(p) ==> {
            if old(ledger).pools@[p.index() as int].is_initialized {
                r == Err::<(), ErrorCode>(ErrorCode::PoolAlreadyCreated)
            } else {
                &&& r is Ok
                &&& final(ledger).pools@ == old(ledger).pools@.update(
                    p.index() as int,
                    created_pool(p, now),
                )
                &&& final(ledger).users@ == old(ledger).users@
                &&& final(ledger).game == old(ledger).game
            }
        },
        r is Err ==> *final(ledger) == *old(ledger),
{
    let p = match Pools::from(pool_name) {
        Ok(p) => p,
        Err(e) => {
            return Err(e);
        },
    };
    let k = p.to_index();
    if ledger.pools[k].is_initialized {
        return Err(ErrorCode::PoolAlreadyCreated);
    }
    let ghost users = ledger.users@;
    let ghost pools = ledger.pools@;
    proof {
        assert forall|j: int| 0 <= j < users.len() implies {
            &&& #[trigger] deposit_of(p)(users[j]) == 0
            &&& member_of(p)(users[j]) == 0
            &&& prediction_of(p)(users[j]) == 0
        } by {
            if let Some(q) = users[j].pool {
                q.lemma_index_at();
                p.lemma_index_at();
            }
        }
        assert forall|j: int| 0 <= j < users.len() implies #[trigger] member_of(p)(users[j]) == 0 by {
            assert(deposit_of(p)(users[j]) == 0);
        }
        assert forall|j: int| 0 <= j < users.len() implies #[trigger] prediction_of(p)(users[j]) == 0 by {
            assert(deposit_of(p)(users[j]) == 0);
        }
        lemma_sum_zero(users, deposit_of(p));
        lemma_sum_zero(users, member_of(p));
        lemma_sum_zero(users, prediction_of(p));
    }
    let pool = Pool {
        is_initialized: true,
        last_update_timestamp: now,
        total_deposit: 0,
        user_count: 0,
        name: p,
        prediction_total: 0,
        average_prediction: 0,
    };
    ledger.pools.set(k, pool);
    proof {
        let np = ledger.pools@;
        assert forall|j: int| 0 <= j < users.len() implies {
            &&& user_wf(#[trigger] users[j])
            &&& (users[j].pool matches Some(q) ==> np[q.index() as int].is_initialized)
        } by {
            if let Some(q) = users[j].pool {
                q.lemma_index_at();
            }
        }
        assert(accounts_consistent(np, users));
    }
    Ok(())
}

/// Adds a new user with nothing staked and returns its identifier.
pub fn create_user(ledger: &mut Ledger) -> (id: usize)
    requires
        old(ledger).wf(),
    ensures
        final(ledger).wf(),
        id == old(ledger).users@.len(),
        final(ledger).users@ == old(ledger).users@.push(fresh_user()),
        final(ledger).pools@ == old(ledger).pools@,
        final(ledger).game == old(ledger).game,
{
    let user = User {
        pool: None,
        last_prediction: 0,
        balance: 0,
        last_active: 0,
        game_history_count: 0,
        last_paid_game: None,
        current_average_balance: 0,
        current_weighted_balance: 0,
        current_weighted_days: GAME_DURATION_IN_DAYS,
        txn_count: 0,
    };
    let id = ledger.users.len();
    let ghost users = ledger.users@;
    let ghost pools = ledger.pools@;
    ledger.users.push(user);
    proof {
        assert forall|k: int| 0 <= k < pools.len() implies {
            let p = (#[trigger] pools[k]).name;
            &&& deposit_sum(users.push(user), p) == deposit_sum(users, p)
            &&& member_count(users.push(user), p) == member_count(users, p)
            &&& prediction_sum(users.push(user), p) == prediction_sum(users, p)
        } by {
            let p = pools[k].name;
            lemma_sum_push(users, user, deposit_of(p));
            lemma_sum_push(users, user, member_of(p));
            lemma_sum_push(users, user, prediction_of(p));
        }
        let nu = ledger.users@;
        assert forall|j: int| 0 <= j < nu.len() implies {
            &&& user_wf(#[trigger] nu[j])
            &&& (nu[j].pool matches Some(q) ==> pools[q.index() as int].is_initialized)
        } by {
            if j < users.len() {
                assert(nu[j] == users[j]);
            }
        }
    }
    id
}

/// Checks a deposit before the transfer that backs it is attempted.
pub fn check_deposit(
    ledger: &Ledger,
    user: usize,
    pool: Pools,
    amount: u64,
    prediction: Option<u64>,
    now: i64,
) -> (r: Result<(), ErrorCode>)
    requires
        ledger.wf(),
    ensures
        r == as_result(deposit_error(*ledger, user, pool, amount, prediction, now)),
{
    if user >= ledger.users.len() {
        return Err(ErrorCode::UserUnknown);
    }
    if !ledger.pools[pool.to_index()].is_initialized {
        return Err(ErrorCode::PoolNotInitialized);
    }
    if ledger.game.phase != RoundPhase::Open {
        return Err(ErrorCode::WrongRoundPhase);
    }
    if amount < MINIMUM_DEPOSIT {
        return Err(ErrorCode::DepositInsufficient);
    }
    let u = ledger.users[user];
    let days = ledger.game.days_left(now);
    let added: u128 = weighted_amount(days, amount);
    if u.balance > u64::MAX - amount || u.current_weighted_balance > u128::MAX - added
        || u.current_weighted_days > u64::MAX - days || u.txn_count == u64::MAX {
        return Err(ErrorCode::Overflow);
    }
    let nu = deposited_user(&u, pool, amount, prediction, days, now);
    if !ledger.can_replace_user(user, &nu) {
        return Err(ErrorCode::Overflow);
    }
    Ok(())
}

/// `days * amount`, which always fits in a `u128`.
fn weighted_amount(days: u64, amount: u64) -> (r: u128)
    ensures
        r == days * amount,
{
    assert(days * amount <= u128::MAX) by (nonlinear_arith)
        requires
            days <= u64::MAX,
            amount <= u64::MAX,
    ;
    days as u128 * amount as u128
}

fn deposited_user(
    u: &User,
    pool: Pools,
    amount: u64,
    prediction: Option<u64>,
    days: u64,
    now: i64,
) -> (r: User)
    requires
        deposit_in_range(*u, amount, days),
        u.current_weighted_days > 0,
    ensures
        r == user_after_deposit(*u, pool, amount, prediction, days, now),
{
    let wb: u128 = u.current_weighted_balance + weighted_amount(days, amount);
    let wd: u64 = u.current_weighted_days + days;
    User {
        pool: Some(pool),
        balance: u.balance + amount,
        last_prediction: match prediction {
            Some(x) => x,
            None => u.last_prediction,
        },
        current_weighted_balance: wb,
        current_weighted_days: wd,
        current_average_balance: wb / (wd as u128),
        last_active: now,
        txn_count: u.txn_count + 1,
        ..*u
    }
}

/// Deposits `amount` of user `user` into `pool`, optionally with a new
/// prediction. `transfer_confirmed` tells whether the custody transfer of the
/// amount into the pool was confirmed; without it nothing changes.
pub fn deposit(
    ledger: &mut Ledger,
    user: usize,
    pool: Pools,
    amount: u64,
    prediction: Option<u64>,
    now: i64,
    transfer_confirmed: bool,
) -> (r: Result<Transaction, ErrorCode>)
    requires
        old(ledger).wf(),
    ensures
        final(ledger).wf(),
        deposit_error(*old(ledger), user, pool, amount, prediction, now) matches Some(e) ==> r
            == Err::<Transaction, ErrorCode>(e),
        deposit_error(*old(ledger), user, pool, amount, prediction, now) is None
            && !transfer_confirmed ==> r == Err::<Transaction, ErrorCode>(ErrorCode::PaymentFailed),
        deposit_error(*old(ledger), user, pool, amount, prediction, now) is None
            && transfer_confirmed ==> {
            let u = old(ledger).users@[user as int];
            let days = old(ledger).game.days_left_spec(now) as u64;
            let nu = user_after_deposit(u, pool, amount, prediction, days, now);
            let k = pool.index() as int;
            &&& r == Ok::<Transaction, ErrorCode>(
                record_of(u, pool, amount, TransactionType::Deposit, now),
            )
            &&& final(ledger).users@ == old(ledger).users@.update(user as int, nu)
            &&& final(ledger).pools@ == reattribute(old(ledger).pools@, u, nu)
            &&& final(ledger).game == old(ledger).game
            &&& final(ledger).users@[user as int].balance == u.balance + amount
            &&& final(ledger).users@[user as int].pool == Some(pool)
            &&& u.pool == Some(pool) ==> final(ledger).pools@[k].total_deposit == old(
                ledger,
            ).pools@[k].total_deposit + amount && final(ledger).pools@[k].user_count == old(
                ledger,
            ).pools@[k].user_count
            &&& u.pool != Some(pool) ==> final(ledger).pools@[k].total_deposit == old(
                ledger,
            ).pools@[k].total_deposit + u.balance + amount && final(ledger).pools@[k].user_count
                == old(ledger).pools@[k].user_count + 1
            &&& u.pool is Some && u.pool->Some_0 != pool ==> {
                let j = u.pool->Some_0.index() as int;
                &&& final(ledger).pools@[j].total_deposit == old(ledger).pools@[j].total_deposit
                    - u.balance
                &&& final(ledger).pools@[j].user_count == old(ledger).pools@[j].user_count - 1
            }
        },
        r is Err ==> *final(ledger) == *old(ledger),
{
    match check_deposit(ledger, user, pool, amount, prediction, now) {
        Err(e) => {
            return Err(e);
        },
        Ok(()) => {},
    }
    if !transfer_confirmed {
        return Err(ErrorCode::PaymentFailed);
    }
    let u = ledger.users[user];
    let days = ledger.game.days_left(now);
    let nu = deposited_user(&u, pool, amount, prediction, days, now);
    ledger.replace_user(user, nu);
    proof {
        assert(user_wf(u));
        pool.lemma_index_at();
        if let Some(q) = u.pool {
            q.lemma_index_at();
        }
    }
    Ok(
        Transaction {
            timestamp: now,
            amount,
            transaction_type: TransactionType::Deposit,
            index: u.txn_count,
            pool,
        },
    )
}

fn withdrawn_user(u: &User, amount: u64, now: i64) -> (r: User)
    requires
        u.balance >= amount,
        u.txn_count < u64::MAX,
    ensures
        r == user_after_withdraw(*u, amount, now),
{
    let b: u64 = u.balance - amount;
    User {
        pool: if b == 0 {
            None
        } else {
            u.pool
        },
        balance: b,
        last_prediction: 0,
        current_average_balance: b as u128,
        current_weighted_balance: b as u128 * GAME_DURATION_IN_DAYS as u128,
        current_weighted_days: GAME_DURATION_IN_DAYS,
        last_active: now,
        txn_count: u.txn_count + 1,
        ..*u
    }
}

/// Checks a withdrawal before the transfer that backs it is attempted.
pub fn check_withdraw(ledger: &Ledger, user: usize, amount: u64, now: i64) -> (r: Result<
    (),
    ErrorCode,
>)
    requires
        ledger.wf(),
    ensures
        r == as_result(withdraw_error(*ledger, user, amount, now)),
{
    if user >= ledger.users.len() {
        return Err(ErrorCode::UserUnknown);
    }
    if ledger.game.phase != RoundPhase::Open {
        return Err(ErrorCode::WrongRoundPhase);
    }
    if amount == 0 {
        return Err(ErrorCode::InvalidWithdrawal);
    }
    let u = ledger.users[user];
    if u.balance < amount {
        return Err(ErrorCode::InsufficientBalance);
    }
    if u.txn_count == u64::MAX {
        return Err(ErrorCode::Overflow);
    }
    let nu = withdrawn_user(&u, amount, now);
    if !ledger.can_replace_user(user, &nu) {
        return Err(ErrorCode::Overflow);
    }
    Ok(())
}

/// Withdraws `amount` of user `user` from its pool. `transfer_confirmed` tells
/// whether the custody transfer of the amount back to the user was confirmed;
/// without it nothing changes.
pub fn withdraw(ledger: &mut Ledger, user: usize, amount: u64, now: i64, transfer_confirmed: bool) -> (r:
    Result<Transaction, ErrorCode>)
    requires
        old(ledger).wf(),
    ensures
        final(ledger).wf(),
        withdraw_error(*old(ledger), user, amount, now) matches Some(e) ==> r == Err::<
            Transaction,
            ErrorCode,
        >(e),
        withdraw_error(*old(ledger), user, amount, now) is None && !transfer_confirmed ==> r
            == Err::<Transaction, ErrorCode>(ErrorCode::PaymentFailed),
        withdraw_error(*old(ledger), user, amount, now) is None && transfer_confirmed ==> {
            let u = old(ledger).users@[user as int];
            let nu = user_after_withdraw(u, amount, now);
            let k = u.pool->Some_0.index() as int;
            &&& u.pool is Some
            &&& r == Ok::<Transaction, ErrorCode>(
                record_of(u, u.pool->Some_0, amount, TransactionType::Withdrawal, now),
            )
            &&& final(ledger).users@ == old(ledger).users@.update(user as int, nu)
            &&& final(ledger).pools@ == reattribute(old(ledger).pools@, u, nu)
            &&& final(ledger).game == old(ledger).game
            &&& final(ledger).users@[user as int].balance == u.balance - amount
            &&& final(ledger).pools@[k].total_deposit == old(ledger).pools@[k].total_deposit
                - amount
            &&& u.balance == amount ==> final(ledger).pools@[k].user_count == old(
                ledger,
            ).pools@[k].user_count - 1 && final(ledger).users@[user as int].pool is None
            &&& u.balance > amount ==> final(ledger).pools@[k].user_count == old(
                ledger,
            ).pools@[k].user_count && final(ledger).users@[user as int].pool == u.pool
        },
        r is Err ==> *final(ledger) == *old(ledger),
{
    match check_withdraw(ledger, user, amount, now) {
        Err(e) => {
            return Err(e);
        },
        Ok(()) => {},
    }
    if !transfer_confirmed {
        return Err(ErrorCode::PaymentFailed);
    }
    let u = ledger.users[user];
    proof {
        assert(user_wf(u));
    }
    let pool = u.pool.unwrap();
    let nu = withdrawn_user(&u, amount, now);
    ledger.replace_user(user, nu);
    proof {
        pool.lemma_index_at();
    }
    Ok(
        Transaction {
            timestamp: now,
            amount,
            transaction_type: TransactionType::Withdrawal,
            index: u.txn_count,
            pool,
        },
    )
}

/// Replaces the prediction that user `user` contributes to `pool`.
pub fn make_prediction(ledger: &mut Ledger, user: usize, pool: Pools, prediction: u64) -> (r:
    Result<(), ErrorCode>)
    requires
        old(ledger).wf(),
    ensures
        final(ledger).wf(),
        r == as_result(prediction_error(*old(ledger), user, pool, prediction)),
        r is Ok ==> {
            let u = old(ledger).users@[user as int];
            let nu = User { last_prediction: prediction, ..u };
            &&& final(ledger).users@ == old(ledger).users@.update(user as int, nu)
            &&& final(ledger).pools@ == reattribute(old(ledger).pools@, u, nu)
            &&& final(ledger).game == old(ledger).game
        },
        r is Err ==> *final(ledger) == *old(ledger),
{
    if user >= ledger.users.len() {
        return Err(ErrorCode::UserUnknown);
    }
    if ledger.game.phase != RoundPhase::Open {
        return Err(ErrorCode::WrongRoundPhase);
    }
    let u = ledger.users[user];
    match u.pool {
        None => {
            return Err(ErrorCode::NotInPool);
        },
        Some(q) => {
            if q != pool {
                return Err(ErrorCode::MultiplePoolNotAllowed);
            }
        },
    }
    let nu = User { last_prediction: prediction, ..u };
    if !ledger.can_replace_user(user, &nu) {
        return Err(ErrorCode::Overflow);
    }
    proof {
        assert(user_wf(u));
        if let Some(q) = u.pool {
            q.lemma_index_at();
        }
    }
    ledger.replace_user(user, nu);
    Ok(())
}

/// One deposit of a user: where, how much, with which prediction, how many
/// days before the end of the round, and when.
pub struct DepositStep {
    pub pool: Pools,
    pub amount: u64,
    pub prediction: Option<u64>,
    pub days_left: u64,
    pub now: i64,
}

/// The user after the deposits `steps`, in order.
pub open spec fn deposits_applied(u: User, steps: Seq<DepositStep>) -> User
    decreases steps.len(),
{
    if steps.len() == 0 {
        u
    } else {
        let s = steps.last();
        user_after_deposit(
            deposits_applied(u, steps.drop_last()),
            s.pool,
            s.amount,
            s.prediction,
            s.days_left,
            s.now,
        )
    }
}

/// The sum of the days-weighted amounts of the deposits `steps`.
pub open spec fn weighted_total(steps: Seq<DepositStep>) -> int
    decreases steps.len(),
{
    if steps.len() == 0 {
        0
    } else {
        weighted_total(steps.drop_last()) + steps.last().days_left * steps.last().amount
    }
}

/// The sum of the days left at the deposits `steps`.
pub open spec fn days_total(steps: Seq<DepositStep>) -> int
    decreases steps.len(),
{
    if steps.len() == 0 {
        0
    } else {
        days_total(steps.drop_last()) + steps.last().days_left
    }
}

/// The sum of the amounts of the deposits `steps`.
pub open spec fn amount_total(steps: Seq<DepositStep>) -> int
    decreases steps.len(),
{
    if steps.len() == 0 {
        0
    } else {
        amount_total(steps.drop_last()) + steps.last().amount
    }
}

/// After a run of deposits with no withdrawal between them, each accepted in
/// range, the weighted balance is the initial one plus the sum of the
/// deposits' days-weighted amounts, the weight is the initial one plus the
/// sum of their days left, and the balance has grown by their sum.
pub proof fn lemma_weighted_balance_of_deposits(u: User, steps: Seq<DepositStep>)
    requires
        forall|k: int|
            0 <= k < steps.len() ==> deposit_in_range(
                deposits_applied(u, steps.take(k)),
                (#[trigger] steps[k]).amount,
                steps[k].days_left,
            ),
    ensures
        deposits_applied(u, steps).current_weighted_balance == u.current_weighted_balance
            + weighted_total(steps),
        deposits_applied(u, steps).current_weighted_days == u.current_weighted_days + days_total(
            steps,
        ),
        deposits_applied(u, steps).balance == u.balance + amount_total(steps),
    decreases steps.len(),
{
    if steps.len() > 0 {
        let init = steps.drop_last();
        let k = steps.len() - 1;
        assert forall|j: int|
            0 <= j < init.len() implies deposit_in_range(
            deposits_applied(u, init.take(j)),
            (#[trigger] init[j]).amount,
            init[j].days_left,
        ) by {
            assert(init.take(j) =~= steps.take(j));
            assert(init[j] == steps[j]);
        }
        lemma_weighted_balance_of_deposits(u, init);
        assert(steps.take(k) =~= init);
        assert(deposit_in_range(deposits_applied(u, init), steps[k].amount, steps[k].days_left));
    }
}

} // verus!
