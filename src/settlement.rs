use vstd::prelude::*;

use crate::accounting::{
    deposit_of, deposit_sum, lemma_sum_congruent, lemma_sum_scaled_bound,
    lemma_term_le_sum, member_count, member_of, prediction_of, sum_over,
};
use crate::error::ErrorCode;
use crate::ledger::{accounts_consistent, can_reattribute, reattribute, user_wf, Ledger};
use crate::pools::{Pools, NUM_POOLS};
use crate::records::{
    Game, Pool, RoundPhase, User, GAME_DURATION_IN_DAYS, JACKPOT_WINNER_PERCENTAGE,
};

verus! {

/// Distance between a prediction and a reference price.
pub open spec fn delta(prediction: u64, price: u64) -> int {
    if prediction >= price {
        prediction - price
    } else {
        price - prediction
    }
}

/// Position `i` holds the first prediction closest to its price.
pub open spec fn is_closest(predictions: Seq<u64>, prices: Seq<u64>, i: int) -> bool {
    &&& 0 <= i < predictions.len()
    &&& forall|j: int|
        0 <= j < predictions.len() ==> delta(predictions[i], prices[i]) <= delta(
            #[trigger] predictions[j],
            prices[j],
        )
    &&& forall|j: int|
        0 <= j < i ==> delta(predictions[i], prices[i]) < delta(
            #[trigger] predictions[j],
            prices[j],
        )
}

/// The three per-pool inputs have the same length.
pub open spec fn sizes_match(names: Seq<u8>, predictions: Seq<u64>, prices: Seq<u64>) -> bool {
    &&& names.len() == predictions.len()
    &&& predictions.len() == prices.len()
}

/// The names are exactly the codes of the four pools, in canonical order.
pub open spec fn names_canonical(names: Seq<u8>) -> bool {
    &&& names.len() == NUM_POOLS
    &&& forall|i: int| 0 <= i < NUM_POOLS ==> #[trigger] names[i] == Pools::at(i).code()
}

/// The average predictions of the pools, in canonical order.
pub open spec fn pool_averages(pools: Seq<Pool>) -> Seq<u64> {
    pools.map_values(|p: Pool| p.average_prediction)
}

/// A member's share of the prize: its part of the pool's total deposit,
/// rounded down.
pub open spec fn prize_share(balance: int, total: int, prize: int) -> int {
    if total <= 0 {
        0
    } else {
        balance * prize / total
    }
}

/// What a user of pool `p` receives when the pool holds `total` and wins `prize`.
pub open spec fn share_of(p: Pools, total: int, prize: int) -> spec_fn(User) -> int {
    |u: User|
        if u.pool == Some(p) {
            prize_share(u.balance as int, total, prize)
        } else {
            0
        }
}

/// A user whose round credit has been consumed: its weighted average starts
/// over from its balance.
pub open spec fn restarted(u: User) -> User {
    User {
        current_average_balance: u.balance as u128,
        current_weighted_balance: (u.balance * GAME_DURATION_IN_DAYS) as u128,
        current_weighted_days: GAME_DURATION_IN_DAYS,
        ..u
    }
}

/// Every user restarted.
pub open spec fn restarted_all(users: Seq<User>) -> Seq<User> {
    users.map_values(|u: User| restarted(u))
}

/// The user after receiving its share in round `game_id`.
pub open spec fn user_after_payout(u: User, game_id: u64) -> User {
    User {
        last_prediction: 0,
        last_paid_game: Some(game_id),
        game_history_count: (u.game_history_count + 1) as u64,
        ..restarted(u)
    }
}

/// The share of user `user` in the current round's prize.
pub open spec fn payout_of(l: Ledger, user: usize) -> int {
    let u = l.users@[user as int];
    let w = l.game.winning_pool->Some_0;
    prize_share(
        u.balance as int,
        l.pools@[w.index() as int].total_deposit as int,
        l.game.total_prize as int,
    )
}

/// Why a payout is rejected before any transfer, if it is.
pub open spec fn payout_error(l: Ledger, user: usize) -> Option<ErrorCode> {
    if user >= l.users@.len() {
        Some(ErrorCode::UserUnknown)
    } else if l.game.phase != RoundPhase::Resolving {
        Some(ErrorCode::WrongRoundPhase)
    } else {
        let u = l.users@[user as int];
        if u.pool is None || u.pool != l.game.winning_pool {
            Some(ErrorCode::NotInWinningPool)
        } else if u.last_paid_game == Some(l.game.game_id) {
            Some(ErrorCode::AlreadyPaid)
        } else if l.game.winning_amount + payout_of(l, user) > u64::MAX || u.game_history_count
            == u64::MAX || !can_reattribute(
            l.pools@,
            u,
            user_after_payout(u, l.game.game_id),
        ) {
            Some(ErrorCode::Overflow)
        } else {
            None
        }
    }
}

/// Picks the pool whose prediction lies closest to its reference price; on a
/// tie the pool first in canonical order wins. The inputs must have the same
/// length, and the names must list the four pools in canonical order.
pub fn select_winning_pool(
    pool_names: &Vec<u8>,
    pool_predictions: &Vec<u64>,
    pool_coin_prices: &Vec<u64>,
) -> (r: Result<Pools, ErrorCode>)
    ensures
        !sizes_match(pool_names@, pool_predictions@, pool_coin_prices@) ==> r == Err::<
            Pools,
            ErrorCode,
        >(ErrorCode::PoolsDataSizeDoNotMatch),
        sizes_match(pool_names@, pool_predictions@, pool_coin_prices@) && !names_canonical(
            pool_names@,
        ) ==> r == Err::<Pools, ErrorCode>(ErrorCode::PoolsInWrongOrder),
        sizes_match(pool_names@, pool_predictions@, pool_coin_prices@) && names_canonical(
            pool_names@,
        ) ==> (r matches Ok(p) && is_closest(
            pool_predictions@,
            pool_coin_prices@,
            p.index() as int,
        )),
{
    if pool_names.len() != pool_predictions.len() || pool_predictions.len()
        != pool_coin_prices.len() {
        return Err(ErrorCode::PoolsDataSizeDoNotMatch);
    }
    if pool_names.len() != NUM_POOLS {
        return Err(ErrorCode::PoolsInWrongOrder);
    }
    let mut i: usize = 0;
    while i < NUM_POOLS
        invariant
            0 <= i <= NUM_POOLS,
            sizes_match(pool_names@, pool_predictions@, pool_coin_prices@),
            pool_names@.len() == NUM_POOLS,
            forall|j: int| 0 <= j < i ==> #[trigger] pool_names@[j] == Pools::at(j).code(),
        decreases NUM_POOLS - i,
    {
        if pool_names[i] != Pools::from_index(i).to_code() {
            return Err(ErrorCode::PoolsInWrongOrder);
        }
        i = i + 1;
    }
    let mut best: usize = 0;
    let mut best_delta: u64 = distance(pool_predictions[0], pool_coin_prices[0]);
    let mut i: usize = 1;
    while i < NUM_POOLS
        invariant
            1 <= i <= NUM_POOLS,
            pool_predictions@.len() == NUM_POOLS,
            pool_coin_prices@.len() == NUM_POOLS,
            best < i,
            best_delta == delta(pool_predictions@[best as int], pool_coin_prices@[best as int]),
            forall|j: int|
                0 <= j < i ==> best_delta <= delta(
                    #[trigger] pool_predictions@[j],
                    pool_coin_prices@[j],
                ),
            forall|j: int|
                0 <= j < best ==> best_delta < delta(
                    #[trigger] pool_predictions@[j],
                    pool_coin_prices@[j],
                ),
        decreases NUM_POOLS - i,
    {
        let d = distance(pool_predictions[i], pool_coin_prices[i]);
        if d < best_delta {
            best = i;
            best_delta = d;
        }
        i = i + 1;
    }
    let w = Pools::from_index(best);
    Ok(w)
}

fn distance(prediction: u64, price: u64) -> (r: u64)
    ensures
        r == delta(prediction, price),
{
    if prediction >= price {
        prediction - price
    } else {
        price - prediction
    }
}

/// Closes the current round for deposits: picks the winning pool from the
/// pools' average predictions and the reference prices, in canonical order,
/// and records it with the prize to share.
pub fn resolve_round(ledger: &mut Ledger, pool_coin_prices: &Vec<u64>, total_prize: u64) -> (r:
    Result<Pools, ErrorCode>)
    requires
        old(ledger).wf(),
    ensures
        final(ledger).wf(),
        old(ledger).game.phase != RoundPhase::Open ==> r == Err::<Pools, ErrorCode>(
            ErrorCode::WrongRoundPhase,
        ),
        old(ledger).game.phase == RoundPhase::Open && pool_coin_prices@.len() != NUM_POOLS ==> r
            == Err::<Pools, ErrorCode>(ErrorCode::PoolsDataSizeDoNotMatch),
        old(ledger).game.phase == RoundPhase::Open && pool_coin_prices@.len() == NUM_POOLS ==> {
            &&& r matches Ok(w)
            &&& is_closest(
                pool_averages(old(ledger).pools@),
                pool_coin_prices@,
                w.index() as int,
            )
            &&& final(ledger).game == (Game {
                phase: RoundPhase::Resolving,
                winning_pool: Some(w),
                total_prize,
                winning_amount: 0,
                jackpot_paid: false,
                ..old(ledger).game
            })
            &&& final(ledger).pools@ == old(ledger).pools@
            &&& final(ledger).users@ == old(ledger).users@
        },
        r is Err ==> *final(ledger) == *old(ledger),
{
    if ledger.game.phase != RoundPhase::Open {
        return Err(ErrorCode::WrongRoundPhase);
    }
    let mut names: Vec<u8> = Vec::new();
    let mut predictions: Vec<u64> = Vec::new();
    let mut i: usize = 0;
    while i < NUM_POOLS
        invariant
            0 <= i <= NUM_POOLS,
            ledger.wf(),
            names@.len() == i,
            predictions@.len() == i,
            forall|j: int| 0 <= j < i ==> #[trigger] names@[j] == Pools::at(j).code(),
            forall|j: int|
                0 <= j < i ==> #[trigger] predictions@[j] == ledger.pools@[j].average_prediction,
        decreases NUM_POOLS - i,
    {
        names.push(Pools::from_index(i).to_code());
        predictions.push(ledger.pools[i].average_prediction);
        i = i + 1;
    }
    proof {
        assert(predictions@ =~= pool_averages(ledger.pools@));
    }
    let w = match select_winning_pool(&names, &predictions, pool_coin_prices) {
        Ok(w) => w,
        Err(e) => {
            return Err(e);
        },
    };
    ledger.game = Game {
        phase: RoundPhase::Resolving,
        winning_pool: Some(w),
        total_prize,
        winning_amount: 0,
        jackpot_paid: false,
        ..ledger.game
    };
    Ok(w)
}

/// The share of the prize that user `user` is owed, checked before the
/// transfer that pays it is attempted.
pub fn prize_share_of(ledger: &Ledger, user: usize) -> (r: Result<u64, ErrorCode>)
    requires
        ledger.wf(),
    ensures
        payout_error(*ledger, user) matches Some(e) ==> r == Err::<u64, ErrorCode>(e),
        payout_error(*ledger, user) is None ==> (r matches Ok(s) && s == payout_of(*ledger, user)),
{
    if user >= ledger.users.len() {
        return Err(ErrorCode::UserUnknown);
    }
    if ledger.game.phase != RoundPhase::Resolving {
        return Err(ErrorCode::WrongRoundPhase);
    }
    let u = ledger.users[user];
    let w = match (u.pool, ledger.game.winning_pool) {
        (Some(q), Some(w)) => {
            if q != w {
                return Err(ErrorCode::NotInWinningPool);
            }
            w
        },
        _ => {
            return Err(ErrorCode::NotInWinningPool);
        },
    };
    match u.last_paid_game {
        Some(g) => {
            if g == ledger.game.game_id {
                return Err(ErrorCode::AlreadyPaid);
            }
        },
        None => {},
    }
    let total = ledger.pools[w.to_index()].total_deposit;
    proof {
        let users = ledger.users@;
        w.lemma_index_at();
        assert(user_wf(u));
        lemma_term_le_sum(users, user as int, deposit_of(w));
    }
    let share = share_amount(u.balance, total, ledger.game.total_prize);
    if ledger.game.winning_amount > u64::MAX - share || u.game_history_count == u64::MAX {
        return Err(ErrorCode::Overflow);
    }
    let nu = paid_user(&u, ledger.game.game_id);
    if !ledger.can_replace_user(user, &nu) {
        return Err(ErrorCode::Overflow);
    }
    Ok(share)
}

/// `balance * prize / total`, which never exceeds the prize.
fn share_amount(balance: u64, total: u64, prize: u64) -> (r: u64)
    requires
        0 < balance <= total,
    ensures
        r == prize_share(balance as int, total as int, prize as int),
        r <= prize,
{
    assert(balance * prize <= u128::MAX) by (nonlinear_arith)
        requires
            balance <= u64::MAX,
            prize <= u64::MAX,
    ;
    let product: u128 = balance as u128 * prize as u128;
    let share: u128 = product / total as u128;
    assert(share <= prize) by (nonlinear_arith)
        requires
            share == (balance * prize) / (total as int),
            0 < balance <= total,
            0 <= prize,
    ;
    share as u64
}

fn paid_user(u: &User, game_id: u64) -> (r: User)
    requires
        u.game_history_count < u64::MAX,
    ensures
        r == user_after_payout(*u, game_id),
{
    assert(u.balance * GAME_DURATION_IN_DAYS <= u128::MAX);
    User {
        last_prediction: 0,
        last_paid_game: Some(game_id),
        game_history_count: u.game_history_count + 1,
        current_average_balance: u.balance as u128,
        current_weighted_balance: u.balance as u128 * GAME_DURATION_IN_DAYS as u128,
        current_weighted_days: GAME_DURATION_IN_DAYS,
        ..*u
    }
}

/// Pays user `user` its share of the prize of the resolving round.
/// `transfer_confirmed` tells whether the custody transfer of the share to the
/// user was confirmed; without it nothing changes. On success the user's round
/// credit is consumed and its prediction cleared.
pub fn pay_winning_pool_user(ledger: &mut Ledger, user: usize, transfer_confirmed: bool) -> (r:
    Result<u64, ErrorCode>)
    requires
        old(ledger).wf(),
    ensures
        final(ledger).wf(),
        payout_error(*old(ledger), user) matches Some(e) ==> r == Err::<u64, ErrorCode>(e),
        payout_error(*old(ledger), user) is None && !transfer_confirmed ==> r == Err::<
            u64,
            ErrorCode,
        >(ErrorCode::PaymentFailed),
        payout_error(*old(ledger), user) is None && transfer_confirmed ==> {
            let u = old(ledger).users@[user as int];
            let nu = user_after_payout(u, old(ledger).game.game_id);
            let s = payout_of(*old(ledger), user);
            &&& r matches Ok(paid) && paid == s
            &&& final(ledger).users@ == old(ledger).users@.update(user as int, nu)
            &&& final(ledger).pools@ == reattribute(old(ledger).pools@, u, nu)
            &&& final(ledger).game == (Game {
                winning_amount: (old(ledger).game.winning_amount + s) as u64,
                ..old(ledger).game
            })
            &&& final(ledger).users@[user as int].balance == u.balance
            &&& forall|k: int|
                0 <= k < NUM_POOLS ==> (#[trigger] final(ledger).pools@[k]).total_deposit == old(
                    ledger,
                ).pools@[k].total_deposit && final(ledger).pools@[k].user_count == old(
                    ledger,
                ).pools@[k].user_count
        },
        r is Err ==> *final(ledger) == *old(ledger),
{
    let share = match prize_share_of(ledger, user) {
        Ok(s) => s,
        Err(e) => {
            return Err(e);
        },
    };
    if !transfer_confirmed {
        return Err(ErrorCode::PaymentFailed);
    }
    let u = ledger.users[user];
    let nu = paid_user(&u, ledger.game.game_id);
    proof {
        assert(user_wf(u));
        if let Some(q) = u.pool {
            q.lemma_index_at();
        }
    }
    ledger.replace_user(user, nu);
    ledger.game = Game { winning_amount: ledger.game.winning_amount + share, ..ledger.game };
    Ok(share)
}

/// Some member of the winning pool has not been paid in the current round.
pub open spec fn winners_unpaid(l: Ledger) -> bool {
    exists|j: int|
        0 <= j < l.users@.len() && (#[trigger] l.users@[j]).pool is Some && l.users@[j].pool
            == l.game.winning_pool && l.users@[j].last_paid_game != Some(l.game.game_id)
}

/// Whether some member of the winning pool has not been paid in the
/// current round.
fn has_unpaid_winner(ledger: &Ledger) -> (r: bool)
    ensures
        r == winners_unpaid(*ledger),
{
    let w = match ledger.game.winning_pool {
        Some(w) => w,
        None => {
            return false;
        },
    };
    let mut j: usize = 0;
    while j < ledger.users.len()
        invariant
            0 <= j <= ledger.users@.len(),
            ledger.game.winning_pool == Some(w),
            forall|i: int|
                0 <= i < j ==> !((#[trigger] ledger.users@[i]).pool is Some && ledger.users@[i].pool
                    == ledger.game.winning_pool && ledger.users@[i].last_paid_game != Some(
                    ledger.game.game_id,
                )),
        decreases ledger.users@.len() - j,
    {
        let u = ledger.users[j];
        let member = match u.pool {
            Some(q) => q == w,
            None => false,
        };
        let paid = match u.last_paid_game {
            Some(g) => g == ledger.game.game_id,
            None => false,
        };
        if member && !paid {
            assert(ledger.users@[j as int] == u);
            return true;
        }
        j = j + 1;
    }
    false
}

/// The round that follows `g`, open from `now` until `end_time`.
pub open spec fn next_game(g: Game, now: i64, end_time: i64) -> Game {
    Game {
        game_id: (g.game_id + 1) as u64,
        start_time: now,
        end_time,
        phase: RoundPhase::Open,
        winning_pool: None,
        winning_amount: 0,
        jackpot_paid: false,
        total_prize: 0,
    }
}

fn restart(u: &User) -> (r: User)
    ensures
        r == restarted(*u),
{
    assert(u.balance * GAME_DURATION_IN_DAYS <= u128::MAX);
    User {
        current_average_balance: u.balance as u128,
        current_weighted_balance: u.balance as u128 * GAME_DURATION_IN_DAYS as u128,
        current_weighted_days: GAME_DURATION_IN_DAYS,
        ..*u
    }
}

/// Settles the resolving round, once every member of the winning pool has
/// been paid, and opens the next one, from `now` until `end_time`. The pools' members and predictions carry over; every user's
/// weighted average starts over from its balance. Returns the settled round.
pub fn start_next_round(ledger: &mut Ledger, now: i64, end_time: i64) -> (r: Result<
    Game,
    ErrorCode,
>)
    requires
        old(ledger).wf(),
    ensures
        final(ledger).wf(),
        old(ledger).game.phase != RoundPhase::Resolving ==> r == Err::<Game, ErrorCode>(
            ErrorCode::WrongRoundPhase,
        ),
        old(ledger).game.phase == RoundPhase::Resolving && winners_unpaid(*old(ledger)) ==> r
            == Err::<Game, ErrorCode>(ErrorCode::WrongRoundPhase),
        old(ledger).game.phase == RoundPhase::Resolving && !winners_unpaid(*old(ledger))
            && old(ledger).game.game_id == u64::MAX ==> r == Err::<Game, ErrorCode>(
            ErrorCode::Overflow,
        ),
        old(ledger).game.phase == RoundPhase::Resolving && !winners_unpaid(*old(ledger))
            && old(ledger).game.game_id < u64::MAX ==> {
            &&& r == Ok::<Game, ErrorCode>((Game { phase: RoundPhase::Settled, ..old(ledger).game }))
            &&& final(ledger).game == next_game(old(ledger).game, now, end_time)
            &&& final(ledger).pools@ == old(ledger).pools@
            &&& final(ledger).users@ == restarted_all(old(ledger).users@)
        },
        r is Err ==> *final(ledger) == *old(ledger),
{
    if ledger.game.phase != RoundPhase::Resolving {
        return Err(ErrorCode::WrongRoundPhase);
    }
    if has_unpaid_winner(ledger) {
        return Err(ErrorCode::WrongRoundPhase);
    }
    if ledger.game.game_id == u64::MAX {
        return Err(ErrorCode::Overflow);
    }
    let ghost users0 = ledger.users@;
    let ghost pools0 = ledger.pools@;
    let ghost game0 = ledger.game;
    let n = ledger.users.len();
    let mut i: usize = 0;
    while i < n
        invariant
            0 <= i <= n,
            n == users0.len(),
            ledger.users@.len() == n,
            ledger.pools@ == pools0,
            ledger.game == game0,
            forall|j: int| 0 <= j < i ==> #[trigger] ledger.users@[j] == restarted(users0[j]),
            forall|j: int| i <= j < n ==> #[trigger] ledger.users@[j] == users0[j],
        decreases n - i,
    {
        let u = ledger.users[i];
        ledger.users.set(i, restart(&u));
        i = i + 1;
    }
    proof {
        let users1 = ledger.users@;
        assert(users1 =~= restarted_all(users0));
        assert forall|k: int| 0 <= k < pools0.len() implies {
            let p = (#[trigger] pools0[k]).name;
            &&& deposit_sum(users1, p) == deposit_sum(users0, p)
            &&& member_count(users1, p) == member_count(users0, p)
            &&& sum_over(users1, prediction_of(p)) == sum_over(users0, prediction_of(p))
        } by {
            let p = pools0[k].name;
            lemma_sum_congruent(users1, users0, deposit_of(p));
            lemma_sum_congruent(users1, users0, member_of(p));
            lemma_sum_congruent(users1, users0, prediction_of(p));
        }
        assert forall|j: int| 0 <= j < users1.len() implies {
            &&& user_wf(#[trigger] users1[j])
            &&& (users1[j].pool matches Some(q) ==> pools0[q.index() as int].is_initialized)
        } by {
            assert(user_wf(users0[j]));
        }
        assert(accounts_consistent(pools0, users1));
    }
    let settled = Game { phase: RoundPhase::Settled, ..ledger.game };
    ledger.game = Game {
        game_id: ledger.game.game_id + 1,
        start_time: now,
        end_time,
        phase: RoundPhase::Open,
        winning_pool: None,
        winning_amount: 0,
        jackpot_paid: false,
        total_prize: 0,
    };
    Ok(settled)
}

proof fn lemma_share_bounds(b: int, d: int, prize: int)
    requires
        0 <= b,
        0 < d,
        0 <= prize,
    ensures
        prize_share(b, d, prize) * d <= b * prize,
        prize_share(b, d, prize) * d >= b * prize - (d - 1),
{
    let s = b * prize / d;
    assert(s * d <= b * prize && s * d >= b * prize - (d - 1)) by (nonlinear_arith)
        requires
            s == b * prize / d,
            0 <= b,
            0 < d,
            0 <= prize,
    ;
}

proof fn lemma_payouts_scaled(users: Seq<User>, p: Pools, d: int, prize: int)
    requires
        0 < d,
        0 <= prize,
        forall|j: int| 0 <= j < users.len() ==> user_wf(#[trigger] users[j]),
    ensures
        sum_over(users, share_of(p, d, prize)) * d <= prize * deposit_sum(users, p),
        sum_over(users, share_of(p, d, prize)) * d >= prize * deposit_sum(users, p) - (d - 1)
            * member_count(users, p),
    decreases users.len(),
{
    if users.len() > 0 {
        let init = users.drop_last();
        let u = users.last();
        assert forall|j: int| 0 <= j < init.len() implies user_wf(#[trigger] init[j]) by {
            assert(init[j] == users[j]);
        }
        assert(user_wf(users[users.len() - 1]));
        lemma_payouts_scaled(init, p, d, prize);
        let s0 = sum_over(init, share_of(p, d, prize));
        let t0 = deposit_sum(init, p);
        let n0 = member_count(init, p);
        let s1 = share_of(p, d, prize)(u);
        let t1 = deposit_of(p)(u);
        let n1 = member_of(p)(u);
        if u.pool == Some(p) {
            lemma_share_bounds(u.balance as int, d, prize);
            assert(n1 == 1);
        } else {
            assert(s1 == 0 && t1 == 0 && n1 == 0);
        }
        assert(s1 * d <= prize * t1 && s1 * d >= prize * t1 - (d - 1) * n1);
        assert((s0 + s1) * d <= prize * (t0 + t1) && (s0 + s1) * d >= prize * (t0 + t1) - (d
            - 1) * (n0 + n1)) by (nonlinear_arith)
            requires
                s0 * d <= prize * t0,
                s0 * d >= prize * t0 - (d - 1) * n0,
                s1 * d <= prize * t1,
                s1 * d >= prize * t1 - (d - 1) * n1,
        ;
    }
}

/// Paying every member of a pool its share hands out the whole prize up to
/// rounding: never more than the prize, and less by fewer units than the
/// pool has members.
pub proof fn lemma_payouts_cover_prize(users: Seq<User>, p: Pools, prize: u64)
    requires
        forall|j: int| 0 <= j < users.len() ==> user_wf(#[trigger] users[j]),
        deposit_sum(users, p) > 0,
    ensures
        sum_over(users, share_of(p, deposit_sum(users, p), prize as int)) <= prize,
        sum_over(users, share_of(p, deposit_sum(users, p), prize as int)) > prize - member_count(
            users,
            p,
        ),
{
    let d = deposit_sum(users, p);
    let n = member_count(users, p);
    let s = sum_over(users, share_of(p, d, prize as int));
    lemma_payouts_scaled(users, p, d, prize as int);
    assert forall|j: int| 0 <= j < users.len() implies #[trigger] deposit_of(p)(users[j])
        <= u64::MAX * member_of(p)(users[j]) by {
        assert(user_wf(users[j]));
    }
    lemma_sum_scaled_bound(users, deposit_of(p), member_of(p), u64::MAX as int);
    assert(n > 0) by (nonlinear_arith)
        requires
            0 < d <= u64::MAX * n,
    ;
    let q = prize as int;
    assert(s <= q && s > q - n) by (nonlinear_arith)
        requires
            s * d <= q * d,
            s * d >= q * d - (d - 1) * n,
            d > 0,
            n > 0,
    ;
}

/// The jackpot: a fixed percentage of the prize, rounded down.
pub open spec fn jackpot_of(total_prize: u64) -> int {
    total_prize * JACKPOT_WINNER_PERCENTAGE / 100
}

/// Why a jackpot payout is rejected before any transfer, if it is.
pub open spec fn jackpot_error(l: Ledger, user: usize) -> Option<ErrorCode> {
    if user >= l.users@.len() {
        Some(ErrorCode::UserUnknown)
    } else if l.game.phase != RoundPhase::Resolving {
        Some(ErrorCode::WrongRoundPhase)
    } else if l.users@[user as int].pool is None || l.users@[user as int].pool
        != l.game.winning_pool {
        Some(ErrorCode::NotInWinningPool)
    } else if l.game.jackpot_paid {
        Some(ErrorCode::AlreadyPaid)
    } else {
        None
    }
}

/// The jackpot of a round with prize `total_prize`.
pub fn jackpot_amount(total_prize: u64) -> (r: u64)
    ensures
        r == jackpot_of(total_prize),
        r <= total_prize,
{
    (total_prize as u128 * JACKPOT_WINNER_PERCENTAGE as u128 / 100) as u64
}

/// The jackpot that user `user` would receive, checked before the transfer
/// that pays it is attempted. Which member receives it is chosen by the caller.
pub fn check_jackpot(ledger: &Ledger, user: usize) -> (r: Result<u64, ErrorCode>)
    requires
        ledger.wf(),
    ensures
        jackpot_error(*ledger, user) matches Some(e) ==> r == Err::<u64, ErrorCode>(e),
        jackpot_error(*ledger, user) is None ==> r == Ok::<u64, ErrorCode>(
            jackpot_of(ledger.game.total_prize) as u64,
        ),
{
    if user >= ledger.users.len() {
        return Err(ErrorCode::UserUnknown);
    }
    if ledger.game.phase != RoundPhase::Resolving {
        return Err(ErrorCode::WrongRoundPhase);
    }
    match (ledger.users[user].pool, ledger.game.winning_pool) {
        (Some(q), Some(w)) => {
            if q != w {
                return Err(ErrorCode::NotInWinningPool);
            }
        },
        _ => {
            return Err(ErrorCode::NotInWinningPool);
        },
    }
    if ledger.game.jackpot_paid {
        return Err(ErrorCode::AlreadyPaid);
    }
    Ok(jackpot_amount(ledger.game.total_prize))
}

/// Pays the jackpot of the resolving round to user `user`, a member of the
/// winning pool. `transfer_confirmed` tells whether the custody transfer was
/// confirmed; without it nothing changes. The jackpot is paid once per round.
pub fn pay_jackpot_winner(ledger: &mut Ledger, user: usize, transfer_confirmed: bool) -> (r:
    Result<u64, ErrorCode>)
    requires
        old(ledger).wf(),
    ensures
        final(ledger).wf(),
        jackpot_error(*old(ledger), user) matches Some(e) ==> r == Err::<u64, ErrorCode>(e),
        jackpot_error(*old(ledger), user) is None && !transfer_confirmed ==> r == Err::<
            u64,
            ErrorCode,
        >(ErrorCode::PaymentFailed),
        jackpot_error(*old(ledger), user) is None && transfer_confirmed ==> {
            &&& r == Ok::<u64, ErrorCode>(jackpot_of(old(ledger).game.total_prize) as u64)
            &&& final(ledger).game == (Game { jackpot_paid: true, ..old(ledger).game })
            &&& final(ledger).pools@ == old(ledger).pools@
            &&& final(ledger).users@ == old(ledger).users@
        },
        r is Err ==> *final(ledger) == *old(ledger),
{
    let amount = match check_jackpot(ledger, user) {
        Ok(a) => a,
        Err(e) => {
            return Err(e);
        },
    };
    if !transfer_confirmed {
        return Err(ErrorCode::PaymentFailed);
    }
    ledger.game = Game { jackpot_paid: true, ..ledger.game };
    Ok(amount)
}

} // verus!
