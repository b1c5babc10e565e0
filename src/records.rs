use vstd::prelude::*;

use crate::pools::{Pools, TransactionType};

verus! {

/// Length of a round in days, and the weight given to a balance that is
/// reset at the start of a round.
pub const GAME_DURATION_IN_DAYS: u64 = 5;

/// Percentage of the prize paid on top of the shares to one member of the
/// winning pool.
pub const JACKPOT_WINNER_PERCENTAGE: u64 = 10;

/// Seconds in one day.
pub const SECONDS_PER_DAY: i64 = 86400;

/// Decimal places of the staked token.
pub const MINT_DECIMALS: u32 = 9;

/// The smallest deposit accepted: one whole token.
pub const MINIMUM_DEPOSIT: u64 = 1_000_000_000;

/// Aggregates of one pool.
#[derive(Clone, Copy, Debug, PartialEq, Eq, Structural)]
pub struct Pool {
    pub is_initialized: bool,
    pub last_update_timestamp: i64,
    /// Sum of the balances of the users attributed to the pool.
    pub total_deposit: u64,
    /// Number of users attributed to the pool with a positive balance.
    pub user_count: u64,
    pub name: Pools,
    /// Sum of the last predictions of the users attributed to the pool.
    pub prediction_total: u128,
    /// Mean of the last predictions of the members, rounded down; 0 without members.
    pub average_prediction: u64,
}

/// One participant.
#[derive(Clone, Copy, Debug, PartialEq, Eq, Structural)]
pub struct User {
    /// The pool the user currently contributes to, if any.
    pub pool: Option<Pools>,
    pub last_prediction: u64,
    pub balance: u64,
    pub last_active: i64,
    /// Number of rounds in which the user received a share of the prize.
    pub game_history_count: u64,
    /// The round in which the user was last paid a share of the prize.
    pub last_paid_game: Option<u64>,
    /// Time-weighted average of the balance over the round, rounded down.
    pub current_average_balance: u128,
    /// Sum of the weighted amounts (days times amount).
    pub current_weighted_balance: u128,
    /// Sum of the weights (days).
    pub current_weighted_days: u64,
    /// Number of transactions recorded for the user.
    pub txn_count: u64,
}

/// Phase of a round.
#[derive(Clone, Copy, Debug, PartialEq, Eq, Structural)]
pub enum RoundPhase {
    /// Deposits, withdrawals and predictions are accepted.
    Open,
    /// The winning pool is known and its members are being paid.
    Resolving,
    /// All payouts are done; the round has been superseded.
    Settled,
}

/// One settlement period.
#[derive(Clone, Copy, Debug, PartialEq, Eq, Structural)]
pub struct Game {
    pub game_id: u64,
    pub start_time: i64,
    pub end_time: i64,
    pub phase: RoundPhase,
    pub winning_pool: Option<Pools>,
    /// Sum of the prize shares paid so far.
    pub winning_amount: u64,
    /// The prize to share among the members of the winning pool.
    pub total_prize: u64,
    /// Whether the jackpot of the round has been paid.
    pub jackpot_paid: bool,
}

/// An immutable record of one deposit or withdrawal.
#[derive(Clone, Copy, Debug, PartialEq, Eq, Structural)]
pub struct Transaction {
    pub timestamp: i64,
    pub amount: u64,
    pub transaction_type: TransactionType,
    /// Position of the record in the user's history.
    pub index: u64,
    pub pool: Pools,
}

impl Game {
    /// Whole days from `now` until the end of the round, a started day
    /// counting as a full one; 0 once the round has ended.
    pub open spec fn days_left_spec(self, now: i64) -> int {
        if now >= self.end_time {
            0
        } else {
            (self.end_time - now + SECONDS_PER_DAY - 1) / (SECONDS_PER_DAY as int)
        }
    }

    pub fn days_left(&self, now: i64) -> (r: u64)
        ensures
            r == self.days_left_spec(now),
    {
        if now >= self.end_time {
            0
        } else {
            let span: i128 = self.end_time as i128 - now as i128;
            let days: i128 = (span + SECONDS_PER_DAY as i128 - 1) / SECONDS_PER_DAY as i128;
            assert(days <= u64::MAX) by (nonlinear_arith)
                requires
                    0 < span <= 2 * (i64::MAX as int) + 1,
                    days == (span + 86399) / 86400,
            ;
            days as u64
        }
    }
}

} // verus!
