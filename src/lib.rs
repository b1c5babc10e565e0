//! Settlement and accounting engine for a round-based pooled-staking game.
//!
//! Participants stake tokens in one of four named pools and attach a price
//! prediction to it. At the end of a round the pool whose average prediction
//! lies closest to the reference price wins, and the prize is shared among its
//! members in proportion to their stake; one member also receives a jackpot.
//!
//! All amounts and prices are integers in the token's smallest unit. The
//! custody transfers that back deposits, withdrawals and payouts happen
//! outside the engine: each such operation has a `check_*` function to call
//! before the transfer, and takes the transfer's outcome as an argument.

pub mod accounting;
pub mod error;
pub mod ledger;
pub mod operations;
pub mod pools;
pub mod records;
pub mod settlement;

pub use error::ErrorCode;
pub use ledger::Ledger;
pub use operations::{
    check_deposit, check_withdraw, create_pool, create_user, deposit, make_prediction, withdraw,
};
pub use pools::{Pools, TransactionType, NUM_POOLS};
pub use records::{
    Game, Pool, RoundPhase, Transaction, User, GAME_DURATION_IN_DAYS, JACKPOT_WINNER_PERCENTAGE,
    MINIMUM_DEPOSIT, MINT_DECIMALS, SECONDS_PER_DAY,
};
pub use settlement::{
    check_jackpot, jackpot_amount, pay_jackpot_winner, pay_winning_pool_user, prize_share_of,
    resolve_round, select_winning_pool, start_next_round,
};
