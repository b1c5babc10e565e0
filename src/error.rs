use vstd::prelude::*;

verus! {

/// Every way in which an operation of the engine can be rejected.
///
/// A rejected operation leaves the ledger exactly as it was.
#[derive(Clone, Copy, Debug, PartialEq, Eq, Structural)]
pub enum ErrorCode {
    /// The withdrawal amount is zero.
    InvalidWithdrawal,
    /// The user's balance is below the amount asked for.
    InsufficientBalance,
    /// The user contributes to another pool than the one named.
    MultiplePoolNotAllowed,
    /// The pool has already been created.
    PoolAlreadyCreated,
    /// The pool has not been created yet.
    PoolNotInitialized,
    /// No pool has this code.
    PoolUnknown,
    /// No user has this identifier.
    UserUnknown,
    /// The user contributes to no pool.
    NotInPool,
    /// The custody transfer was not confirmed.
    PaymentFailed,
    /// The pools are not listed in canonical order.
    PoolsInWrongOrder,
    /// The per-pool inputs do not have one entry for each pool.
    PoolsDataSizeDoNotMatch,
    /// The deposit is below the minimum deposit.
    DepositInsufficient,
    /// The round is not in the phase that the operation needs.
    WrongRoundPhase,
    /// The user is not a member of the winning pool.
    NotInWinningPool,
    /// The user has already been paid in this round.
    AlreadyPaid,
    /// A counter or an aggregate would leave its integer range.
    Overflow,
}

} // verus!
