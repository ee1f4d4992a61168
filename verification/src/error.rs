//! Error kinds. Every failure aborts the whole call: the caller observes the
//! error and the state exactly as it was before the call.

use vstd::prelude::*;

verus! {

/// Why a call was rejected. Each operation's contract says exactly which
/// variant is returned on which inputs.
#[derive(Debug, Clone, Copy, PartialEq, Eq, Structural)]
pub enum ContractError {
    /// The caller is not the configured admin.
    Unauthorized,
    /// The targeted round was never opened.
    RoundNotStarted,
    /// Betting is rejected while the contract is paused.
    ContractPaused,
    /// The bet arrived at or after the round's lock time.
    RoundLocked,
    /// The caller already holds a bet in this round.
    BetAlreadyPlaced,
    /// No stake in the accepted denomination accompanied the bet.
    NoFundSent,
    /// The round has not been ended (executed) yet.
    RoundNotEnded,
    /// The caller has no bet in the targeted round.
    BetNotFound,
    /// No round exists under the given id.
    RoundNotFound,
    /// `LockRound` arrived before the round's lock time.
    CannotLockBeforeTime,
    /// `EndRound` arrived while the lock price is still unset.
    CannotEndWithoutLockPrice,
    /// `EndRound` arrived before the round's end time.
    CannotEndBeforeTime,
    /// A round is still running (or was already opened): no new round yet.
    CannotStartNewRound,
    /// The caller's bet lost (or pushed and was refunded): nothing is owed.
    NothingToClaim,
    /// The caller's reward for this round was already paid out.
    AlreadyClaimed,
    /// A pool, counter or reward would not fit its integer type.
    Overflow,
    /// Instantiation asked for a treasury fee above 10 000 basis points.
    InvalidTreasuryFee,
    /// `EndRound` offered a zero price, which would leave the round's end
    /// price reading as "unset" and block every later round.
    InvalidEndPrice,
}

impl ContractError {
    /// A short human-readable description, for hosts that surface errors as text.
    pub fn describe(&self) -> &'static str {
        match self {
            ContractError::Unauthorized => "Unauthorized",
            ContractError::RoundNotStarted => "Round not started",
            ContractError::ContractPaused => "The contract is currently paused",
            ContractError::RoundLocked => "Round locked",
            ContractError::BetAlreadyPlaced => "User already placed bet",
            ContractError::NoFundSent => "No fund sent",
            ContractError::RoundNotEnded => "Round not ended",
            ContractError::BetNotFound => "Bet not found",
            ContractError::RoundNotFound => "Round not found",
            ContractError::CannotLockBeforeTime => "Cannot lock round before lock time",
            ContractError::CannotEndWithoutLockPrice => "Cannot end round without lock price",
            ContractError::CannotEndBeforeTime => "Cannot end round before end time",
            ContractError::CannotStartNewRound => "Cannot start new round",
            ContractError::NothingToClaim => "Nothing to claim",
            ContractError::AlreadyClaimed => "Reward already claimed",
            ContractError::Overflow => "Arithmetic overflow",
            ContractError::InvalidTreasuryFee => "Treasury fee must be <= 10000 basis points",
            ContractError::InvalidEndPrice => "End price must be non-zero",
        }
    }
}

} // verus!
