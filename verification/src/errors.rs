//! The error taxonomy: every entry point detects its failure before any
//! ledger write, so an error always leaves the state exactly as it was.

use vstd::prelude::*;

verus! {

/// The broad classes of failure an entry point can report.
#[derive(Clone, Copy, Debug, PartialEq, Eq, Structural)]
pub enum ErrorKind {
    /// The caller lacks the capability (owner, admin, pending admin, requester).
    Authorization,
    /// Malformed input: wrong token, wrong arity, out-of-bounds value, bad configuration.
    Validation,
    /// An invalid round transition or oracle lifecycle step.
    State,
    /// A reserve, withdrawable or deposit shortfall.
    InsufficientFunds,
    /// A lookup of an unknown oracle, round, round buffer or requester.
    NotFound,
}

/// Every failure an entry point can report, one variant per rejected condition.
#[derive(Clone, Copy, Debug, PartialEq, Eq, Structural)]
pub enum Error {
    /// A payment was made in a token other than the configured one.
    WrongToken,
    /// A submission whose number of values differs from the configured count.
    WrongValueCount,
    /// A submitted value below the configured minimum.
    ValueBelowMinimum,
    /// A submitted value above the configured maximum.
    ValueAboveMaximum,
    /// The added oracle and added admin lists differ in length.
    OracleAdminCountMismatch,
    /// A configuration whose maximum submission count is below its minimum.
    MaxBelowMin,
    /// A configuration whose maximum submission count exceeds the oracle count.
    MaxAboveOracleCount,
    /// A configuration whose restart delay is not below the oracle count.
    DelayAboveOracleCount,
    /// A configuration with oracles present but a zero minimum submission count.
    MinIsZero,
    /// Available funds do not cover the reserve a configuration requires.
    InsufficientFundsForPayment,
    /// A caller other than the owner used an owner-only entry point.
    NotOwner,
    /// A caller other than the oracle's admin used an admin-only entry point.
    NotAdmin,
    /// A caller other than the proposed admin tried to accept the handoff.
    NotPendingAdmin,
    /// A round request from a caller that is not an authorized requester.
    NotAuthorizedRequester,
    /// An oracle registered with a zero starting round.
    NotEnabledOracle,
    /// A submission into a round before the oracle's starting round.
    NotYetEnabledOracle,
    /// A submission into a round after the oracle's ending round.
    NoLongerAllowedOracle,
    /// A submission into a round the oracle has already reported on.
    AlreadyReportedRound,
    /// A submission into a round that is neither current, next, nor one behind.
    InvalidRoundToReport,
    /// A submission whose previous round is neither answered nor timed out.
    PreviousRoundNotSupersedable,
    /// A round request while the current round is neither answered nor timed out.
    RoundNotSupersedable,
    /// A round request within the requester's configured delay.
    MustDelayRequests,
    /// A submission into a round whose buffer is closed or absent.
    RoundNotAcceptingSubmissions,
    /// An oracle added while already registered.
    OracleAlreadyEnabled,
    /// A payment accrual that the available funds cannot cover.
    PaymentExceedsAvailable,
    /// A payment withdrawal above the oracle's withdrawable balance.
    InsufficientWithdrawable,
    /// A funds withdrawal above the caller's own deposit.
    InsufficientDeposit,
    /// A funds withdrawal that would drop available funds below the reserve.
    InsufficientReserve,
    /// A lookup of an address that is not a registered oracle.
    UnknownOracle,
    /// A lookup of a round id with no round record.
    UnknownRound,
    /// A lookup of a round id with no aggregation buffer.
    UnknownRoundDetails,
    /// A lookup of an address that is not a registered requester.
    UnknownRequester,
    /// A median requested over zero submissions.
    EmptyInput,
}

impl Error {
    /// The class this error belongs to.
    pub open spec fn kind_spec(self) -> ErrorKind {
        match self {
            Error::WrongToken => ErrorKind::Validation,
            Error::WrongValueCount => ErrorKind::Validation,
            Error::ValueBelowMinimum => ErrorKind::Validation,
            Error::ValueAboveMaximum => ErrorKind::Validation,
            Error::OracleAdminCountMismatch => ErrorKind::Validation,
            Error::MaxBelowMin => ErrorKind::Validation,
            Error::MaxAboveOracleCount => ErrorKind::Validation,
            Error::DelayAboveOracleCount => ErrorKind::Validation,
            Error::MinIsZero => ErrorKind::Validation,
            Error::InsufficientFundsForPayment => ErrorKind::InsufficientFunds,
            Error::NotOwner => ErrorKind::Authorization,
            Error::NotAdmin => ErrorKind::Authorization,
            Error::NotPendingAdmin => ErrorKind::Authorization,
            Error::NotAuthorizedRequester => ErrorKind::Authorization,
            Error::NotEnabledOracle => ErrorKind::State,
            Error::NotYetEnabledOracle => ErrorKind::State,
            Error::NoLongerAllowedOracle => ErrorKind::State,
            Error::AlreadyReportedRound => ErrorKind::State,
            Error::InvalidRoundToReport => ErrorKind::State,
            Error::PreviousRoundNotSupersedable => ErrorKind::State,
            Error::RoundNotSupersedable => ErrorKind::State,
            Error::MustDelayRequests => ErrorKind::State,
            Error::RoundNotAcceptingSubmissions => ErrorKind::State,
            Error::OracleAlreadyEnabled => ErrorKind::State,
            Error::PaymentExceedsAvailable => ErrorKind::InsufficientFunds,
            Error::InsufficientWithdrawable => ErrorKind::InsufficientFunds,
            Error::InsufficientDeposit => ErrorKind::InsufficientFunds,
            Error::InsufficientReserve => ErrorKind::InsufficientFunds,
            Error::UnknownOracle => ErrorKind::NotFound,
            Error::UnknownRound => ErrorKind::NotFound,
            Error::UnknownRoundDetails => ErrorKind::NotFound,
            Error::UnknownRequester => ErrorKind::NotFound,
            Error::EmptyInput => ErrorKind::Validation,
        }
    }

    /// The class this error belongs to.
    #[verifier::when_used_as_spec(kind_spec)]
    pub fn kind(self) -> (k: ErrorKind)
        ensures
            k == self.kind_spec(),
    {
        match self {
            Error::WrongToken => ErrorKind::Validation,
            Error::WrongValueCount => ErrorKind::Validation,
            Error::ValueBelowMinimum => ErrorKind::Validation,
            Error::ValueAboveMaximum => ErrorKind::Validation,
            Error::OracleAdminCountMismatch => ErrorKind::Validation,
            Error::MaxBelowMin => ErrorKind::Validation,
            Error::MaxAboveOracleCount => ErrorKind::Validation,
            Error::DelayAboveOracleCount => ErrorKind::Validation,
            Error::MinIsZero => ErrorKind::Validation,
            Error::InsufficientFundsForPayment => ErrorKind::InsufficientFunds,
            Error::NotOwner => ErrorKind::Authorization,
            Error::NotAdmin => ErrorKind::Authorization,
            Error::NotPendingAdmin => ErrorKind::Authorization,
            Error::NotAuthorizedRequester => ErrorKind::Authorization,
            Error::NotEnabledOracle => ErrorKind::State,
            Error::NotYetEnabledOracle => ErrorKind::State,
            Error::NoLongerAllowedOracle => ErrorKind::State,
            Error::AlreadyReportedRound => ErrorKind::State,
            Error::InvalidRoundToReport => ErrorKind::State,
            Error::PreviousRoundNotSupersedable => ErrorKind::State,
            Error::RoundNotSupersedable => ErrorKind::State,
            Error::MustDelayRequests => ErrorKind::State,
            Error::RoundNotAcceptingSubmissions => ErrorKind::State,
            Error::OracleAlreadyEnabled => ErrorKind::State,
            Error::PaymentExceedsAvailable => ErrorKind::InsufficientFunds,
            Error::InsufficientWithdrawable => ErrorKind::InsufficientFunds,
            Error::InsufficientDeposit => ErrorKind::InsufficientFunds,
            Error::InsufficientReserve => ErrorKind::InsufficientFunds,
            Error::UnknownOracle => ErrorKind::NotFound,
            Error::UnknownRound => ErrorKind::NotFound,
            Error::UnknownRoundDetails => ErrorKind::NotFound,
            Error::UnknownRequester => ErrorKind::NotFound,
            Error::EmptyInput => ErrorKind::Validation,
        }
    }
}

} // verus!
