pub mod laws;
pub mod ledger;
pub mod pallet;
pub mod ranking;
pub mod rate;
pub mod staking;
pub mod store;

use vstd::prelude::*;

verus! {

/// Unsigned balance of either currency, as the ledger accounts it.
pub type Balance = u128;

/// An account identifier.
pub type AccountId = u64;

/// A discrete epoch counter advanced by the consensus protocol.
pub type EraIndex = u32;

/// Identifier of a currency held by the multi-currency ledger.
pub type CurrencyId = u32;

/// The staked (base) currency.
pub const STAKING_CURRENCY_ID: CurrencyId = 1;

/// The liquid receipt currency minted against deposited stake.
pub const LIQUID_CURRENCY_ID: CurrencyId = 2;

/// Validation failures of the liquid-staking operations.
#[derive(Clone, Copy, Debug, PartialEq, Eq, Structural)]
pub enum Error {
    /// The bond amount in staking currency is below threshold.
    BelowBondThreshold,
    /// The unbond amount in liquid currency is below threshold.
    BelowUnbondThreshold,
    /// The staker already has a request that has not been claimed yet.
    UnclaimedRedeemRequestAlreadyExist,
    /// The consensus protocol does not expose a current era.
    CurrentEraNotSet,
    /// No unbonding request is recorded for the claimant.
    UnbondingRequestNotExist,
    /// The unbonding period has not elapsed.
    UnbondingWaitNotComplete,
}

/// Why an operation was rejected; every failure leaves all state unchanged.
#[derive(Clone, Copy, Debug, PartialEq, Eq, Structural)]
pub enum DispatchError {
    /// One of this system's own validation rules failed.
    Module(Error),
    /// An exact result would not fit the balance width.
    Arithmetic,
    /// A ledger movement asked for more than the payer holds.
    InsufficientBalance,
    /// The operation was submitted by the wrong kind of origin.
    BadOrigin,
    /// The ledger does not track the named currency.
    UnknownCurrency,
    /// The staking collaborator was asked to create a bond it already has.
    AlreadyBonded,
    /// The staking collaborator was asked to act on a bond that does not
    /// exist.
    NotBonded,
}

/// Who submitted an operation.
#[derive(Clone, Copy, Debug, PartialEq, Eq, Structural)]
pub enum Origin {
    /// The governing authority.
    Root,
    /// An ordinary signed account.
    Signed(AccountId),
}

} // verus!
