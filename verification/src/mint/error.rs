use vstd::prelude::*;

use crate::spl::TokenReadError;

verus! {

/// Why a mint instruction was refused.
#[derive(Clone, Copy, Debug, PartialEq, Eq, Structural)]
pub enum Error {
    AlreadyInitialized,
    MathOverflowOrUnderflow,
    InvalidAuthority,
    InvalidAccounts,
    KeyAlreadyAdded,
    KeyDoesNotExist,
    MaxMembers,
    DuplicateKeys,
    MismatchingRemainingAccountsLength,
    InvalidTokenAccount,
    InvalidTokenAccountOwner,
    InvalidMint,
    InvalidVault,
    InvalidMember,
    /// The vault holds less than the winning proposal's price.
    InsufficientFunds,
    /// An account given as a token account does not have a token account's layout.
    InvalidAccountData,
    /// An account given as a token account holds one that was never initialized.
    UninitializedAccount,
}

/// The refusal that a token account read failing with `e` gives.
pub open spec fn token_read_error(e: TokenReadError) -> Error {
    match e {
        TokenReadError::InvalidAccountData => Error::InvalidAccountData,
        TokenReadError::UninitializedAccount => Error::UninitializedAccount,
    }
}

/// The refusal that a token account read failing with `e` gives.
pub fn token_read_refusal(e: TokenReadError) -> (r: Error)
    ensures
        r == token_read_error(e),
{
    match e {
        TokenReadError::InvalidAccountData => Error::InvalidAccountData,
        TokenReadError::UninitializedAccount => Error::UninitializedAccount,
    }
}

} // verus!
