use vstd::prelude::*;

use crate::spl::TokenReadError;

verus! {

/// Why a DAO instruction was refused.
#[derive(Clone, Copy, Debug, PartialEq, Eq, Structural)]
pub enum Error {
    MathOverflowOrUnderflow,
    InvalidAuthority,
    InvalidMember,
    InvalidProposal,
    NotInVotingPeriod,
    VotingHasNotEnded,
    CouldNotFindProposal,
    AlreadyVoted,
    IdenticalCooldown,
    AtMaxProposals,
    KeyAlreadyAdded,
    KeyDoesNotExist,
    MaxMembers,
    DuplicateKeys,
    InvalidVault,
    InvalidMint,
    MismatchingRemainingAccountsLength,
    InvalidTokenAccountOwner,
    InvalidTokenAccount,
    InvalidAmount,
    NoTie,
    ProposalNotInTies,
    NoWinner,
    AddressAlreadyAdded,
    AddressDoesNotExist,
    DuplicateAddress,
    /// An account given as a token account does not exist: the system program owns it and it
    /// holds no lamports.
    AccountNotInitialized,
    /// An account given as a token account is owned by neither token program.
    AccountOwnedByWrongProgram,
    /// An account given as a token account does not have a token account's layout.
    InvalidAccountData,
    /// An account given as a token account holds one that was never initialized.
    UninitializedAccount,
}

/// The refusal that a token account read failing with `e` gives.
pub open spec fn token_read_error(e: TokenReadError) -> Error {
    match e {
        TokenReadError::InvalidAccountData => Error::InvalidAccountData,
        TokenReadError::UninitializedAccount => Error::UninitializedAccount,
    }
}

/// The refusal that a token account read failing with `e` gives.
pub fn token_read_refusal(e: TokenReadError) -> (r: Error)
    ensures
        r == token_read_error(e),
{
    match e {
        TokenReadError::InvalidAccountData => Error::InvalidAccountData,
        TokenReadError::UninitializedAccount => Error::UninitializedAccount,
    }
}

} // verus!
