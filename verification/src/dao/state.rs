use vstd::prelude::*;

use crate::key::{keys_view, Key};

verus! {

/// Most members a DAO holds.
pub const MAX_MEMBERS: usize = 20;

/// Most proposals a DAO holds.
pub const MAX_PROPOSALS: usize = 15;

/// Decimals of the stable coin held in the vault.
pub const DECIMALS: u8 = 6;

/// Cooldown between two voting periods that a new DAO starts with (two weeks, in seconds).
pub const INITIAL_VOTE_COOLDOWN: u64 = 1_209_600;

/// A member and the balance it holds in the vault.
#[derive(Clone, Copy, Debug, PartialEq, Eq)]
pub struct UserWithBalance {
    pub key: Key,
    pub balance: u64,
}

/// A member as the contracts see it.
pub struct MemberView {
    pub key: Seq<u8>,
    pub balance: u64,
}

impl View for UserWithBalance {
    type V = MemberView;

    open spec fn view(&self) -> MemberView {
        MemberView { key: self.key@, balance: self.balance }
    }
}

/// The members of a list, as the contracts see them.
pub open spec fn members_view(s: Seq<UserWithBalance>) -> Seq<MemberView> {
    s.map_values(|u: UserWithBalance| u@)
}

/// The addresses of a list of members.
pub open spec fn member_keys(s: Seq<MemberView>) -> Seq<Seq<u8>> {
    s.map_values(|m: MemberView| m.key)
}

/// Proposals that reached the same best score.
#[derive(Clone, Debug, PartialEq, Eq)]
pub struct Tie {
    pub score: u64,
    pub winners: Vec<Key>,
}

#[verifier::ext_equal]
pub struct TieView {
    pub score: u64,
    pub winners: Seq<Seq<u8>>,
}

impl View for Tie {
    type V = TieView;

    open spec fn view(&self) -> TieView {
        TieView { score: self.score, winners: keys_view(self.winners@) }
    }
}

/// A proposal to spend from the vault, and who voted for it.
#[derive(Clone, Debug, PartialEq, Eq)]
pub struct Proposal {
    pub identifier: u64,
    pub voters: Vec<Key>,
    pub proposer: Key,
    pub description: String,
    pub bump: u8,
    pub price: u64,
}

#[verifier::ext_equal]
pub struct ProposalView {
    pub identifier: u64,
    pub voters: Seq<Seq<u8>>,
    pub proposer: Seq<u8>,
    pub description: Seq<char>,
    pub bump: u8,
    pub price: u64,
}

impl View for Proposal {
    type V = ProposalView;

    open spec fn view(&self) -> ProposalView {
        ProposalView {
            identifier: self.identifier,
            voters: keys_view(self.voters@),
            proposer: self.proposer@,
            description: self.description@,
            bump: self.bump,
            price: self.price,
        }
    }
}

/// The record of one member's vote.
#[derive(Clone, Copy, Debug, PartialEq, Eq)]
pub struct UserVote {
    pub proposal: Key,
    pub voter: Key,
    pub bump: u8,
}

/// The state of the DAO.
#[derive(Clone, Debug, PartialEq, Eq)]
pub struct FridgeDao {
    pub mint_admin_program: Key,
    pub admin: Key,
    pub vault_balance: u64,
    pub bump: u8,
    pub proposal_count: u64,
    /// Length of a voting period, in seconds.
    pub vote_period: u64,
    /// Time between two voting periods, in seconds.
    pub vote_cooldown: u64,
    /// When the next voting period opens (a unix timestamp).
    pub next_vote_allowed_at: i64,
    pub proposals: Vec<Key>,
    pub valid_member_keys: Vec<UserWithBalance>,
    pub tie: Option<Tie>,
    pub recent_winner: Option<Proposal>,
}

#[verifier::ext_equal]
pub struct FridgeDaoView {
    pub mint_admin_program: Seq<u8>,
    pub admin: Seq<u8>,
    pub vault_balance: u64,
    pub bump: u8,
    pub proposal_count: u64,
    pub vote_period: u64,
    pub vote_cooldown: u64,
    pub next_vote_allowed_at: i64,
    pub proposals: Seq<Seq<u8>>,
    pub members: Seq<MemberView>,
    pub tie: Option<TieView>,
    pub recent_winner: Option<ProposalView>,
}

impl View for FridgeDao {
    type V = FridgeDaoView;

    open spec fn view(&self) -> FridgeDaoView {
        FridgeDaoView {
            mint_admin_program: self.mint_admin_program@,
            admin: self.admin@,
            vault_balance: self.vault_balance,
            bump: self.bump,
            proposal_count: self.proposal_count,
            vote_period: self.vote_period,
            vote_cooldown: self.vote_cooldown,
            next_vote_allowed_at: self.next_vote_allowed_at,
            proposals: keys_view(self.proposals@),
            members: members_view(self.valid_member_keys@),
            tie: match self.tie {
                Some(t) => Some(t@),
                None => None,
            },
            recent_winner: match self.recent_winner {
                Some(p) => Some(p@),
                None => None,
            },
        }
    }
}

/// Event: several proposals reached the best score.
#[derive(Clone, Debug, PartialEq, Eq)]
pub struct TieEvent {
    pub score: u64,
    pub winners: Vec<Key>,
}

/// Event: a proposal won.
#[derive(Clone, Debug, PartialEq, Eq)]
pub struct WinnerChosen {
    pub description: String,
    pub price: u64,
}

} // verus!
