use vstd::prelude::*;

use crate::key::Key;

verus! {

/// Most members the mint admits.
pub const MAX_MEMBERS: usize = 20;

/// Decimals of the stable coin held in the vault.
pub const DECIMALS: u8 = 6;

/// A member and the token account the mint knows it by.
#[derive(Clone, Copy, Debug, PartialEq, Eq)]
pub struct UserWithTokenAcct {
    pub key: Key,
    pub token_account: Key,
}

pub struct MintMemberView {
    pub key: Seq<u8>,
    pub token_account: Seq<u8>,
}

impl View for UserWithTokenAcct {
    type V = MintMemberView;

    open spec fn view(&self) -> MintMemberView {
        MintMemberView { key: self.key@, token_account: self.token_account@ }
    }
}

pub open spec fn mint_members_view(s: Seq<UserWithTokenAcct>) -> Seq<MintMemberView> {
    s.map_values(|u: UserWithTokenAcct| u@)
}

pub open spec fn mint_member_keys(s: Seq<MintMemberView>) -> Seq<Seq<u8>> {
    s.map_values(|m: MintMemberView| m.key)
}

/// The state of the mint program, which holds the DAO's vault.
#[derive(Clone, Debug, PartialEq, Eq)]
pub struct DAOMint {
    pub admin: Key,
    pub vault: Key,
    pub usdc_mint: Key,
    pub dao_program: Key,
    pub mint_authority_bump: u8,
    pub bump: u8,
    pub valid_member_keys: Vec<UserWithTokenAcct>,
}

#[verifier::ext_equal]
pub struct DAOMintView {
    pub admin: Seq<u8>,
    pub vault: Seq<u8>,
    pub usdc_mint: Seq<u8>,
    pub dao_program: Seq<u8>,
    pub mint_authority_bump: u8,
    pub bump: u8,
    pub members: Seq<MintMemberView>,
}

impl View for DAOMint {
    type V = DAOMintView;

    open spec fn view(&self) -> DAOMintView {
        DAOMintView {
            admin: self.admin@,
            vault: self.vault@,
            usdc_mint: self.usdc_mint@,
            dao_program: self.dao_program@,
            mint_authority_bump: self.mint_authority_bump,
            bump: self.bump,
            members: mint_members_view(self.valid_member_keys@),
        }
    }
}

} // verus!
