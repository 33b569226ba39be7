use anchor_lang::prelude::{ProgramError, Pubkey};
use anchor_lang::{AccountDeserialize, CheckOwner};
use vstd::prelude::*;

use crate::key::Key;

verus! {

/// The address of the associated token account that `wallet` holds for `mint`: the program
/// address that the associated-token-account program derives from the wallet, the token
/// program and the mint, or `None` where no bump seed gives an address off the curve.
pub uninterp spec fn associated_token_address(wallet: Seq<u8>, mint: Seq<u8>) -> Option<Seq<u8>>;

/// Calls `Pubkey::try_find_program_address` on the seeds that
/// `anchor_spl::associated_token::get_associated_token_address` derives from: the wallet, the
/// token program's id and the mint, under the associated-token-account program. Claimed: the
/// result is `associated_token_address(wallet, mint)`, which depends on the two addresses
/// alone. `None` comes where no bump seed yields an address off the curve, the case in which
/// `get_associated_token_address` itself panics.
#[verifier::external_body]
pub(crate) fn get_associated_token_address(wallet: &Key, mint: &Key) -> (r: Option<Key>)
    ensures
        match r {
            Some(k) => associated_token_address(wallet@, mint@) == Some(k@),
            None => associated_token_address(wallet@, mint@) is None,
        },
{
    match Pubkey::try_find_program_address(
        &[&wallet.bytes, &anchor_spl::token::ID.to_bytes(), &mint.bytes],
        &anchor_spl::associated_token::ID,
    ) {
        Some((address, _)) => Some(Key { bytes: address.to_bytes() }),
        None => None,
    }
}

/// The token program's id.
pub open spec fn token_program_id() -> Seq<u8> {
    seq![
        6u8, 221, 246, 225, 215, 101, 161, 147, 217, 203, 225, 70, 206, 235, 121, 172, 28, 180,
        133, 237, 95, 91, 55, 145, 58, 140, 245, 133, 126, 255, 0, 169,
    ]
}

/// The token-2022 program's id.
pub open spec fn token_2022_program_id() -> Seq<u8> {
    seq![
        6u8, 221, 246, 225, 238, 117, 143, 222, 24, 66, 93, 188, 228, 108, 205, 218, 182, 26,
        252, 77, 131, 185, 13, 39, 254, 189, 249, 40, 216, 161, 139, 252,
    ]
}

/// Calls `<anchor_spl::token_interface::TokenAccount as CheckOwner>::check_owner`, which
/// accepts an owning program exactly when it is one of the two token programs. Claimed: the
/// result says whether `owner` is the token program's id or the token-2022 program's id.
#[verifier::external_body]
pub(crate) fn is_token_program(owner: &Key) -> (r: bool)
    ensures
        r == (owner@ == token_program_id() || owner@ == token_2022_program_id()),
{
    match anchor_spl::token_interface::TokenAccount::check_owner(&Pubkey::new_from_array(owner.bytes)) {
        Ok(()) => true,
        Err(_) => false,
    }
}

/// Why raw account data could not be read as a token account, as the token programs report it.
#[derive(Clone, Copy, Debug, PartialEq, Eq, Structural)]
pub enum TokenReadError {
    /// The data does not have a token account's layout.
    InvalidAccountData,
    /// The data holds a token account that was never initialized.
    UninitializedAccount,
}

/// What the DAO programs read of a token account.
#[derive(Clone, Copy, Debug, PartialEq, Eq)]
pub struct TokenAccountFields {
    pub mint: Key,
    pub owner: Key,
    pub amount: u64,
}

pub struct TokenAccountFieldsView {
    pub mint: Seq<u8>,
    pub owner: Seq<u8>,
    pub amount: u64,
}

impl View for TokenAccountFields {
    type V = TokenAccountFieldsView;

    open spec fn view(&self) -> TokenAccountFieldsView {
        TokenAccountFieldsView { mint: self.mint@, owner: self.owner@, amount: self.amount }
    }
}

/// The little-endian number held by the eight bytes of `s` from `at`.
pub open spec fn le_u64(s: Seq<u8>, at: int) -> int {
    s[at] + 0x100 * s[at + 1] + 0x1_0000 * s[at + 2] + 0x100_0000 * s[at + 3] + 0x1_0000_0000 * s[at
        + 4] + 0x100_0000_0000 * s[at + 5] + 0x1_0000_0000_0000 * s[at + 6] + 0x100_0000_0000_0000
        * s[at + 7]
}

/// The four bytes from `at` hold an optional-value tag: `[0, 0, 0, 0]` or `[1, 0, 0, 0]`.
pub open spec fn option_tag_ok(s: Seq<u8>, at: int) -> bool {
    (s[at] == 0 || s[at] == 1) && s[at + 1] == 0 && s[at + 2] == 0 && s[at + 3] == 0
}

/// The first 165 bytes of `data` have a token account's layout: well-formed optional-value
/// tags at 72, 109 and 129, and an account state (byte 108) that is uninitialized (0),
/// initialized (1) or frozen (2).
pub open spec fn token_account_base_ok(data: Seq<u8>) -> bool {
    &&& option_tag_ok(data, 72)
    &&& option_tag_ok(data, 109)
    &&& option_tag_ok(data, 129)
    &&& data[108] <= 2
}

/// What the DAO programs read of the token account held in the first 165 bytes of `data`:
/// the mint in bytes 0..32, the owner in 32..64, the amount in 64..72 (little endian).
pub open spec fn token_account_fields(data: Seq<u8>) -> TokenAccountFieldsView {
    TokenAccountFieldsView {
        mint: data.subrange(0, 32),
        owner: data.subrange(32, 64),
        amount: le_u64(data, 64) as u64,
    }
}

/// The token account that `data` holds in the token program's layout: exactly 165 bytes with
/// a token account's layout, whose state is not uninitialized.
pub open spec fn token_account_layout(data: Seq<u8>) -> Result<TokenAccountFieldsView, TokenReadError> {
    if data.len() != 165 || !token_account_base_ok(data) {
        Err(TokenReadError::InvalidAccountData)
    } else if data[108] == 0 {
        Err(TokenReadError::UninitializedAccount)
    } else {
        Ok(token_account_fields(data))
    }
}

/// The token account that `data` holds in the layout that both token programs share: a token
/// account in the first 165 bytes, whose state is not uninitialized, then either nothing or
/// an account type byte (165) marking a token account (2) and at least one byte of extension
/// data. A length under 165, or of 355 (a multisig account), is refused.
pub open spec fn token_interface_account_layout(data: Seq<u8>) -> Result<TokenAccountFieldsView, TokenReadError> {
    if data.len() < 165 || data.len() == 355 || !token_account_base_ok(data) {
        Err(TokenReadError::InvalidAccountData)
    } else if data[108] == 0 {
        Err(TokenReadError::UninitializedAccount)
    } else if !(data.len() == 165 || (data.len() >= 167 && data[165] == 2)) {
        Err(TokenReadError::InvalidAccountData)
    } else {
        Ok(token_account_fields(data))
    }
}

/// Calls `<anchor_spl::token::TokenAccount as AccountDeserialize>::try_deserialize`, which
/// unpacks the token program's account layout from raw account data (the token program's
/// `Account::unpack`). Claimed: it gives what `token_account_layout` says, the program error
/// `UninitializedAccount` told apart from every other refusal.
#[verifier::external_body]
pub(crate) fn read_token_account(data: &Vec<u8>) -> (r: Result<TokenAccountFields, TokenReadError>)
    ensures
        match r {
            Ok(f) => token_account_layout(data@) == Ok::<TokenAccountFieldsView, TokenReadError>(f@),
            Err(e) => token_account_layout(data@) == Err::<TokenAccountFieldsView, TokenReadError>(e),
        },
{
    match anchor_spl::token::TokenAccount::try_deserialize(&mut data.as_slice()) {
        Ok(a) => Ok(TokenAccountFields {
            mint: Key { bytes: a.mint.to_bytes() },
            owner: Key { bytes: a.owner.to_bytes() },
            amount: a.amount,
        }),
        Err(e) => match ProgramError::from(e) {
            ProgramError::UninitializedAccount => Err(TokenReadError::UninitializedAccount),
            _ => Err(TokenReadError::InvalidAccountData),
        },
    }
}

/// Calls `<anchor_spl::token_interface::TokenAccount as AccountDeserialize>::try_deserialize`,
/// which reads a token account of either token program: the base account through the token
/// 2022 program's `Account::unpack`, then the account type byte that precedes any extension
/// data (`StateWithExtensions::unpack`). Claimed: it gives what
/// `token_interface_account_layout` says, the program error `UninitializedAccount` told apart
/// from every other refusal. The extension data after the type byte is not read.
#[verifier::external_body]
pub(crate) fn read_token_interface_account(data: &Vec<u8>) -> (r: Result<TokenAccountFields, TokenReadError>)
    ensures
        match r {
            Ok(f) => token_interface_account_layout(data@) == Ok::<TokenAccountFieldsView, TokenReadError>(f@),
            Err(e) => token_interface_account_layout(data@) == Err::<TokenAccountFieldsView, TokenReadError>(e),
        },
{
    match anchor_spl::token_interface::TokenAccount::try_deserialize(&mut data.as_slice()) {
        Ok(a) => Ok(TokenAccountFields {
            mint: Key { bytes: a.mint.to_bytes() },
            owner: Key { bytes: a.owner.to_bytes() },
            amount: a.amount,
        }),
        Err(e) => match ProgramError::from(e) {
            ProgramError::UninitializedAccount => Err(TokenReadError::UninitializedAccount),
            _ => Err(TokenReadError::InvalidAccountData),
        },
    }
}

/// An account handed to an instruction: its address, the program that owns it, its lamports
/// and its raw data.
#[derive(Clone, Debug, PartialEq, Eq)]
pub struct RawAccount {
    pub address: Key,
    pub owner: Key,
    pub lamports: u64,
    pub data: Vec<u8>,
}

pub struct RawAccountView {
    pub address: Seq<u8>,
    pub owner: Seq<u8>,
    pub lamports: u64,
    pub data: Seq<u8>,
}

impl View for RawAccount {
    type V = RawAccountView;

    open spec fn view(&self) -> RawAccountView {
        RawAccountView {
            address: self.address@,
            owner: self.owner@,
            lamports: self.lamports,
            data: self.data@,
        }
    }
}

pub open spec fn raw_accounts_view(s: Seq<RawAccount>) -> Seq<RawAccountView> {
    s.map_values(|a: RawAccount| a@)
}

/// A transfer out of the vault: `amount` tokens to the token account at `to`.
#[derive(Clone, Copy, Debug, PartialEq, Eq)]
pub struct Payout {
    pub to: Key,
    pub amount: u64,
}

pub struct PayoutView {
    pub to: Seq<u8>,
    pub amount: u64,
}

impl View for Payout {
    type V = PayoutView;

    open spec fn view(&self) -> PayoutView {
        PayoutView { to: self.to@, amount: self.amount }
    }
}

pub open spec fn payouts_view(s: Seq<Payout>) -> Seq<PayoutView> {
    s.map_values(|p: Payout| p@)
}

} // verus!
