use anchor_lang::prelude::Pubkey;
use anchor_lang::solana_program::program_option::COption;
use anchor_lang::solana_program::program_pack::Pack;
use anchor_spl::token::spl_token::state::{Account, AccountState};

use fridge_dao::dao::error::Error as DaoError;
use fridge_dao::dao::removal::remove_valid_keys;
use fridge_dao::dao::state::{FridgeDao, UserWithBalance};
use fridge_dao::key::Key;
use fridge_dao::mint::error::Error;
use fridge_dao::mint::ops::{
    blacklist_keys, deposit, init_mint, proposal_payout, whitelist_keys, withdraw,
    withdraw_proposal_amount,
};
use fridge_dao::mint::state::{DAOMint, UserWithTokenAcct};
use fridge_dao::spl::{Payout, RawAccount};

fn key(b: u8) -> Key {
    Key { bytes: [b; 32] }
}

fn ata(wallet: &Key, mint: &Key) -> Key {
    let a = anchor_spl::associated_token::get_associated_token_address(
        &Pubkey::new_from_array(wallet.bytes),
        &Pubkey::new_from_array(mint.bytes),
    );
    Key { bytes: a.to_bytes() }
}

/// The token program's packed form of a token account.
fn token_data(mint: &Key, owner: &Key, amount: u64, state: AccountState) -> Vec<u8> {
    let account = Account {
        mint: Pubkey::new_from_array(mint.bytes),
        owner: Pubkey::new_from_array(owner.bytes),
        amount,
        delegate: COption::None,
        state,
        is_native: COption::None,
        delegated_amount: 0,
        close_authority: COption::None,
    };
    let mut data = vec![0u8; Account::LEN];
    Account::pack(account, &mut data).unwrap();
    data
}

/// An account of the token program at `address` holding `data`.
fn acct(address: Key, data: Vec<u8>) -> RawAccount {
    RawAccount { address, owner: Key { bytes: anchor_spl::token::ID.to_bytes() }, lamports: 2_039_280, data }
}

const USDC: u8 = 100;

fn mint_with(members: Vec<UserWithTokenAcct>) -> DAOMint {
    DAOMint {
        admin: key(2),
        vault: key(3),
        usdc_mint: key(USDC),
        dao_program: key(4),
        mint_authority_bump: 0,
        bump: 0,
        valid_member_keys: members,
    }
}

#[test]
fn init_mint_requires_the_admins_associated_account() {
    let admin = key(2);
    let usdc = key(USDC);
    // the wallet itself is not its associated token account
    assert_eq!(init_mint(&admin, &key(3), &usdc, &key(4), 9, &admin), Err(Error::InvalidTokenAccount));
    let account = ata(&admin, &usdc);
    let m = init_mint(&admin, &key(3), &usdc, &key(4), 9, &account).unwrap();
    assert_eq!(m.valid_member_keys, vec![UserWithTokenAcct { key: admin, token_account: account }]);
    assert_eq!(m.bump, 9);
    assert_eq!(m.usdc_mint, usdc);
}

#[test]
fn mint_whitelist_reads_token_balances() {
    let mut m = mint_with(vec![UserWithTokenAcct { key: key(2), token_account: key(20) }]);
    let accounts = vec![
        acct(key(50), token_data(&key(USDC), &key(5), 70, AccountState::Initialized)),
        acct(key(60), token_data(&key(USDC), &key(6), 0, AccountState::Frozen)),
    ];
    assert_eq!(whitelist_keys(&mut m, &key(2), &vec![key(5), key(6)], &accounts), Ok(vec![70, 0]));
    assert_eq!(
        m.valid_member_keys,
        vec![
            UserWithTokenAcct { key: key(2), token_account: key(20) },
            UserWithTokenAcct { key: key(5), token_account: key(50) },
            UserWithTokenAcct { key: key(6), token_account: key(60) },
        ]
    );
}

#[test]
fn mint_whitelist_refusals() {
    let mut m = mint_with(vec![UserWithTokenAcct { key: key(2), token_account: key(20) }]);
    let good = acct(key(50), token_data(&key(USDC), &key(5), 70, AccountState::Initialized));
    let before = m.clone();
    assert_eq!(whitelist_keys(&mut m, &key(2), &vec![key(5)], &vec![]), Err(Error::MismatchingRemainingAccountsLength));
    assert_eq!(whitelist_keys(&mut m, &key(9), &vec![key(5)], &vec![good.clone()]), Err(Error::InvalidAuthority));
    assert_eq!(whitelist_keys(&mut m, &key(2), &vec![key(2)], &vec![good.clone()]), Err(Error::KeyAlreadyAdded));
    assert_eq!(
        whitelist_keys(&mut m, &key(2), &vec![key(5), key(5)], &vec![good.clone(), good.clone()]),
        Err(Error::DuplicateKeys)
    );
    let wrong_owner = acct(key(50), token_data(&key(USDC), &key(7), 1, AccountState::Initialized));
    assert_eq!(whitelist_keys(&mut m, &key(2), &vec![key(5)], &vec![wrong_owner]), Err(Error::InvalidTokenAccount));
    let wrong_mint = acct(key(50), token_data(&key(101), &key(5), 1, AccountState::Initialized));
    assert_eq!(whitelist_keys(&mut m, &key(2), &vec![key(5)], &vec![wrong_mint]), Err(Error::InvalidMint));
    let uninitialized = acct(key(50), token_data(&key(USDC), &key(5), 1, AccountState::Uninitialized));
    assert_eq!(whitelist_keys(&mut m, &key(2), &vec![key(5)], &vec![uninitialized]), Err(Error::UninitializedAccount));
    let short = acct(key(50), vec![0u8; 164]);
    assert_eq!(whitelist_keys(&mut m, &key(2), &vec![key(5)], &vec![short]), Err(Error::InvalidAccountData));
    let mut bad_tag = token_data(&key(USDC), &key(5), 1, AccountState::Initialized);
    bad_tag[72] = 2;
    assert_eq!(
        whitelist_keys(&mut m, &key(2), &vec![key(5)], &vec![acct(key(50), bad_tag)]),
        Err(Error::InvalidAccountData)
    );
    assert_eq!(m, before);
    let many: Vec<Key> = (10..30).map(key).collect();
    let many_accounts: Vec<RawAccount> = many.iter().map(|_| good.clone()).collect();
    assert_eq!(whitelist_keys(&mut m, &key(2), &many, &many_accounts), Err(Error::MaxMembers));
}

#[test]
fn mint_blacklist_pays_back_token_balances() {
    let usdc = key(USDC);
    let mut m = mint_with(vec![
        UserWithTokenAcct { key: key(2), token_account: key(20) },
        UserWithTokenAcct { key: key(5), token_account: key(50) },
        UserWithTokenAcct { key: key(6), token_account: key(60) },
    ]);
    let five = ata(&key(5), &usdc);
    let accounts = vec![
        acct(five, token_data(&usdc, &key(5), 70, AccountState::Initialized)),
        acct(key(61), token_data(&usdc, &key(6), 0, AccountState::Initialized)),
    ];
    assert_eq!(
        blacklist_keys(&mut m, &vec![key(5), key(6)], &accounts),
        Ok(vec![Payout { to: five, amount: 70 }])
    );
    assert_eq!(m.valid_member_keys, vec![UserWithTokenAcct { key: key(2), token_account: key(20) }]);
}

#[test]
fn mint_blacklist_refusals() {
    let usdc = key(USDC);
    let mut m = mint_with(vec![UserWithTokenAcct { key: key(5), token_account: key(50) }]);
    let before = m.clone();
    let wrong_place = acct(key(50), token_data(&usdc, &key(5), 70, AccountState::Initialized));
    assert_eq!(blacklist_keys(&mut m, &vec![key(5)], &vec![]), Err(Error::MismatchingRemainingAccountsLength));
    assert_eq!(blacklist_keys(&mut m, &vec![key(5)], &vec![wrong_place.clone()]), Err(Error::InvalidTokenAccount));
    assert_eq!(blacklist_keys(&mut m, &vec![key(9)], &vec![wrong_place.clone()]), Err(Error::KeyDoesNotExist));
    assert_eq!(
        blacklist_keys(&mut m, &vec![key(5), key(5)], &vec![wrong_place.clone(), wrong_place.clone()]),
        Err(Error::InvalidTokenAccount)
    );
    let other_owner = acct(key(50), token_data(&usdc, &key(6), 70, AccountState::Initialized));
    assert_eq!(blacklist_keys(&mut m, &vec![key(5)], &vec![other_owner]), Err(Error::InvalidTokenAccountOwner));
    assert_eq!(m, before);
}

#[test]
fn mint_member_checks() {
    let m = mint_with(vec![UserWithTokenAcct { key: key(5), token_account: key(50) }]);
    assert_eq!(deposit(&m, &key(5)), Ok(()));
    assert_eq!(deposit(&m, &key(6)), Err(Error::InvalidMember));
    assert_eq!(withdraw(&m, &key(5), &key(USDC)), Ok(()));
    assert_eq!(withdraw(&m, &key(5), &key(101)), Err(Error::InvalidMint));
    assert_eq!(withdraw(&m, &key(6), &key(USDC)), Err(Error::InvalidMember));
    assert_eq!(withdraw_proposal_amount(&m, &key(2)), Ok(()));
    assert_eq!(withdraw_proposal_amount(&m, &key(5)), Err(Error::InvalidAuthority));
    assert_eq!(proposal_payout(100, 100), Ok(100));
    assert_eq!(proposal_payout(99, 100), Err(Error::InsufficientFunds));
}

fn dao_with(members: Vec<UserWithBalance>) -> FridgeDao {
    FridgeDao {
        mint_admin_program: key(1),
        admin: key(2),
        vault_balance: 0,
        bump: 0,
        proposal_count: 0,
        vote_period: 100,
        vote_cooldown: 50,
        next_vote_allowed_at: 1000,
        proposals: Vec::new(),
        valid_member_keys: members,
        tie: None,
        recent_winner: None,
    }
}

#[test]
fn remove_valid_keys_pays_members_with_a_balance() {
    let usdc = key(USDC);
    let mut dao = dao_with(vec![
        UserWithBalance { key: key(5), balance: 30 },
        UserWithBalance { key: key(6), balance: 0 },
        UserWithBalance { key: key(7), balance: 4 },
    ]);
    let five = ata(&key(5), &usdc);
    let accounts = vec![
        acct(five, token_data(&usdc, &key(5), 1, AccountState::Initialized)),
        // not read: the member has no balance
        RawAccount { address: key(66), owner: key(0), lamports: 0, data: vec![] },
    ];
    assert_eq!(
        remove_valid_keys(&mut dao, &key(2), &vec![key(5), key(6)], &accounts, &usdc, &usdc),
        Ok(vec![Payout { to: five, amount: 30 }])
    );
    assert_eq!(dao.valid_member_keys, vec![UserWithBalance { key: key(7), balance: 4 }]);
}

#[test]
fn remove_valid_keys_refusals() {
    let usdc = key(USDC);
    let mut dao = dao_with(vec![UserWithBalance { key: key(5), balance: 30 }]);
    let before = dao.clone();
    let five = ata(&key(5), &usdc);
    let good = acct(five, token_data(&usdc, &key(5), 1, AccountState::Initialized));
    let keys = vec![key(5)];
    assert_eq!(remove_valid_keys(&mut dao, &key(9), &keys, &vec![good.clone()], &usdc, &usdc), Err(DaoError::InvalidAuthority));
    assert_eq!(remove_valid_keys(&mut dao, &key(2), &keys, &vec![], &usdc, &usdc), Err(DaoError::MismatchingRemainingAccountsLength));
    assert_eq!(remove_valid_keys(&mut dao, &key(2), &keys, &vec![good.clone()], &key(101), &usdc), Err(DaoError::InvalidMint));
    assert_eq!(remove_valid_keys(&mut dao, &key(2), &vec![key(9)], &vec![good.clone()], &usdc, &usdc), Err(DaoError::KeyDoesNotExist));
    assert_eq!(
        remove_valid_keys(&mut dao, &key(2), &vec![key(5), key(5)], &vec![good.clone(), good.clone()], &usdc, &usdc),
        Err(DaoError::DuplicateKeys)
    );
    let not_owned = acct(five, token_data(&usdc, &key(6), 1, AccountState::Initialized));
    assert_eq!(remove_valid_keys(&mut dao, &key(2), &keys, &vec![not_owned], &usdc, &usdc), Err(DaoError::InvalidTokenAccountOwner));
    let other_coin = acct(five, token_data(&key(101), &key(5), 1, AccountState::Initialized));
    assert_eq!(remove_valid_keys(&mut dao, &key(2), &keys, &vec![other_coin], &usdc, &usdc), Err(DaoError::InvalidMint));
    let elsewhere = acct(key(5), token_data(&usdc, &key(5), 1, AccountState::Initialized));
    assert_eq!(remove_valid_keys(&mut dao, &key(2), &keys, &vec![elsewhere], &usdc, &usdc), Err(DaoError::InvalidTokenAccount));
    assert_eq!(dao, before);
}

#[test]
fn remove_valid_keys_loads_token_accounts() {
    let usdc = key(USDC);
    let mut dao = dao_with(vec![UserWithBalance { key: key(5), balance: 30 }]);
    let before = dao.clone();
    let five = ata(&key(5), &usdc);
    let keys = vec![key(5)];
    let data = token_data(&usdc, &key(5), 1, AccountState::Initialized);
    let missing = RawAccount { address: five, owner: key(0), lamports: 0, data: vec![] };
    assert_eq!(remove_valid_keys(&mut dao, &key(2), &keys, &vec![missing], &usdc, &usdc), Err(DaoError::AccountNotInitialized));
    let funded_wallet = RawAccount { address: five, owner: key(0), lamports: 1, data: data.clone() };
    assert_eq!(
        remove_valid_keys(&mut dao, &key(2), &keys, &vec![funded_wallet], &usdc, &usdc),
        Err(DaoError::AccountOwnedByWrongProgram)
    );
    let elsewhere_owned = RawAccount { address: five, owner: key(9), lamports: 1, data: data.clone() };
    assert_eq!(
        remove_valid_keys(&mut dao, &key(2), &keys, &vec![elsewhere_owned], &usdc, &usdc),
        Err(DaoError::AccountOwnedByWrongProgram)
    );
    let empty = acct(five, vec![]);
    assert_eq!(remove_valid_keys(&mut dao, &key(2), &keys, &vec![empty], &usdc, &usdc), Err(DaoError::InvalidAccountData));
    let uninitialized = acct(five, token_data(&usdc, &key(5), 1, AccountState::Uninitialized));
    assert_eq!(
        remove_valid_keys(&mut dao, &key(2), &keys, &vec![uninitialized], &usdc, &usdc),
        Err(DaoError::UninitializedAccount)
    );
    assert_eq!(dao, before);
    let mut extended = data.clone();
    extended.extend_from_slice(&[2, 0]);
    let of_token_2022 = RawAccount {
        address: five,
        owner: Key { bytes: anchor_spl::token_2022::ID.to_bytes() },
        lamports: 1,
        data: extended,
    };
    assert_eq!(
        remove_valid_keys(&mut dao, &key(2), &keys, &vec![of_token_2022], &usdc, &usdc),
        Ok(vec![Payout { to: five, amount: 30 }])
    );
    assert!(dao.valid_member_keys.is_empty());
}

#[test]
fn mint_blacklist_reads_either_token_program_layout() {
    let usdc = key(USDC);
    let mut extended = token_data(&usdc, &key(5), 0, AccountState::Initialized);
    extended.extend_from_slice(&[2, 0]);
    let members = vec![UserWithTokenAcct { key: key(5), token_account: key(50) }];

    // the whitelist reads the token program's layout only
    let mut m = mint_with(vec![]);
    assert_eq!(
        whitelist_keys(&mut m, &key(2), &vec![key(5)], &vec![acct(key(50), extended.clone())]),
        Err(Error::InvalidAccountData)
    );

    let mut m = mint_with(members.clone());
    assert_eq!(
        blacklist_keys(&mut m, &vec![key(5)], &vec![acct(key(50), extended.clone())]),
        Ok(vec![])
    );
    assert!(m.valid_member_keys.is_empty());

    let mut wrong_type = extended.clone();
    wrong_type[165] = 1;
    let mut m = mint_with(members.clone());
    assert_eq!(
        blacklist_keys(&mut m, &vec![key(5)], &vec![acct(key(50), wrong_type)]),
        Err(Error::InvalidAccountData)
    );
    let mut one_extra = token_data(&usdc, &key(5), 0, AccountState::Initialized);
    one_extra.push(2);
    assert_eq!(
        blacklist_keys(&mut m, &vec![key(5)], &vec![acct(key(50), one_extra)]),
        Err(Error::InvalidAccountData)
    );
}
