use fridge_dao::dao::error::Error;
use fridge_dao::dao::members::{
    add_valid_address, add_valid_addresses, add_valid_keys, blacklist_keys, deposit,
    remove_valid_address, remove_valid_addresses, whitelist_keys, withdraw,
};
use fridge_dao::dao::proposals::initialize;
use fridge_dao::dao::state::{FridgeDao, UserWithBalance};
use fridge_dao::key::Key;

fn key(b: u8) -> Key {
    Key { bytes: [b; 32] }
}

fn member(b: u8, balance: u64) -> UserWithBalance {
    UserWithBalance { key: key(b), balance }
}

/// A DAO run by mint program 1 and admin 2, with the given members.
fn dao_with(members: Vec<UserWithBalance>) -> FridgeDao {
    FridgeDao {
        mint_admin_program: key(1),
        admin: key(2),
        vault_balance: 0,
        bump: 0,
        proposal_count: 0,
        vote_period: 100,
        vote_cooldown: 50,
        next_vote_allowed_at: 1000,
        proposals: Vec::new(),
        valid_member_keys: members,
        tie: None,
        recent_winner: None,
    }
}

#[test]
fn initialize_starts_with_the_admin_as_only_member() {
    let dao = initialize(&key(1), &key(2), 254, 600, 30, 1_000, 77);
    assert_eq!(dao.mint_admin_program, key(1));
    assert_eq!(dao.admin, key(2));
    assert_eq!(dao.bump, 254);
    assert_eq!(dao.vote_period, 600);
    assert_eq!(dao.vote_cooldown, 1_209_600);
    assert_eq!(dao.next_vote_allowed_at, 1_030);
    assert_eq!(dao.proposal_count, 0);
    assert_eq!(dao.vault_balance, 0);
    assert!(dao.proposals.is_empty());
    assert_eq!(dao.valid_member_keys, vec![member(2, 77)]);
    assert_eq!(dao.tie, None);
    assert_eq!(dao.recent_winner, None);
}

#[test]
fn deposit_credits_the_first_matching_member() {
    let mut dao = dao_with(vec![member(5, 10), member(6, 20), member(6, 30)]);
    assert_eq!(deposit(&mut dao, &key(1), &key(6), 5), Ok(()));
    assert_eq!(dao.valid_member_keys, vec![member(5, 10), member(6, 25), member(6, 30)]);
}

#[test]
fn deposit_refusals_leave_the_dao_unchanged() {
    let mut dao = dao_with(vec![member(5, u64::MAX - 1)]);
    let before = dao.clone();
    assert_eq!(deposit(&mut dao, &key(9), &key(5), 1), Err(Error::InvalidAuthority));
    assert_eq!(deposit(&mut dao, &key(1), &key(9), 1), Err(Error::InvalidMember));
    assert_eq!(deposit(&mut dao, &key(1), &key(5), 2), Err(Error::MathOverflowOrUnderflow));
    assert_eq!(dao, before);
    assert_eq!(deposit(&mut dao, &key(1), &key(5), 1), Ok(()));
    assert_eq!(dao.valid_member_keys[0].balance, u64::MAX);
}

#[test]
fn withdraw_debits_and_refuses_overdrafts() {
    let mut dao = dao_with(vec![member(5, 10)]);
    assert_eq!(withdraw(&mut dao, &key(1), &key(5), 11), Err(Error::InvalidAmount));
    assert_eq!(withdraw(&mut dao, &key(2), &key(5), 1), Err(Error::InvalidAuthority));
    assert_eq!(withdraw(&mut dao, &key(1), &key(6), 1), Err(Error::InvalidMember));
    assert_eq!(withdraw(&mut dao, &key(1), &key(5), 10), Ok(()));
    assert_eq!(dao.valid_member_keys, vec![member(5, 0)]);
}

#[test]
fn deposit_then_withdraw_restores_the_dao() {
    let mut dao = dao_with(vec![member(5, 10), member(6, 3)]);
    let before = dao.clone();
    assert_eq!(deposit(&mut dao, &key(1), &key(6), 40), Ok(()));
    assert_eq!(withdraw(&mut dao, &key(1), &key(6), 40), Ok(()));
    assert_eq!(dao, before);
}

#[test]
fn whitelist_pairs_keys_with_amounts() {
    let mut dao = dao_with(vec![member(5, 10)]);
    assert_eq!(whitelist_keys(&mut dao, &key(2), &vec![key(7)], &vec![1]), Err(Error::InvalidAuthority));
    assert_eq!(
        whitelist_keys(&mut dao, &key(1), &vec![key(7), key(8), key(9)], &vec![70, 80]),
        Ok(())
    );
    assert_eq!(dao.valid_member_keys, vec![member(5, 10), member(7, 70), member(8, 80)]);
}

#[test]
fn blacklist_removes_every_listed_member() {
    let mut dao = dao_with(vec![member(5, 10), member(6, 1), member(5, 2), member(7, 3)]);
    assert_eq!(blacklist_keys(&mut dao, &key(2), &vec![key(5)]), Err(Error::InvalidAuthority));
    assert_eq!(blacklist_keys(&mut dao, &key(1), &vec![key(5), key(9)]), Ok(()));
    assert_eq!(dao.valid_member_keys, vec![member(6, 1), member(7, 3)]);
}

#[test]
fn whitelist_then_blacklist_restores_the_members() {
    let mut dao = dao_with(vec![member(5, 10), member(6, 1)]);
    let before = dao.clone();
    assert_eq!(whitelist_keys(&mut dao, &key(1), &vec![key(7), key(8)], &vec![4, 5]), Ok(()));
    assert_eq!(blacklist_keys(&mut dao, &key(1), &vec![key(7), key(8)]), Ok(()));
    assert_eq!(dao, before);
}

#[test]
fn add_valid_keys_checks_in_order() {
    let mut dao = dao_with(vec![member(5, 10)]);
    let many: Vec<Key> = (10..30).map(key).collect();
    assert_eq!(add_valid_keys(&mut dao, &key(9), &many), Err(Error::MaxMembers));
    assert_eq!(add_valid_keys(&mut dao, &key(9), &vec![key(6)]), Err(Error::InvalidAuthority));
    assert_eq!(add_valid_keys(&mut dao, &key(2), &vec![key(6), key(5)]), Err(Error::KeyAlreadyAdded));
    assert_eq!(add_valid_keys(&mut dao, &key(2), &vec![key(6), key(6), key(5)]), Err(Error::DuplicateKeys));
    assert_eq!(dao.valid_member_keys, vec![member(5, 10)]);
    assert_eq!(add_valid_keys(&mut dao, &key(2), &vec![key(6), key(7)]), Ok(()));
    assert_eq!(dao.valid_member_keys, vec![member(5, 10), member(6, 0), member(7, 0)]);
}

#[test]
fn add_valid_keys_fills_up_to_the_limit() {
    let mut dao = dao_with(vec![member(5, 10)]);
    let nineteen: Vec<Key> = (10..29).map(key).collect();
    assert_eq!(add_valid_keys(&mut dao, &key(2), &nineteen), Ok(()));
    assert_eq!(dao.valid_member_keys.len(), 20);
    assert_eq!(add_valid_keys(&mut dao, &key(2), &vec![key(40)]), Err(Error::MaxMembers));
}

#[test]
fn single_addresses_come_and_go() {
    let mut dao = dao_with(vec![member(5, 10)]);
    assert_eq!(add_valid_address(&mut dao, &key(9), &key(6)), Err(Error::InvalidAuthority));
    assert_eq!(add_valid_address(&mut dao, &key(2), &key(5)), Err(Error::AddressAlreadyAdded));
    assert_eq!(add_valid_address(&mut dao, &key(2), &key(6)), Ok(()));
    assert_eq!(dao.valid_member_keys, vec![member(5, 10), member(6, 0)]);
    assert_eq!(remove_valid_address(&mut dao, &key(9), &key(6)), Err(Error::InvalidAuthority));
    assert_eq!(remove_valid_address(&mut dao, &key(2), &key(7)), Err(Error::AddressDoesNotExist));
    assert_eq!(remove_valid_address(&mut dao, &key(2), &key(5)), Ok(()));
    assert_eq!(dao.valid_member_keys, vec![member(6, 0)]);
}

#[test]
fn several_addresses_come_and_go() {
    let mut dao = dao_with(vec![member(5, 10)]);
    assert_eq!(add_valid_addresses(&mut dao, &key(2), &vec![key(6), key(6)]), Err(Error::DuplicateAddress));
    assert_eq!(add_valid_addresses(&mut dao, &key(2), &vec![key(6), key(5)]), Err(Error::AddressAlreadyAdded));
    assert_eq!(add_valid_addresses(&mut dao, &key(2), &vec![key(6), key(7)]), Ok(()));
    assert_eq!(dao.valid_member_keys.len(), 3);
    assert_eq!(remove_valid_addresses(&mut dao, &key(2), &vec![key(6), key(8)]), Err(Error::AddressDoesNotExist));
    assert_eq!(dao.valid_member_keys.len(), 3);
    assert_eq!(remove_valid_addresses(&mut dao, &key(2), &vec![key(6), key(5)]), Ok(()));
    assert_eq!(dao.valid_member_keys, vec![member(7, 0)]);
}
