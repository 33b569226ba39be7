use fridge_dao::dao::error::Error;
use fridge_dao::dao::proposals::update_vote_cooldown;
use fridge_dao::dao::state::FridgeDao;
use fridge_dao::key::Key;

fn key(b: u8) -> Key {
    Key { bytes: [b; 32] }
}

fn make_dao(admin: Key, vote_cooldown: u64) -> FridgeDao {
    FridgeDao {
        mint_admin_program: Key { bytes: [0; 32] },
        admin,
        vote_cooldown,
        vault_balance: 0,
        bump: 0,
        proposal_count: 0,
        vote_period: 0,
        next_vote_allowed_at: 0,
        proposals: Vec::new(),
        valid_member_keys: Vec::new(),
        tie: None,
        recent_winner: None,
    }
}

#[test]
fn rejects_identical_cooldown() {
    let admin = key(7);
    let mut dao = make_dao(admin, 100);

    assert!(dao.vote_cooldown == 100);
    let result = update_vote_cooldown(&mut dao, &admin, 100);

    assert!(result.is_err());
    assert_eq!(result, Err(Error::IdenticalCooldown));
    assert_eq!(dao.vote_cooldown, 100);
}

#[test]
fn updates_cooldown() {
    let admin = key(7);
    let mut dao = make_dao(admin, 100);

    assert!(dao.vote_cooldown != 200);
    assert_eq!(update_vote_cooldown(&mut dao, &admin, 200), Ok(()));
    assert_eq!(dao.vote_cooldown, 200);
}

#[test]
fn cooldown_update_needs_the_admin() {
    let mut dao = make_dao(key(7), 100);
    assert_eq!(update_vote_cooldown(&mut dao, &key(8), 200), Err(Error::InvalidAuthority));
    assert_eq!(dao.vote_cooldown, 100);
}

#[test]
fn cooldown_set_twice_is_refused_the_second_time() {
    let admin = key(7);
    let mut dao = make_dao(admin, 100);
    assert_eq!(update_vote_cooldown(&mut dao, &admin, 300), Ok(()));
    assert_eq!(update_vote_cooldown(&mut dao, &admin, 300), Err(Error::IdenticalCooldown));
}
