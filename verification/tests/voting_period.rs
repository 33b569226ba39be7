use fridge_dao::dao::voting::is_in_voting_period;

#[test]
fn blocks_voting_outside_vote_period() {
    let vote_start: i64 = 1000;
    let voting_end: i64 = 2000;

    assert!(!is_in_voting_period(999, vote_start, voting_end));
    assert!(!is_in_voting_period(2000, vote_start, voting_end));
    assert!(!is_in_voting_period(2001, vote_start, voting_end));
}

#[test]
fn allows_voting_inside_vote_period() {
    let vote_start: i64 = 1000;
    let voting_end: i64 = 2000;

    assert!(is_in_voting_period(1000, vote_start, voting_end));
    assert!(is_in_voting_period(1500, vote_start, voting_end));
    assert!(is_in_voting_period(1999, vote_start, voting_end));
}
