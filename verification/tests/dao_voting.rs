use fridge_dao::dao::error::Error;
use fridge_dao::dao::proposals::{
    cancel_proposal, choose_proposal, propose, resolve_tie, retrieve_winner, vote,
};
use fridge_dao::dao::state::{FridgeDao, Proposal, Tie, UserWithBalance};
use fridge_dao::dao::voting::{compute_winner, get_voting_end, scan_candidates, Candidate, ChoiceEvent};
use fridge_dao::key::Key;

fn key(b: u8) -> Key {
    Key { bytes: [b; 32] }
}

fn member(b: u8, balance: u64) -> UserWithBalance {
    UserWithBalance { key: key(b), balance }
}

fn dao_with(members: Vec<UserWithBalance>) -> FridgeDao {
    FridgeDao {
        mint_admin_program: key(1),
        admin: key(2),
        vault_balance: 1000,
        bump: 0,
        proposal_count: 0,
        vote_period: 100,
        vote_cooldown: 50,
        next_vote_allowed_at: 1000,
        proposals: Vec::new(),
        valid_member_keys: members,
        tie: None,
        recent_winner: None,
    }
}

fn proposal(id: u64, voters: Vec<Key>, proposer: u8, price: u64) -> Proposal {
    Proposal {
        identifier: id,
        voters,
        proposer: key(proposer),
        description: format!("proposal {}", id),
        bump: 3,
        price,
    }
}

#[test]
fn voting_end_adds_the_period() {
    let mut dao = dao_with(vec![]);
    assert_eq!(get_voting_end(&dao), Ok(1100));
    dao.next_vote_allowed_at = i64::MAX;
    assert_eq!(get_voting_end(&dao), Err(Error::MathOverflowOrUnderflow));
    dao.next_vote_allowed_at = 0;
    dao.vote_period = u64::MAX;
    assert_eq!(get_voting_end(&dao), Ok(-1));
}

#[test]
fn propose_numbers_proposals() {
    let mut dao = dao_with(vec![member(5, 10)]);
    assert_eq!(
        propose(&mut dao, &key(9), &key(40), "x".to_string(), 1, 0),
        Err(Error::InvalidMember)
    );
    let p = propose(&mut dao, &key(5), &key(40), "fridge".to_string(), 300, 7).unwrap();
    assert_eq!(p, Proposal { identifier: 1, voters: vec![], proposer: key(5), description: "fridge".to_string(), bump: 7, price: 300 });
    let q = propose(&mut dao, &key(5), &key(41), "oven".to_string(), 200, 8).unwrap();
    assert_eq!(q.identifier, 2);
    assert_eq!(dao.proposal_count, 2);
    assert_eq!(dao.proposals, vec![key(40), key(41)]);
}

#[test]
fn propose_stops_at_the_limit() {
    let mut dao = dao_with(vec![member(5, 10)]);
    dao.proposal_count = 15;
    let before = dao.clone();
    assert_eq!(
        propose(&mut dao, &key(5), &key(40), "x".to_string(), 1, 0),
        Err(Error::AtMaxProposals)
    );
    assert_eq!(dao, before);
}

#[test]
fn vote_records_a_member_once_inside_the_period() {
    let dao = dao_with(vec![member(5, 10), member(6, 10)]);
    let mut p = proposal(1, vec![], 5, 10);
    assert_eq!(vote(&dao, &mut p, &key(9), 1, 1050), Err(Error::InvalidMember));
    assert_eq!(vote(&dao, &mut p, &key(5), 2, 1050), Err(Error::CouldNotFindProposal));
    assert_eq!(vote(&dao, &mut p, &key(5), 1, 999), Err(Error::NotInVotingPeriod));
    assert_eq!(vote(&dao, &mut p, &key(5), 1, 1100), Err(Error::NotInVotingPeriod));
    assert_eq!(vote(&dao, &mut p, &key(5), 1, 1000), Ok(()));
    assert_eq!(vote(&dao, &mut p, &key(5), 1, 1099), Err(Error::AlreadyVoted));
    assert_eq!(vote(&dao, &mut p, &key(6), 1, 1099), Ok(()));
    assert_eq!(p.voters, vec![key(5), key(6)]);
}

#[test]
fn cancel_needs_admin_or_proposer() {
    let mut dao = dao_with(vec![member(5, 10)]);
    dao.proposals = vec![key(40), key(41), key(40)];
    let p = proposal(1, vec![], 5, 10);
    assert_eq!(cancel_proposal(&mut dao, &key(9), &key(40), &p), Err(Error::InvalidAuthority));
    assert_eq!(cancel_proposal(&mut dao, &key(5), &key(40), &p), Ok(()));
    assert_eq!(dao.proposals, vec![key(41)]);
    assert_eq!(cancel_proposal(&mut dao, &key(2), &key(41), &p), Ok(()));
    assert!(dao.proposals.is_empty());
}

/// Members 5 (weight 3), 6 (weight 2), 7 (weight 1); proposals 40 and 41.
fn election() -> (FridgeDao, Vec<u64>) {
    let mut dao = dao_with(vec![member(5, 900), member(6, 400), member(7, 100)]);
    dao.proposals = vec![key(40), key(41)];
    (dao, vec![3, 2, 1])
}

#[test]
fn compute_winner_pays_the_best_score_out_of_the_vault() {
    let (mut dao, weights) = election();
    let cands = vec![
        Candidate { key: key(40), proposal: proposal(1, vec![key(6), key(7)], 5, 10) },
        Candidate { key: key(41), proposal: proposal(2, vec![key(5), key(7)], 6, 20) },
    ];
    let ev = compute_winner(&mut dao, &cands, &weights, 1000).unwrap();
    // scores: 3 and 4; 1000 - 4 = 996 remain
    match ev {
        ChoiceEvent::Winner(w) => {
            assert_eq!(w.price, 20);
            assert_eq!(w.description, "proposal 2");
        }
        other => panic!("unexpected {:?}", other),
    }
    assert_eq!(dao.valid_member_keys, vec![member(5, 896), member(6, 398), member(7, 99)]);
    assert_eq!(dao.recent_winner, Some(cands[1].proposal.clone()));
    assert_eq!(dao.tie, None);
}

#[test]
fn compute_winner_records_a_tie() {
    let (mut dao, weights) = election();
    let cands = vec![
        Candidate { key: key(40), proposal: proposal(1, vec![key(5)], 5, 10) },
        Candidate { key: key(41), proposal: proposal(2, vec![key(6), key(7)], 6, 20) },
    ];
    let before = dao.clone();
    let ev = compute_winner(&mut dao, &cands, &weights, 1000).unwrap();
    assert_eq!(ev, ChoiceEvent::Tie(fridge_dao::dao::state::TieEvent { score: 3, winners: vec![key(40), key(41)] }));
    assert_eq!(dao.tie, Some(Tie { score: 3, winners: vec![key(40), key(41)] }));
    assert_eq!(dao.valid_member_keys, before.valid_member_keys);
    assert_eq!(dao.recent_winner, None);
}

#[test]
fn compute_winner_counts_a_zero_score_first_candidate_as_tied_with_nobody() {
    let (mut dao, weights) = election();
    let cands = vec![Candidate { key: key(40), proposal: proposal(1, vec![], 5, 10) }];
    let ev = compute_winner(&mut dao, &cands, &weights, 1000).unwrap();
    assert_eq!(
        ev,
        ChoiceEvent::Tie(fridge_dao::dao::state::TieEvent { score: 0, winners: vec![key(0), key(40)] })
    );
}

#[test]
fn compute_winner_without_candidates_keeps_balances() {
    let (mut dao, weights) = election();
    let before = dao.clone();
    assert_eq!(compute_winner(&mut dao, &vec![], &weights, 1000), Ok(ChoiceEvent::NoWinner));
    assert_eq!(dao, before);
}

#[test]
fn compute_winner_refusals_leave_the_dao_unchanged() {
    let (mut dao, weights) = election();
    let before = dao.clone();
    let stranger = vec![Candidate { key: key(50), proposal: proposal(1, vec![], 5, 10) }];
    assert_eq!(compute_winner(&mut dao, &stranger, &weights, 1000), Err(Error::InvalidProposal));
    let outsider_vote = vec![Candidate { key: key(40), proposal: proposal(1, vec![key(5), key(9)], 5, 10) }];
    assert_eq!(compute_winner(&mut dao, &outsider_vote, &weights, 1000), Err(Error::InvalidMember));
    let rich = vec![Candidate { key: key(40), proposal: proposal(1, vec![key(5)], 5, 10) }];
    assert_eq!(compute_winner(&mut dao, &rich, &weights, 2), Err(Error::MathOverflowOrUnderflow));
    assert_eq!(compute_winner(&mut dao, &rich, &vec![1, 1, 1], u64::MAX), Err(Error::MathOverflowOrUnderflow));
    assert_eq!(dao, before);
}

#[test]
fn scan_candidates_reports_the_standing_without_paying_out() {
    let (dao, weights) = election();
    let cands = vec![
        Candidate { key: key(40), proposal: proposal(1, vec![key(6), key(7)], 5, 10) },
        Candidate { key: key(41), proposal: proposal(2, vec![key(5), key(7)], 6, 20) },
    ];
    assert_eq!(scan_candidates(&dao, &cands, &weights), Ok((4, Some(1), vec![])));
    let tied = vec![
        Candidate { key: key(40), proposal: proposal(1, vec![key(5)], 5, 10) },
        Candidate { key: key(41), proposal: proposal(2, vec![key(6), key(7)], 6, 20) },
    ];
    assert_eq!(scan_candidates(&dao, &tied, &weights), Ok((3, Some(0), vec![key(40), key(41)])));
    // a score above the vault is refused only when paying out, not while weighing
    let mut poor = dao.clone();
    poor.vault_balance = 2;
    assert_eq!(scan_candidates(&poor, &cands, &weights), Ok((4, Some(1), vec![])));
    let stranger = vec![Candidate { key: key(50), proposal: proposal(1, vec![], 5, 10) }];
    assert_eq!(scan_candidates(&dao, &stranger, &weights), Err(Error::InvalidProposal));
}

#[test]
fn compute_winner_changes_only_balances_winner_and_tie() {
    let (mut dao, weights) = election();
    let before = dao.clone();
    let cands = vec![Candidate { key: key(41), proposal: proposal(2, vec![key(5), key(7)], 6, 20) }];
    compute_winner(&mut dao, &cands, &weights, 1000).unwrap();
    let keys: Vec<Key> = dao.valid_member_keys.iter().map(|m| m.key).collect();
    assert_eq!(keys, vec![key(5), key(6), key(7)]);
    let mut expected = before.clone();
    expected.valid_member_keys = dao.valid_member_keys.clone();
    expected.recent_winner = dao.recent_winner.clone();
    expected.tie = dao.tie.clone();
    assert_eq!(dao, expected);
}

#[test]
fn choose_proposal_waits_for_the_end_and_opens_the_next_period() {
    let (mut dao, weights) = election();
    let cands = vec![Candidate { key: key(40), proposal: proposal(1, vec![key(5)], 5, 10) }];
    assert_eq!(choose_proposal(&mut dao, &key(5), 2000, &cands, &weights), Err(Error::InvalidAuthority));
    assert_eq!(choose_proposal(&mut dao, &key(2), 1100, &cands, &weights), Err(Error::VotingHasNotEnded));
    let ev = choose_proposal(&mut dao, &key(2), 1101, &cands, &weights).unwrap();
    assert!(matches!(ev, ChoiceEvent::Winner(_)));
    assert_eq!(dao.next_vote_allowed_at, 1151);
    // the vault held 1000 and 3 were paid out
    assert_eq!(dao.valid_member_keys[0].balance, 900 * 997 / 1000);
}

#[test]
fn resolve_tie_settles_once() {
    let (mut dao, _) = election();
    dao.tie = Some(Tie { score: 500, winners: vec![key(40), key(41)] });
    let winner = proposal(2, vec![key(6)], 6, 20);
    assert_eq!(resolve_tie(&mut dao, &key(5), &key(41), &winner, 5000), Err(Error::InvalidAuthority));
    assert_eq!(resolve_tie(&mut dao, &key(2), &key(42), &winner, 5000), Err(Error::ProposalNotInTies));
    let ev = resolve_tie(&mut dao, &key(2), &key(41), &winner, 5000).unwrap();
    assert_eq!(ev.price, 20);
    assert_eq!(dao.tie, None);
    assert_eq!(dao.recent_winner, Some(winner.clone()));
    assert_eq!(dao.proposals, vec![key(40)]);
    assert_eq!(dao.next_vote_allowed_at, 5050);
    assert_eq!(dao.valid_member_keys, vec![member(5, 450), member(6, 200), member(7, 50)]);
    assert_eq!(resolve_tie(&mut dao, &key(2), &key(41), &winner, 5000), Err(Error::NoTie));
}

#[test]
fn resolve_tie_refuses_a_score_above_the_vault() {
    let (mut dao, _) = election();
    dao.tie = Some(Tie { score: 1001, winners: vec![key(40)] });
    let before = dao.clone();
    let winner = proposal(1, vec![], 5, 20);
    assert_eq!(resolve_tie(&mut dao, &key(2), &key(40), &winner, 5000), Err(Error::MathOverflowOrUnderflow));
    assert_eq!(dao, before);
}

#[test]
fn retrieve_winner_hands_out_the_winner_once() {
    let (mut dao, _) = election();
    dao.proposal_count = 2;
    let winner = proposal(2, vec![key(6)], 6, 20);
    dao.recent_winner = Some(winner.clone());
    assert_eq!(retrieve_winner(&mut dao, &key(2), 2000, &key(41), 2), Err(Error::InvalidAuthority));
    assert_eq!(retrieve_winner(&mut dao, &key(1), 1100, &key(41), 2), Err(Error::VotingHasNotEnded));
    assert_eq!(retrieve_winner(&mut dao, &key(1), 2000, &key(41), 1), Err(Error::InvalidProposal));
    assert_eq!(retrieve_winner(&mut dao, &key(1), 2000, &key(41), 2), Ok(winner));
    assert_eq!(dao.proposal_count, 1);
    assert_eq!(dao.proposals, vec![key(40)]);
    assert_eq!(dao.recent_winner, None);
    assert_eq!(retrieve_winner(&mut dao, &key(1), 2000, &key(41), 2), Err(Error::NoWinner));
}

#[test]
fn compute_winner_keeps_an_earlier_tie_when_a_later_proposal_scores_higher() {
    let (mut dao, weights) = election();
    dao.proposals.push(key(42));
    let cands = vec![
        Candidate { key: key(40), proposal: proposal(1, vec![key(5)], 5, 10) },
        Candidate { key: key(41), proposal: proposal(2, vec![key(6), key(7)], 6, 20) },
        Candidate { key: key(42), proposal: proposal(3, vec![key(5), key(6)], 7, 30) },
    ];
    let ev = compute_winner(&mut dao, &cands, &weights, 1000).unwrap();
    // the recorded score is the best one (5), the tie list the one met on the way
    assert_eq!(ev, ChoiceEvent::Tie(fridge_dao::dao::state::TieEvent { score: 5, winners: vec![key(40), key(41)] }));
    assert_eq!(dao.recent_winner, None);
}

#[test]
fn vote_is_refused_when_the_period_end_overflows() {
    let mut dao = dao_with(vec![member(5, 10)]);
    dao.next_vote_allowed_at = i64::MAX - 10;
    let mut p = proposal(1, vec![], 5, 10);
    assert_eq!(vote(&dao, &mut p, &key(5), 1, i64::MAX - 5), Err(Error::MathOverflowOrUnderflow));
    assert!(p.voters.is_empty());
}
