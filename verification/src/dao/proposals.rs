use vstd::prelude::*;

use crate::dao::error::Error;
use crate::dao::state::{
    member_keys, FridgeDao, FridgeDaoView, MemberView, Proposal, ProposalView, UserWithBalance,
    WinnerChosen, INITIAL_VOTE_COOLDOWN, MAX_PROPOSALS,
};
use crate::dao::voting::{
    as_signed, candidates_view, compute_winner, find_member, fits_i64, get_voting_end,
    is_in_voting_period, rescale_balances, rescaled, u64_as_i64, voting_end, winner_choice,
    Candidate, CandidateView, ChoiceEvent, ChoiceView,
};
use crate::key::{contains_key, remove_key, Key};

verus! {

/// When the voting period after next opens, counted from `now`.
pub open spec fn next_vote_time(now: i64, cooldown: u64) -> int {
    now + as_signed(cooldown)
}

/// A new DAO: `admin` is its only member, holding `admin_token_amount`; the first voting
/// period opens `time_until_first_vote` seconds after `now`.
pub fn initialize(
    mint_admin_program: &Key,
    admin: &Key,
    bump: u8,
    vote_period_len: u64,
    time_until_first_vote: u64,
    now: i64,
    admin_token_amount: u64,
) -> (dao: FridgeDao)
    requires
        fits_i64(now + as_signed(time_until_first_vote)),
    ensures
        dao@ == (FridgeDaoView {
            mint_admin_program: mint_admin_program@,
            admin: admin@,
            vault_balance: 0,
            bump: bump,
            proposal_count: 0,
            vote_period: vote_period_len,
            vote_cooldown: INITIAL_VOTE_COOLDOWN,
            next_vote_allowed_at: (now + as_signed(time_until_first_vote)) as i64,
            proposals: Seq::empty(),
            members: seq![MemberView { key: admin@, balance: admin_token_amount }],
            tie: None,
            recent_winner: None,
        }),
{
    let next_vote_time = now + u64_as_i64(time_until_first_vote);
    let mut members: Vec<UserWithBalance> = Vec::new();
    members.push(UserWithBalance { key: *admin, balance: admin_token_amount });
    let dao = FridgeDao {
        mint_admin_program: *mint_admin_program,
        admin: *admin,
        vault_balance: 0,
        bump: bump,
        proposal_count: 0,
        vote_period: vote_period_len,
        vote_cooldown: INITIAL_VOTE_COOLDOWN,
        next_vote_allowed_at: next_vote_time,
        proposals: Vec::new(),
        valid_member_keys: members,
        tie: None,
        recent_winner: None,
    };
    assert(dao@.members =~= seq![MemberView { key: admin@, balance: admin_token_amount }]);
    assert(dao@.proposals =~= Seq::empty());
    dao
}

/// Whether `k` is the address of a member.
pub open spec fn is_member(dao: FridgeDaoView, k: Seq<u8>) -> bool {
    member_keys(dao.members).contains(k)
}

/// Whether `k` is the address of a member.
pub fn has_member(dao: &FridgeDao, k: &Key) -> (r: bool)
    ensures
        r == is_member(dao@, k@),
{
    find_member(&dao.valid_member_keys, k).is_some()
}

/// A member files a proposal. The DAO records the proposal's address and counts it; the
/// proposal receives the new count as its identifier and starts without voters.
pub fn propose(
    dao: &mut FridgeDao,
    proposer: &Key,
    proposal_key: &Key,
    description: String,
    price: u64,
    bump: u8,
) -> (r: Result<Proposal, Error>)
    requires
        is_member(old(dao)@, proposer@) ==> old(dao).proposal_count < u64::MAX,
    ensures
        !is_member(old(dao)@, proposer@) ==> r == Err::<Proposal, Error>(Error::InvalidMember),
        is_member(old(dao)@, proposer@) && old(dao).proposal_count + 1 > MAX_PROPOSALS
            ==> r == Err::<Proposal, Error>(Error::AtMaxProposals),
        r is Err ==> final(dao)@ == old(dao)@,
        r is Ok <==> (is_member(old(dao)@, proposer@) && old(dao).proposal_count + 1 <= MAX_PROPOSALS),
        r matches Ok(p) ==> {
            &&& final(dao)@ == (FridgeDaoView {
                proposals: old(dao)@.proposals.push(proposal_key@),
                proposal_count: (old(dao).proposal_count + 1) as u64,
                ..old(dao)@
            })
            &&& p@ == (ProposalView {
                identifier: (old(dao).proposal_count + 1) as u64,
                voters: Seq::empty(),
                proposer: proposer@,
                description: description@,
                bump: bump,
                price: price,
            })
        },
{
    if !has_member(dao, proposer) {
        return Err(Error::InvalidMember);
    }
    if !(dao.proposal_count + 1 <= MAX_PROPOSALS as u64) {
        return Err(Error::AtMaxProposals);
    }
    let ghost d0 = dao@;
    dao.proposals.push(*proposal_key);
    dao.proposal_count = dao.proposal_count + 1;
    assert(dao@ =~= (FridgeDaoView {
        proposals: d0.proposals.push(proposal_key@),
        proposal_count: dao.proposal_count,
        ..d0
    }));
    let p = Proposal {
        identifier: dao.proposal_count,
        voters: Vec::new(),
        proposer: *proposer,
        description: description,
        bump: bump,
        price: price,
    };
    assert(p@.voters =~= Seq::empty());
    Ok(p)
}

/// Why a vote for `proposal` is refused, if it is: the voter must be a member, the
/// identifier must be the proposal's, the voter must not have voted for it yet, and `now` must
/// lie in the voting period.
pub open spec fn vote_refusal(
    dao: FridgeDaoView,
    proposal: ProposalView,
    voter: Seq<u8>,
    proposal_id: u64,
    now: i64,
) -> Option<Error> {
    if !is_member(dao, voter) {
        Some(Error::InvalidMember)
    } else if proposal_id != proposal.identifier {
        Some(Error::CouldNotFindProposal)
    } else if proposal.voters.contains(voter) {
        Some(Error::AlreadyVoted)
    } else if !fits_i64(voting_end(dao)) {
        Some(Error::MathOverflowOrUnderflow)
    } else if !(dao.next_vote_allowed_at <= now < voting_end(dao)) {
        Some(Error::NotInVotingPeriod)
    } else {
        None
    }
}

/// A member votes for a proposal while the voting period is open.
pub fn vote(dao: &FridgeDao, proposal: &mut Proposal, voter: &Key, proposal_id: u64, now: i64) -> (r: Result<(), Error>)
    ensures
        match vote_refusal(dao@, old(proposal)@, voter@, proposal_id, now) {
            Some(e) => r == Err::<(), Error>(e) && final(proposal)@ == old(proposal)@,
            None => r is Ok && final(proposal)@ == (ProposalView {
                voters: old(proposal)@.voters.push(voter@),
                ..old(proposal)@
            }),
        },
{
    if !has_member(dao, voter) {
        return Err(Error::InvalidMember);
    }
    if proposal_id != proposal.identifier {
        return Err(Error::CouldNotFindProposal);
    }
    if contains_key(&proposal.voters, voter) {
        return Err(Error::AlreadyVoted);
    }
    let end = match get_voting_end(dao) {
        Ok(e) => e,
        Err(e) => {
            return Err(e);
        },
    };
    if !is_in_voting_period(now, dao.next_vote_allowed_at, end) {
        return Err(Error::NotInVotingPeriod);
    }
    let ghost p0 = proposal@;
    proposal.voters.push(*voter);
    assert(proposal@ =~= (ProposalView { voters: p0.voters.push(voter@), ..p0 }));
    Ok(())
}

/// The admin or the proposer withdraws a proposal: its address leaves the DAO's list.
pub fn cancel_proposal(dao: &mut FridgeDao, canceller: &Key, proposal_key: &Key, proposal: &Proposal) -> (r: Result<(), Error>)
    ensures
        r is Ok <==> (canceller@ == old(dao)@.admin || canceller@ == proposal@.proposer),
        r is Err ==> r == Err::<(), Error>(Error::InvalidAuthority) && final(dao)@ == old(dao)@,
        r is Ok ==> final(dao)@ == (FridgeDaoView {
            proposals: old(dao)@.proposals.filter(|x: Seq<u8>| x != proposal_key@),
            ..old(dao)@
        }),
{
    let is_admin = canceller.same(&dao.admin);
    let is_proposer = canceller.same(&proposal.proposer);
    if !(is_admin || is_proposer) {
        return Err(Error::InvalidAuthority);
    }
    let ghost d0 = dao@;
    remove_key(&mut dao.proposals, proposal_key);
    assert(dao@ =~= (FridgeDaoView {
        proposals: d0.proposals.filter(|x: Seq<u8>| x != proposal_key@),
        ..d0
    }));
    Ok(())
}

/// Why setting the cooldown to `new_cooldown` is refused, if it is: only the admin may, and
/// only to a value other than the current one.
pub open spec fn cooldown_refusal(dao: FridgeDaoView, updater: Seq<u8>, new_cooldown: u64) -> Option<Error> {
    if updater != dao.admin {
        Some(Error::InvalidAuthority)
    } else if new_cooldown == dao.vote_cooldown {
        Some(Error::IdenticalCooldown)
    } else {
        None
    }
}

/// The admin sets a new cooldown between voting periods; it must differ from the current one.
pub fn update_vote_cooldown(dao: &mut FridgeDao, updater: &Key, new_cooldown: u64) -> (r: Result<(), Error>)
    ensures
        match cooldown_refusal(old(dao)@, updater@, new_cooldown) {
            Some(e) => r == Err::<(), Error>(e) && final(dao)@ == old(dao)@,
            None => r is Ok && final(dao)@ == (FridgeDaoView { vote_cooldown: new_cooldown, ..old(dao)@ }),
        },
{
    if !updater.same(&dao.admin) {
        return Err(Error::InvalidAuthority);
    }
    if new_cooldown == dao.vote_cooldown {
        return Err(Error::IdenticalCooldown);
    }
    dao.vote_cooldown = new_cooldown;
    Ok(())
}

/// The checks that precede choosing a winner: the admin asks, after the voting period closed.
pub open spec fn choose_refusal(dao: FridgeDaoView, chooser: Seq<u8>, now: i64) -> Option<Error> {
    if chooser != dao.admin {
        Some(Error::InvalidAuthority)
    } else if !fits_i64(voting_end(dao)) {
        Some(Error::MathOverflowOrUnderflow)
    } else if now <= voting_end(dao) {
        Some(Error::VotingHasNotEnded)
    } else {
        None
    }
}

/// The refusal, if any, that `choose_proposal` meets before choosing.
pub fn choose_refused(dao: &FridgeDao, chooser: &Key, now: i64) -> (r: Option<Error>)
    ensures
        r == choose_refusal(dao@, chooser@, now),
{
    if !chooser.same(&dao.admin) {
        return Some(Error::InvalidAuthority);
    }
    match get_voting_end(dao) {
        Err(e) => Some(e),
        Ok(end) => if now > end {
            None
        } else {
            Some(Error::VotingHasNotEnded)
        },
    }
}

/// The outcome of the admin `chooser` choosing a proposal at `now`: the first refusal met, or
/// the winner chosen as `winner_choice` says with the vault balance the DAO records, after
/// which the next voting period opens one cooldown after `now`.
pub open spec fn choose_outcome(
    dao: FridgeDaoView,
    chooser: Seq<u8>,
    now: i64,
    cands: Seq<CandidateView>,
    weights: Seq<u64>,
) -> Result<(FridgeDaoView, ChoiceView), Error> {
    match choose_refusal(dao, chooser, now) {
        Some(e) => Err(e),
        None => match winner_choice(dao, cands, weights, dao.vault_balance) {
            Ok((d, ev)) => Ok(
                (
                    FridgeDaoView {
                        next_vote_allowed_at: next_vote_time(now, dao.vote_cooldown) as i64,
                        ..d
                    },
                    ev,
                ),
            ),
            Err(e) => Err(e),
        },
    }
}

/// After the voting period, the admin has the winner chosen among `candidates` (see
/// `compute_winner`, with the vault balance the DAO records); the next voting period then
/// opens one cooldown after `now`. `weights[i]` is the voting weight of member `i`.
pub fn choose_proposal(
    dao: &mut FridgeDao,
    chooser: &Key,
    now: i64,
    candidates: &Vec<Candidate>,
    weights: &Vec<u64>,
) -> (r: Result<ChoiceEvent, Error>)
    requires
        weights.len() == old(dao).valid_member_keys.len(),
        choose_refusal(old(dao)@, chooser@, now) is None && winner_choice(
            old(dao)@,
            candidates_view(candidates@),
            weights@,
            old(dao).vault_balance,
        ) is Ok ==> fits_i64(next_vote_time(now, old(dao).vote_cooldown)),
    ensures
        match choose_outcome(old(dao)@, chooser@, now, candidates_view(candidates@), weights@) {
            Ok((d, ev)) => r matches Ok(e) && e@ == ev && final(dao)@ == d,
            Err(e) => r == Err::<ChoiceEvent, Error>(e) && final(dao)@ == old(dao)@,
        },
{
    if !chooser.same(&dao.admin) {
        return Err(Error::InvalidAuthority);
    }
    let end = match get_voting_end(dao) {
        Ok(e) => e,
        Err(e) => {
            return Err(e);
        },
    };
    if !(now > end) {
        return Err(Error::VotingHasNotEnded);
    }
    let balance = dao.vault_balance;
    let event = match compute_winner(dao, candidates, weights, balance) {
        Ok(ev) => ev,
        Err(e) => {
            return Err(e);
        },
    };
    let ghost d1 = dao@;
    dao.next_vote_allowed_at = now + u64_as_i64(dao.vote_cooldown);
    assert(dao@ =~= (FridgeDaoView { next_vote_allowed_at: dao.next_vote_allowed_at, ..d1 }));
    Ok(event)
}

/// The checks that precede settling a tie: the admin asks, a tie is recorded, the proposal is
/// among the tied ones, and the tied score does not exceed the vault.
pub open spec fn resolve_refusal(dao: FridgeDaoView, resolver: Seq<u8>, winner_key: Seq<u8>) -> Option<Error> {
    if resolver != dao.admin {
        Some(Error::InvalidAuthority)
    } else if dao.tie is None {
        Some(Error::NoTie)
    } else if !dao.tie->Some_0.winners.contains(winner_key) {
        Some(Error::ProposalNotInTies)
    } else if dao.tie->Some_0.score > dao.vault_balance {
        Some(Error::MathOverflowOrUnderflow)
    } else if rescaled(
        dao.members,
        (dao.vault_balance - dao.tie->Some_0.score) as u64,
        dao.vault_balance,
    ) is None {
        Some(Error::MathOverflowOrUnderflow)
    } else {
        None
    }
}

/// The refusal, if any, that `resolve_tie` meets.
pub fn resolve_refused(dao: &FridgeDao, resolver: &Key, winner_key: &Key) -> (r: Option<Error>)
    ensures
        r == resolve_refusal(dao@, resolver@, winner_key@),
{
    if !resolver.same(&dao.admin) {
        return Some(Error::InvalidAuthority);
    }
    let (score, tied) = match &dao.tie {
        None => {
            return Some(Error::NoTie);
        },
        Some(t) => (t.score, contains_key(&t.winners, winner_key)),
    };
    if !tied {
        return Some(Error::ProposalNotInTies);
    }
    match dao.vault_balance.checked_sub(score) {
        None => Some(Error::MathOverflowOrUnderflow),
        Some(remaining) => match rescale_balances(&dao.valid_member_keys, remaining, dao.vault_balance) {
            None => Some(Error::MathOverflowOrUnderflow),
            Some(_) => None,
        },
    }
}

/// The admin settles a tie in favour of one of the tied proposals: the tied score is paid
/// out of the vault (every balance shrinks in proportion), the proposal becomes the recent
/// winner and leaves the list, the tie is cleared, and the next voting period opens one
/// cooldown after `now`.
pub fn resolve_tie(dao: &mut FridgeDao, resolver: &Key, winner_key: &Key, winner: &Proposal, now: i64) -> (r: Result<WinnerChosen, Error>)
    requires
        resolve_refusal(old(dao)@, resolver@, winner_key@) is None ==> fits_i64(
            next_vote_time(now, old(dao).vote_cooldown),
        ),
    ensures
        match resolve_refusal(old(dao)@, resolver@, winner_key@) {
            Some(e) => r == Err::<WinnerChosen, Error>(e) && final(dao)@ == old(dao)@,
            None => {
                &&& r matches Ok(ev) && ev.description@ == winner@.description && ev.price == winner.price
                &&& final(dao)@ == (FridgeDaoView {
                    members: rescaled(
                        old(dao)@.members,
                        (old(dao).vault_balance - old(dao)@.tie->Some_0.score) as u64,
                        old(dao).vault_balance,
                    )->Some_0,
                    recent_winner: Some(winner@),
                    tie: None,
                    next_vote_allowed_at: next_vote_time(now, old(dao).vote_cooldown) as i64,
                    proposals: old(dao)@.proposals.filter(|x: Seq<u8>| x != winner_key@),
                    ..old(dao)@
                })
            },
        },
{
    if !resolver.same(&dao.admin) {
        return Err(Error::InvalidAuthority);
    }
    let (score, tied) = match &dao.tie {
        None => {
            return Err(Error::NoTie);
        },
        Some(t) => (t.score, contains_key(&t.winners, winner_key)),
    };
    if !tied {
        return Err(Error::ProposalNotInTies);
    }
    let vault_balance = dao.vault_balance;
    let remaining = match vault_balance.checked_sub(score) {
        None => {
            return Err(Error::MathOverflowOrUnderflow);
        },
        Some(x) => x,
    };
    let scaled = match rescale_balances(&dao.valid_member_keys, remaining, vault_balance) {
        None => {
            return Err(Error::MathOverflowOrUnderflow);
        },
        Some(v) => v,
    };
    let ghost d0 = dao@;
    dao.valid_member_keys = scaled;
    dao.recent_winner = Some(winner.duplicate());
    dao.tie = None;
    dao.next_vote_allowed_at = now + u64_as_i64(dao.vote_cooldown);
    remove_key(&mut dao.proposals, winner_key);
    assert(dao@ =~= (FridgeDaoView {
        members: rescaled(d0.members, remaining, vault_balance)->Some_0,
        recent_winner: Some(winner@),
        tie: None,
        next_vote_allowed_at: dao.next_vote_allowed_at,
        proposals: d0.proposals.filter(|x: Seq<u8>| x != winner_key@),
        ..d0
    }));
    Ok(WinnerChosen { description: winner.description.clone(), price: winner.price })
}

/// The checks that precede handing out the recent winner: the mint program asks, after the
/// voting period closed, a winner is recorded, and the proposal given is that winner.
pub open spec fn retrieve_refusal(dao: FridgeDaoView, retriever: Seq<u8>, now: i64, winning_identifier: u64) -> Option<Error> {
    if retriever != dao.mint_admin_program {
        Some(Error::InvalidAuthority)
    } else if !fits_i64(voting_end(dao)) {
        Some(Error::MathOverflowOrUnderflow)
    } else if now <= voting_end(dao) {
        Some(Error::VotingHasNotEnded)
    } else if dao.recent_winner is None {
        Some(Error::NoWinner)
    } else if dao.recent_winner->Some_0.identifier != winning_identifier {
        Some(Error::InvalidProposal)
    } else {
        None
    }
}

/// The refusal, if any, that `retrieve_winner` meets.
pub fn retrieve_refused(dao: &FridgeDao, retriever: &Key, now: i64, winning_proposal_identifier: u64) -> (r: Option<Error>)
    ensures
        r == retrieve_refusal(dao@, retriever@, now, winning_proposal_identifier),
{
    if !retriever.same(&dao.mint_admin_program) {
        return Some(Error::InvalidAuthority);
    }
    let end = match get_voting_end(dao) {
        Ok(e) => e,
        Err(e) => {
            return Some(e);
        },
    };
    if !(now > end) {
        return Some(Error::VotingHasNotEnded);
    }
    match &dao.recent_winner {
        None => Some(Error::NoWinner),
        Some(w) => if w.identifier != winning_proposal_identifier {
            Some(Error::InvalidProposal)
        } else {
            None
        },
    }
}

/// The mint program takes the recent winner out of the DAO: it returns the winner as
/// recorded, the winning proposal leaves the list and the count, and no winner is recorded
/// any more.
pub fn retrieve_winner(
    dao: &mut FridgeDao,
    retriever: &Key,
    now: i64,
    winning_proposal_key: &Key,
    winning_proposal_identifier: u64,
) -> (r: Result<Proposal, Error>)
    requires
        retrieve_refusal(old(dao)@, retriever@, now, winning_proposal_identifier) is None
            ==> old(dao).proposal_count > 0,
    ensures
        match retrieve_refusal(old(dao)@, retriever@, now, winning_proposal_identifier) {
            Some(e) => r == Err::<Proposal, Error>(e) && final(dao)@ == old(dao)@,
            None => {
                &&& r matches Ok(p) && p@ == old(dao)@.recent_winner->Some_0
                &&& final(dao)@ == (FridgeDaoView {
                    proposal_count: (old(dao).proposal_count - 1) as u64,
                    proposals: old(dao)@.proposals.filter(|x: Seq<u8>| x != winning_proposal_key@),
                    recent_winner: None,
                    ..old(dao)@
                })
            },
        },
{
    if !retriever.same(&dao.mint_admin_program) {
        return Err(Error::InvalidAuthority);
    }
    let end = match get_voting_end(dao) {
        Ok(e) => e,
        Err(e) => {
            return Err(e);
        },
    };
    if !(now > end) {
        return Err(Error::VotingHasNotEnded);
    }
    let output = match &dao.recent_winner {
        None => {
            return Err(Error::NoWinner);
        },
        Some(w) => w.duplicate(),
    };
    if winning_proposal_identifier != output.identifier {
        return Err(Error::InvalidProposal);
    }
    let ghost d0 = dao@;
    dao.proposal_count = dao.proposal_count - 1;
    remove_key(&mut dao.proposals, winning_proposal_key);
    dao.recent_winner = None;
    assert(dao@ =~= (FridgeDaoView {
        proposal_count: dao.proposal_count,
        proposals: d0.proposals.filter(|x: Seq<u8>| x != winning_proposal_key@),
        recent_winner: None,
        ..d0
    }));
    Ok(output)
}

} // verus!
