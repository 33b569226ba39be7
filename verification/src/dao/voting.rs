use vstd::prelude::*;

use crate::dao::error::Error;
use crate::dao::state::{
    member_keys, members_view, FridgeDao, FridgeDaoView, MemberView, Proposal, ProposalView, Tie,
    TieEvent, TieView, UserWithBalance, WinnerChosen,
};
use crate::key::{
    contains_key, copy_keys, first_index, is_first_index, keys_view, lemma_first_index, zero_key,
    Key,
};

verus! {

/// The value that `x as i64` gives: `x` itself below 2^63, `x - 2^64` above.
pub open spec fn as_signed(x: u64) -> int {
    if x <= i64::MAX {
        x as int
    } else {
        x - 0x1_0000_0000_0000_0000
    }
}

/// `x` read as a two's complement 64-bit integer.
pub fn u64_as_i64(x: u64) -> (r: i64)
    ensures
        r == as_signed(x),
{
    if x <= 0x7fff_ffff_ffff_ffff {
        x as i64
    } else {
        let low = (x - 0x8000_0000_0000_0000) as i64;
        low + i64::MIN
    }
}

/// Whether `x` fits an `i64`.
pub open spec fn fits_i64(x: int) -> bool {
    i64::MIN <= x <= i64::MAX
}

/// When the current voting period closes: the moment it opens plus its length.
pub open spec fn voting_end(dao: FridgeDaoView) -> int {
    dao.next_vote_allowed_at + as_signed(dao.vote_period)
}

/// The end of the voting period, or `MathOverflowOrUnderflow` when it does not fit an `i64`.
pub fn get_voting_end(dao: &FridgeDao) -> (r: Result<i64, Error>)
    ensures
        fits_i64(voting_end(dao@)) ==> r == Ok::<i64, Error>(voting_end(dao@) as i64),
        !fits_i64(voting_end(dao@)) ==> r == Err::<i64, Error>(Error::MathOverflowOrUnderflow),
{
    let period = u64_as_i64(dao.vote_period);
    match dao.next_vote_allowed_at.checked_add(period) {
        Some(end) => Ok(end),
        None => Err(Error::MathOverflowOrUnderflow),
    }
}

/// Whether `now` lies in the voting period that opens at `start` and closes at `end`
/// (`start` included, `end` excluded).
pub fn is_in_voting_period(now: i64, start: i64, end: i64) -> (r: bool)
    ensures
        r == (start <= now && now < end),
{
    start <= now && now < end
}

/// A proposal handed to the winner selection, with the address of its account.
#[derive(Clone, Debug, PartialEq, Eq)]
pub struct Candidate {
    pub key: Key,
    pub proposal: Proposal,
}

pub struct CandidateView {
    pub key: Seq<u8>,
    pub proposal: ProposalView,
}

impl View for Candidate {
    type V = CandidateView;

    open spec fn view(&self) -> CandidateView {
        CandidateView { key: self.key@, proposal: self.proposal@ }
    }
}

pub open spec fn candidates_view(s: Seq<Candidate>) -> Seq<CandidateView> {
    s.map_values(|c: Candidate| c@)
}

/// What the winner selection reports.
#[derive(Clone, Debug, PartialEq, Eq)]
pub enum ChoiceEvent {
    /// Several proposals share the best score; no winner is chosen.
    Tie(TieEvent),
    /// A proposal won.
    Winner(WinnerChosen),
    /// There was no proposal to choose.
    NoWinner,
}

pub enum ChoiceView {
    Tie { score: u64, winners: Seq<Seq<u8>> },
    Winner { description: Seq<char>, price: u64 },
    NoWinner,
}

impl View for ChoiceEvent {
    type V = ChoiceView;

    open spec fn view(&self) -> ChoiceView {
        match self {
            ChoiceEvent::Tie(t) => ChoiceView::Tie { score: t.score, winners: keys_view(t.winners@) },
            ChoiceEvent::Winner(w) => ChoiceView::Winner {
                description: w.description@,
                price: w.price,
            },
            ChoiceEvent::NoWinner => ChoiceView::NoWinner,
        }
    }
}

/// The weight of a voter: the weight of the first member with the voter's address.
pub open spec fn voter_weight(members: Seq<MemberView>, weights: Seq<u64>, voter: Seq<u8>) -> int {
    weights[first_index(member_keys(members), voter)] as int
}

/// The score of the first `n` voters: the sum of their weights, or the error met on the way
/// (a voter who is not a member, or a sum past `u64::MAX`).
pub open spec fn tally(
    members: Seq<MemberView>,
    weights: Seq<u64>,
    voters: Seq<Seq<u8>>,
    n: nat,
) -> Result<u64, Error>
    decreases n,
{
    if n == 0 {
        Ok(0)
    } else {
        match tally(members, weights, voters, (n - 1) as nat) {
            Err(e) => Err(e),
            Ok(s) => {
                if !member_keys(members).contains(voters[n - 1]) {
                    Err(Error::InvalidMember)
                } else if s + voter_weight(members, weights, voters[n - 1]) > u64::MAX {
                    Err(Error::MathOverflowOrUnderflow)
                } else {
                    Ok((s + voter_weight(members, weights, voters[n - 1])) as u64)
                }
            },
        }
    }
}

/// The score of a proposal.
pub open spec fn proposal_score(
    members: Seq<MemberView>,
    weights: Seq<u64>,
    p: ProposalView,
) -> Result<u64, Error> {
    tally(members, weights, p.voters, p.voters.len())
}

/// Where the selection stands after some candidates: the best score so far, the candidate
/// holding it (none until one beats the start score 0), and the addresses recorded as tied.
pub struct Standing {
    pub max_score: u64,
    pub winner: Option<int>,
    pub ties: Seq<Seq<u8>>,
}

/// The address of the candidate that holds the best score, or the zero address when none does.
pub open spec fn leader_key(cands: Seq<CandidateView>, winner: Option<int>) -> Seq<u8> {
    match winner {
        Some(i) => cands[i].key,
        None => zero_key(),
    }
}

/// The selection after the first `n` candidates. A candidate must be one of the DAO's
/// proposals. A higher score takes the lead; an equal score records the leader (once) and
/// the candidate as tied.
pub open spec fn scan(
    dao: FridgeDaoView,
    cands: Seq<CandidateView>,
    weights: Seq<u64>,
    n: nat,
) -> Result<Standing, Error>
    decreases n,
{
    if n == 0 {
        Ok(Standing { max_score: 0, winner: None, ties: Seq::empty() })
    } else {
        match scan(dao, cands, weights, (n - 1) as nat) {
            Err(e) => Err(e),
            Ok(st) => {
                let c = cands[n - 1];
                if !dao.proposals.contains(c.key) {
                    Err(Error::InvalidProposal)
                } else {
                    match proposal_score(dao.members, weights, c.proposal) {
                        Err(e) => Err(e),
                        Ok(score) => {
                            if score > st.max_score {
                                Ok(Standing { max_score: score, winner: Some(n - 1), ties: st.ties })
                            } else if score == st.max_score {
                                let lead = leader_key(cands, st.winner);
                                let t = if st.ties.contains(lead) {
                                    st.ties
                                } else {
                                    st.ties.push(lead)
                                };
                                Ok(Standing { max_score: st.max_score, winner: st.winner, ties: t.push(c.key) })
                            } else {
                                Ok(st)
                            }
                        },
                    }
                }
            },
        }
    }
}

/// Every balance scaled by `remaining / vault` (rounded down), or none when a product
/// passes `u64::MAX` or the vault is empty while there are members.
pub open spec fn rescaled(members: Seq<MemberView>, remaining: u64, vault: u64) -> Option<Seq<MemberView>> {
    if exists|i: int| 0 <= i < members.len() && (members[i].balance * remaining > u64::MAX || vault == 0) {
        None
    } else {
        Some(Seq::new(members.len(), |i: int| MemberView {
            key: members[i].key,
            balance: (members[i].balance * remaining / vault as int) as u64,
        }))
    }
}

/// The outcome of choosing among `cands`: the DAO afterwards and the event reported.
/// A tie is recorded as such and changes nothing else. Otherwise the best score is paid
/// out of the vault: every balance shrinks in proportion, and the winning proposal
/// becomes the recent winner.
pub open spec fn winner_choice(
    dao: FridgeDaoView,
    cands: Seq<CandidateView>,
    weights: Seq<u64>,
    vault: u64,
) -> Result<(FridgeDaoView, ChoiceView), Error> {
    match scan(dao, cands, weights, cands.len()) {
        Err(e) => Err(e),
        Ok(st) => {
            if st.ties.len() > 0 {
                Ok(
                    (
                        FridgeDaoView {
                            tie: Some(TieView { score: st.max_score, winners: st.ties }),
                            ..dao
                        },
                        ChoiceView::Tie { score: st.max_score, winners: st.ties },
                    ),
                )
            } else if st.max_score > vault {
                Err(Error::MathOverflowOrUnderflow)
            } else {
                match rescaled(dao.members, (vault - st.max_score) as u64, vault) {
                    None => Err(Error::MathOverflowOrUnderflow),
                    Some(ms) => match st.winner {
                        Some(w) => Ok(
                            (
                                FridgeDaoView {
                                    members: ms,
                                    recent_winner: Some(cands[w].proposal),
                                    ..dao
                                },
                                ChoiceView::Winner {
                                    description: cands[w].proposal.description,
                                    price: cands[w].proposal.price,
                                },
                            ),
                        ),
                        None => Ok(
                            (
                                FridgeDaoView { members: ms, recent_winner: None, ..dao },
                                ChoiceView::NoWinner,
                            ),
                        ),
                    },
                }
            }
        },
    }
}

/// Position of the first member with address `k`, if any.
pub fn find_member(members: &Vec<UserWithBalance>, k: &Key) -> (r: Option<usize>)
    ensures
        match r {
            Some(i) => is_first_index(member_keys(members_view(members@)), k@, i as int),
            None => !member_keys(members_view(members@)).contains(k@),
        },
{
    let ghost keys = member_keys(members_view(members@));
    let mut i: usize = 0;
    while i < members.len()
        invariant
            i <= members.len(),
            keys == member_keys(members_view(members@)),
            forall|j: int| 0 <= j < i ==> keys[j] != k@,
        decreases members.len() - i,
    {
        if members[i].key.same(k) {
            return Some(i);
        }
        i = i + 1;
    }
    None
}

/// The weight of the voter at position `i`, found through its first occurrence.
proof fn lemma_voter_found(members: Seq<MemberView>, weights: Seq<u64>, voter: Seq<u8>, i: int)
    requires
        is_first_index(member_keys(members), voter, i),
    ensures
        member_keys(members).contains(voter),
        voter_weight(members, weights, voter) == weights[i] as int,
{
    lemma_first_index(member_keys(members), voter, i);
}

/// The score of a proposal: the sum of its voters' weights.
pub fn score_proposal(dao: &FridgeDao, weights: &Vec<u64>, proposal: &Proposal) -> (r: Result<u64, Error>)
    requires
        weights.len() == dao.valid_member_keys.len(),
    ensures
        r == proposal_score(dao@.members, weights@, proposal@),
{
    let ghost members = dao@.members;
    let ghost voters = proposal@.voters;
    let mut score: u64 = 0;
    let mut i: usize = 0;
    while i < proposal.voters.len()
        invariant
            i <= proposal.voters.len(),
            members == dao@.members,
            voters == proposal@.voters,
            voters.len() == proposal.voters.len(),
            weights.len() == members.len(),
            tally(members, weights@, voters, i as nat) == Ok::<u64, Error>(score),
        decreases proposal.voters.len() - i,
    {
        let voter = proposal.voters[i];
        assert(voters[i as int] == voter@);
        match find_member(&dao.valid_member_keys, &voter) {
            None => {
                assert(tally(members, weights@, voters, (i + 1) as nat) == Err::<u64, Error>(Error::InvalidMember));
                proof {
                    lemma_tally_stays_failed(members, weights@, voters, (i + 1) as nat, voters.len());
                }
                return Err(Error::InvalidMember);
            },
            Some(m) => {
                proof {
                    lemma_voter_found(members, weights@, voter@, m as int);
                }
                match score.checked_add(weights[m]) {
                    None => {
                        proof {
                            lemma_tally_stays_failed(members, weights@, voters, (i + 1) as nat, voters.len());
                        }
                        return Err(Error::MathOverflowOrUnderflow);
                    },
                    Some(s) => {
                        score = s;
                    },
                }
            },
        }
        i = i + 1;
    }
    Ok(score)
}

/// Once the tally fails, it fails with the same error for every longer prefix.
proof fn lemma_tally_stays_failed(
    members: Seq<MemberView>,
    weights: Seq<u64>,
    voters: Seq<Seq<u8>>,
    n: nat,
    m: nat,
)
    requires
        tally(members, weights, voters, n) is Err,
        n <= m,
    ensures
        tally(members, weights, voters, m) == tally(members, weights, voters, n),
    decreases m - n,
{
    if n < m {
        lemma_tally_stays_failed(members, weights, voters, n, (m - 1) as nat);
    }
}

/// Once the scan fails, it fails with the same error for every longer prefix.
proof fn lemma_scan_stays_failed(
    dao: FridgeDaoView,
    cands: Seq<CandidateView>,
    weights: Seq<u64>,
    n: nat,
    m: nat,
)
    requires
        scan(dao, cands, weights, n) is Err,
        n <= m,
    ensures
        scan(dao, cands, weights, m) == scan(dao, cands, weights, n),
    decreases m - n,
{
    if n < m {
        lemma_scan_stays_failed(dao, cands, weights, n, (m - 1) as nat);
    }
}

impl Proposal {
    /// A copy of this proposal.
    pub fn duplicate(&self) -> (r: Proposal)
        ensures
            r@ == self@,
    {
        Proposal {
            identifier: self.identifier,
            voters: copy_keys(&self.voters),
            proposer: self.proposer,
            description: self.description.clone(),
            bump: self.bump,
            price: self.price,
        }
    }
}

/// Every balance scaled by `remaining / vault`, or `None` as `rescaled` says.
pub fn rescale_balances(members: &Vec<UserWithBalance>, remaining: u64, vault: u64) -> (r: Option<Vec<UserWithBalance>>)
    ensures
        match r {
            Some(v) => rescaled(members_view(members@), remaining, vault) == Some(members_view(v@)),
            None => rescaled(members_view(members@), remaining, vault) is None,
        },
{
    let ghost old_ms = members_view(members@);
    let mut out: Vec<UserWithBalance> = Vec::new();
    let mut i: usize = 0;
    while i < members.len()
        invariant
            i <= members.len(),
            old_ms == members_view(members@),
            out.len() == i,
            forall|j: int| 0 <= j < i ==> !(old_ms[j].balance * remaining > u64::MAX || vault == 0),
            forall|j: int|
                0 <= j < i ==> #[trigger] members_view(out@)[j] == (MemberView {
                    key: old_ms[j].key,
                    balance: (old_ms[j].balance * remaining / vault as int) as u64,
                }),
        decreases members.len() - i,
    {
        let u = members[i];
        let scaled = match u.balance.checked_mul(remaining) {
            None => {
                assert(old_ms[i as int].balance * remaining > u64::MAX);
                return None;
            },
            Some(p) => match p.checked_div(vault) {
                None => {
                    assert(vault == 0);
                    return None;
                },
                Some(q) => q,
            },
        };
        let ghost prev = out@;
        out.push(UserWithBalance { key: u.key, balance: scaled });
        proof {
            assert forall|j: int| 0 <= j <= i implies #[trigger] members_view(out@)[j] == (MemberView {
                key: old_ms[j].key,
                balance: (old_ms[j].balance * remaining / vault as int) as u64,
            }) by {
                if j < i {
                    assert(out@[j] == prev[j]);
                    assert(members_view(prev)[j] == members_view(out@)[j]);
                }
            }
        }
        i = i + 1;
    }
    proof {
        let target = Seq::new(old_ms.len(), |j: int| MemberView {
            key: old_ms[j].key,
            balance: (old_ms[j].balance * remaining / vault as int) as u64,
        });
        assert(members_view(out@) =~= target);
    }
    Some(out)
}

/// Runs the selection over all of `candidates`, as `scan` says: the best score, the index of
/// the candidate holding it, and the addresses recorded as tied, or the first refusal met.
/// `weights[i]` is the voting weight of member `i`.
pub fn scan_candidates(
    dao: &FridgeDao,
    candidates: &Vec<Candidate>,
    weights: &Vec<u64>,
) -> (r: Result<(u64, Option<usize>, Vec<Key>), Error>)
    requires
        weights.len() == dao.valid_member_keys.len(),
    ensures
        match r {
            Ok((max_score, winner, ties)) => scan(dao@, candidates_view(candidates@), weights@, candidates.len() as nat) matches Ok(st)
                && st.max_score == max_score && st.ties == keys_view(ties@) && st.winner == (match winner {
                Some(w) => Some(w as int),
                None => None,
            }) && (winner matches Some(w) ==> w < candidates.len()),
            Err(e) => scan(dao@, candidates_view(candidates@), weights@, candidates.len() as nat) == Err::<Standing, Error>(e),
        },
{
    let ghost d0 = dao@;
    let ghost cands = candidates_view(candidates@);
    let mut max_score: u64 = 0;
    let mut winner: Option<usize> = None;
    let mut ties: Vec<Key> = Vec::new();
    let mut i: usize = 0;
    while i < candidates.len()
        invariant
            i <= candidates.len(),
            d0 == dao@,
            cands == candidates_view(candidates@),
            weights.len() == dao.valid_member_keys.len(),
            scan(d0, cands, weights@, i as nat) matches Ok(st) && st.max_score == max_score
                && st.ties == keys_view(ties@) && st.winner == (match winner {
                Some(w) => Some(w as int),
                None => None,
            }),
            match winner {
                Some(w) => w < i,
                None => true,
            },
        decreases candidates.len() - i,
    {
        let c = &candidates[i];
        assert(cands[i as int] == c@);
        if !contains_key(&dao.proposals, &c.key) {
            proof {
                lemma_scan_stays_failed(d0, cands, weights@, (i + 1) as nat, cands.len());
            }
            return Err(Error::InvalidProposal);
        }
        let score = match score_proposal(dao, weights, &c.proposal) {
            Err(e) => {
                proof {
                    lemma_scan_stays_failed(d0, cands, weights@, (i + 1) as nat, cands.len());
                }
                return Err(e);
            },
            Ok(s) => s,
        };
        let ghost tv = keys_view(ties@);
        if score > max_score {
            max_score = score;
            winner = Some(i);
        } else if score == max_score {
            let lead = match winner {
                Some(w) => candidates[w].key,
                None => Key::zero(),
            };
            assert(lead@ == leader_key(cands, match winner {
                Some(w) => Some(w as int),
                None => None,
            }));
            if !contains_key(&ties, &lead) {
                ties.push(lead);
                assert(keys_view(ties@) =~= tv.push(lead@));
            }
            let ghost tv2 = keys_view(ties@);
            ties.push(c.key);
            assert(keys_view(ties@) =~= tv2.push(c.key@));
        }
        i = i + 1;
    }
    proof {
        assert(cands.len() == candidates.len());
    }
    Ok((max_score, winner, ties))
}

/// Chooses the winner among `candidates`, paying the winning score out of a vault that holds
/// `vault_balance`, as `winner_choice` says. `weights[i]` is the voting weight of member `i`.
/// On error the DAO is left as it was.
pub fn compute_winner(
    dao: &mut FridgeDao,
    candidates: &Vec<Candidate>,
    weights: &Vec<u64>,
    vault_balance: u64,
) -> (r: Result<ChoiceEvent, Error>)
    requires
        weights.len() == old(dao).valid_member_keys.len(),
    ensures
        match winner_choice(old(dao)@, candidates_view(candidates@), weights@, vault_balance) {
            Ok((d, ev)) => r matches Ok(e) && e@ == ev && final(dao)@ == d,
            Err(e) => r == Err::<ChoiceEvent, Error>(e) && final(dao)@ == old(dao)@,
        },
{
    let ghost d0 = dao@;
    let ghost cands = candidates_view(candidates@);
    let (max_score, winner, ties) = match scan_candidates(dao, candidates, weights) {
        Ok(t) => t,
        Err(e) => {
            return Err(e);
        },
    };
    let ghost st = scan(d0, cands, weights@, cands.len()).unwrap();
    if ties.len() > 0 {
        let event_winners = copy_keys(&ties);
        dao.tie = Some(Tie { score: max_score, winners: ties });
        assert(dao@ =~= (FridgeDaoView {
            tie: Some(TieView { score: st.max_score, winners: st.ties }),
            ..d0
        }));
        return Ok(ChoiceEvent::Tie(TieEvent { score: max_score, winners: event_winners }));
    }
    assert(st.ties.len() == 0);
    let remaining = match vault_balance.checked_sub(max_score) {
        None => {
            return Err(Error::MathOverflowOrUnderflow);
        },
        Some(x) => x,
    };
    let scaled = match rescale_balances(&dao.valid_member_keys, remaining, vault_balance) {
        None => {
            return Err(Error::MathOverflowOrUnderflow);
        },
        Some(v) => v,
    };
    dao.valid_member_keys = scaled;
    match winner {
        Some(w) => {
            let p = candidates[w].proposal.duplicate();
            let event = WinnerChosen { description: p.description.clone(), price: p.price };
            dao.recent_winner = Some(p);
            assert(dao@ =~= (FridgeDaoView {
                members: rescaled(d0.members, remaining, vault_balance).unwrap(),
                recent_winner: Some(cands[w as int].proposal),
                ..d0
            }));
            Ok(ChoiceEvent::Winner(event))
        },
        None => {
            dao.recent_winner = None;
            assert(dao@ =~= (FridgeDaoView {
                members: rescaled(d0.members, remaining, vault_balance).unwrap(),
                recent_winner: None,
                ..d0
            }));
            Ok(ChoiceEvent::NoWinner)
        },
    }
}

} // verus!
