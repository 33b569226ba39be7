use vstd::prelude::*;

use crate::dao::error::Error;
use crate::dao::members::{member_index, new_members, with_balance, with_new_members, without_keys};
use crate::dao::removal::removal_payouts;
use crate::dao::proposals::{
    choose_outcome, choose_refusal, cooldown_refusal, is_member, next_vote_time, resolve_refusal, retrieve_refusal,
    vote_refusal,
};
use crate::dao::state::{member_keys, FridgeDaoView, MemberView, ProposalView, TieView, MAX_MEMBERS};
use crate::dao::voting::{
    leader_key, proposal_score, rescaled, scan, winner_choice, CandidateView, ChoiceView,
};
use crate::key::{first_index, is_first_index, lemma_first_index, lemma_no_refusal, new_keys_refusal};
use crate::spl::{PayoutView, RawAccountView};

verus! {

/// Keeping the elements that all pass a test keeps the sequence.
pub proof fn lemma_filter_keeps_all<A>(s: Seq<A>, p: spec_fn(A) -> bool)
    requires
        forall|i: int| 0 <= i < s.len() ==> p(#[trigger] s[i]),
    ensures
        s.filter(p) == s,
    decreases s.len(),
{
    if s.len() > 0 {
        let t = s.drop_last();
        lemma_filter_keeps_all(t, p);
        assert(s =~= t.push(s.last()));
        t.lemma_filter_push(s.last(), p);
    } else {
        reveal(Seq::filter);
    }
}

/// Keeping the elements that all fail a test leaves nothing.
pub proof fn lemma_filter_drops_all<A>(s: Seq<A>, p: spec_fn(A) -> bool)
    requires
        forall|i: int| 0 <= i < s.len() ==> !p(#[trigger] s[i]),
    ensures
        s.filter(p) == Seq::<A>::empty(),
    decreases s.len(),
{
    if s.len() > 0 {
        let t = s.drop_last();
        lemma_filter_drops_all(t, p);
        assert(s =~= t.push(s.last()));
        t.lemma_filter_push(s.last(), p);
    } else {
        reveal(Seq::filter);
        assert(s =~= Seq::<A>::empty());
    }
}

/// Depositing an amount into a member's balance and then withdrawing the same amount for the
/// same member gives the DAO back as it was: after a deposit that fits, the withdrawal finds
/// the same member holding at least the amount.
pub proof fn law_deposit_then_withdraw(dao: FridgeDaoView, user: Seq<u8>, amount: u64)
    requires
        member_index(dao, user) >= 0,
        dao.members[member_index(dao, user)].balance + amount <= u64::MAX,
    ensures
        ({
            let i = member_index(dao, user);
            let after = FridgeDaoView {
                members: with_balance(dao.members, i, (dao.members[i].balance + amount) as u64),
                ..dao
            };
            &&& member_index(after, user) == i
            &&& amount <= after.members[i].balance
            &&& (FridgeDaoView {
                members: with_balance(after.members, i, (after.members[i].balance - amount) as u64),
                ..after
            }) == dao
        }),
{
    let i = member_index(dao, user);
    let keys = member_keys(dao.members);
    let ms = with_balance(dao.members, i, (dao.members[i].balance + amount) as u64);
    let after = FridgeDaoView { members: ms, ..dao };
    if !(exists|j: int| is_first_index(keys, user, j)) {
        assert(false);
    }
    assert(is_first_index(keys, user, i));
    assert(member_keys(after.members) =~= keys);
    lemma_first_index(member_keys(after.members), user, i);
    let back = with_balance(after.members, i, (after.members[i].balance - amount) as u64);
    assert(back =~= dao.members);
    assert((FridgeDaoView { members: back, ..after }) =~= dao);
}

/// A member whose vote for a proposal was taken is refused a second vote for it with
/// `AlreadyVoted`, at any later time.
pub proof fn law_vote_once(
    dao: FridgeDaoView,
    proposal: ProposalView,
    voter: Seq<u8>,
    proposal_id: u64,
    now: i64,
    later: i64,
)
    requires
        vote_refusal(dao, proposal, voter, proposal_id, now) is None,
    ensures
        vote_refusal(
            dao,
            (ProposalView { voters: proposal.voters.push(voter), ..proposal }),
            voter,
            proposal_id,
            later,
        ) == Some(Error::AlreadyVoted),
{
    let after = ProposalView { voters: proposal.voters.push(voter), ..proposal };
    assert(after.voters[proposal.voters.len() as int] == voter);
}

/// Once the admin has set the cooldown to a value, the admin setting it to that value again
/// is refused with `IdenticalCooldown`.
pub proof fn law_cooldown_set_once(dao: FridgeDaoView, updater: Seq<u8>, new_cooldown: u64)
    requires
        cooldown_refusal(dao, updater, new_cooldown) is None,
    ensures
        cooldown_refusal((FridgeDaoView { vote_cooldown: new_cooldown, ..dao }), updater, new_cooldown)
            == Some(Error::IdenticalCooldown),
{
}

/// Choosing a winner changes only the tie, the recent winner and the members' balances: every
/// other field of the DAO stays, and the members keep their addresses, in their order.
pub proof fn law_winner_choice_frame(dao: FridgeDaoView, cands: Seq<CandidateView>, weights: Seq<u64>, vault: u64)
    ensures
        winner_choice(dao, cands, weights, vault) matches Ok((d, _)) ==> d == (FridgeDaoView {
            tie: d.tie,
            recent_winner: d.recent_winner,
            members: d.members,
            ..dao
        }) && member_keys(d.members) == member_keys(dao.members),
{
    if let Ok((d, _)) = winner_choice(dao, cands, weights, vault) {
        assert(member_keys(d.members) =~= member_keys(dao.members));
    }
}

/// Choosing a proposal, once the admin asks after the voting period, does what choosing the
/// winner with the vault balance the DAO records does, then opens the next voting period one
/// cooldown after `now`; a refusal of the choice is the refusal of the whole.
pub proof fn law_choose_is_winner_choice(
    dao: FridgeDaoView,
    chooser: Seq<u8>,
    now: i64,
    cands: Seq<CandidateView>,
    weights: Seq<u64>,
)
    requires
        choose_refusal(dao, chooser, now) is None,
    ensures
        match winner_choice(dao, cands, weights, dao.vault_balance) {
            Ok((d, ev)) => choose_outcome(dao, chooser, now, cands, weights) == Ok::<(FridgeDaoView, ChoiceView), Error>(
                ((FridgeDaoView { next_vote_allowed_at: next_vote_time(now, dao.vote_cooldown) as i64, ..d }), ev),
            ),
            Err(e) => choose_outcome(dao, chooser, now, cands, weights) == Err::<(FridgeDaoView, ChoiceView), Error>(e),
        },
{
}

/// When a winner is chosen, the event reports the description and price of the proposal
/// recorded as the recent winner, and the tie stays as it was.
pub proof fn law_winner_event_matches(
    dao: FridgeDaoView,
    cands: Seq<CandidateView>,
    weights: Seq<u64>,
    vault: u64,
)
    requires
        winner_choice(dao, cands, weights, vault) matches Ok((_, ev)) && ev is Winner,
    ensures
        ({
            let (after, ev) = winner_choice(dao, cands, weights, vault)->Ok_0;
            &&& after.recent_winner is Some
            &&& ev == (ChoiceView::Winner {
                description: after.recent_winner->Some_0.description,
                price: after.recent_winner->Some_0.price,
            })
            &&& after.tie == dao.tie
        }),
{
}

/// After the recent winner is handed out, handing it out again is refused with `NoWinner`
/// (the earlier checks pass as before).
pub proof fn law_winner_retrieved_once(
    dao: FridgeDaoView,
    retriever: Seq<u8>,
    now: i64,
    identifier: u64,
    proposals: Seq<Seq<u8>>,
    count: u64,
)
    requires
        retrieve_refusal(dao, retriever, now, identifier) is None,
    ensures
        retrieve_refusal(
            FridgeDaoView { proposal_count: count, proposals: proposals, recent_winner: None, ..dao },
            retriever,
            now,
            identifier,
        ) == Some(Error::NoWinner),
{
}

/// After a tie is settled, settling it again is refused with `NoTie`.
pub proof fn law_tie_resolved_once(dao: FridgeDaoView, resolver: Seq<u8>, winner: Seq<u8>)
    requires
        resolver == dao.admin,
    ensures
        resolve_refusal(FridgeDaoView { tie: None, ..dao }, resolver, winner) == Some(Error::NoTie),
{
}

/// Paying a score out of the vault never raises a balance and keeps every member in place.
pub proof fn law_payout_shrinks_balances(members: Seq<MemberView>, remaining: u64, vault: u64)
    requires
        remaining <= vault,
        rescaled(members, remaining, vault) is Some,
    ensures
        ({
            let ms = rescaled(members, remaining, vault)->Some_0;
            &&& ms.len() == members.len()
            &&& forall|i: int|
                0 <= i < members.len() ==> (#[trigger] ms[i]).key == members[i].key && ms[i].balance
                    <= members[i].balance
        }),
{
    let ms = rescaled(members, remaining, vault)->Some_0;
    assert forall|i: int| 0 <= i < members.len() implies (#[trigger] ms[i]).key == members[i].key
        && ms[i].balance <= members[i].balance by {
        let b = members[i].balance;
        assert(!(b * remaining > u64::MAX || vault == 0));
        assert(b * remaining / (vault as int) <= b) by (nonlinear_arith)
            requires
                0 <= remaining <= vault,
                vault > 0,
                0 <= b,
        {
            assert(b * remaining <= b * vault);
        }
    }
}

/// What holds of the selection after `n` candidates when no tie was recorded: either no
/// candidate was seen, or one candidate leads with a score that every other seen
/// candidate's score falls strictly below.
pub open spec fn sole_leader(st_max: u64, winner: Option<int>, dao: FridgeDaoView, cands: Seq<CandidateView>, weights: Seq<u64>, n: int) -> bool {
    match winner {
        None => n == 0 && st_max == 0,
        Some(w) => {
            &&& 0 <= w < n
            &&& proposal_score(dao.members, weights, cands[w].proposal) == Ok::<u64, Error>(st_max)
            &&& forall|j: int|
                0 <= j < n && j != w ==> ((#[trigger] proposal_score(dao.members, weights, cands[j].proposal)) matches Ok(s)
                    && s < st_max)
        },
    }
}

proof fn lemma_scan_without_tie(dao: FridgeDaoView, cands: Seq<CandidateView>, weights: Seq<u64>, n: nat)
    requires
        n <= cands.len(),
        scan(dao, cands, weights, n) is Ok,
        scan(dao, cands, weights, n)->Ok_0.ties.len() == 0,
    ensures
        sole_leader(
            scan(dao, cands, weights, n)->Ok_0.max_score,
            scan(dao, cands, weights, n)->Ok_0.winner,
            dao,
            cands,
            weights,
            n as int,
        ),
    decreases n,
{
    if n > 0 {
        let prev = scan(dao, cands, weights, (n - 1) as nat);
        assert(prev is Ok);
        let st = prev->Ok_0;
        let score = proposal_score(dao.members, weights, cands[n - 1].proposal)->Ok_0;
        assert(proposal_score(dao.members, weights, cands[n - 1].proposal) is Ok);
        if score == st.max_score {
            assert(scan(dao, cands, weights, n)->Ok_0.ties.len() > 0);
        }
        assert(st.ties.len() == 0);
        lemma_scan_without_tie(dao, cands, weights, (n - 1) as nat);
    }
}

/// When the selection records no tie and names a winner, the winner's score is strictly
/// above every other candidate's score.
pub proof fn law_sole_winner(dao: FridgeDaoView, cands: Seq<CandidateView>, weights: Seq<u64>)
    requires
        scan(dao, cands, weights, cands.len()) is Ok,
        scan(dao, cands, weights, cands.len())->Ok_0.ties.len() == 0,
        scan(dao, cands, weights, cands.len())->Ok_0.winner is Some,
    ensures
        ({
            let st = scan(dao, cands, weights, cands.len())->Ok_0;
            let w = st.winner->Some_0;
            &&& proposal_score(dao.members, weights, cands[w].proposal) == Ok::<u64, Error>(st.max_score)
            &&& forall|j: int|
                0 <= j < cands.len() && j != w ==> ((#[trigger] proposal_score(dao.members, weights, cands[j].proposal)) matches Ok(s)
                    && s < st.max_score)
        }),
{
    lemma_scan_without_tie(dao, cands, weights, cands.len());
}

/// What holds of the selection after `n` candidates: the best score is at least every seen
/// candidate's score, and it is the leader's score (or 0 while there is no leader).
pub open spec fn best_so_far(st_max: u64, winner: Option<int>, dao: FridgeDaoView, cands: Seq<CandidateView>, weights: Seq<u64>, n: int) -> bool {
    &&& forall|j: int|
        0 <= j < n ==> ((#[trigger] proposal_score(dao.members, weights, cands[j].proposal)) matches Ok(s)
            && s <= st_max)
    &&& match winner {
        None => st_max == 0,
        Some(w) => 0 <= w < n && proposal_score(dao.members, weights, cands[w].proposal) == Ok::<u64, Error>(st_max),
    }
}

proof fn lemma_scan_best(dao: FridgeDaoView, cands: Seq<CandidateView>, weights: Seq<u64>, n: nat)
    requires
        n <= cands.len(),
        scan(dao, cands, weights, n) is Ok,
    ensures
        best_so_far(
            scan(dao, cands, weights, n)->Ok_0.max_score,
            scan(dao, cands, weights, n)->Ok_0.winner,
            dao,
            cands,
            weights,
            n as int,
        ),
    decreases n,
{
    if n > 0 {
        assert(scan(dao, cands, weights, (n - 1) as nat) is Ok);
        assert(proposal_score(dao.members, weights, cands[n - 1].proposal) is Ok);
        lemma_scan_best(dao, cands, weights, (n - 1) as nat);
    }
}

/// Whatever the outcome, the score recorded (for a winner or a tie) is the best score among
/// all candidates, and a named winner holds it.
pub proof fn law_best_score(dao: FridgeDaoView, cands: Seq<CandidateView>, weights: Seq<u64>)
    requires
        scan(dao, cands, weights, cands.len()) is Ok,
    ensures
        ({
            let st = scan(dao, cands, weights, cands.len())->Ok_0;
            &&& forall|j: int|
                0 <= j < cands.len() ==> ((#[trigger] proposal_score(dao.members, weights, cands[j].proposal)) matches Ok(
                    s,
                ) && s <= st.max_score)
            &&& st.winner matches Some(w) ==> proposal_score(dao.members, weights, cands[w].proposal)
                == Ok::<u64, Error>(st.max_score)
        }),
{
    lemma_scan_best(dao, cands, weights, cands.len());
}

/// Admitting members keeps the DAO within `MAX_MEMBERS` and keeps every address once.
/// What holds of the selection after `n` candidates about ties: every seen score is at most
/// the best one; a leader holds the best score, which every candidate before it falls
/// strictly below; without a leader the best score is 0; every other candidate holding the
/// best score is recorded as tied, and so is the leader once another candidate shares its score.
pub open spec fn ties_hold_best(
    st_max: u64,
    winner: Option<int>,
    ties: Seq<Seq<u8>>,
    dao: FridgeDaoView,
    cands: Seq<CandidateView>,
    weights: Seq<u64>,
    n: int,
) -> bool {
    &&& forall|j: int|
        0 <= j < n ==> ((#[trigger] proposal_score(dao.members, weights, cands[j].proposal)) matches Ok(s)
            && s <= st_max)
    &&& match winner {
        None => st_max == 0,
        Some(w) => {
            &&& 0 <= w < n
            &&& proposal_score(dao.members, weights, cands[w].proposal) == Ok::<u64, Error>(st_max)
            &&& forall|j: int|
                0 <= j < w ==> ((#[trigger] proposal_score(dao.members, weights, cands[j].proposal)) matches Ok(s)
                    && s < st_max)
        },
    }
    &&& forall|j: int|
        0 <= j < n && winner != Some(j) && #[trigger] proposal_score(dao.members, weights, cands[j].proposal)
            == Ok::<u64, Error>(st_max) ==> ties.contains(cands[j].key)
    &&& forall|j: int|
        0 <= j < n && winner is Some && winner != Some(j) && #[trigger] proposal_score(
            dao.members,
            weights,
            cands[j].proposal,
        ) == Ok::<u64, Error>(st_max) ==> ties.contains(cands[winner->Some_0].key)
}

proof fn lemma_scan_ties(dao: FridgeDaoView, cands: Seq<CandidateView>, weights: Seq<u64>, n: nat)
    requires
        n <= cands.len(),
        scan(dao, cands, weights, n) is Ok,
    ensures
        ({
            let st = scan(dao, cands, weights, n)->Ok_0;
            ties_hold_best(st.max_score, st.winner, st.ties, dao, cands, weights, n as int)
        }),
    decreases n,
{
    if n > 0 {
        let m = (n - 1) as nat;
        assert(scan(dao, cands, weights, m) is Ok);
        lemma_scan_ties(dao, cands, weights, m);
        let st = scan(dao, cands, weights, m)->Ok_0;
        let c = cands[m as int];
        assert(proposal_score(dao.members, weights, c.proposal) is Ok);
        let score = proposal_score(dao.members, weights, c.proposal)->Ok_0;
        let nst = scan(dao, cands, weights, n)->Ok_0;
        if score > st.max_score {
            assert(nst.max_score == score && nst.winner == Some(m as int) && nst.ties == st.ties);
            assert forall|j: int| 0 <= j < n implies ((#[trigger] proposal_score(dao.members, weights, cands[j].proposal)) matches Ok(s)
                && s <= nst.max_score) by {}
        } else if score == st.max_score {
            let lead = leader_key(cands, st.winner);
            let t = if st.ties.contains(lead) { st.ties } else { st.ties.push(lead) };
            assert(nst.ties == t.push(c.key));
            assert forall|x: Seq<u8>| st.ties.contains(x) implies #[trigger] nst.ties.contains(x) by {
                let k = choose|k: int| 0 <= k < st.ties.len() && st.ties[k] == x;
                if !st.ties.contains(lead) {
                    assert(t[k] == x);
                }
                assert(nst.ties[k] == x);
            }
            assert(t.contains(lead)) by {
                if !st.ties.contains(lead) {
                    assert(t[st.ties.len() as int] == lead);
                }
            }
            assert(nst.ties.contains(lead)) by {
                let k = choose|k: int| 0 <= k < t.len() && t[k] == lead;
                assert(nst.ties[k] == lead);
            }
            assert(nst.ties[t.len() as int] == c.key);
            assert forall|j: int|
                0 <= j < n && nst.winner != Some(j) && #[trigger] proposal_score(dao.members, weights, cands[j].proposal)
                    == Ok::<u64, Error>(nst.max_score) implies nst.ties.contains(cands[j].key) by {
                if j < m {
                    assert(st.ties.contains(cands[j].key));
                }
            }
            assert forall|j: int|
                0 <= j < n && nst.winner is Some && nst.winner != Some(j) && #[trigger] proposal_score(
                    dao.members,
                    weights,
                    cands[j].proposal,
                ) == Ok::<u64, Error>(nst.max_score) implies nst.ties.contains(cands[nst.winner->Some_0].key) by {
                assert(lead == cands[nst.winner->Some_0].key);
            }
        } else {
            assert(nst == st);
        }
    }
}

/// Every proposal that shares the best score with another one is recorded as tied: when two
/// different candidates both score the best score of the selection, both are among the tied.
pub proof fn law_tie_keeps_every_best(
    dao: FridgeDaoView,
    cands: Seq<CandidateView>,
    weights: Seq<u64>,
    i: int,
    j: int,
)
    requires
        scan(dao, cands, weights, cands.len()) is Ok,
        0 <= i < cands.len(),
        0 <= j < cands.len(),
        i != j,
        proposal_score(dao.members, weights, cands[i].proposal) == proposal_score(
            dao.members,
            weights,
            cands[j].proposal,
        ),
        proposal_score(dao.members, weights, cands[i].proposal) == Ok::<u64, Error>(
            scan(dao, cands, weights, cands.len())->Ok_0.max_score,
        ),
    ensures
        scan(dao, cands, weights, cands.len())->Ok_0.ties.contains(cands[i].key),
        scan(dao, cands, weights, cands.len())->Ok_0.ties.contains(cands[j].key),
{
    lemma_scan_ties(dao, cands, weights, cands.len());
    let st = scan(dao, cands, weights, cands.len())->Ok_0;
    if st.winner == Some(i) {
        assert(st.ties.contains(cands[j].key));
    } else if st.winner == Some(j) {
        assert(st.ties.contains(cands[i].key));
    } else {
        assert(st.ties.contains(cands[i].key));
        assert(st.ties.contains(cands[j].key));
    }
}

/// When choosing records a tie, every pair of candidates scoring the tied score is among the
/// tie's winners, in the DAO and in the event alike.
pub proof fn law_choice_tie_keeps_every_best(
    dao: FridgeDaoView,
    cands: Seq<CandidateView>,
    weights: Seq<u64>,
    vault: u64,
    i: int,
    j: int,
)
    requires
        winner_choice(dao, cands, weights, vault) matches Ok((_, ev)) && ev is Tie,
        0 <= i < cands.len(),
        0 <= j < cands.len(),
        i != j,
        proposal_score(dao.members, weights, cands[i].proposal) == Ok::<u64, Error>(
            winner_choice(dao, cands, weights, vault)->Ok_0.1->Tie_score,
        ),
        proposal_score(dao.members, weights, cands[j].proposal) == Ok::<u64, Error>(
            winner_choice(dao, cands, weights, vault)->Ok_0.1->Tie_score,
        ),
    ensures
        ({
            let (d, ev) = winner_choice(dao, cands, weights, vault)->Ok_0;
            &&& ev->Tie_winners.contains(cands[i].key)
            &&& ev->Tie_winners.contains(cands[j].key)
            &&& d.tie == Some(TieView { score: ev->Tie_score, winners: ev->Tie_winners })
        }),
{
    assert(scan(dao, cands, weights, cands.len()) is Ok);
    law_tie_keeps_every_best(dao, cands, weights, i, j);
}

pub proof fn law_admission_keeps_members_distinct(members: Seq<MemberView>, new: Seq<Seq<u8>>, already: Error, repeated: Error)
    requires
        member_keys(members).no_duplicates(),
        members.len() + new.len() <= MAX_MEMBERS,
        new_keys_refusal(member_keys(members), new, new.len(), already, repeated) is None,
    ensures
        with_new_members(members, new).len() <= MAX_MEMBERS,
        member_keys(with_new_members(members, new)).no_duplicates(),
{
    lemma_no_refusal(member_keys(members), new, new.len(), already, repeated);
    let all = member_keys(with_new_members(members, new));
    let old_keys = member_keys(members);
    let n0 = members.len() as int;
    assert forall|i: int| 0 <= i < all.len() implies #[trigger] all[i] == (if i < n0 {
        old_keys[i]
    } else {
        new[i - n0]
    }) by {}
    assert forall|i: int, j: int| 0 <= i < all.len() && 0 <= j < all.len() && i != j implies all[i]
        != all[j] by {
        if i < n0 && j < n0 {
            assert(old_keys[i] != old_keys[j]);
        } else if i >= n0 && j >= n0 {
            if i < j {
                assert(new[i - n0] != new[j - n0]);
            } else {
                assert(new[j - n0] != new[i - n0]);
            }
        } else if i < n0 {
            if all[i] == all[j] {
                assert(old_keys[i] == new[j - n0]);
                assert(old_keys.contains(new[j - n0]));
            }
        } else {
            if all[i] == all[j] {
                assert(old_keys[j] == new[i - n0]);
                assert(old_keys.contains(new[i - n0]));
            }
        }
    }
}

/// Expelling addresses leaves none of them a member.
pub proof fn law_expelled_are_gone(members: Seq<MemberView>, keys: Seq<Seq<u8>>, k: Seq<u8>)
    requires
        keys.contains(k),
    ensures
        !member_keys(without_keys(members, keys)).contains(k),
{
    let pred = |m: MemberView| !keys.contains(m.key);
    let left = without_keys(members, keys);
    if member_keys(left).contains(k) {
        let i = choose|i: int| 0 <= i < member_keys(left).len() && member_keys(left)[i] == k;
        members.lemma_filter_pred(pred, i);
        assert(false);
    }
}

/// Admitting addresses that were not members and then expelling them gives back the members
/// as they were.
pub proof fn law_whitelist_then_blacklist(
    members: Seq<MemberView>,
    keys: Seq<Seq<u8>>,
    n: nat,
    amounts: spec_fn(int) -> u64,
)
    requires
        n == keys.len(),
        forall|i: int| 0 <= i < keys.len() ==> !member_keys(members).contains(#[trigger] keys[i]),
    ensures
        without_keys(members + new_members(keys, n, amounts), keys) == members,
{
    let pred = |m: MemberView| !keys.contains(m.key);
    let added = new_members(keys, n, amounts);
    assert forall|i: int| 0 <= i < members.len() implies pred(#[trigger] members[i]) by {
        if keys.contains(members[i].key) {
            let j = choose|j: int| 0 <= j < keys.len() && keys[j] == members[i].key;
            assert(member_keys(members)[i] == keys[j]);
        }
    }
    assert forall|i: int| 0 <= i < added.len() implies !pred(#[trigger] added[i]) by {
        assert(keys[i] == added[i].key);
    }
    lemma_filter_keeps_all(members, pred);
    lemma_filter_drops_all(added, pred);
    Seq::filter_distributes_over_add(members, added, pred);
    assert(members + Seq::<MemberView>::empty() =~= members);
}

/// The admin may settle a recorded tie in favour of any one of the tied proposals, and of no
/// other: where the vault covers the tied score and the payout fits, choosing `k` is refused
/// exactly when `k` is not among the tied, and then with `ProposalNotInTies`.
pub proof fn law_any_tied_proposal_may_win(dao: FridgeDaoView, k: Seq<u8>)
    requires
        dao.tie is Some,
        dao.tie->Some_0.score <= dao.vault_balance,
        rescaled(dao.members, (dao.vault_balance - dao.tie->Some_0.score) as u64, dao.vault_balance) is Some,
    ensures
        dao.tie->Some_0.winners.contains(k) ==> resolve_refusal(dao, dao.admin, k) is None,
        !dao.tie->Some_0.winners.contains(k) ==> resolve_refusal(dao, dao.admin, k) == Some(Error::ProposalNotInTies),
{
}

/// A member who appears anywhere among a proposal's voters is refused another vote for it
/// with `AlreadyVoted`.
pub proof fn law_voter_counted_once(
    dao: FridgeDaoView,
    proposal: ProposalView,
    voter: Seq<u8>,
    now: i64,
)
    requires
        is_member(dao, voter),
        proposal.voters.contains(voter),
    ensures
        vote_refusal(dao, proposal, voter, proposal.identifier, now) == Some(Error::AlreadyVoted),
{
}

/// A vote that is taken keeps the proposal's voters distinct: no address is counted twice.
pub proof fn law_votes_stay_distinct(
    dao: FridgeDaoView,
    proposal: ProposalView,
    voter: Seq<u8>,
    proposal_id: u64,
    now: i64,
)
    requires
        proposal.voters.no_duplicates(),
        vote_refusal(dao, proposal, voter, proposal_id, now) is None,
    ensures
        proposal.voters.push(voter).no_duplicates(),
{
    let v = proposal.voters;
    let w = v.push(voter);
    assert forall|a: int, b: int| 0 <= a < w.len() && 0 <= b < w.len() && a != b implies w[a] != w[b] by {
        if a < v.len() && b < v.len() {
            assert(v[a] != v[b]);
        } else if a < v.len() {
            assert(v.contains(v[a]));
        } else {
            assert(v.contains(v[b]));
        }
    }
}

/// The balance of the member with address `k` (its first record).
pub open spec fn expelled_balance(members: Seq<MemberView>, k: Seq<u8>) -> u64 {
    members[first_index(member_keys(members), k)].balance
}

/// How many of the first `n` expelled addresses hold a positive balance.
pub open spec fn funded_count(members: Seq<MemberView>, keys: Seq<Seq<u8>>, n: nat) -> nat
    decreases n,
{
    if n == 0 {
        0
    } else {
        funded_count(members, keys, (n - 1) as nat) + if expelled_balance(members, keys[n - 1]) > 0 {
            1nat
        } else {
            0nat
        }
    }
}

/// The sum of the balances of the first `n` expelled addresses.
pub open spec fn balances_total(members: Seq<MemberView>, keys: Seq<Seq<u8>>, n: nat) -> int
    decreases n,
{
    if n == 0 {
        0
    } else {
        balances_total(members, keys, (n - 1) as nat) + expelled_balance(members, keys[n - 1])
    }
}

/// The sum of the amounts of `paid`.
pub open spec fn payouts_total(paid: Seq<PayoutView>) -> int
    decreases paid.len(),
{
    if paid.len() == 0 {
        0
    } else {
        payouts_total(paid.drop_last()) + paid.last().amount
    }
}

proof fn lemma_removal_pays(
    members: Seq<MemberView>,
    keys: Seq<Seq<u8>>,
    accounts: Seq<RawAccountView>,
    usdc_mint: Seq<u8>,
    n: nat,
)
    requires
        n <= keys.len(),
        removal_payouts(members, keys, accounts, usdc_mint, n) is Ok,
    ensures
        ({
            let paid = removal_payouts(members, keys, accounts, usdc_mint, n)->Ok_0;
            &&& paid.len() == funded_count(members, keys, n)
            &&& payouts_total(paid) == balances_total(members, keys, n)
            &&& keys.take(n as int).no_duplicates()
            &&& forall|k: int| 0 <= k < paid.len() ==> (#[trigger] paid[k]).amount > 0
        }),
    decreases n,
{
    if n > 0 {
        let m = (n - 1) as nat;
        assert(removal_payouts(members, keys, accounts, usdc_mint, m) is Ok);
        lemma_removal_pays(members, keys, accounts, usdc_mint, m);
        let prev = removal_payouts(members, keys, accounts, usdc_mint, m)->Ok_0;
        let paid = removal_payouts(members, keys, accounts, usdc_mint, n)->Ok_0;
        let k = keys[m as int];
        assert(!keys.take(m as int).contains(k));
        let t = keys.take(n as int);
        assert(t =~= keys.take(m as int).push(k));
        assert forall|a: int, b: int| 0 <= a < t.len() && 0 <= b < t.len() && a != b implies t[a] != t[b] by {
            if a < m && b < m {
                assert(keys.take(m as int)[a] != keys.take(m as int)[b]);
            } else if a < m {
                assert(keys.take(m as int).contains(t[a]));
            } else {
                assert(keys.take(m as int).contains(t[b]));
            }
        }
        if expelled_balance(members, k) > 0 {
            assert(paid.drop_last() =~= prev);
        } else {
            assert(paid == prev);
        }
    }
}

/// An expulsion that goes through pays every expelled member with a positive balance exactly
/// once, in full: one payout per such member, the amounts summing to their balances, no
/// address expelled twice.
pub proof fn law_removal_pays_every_balance(
    members: Seq<MemberView>,
    keys: Seq<Seq<u8>>,
    accounts: Seq<RawAccountView>,
    usdc_mint: Seq<u8>,
)
    requires
        removal_payouts(members, keys, accounts, usdc_mint, keys.len()) is Ok,
    ensures
        ({
            let paid = removal_payouts(members, keys, accounts, usdc_mint, keys.len())->Ok_0;
            &&& paid.len() == funded_count(members, keys, keys.len())
            &&& payouts_total(paid) == balances_total(members, keys, keys.len())
            &&& keys.no_duplicates()
        }),
{
    lemma_removal_pays(members, keys, accounts, usdc_mint, keys.len());
    assert(keys.take(keys.len() as int) =~= keys);
}

} // verus!
