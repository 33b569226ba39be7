use vstd::prelude::*;

use crate::key::{lemma_no_refusal, new_keys_refusal};
use crate::mint::error::Error;
use crate::mint::ops::{blacklist_payouts, mint_without_keys, new_mint_members, whitelist_refusal};
use crate::mint::state::{mint_member_keys, DAOMintView, MintMemberView, MAX_MEMBERS};
use crate::dao::laws::payouts_total;
use crate::spl::{token_interface_account_layout, RawAccountView};

verus! {

/// Admitting members to the mint, where it is not refused, keeps it within `MAX_MEMBERS` and
/// keeps every address once.
pub proof fn law_mint_admission_keeps_members_distinct(
    m: DAOMintView,
    adder: Seq<u8>,
    new: Seq<Seq<u8>>,
    accounts: Seq<RawAccountView>,
)
    requires
        mint_member_keys(m.members).no_duplicates(),
        whitelist_refusal(m, adder, new.len(), accounts.len()) is None,
        new_keys_refusal(mint_member_keys(m.members), new, new.len(), Error::KeyAlreadyAdded, Error::DuplicateKeys) is None,
    ensures
        (m.members + new_mint_members(new, accounts)).len() <= MAX_MEMBERS,
        mint_member_keys(m.members + new_mint_members(new, accounts)).no_duplicates(),
{
    let members = m.members;
    lemma_no_refusal(mint_member_keys(members), new, new.len(), Error::KeyAlreadyAdded, Error::DuplicateKeys);
    let all = mint_member_keys(members + new_mint_members(new, accounts));
    let old_keys = mint_member_keys(members);
    let n0 = members.len() as int;
    assert forall|i: int| 0 <= i < all.len() implies #[trigger] all[i] == (if i < n0 {
        old_keys[i]
    } else {
        new[i - n0]
    }) by {}
    assert forall|i: int, j: int| 0 <= i < all.len() && 0 <= j < all.len() && i != j implies all[i]
        != all[j] by {
        if i < n0 && j < n0 {
            assert(old_keys[i] != old_keys[j]);
        } else if i >= n0 && j >= n0 {
            if i < j {
                assert(new[i - n0] != new[j - n0]);
            } else {
                assert(new[j - n0] != new[i - n0]);
            }
        } else if i < n0 {
            if all[i] == all[j] {
                assert(old_keys[i] == new[j - n0]);
                assert(old_keys.contains(new[j - n0]));
            }
        } else {
            if all[i] == all[j] {
                assert(old_keys[j] == new[i - n0]);
                assert(old_keys.contains(new[i - n0]));
            }
        }
    }
}

/// Blacklisting addresses leaves none of them a member of the mint.
pub proof fn law_blacklisted_are_gone(members: Seq<MintMemberView>, keys: Seq<Seq<u8>>, k: Seq<u8>)
    requires
        keys.contains(k),
    ensures
        !mint_member_keys(mint_without_keys(members, keys)).contains(k),
{
    let pred = |m: MintMemberView| !keys.contains(m.key);
    let left = mint_without_keys(members, keys);
    if mint_member_keys(left).contains(k) {
        let i = choose|i: int| 0 <= i < mint_member_keys(left).len() && mint_member_keys(left)[i] == k;
        members.lemma_filter_pred(pred, i);
        assert(false);
    }
}

/// A blacklisting that goes through names each address once: a list in which an address
/// repeats is refused, so no member is paid back twice.
pub proof fn law_blacklist_names_each_once(
    members: Seq<MintMemberView>,
    keys: Seq<Seq<u8>>,
    accounts: Seq<RawAccountView>,
    usdc_mint: Seq<u8>,
)
    requires
        blacklist_payouts(members, keys, accounts, usdc_mint, keys.len()) is Ok,
    ensures
        keys.no_duplicates(),
{
    lemma_blacklist_distinct(members, keys, accounts, usdc_mint, keys.len());
    assert(keys.take(keys.len() as int) =~= keys);
}

proof fn lemma_blacklist_distinct(
    members: Seq<MintMemberView>,
    keys: Seq<Seq<u8>>,
    accounts: Seq<RawAccountView>,
    usdc_mint: Seq<u8>,
    n: nat,
)
    requires
        n <= keys.len(),
        blacklist_payouts(members, keys, accounts, usdc_mint, n) is Ok,
    ensures
        keys.take(n as int).no_duplicates(),
    decreases n,
{
    if n > 0 {
        let m = (n - 1) as nat;
        assert(blacklist_payouts(members, keys, accounts, usdc_mint, m) is Ok);
        lemma_blacklist_distinct(members, keys, accounts, usdc_mint, m);
        let p = keys.take(m as int);
        assert(!p.contains(keys[m as int]));
        let t = keys.take(n as int);
        assert(t =~= p.push(keys[m as int]));
        assert forall|a: int, b: int| 0 <= a < t.len() && 0 <= b < t.len() && a != b implies t[a] != t[b] by {
            if a < m && b < m {
                assert(p[a] != p[b]);
            } else if a < m {
                assert(p.contains(t[a]));
            } else {
                assert(p.contains(t[b]));
            }
        }
    }
}

/// The token balance that the account `a` holds, as the blacklisting reads it (0 where it
/// holds no token account).
pub open spec fn held_amount(a: RawAccountView) -> int {
    match token_interface_account_layout(a.data) {
        Ok(f) => f.amount as int,
        Err(_) => 0,
    }
}

/// How many of the first `n` accounts hold a positive token balance.
pub open spec fn funded_accounts(accounts: Seq<RawAccountView>, n: nat) -> nat
    decreases n,
{
    if n == 0 {
        0
    } else {
        funded_accounts(accounts, (n - 1) as nat) + if held_amount(accounts[n - 1]) > 0 {
            1nat
        } else {
            0nat
        }
    }
}

/// The sum of the token balances of the first `n` accounts.
pub open spec fn held_total(accounts: Seq<RawAccountView>, n: nat) -> int
    decreases n,
{
    if n == 0 {
        0
    } else {
        held_total(accounts, (n - 1) as nat) + held_amount(accounts[n - 1])
    }
}

proof fn lemma_blacklist_pays(
    members: Seq<MintMemberView>,
    keys: Seq<Seq<u8>>,
    accounts: Seq<RawAccountView>,
    usdc_mint: Seq<u8>,
    n: nat,
)
    requires
        n <= keys.len(),
        blacklist_payouts(members, keys, accounts, usdc_mint, n) is Ok,
    ensures
        ({
            let paid = blacklist_payouts(members, keys, accounts, usdc_mint, n)->Ok_0;
            &&& paid.len() == funded_accounts(accounts, n)
            &&& payouts_total(paid) == held_total(accounts, n)
        }),
    decreases n,
{
    if n > 0 {
        let m = (n - 1) as nat;
        assert(blacklist_payouts(members, keys, accounts, usdc_mint, m) is Ok);
        lemma_blacklist_pays(members, keys, accounts, usdc_mint, m);
        let prev = blacklist_payouts(members, keys, accounts, usdc_mint, m)->Ok_0;
        let paid = blacklist_payouts(members, keys, accounts, usdc_mint, n)->Ok_0;
        assert(token_interface_account_layout(accounts[m as int].data) is Ok);
        if held_amount(accounts[m as int]) > 0 {
            assert(paid.drop_last() =~= prev);
        } else {
            assert(paid == prev);
        }
    }
}

/// A blacklisting that goes through pays back every expelled member's token balance in full:
/// one payout per account holding a positive balance, the amounts summing to those balances.
pub proof fn law_blacklist_pays_every_balance(
    members: Seq<MintMemberView>,
    keys: Seq<Seq<u8>>,
    accounts: Seq<RawAccountView>,
    usdc_mint: Seq<u8>,
)
    requires
        blacklist_payouts(members, keys, accounts, usdc_mint, keys.len()) is Ok,
    ensures
        ({
            let paid = blacklist_payouts(members, keys, accounts, usdc_mint, keys.len())->Ok_0;
            &&& paid.len() == funded_accounts(accounts, keys.len())
            &&& payouts_total(paid) == held_total(accounts, keys.len())
        }),
{
    lemma_blacklist_pays(members, keys, accounts, usdc_mint, keys.len());
}

} // verus!
