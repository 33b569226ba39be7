use vstd::prelude::*;

use crate::key::{
    contains_key, keys_view, lemma_refusal_stays, new_keys_refusal, Key,
};
use crate::mint::error::{token_read_error, token_read_refusal, Error};
use crate::mint::state::{
    mint_member_keys, mint_members_view, DAOMint, DAOMintView, MintMemberView, UserWithTokenAcct,
    MAX_MEMBERS,
};
use crate::spl::{
    associated_token_address, get_associated_token_address, payouts_view, raw_accounts_view,
    read_token_account, read_token_interface_account, token_account_layout,
    token_interface_account_layout, Payout, PayoutView, RawAccount, RawAccountView,
};

verus! {

/// Whether `k` is the address of a member of the mint.
pub open spec fn is_mint_member(m: DAOMintView, k: Seq<u8>) -> bool {
    mint_member_keys(m.members).contains(k)
}

/// Whether `k` is the address of a member of the mint.
pub fn has_mint_member(dao_mint: &DAOMint, k: &Key) -> (r: bool)
    ensures
        r == is_mint_member(dao_mint@, k@),
{
    let ghost keys = mint_member_keys(dao_mint@.members);
    let mut i: usize = 0;
    while i < dao_mint.valid_member_keys.len()
        invariant
            i <= dao_mint.valid_member_keys.len(),
            keys == mint_member_keys(dao_mint@.members),
            forall|j: int| 0 <= j < i ==> keys[j] != k@,
        decreases dao_mint.valid_member_keys.len() - i,
    {
        if dao_mint.valid_member_keys[i].key.same(k) {
            assert(keys[i as int] == k@);
            return true;
        }
        i = i + 1;
    }
    false
}

/// A new mint: `admin` is its only member, known by `admin_token_account`, which must be the
/// admin's associated token account for the stable coin (an address that does not exist when
/// no bump seed gives one off the curve).
pub fn init_mint(
    admin: &Key,
    vault: &Key,
    usdc_mint: &Key,
    dao_program: &Key,
    bump: u8,
    admin_token_account: &Key,
) -> (r: Result<DAOMint, Error>)
    ensures
        r is Ok <==> associated_token_address(admin@, usdc_mint@) == Some(admin_token_account@),
        r is Err ==> r == Err::<DAOMint, Error>(Error::InvalidTokenAccount),
        r matches Ok(m) ==> m@ == (DAOMintView {
            admin: admin@,
            vault: vault@,
            usdc_mint: usdc_mint@,
            dao_program: dao_program@,
            mint_authority_bump: 0,
            bump: bump,
            members: seq![MintMemberView { key: admin@, token_account: admin_token_account@ }],
        }),
{
    match get_associated_token_address(admin, usdc_mint) {
        Some(expected) => {
            if !admin_token_account.same(&expected) {
                return Err(Error::InvalidTokenAccount);
            }
        },
        None => {
            return Err(Error::InvalidTokenAccount);
        },
    }
    let mut members: Vec<UserWithTokenAcct> = Vec::new();
    members.push(UserWithTokenAcct { key: *admin, token_account: *admin_token_account });
    let m = DAOMint {
        admin: *admin,
        vault: *vault,
        usdc_mint: *usdc_mint,
        dao_program: *dao_program,
        mint_authority_bump: 0,
        bump: bump,
        valid_member_keys: members,
    };
    assert(m@.members =~= seq![MintMemberView { key: admin@, token_account: admin_token_account@ }]);
    Ok(m)
}

/// The refusals checked first when admitting members: one account per address, room under
/// `MAX_MEMBERS`, and the admin asking.
pub open spec fn whitelist_refusal(m: DAOMintView, adder: Seq<u8>, n_keys: nat, n_accounts: nat) -> Option<Error> {
    if n_accounts != n_keys {
        Some(Error::MismatchingRemainingAccountsLength)
    } else if m.members.len() + n_keys > MAX_MEMBERS {
        Some(Error::MaxMembers)
    } else if adder != m.admin {
        Some(Error::InvalidAuthority)
    } else {
        None
    }
}

/// The token balances read from the first `n` accounts, or the first refusal met: each
/// account must hold a token account of the stable coin owned by the matching new member.
pub open spec fn whitelist_amounts(
    new: Seq<Seq<u8>>,
    accounts: Seq<RawAccountView>,
    usdc_mint: Seq<u8>,
    n: nat,
) -> Result<Seq<u64>, Error>
    decreases n,
{
    if n == 0 {
        Ok(Seq::empty())
    } else {
        match whitelist_amounts(new, accounts, usdc_mint, (n - 1) as nat) {
            Err(e) => Err(e),
            Ok(amounts) => match token_account_layout(accounts[n - 1].data) {
                Err(e) => Err(token_read_error(e)),
                Ok(f) => {
                    if f.owner != new[n - 1] {
                        Err(Error::InvalidTokenAccount)
                    } else if f.mint != usdc_mint {
                        Err(Error::InvalidMint)
                    } else {
                        Ok(amounts.push(f.amount))
                    }
                },
            },
        }
    }
}

proof fn lemma_amounts_stay_failed(
    new: Seq<Seq<u8>>,
    accounts: Seq<RawAccountView>,
    usdc_mint: Seq<u8>,
    n: nat,
    m: nat,
)
    requires
        whitelist_amounts(new, accounts, usdc_mint, n) is Err,
        n <= m,
    ensures
        whitelist_amounts(new, accounts, usdc_mint, m) == whitelist_amounts(new, accounts, usdc_mint, n),
    decreases m - n,
{
    if n < m {
        lemma_amounts_stay_failed(new, accounts, usdc_mint, n, (m - 1) as nat);
    }
}

/// New members, the `i`-th known by the address of the `i`-th account.
pub open spec fn new_mint_members(new: Seq<Seq<u8>>, accounts: Seq<RawAccountView>) -> Seq<MintMemberView> {
    Seq::new(new.len(), |i: int| MintMemberView { key: new[i], token_account: accounts[i].address })
}

/// The admin admits new members; `token_accounts[i]` is the token account of `new_keys[i]`.
/// Returns the balances read from those accounts, in order.
pub fn whitelist_keys(
    dao_mint: &mut DAOMint,
    adder: &Key,
    new_keys: &Vec<Key>,
    token_accounts: &Vec<RawAccount>,
) -> (r: Result<Vec<u64>, Error>)
    requires
        old(dao_mint).valid_member_keys.len() + new_keys.len() <= usize::MAX,
    ensures
        match whitelist_refusal(old(dao_mint)@, adder@, new_keys.len() as nat, token_accounts.len() as nat) {
            Some(e) => r == Err::<Vec<u64>, Error>(e) && final(dao_mint)@ == old(dao_mint)@,
            None => match new_keys_refusal(
                mint_member_keys(old(dao_mint)@.members),
                keys_view(new_keys@),
                new_keys.len() as nat,
                Error::KeyAlreadyAdded,
                Error::DuplicateKeys,
            ) {
                Some(e) => r == Err::<Vec<u64>, Error>(e) && final(dao_mint)@ == old(dao_mint)@,
                None => match whitelist_amounts(
                    keys_view(new_keys@),
                    raw_accounts_view(token_accounts@),
                    old(dao_mint)@.usdc_mint,
                    new_keys.len() as nat,
                ) {
                    Err(e) => r == Err::<Vec<u64>, Error>(e) && final(dao_mint)@ == old(dao_mint)@,
                    Ok(amounts) => r matches Ok(v) && v@ == amounts && final(dao_mint)@ == (DAOMintView {
                        members: old(dao_mint)@.members + new_mint_members(
                            keys_view(new_keys@),
                            raw_accounts_view(token_accounts@),
                        ),
                        ..old(dao_mint)@
                    }),
                },
            },
        },
{
    if token_accounts.len() != new_keys.len() {
        return Err(Error::MismatchingRemainingAccountsLength);
    }
    if !(dao_mint.valid_member_keys.len() + new_keys.len() <= MAX_MEMBERS) {
        return Err(Error::MaxMembers);
    }
    if !adder.same(&dao_mint.admin) {
        return Err(Error::InvalidAuthority);
    }
    let ghost existing = mint_member_keys(dao_mint@.members);
    let ghost nk = keys_view(new_keys@);
    let ghost accts = raw_accounts_view(token_accounts@);
    let ghost usdc = dao_mint@.usdc_mint;
    let mut seen: Vec<Key> = Vec::new();
    let mut i: usize = 0;
    while i < new_keys.len()
        invariant
            i <= new_keys.len(),
            dao_mint@ == old(dao_mint)@,
            existing == mint_member_keys(dao_mint@.members),
            nk == keys_view(new_keys@),
            nk.len() == new_keys.len(),
            token_accounts.len() == new_keys.len(),
            whitelist_refusal(old(dao_mint)@, adder@, new_keys.len() as nat, token_accounts.len() as nat) is None,
            keys_view(seen@) == nk.take(i as int),
            new_keys_refusal(existing, nk, i as nat, Error::KeyAlreadyAdded, Error::DuplicateKeys) is None,
        decreases new_keys.len() - i,
    {
        let k = new_keys[i];
        assert(nk[i as int] == k@);
        if has_mint_member(dao_mint, &k) {
            proof {
                lemma_refusal_stays(existing, nk, (i + 1) as nat, new_keys.len() as nat, Error::KeyAlreadyAdded, Error::DuplicateKeys);
            }
            return Err(Error::KeyAlreadyAdded);
        }
        if contains_key(&seen, &k) {
            proof {
                lemma_refusal_stays(existing, nk, (i + 1) as nat, new_keys.len() as nat, Error::KeyAlreadyAdded, Error::DuplicateKeys);
            }
            return Err(Error::DuplicateKeys);
        }
        let ghost sv = keys_view(seen@);
        seen.push(k);
        assert(keys_view(seen@) =~= sv.push(k@));
        assert(nk.take(i + 1) =~= nk.take(i as int).push(k@));
        i = i + 1;
    }
    let mut amounts: Vec<u64> = Vec::new();
    let mut j: usize = 0;
    assert(amounts@ =~= Seq::<u64>::empty());
    while j < new_keys.len()
        invariant
            j <= new_keys.len(),
            token_accounts.len() == new_keys.len(),
            dao_mint@ == old(dao_mint)@,
            nk == keys_view(new_keys@),
            accts == raw_accounts_view(token_accounts@),
            usdc == dao_mint@.usdc_mint,
            existing == mint_member_keys(dao_mint@.members),
            whitelist_refusal(old(dao_mint)@, adder@, new_keys.len() as nat, token_accounts.len() as nat) is None,
            new_keys_refusal(existing, nk, new_keys.len() as nat, Error::KeyAlreadyAdded, Error::DuplicateKeys) is None,
            whitelist_amounts(nk, accts, usdc, j as nat) == Ok::<Seq<u64>, Error>(amounts@),
        decreases new_keys.len() - j,
    {
        let acct = &token_accounts[j];
        assert(accts[j as int] == acct@);
        assert(nk[j as int] == new_keys@[j as int]@);
        let fields = match read_token_account(&acct.data) {
            Err(e) => {
                proof {
                    lemma_amounts_stay_failed(nk, accts, usdc, (j + 1) as nat, nk.len());
                }
                return Err(token_read_refusal(e));
            },
            Ok(f) => f,
        };
        if !fields.owner.same(&new_keys[j]) {
            proof {
                lemma_amounts_stay_failed(nk, accts, usdc, (j + 1) as nat, nk.len());
            }
            return Err(Error::InvalidTokenAccount);
        }
        if !fields.mint.same(&dao_mint.usdc_mint) {
            proof {
                lemma_amounts_stay_failed(nk, accts, usdc, (j + 1) as nat, nk.len());
            }
            return Err(Error::InvalidMint);
        }
        amounts.push(fields.amount);
        j = j + 1;
    }
    let ghost m0 = dao_mint@;
    let mut k: usize = 0;
    while k < new_keys.len()
        invariant
            k <= new_keys.len(),
            token_accounts.len() == new_keys.len(),
            nk == keys_view(new_keys@),
            accts == raw_accounts_view(token_accounts@),
            dao_mint@ == (DAOMintView {
                members: m0.members + new_mint_members(nk.take(k as int), accts),
                ..m0
            }),
        decreases new_keys.len() - k,
    {
        let ghost before = dao_mint@.members;
        dao_mint.valid_member_keys.push(
            UserWithTokenAcct { key: new_keys[k], token_account: token_accounts[k].address },
        );
        k = k + 1;
        assert(dao_mint@.members =~= m0.members + new_mint_members(nk.take(k as int), accts)) by {
            assert(dao_mint@.members =~= before.push(
                MintMemberView { key: new_keys@[k - 1]@, token_account: token_accounts@[k - 1].address@ },
            ));
        }
        assert(dao_mint@ =~= (DAOMintView {
            members: m0.members + new_mint_members(nk.take(k as int), accts),
            ..m0
        }));
    }
    assert(nk.take(new_keys.len() as int) =~= nk);
    Ok(amounts)
}

/// The members whose address is not among `keys`.
pub open spec fn mint_without_keys(members: Seq<MintMemberView>, keys: Seq<Seq<u8>>) -> Seq<MintMemberView> {
    members.filter(|m: MintMemberView| !keys.contains(m.key))
}

fn remove_mint_members(members: &mut Vec<UserWithTokenAcct>, keys: &Vec<Key>)
    ensures
        mint_members_view(final(members)@) == mint_without_keys(
            mint_members_view(old(members)@),
            keys_view(keys@),
        ),
{
    let ghost all = mint_members_view(members@);
    let ghost kv = keys_view(keys@);
    let ghost pred = |m: MintMemberView| !kv.contains(m.key);
    let mut kept: Vec<UserWithTokenAcct> = Vec::new();
    let mut i: usize = 0;
    while i < members.len()
        invariant
            i <= members.len(),
            all == mint_members_view(members@),
            kv == keys_view(keys@),
            pred == (|m: MintMemberView| !kv.contains(m.key)),
            mint_members_view(kept@) == all.take(i as int).filter(pred),
        decreases members.len() - i,
    {
        let u = members[i];
        let ghost before = all.take(i as int);
        proof {
            assert(all.take(i + 1) =~= before.push(u@));
            before.lemma_filter_push(u@, pred);
        }
        if !contains_key(keys, &u.key) {
            kept.push(u);
            assert(mint_members_view(kept@) =~= before.filter(pred).push(u@));
        }
        i = i + 1;
    }
    assert(all.take(members.len() as int) =~= all);
    *members = kept;
}

/// The transfers owed to the first `n` expelled members, or the first refusal met. Each
/// address must appear once and be a member; its account must hold a token account (of either
/// token program) of the stable coin that the member owns; a positive balance is paid back into it, which must then
/// be the member's associated token account.
pub open spec fn blacklist_payouts(
    members: Seq<MintMemberView>,
    keys: Seq<Seq<u8>>,
    accounts: Seq<RawAccountView>,
    usdc_mint: Seq<u8>,
    n: nat,
) -> Result<Seq<PayoutView>, Error>
    decreases n,
{
    if n == 0 {
        Ok(Seq::empty())
    } else {
        match blacklist_payouts(members, keys, accounts, usdc_mint, (n - 1) as nat) {
            Err(e) => Err(e),
            Ok(paid) => {
                let k = keys[n - 1];
                let a = accounts[n - 1];
                if keys.take(n - 1).contains(k) {
                    Err(Error::DuplicateKeys)
                } else if !mint_member_keys(members).contains(k) {
                    Err(Error::KeyDoesNotExist)
                } else {
                    match token_interface_account_layout(a.data) {
                        Err(e) => Err(token_read_error(e)),
                        Ok(f) => {
                            if f.owner != k {
                                Err(Error::InvalidTokenAccountOwner)
                            } else if f.mint != usdc_mint {
                                Err(Error::InvalidMint)
                            } else if f.amount == 0 {
                                Ok(paid)
                            } else if associated_token_address(k, usdc_mint) != Some(a.address) {
                                Err(Error::InvalidTokenAccount)
                            } else {
                                Ok(paid.push(PayoutView { to: a.address, amount: f.amount }))
                            }
                        },
                    }
                }
            },
        }
    }
}

proof fn lemma_blacklist_stays_failed(
    members: Seq<MintMemberView>,
    keys: Seq<Seq<u8>>,
    accounts: Seq<RawAccountView>,
    usdc_mint: Seq<u8>,
    n: nat,
    m: nat,
)
    requires
        blacklist_payouts(members, keys, accounts, usdc_mint, n) is Err,
        n <= m,
    ensures
        blacklist_payouts(members, keys, accounts, usdc_mint, m) == blacklist_payouts(
            members,
            keys,
            accounts,
            usdc_mint,
            n,
        ),
    decreases m - n,
{
    if n < m {
        lemma_blacklist_stays_failed(members, keys, accounts, usdc_mint, n, (m - 1) as nat);
    }
}

/// Expels members and pays each one's token balance back out of the vault;
/// `token_accounts[i]` is the token account of `keys_to_blacklist[i]`. Returns the transfers
/// to make, in order.
pub fn blacklist_keys(
    dao_mint: &mut DAOMint,
    keys_to_blacklist: &Vec<Key>,
    token_accounts: &Vec<RawAccount>,
) -> (r: Result<Vec<Payout>, Error>)
    ensures
        token_accounts.len() != keys_to_blacklist.len() ==> r == Err::<Vec<Payout>, Error>(
            Error::MismatchingRemainingAccountsLength,
        ) && final(dao_mint)@ == old(dao_mint)@,
        token_accounts.len() == keys_to_blacklist.len() ==> match blacklist_payouts(
            old(dao_mint)@.members,
            keys_view(keys_to_blacklist@),
            raw_accounts_view(token_accounts@),
            old(dao_mint)@.usdc_mint,
            keys_to_blacklist.len() as nat,
        ) {
            Err(e) => r == Err::<Vec<Payout>, Error>(e) && final(dao_mint)@ == old(dao_mint)@,
            Ok(paid) => r matches Ok(v) && payouts_view(v@) == paid && final(dao_mint)@ == (
            DAOMintView {
                members: mint_without_keys(old(dao_mint)@.members, keys_view(keys_to_blacklist@)),
                ..old(dao_mint)@
            }),
        },
{
    if token_accounts.len() != keys_to_blacklist.len() {
        return Err(Error::MismatchingRemainingAccountsLength);
    }
    let ghost members = dao_mint@.members;
    let ghost keys = keys_view(keys_to_blacklist@);
    let ghost accts = raw_accounts_view(token_accounts@);
    let ghost usdc = dao_mint@.usdc_mint;
    let mut seen: Vec<Key> = Vec::new();
    let mut payouts: Vec<Payout> = Vec::new();
    assert(payouts_view(payouts@) =~= Seq::empty());
    let mut i: usize = 0;
    while i < keys_to_blacklist.len()
        invariant
            i <= keys_to_blacklist.len(),
            token_accounts.len() == keys_to_blacklist.len(),
            dao_mint@ == old(dao_mint)@,
            members == dao_mint@.members,
            usdc == dao_mint@.usdc_mint,
            keys == keys_view(keys_to_blacklist@),
            accts == raw_accounts_view(token_accounts@),
            keys_view(seen@) == keys.take(i as int),
            blacklist_payouts(members, keys, accts, usdc, i as nat) == Ok::<Seq<PayoutView>, Error>(
                payouts_view(payouts@),
            ),
        decreases keys_to_blacklist.len() - i,
    {
        let k = keys_to_blacklist[i];
        let acct = &token_accounts[i];
        assert(keys[i as int] == k@);
        assert(accts[i as int] == acct@);
        if contains_key(&seen, &k) {
            proof {
                lemma_blacklist_stays_failed(members, keys, accts, usdc, (i + 1) as nat, keys.len());
            }
            return Err(Error::DuplicateKeys);
        }
        if !has_mint_member(dao_mint, &k) {
            proof {
                lemma_blacklist_stays_failed(members, keys, accts, usdc, (i + 1) as nat, keys.len());
            }
            return Err(Error::KeyDoesNotExist);
        }
        let fields = match read_token_interface_account(&acct.data) {
            Err(e) => {
                proof {
                    lemma_blacklist_stays_failed(members, keys, accts, usdc, (i + 1) as nat, keys.len());
                }
                return Err(token_read_refusal(e));
            },
            Ok(f) => f,
        };
        if !fields.owner.same(&k) {
            proof {
                lemma_blacklist_stays_failed(members, keys, accts, usdc, (i + 1) as nat, keys.len());
            }
            return Err(Error::InvalidTokenAccountOwner);
        }
        if !fields.mint.same(&dao_mint.usdc_mint) {
            proof {
                lemma_blacklist_stays_failed(members, keys, accts, usdc, (i + 1) as nat, keys.len());
            }
            return Err(Error::InvalidMint);
        }
        let amount = fields.amount;
        if amount > 0 {
            let at_ata = match get_associated_token_address(&k, &dao_mint.usdc_mint) {
                Some(expected) => acct.address.same(&expected),
                None => false,
            };
            if !at_ata {
                proof {
                    lemma_blacklist_stays_failed(members, keys, accts, usdc, (i + 1) as nat, keys.len());
                }
                return Err(Error::InvalidTokenAccount);
            }
            let ghost pv = payouts_view(payouts@);
            payouts.push(Payout { to: acct.address, amount: amount });
            assert(payouts_view(payouts@) =~= pv.push(PayoutView { to: acct.address@, amount: amount }));
        }
        let ghost sv = keys_view(seen@);
        seen.push(k);
        assert(keys_view(seen@) =~= sv.push(k@));
        assert(keys.take(i + 1) =~= keys.take(i as int).push(k@));
        i = i + 1;
    }
    let ghost m0 = dao_mint@;
    remove_mint_members(&mut dao_mint.valid_member_keys, keys_to_blacklist);
    assert(dao_mint@ =~= (DAOMintView { members: mint_without_keys(m0.members, keys), ..m0 }));
    Ok(payouts)
}

/// A member moves tokens into the vault; only members may.
pub fn deposit(dao_mint: &DAOMint, depositor: &Key) -> (r: Result<(), Error>)
    ensures
        r is Ok <==> is_mint_member(dao_mint@, depositor@),
        r is Err ==> r == Err::<(), Error>(Error::InvalidMember),
{
    if !has_mint_member(dao_mint, depositor) {
        return Err(Error::InvalidMember);
    }
    Ok(())
}

/// A member takes tokens out of the vault into a token account of the stable coin.
pub fn withdraw(dao_mint: &DAOMint, withdrawer: &Key, user_token_mint: &Key) -> (r: Result<(), Error>)
    ensures
        !is_mint_member(dao_mint@, withdrawer@) ==> r == Err::<(), Error>(Error::InvalidMember),
        is_mint_member(dao_mint@, withdrawer@) && user_token_mint@ != dao_mint@.usdc_mint ==> r
            == Err::<(), Error>(Error::InvalidMint),
        r is Ok <==> (is_mint_member(dao_mint@, withdrawer@) && user_token_mint@ == dao_mint@.usdc_mint),
{
    if !has_mint_member(dao_mint, withdrawer) {
        return Err(Error::InvalidMember);
    }
    if !user_token_mint.same(&dao_mint.usdc_mint) {
        return Err(Error::InvalidMint);
    }
    Ok(())
}

/// Only the admin may have the winning proposal's price paid out.
pub fn withdraw_proposal_amount(dao_mint: &DAOMint, admin: &Key) -> (r: Result<(), Error>)
    ensures
        r is Ok <==> admin@ == dao_mint@.admin,
        r is Err ==> r == Err::<(), Error>(Error::InvalidAuthority),
{
    if !admin.same(&dao_mint.admin) {
        return Err(Error::InvalidAuthority);
    }
    Ok(())
}

/// The amount to pay for the winning proposal: its price, if the vault holds that much.
pub fn proposal_payout(vault_amount: u64, price: u64) -> (r: Result<u64, Error>)
    ensures
        vault_amount >= price ==> r == Ok::<u64, Error>(price),
        vault_amount < price ==> r == Err::<u64, Error>(Error::InsufficientFunds),
{
    if !(vault_amount >= price) {
        return Err(Error::InsufficientFunds);
    }
    Ok(price)
}

} // verus!
