use vstd::prelude::*;

use crate::dao::error::{token_read_error, token_read_refusal, Error};
use crate::dao::members::{remove_members, without_keys};
use crate::dao::state::{member_keys, FridgeDao, FridgeDaoView, MemberView};
use crate::dao::voting::find_member;
use crate::key::{contains_key, first_index, keys_view, lemma_first_index, zero_key, Key};
use crate::spl::{
    associated_token_address, get_associated_token_address, is_token_program, payouts_view,
    raw_accounts_view, read_token_interface_account, token_2022_program_id, token_program_id,
    token_interface_account_layout, Payout, PayoutView, RawAccount, RawAccountView,
    TokenAccountFields, TokenAccountFieldsView,
};

verus! {

/// A member's token account as the interface account loader reads it: an account that does
/// not exist (the system program, whose address is all zeros, owns it and it holds no lamports)
/// is refused first, then one that neither token program owns, then data that does not hold a
/// token account of either program.
pub open spec fn interface_account_read(a: RawAccountView) -> Result<TokenAccountFieldsView, Error> {
    if a.owner == zero_key() && a.lamports == 0 {
        Err(Error::AccountNotInitialized)
    } else if !(a.owner == token_program_id() || a.owner == token_2022_program_id()) {
        Err(Error::AccountOwnedByWrongProgram)
    } else {
        match token_interface_account_layout(a.data) {
            Ok(f) => Ok(f),
            Err(e) => Err(token_read_error(e)),
        }
    }
}

/// Reads `account` as a token account of either token program, as `interface_account_read`
/// says.
pub fn read_interface_account(account: &RawAccount) -> (r: Result<TokenAccountFields, Error>)
    ensures
        match r {
            Ok(f) => interface_account_read(account@) == Ok::<TokenAccountFieldsView, Error>(f@),
            Err(e) => interface_account_read(account@) == Err::<TokenAccountFieldsView, Error>(e),
        },
{
    if account.lamports == 0 && account.owner.same(&Key::zero()) {
        return Err(Error::AccountNotInitialized);
    }
    if !is_token_program(&account.owner) {
        return Err(Error::AccountOwnedByWrongProgram);
    }
    match read_token_interface_account(&account.data) {
        Ok(f) => Ok(f),
        Err(e) => Err(token_read_refusal(e)),
    }
}

/// The payouts owed to the first `n` expelled members, or the first refusal met. Each
/// address must appear once and be a member; a member with a positive balance is paid it,
/// into a readable token account of the stable coin that the member owns at the member's
/// associated token address, read as `interface_account_read` says.
pub open spec fn removal_payouts(
    members: Seq<MemberView>,
    keys: Seq<Seq<u8>>,
    accounts: Seq<RawAccountView>,
    usdc_mint: Seq<u8>,
    n: nat,
) -> Result<Seq<PayoutView>, Error>
    decreases n,
{
    if n == 0 {
        Ok(Seq::empty())
    } else {
        match removal_payouts(members, keys, accounts, usdc_mint, (n - 1) as nat) {
            Err(e) => Err(e),
            Ok(paid) => {
                let k = keys[n - 1];
                if keys.take(n - 1).contains(k) {
                    Err(Error::DuplicateKeys)
                } else if !member_keys(members).contains(k) {
                    Err(Error::KeyDoesNotExist)
                } else {
                    let amount = members[first_index(member_keys(members), k)].balance;
                    if amount == 0 {
                        Ok(paid)
                    } else {
                        let a = accounts[n - 1];
                        match interface_account_read(a) {
                            Err(e) => Err(e),
                            Ok(f) => {
                                if f.owner != k {
                                    Err(Error::InvalidTokenAccountOwner)
                                } else if f.mint != usdc_mint {
                                    Err(Error::InvalidMint)
                                } else if associated_token_address(k, usdc_mint) != Some(a.address) {
                                    Err(Error::InvalidTokenAccount)
                                } else {
                                    Ok(paid.push(PayoutView { to: a.address, amount: amount }))
                                }
                            },
                        }
                    }
                }
            },
        }
    }
}

proof fn lemma_removal_stays_failed(
    members: Seq<MemberView>,
    keys: Seq<Seq<u8>>,
    accounts: Seq<RawAccountView>,
    usdc_mint: Seq<u8>,
    n: nat,
    m: nat,
)
    requires
        removal_payouts(members, keys, accounts, usdc_mint, n) is Err,
        n <= m,
    ensures
        removal_payouts(members, keys, accounts, usdc_mint, m) == removal_payouts(
            members,
            keys,
            accounts,
            usdc_mint,
            n,
        ),
    decreases m - n,
{
    if n < m {
        lemma_removal_stays_failed(members, keys, accounts, usdc_mint, n, (m - 1) as nat);
    }
}

/// The refusals checked before any member: the admin asks, one token account is given per
/// address, and the vault holds the stable coin.
pub open spec fn removal_refusal(
    dao: FridgeDaoView,
    remover: Seq<u8>,
    n_keys: nat,
    n_accounts: nat,
    vault_mint: Seq<u8>,
    usdc_mint: Seq<u8>,
) -> Option<Error> {
    if remover != dao.admin {
        Some(Error::InvalidAuthority)
    } else if n_accounts != n_keys {
        Some(Error::MismatchingRemainingAccountsLength)
    } else if vault_mint != usdc_mint {
        Some(Error::InvalidMint)
    } else {
        None
    }
}

/// The admin expels members and pays each one's balance back out of the vault.
/// `token_accounts[i]` is the token account given for `keys_to_remove[i]`; it is read only
/// when that member's balance is positive. Returns the transfers to make, in order.
pub fn remove_valid_keys(
    dao: &mut FridgeDao,
    remover: &Key,
    keys_to_remove: &Vec<Key>,
    token_accounts: &Vec<RawAccount>,
    vault_mint: &Key,
    usdc_mint: &Key,
) -> (r: Result<Vec<Payout>, Error>)
    ensures
        match removal_refusal(
            old(dao)@,
            remover@,
            keys_to_remove.len() as nat,
            token_accounts.len() as nat,
            vault_mint@,
            usdc_mint@,
        ) {
            Some(e) => r == Err::<Vec<Payout>, Error>(e) && final(dao)@ == old(dao)@,
            None => match removal_payouts(
                old(dao)@.members,
                keys_view(keys_to_remove@),
                raw_accounts_view(token_accounts@),
                usdc_mint@,
                keys_to_remove.len() as nat,
            ) {
                Err(e) => r == Err::<Vec<Payout>, Error>(e) && final(dao)@ == old(dao)@,
                Ok(paid) => r matches Ok(v) && payouts_view(v@) == paid && final(dao)@ == (
                FridgeDaoView {
                    members: without_keys(old(dao)@.members, keys_view(keys_to_remove@)),
                    ..old(dao)@
                }),
            },
        },
{
    if !remover.same(&dao.admin) {
        return Err(Error::InvalidAuthority);
    }
    if token_accounts.len() != keys_to_remove.len() {
        return Err(Error::MismatchingRemainingAccountsLength);
    }
    if !vault_mint.same(usdc_mint) {
        return Err(Error::InvalidMint);
    }
    let ghost members = dao@.members;
    let ghost keys = keys_view(keys_to_remove@);
    let ghost accounts = raw_accounts_view(token_accounts@);
    let mut seen: Vec<Key> = Vec::new();
    let mut payouts: Vec<Payout> = Vec::new();
    let mut i: usize = 0;
    assert(payouts_view(payouts@) =~= Seq::empty());
    while i < keys_to_remove.len()
        invariant
            i <= keys_to_remove.len(),
            dao@ == old(dao)@,
            remover@ == dao@.admin,
            vault_mint@ == usdc_mint@,
            token_accounts.len() == keys_to_remove.len(),
            members == dao@.members,
            keys == keys_view(keys_to_remove@),
            accounts == raw_accounts_view(token_accounts@),
            keys_view(seen@) == keys.take(i as int),
            removal_payouts(members, keys, accounts, usdc_mint@, i as nat) == Ok::<
                Seq<PayoutView>,
                Error,
            >(payouts_view(payouts@)),
        decreases keys_to_remove.len() - i,
    {
        let k = keys_to_remove[i];
        assert(keys[i as int] == k@);
        if contains_key(&seen, &k) {
            proof {
                lemma_removal_stays_failed(members, keys, accounts, usdc_mint@, (i + 1) as nat, keys.len());
            }
            return Err(Error::DuplicateKeys);
        }
        let m = match find_member(&dao.valid_member_keys, &k) {
            None => {
                proof {
                    lemma_removal_stays_failed(members, keys, accounts, usdc_mint@, (i + 1) as nat, keys.len());
                }
                return Err(Error::KeyDoesNotExist);
            },
            Some(m) => m,
        };
        proof {
            lemma_first_index(member_keys(members), k@, m as int);
        }
        let amount = dao.valid_member_keys[m].balance;
        if amount > 0 {
            let acct = &token_accounts[i];
            assert(accounts[i as int] == acct@);
            let fields = match read_interface_account(acct) {
                Err(e) => {
                    proof {
                        lemma_removal_stays_failed(members, keys, accounts, usdc_mint@, (i + 1) as nat, keys.len());
                    }
                    return Err(e);
                },
                Ok(f) => f,
            };
            if !fields.owner.same(&k) {
                proof {
                    lemma_removal_stays_failed(members, keys, accounts, usdc_mint@, (i + 1) as nat, keys.len());
                }
                return Err(Error::InvalidTokenAccountOwner);
            }
            if !fields.mint.same(usdc_mint) {
                proof {
                    lemma_removal_stays_failed(members, keys, accounts, usdc_mint@, (i + 1) as nat, keys.len());
                }
                return Err(Error::InvalidMint);
            }
            let at_ata = match get_associated_token_address(&k, usdc_mint) {
                Some(expected) => acct.address.same(&expected),
                None => false,
            };
            if !at_ata {
                proof {
                    lemma_removal_stays_failed(members, keys, accounts, usdc_mint@, (i + 1) as nat, keys.len());
                }
                return Err(Error::InvalidTokenAccount);
            }
            let ghost pv = payouts_view(payouts@);
            payouts.push(Payout { to: acct.address, amount: amount });
            assert(payouts_view(payouts@) =~= pv.push(PayoutView { to: acct.address@, amount: amount }));
        }
        let ghost sv = keys_view(seen@);
        seen.push(k);
        assert(keys_view(seen@) =~= sv.push(k@));
        assert(keys.take(i + 1) =~= keys.take(i as int).push(k@));
        i = i + 1;
    }
    let ghost d0 = dao@;
    remove_members(&mut dao.valid_member_keys, keys_to_remove);
    assert(dao@ =~= (FridgeDaoView { members: without_keys(d0.members, keys), ..d0 }));
    Ok(payouts)
}

} // verus!
