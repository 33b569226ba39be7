use vstd::prelude::*;

use crate::dao::error::Error;
use crate::dao::state::{
    member_keys, members_view, FridgeDao, FridgeDaoView, MemberView, UserWithBalance, MAX_MEMBERS,
};
use crate::dao::voting::find_member;
use crate::key::{
    contains_key, first_index, keys_view, lemma_first_index, lemma_refusal_stays, new_keys_refusal,
    Key,
};

verus! {

/// The position of the first member with address `k`, or -1.
pub open spec fn member_index(dao: FridgeDaoView, k: Seq<u8>) -> int {
    first_index(member_keys(dao.members), k)
}

/// The members with a new balance for the member at position `i`.
pub open spec fn with_balance(members: Seq<MemberView>, i: int, balance: u64) -> Seq<MemberView> {
    members.update(i, MemberView { key: members[i].key, balance: balance })
}

/// Members with the addresses `keys`, each holding `balance(i)`.
pub open spec fn new_members(keys: Seq<Seq<u8>>, n: nat, amounts: spec_fn(int) -> u64) -> Seq<MemberView> {
    Seq::new(n, |i: int| MemberView { key: keys[i], balance: amounts(i) })
}

/// The members whose address is not among `keys`.
pub open spec fn without_keys(members: Seq<MemberView>, keys: Seq<Seq<u8>>) -> Seq<MemberView> {
    members.filter(|m: MemberView| !keys.contains(m.key))
}

/// Checks `new` against the members, in order, as `new_keys_refusal` says.
pub fn check_new_keys(members: &Vec<UserWithBalance>, new: &Vec<Key>, already: Error, repeated: Error) -> (r: Option<Error>)
    ensures
        r == new_keys_refusal(
            member_keys(members_view(members@)),
            keys_view(new@),
            new.len() as nat,
            already,
            repeated,
        ),
{
    let ghost existing = member_keys(members_view(members@));
    let ghost nk = keys_view(new@);
    let mut seen: Vec<Key> = Vec::new();
    let mut i: usize = 0;
    while i < new.len()
        invariant
            i <= new.len(),
            existing == member_keys(members_view(members@)),
            nk == keys_view(new@),
            nk.len() == new.len(),
            keys_view(seen@) == nk.take(i as int),
            new_keys_refusal(existing, nk, i as nat, already, repeated) is None,
        decreases new.len() - i,
    {
        let k = new[i];
        assert(nk[i as int] == k@);
        if find_member(members, &k).is_some() {
            proof {
                lemma_refusal_stays(existing, nk, (i + 1) as nat, new.len() as nat, already, repeated);
            }
            return Some(already);
        }
        if contains_key(&seen, &k) {
            proof {
                lemma_refusal_stays(existing, nk, (i + 1) as nat, new.len() as nat, already, repeated);
            }
            return Some(repeated);
        }
        let ghost sv = keys_view(seen@);
        seen.push(k);
        assert(keys_view(seen@) =~= sv.push(k@));
        assert(nk.take(i + 1) =~= nk.take(i as int).push(k@));
        i = i + 1;
    }
    None
}

/// Appends members with the addresses `keys[..n]`, the `i`-th holding `amounts[i]`, or 0 when
/// no amounts are given.
fn append_members(members: &mut Vec<UserWithBalance>, keys: &Vec<Key>, amounts: Option<&Vec<u64>>, n: usize)
    requires
        n <= keys.len(),
        amounts matches Some(a) ==> n <= a.len(),
    ensures
        members_view(final(members)@) == members_view(old(members)@) + new_members(
            keys_view(keys@),
            n as nat,
            |i: int| match amounts {
                Some(a) => a@[i],
                None => 0u64,
            },
        ),
{
    let ghost start = members_view(members@);
    let ghost amount_of = |i: int| match amounts {
        Some(a) => a@[i],
        None => 0u64,
    };
    let mut i: usize = 0;
    while i < n
        invariant
            i <= n,
            n <= keys.len(),
            amounts matches Some(a) ==> n <= a.len(),
            amount_of == (|i: int| match amounts {
                Some(a) => a@[i],
                None => 0u64,
            }),
            members_view(members@) == start + new_members(keys_view(keys@), i as nat, amount_of),
        decreases n - i,
    {
        let balance = match amounts {
            Some(a) => a[i],
            None => 0,
        };
        let ghost before = members_view(members@);
        members.push(UserWithBalance { key: keys[i], balance: balance });
        i = i + 1;
        assert(members_view(members@) =~= start + new_members(keys_view(keys@), i as nat, amount_of)) by {
            assert(members_view(members@) =~= before.push(MemberView { key: keys@[i - 1]@, balance }));
        }
    }
}

/// Removes the members whose address is among `keys`, keeping the order of the rest.
pub fn remove_members(members: &mut Vec<UserWithBalance>, keys: &Vec<Key>)
    ensures
        members_view(final(members)@) == without_keys(members_view(old(members)@), keys_view(keys@)),
{
    let ghost all = members_view(members@);
    let ghost kv = keys_view(keys@);
    let ghost pred = |m: MemberView| !kv.contains(m.key);
    let mut kept: Vec<UserWithBalance> = Vec::new();
    let mut i: usize = 0;
    while i < members.len()
        invariant
            i <= members.len(),
            all == members_view(members@),
            kv == keys_view(keys@),
            pred == (|m: MemberView| !kv.contains(m.key)),
            members_view(kept@) == all.take(i as int).filter(pred),
        decreases members.len() - i,
    {
        let u = members[i];
        let ghost before = all.take(i as int);
        proof {
            assert(all.take(i + 1) =~= before.push(u@));
            before.lemma_filter_push(u@, pred);
        }
        if !contains_key(keys, &u.key) {
            kept.push(u);
            assert(members_view(kept@) =~= before.filter(pred).push(u@));
        }
        i = i + 1;
    }
    assert(all.take(members.len() as int) =~= all);
    *members = kept;
}

/// The mint program credits `amount` to the first member with address `user`.
pub fn deposit(dao: &mut FridgeDao, signer: &Key, user: &Key, amount: u64) -> (r: Result<(), Error>)
    ensures
        signer@ != old(dao)@.mint_admin_program ==> r == Err::<(), Error>(Error::InvalidAuthority),
        signer@ == old(dao)@.mint_admin_program && member_index(old(dao)@, user@) < 0 ==> r == Err::<
            (),
            Error,
        >(Error::InvalidMember),
        signer@ == old(dao)@.mint_admin_program && member_index(old(dao)@, user@) >= 0
            && old(dao)@.members[member_index(old(dao)@, user@)].balance + amount > u64::MAX ==> r
            == Err::<(), Error>(Error::MathOverflowOrUnderflow),
        r is Ok <==> (signer@ == old(dao)@.mint_admin_program && member_index(old(dao)@, user@) >= 0
            && old(dao)@.members[member_index(old(dao)@, user@)].balance + amount <= u64::MAX),
        r is Err ==> final(dao)@ == old(dao)@,
        r is Ok ==> {
            let i = member_index(old(dao)@, user@);
            &&& signer@ == old(dao)@.mint_admin_program
            &&& i >= 0
            &&& final(dao)@ == (FridgeDaoView {
                members: with_balance(
                    old(dao)@.members,
                    i,
                    (old(dao)@.members[i].balance + amount) as u64,
                ),
                ..old(dao)@
            })
        },
{
    if !signer.same(&dao.mint_admin_program) {
        return Err(Error::InvalidAuthority);
    }
    let ghost d0 = dao@;
    let i = match find_member(&dao.valid_member_keys, user) {
        None => {
            proof {
                crate::key::lemma_first_index_absent(member_keys(d0.members), user@);
            }
            return Err(Error::InvalidMember);
        },
        Some(i) => i,
    };
    proof {
        lemma_first_index(member_keys(d0.members), user@, i as int);
    }
    let u = dao.valid_member_keys[i];
    let balance = match u.balance.checked_add(amount) {
        None => {
            return Err(Error::MathOverflowOrUnderflow);
        },
        Some(b) => b,
    };
    dao.valid_member_keys.set(i, UserWithBalance { key: u.key, balance: balance });
    assert(dao@ =~= (FridgeDaoView { members: with_balance(d0.members, i as int, balance), ..d0 }));
    Ok(())
}

/// The mint program debits `amount` from the first member with address `user`; the member
/// must hold at least that much.
pub fn withdraw(dao: &mut FridgeDao, signer: &Key, user: &Key, amount: u64) -> (r: Result<(), Error>)
    ensures
        signer@ != old(dao)@.mint_admin_program ==> r == Err::<(), Error>(Error::InvalidAuthority),
        signer@ == old(dao)@.mint_admin_program && member_index(old(dao)@, user@) < 0 ==> r == Err::<
            (),
            Error,
        >(Error::InvalidMember),
        signer@ == old(dao)@.mint_admin_program && member_index(old(dao)@, user@) >= 0 && amount
            > old(dao)@.members[member_index(old(dao)@, user@)].balance ==> r == Err::<(), Error>(
            Error::InvalidAmount,
        ),
        r is Ok <==> (signer@ == old(dao)@.mint_admin_program && member_index(old(dao)@, user@) >= 0
            && amount <= old(dao)@.members[member_index(old(dao)@, user@)].balance),
        r is Err ==> final(dao)@ == old(dao)@,
        r is Ok ==> {
            let i = member_index(old(dao)@, user@);
            &&& signer@ == old(dao)@.mint_admin_program
            &&& i >= 0
            &&& amount <= old(dao)@.members[i].balance
            &&& final(dao)@ == (FridgeDaoView {
                members: with_balance(
                    old(dao)@.members,
                    i,
                    (old(dao)@.members[i].balance - amount) as u64,
                ),
                ..old(dao)@
            })
        },
{
    if !signer.same(&dao.mint_admin_program) {
        return Err(Error::InvalidAuthority);
    }
    let ghost d0 = dao@;
    let i = match find_member(&dao.valid_member_keys, user) {
        None => {
            proof {
                crate::key::lemma_first_index_absent(member_keys(d0.members), user@);
            }
            return Err(Error::InvalidMember);
        },
        Some(i) => i,
    };
    proof {
        lemma_first_index(member_keys(d0.members), user@, i as int);
    }
    let u = dao.valid_member_keys[i];
    if !(amount <= u.balance) {
        return Err(Error::InvalidAmount);
    }
    let balance = match u.balance.checked_sub(amount) {
        None => {
            return Err(Error::MathOverflowOrUnderflow);
        },
        Some(b) => b,
    };
    dao.valid_member_keys.set(i, UserWithBalance { key: u.key, balance: balance });
    assert(dao@ =~= (FridgeDaoView { members: with_balance(d0.members, i as int, balance), ..d0 }));
    Ok(())
}

/// The mint program admits new members with their token balances: `new_keys[i]` holds
/// `token_account_amounts[i]`; extra entries of the longer list are ignored.
pub fn whitelist_keys(
    dao: &mut FridgeDao,
    signer: &Key,
    new_keys: &Vec<Key>,
    token_account_amounts: &Vec<u64>,
) -> (r: Result<(), Error>)
    ensures
        r is Ok <==> signer@ == old(dao)@.mint_admin_program,
        r is Err ==> r == Err::<(), Error>(Error::InvalidAuthority) && final(dao)@ == old(dao)@,
        r is Ok ==> final(dao)@ == (FridgeDaoView {
            members: old(dao)@.members + new_members(
                keys_view(new_keys@),
                if new_keys.len() <= token_account_amounts.len() {
                    new_keys.len() as nat
                } else {
                    token_account_amounts.len() as nat
                },
                |i: int| token_account_amounts@[i],
            ),
            ..old(dao)@
        }),
{
    if !signer.same(&dao.mint_admin_program) {
        return Err(Error::InvalidAuthority);
    }
    let n = if new_keys.len() <= token_account_amounts.len() {
        new_keys.len()
    } else {
        token_account_amounts.len()
    };
    let ghost d0 = dao@;
    append_members(&mut dao.valid_member_keys, new_keys, Some(token_account_amounts), n);
    assert(dao@ =~= (FridgeDaoView {
        members: d0.members + new_members(keys_view(new_keys@), n as nat, |i: int| token_account_amounts@[i]),
        ..d0
    })) by {
        assert(new_members(keys_view(new_keys@), n as nat, |i: int| match Some(token_account_amounts) {
            Some(a) => a@[i],
            None => 0u64,
        }) =~= new_members(keys_view(new_keys@), n as nat, |i: int| token_account_amounts@[i]));
    }
    Ok(())
}

/// The mint program expels the members whose address is among `keys_to_remove`.
pub fn blacklist_keys(dao: &mut FridgeDao, signer: &Key, keys_to_remove: &Vec<Key>) -> (r: Result<(), Error>)
    ensures
        r is Ok <==> signer@ == old(dao)@.mint_admin_program,
        r is Err ==> r == Err::<(), Error>(Error::InvalidAuthority) && final(dao)@ == old(dao)@,
        r is Ok ==> final(dao)@ == (FridgeDaoView {
            members: without_keys(old(dao)@.members, keys_view(keys_to_remove@)),
            ..old(dao)@
        }),
{
    if !signer.same(&dao.mint_admin_program) {
        return Err(Error::InvalidAuthority);
    }
    let ghost d0 = dao@;
    remove_members(&mut dao.valid_member_keys, keys_to_remove);
    assert(dao@ =~= (FridgeDaoView { members: without_keys(d0.members, keys_view(keys_to_remove@)), ..d0 }));
    Ok(())
}

/// The members with new addresses appended, each holding nothing.
pub open spec fn with_new_members(members: Seq<MemberView>, keys: Seq<Seq<u8>>) -> Seq<MemberView> {
    members + new_members(keys, keys.len(), |i: int| 0u64)
}

fn append_empty_members(members: &mut Vec<UserWithBalance>, keys: &Vec<Key>)
    ensures
        members_view(final(members)@) == with_new_members(members_view(old(members)@), keys_view(keys@)),
{
    let ghost start = members_view(members@);
    append_members(members, keys, None, keys.len());
    assert(new_members(keys_view(keys@), keys.len() as nat, |i: int| match None::<&Vec<u64>> {
        Some(a) => a@[i],
        None => 0u64,
    }) =~= new_members(keys_view(keys@), keys_view(keys@).len(), |i: int| 0u64));
}

/// The admin admits new members, each starting with a zero balance. The list may not pass
/// `MAX_MEMBERS`; no new address may already be a member or appear twice.
pub fn add_valid_keys(dao: &mut FridgeDao, adder: &Key, new_keys: &Vec<Key>) -> (r: Result<(), Error>)
    requires
        old(dao).valid_member_keys.len() + new_keys.len() <= usize::MAX,
    ensures
        old(dao).valid_member_keys.len() + new_keys.len() > MAX_MEMBERS ==> r == Err::<(), Error>(
            Error::MaxMembers,
        ),
        old(dao).valid_member_keys.len() + new_keys.len() <= MAX_MEMBERS && adder@ != old(dao)@.admin
            ==> r == Err::<(), Error>(Error::InvalidAuthority),
        old(dao).valid_member_keys.len() + new_keys.len() <= MAX_MEMBERS && adder@ == old(dao)@.admin
            ==> match new_keys_refusal(
            member_keys(old(dao)@.members),
            keys_view(new_keys@),
            new_keys.len() as nat,
            Error::KeyAlreadyAdded,
            Error::DuplicateKeys,
        ) {
            Some(e) => r == Err::<(), Error>(e),
            None => r is Ok,
        },
        r is Err ==> final(dao)@ == old(dao)@,
        r is Ok ==> final(dao)@ == (FridgeDaoView {
            members: with_new_members(old(dao)@.members, keys_view(new_keys@)),
            ..old(dao)@
        }),
{
    if !(dao.valid_member_keys.len() + new_keys.len() <= MAX_MEMBERS) {
        return Err(Error::MaxMembers);
    }
    if !adder.same(&dao.admin) {
        return Err(Error::InvalidAuthority);
    }
    match check_new_keys(&dao.valid_member_keys, new_keys, Error::KeyAlreadyAdded, Error::DuplicateKeys) {
        Some(e) => {
            return Err(e);
        },
        None => {},
    }
    let ghost d0 = dao@;
    append_empty_members(&mut dao.valid_member_keys, new_keys);
    assert(dao@ =~= (FridgeDaoView { members: with_new_members(d0.members, keys_view(new_keys@)), ..d0 }));
    Ok(())
}

/// The admin admits one new member with a zero balance; the address may not be a member yet.
pub fn add_valid_address(dao: &mut FridgeDao, adder: &Key, new_address: &Key) -> (r: Result<(), Error>)
    ensures
        adder@ != old(dao)@.admin ==> r == Err::<(), Error>(Error::InvalidAuthority),
        adder@ == old(dao)@.admin && member_keys(old(dao)@.members).contains(new_address@) ==> r
            == Err::<(), Error>(Error::AddressAlreadyAdded),
        r is Ok <==> (adder@ == old(dao)@.admin && !member_keys(old(dao)@.members).contains(
            new_address@,
        )),
        r is Err ==> final(dao)@ == old(dao)@,
        r is Ok ==> final(dao)@ == (FridgeDaoView {
            members: old(dao)@.members.push(MemberView { key: new_address@, balance: 0 }),
            ..old(dao)@
        }),
{
    if !adder.same(&dao.admin) {
        return Err(Error::InvalidAuthority);
    }
    if find_member(&dao.valid_member_keys, new_address).is_some() {
        return Err(Error::AddressAlreadyAdded);
    }
    let ghost d0 = dao@;
    dao.valid_member_keys.push(UserWithBalance { key: *new_address, balance: 0 });
    assert(dao@ =~= (FridgeDaoView {
        members: d0.members.push(MemberView { key: new_address@, balance: 0 }),
        ..d0
    }));
    Ok(())
}

/// The admin admits several new members with zero balances. The list may not pass
/// `MAX_MEMBERS`; no new address may already be a member or appear twice.
pub fn add_valid_addresses(dao: &mut FridgeDao, adder: &Key, new_addresses: &Vec<Key>) -> (r: Result<(), Error>)
    requires
        old(dao).valid_member_keys.len() + new_addresses.len() <= usize::MAX,
    ensures
        old(dao).valid_member_keys.len() + new_addresses.len() > MAX_MEMBERS ==> r == Err::<
            (),
            Error,
        >(Error::MaxMembers),
        old(dao).valid_member_keys.len() + new_addresses.len() <= MAX_MEMBERS && adder@ != old(
            dao,
        )@.admin ==> r == Err::<(), Error>(Error::InvalidAuthority),
        old(dao).valid_member_keys.len() + new_addresses.len() <= MAX_MEMBERS && adder@ == old(
            dao,
        )@.admin ==> match new_keys_refusal(
            member_keys(old(dao)@.members),
            keys_view(new_addresses@),
            new_addresses.len() as nat,
            Error::AddressAlreadyAdded,
            Error::DuplicateAddress,
        ) {
            Some(e) => r == Err::<(), Error>(e),
            None => r is Ok,
        },
        r is Err ==> final(dao)@ == old(dao)@,
        r is Ok ==> final(dao)@ == (FridgeDaoView {
            members: with_new_members(old(dao)@.members, keys_view(new_addresses@)),
            ..old(dao)@
        }),
{
    if !(dao.valid_member_keys.len() + new_addresses.len() <= MAX_MEMBERS) {
        return Err(Error::MaxMembers);
    }
    if !adder.same(&dao.admin) {
        return Err(Error::InvalidAuthority);
    }
    match check_new_keys(
        &dao.valid_member_keys,
        new_addresses,
        Error::AddressAlreadyAdded,
        Error::DuplicateAddress,
    ) {
        Some(e) => {
            return Err(e);
        },
        None => {},
    }
    let ghost d0 = dao@;
    append_empty_members(&mut dao.valid_member_keys, new_addresses);
    assert(dao@ =~= (FridgeDaoView {
        members: with_new_members(d0.members, keys_view(new_addresses@)),
        ..d0
    }));
    Ok(())
}

/// The admin expels one member; the address must be a member.
pub fn remove_valid_address(dao: &mut FridgeDao, remover: &Key, address_to_remove: &Key) -> (r: Result<(), Error>)
    ensures
        remover@ != old(dao)@.admin ==> r == Err::<(), Error>(Error::InvalidAuthority),
        remover@ == old(dao)@.admin && !member_keys(old(dao)@.members).contains(address_to_remove@)
            ==> r == Err::<(), Error>(Error::AddressDoesNotExist),
        r is Ok <==> (remover@ == old(dao)@.admin && member_keys(old(dao)@.members).contains(
            address_to_remove@,
        )),
        r is Err ==> final(dao)@ == old(dao)@,
        r is Ok ==> final(dao)@ == (FridgeDaoView {
            members: without_keys(old(dao)@.members, seq![address_to_remove@]),
            ..old(dao)@
        }),
{
    if !remover.same(&dao.admin) {
        return Err(Error::InvalidAuthority);
    }
    if find_member(&dao.valid_member_keys, address_to_remove).is_none() {
        return Err(Error::AddressDoesNotExist);
    }
    let ghost d0 = dao@;
    let mut gone: Vec<Key> = Vec::new();
    gone.push(*address_to_remove);
    assert(keys_view(gone@) =~= seq![address_to_remove@]);
    remove_members(&mut dao.valid_member_keys, &gone);
    assert(dao@ =~= (FridgeDaoView { members: without_keys(d0.members, seq![address_to_remove@]), ..d0 }));
    Ok(())
}

/// The admin expels several members; every address must be a member.
pub fn remove_valid_addresses(dao: &mut FridgeDao, remover: &Key, addresses_to_remove: &Vec<Key>) -> (r: Result<(), Error>)
    ensures
        remover@ != old(dao)@.admin ==> r == Err::<(), Error>(Error::InvalidAuthority),
        remover@ == old(dao)@.admin && !(forall|i: int|
            0 <= i < addresses_to_remove.len() ==> member_keys(old(dao)@.members).contains(
                #[trigger] keys_view(addresses_to_remove@)[i],
            )) ==> r == Err::<(), Error>(Error::AddressDoesNotExist),
        r is Ok <==> (remover@ == old(dao)@.admin && forall|i: int|
            0 <= i < addresses_to_remove.len() ==> member_keys(old(dao)@.members).contains(
                #[trigger] keys_view(addresses_to_remove@)[i],
            )),
        r is Err ==> final(dao)@ == old(dao)@,
        r is Ok ==> final(dao)@ == (FridgeDaoView {
            members: without_keys(old(dao)@.members, keys_view(addresses_to_remove@)),
            ..old(dao)@
        }),
{
    if !remover.same(&dao.admin) {
        return Err(Error::InvalidAuthority);
    }
    let ghost mk = member_keys(dao@.members);
    let mut i: usize = 0;
    while i < addresses_to_remove.len()
        invariant
            i <= addresses_to_remove.len(),
            mk == member_keys(dao@.members),
            remover@ == dao@.admin,
            forall|j: int| 0 <= j < i ==> mk.contains(#[trigger] keys_view(addresses_to_remove@)[j]),
        decreases addresses_to_remove.len() - i,
    {
        let a = addresses_to_remove[i];
        assert(keys_view(addresses_to_remove@)[i as int] == a@);
        match find_member(&dao.valid_member_keys, &a) {
            None => {
                return Err(Error::AddressDoesNotExist);
            },
            Some(m) => {
                assert(mk[m as int] == a@);
            },
        }
        i = i + 1;
    }
    let ghost d0 = dao@;
    remove_members(&mut dao.valid_member_keys, addresses_to_remove);
    assert(dao@ =~= (FridgeDaoView {
        members: without_keys(d0.members, keys_view(addresses_to_remove@)),
        ..d0
    }));
    Ok(())
}

} // verus!
