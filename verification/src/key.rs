use vstd::prelude::*;

verus! {

/// A 32-byte account address, as the runtime hands it to a program.
#[derive(Clone, Copy, Debug, PartialEq, Eq)]
pub struct Key {
    pub bytes: [u8; 32],
}

impl View for Key {
    type V = Seq<u8>;

    open spec fn view(&self) -> Seq<u8> {
        self.bytes@
    }
}

/// The address made of 32 zero bytes (the runtime's default address).
pub open spec fn zero_key() -> Seq<u8> {
    Seq::new(32, |i: int| 0u8)
}

/// The addresses of a list of keys, as byte sequences.
pub open spec fn keys_view(s: Seq<Key>) -> Seq<Seq<u8>> {
    s.map_values(|k: Key| k@)
}

/// `i` is the position of the first occurrence of `k` in `s`.
pub open spec fn is_first_index(s: Seq<Seq<u8>>, k: Seq<u8>, i: int) -> bool {
    &&& 0 <= i < s.len()
    &&& s[i] == k
    &&& forall|j: int| 0 <= j < i ==> s[j] != k
}

/// The position of the first occurrence of `k` in `s`, or -1 when `k` does not occur.
pub open spec fn first_index(s: Seq<Seq<u8>>, k: Seq<u8>) -> int {
    if exists|i: int| is_first_index(s, k, i) {
        choose|i: int| is_first_index(s, k, i)
    } else {
        -1
    }
}

/// The first occurrence is unique, so `first_index` names it.
pub proof fn lemma_first_index(s: Seq<Seq<u8>>, k: Seq<u8>, i: int)
    requires
        is_first_index(s, k, i),
    ensures
        first_index(s, k) == i,
{
    let c = choose|c: int| is_first_index(s, k, c);
    assert(is_first_index(s, k, c));
    if c < i {
        assert(s[c] != k);
    } else if i < c {
        assert(s[i] != k);
    }
}

/// A value that does not occur has no first occurrence.
pub proof fn lemma_first_index_absent(s: Seq<Seq<u8>>, k: Seq<u8>)
    requires
        !s.contains(k),
    ensures
        first_index(s, k) == -1,
{
    if exists|i: int| is_first_index(s, k, i) {
        let c = choose|c: int| is_first_index(s, k, c);
        assert(s[c] == k);
        assert(s.contains(k));
    }
}

/// A value that occurs has a first occurrence.
pub proof fn lemma_first_index_present(s: Seq<Seq<u8>>, k: Seq<u8>)
    requires
        s.contains(k),
    ensures
        is_first_index(s, k, first_index(s, k)),
    decreases s.len(),
{
    if s[0] == k {
        lemma_first_index(s, k, 0);
    } else {
        let t = s.drop_first();
        let w = choose|w: int| 0 <= w < s.len() && s[w] == k;
        assert(t[w - 1] == k);
        lemma_first_index_present(t, k);
        let f = first_index(t, k);
        assert forall|j: int| 0 <= j < f + 1 implies s[j] != k by {
            if j > 0 {
                assert(s[j] == t[j - 1]);
            }
        }
        lemma_first_index(s, k, f + 1);
    }
}

impl Key {
    /// The address made of 32 zero bytes.
    pub fn zero() -> (k: Key)
        ensures
            k@ == zero_key(),
    {
        let k = Key { bytes: [0u8; 32] };
        assert(k@ =~= zero_key());
        k
    }

    /// Compares two addresses byte by byte.
    pub fn same(&self, other: &Key) -> (r: bool)
        ensures
            r == (self@ == other@),
    {
        let mut i: usize = 0;
        while i < 32
            invariant
                i <= 32,
                self@.len() == 32,
                other@.len() == 32,
                forall|j: int| 0 <= j < i ==> self@[j] == other@[j],
            decreases 32 - i,
        {
            if self.bytes[i] != other.bytes[i] {
                return false;
            }
            i = i + 1;
        }
        assert(self@ =~= other@);
        true
    }
}

/// Whether `k` occurs in `v`.
pub fn contains_key(v: &Vec<Key>, k: &Key) -> (r: bool)
    ensures
        r == keys_view(v@).contains(k@),
{
    let mut i: usize = 0;
    while i < v.len()
        invariant
            i <= v.len(),
            forall|j: int| 0 <= j < i ==> keys_view(v@)[j] != k@,
        decreases v.len() - i,
    {
        if v[i].same(k) {
            assert(keys_view(v@)[i as int] == k@);
            return true;
        }
        i = i + 1;
    }
    false
}

/// Position of the first occurrence of `k` in `v`, if any.
pub fn find_key(v: &Vec<Key>, k: &Key) -> (r: Option<usize>)
    ensures
        match r {
            Some(i) => is_first_index(keys_view(v@), k@, i as int),
            None => !keys_view(v@).contains(k@),
        },
        r is Some <==> keys_view(v@).contains(k@),
{
    let mut i: usize = 0;
    while i < v.len()
        invariant
            i <= v.len(),
            forall|j: int| 0 <= j < i ==> keys_view(v@)[j] != k@,
        decreases v.len() - i,
    {
        if v[i].same(k) {
            return Some(i);
        }
        i = i + 1;
    }
    None
}

/// A copy of a list of keys.
pub fn copy_keys(v: &Vec<Key>) -> (r: Vec<Key>)
    ensures
        r@ == v@,
{
    let mut r: Vec<Key> = Vec::new();
    let mut i: usize = 0;
    while i < v.len()
        invariant
            i <= v.len(),
            r@ == v@.take(i as int),
        decreases v.len() - i,
    {
        r.push(v[i]);
        i = i + 1;
        assert(r@ =~= v@.take(i as int));
    }
    assert(v@.take(v.len() as int) =~= v@);
    r
}

/// Removes every occurrence of `k` from `v`, keeping the order of the rest.
pub fn remove_key(v: &mut Vec<Key>, k: &Key)
    ensures
        keys_view(final(v)@) == keys_view(old(v)@).filter(|x: Seq<u8>| x != k@),
{
    let ghost pred = |x: Seq<u8>| x != k@;
    let mut kept: Vec<Key> = Vec::new();
    let mut i: usize = 0;
    while i < v.len()
        invariant
            i <= v.len(),
            keys_view(kept@) == keys_view(v@).take(i as int).filter(pred),
            pred == (|x: Seq<u8>| x != k@),
        decreases v.len() - i,
    {
        let x = v[i];
        let ghost before = keys_view(v@).take(i as int);
        proof {
            assert(keys_view(v@).take(i + 1) =~= before.push(x@));
            before.lemma_filter_push(x@, pred);
        }
        if !x.same(k) {
            kept.push(x);
            assert(keys_view(kept@) =~= before.filter(pred).push(x@));
        }
        i = i + 1;
    }
    assert(keys_view(v@).take(v.len() as int) =~= keys_view(v@));
    *v = kept;
}

/// The first refusal met when adding the first `n` of `new` next to `existing`: an address
/// already present gives `already`, an address repeated in `new` gives `repeated`.
pub open spec fn new_keys_refusal<E>(
    existing: Seq<Seq<u8>>,
    new: Seq<Seq<u8>>,
    n: nat,
    already: E,
    repeated: E,
) -> Option<E>
    decreases n,
{
    if n == 0 {
        None
    } else {
        match new_keys_refusal(existing, new, (n - 1) as nat, already, repeated) {
            Some(e) => Some(e),
            None => {
                if existing.contains(new[n - 1]) {
                    Some(already)
                } else if new.take(n - 1).contains(new[n - 1]) {
                    Some(repeated)
                } else {
                    None
                }
            },
        }
    }
}

pub proof fn lemma_refusal_stays<E>(
    existing: Seq<Seq<u8>>,
    new: Seq<Seq<u8>>,
    n: nat,
    m: nat,
    already: E,
    repeated: E,
)
    requires
        new_keys_refusal(existing, new, n, already, repeated) is Some,
        n <= m,
    ensures
        new_keys_refusal(existing, new, m, already, repeated) == new_keys_refusal(
            existing,
            new,
            n,
            already,
            repeated,
        ),
    decreases m - n,
{
    if n < m {
        lemma_refusal_stays(existing, new, n, (m - 1) as nat, already, repeated);
    }
}

/// Each new address passed the checks: none was a member and none repeats an earlier one.
pub proof fn lemma_no_refusal<E>(existing: Seq<Seq<u8>>, new: Seq<Seq<u8>>, n: nat, already: E, repeated: E)
    requires
        new_keys_refusal(existing, new, n, already, repeated) is None,
        n <= new.len(),
    ensures
        forall|i: int| 0 <= i < n ==> !existing.contains(#[trigger] new[i]),
        forall|i: int, j: int| 0 <= j < i < n ==> new[j] != new[i],
    decreases n,
{
    if n > 0 {
        lemma_no_refusal(existing, new, (n - 1) as nat, already, repeated);
        assert forall|j: int| 0 <= j < n - 1 implies #[trigger] new[j] != new[n - 1] by {
            assert(new.take(n - 1)[j] == new[j]);
        }
    }
}

} // verus!
