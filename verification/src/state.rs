//! The registry state: token store, ownership index, mint counter and event
//! log, together with the well-formedness invariant that every operation
//! preserves.

use vstd::prelude::*;
use vstd::slice::slice_to_vec;
use vstd::std_specs::vec::vec_index_mut;

verus! {

/// A token identifier: the content hash of the canonically encoded token
/// record.
pub type TokenId = [u8; 32];

/// A token record: an immutable 16-byte identity payload, an optional asking
/// price (`None` means "not for sale"), and the owning account.
#[derive(Clone, Copy, PartialEq, Eq, Debug)]
pub struct Nft {
    pub dna: [u8; 16],
    pub price: Option<u64>,
    pub owner: u64,
}

/// The ways an operation can be rejected. Every operation either succeeds
/// with every mutation applied, or returns exactly one of these with no
/// mutation at all.
#[derive(Clone, Copy, PartialEq, Eq, Debug)]
pub enum Error {
    /// The global mint counter is at its maximum.
    NftCountOverflow,
    /// An account cannot own more tokens than the configured maximum.
    ExceedMaxNftOwned,
    /// A buyer cannot be the current owner.
    BuyerIsNftOwner,
    /// A token cannot be transferred to its current owner.
    TransferToSelf,
    /// A token with this identifier already exists.
    NftExists,
    /// No token with this identifier exists.
    NftNotExist,
    /// The caller does not own the token.
    NotNftOwner,
    /// The token is not for sale.
    NftNotForSale,
    /// The bid is below the asking price.
    NftBidPriceTooLow,
    /// The buyer's balance does not cover the bid.
    NotEnoughBalance,
}

/// A notification emitted on each successful operation, appended to the
/// registry's event log.
#[derive(Clone, Copy, PartialEq, Eq, Debug)]
pub enum Event {
    /// `Created(owner, id)`: a token was minted.
    Created(u64, TokenId),
    /// `PriceSet(owner, id, new_price)`: the asking price was overwritten.
    PriceSet(u64, TokenId, Option<u64>),
    /// `Transferred(from, to, id)`: ownership moved by transfer.
    Transferred(u64, u64, TokenId),
    /// `Bought(buyer, seller, id, bid_price)`: ownership moved by purchase.
    Bought(u64, u64, TokenId, u64),
}

/// The registry engine's whole state. The token store and the ownership
/// index are association lists keyed by token identifier and account; the
/// well-formedness predicate [`Pallet::wf`] ties the two together.
pub struct Pallet {
    /// The configured maximum number of tokens one account may own.
    pub max_nft_owned: u32,
    /// How many tokens have ever been minted.
    pub nft_count: u64,
    /// The token store: one entry per live token, keyed by identifier.
    pub nfts: Vec<(TokenId, Nft)>,
    /// The ownership index: for each account with at least one token, the
    /// list of identifiers it owns, in insertion order except where a
    /// removal swapped the last entry into the freed slot.
    pub nfts_owned: Vec<(u64, Vec<TokenId>)>,
    /// The notifications emitted so far, oldest first.
    pub events: Vec<Event>,
}

/// The token record looked up in a store association list, by identifier
/// bytes.
pub open spec fn store_find(s: Seq<(TokenId, Nft)>, id: Seq<u8>) -> Option<Nft>
    decreases s.len(),
{
    if s.len() == 0 {
        None
    } else if s[0].0@ == id {
        Some(s[0].1)
    } else {
        store_find(s.drop_first(), id)
    }
}

/// The owned-token list looked up in an ownership index association list.
pub open spec fn index_find(s: Seq<(u64, Vec<TokenId>)>, a: u64) -> Option<Seq<TokenId>>
    decreases s.len(),
{
    if s.len() == 0 {
        None
    } else if s[0].0 == a {
        Some(s[0].1@)
    } else {
        index_find(s.drop_first(), a)
    }
}

/// No two store entries carry the same identifier.
pub open spec fn store_ids_unique(s: Seq<(TokenId, Nft)>) -> bool {
    forall|i: int, j: int|
        0 <= i < j < s.len() ==> (#[trigger] s[i]).0@ != (#[trigger] s[j]).0@
}

/// No two ownership index entries carry the same account.
pub open spec fn index_accounts_unique(s: Seq<(u64, Vec<TokenId>)>) -> bool {
    forall|i: int, j: int|
        0 <= i < j < s.len() ==> (#[trigger] s[i]).0 != (#[trigger] s[j]).0
}

/// Whether an identifier occurs in a list of token identifiers.
pub open spec fn ids_contain(l: Seq<TokenId>, id: Seq<u8>) -> bool {
    exists|i: int| 0 <= i < l.len() && (#[trigger] l[i])@ == id
}

/// The position of an identifier in a list of token identifiers.
pub open spec fn id_index_in(l: Seq<TokenId>, id: Seq<u8>) -> int {
    choose|i: int| 0 <= i < l.len() && (#[trigger] l[i])@ == id
}

/// No identifier occurs twice in a list of token identifiers.
pub open spec fn ids_unique(l: Seq<TokenId>) -> bool {
    forall|i: int, j: int|
        0 <= i < j < l.len() ==> (#[trigger] l[i])@ != (#[trigger] l[j])@
}

/// The list after removing the identifier at its position by overwriting
/// that slot with the last entry and dropping the last slot.
pub open spec fn swap_removed(l: Seq<TokenId>, id: Seq<u8>) -> Seq<TokenId> {
    l.update(id_index_in(l, id), l.last()).drop_last()
}

/// The identifiers an account owns in an ownership index; empty for an
/// account the index does not know.
pub open spec fn owned_lookup(s: Seq<(u64, Vec<TokenId>)>, a: u64) -> Seq<TokenId> {
    match index_find(s, a) {
        Some(l) => l,
        None => Seq::empty(),
    }
}

impl Pallet {
    /// The token record stored under an identifier, if any.
    pub open spec fn nft_at(self, id: Seq<u8>) -> Option<Nft> {
        store_find(self.nfts@, id)
    }

    /// The identifiers an account owns; empty for an account the index does
    /// not know.
    pub open spec fn owned_of(self, a: u64) -> Seq<TokenId> {
        owned_lookup(self.nfts_owned@, a)
    }

    /// No account's list exceeds the configured maximum.
    pub open spec fn capacity_ok(self) -> bool {
        forall|a: u64| (#[trigger] self.owned_of(a)).len() <= self.max_nft_owned
    }

    /// No account's list names the same token twice.
    pub open spec fn lists_unique(self) -> bool {
        forall|a: u64| ids_unique(#[trigger] self.owned_of(a))
    }

    /// Every identifier in an account's list is stored, with that account as
    /// owner.
    pub open spec fn owned_matches_store(self) -> bool {
        forall|a: u64, i: int|
            0 <= i < self.owned_of(a).len() ==> {
                let f = self.nft_at((#[trigger] self.owned_of(a)[i])@);
                f is Some && f.unwrap().owner == a
            }
    }

    /// Every stored token's identifier appears in its owner's list.
    pub open spec fn store_matches_owned(self) -> bool {
        forall|k: int|
            0 <= k < self.nfts@.len() ==> ids_contain(
                self.owned_of((#[trigger] self.nfts@[k]).1.owner),
                self.nfts@[k].0@,
            )
    }

    /// Well-formedness: unique keys in both association lists, capacity
    /// bounds respected, and the ownership index an exact reverse index of
    /// the token store.
    pub open spec fn wf(self) -> bool {
        &&& store_ids_unique(self.nfts@)
        &&& index_accounts_unique(self.nfts_owned@)
        &&& self.capacity_ok()
        &&& self.lists_unique()
        &&& self.owned_matches_store()
        &&& self.store_matches_owned()
    }
}

// ---------------------------------------------------------------------------
// Lemmas characterizing the association-list lookups.
// ---------------------------------------------------------------------------

pub proof fn lemma_store_find_at(s: Seq<(TokenId, Nft)>, i: int)
    requires
        store_ids_unique(s),
        0 <= i < s.len(),
    ensures
        store_find(s, s[i].0@) == Some(s[i].1),
    decreases s.len(),
{
    if i > 0 {
        let t = s.drop_first();
        assert forall|p: int, q: int| 0 <= p < q < t.len() implies (#[trigger] t[p]).0@
            != (#[trigger] t[q]).0@ by {
            assert(t[p] == s[p + 1]);
            assert(t[q] == s[q + 1]);
        }
        assert(t[i - 1] == s[i]);
        lemma_store_find_at(t, i - 1);
    }
}

pub proof fn lemma_store_find_none(s: Seq<(TokenId, Nft)>, id: Seq<u8>)
    requires
        forall|i: int| 0 <= i < s.len() ==> (#[trigger] s[i]).0@ != id,
    ensures
        store_find(s, id) is None,
    decreases s.len(),
{
    if s.len() > 0 {
        let t = s.drop_first();
        assert forall|i: int| 0 <= i < t.len() implies (#[trigger] t[i]).0@ != id by {
            assert(t[i] == s[i + 1]);
        }
        lemma_store_find_none(t, id);
    }
}

pub proof fn lemma_store_find_some_index(s: Seq<(TokenId, Nft)>, id: Seq<u8>)
    requires
        store_find(s, id) is Some,
    ensures
        exists|i: int|
            0 <= i < s.len() && (#[trigger] s[i]).0@ == id && s[i].1 == store_find(s, id).unwrap(),
    decreases s.len(),
{
    if s.len() > 0 && s[0].0@ != id {
        lemma_store_find_some_index(s.drop_first(), id);
        let i = choose|i: int|
            0 <= i < s.drop_first().len() && (#[trigger] s.drop_first()[i]).0@ == id
                && s.drop_first()[i].1 == store_find(s.drop_first(), id).unwrap();
        assert(s[i + 1] == s.drop_first()[i]);
    }
}

pub proof fn lemma_index_find_at(s: Seq<(u64, Vec<TokenId>)>, i: int)
    requires
        index_accounts_unique(s),
        0 <= i < s.len(),
    ensures
        index_find(s, s[i].0) == Some(s[i].1@),
    decreases s.len(),
{
    if i > 0 {
        let t = s.drop_first();
        assert forall|p: int, q: int| 0 <= p < q < t.len() implies (#[trigger] t[p]).0
            != (#[trigger] t[q]).0 by {
            assert(t[p] == s[p + 1]);
            assert(t[q] == s[q + 1]);
        }
        assert(t[i - 1] == s[i]);
        lemma_index_find_at(t, i - 1);
    }
}

pub proof fn lemma_index_find_none(s: Seq<(u64, Vec<TokenId>)>, a: u64)
    requires
        forall|i: int| 0 <= i < s.len() ==> (#[trigger] s[i]).0 != a,
    ensures
        index_find(s, a) is None,
    decreases s.len(),
{
    if s.len() > 0 {
        let t = s.drop_first();
        assert forall|i: int| 0 <= i < t.len() implies (#[trigger] t[i]).0 != a by {
            assert(t[i] == s[i + 1]);
        }
        lemma_index_find_none(t, a);
    }
}

/// After overwriting entry `i` of the store in place (same identifier), a
/// lookup finds the new record under that identifier and is elsewhere
/// unchanged.
pub proof fn lemma_store_find_update(s: Seq<(TokenId, Nft)>, i: int, v: (TokenId, Nft), id: Seq<u8>)
    requires
        store_ids_unique(s),
        0 <= i < s.len(),
        v.0@ == s[i].0@,
    ensures
        store_find(s.update(i, v), id) == if id == s[i].0@ {
            Some(v.1)
        } else {
            store_find(s, id)
        },
    decreases s.len(),
{
    let u = s.update(i, v);
    if i == 0 {
        assert(u.drop_first() =~= s.drop_first());
        if id != s[0].0@ {
        } else {
            lemma_store_find_none_tail(s, id);
        }
    } else {
        assert(u[0] == s[0]);
        assert(u.drop_first() =~= s.drop_first().update(i - 1, v));
        let t = s.drop_first();
        assert forall|p: int, q: int| 0 <= p < q < t.len() implies (#[trigger] t[p]).0@
            != (#[trigger] t[q]).0@ by {
            assert(t[p] == s[p + 1]);
            assert(t[q] == s[q + 1]);
        }
        assert(t[i - 1] == s[i]);
        lemma_store_find_update(t, i - 1, v, id);
        if id == s[i].0@ {
            assert(s[0].0@ != s[i].0@);
        }
    }
}

/// Inside a store with unique identifiers, a hit at the head means the tail
/// misses.
proof fn lemma_store_find_none_tail(s: Seq<(TokenId, Nft)>, id: Seq<u8>)
    requires
        store_ids_unique(s),
        s.len() > 0,
        s[0].0@ == id,
    ensures
        store_find(s.drop_first(), id) is None,
{
    let t = s.drop_first();
    assert forall|i: int| 0 <= i < t.len() implies (#[trigger] t[i]).0@ != id by {
        assert(t[i] == s[i + 1]);
    }
    lemma_store_find_none(t, id);
}

/// Appending a fresh store entry leaves every other lookup unchanged and
/// makes the new identifier found.
pub proof fn lemma_store_find_push(s: Seq<(TokenId, Nft)>, v: (TokenId, Nft), id: Seq<u8>)
    ensures
        store_find(s.push(v), id) == if store_find(s, id) is Some {
            store_find(s, id)
        } else if v.0@ == id {
            Some(v.1)
        } else {
            None::<Nft>
        },
    decreases s.len(),
{
    let u = s.push(v);
    if s.len() == 0 {
        assert(u[0] == v);
        assert(u.drop_first() =~= Seq::<(TokenId, Nft)>::empty());
    } else {
        assert(u[0] == s[0]);
        assert(u.drop_first() =~= s.drop_first().push(v));
        lemma_store_find_push(s.drop_first(), v, id);
    }
}

/// After overwriting entry `i` of the ownership index in place (same
/// account), a lookup finds the new list there and is elsewhere unchanged.
pub proof fn lemma_index_find_update(
    s: Seq<(u64, Vec<TokenId>)>,
    i: int,
    v: (u64, Vec<TokenId>),
    a: u64,
)
    requires
        index_accounts_unique(s),
        0 <= i < s.len(),
        v.0 == s[i].0,
    ensures
        index_find(s.update(i, v), a) == if a == s[i].0 {
            Some(v.1@)
        } else {
            index_find(s, a)
        },
    decreases s.len(),
{
    let u = s.update(i, v);
    if i == 0 {
        assert(u.drop_first() =~= s.drop_first());
        if a == s[0].0 {
        }
    } else {
        assert(u[0] == s[0]);
        assert(u.drop_first() =~= s.drop_first().update(i - 1, v));
        let t = s.drop_first();
        assert forall|p: int, q: int| 0 <= p < q < t.len() implies (#[trigger] t[p]).0
            != (#[trigger] t[q]).0 by {
            assert(t[p] == s[p + 1]);
            assert(t[q] == s[q + 1]);
        }
        assert(t[i - 1] == s[i]);
        lemma_index_find_update(t, i - 1, v, a);
        if a == s[i].0 {
            assert(s[0].0 != s[i].0);
        }
    }
}

/// Appending an entry for a new account leaves every other lookup unchanged
/// and makes the new account found.
pub proof fn lemma_index_find_push(s: Seq<(u64, Vec<TokenId>)>, v: (u64, Vec<TokenId>), a: u64)
    ensures
        index_find(s.push(v), a) == if index_find(s, a) is Some {
            index_find(s, a)
        } else if v.0 == a {
            Some(v.1@)
        } else {
            None::<Seq<TokenId>>
        },
    decreases s.len(),
{
    let u = s.push(v);
    if s.len() == 0 {
        assert(u[0] == v);
        assert(u.drop_first() =~= Seq::<(u64, Vec<TokenId>)>::empty());
    } else {
        assert(u[0] == s[0]);
        assert(u.drop_first() =~= s.drop_first().push(v));
        lemma_index_find_push(s.drop_first(), v, a);
    }
}

// ---------------------------------------------------------------------------
// Executable lookups.
// ---------------------------------------------------------------------------

/// Byte-wise equality of two token identifiers.
pub fn token_id_eq(a: &TokenId, b: &TokenId) -> (r: bool)
    ensures
        r == (a@ == b@),
{
    let mut i: usize = 0;
    while i < 32
        invariant
            i <= 32,
            forall|k: int| 0 <= k < i ==> a@[k] == b@[k],
        decreases 32 - i,
    {
        if a[i] != b[i] {
            return false;
        }
        i += 1;
    }
    proof {
        assert(a@ =~= b@);
    }
    true
}

/// The position of an identifier in the token store, if stored.
pub(crate) fn store_index_of(nfts: &Vec<(TokenId, Nft)>, id: &TokenId) -> (r: Option<usize>)
    requires
        store_ids_unique(nfts@),
    ensures
        match r {
            Some(i) => i < nfts@.len() && nfts@[i as int].0@ == id@ && store_find(nfts@, id@)
                == Some(nfts@[i as int].1),
            None => store_find(nfts@, id@) is None,
        },
{
    let mut i: usize = 0;
    while i < nfts.len()
        invariant
            store_ids_unique(nfts@),
            i <= nfts@.len(),
            forall|k: int| 0 <= k < i ==> (#[trigger] nfts@[k]).0@ != id@,
        decreases nfts@.len() - i,
    {
        if token_id_eq(&nfts[i].0, id) {
            proof {
                lemma_store_find_at(nfts@, i as int);
            }
            return Some(i);
        }
        i += 1;
    }
    proof {
        lemma_store_find_none(nfts@, id@);
    }
    None
}

/// The position of an account in the ownership index, if present.
pub(crate) fn owned_index_of(s: &Vec<(u64, Vec<TokenId>)>, a: u64) -> (r: Option<usize>)
    requires
        index_accounts_unique(s@),
    ensures
        match r {
            Some(i) => i < s@.len() && s@[i as int].0 == a && index_find(s@, a)
                == Some(s@[i as int].1@),
            None => index_find(s@, a) is None,
        },
{
    let mut i: usize = 0;
    while i < s.len()
        invariant
            index_accounts_unique(s@),
            i <= s@.len(),
            forall|k: int| 0 <= k < i ==> (#[trigger] s@[k]).0 != a,
        decreases s@.len() - i,
    {
        if s[i].0 == a {
            proof {
                lemma_index_find_at(s@, i as int);
            }
            return Some(i);
        }
        i += 1;
    }
    proof {
        lemma_index_find_none(s@, a);
    }
    None
}

/// The position of an identifier within one account's list, if present.
pub(crate) fn position_of_id(l: &Vec<TokenId>, id: &TokenId) -> (r: Option<usize>)
    ensures
        match r {
            Some(i) => i < l@.len() && l@[i as int]@ == id@,
            None => !ids_contain(l@, id@),
        },
{
    let mut i: usize = 0;
    while i < l.len()
        invariant
            i <= l@.len(),
            forall|k: int| 0 <= k < i ==> (#[trigger] l@[k])@ != id@,
        decreases l@.len() - i,
    {
        if token_id_eq(&l[i], id) {
            return Some(i);
        }
        i += 1;
    }
    None
}

// ---------------------------------------------------------------------------
// Storage mutations: insert or overwrite a store entry, append to or remove
// from one account's list. Each states exactly how every lookup changes.
// ---------------------------------------------------------------------------

/// Inserts a record under a fresh identifier. Lookups of every other
/// identifier are unchanged.
pub(crate) fn store_insert(nfts: &mut Vec<(TokenId, Nft)>, id: TokenId, nft: Nft)
    requires
        store_ids_unique(old(nfts)@),
        store_find(old(nfts)@, id@) is None,
    ensures
        final(nfts)@ == old(nfts)@.push((id, nft)),
        store_ids_unique(final(nfts)@),
        store_find(final(nfts)@, id@) == Some(nft),
        forall|x: Seq<u8>| x != id@ ==> store_find(final(nfts)@, x) == store_find(old(nfts)@, x),
{
    proof {
        assert forall|i: int| 0 <= i < old(nfts)@.len() implies (#[trigger] old(
            nfts,
        )@[i]).0@ != id@ by {
            if old(nfts)@[i].0@ == id@ {
                lemma_store_find_at(old(nfts)@, i);
            }
        }
    }
    nfts.push((id, nft));
    proof {
        let s = old(nfts)@;
        let u = nfts@;
        assert forall|p: int, q: int| 0 <= p < q < u.len() implies (#[trigger] u[p]).0@
            != (#[trigger] u[q]).0@ by {
            if q < s.len() {
            } else {
                assert(u[q] == (id, nft));
            }
        }
        assert forall|x: Seq<u8>| x != id@ implies store_find(u, x) == store_find(s, x) by {
            lemma_store_find_push(s, (id, nft), x);
        }
        lemma_store_find_push(s, (id, nft), id@);
    }
}

/// Overwrites the record stored at position `i`, keeping its identifier.
/// Lookups of every other identifier are unchanged.
pub(crate) fn store_update(nfts: &mut Vec<(TokenId, Nft)>, i: usize, nft: Nft)
    requires
        store_ids_unique(old(nfts)@),
        i < old(nfts)@.len(),
    ensures
        final(nfts)@ == old(nfts)@.update(i as int, (old(nfts)@[i as int].0, nft)),
        store_ids_unique(final(nfts)@),
        store_find(final(nfts)@, old(nfts)@[i as int].0@) == Some(nft),
        forall|x: Seq<u8>|
            x != old(nfts)@[i as int].0@ ==> store_find(final(nfts)@, x) == store_find(
                old(nfts)@,
                x,
            ),
{
    let key = nfts[i].0;
    *vec_index_mut(nfts, i) = (key, nft);
    proof {
        let s = old(nfts)@;
        let u = nfts@;
        assert(u == s.update(i as int, (key, nft)));
        assert forall|p: int, q: int| 0 <= p < q < u.len() implies (#[trigger] u[p]).0@
            != (#[trigger] u[q]).0@ by {
            assert(u[p].0@ == s[p].0@);
            assert(u[q].0@ == s[q].0@);
        }
        assert forall|x: Seq<u8>| x != s[i as int].0@ implies store_find(u, x) == store_find(
            s,
            x,
        ) by {
            lemma_store_find_update(s, i as int, (key, nft), x);
        }
        lemma_store_find_update(s, i as int, (key, nft), s[i as int].0@);
    }
}

/// Appends `id` to `account`'s list if and only if the list is below `max`
/// entries. Every other account's list is unchanged; nothing changes on
/// refusal.
pub(crate) fn try_append_owned(
    s: &mut Vec<(u64, Vec<TokenId>)>,
    account: u64,
    id: TokenId,
    max: u32,
) -> (r: bool)
    requires
        index_accounts_unique(old(s)@),
    ensures
        index_accounts_unique(final(s)@),
        r == (owned_lookup(old(s)@, account).len() < max),
        !r ==> *final(s) == *old(s),
        r ==> owned_lookup(final(s)@, account) == owned_lookup(old(s)@, account).push(id),
        r ==> forall|b: u64|
            b != account ==> owned_lookup(final(s)@, b) == owned_lookup(old(s)@, b),
{
    match owned_index_of(s, account) {
        Some(j) => {
            if s[j].1.len() >= max as usize {
                false
            } else {
                let mut new_list = slice_to_vec(s[j].1.as_slice());
                new_list.push(id);
                let acct = s[j].0;
                *vec_index_mut(s, j) = (acct, new_list);
                proof {
                    let o = old(s)@;
                    let u = s@;
                    assert(u == o.update(j as int, (acct, new_list)));
                    assert forall|p: int, q: int| 0 <= p < q < u.len() implies (#[trigger] u[p]).0
                        != (#[trigger] u[q]).0 by {
                        assert(u[p].0 == o[p].0);
                        assert(u[q].0 == o[q].0);
                    }
                    lemma_index_find_update(o, j as int, (acct, new_list), account);
                    assert forall|b: u64| b != account implies owned_lookup(u, b) == owned_lookup(
                        o,
                        b,
                    ) by {
                        lemma_index_find_update(o, j as int, (acct, new_list), b);
                    }
                }
                true
            }
        },
        None => {
            if max == 0 {
                false
            } else {
                proof {
                    assert forall|i: int| 0 <= i < old(s)@.len() implies (#[trigger] old(
                        s,
                    )@[i]).0 != account by {
                        if old(s)@[i].0 == account {
                            lemma_index_find_at(old(s)@, i);
                        }
                    }
                }
                let mut l: Vec<TokenId> = Vec::new();
                l.push(id);
                let ghost gl = l;
                s.push((account, l));
                proof {
                    let o = old(s)@;
                    let u = s@;
                    assert forall|p: int, q: int| 0 <= p < q < u.len() implies (#[trigger] u[p]).0
                        != (#[trigger] u[q]).0 by {
                        if q < o.len() {
                        } else {
                            assert(u[q].0 == account);
                        }
                    }
                    lemma_index_find_push(o, (account, gl), account);
                    assert(owned_lookup(u, account) =~= owned_lookup(o, account).push(id));
                    assert forall|b: u64| b != account implies owned_lookup(u, b) == owned_lookup(
                        o,
                        b,
                    ) by {
                        lemma_index_find_push(o, (account, gl), b);
                    }
                }
                true
            }
        },
    }
}

/// Removes `id` from `account`'s list by overwriting its slot with the last
/// entry and shrinking the list (order is not preserved). Returns whether
/// the identifier was present; nothing changes when it was not.
pub(crate) fn try_remove_owned(s: &mut Vec<(u64, Vec<TokenId>)>, account: u64, id: &TokenId) -> (r:
    bool)
    requires
        index_accounts_unique(old(s)@),
        ids_unique(owned_lookup(old(s)@, account)),
    ensures
        index_accounts_unique(final(s)@),
        r == ids_contain(owned_lookup(old(s)@, account), id@),
        !r ==> *final(s) == *old(s),
        r ==> ({
            let l = owned_lookup(old(s)@, account);
            let i = id_index_in(l, id@);
            &&& 0 <= i < l.len()
            &&& l[i]@ == id@
            &&& owned_lookup(final(s)@, account) == l.update(i, l.last()).drop_last()
        }),
        r ==> forall|b: u64|
            b != account ==> owned_lookup(final(s)@, b) == owned_lookup(old(s)@, b),
{
    match owned_index_of(s, account) {
        None => {
            proof {
                assert(owned_lookup(old(s)@, account) =~= Seq::<TokenId>::empty());
            }
            false
        },
        Some(j) => {
            match position_of_id(&s[j].1, id) {
                None => false,
                Some(pos) => {
                    proof {
                        let l = owned_lookup(old(s)@, account);
                        assert(ids_contain(l, id@));
                        let ci = id_index_in(l, id@);
                        if ci != pos {
                            assert(l[ci]@ == id@ && l[pos as int]@ == id@);
                            assert(false);
                        }
                    }
                    let mut new_list = slice_to_vec(s[j].1.as_slice());
                    new_list.swap_remove(pos);
                    let acct = s[j].0;
                    *vec_index_mut(s, j) = (acct, new_list);
                    proof {
                        let o = old(s)@;
                        let u = s@;
                        assert(u == o.update(j as int, (acct, new_list)));
                        assert forall|p: int, q: int| 0 <= p < q < u.len() implies (#[trigger] u[p]).0
                            != (#[trigger] u[q]).0 by {
                            assert(u[p].0 == o[p].0);
                            assert(u[q].0 == o[q].0);
                        }
                        lemma_index_find_update(o, j as int, (acct, new_list), account);
                        assert forall|b: u64| b != account implies owned_lookup(u, b)
                            == owned_lookup(o, b) by {
                            lemma_index_find_update(o, j as int, (acct, new_list), b);
                        }
                    }
                    true
                },
            }
        },
    }
}

impl Pallet {
    /// A fresh, empty registry with the given per-account capacity.
    pub fn new(max_nft_owned: u32) -> (r: Pallet)
        ensures
            r.wf(),
            r.max_nft_owned == max_nft_owned,
            r.nft_count == 0,
            forall|id: Seq<u8>| r.nft_at(id) is None,
            forall|a: u64| (#[trigger] r.owned_of(a)).len() == 0,
            r.events@.len() == 0,
    {
        let r = Pallet {
            max_nft_owned,
            nft_count: 0,
            nfts: Vec::new(),
            nfts_owned: Vec::new(),
            events: Vec::new(),
        };
        proof {
            assert forall|a: u64| (#[trigger] r.owned_of(a)).len() == 0 by {
                assert(index_find(r.nfts_owned@, a) is None);
            }
        }
        r
    }

    /// How many tokens have ever been minted.
    pub fn nft_count(&self) -> (r: u64)
        ensures
            r == self.nft_count,
    {
        self.nft_count
    }

    /// The stored record of a token, if any.
    pub fn nfts(&self, nft_id: &TokenId) -> (r: Option<Nft>)
        requires
            self.wf(),
        ensures
            r == self.nft_at(nft_id@),
    {
        match store_index_of(&self.nfts, nft_id) {
            Some(i) => Some(self.nfts[i].1),
            None => None,
        }
    }

    /// The identifiers an account owns, empty for an unknown account.
    pub fn nfts_owned(&self, account: u64) -> (r: Vec<TokenId>)
        requires
            self.wf(),
        ensures
            r@ == self.owned_of(account),
    {
        match owned_index_of(&self.nfts_owned, account) {
            Some(i) => vstd::slice::slice_to_vec(self.nfts_owned[i].1.as_slice()),
            None => Vec::new(),
        }
    }
}

} // verus!
