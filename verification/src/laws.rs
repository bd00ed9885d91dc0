//! The registry's global guarantees, stated and proved as standalone facts
//! over well-formed states.

use vstd::prelude::*;

use crate::state::ids_contain;
use crate::state::lemma_store_find_some_index;
use crate::state::Pallet;

verus! {

/// Index/store agreement, read from the index: every identifier in an
/// account's list is stored, with that account as owner.
pub proof fn lemma_owned_implies_store(p: Pallet, a: u64, i: int)
    requires
        p.wf(),
        0 <= i < p.owned_of(a).len(),
    ensures
        p.nft_at(p.owned_of(a)[i]@) is Some,
        p.nft_at(p.owned_of(a)[i]@).unwrap().owner == a,
{
    assert(0 <= i < p.owned_of(a).len() && p.owned_of(a)[i] == p.owned_of(a)[i]);
}

/// Index/store agreement, read from the store: every stored token's
/// identifier appears in its owner's list.
pub proof fn lemma_store_implies_owned(p: Pallet, idv: Seq<u8>)
    requires
        p.wf(),
        p.nft_at(idv) is Some,
    ensures
        ids_contain(p.owned_of(p.nft_at(idv).unwrap().owner), idv),
{
    lemma_store_find_some_index(p.nfts@, idv);
    let k = choose|k: int|
        0 <= k < p.nfts@.len() && (#[trigger] p.nfts@[k]).0@ == idv && p.nfts@[k].1 == p.nft_at(
            idv,
        ).unwrap();
    assert(ids_contain(p.owned_of(p.nfts@[k].1.owner), p.nfts@[k].0@));
}

/// No token is double-owned: an identifier in two accounts' lists means the
/// two accounts are one.
pub proof fn lemma_owned_exclusive(p: Pallet, a: u64, b: u64, idv: Seq<u8>)
    requires
        p.wf(),
        ids_contain(p.owned_of(a), idv),
        ids_contain(p.owned_of(b), idv),
    ensures
        a == b,
{
    let i = choose|i: int| 0 <= i < p.owned_of(a).len() && (#[trigger] p.owned_of(a)[i])@ == idv;
    let j = choose|j: int| 0 <= j < p.owned_of(b).len() && (#[trigger] p.owned_of(b)[j])@ == idv;
    assert(p.nft_at(idv).unwrap().owner == a);
    assert(p.nft_at(idv).unwrap().owner == b);
}

/// Uniqueness of minted identifiers. A successful mint's identifier is
/// absent from the store before the mint and present after it, and every
/// operation keeps stored identifiers stored. So in the state between two
/// successful mints the first identifier is present and the second still
/// absent, and the two can never be equal.
pub proof fn lemma_mint_ids_distinct(between: Pallet, id1: Seq<u8>, id2: Seq<u8>)
    requires
        between.nft_at(id1) is Some,
        between.nft_at(id2) is None,
    ensures
        id1 != id2,
{
}

} // verus!
