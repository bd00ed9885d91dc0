//! Bootstrap: an initial-state loader that mints one token per configured
//! (account, dna) pair, in order, through the explicit-dna mint path.

use vstd::prelude::*;

use crate::ops::mint_id;
use crate::state::Error;
use crate::state::Event;
use crate::state::Nft;
use crate::state::Pallet;

verus! {

/// The initial tokens: one mint per (owner, dna) pair, in order.
pub struct GenesisConfig {
    pub nfts: Vec<(u64, [u8; 16])>,
}

/// How many of the configured pairs belong to one account.
pub open spec fn owner_count(s: Seq<(u64, [u8; 16])>, a: u64) -> int
    decreases s.len(),
{
    if s.len() == 0 {
        0
    } else {
        owner_count(s.drop_last(), a) + if s.last().0 == a {
            1int
        } else {
            0int
        }
    }
}

/// Whether an event is the `Created` notification of the mint of one
/// configured pair.
pub open spec fn created_event_for(ev: Event, pair: (u64, [u8; 16])) -> bool {
    ev matches Event::Created(a, id) && a == pair.0 && id@ == mint_id(pair.1@, pair.0)
}

/// Whether the configured pairs all map to distinct token identifiers.
pub open spec fn genesis_ids_distinct(s: Seq<(u64, [u8; 16])>) -> bool {
    forall|i: int, j: int|
        0 <= i < j < s.len() ==> mint_id((#[trigger] s[i]).1@, s[i].0) != mint_id(
            (#[trigger] s[j]).1@,
            s[j].0,
        )
}

proof fn lemma_owner_count_mono(s: Seq<(u64, [u8; 16])>, i: int, a: u64)
    requires
        0 <= i <= s.len(),
    ensures
        owner_count(s.take(i), a) <= owner_count(s, a),
    decreases s.len() - i,
{
    if i == s.len() {
        assert(s.take(i) =~= s);
    } else {
        assert(s.take(i + 1).drop_last() =~= s.take(i));
        assert(s.take(i + 1).last() == s[i]);
        lemma_owner_count_mono(s, i + 1, a);
    }
}

impl Default for GenesisConfig {
    /// An empty bootstrap configuration.
    fn default() -> (r: GenesisConfig)
        ensures
            r.nfts@.len() == 0,
    {
        GenesisConfig { nfts: Vec::new() }
    }
}

impl GenesisConfig {
    /// Builds a fresh registry and mints the configured tokens in order,
    /// each mint recording its `Created` notification. Succeeds exactly
    /// when the configured pairs map to distinct identifiers and no
    /// account is configured past the capacity; any mint failure is fatal
    /// and the partial registry is discarded.
    pub fn build(&self, max_nft_owned: u32) -> (r: Result<Pallet, Error>)
        ensures
            match r {
                Ok(p) => {
                    &&& p.wf()
                    &&& p.max_nft_owned == max_nft_owned
                    &&& p.nft_count == self.nfts@.len()
                    &&& p.events@.len() == self.nfts@.len()
                    &&& forall|k: int|
                        0 <= k < self.nfts@.len() ==> created_event_for(
                            #[trigger] p.events@[k],
                            self.nfts@[k],
                        )
                    &&& forall|k: int|
                        0 <= k < self.nfts@.len() ==> p.nft_at(
                            mint_id((#[trigger] self.nfts@[k]).1@, self.nfts@[k].0),
                        ) == Some(
                            Nft { dna: self.nfts@[k].1, price: None, owner: self.nfts@[k].0 },
                        )
                    &&& forall|a: u64|
                        (#[trigger] p.owned_of(a)).len() == owner_count(self.nfts@, a)
                },
                Err(e) => e == Error::NftExists || e == Error::ExceedMaxNftOwned,
            },
            r is Ok <==> (genesis_ids_distinct(self.nfts@) && (forall|a: u64|
                owner_count(self.nfts@, a) <= max_nft_owned)),
    {
        let ghost s = self.nfts@;
        let mut p = Pallet::new(max_nft_owned);
        let mut idx: usize = 0;
        proof {
            assert(s.take(0) =~= Seq::<(u64, [u8; 16])>::empty());
        }
        while idx < self.nfts.len()
            invariant
                idx <= s.len(),
                self.nfts@ == s,
                p.wf(),
                p.max_nft_owned == max_nft_owned,
                p.events@.len() == idx,
                forall|k: int|
                    0 <= k < idx ==> created_event_for(#[trigger] p.events@[k], s[k]),
                p.nft_count == idx,
                forall|k: int|
                    0 <= k < idx ==> p.nft_at(mint_id((#[trigger] s[k]).1@, s[k].0)) == Some(
                        Nft { dna: s[k].1, price: None, owner: s[k].0 },
                    ),
                forall|x: Seq<u8>|
                    #[trigger] p.nft_at(x) is Some ==> exists|k: int|
                        0 <= k < idx && mint_id((#[trigger] s[k]).1@, s[k].0) == x,
                forall|a: u64| (#[trigger] p.owned_of(a)).len() == owner_count(s.take(idx as int), a),
                forall|i2: int, j2: int|
                    0 <= i2 < j2 < idx ==> mint_id((#[trigger] s[i2]).1@, s[i2].0) != mint_id(
                        (#[trigger] s[j2]).1@,
                        s[j2].0,
                    ),
            decreases s.len() - idx,
        {
            let (owner, dna) = self.nfts[idx];
            let ghost prev = p;
            let r = p.mint(owner, dna);
            proof {
                assert(s.take(idx + 1).drop_last() =~= s.take(idx as int));
                assert(s.take(idx + 1).last() == s[idx as int]);
            }
            match r {
                Ok(id) => {
                    proof {
                        let gi = mint_id(s[idx as int].1@, s[idx as int].0);
                        assert(id@ == gi);
                        assert forall|k: int|
                            0 <= k < idx + 1 implies p.nft_at(
                            mint_id((#[trigger] s[k]).1@, s[k].0),
                        ) == Some(Nft { dna: s[k].1, price: None, owner: s[k].0 }) by {
                            if k < idx {
                                let gk = mint_id(s[k].1@, s[k].0);
                                assert(prev.nft_at(gk) == Some(
                                    Nft { dna: s[k].1, price: None, owner: s[k].0 },
                                ));
                                assert(gk != gi);
                            }
                        }
                        assert forall|x: Seq<u8>| #[trigger] p.nft_at(x) is Some implies exists|
                            k: int,
                        |
                            0 <= k < idx + 1 && mint_id((#[trigger] s[k]).1@, s[k].0) == x by {
                            if x == gi {
                                assert(0 <= idx < idx + 1 && mint_id(s[idx as int].1@, s[idx as int].0) == x);
                            } else {
                                assert(prev.nft_at(x) is Some);
                                let k = choose|k: int|
                                    0 <= k < idx && mint_id((#[trigger] s[k]).1@, s[k].0) == x;
                                assert(0 <= k < idx + 1 && mint_id(s[k].1@, s[k].0) == x);
                            }
                        }
                        assert forall|a: u64| (#[trigger] p.owned_of(a)).len() == owner_count(
                            s.take(idx + 1),
                            a,
                        ) by {
                            if a == owner {
                                assert(p.owned_of(a) == prev.owned_of(a).push(id));
                            } else {
                                assert(p.owned_of(a) == prev.owned_of(a));
                            }
                        }
                        assert forall|k: int| 0 <= k < idx + 1 implies created_event_for(
                            #[trigger] p.events@[k],
                            s[k],
                        ) by {
                            if k < idx {
                                assert(p.events@[k] == prev.events@[k]);
                            } else {
                                assert(p.events@[k] == Event::Created(owner, id));
                            }
                        }
                        assert forall|i2: int, j2: int| 0 <= i2 < j2 < idx + 1 implies mint_id(
                            (#[trigger] s[i2]).1@,
                            s[i2].0,
                        ) != mint_id((#[trigger] s[j2]).1@, s[j2].0) by {
                            if j2 == idx {
                                assert(prev.nft_at(mint_id(s[i2].1@, s[i2].0)) is Some);
                                assert(prev.nft_at(gi) is None);
                            }
                        }
                    }
                },
                Err(e) => {
                    proof {
                        let gi = mint_id(s[idx as int].1@, s[idx as int].0);
                        if e == Error::NftExists {
                            let k = choose|k: int|
                                0 <= k < idx && mint_id((#[trigger] s[k]).1@, s[k].0) == gi;
                            assert(!genesis_ids_distinct(s));
                        } else {
                            assert(e == Error::ExceedMaxNftOwned);
                            assert(prev.owned_of(owner).len() >= max_nft_owned);
                            assert(owner_count(s.take(idx as int), owner) >= max_nft_owned);
                            assert(owner_count(s.take(idx + 1), owner) > max_nft_owned);
                            lemma_owner_count_mono(s, idx + 1, owner);
                            assert(owner_count(s, owner) > max_nft_owned);
                        }
                    }
                    return Err(e);
                },
            }
            idx += 1;
        }
        proof {
            assert(s.take(idx as int) =~= s);
            assert forall|a: u64| owner_count(s, a) <= max_nft_owned by {
                assert(p.owned_of(a).len() == owner_count(s.take(idx as int), a));
                assert(p.owned_of(a).len() <= p.max_nft_owned);
            }
        }
        Ok(p)
    }
}

} // verus!
