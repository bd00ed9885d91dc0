//! The registry engine's operations: minting, price setting, transfer and
//! purchase. Every operation validates before it mutates: on any error the
//! state is exactly what it was.

use vstd::prelude::*;

use crate::codec;
use crate::hashing;
use crate::state::store_ids_unique;
use crate::state::store_index_of;
use crate::state::store_insert;
use crate::state::store_update;
use crate::state::swap_removed;
use crate::state::try_append_owned;
use crate::state::try_remove_owned;
use crate::state::owned_index_of;
use crate::state::owned_lookup;
use crate::state::id_index_in;
use crate::state::ids_contain;
use crate::state::ids_unique;
use crate::state::Error;
use crate::state::Event;
use crate::state::Nft;
use crate::state::Pallet;
use crate::state::TokenId;

verus! {

/// The identifier a mint computes: the content hash of the canonically
/// encoded record, which at mint time has no asking price.
pub open spec fn mint_id(dna: Seq<u8>, owner: u64) -> Seq<u8> {
    hashing::blake2_256_of(codec::nft_record_bytes(dna, None::<u64>, owner))
}

/// The dna a mint derives when none is supplied: the digest of the encoded
/// randomness draw, operation index and logical time counter.
pub open spec fn dna_digest(randomness: Seq<u8>, extrinsic_index: u32, block_number: u64) -> Seq<
    u8,
> {
    hashing::blake2_128_of(codec::dna_payload_bytes(randomness, extrinsic_index, block_number))
}

impl Pallet {
    /// The registry-side conditions under which a purchase goes through:
    /// the token exists, the buyer is not its owner, it is for sale at an
    /// asking price the bid covers, and the buyer has room for it. The
    /// buyer's balance is the one further condition, checked against the
    /// outside ledger.
    pub open spec fn buy_state_ok(self, buyer: u64, idv: Seq<u8>, bid_price: u64) -> bool {
        &&& self.nft_at(idv) is Some
        &&& self.nft_at(idv).unwrap().owner != buyer
        &&& self.nft_at(idv).unwrap().price is Some
        &&& self.nft_at(idv).unwrap().price.unwrap() <= bid_price
        &&& self.owned_of(buyer).len() < self.max_nft_owned
    }

    /// Derives a 16-byte identity payload from a randomness draw, the index
    /// of the operation within the current batch, and the logical time
    /// counter. Deterministic: identical inputs give an identical payload.
    pub fn gen_dna(randomness: &[u8; 32], extrinsic_index: u32, block_number: u64) -> (r: [u8; 16])
        ensures
            r@ == dna_digest(randomness@, extrinsic_index, block_number),
    {
        let payload = codec::encode_dna_payload(randomness, extrinsic_index, block_number);
        hashing::blake2_128(payload.as_slice())
    }

    /// Mints a token with the given identity payload for `owner`.
    ///
    /// The new identifier is the content hash of the record; on success a
    /// `Created` notification is recorded. The mint fails, leaving the
    /// state untouched, when the mint counter is at its maximum
    /// (`NftCountOverflow`), when a token with the computed identifier
    /// already exists (`NftExists`), or when the owner is at capacity
    /// (`ExceedMaxNftOwned`) — checked in that order.
    pub fn mint(&mut self, owner: u64, dna: [u8; 16]) -> (r: Result<TokenId, Error>)
        requires
            old(self).wf(),
        ensures
            final(self).wf(),
            final(self).max_nft_owned == old(self).max_nft_owned,
            match r {
                Ok(id) => {
                    &&& id@ == mint_id(dna@, owner)
                    &&& old(self).nft_at(id@) is None
                    &&& final(self).nft_at(id@) == Some(Nft { dna, price: None, owner })
                    &&& forall|x: Seq<u8>|
                        x != id@ ==> final(self).nft_at(x) == old(self).nft_at(x)
                    &&& final(self).owned_of(owner) == old(self).owned_of(owner).push(id)
                    &&& forall|a: u64|
                        a != owner ==> final(self).owned_of(a) == old(self).owned_of(a)
                    &&& final(self).nft_count == old(self).nft_count + 1
                    &&& final(self).events@ == old(self).events@.push(Event::Created(owner, id))
                },
                Err(e) => {
                    &&& *final(self) == *old(self)
                    &&& (e == Error::NftCountOverflow <==> old(self).nft_count == u64::MAX)
                    &&& (e == Error::NftExists <==> old(self).nft_count < u64::MAX && old(self).nft_at(mint_id(dna@, owner)) is Some)
                    &&& (e == Error::ExceedMaxNftOwned <==> old(self).nft_count < u64::MAX && old(self).nft_at(mint_id(dna@, owner)) is None && old(self).owned_of(owner).len()
                        >= old(self).max_nft_owned)
                },
            },
            r is Ok <==> (old(self).nft_count < u64::MAX && old(self).nft_at(
                mint_id(dna@, owner),
            ) is None && old(self).owned_of(owner).len() < old(self).max_nft_owned),
    {
        let nft = Nft { dna, price: None, owner };
        let encoded = codec::encode_nft_record(&dna, None, owner);
        let nft_id = hashing::blake2_256(encoded.as_slice());

        if self.nft_count == u64::MAX {
            return Err(Error::NftCountOverflow);
        }
        let new_count = self.nft_count + 1;

        if store_index_of(&self.nfts, &nft_id).is_some() {
            return Err(Error::NftExists);
        }

        let appended = try_append_owned(&mut self.nfts_owned, owner, nft_id, self.max_nft_owned);
        if !appended {
            return Err(Error::ExceedMaxNftOwned);
        }

        store_insert(&mut self.nfts, nft_id, nft);
        self.nft_count = new_count;
        self.events.push(Event::Created(owner, nft_id));

        proof {
            let o = *old(self);
            let f = *self;
            let idv = nft_id@;
            let ll = o.owned_of(owner);

            assert forall|a: u64| (#[trigger] f.owned_of(a)).len() <= f.max_nft_owned by {
                if a != owner {
                    assert(f.owned_of(a) == o.owned_of(a));
                }
            }

            assert forall|a: u64| ids_unique(#[trigger] f.owned_of(a)) by {
                if a == owner {
                    assert forall|i: int, j: int|
                        0 <= i < j < f.owned_of(a).len() implies (#[trigger] f.owned_of(a)[i])@
                        != (#[trigger] f.owned_of(a)[j])@ by {
                        if j == ll.len() {
                            assert(f.owned_of(a)[i] == ll[i]);
                            if ll[i]@ == idv {
                                assert(o.nft_at(ll[i]@) is Some);
                            }
                        } else {
                            assert(f.owned_of(a)[i] == ll[i]);
                            assert(f.owned_of(a)[j] == ll[j]);
                        }
                    }
                } else {
                    assert(f.owned_of(a) == o.owned_of(a));
                }
            }

            assert forall|a: u64, i: int| 0 <= i < f.owned_of(a).len() implies {
                let g = f.nft_at((#[trigger] f.owned_of(a)[i])@);
                g is Some && g.unwrap().owner == a
            } by {
                if a == owner && i == ll.len() {
                    assert(f.owned_of(a)[i] == nft_id);
                } else {
                    let x = if a == owner {
                        ll[i]
                    } else {
                        o.owned_of(a)[i]
                    };
                    assert(f.owned_of(a)[i] == x);
                    assert(o.nft_at(x@) is Some && o.nft_at(x@).unwrap().owner == a);
                    assert(x@ != idv);
                }
            }

            assert forall|k: int| 0 <= k < f.nfts@.len() implies ids_contain(
                f.owned_of((#[trigger] f.nfts@[k]).1.owner),
                f.nfts@[k].0@,
            ) by {
                if k < o.nfts@.len() {
                    assert(f.nfts@[k] == o.nfts@[k]);
                    let e = o.nfts@[k];
                    assert(ids_contain(o.owned_of(e.1.owner), e.0@));
                    let w = choose|w: int|
                        0 <= w < o.owned_of(e.1.owner).len() && (#[trigger] o.owned_of(
                            e.1.owner,
                        )[w])@ == e.0@;
                    assert(f.owned_of(e.1.owner)[w] == o.owned_of(e.1.owner)[w]);
                    assert(ids_contain(f.owned_of(e.1.owner), e.0@));
                } else {
                    assert(f.nfts@[k] == (nft_id, nft));
                    assert(f.owned_of(owner)[ll.len() as int]@ == idv);
                    assert(ids_contain(f.owned_of(owner), idv));
                }
            }
        }
        Ok(nft_id)
    }

    /// Mints a token for `sender` with a freshly derived identity payload;
    /// the mint records the `Created` notification.
    pub fn create_nft(
        &mut self,
        sender: u64,
        randomness: &[u8; 32],
        extrinsic_index: u32,
        block_number: u64,
    ) -> (r: Result<TokenId, Error>)
        requires
            old(self).wf(),
        ensures
            final(self).wf(),
            final(self).max_nft_owned == old(self).max_nft_owned,
            ({
                let dna = dna_digest(randomness@, extrinsic_index, block_number);
                match r {
                    Ok(id) => {
                        &&& id@ == mint_id(dna, sender)
                        &&& old(self).nft_at(id@) is None
                        &&& final(self).nft_at(id@) matches Some(n) && n.dna@ == dna && n.price
                            is None && n.owner == sender
                        &&& forall|x: Seq<u8>|
                            x != id@ ==> final(self).nft_at(x) == old(self).nft_at(x)
                        &&& final(self).owned_of(sender) == old(self).owned_of(sender).push(id)
                        &&& forall|a: u64|
                            a != sender ==> final(self).owned_of(a) == old(self).owned_of(a)
                        &&& final(self).nft_count == old(self).nft_count + 1
                        &&& final(self).events@ == old(self).events@.push(
                            Event::Created(sender, id),
                        )
                    },
                    Err(e) => {
                        &&& *final(self) == *old(self)
                        &&& (e == Error::NftCountOverflow <==> old(self).nft_count == u64::MAX)
                        &&& (e == Error::NftExists <==> old(self).nft_count < u64::MAX && old(self).nft_at(mint_id(dna, sender)) is Some)
                        &&& (e == Error::ExceedMaxNftOwned <==> old(self).nft_count < u64::MAX
                            && old(self).nft_at(mint_id(dna, sender)) is None && old(self).owned_of(sender).len() >= old(self).max_nft_owned)
                    },
                }
            }),
            r is Ok <==> (old(self).nft_count < u64::MAX && old(self).nft_at(
                mint_id(dna_digest(randomness@, extrinsic_index, block_number), sender),
            ) is None && old(self).owned_of(sender).len() < old(self).max_nft_owned),
    {
        let dna = Self::gen_dna(randomness, extrinsic_index, block_number);
        self.mint(sender, dna)
    }

    /// Overwrites the asking price of a token the caller owns. `None`
    /// delists the token. Fails with `NftNotExist` for an unknown
    /// identifier and with `NotNftOwner` when the caller is not the owner,
    /// leaving the state untouched either way.
    pub fn set_price(&mut self, sender: u64, nft_id: &TokenId, new_price: Option<u64>) -> (r:
        Result<(), Error>)
        requires
            old(self).wf(),
        ensures
            final(self).wf(),
            final(self).max_nft_owned == old(self).max_nft_owned,
            final(self).nft_count == old(self).nft_count,
            final(self).nfts_owned == old(self).nfts_owned,
            match r {
                Ok(_) => {
                    &&& (old(self).nft_at(nft_id@) matches Some(n) && n.owner == sender && final(self).nft_at(nft_id@) == Some(Nft { dna: n.dna, price: new_price, owner: n.owner }))
                    &&& forall|x: Seq<u8>|
                        x != nft_id@ ==> final(self).nft_at(x) == old(self).nft_at(x)
                    &&& final(self).events@ == old(self).events@.push(
                        Event::PriceSet(sender, *nft_id, new_price),
                    )
                },
                Err(e) => {
                    &&& *final(self) == *old(self)
                    &&& (e == Error::NftNotExist <==> old(self).nft_at(nft_id@) is None)
                    &&& (e == Error::NotNftOwner <==> (old(self).nft_at(nft_id@) matches Some(n)
                        && n.owner != sender))
                },
            },
            r is Ok <==> (old(self).nft_at(nft_id@) matches Some(n) && n.owner == sender),
    {
        match store_index_of(&self.nfts, nft_id) {
            None => Err(Error::NftNotExist),
            Some(i) => {
                let nft = self.nfts[i].1;
                if nft.owner != sender {
                    return Err(Error::NotNftOwner);
                }
                store_update(
                    &mut self.nfts,
                    i,
                    Nft { dna: nft.dna, price: new_price, owner: nft.owner },
                );
                self.events.push(Event::PriceSet(sender, *nft_id, new_price));
                proof {
                    let o = *old(self);
                    let f = *self;
                    lemma_wf_after_same_owner_update(o, f, nft_id@, nft.owner);
                }
                Ok(())
            },
        }
    }

    /// Whether `account` owns the token, or `NftNotExist` for an unknown
    /// identifier.
    pub fn is_nft_owner(&self, nft_id: &TokenId, account: u64) -> (r: Result<bool, Error>)
        requires
            self.wf(),
        ensures
            match r {
                Ok(b) => self.nft_at(nft_id@) matches Some(n) && b == (n.owner == account),
                Err(e) => e == Error::NftNotExist && self.nft_at(nft_id@) is None,
            },
            r is Ok <==> self.nft_at(nft_id@) is Some,
    {
        match store_index_of(&self.nfts, nft_id) {
            Some(i) => Ok(self.nfts[i].1.owner == account),
            None => Err(Error::NftNotExist),
        }
    }

    /// Moves a token to `to`: removes its identifier from the current
    /// owner's list by swap-removal, resets the asking price to `None`,
    /// sets the new owner, and appends the identifier to `to`'s list — as
    /// one atomic unit. Fails with `NftNotExist` for an unknown identifier
    /// and with `ExceedMaxNftOwned` when `to` is another account already at
    /// capacity, leaving the state untouched either way.
    pub fn transfer_nft_to(&mut self, nft_id: &TokenId, to: u64) -> (r: Result<(), Error>)
        requires
            old(self).wf(),
        ensures
            final(self).wf(),
            final(self).max_nft_owned == old(self).max_nft_owned,
            final(self).nft_count == old(self).nft_count,
            final(self).events == old(self).events,
            match r {
                Ok(_) => ({
                    let n = old(self).nft_at(nft_id@).unwrap();
                    let prev = n.owner;
                    let l = old(self).owned_of(prev);
                    &&& old(self).nft_at(nft_id@) is Some
                    &&& final(self).nft_at(nft_id@) == Some(
                        Nft { dna: n.dna, price: None, owner: to },
                    )
                    &&& forall|x: Seq<u8>|
                        x != nft_id@ ==> final(self).nft_at(x) == old(self).nft_at(x)
                    &&& (if to == prev {
                        final(self).owned_of(prev) == swap_removed(l, nft_id@).push(*nft_id)
                    } else {
                        final(self).owned_of(prev) == swap_removed(l, nft_id@) && final(self).owned_of(to) == old(self).owned_of(to).push(*nft_id)
                    })
                    &&& forall|a: u64|
                        a != prev && a != to ==> final(self).owned_of(a) == old(self).owned_of(a)
                }),
                Err(e) => {
                    &&& *final(self) == *old(self)
                    &&& (e == Error::NftNotExist <==> old(self).nft_at(nft_id@) is None)
                    &&& (e == Error::ExceedMaxNftOwned <==> (old(self).nft_at(nft_id@)
                        matches Some(n) && n.owner != to && old(self).owned_of(to).len() >= old(self).max_nft_owned))
                },
            },
            r is Ok <==> (old(self).nft_at(nft_id@) matches Some(n) && (n.owner == to || old(self).owned_of(to).len() < old(self).max_nft_owned)),
    {
        let i = match store_index_of(&self.nfts, nft_id) {
            None => {
                return Err(Error::NftNotExist);
            },
            Some(i) => i,
        };
        let nft = self.nfts[i].1;
        let prev = nft.owner;

        if to != prev {
            let cap_ok = match owned_index_of(&self.nfts_owned, to) {
                Some(j) => self.nfts_owned[j].1.len() < self.max_nft_owned as usize,
                None => self.max_nft_owned > 0,
            };
            if !cap_ok {
                return Err(Error::ExceedMaxNftOwned);
            }
        }

        let ghost o = *old(self);
        let ghost l = o.owned_of(prev);
        proof {
            assert(o.nfts@[i as int].0@ == nft_id@);
            assert(ids_contain(o.owned_of(prev), nft_id@));
            lemma_swap_removed(l, nft_id@);
        }

        let removed = try_remove_owned(&mut self.nfts_owned, prev, nft_id);
        proof {
            assert(removed);
        }
        if !removed {
            return Err(Error::NftNotExist);
        }
        let ghost v1 = self.nfts_owned;
        let ghost lr = swap_removed(l, nft_id@);
        proof {
            assert(owned_lookup(v1@, prev) == lr);
        }

        let appended = try_append_owned(&mut self.nfts_owned, to, *nft_id, self.max_nft_owned);
        proof {
            if to == prev {
                assert(owned_lookup(v1@, to).len() < o.max_nft_owned);
            } else {
                assert(owned_lookup(v1@, to) == o.owned_of(to));
            }
            assert(appended);
        }
        if !appended {
            return Err(Error::ExceedMaxNftOwned);
        }
        let ghost v2 = self.nfts_owned;

        let new_nft = Nft { dna: nft.dna, price: None, owner: to };
        store_update(&mut self.nfts, i, new_nft);

        proof {
            let f = *self;
            let idv = nft_id@;

            assert(owned_lookup(v2@, to) == owned_lookup(v1@, to).push(*nft_id));
            assert forall|a: u64| a != prev && a != to implies #[trigger] f.owned_of(a)
                == o.owned_of(a) by {
                assert(owned_lookup(v1@, a) == owned_lookup(o.nfts_owned@, a));
                assert(owned_lookup(v2@, a) == owned_lookup(v1@, a));
            }

            // capacity
            assert forall|a: u64| (#[trigger] f.owned_of(a)).len() <= f.max_nft_owned by {
                if a == to {
                    if to == prev {
                        assert(f.owned_of(to) == lr.push(*nft_id));
                        assert(l.len() <= o.max_nft_owned);
                    } else {
                        assert(f.owned_of(to) == o.owned_of(to).push(*nft_id));
                    }
                } else if a == prev {
                    assert(f.owned_of(prev) == lr);
                } else {
                    assert(f.owned_of(a) == o.owned_of(a));
                }
            }

            // duplicate-freedom of every list
            assert forall|a: u64| ids_unique(#[trigger] f.owned_of(a)) by {
                if a == to {
                    let base = if to == prev {
                        lr
                    } else {
                        o.owned_of(to)
                    };
                    assert(f.owned_of(to) == base.push(*nft_id));
                    assert forall|p: int, q: int|
                        0 <= p < q < f.owned_of(to).len() implies (#[trigger] f.owned_of(to)[p])@
                        != (#[trigger] f.owned_of(to)[q])@ by {
                        if q == base.len() {
                            assert(f.owned_of(to)[p] == base[p]);
                            if base[p]@ == idv {
                                if to != prev {
                                    assert(o.nft_at(base[p]@).unwrap().owner == to);
                                }
                            }
                        } else {
                            assert(f.owned_of(to)[p] == base[p]);
                            assert(f.owned_of(to)[q] == base[q]);
                        }
                    }
                } else if a == prev {
                    assert(f.owned_of(prev) == lr);
                } else {
                    assert(f.owned_of(a) == o.owned_of(a));
                }
            }

            // every listed identifier is stored with the right owner
            assert forall|a: u64, k: int| 0 <= k < f.owned_of(a).len() implies {
                let g = f.nft_at((#[trigger] f.owned_of(a)[k])@);
                g is Some && g.unwrap().owner == a
            } by {
                let base = if to == prev {
                    lr
                } else {
                    o.owned_of(to)
                };
                if a == to && k == base.len() {
                    assert(f.owned_of(to)[k] == *nft_id);
                } else {
                    let x = if a == to {
                        base[k]
                    } else if a == prev {
                        lr[k]
                    } else {
                        o.owned_of(a)[k]
                    };
                    assert(f.owned_of(a)[k] == x);
                    if a == prev || (a == to && to == prev) {
                        assert(ids_contain(l, x@) && x@ != idv);
                        let w = choose|w: int| 0 <= w < l.len() && (#[trigger] l[w])@ == x@;
                        assert(l[w] == o.owned_of(prev)[w]);
                        assert(o.nft_at(x@) is Some && o.nft_at(x@).unwrap().owner == prev);
                    } else {
                        assert(o.nft_at(x@) is Some && o.nft_at(x@).unwrap().owner == a);
                        assert(x@ != idv);
                    }
                    assert(f.nft_at(x@) == o.nft_at(x@));
                }
            }

            // every stored identifier is listed under its owner
            assert forall|k: int| 0 <= k < f.nfts@.len() implies ids_contain(
                f.owned_of((#[trigger] f.nfts@[k]).1.owner),
                f.nfts@[k].0@,
            ) by {
                let base = if to == prev {
                    lr
                } else {
                    o.owned_of(to)
                };
                if k == i {
                    assert(f.nfts@[k] == (o.nfts@[i as int].0, new_nft));
                    assert(f.owned_of(to) == base.push(*nft_id));
                    assert(f.owned_of(to)[base.len() as int]@ == idv);
                    assert(ids_contain(f.owned_of(to), idv));
                } else {
                    assert(f.nfts@[k] == o.nfts@[k]);
                    let e = o.nfts@[k];
                    assert(ids_contain(o.owned_of(e.1.owner), e.0@));
                    assert(e.0@ != idv);
                    if e.1.owner == prev {
                        assert(ids_contain(lr, e.0@));
                        if to == prev {
                            let w = choose|w: int|
                                0 <= w < lr.len() && (#[trigger] lr[w])@ == e.0@;
                            assert(f.owned_of(prev)[w] == lr[w]);
                            assert(ids_contain(f.owned_of(prev), e.0@));
                        } else {
                            assert(f.owned_of(prev) == lr);
                        }
                    } else if e.1.owner == to {
                        let w = choose|w: int|
                            0 <= w < o.owned_of(to).len() && (#[trigger] o.owned_of(to)[w])@
                                == e.0@;
                        assert(f.owned_of(to)[w] == o.owned_of(to)[w]);
                        assert(ids_contain(f.owned_of(to), e.0@));
                    } else {
                        assert(f.owned_of(e.1.owner) == o.owned_of(e.1.owner));
                    }
                }
            }
        }
        Ok(())
    }

    /// Sends a token the caller owns to another account, resetting its
    /// asking price. Fails, leaving the state untouched, with `NftNotExist`
    /// for an unknown identifier, `NotNftOwner` when `from` is not the
    /// owner, `TransferToSelf` when `to == from`, and `ExceedMaxNftOwned`
    /// when the recipient is at capacity — checked in that order.
    pub fn transfer(&mut self, from: u64, to: u64, nft_id: &TokenId) -> (r: Result<(), Error>)
        requires
            old(self).wf(),
        ensures
            final(self).wf(),
            final(self).max_nft_owned == old(self).max_nft_owned,
            final(self).nft_count == old(self).nft_count,
            match r {
                Ok(_) => ({
                    let n = old(self).nft_at(nft_id@).unwrap();
                    &&& old(self).nft_at(nft_id@) is Some
                    &&& n.owner == from
                    &&& to != from
                    &&& old(self).owned_of(to).len() < old(self).max_nft_owned
                    &&& final(self).nft_at(nft_id@) == Some(
                        Nft { dna: n.dna, price: None, owner: to },
                    )
                    &&& forall|x: Seq<u8>|
                        x != nft_id@ ==> final(self).nft_at(x) == old(self).nft_at(x)
                    &&& final(self).owned_of(from) == swap_removed(
                        old(self).owned_of(from),
                        nft_id@,
                    )
                    &&& final(self).owned_of(to) == old(self).owned_of(to).push(*nft_id)
                    &&& forall|a: u64|
                        a != from && a != to ==> final(self).owned_of(a) == old(self).owned_of(a)
                    &&& final(self).events@ == old(self).events@.push(
                        Event::Transferred(from, to, *nft_id),
                    )
                }),
                Err(e) => {
                    &&& *final(self) == *old(self)
                    &&& (e == Error::NftNotExist <==> old(self).nft_at(nft_id@) is None)
                    &&& (e == Error::NotNftOwner <==> (old(self).nft_at(nft_id@) matches Some(n)
                        && n.owner != from))
                    &&& (e == Error::TransferToSelf <==> (old(self).nft_at(nft_id@)
                        matches Some(n) && n.owner == from && to == from))
                    &&& (e == Error::ExceedMaxNftOwned <==> (old(self).nft_at(nft_id@)
                        matches Some(n) && n.owner == from && to != from && old(self).owned_of(
                        to,
                    ).len() >= old(self).max_nft_owned))
                },
            },
            r is Ok <==> (old(self).nft_at(nft_id@) matches Some(n) && n.owner == from && to
                != from && old(self).owned_of(to).len() < old(self).max_nft_owned),
    {
        match self.is_nft_owner(nft_id, from) {
            Err(e) => {
                return Err(e);
            },
            Ok(false) => {
                return Err(Error::NotNftOwner);
            },
            Ok(true) => {},
        }
        if from == to {
            return Err(Error::TransferToSelf);
        }
        let cap_ok = match owned_index_of(&self.nfts_owned, to) {
            Some(j) => self.nfts_owned[j].1.len() < self.max_nft_owned as usize,
            None => self.max_nft_owned > 0,
        };
        if !cap_ok {
            return Err(Error::ExceedMaxNftOwned);
        }
        match self.transfer_nft_to(nft_id, to) {
            Err(e) => Err(e),
            Ok(_) => {
                let ghost mid = *self;
                self.events.push(Event::Transferred(from, to, *nft_id));
                proof {
                    lemma_wf_same_registry_fields(mid, *self);
                }
                Ok(())
            },
        }
    }

    /// Validates a purchase against the registry and the buyer's free
    /// balance, without touching any state. On success it returns the
    /// seller, and the caller is expected to move `bid_price` from the
    /// buyer to the seller on the outside ledger and, only if that
    /// transfer went through, commit the purchase with
    /// [`Pallet::complete_buy`]. Checks, in order: the token exists
    /// (`NftNotExist`), the buyer is not the owner (`BuyerIsNftOwner`), it
    /// is for sale (`NftNotForSale`), the bid covers the asking price
    /// (`NftBidPriceTooLow`), the balance covers the bid
    /// (`NotEnoughBalance`), and the buyer has room (`ExceedMaxNftOwned`).
    pub fn buy_nft(&self, buyer: u64, nft_id: &TokenId, bid_price: u64, buyer_balance: u64) -> (r:
        Result<u64, Error>)
        requires
            self.wf(),
        ensures
            match r {
                Ok(seller) => {
                    &&& self.buy_state_ok(buyer, nft_id@, bid_price)
                    &&& buyer_balance >= bid_price
                    &&& seller == self.nft_at(nft_id@).unwrap().owner
                },
                Err(e) => {
                    &&& (e == Error::NftNotExist <==> self.nft_at(nft_id@) is None)
                    &&& (e == Error::BuyerIsNftOwner <==> (self.nft_at(nft_id@) matches Some(n)
                        && n.owner == buyer))
                    &&& (e == Error::NftNotForSale <==> (self.nft_at(nft_id@) matches Some(n)
                        && n.owner != buyer && n.price is None))
                    &&& (e == Error::NftBidPriceTooLow <==> (self.nft_at(nft_id@) matches Some(n)
                        && n.owner != buyer && n.price is Some && n.price.unwrap() > bid_price))
                    &&& (e == Error::NotEnoughBalance <==> (self.nft_at(nft_id@) matches Some(n)
                        && n.owner != buyer && n.price is Some && n.price.unwrap() <= bid_price
                        && buyer_balance < bid_price))
                    &&& (e == Error::ExceedMaxNftOwned <==> (self.nft_at(nft_id@) matches Some(n)
                        && n.owner != buyer && n.price is Some && n.price.unwrap() <= bid_price
                        && buyer_balance >= bid_price && self.owned_of(buyer).len() >= self.max_nft_owned))
                },
            },
            r is Ok <==> (self.buy_state_ok(buyer, nft_id@, bid_price) && buyer_balance
                >= bid_price),
    {
        let i = match store_index_of(&self.nfts, nft_id) {
            None => {
                return Err(Error::NftNotExist);
            },
            Some(i) => i,
        };
        let nft = self.nfts[i].1;
        if nft.owner == buyer {
            return Err(Error::BuyerIsNftOwner);
        }
        let ask = match nft.price {
            None => {
                return Err(Error::NftNotForSale);
            },
            Some(ask) => ask,
        };
        if ask > bid_price {
            return Err(Error::NftBidPriceTooLow);
        }
        if buyer_balance < bid_price {
            return Err(Error::NotEnoughBalance);
        }
        let room = match owned_index_of(&self.nfts_owned, buyer) {
            Some(j) => self.nfts_owned[j].1.len() < self.max_nft_owned as usize,
            None => self.max_nft_owned > 0,
        };
        if !room {
            return Err(Error::ExceedMaxNftOwned);
        }
        Ok(nft.owner)
    }

    /// Commits a purchase whose currency leg has already settled: moves the
    /// token from the seller to the buyer, resets the asking price, and
    /// records a `Bought` notification. The registry-side conditions of
    /// [`Pallet::buy_nft`] are checked again, in the same order but without
    /// the balance check; any failure leaves the state untouched.
    pub fn complete_buy(&mut self, buyer: u64, nft_id: &TokenId, bid_price: u64) -> (r: Result<
        (),
        Error,
    >)
        requires
            old(self).wf(),
        ensures
            final(self).wf(),
            final(self).max_nft_owned == old(self).max_nft_owned,
            final(self).nft_count == old(self).nft_count,
            match r {
                Ok(_) => ({
                    let n = old(self).nft_at(nft_id@).unwrap();
                    let seller = n.owner;
                    &&& old(self).buy_state_ok(buyer, nft_id@, bid_price)
                    &&& final(self).nft_at(nft_id@) == Some(
                        Nft { dna: n.dna, price: None, owner: buyer },
                    )
                    &&& forall|x: Seq<u8>|
                        x != nft_id@ ==> final(self).nft_at(x) == old(self).nft_at(x)
                    &&& final(self).owned_of(seller) == swap_removed(
                        old(self).owned_of(seller),
                        nft_id@,
                    )
                    &&& final(self).owned_of(buyer) == old(self).owned_of(buyer).push(*nft_id)
                    &&& forall|a: u64|
                        a != seller && a != buyer ==> final(self).owned_of(a) == old(
                            self,
                        ).owned_of(a)
                    &&& final(self).events@ == old(self).events@.push(
                        Event::Bought(buyer, seller, *nft_id, bid_price),
                    )
                }),
                Err(e) => {
                    &&& *final(self) == *old(self)
                    &&& (e == Error::NftNotExist <==> old(self).nft_at(nft_id@) is None)
                    &&& (e == Error::BuyerIsNftOwner <==> (old(self).nft_at(nft_id@)
                        matches Some(n) && n.owner == buyer))
                    &&& (e == Error::NftNotForSale <==> (old(self).nft_at(nft_id@)
                        matches Some(n) && n.owner != buyer && n.price is None))
                    &&& (e == Error::NftBidPriceTooLow <==> (old(self).nft_at(nft_id@)
                        matches Some(n) && n.owner != buyer && n.price is Some
                        && n.price.unwrap() > bid_price))
                    &&& (e == Error::ExceedMaxNftOwned <==> (old(self).nft_at(nft_id@)
                        matches Some(n) && n.owner != buyer && n.price is Some
                        && n.price.unwrap() <= bid_price && old(self).owned_of(buyer).len()
                        >= old(self).max_nft_owned))
                },
            },
            r is Ok <==> old(self).buy_state_ok(buyer, nft_id@, bid_price),
    {
        let i = match store_index_of(&self.nfts, nft_id) {
            None => {
                return Err(Error::NftNotExist);
            },
            Some(i) => i,
        };
        let nft = self.nfts[i].1;
        if nft.owner == buyer {
            return Err(Error::BuyerIsNftOwner);
        }
        let ask = match nft.price {
            None => {
                return Err(Error::NftNotForSale);
            },
            Some(ask) => ask,
        };
        if ask > bid_price {
            return Err(Error::NftBidPriceTooLow);
        }
        let room = match owned_index_of(&self.nfts_owned, buyer) {
            Some(j) => self.nfts_owned[j].1.len() < self.max_nft_owned as usize,
            None => self.max_nft_owned > 0,
        };
        if !room {
            return Err(Error::ExceedMaxNftOwned);
        }
        let seller = nft.owner;
        match self.transfer_nft_to(nft_id, buyer) {
            Err(e) => Err(e),
            Ok(_) => {
                let ghost mid = *self;
                self.events.push(Event::Bought(buyer, seller, *nft_id, bid_price));
                proof {
                    lemma_wf_same_registry_fields(mid, *self);
                }
                Ok(())
            },
        }
    }
}

/// What swap-removal does to a duplicate-free list that holds the
/// identifier: one occurrence disappears, every other identifier stays, and
/// the list stays duplicate-free.
pub proof fn lemma_swap_removed(l: Seq<TokenId>, id: Seq<u8>)
    requires
        ids_unique(l),
        ids_contain(l, id),
    ensures
        ({
            let lr = swap_removed(l, id);
            &&& lr.len() == l.len() - 1
            &&& ids_unique(lr)
            &&& !ids_contain(lr, id)
            &&& forall|x: Seq<u8>| x != id ==> (ids_contain(lr, x) <==> ids_contain(l, x))
            &&& forall|k: int|
                0 <= k < lr.len() ==> ids_contain(l, (#[trigger] lr[k])@) && (lr[k])@ != id
        }),
{
    let ci = id_index_in(l, id);
    assert(0 <= ci < l.len() && l[ci]@ == id);
    let lr = swap_removed(l, id);
    assert forall|p: int, q: int| 0 <= p < q < lr.len() implies (#[trigger] lr[p])@
        != (#[trigger] lr[q])@ by {
        let p2 = if p == ci {
            l.len() - 1
        } else {
            p
        };
        let q2 = if q == ci {
            l.len() - 1
        } else {
            q
        };
        assert(lr[p] == l[p2]);
        assert(lr[q] == l[q2]);
    }
    assert forall|k: int| 0 <= k < lr.len() implies ids_contain(l, (#[trigger] lr[k])@) && (
    lr[k])@ != id by {
        let k2 = if k == ci {
            l.len() - 1
        } else {
            k
        };
        assert(lr[k] == l[k2]);
        assert(l[k2]@ != l[ci]@);
    }
    assert forall|x: Seq<u8>| x != id implies (ids_contain(lr, x) <==> ids_contain(l, x)) by {
        if ids_contain(lr, x) {
            let k = choose|k: int| 0 <= k < lr.len() && (#[trigger] lr[k])@ == x;
            let k2 = if k == ci {
                l.len() - 1
            } else {
                k
            };
            assert(lr[k] == l[k2]);
            assert(ids_contain(l, x));
        }
        if ids_contain(l, x) {
            let w = choose|w: int| 0 <= w < l.len() && (#[trigger] l[w])@ == x;
            assert(w != ci);
            if w == l.len() - 1 {
                assert(lr[ci] == l[w]);
                assert(ids_contain(lr, x));
            } else {
                assert(lr[w] == l[w]);
                assert(ids_contain(lr, x));
            }
        }
    }
}

/// Well-formedness only reads the token store, the ownership index and the
/// capacity bound: a state that shares them with a well-formed one is
/// well-formed.
proof fn lemma_wf_same_registry_fields(a: Pallet, b: Pallet)
    requires
        a.wf(),
        b.nfts == a.nfts,
        b.nfts_owned == a.nfts_owned,
        b.max_nft_owned == a.max_nft_owned,
    ensures
        b.wf(),
{
    assert forall|x: u64| (#[trigger] b.owned_of(x)).len() <= b.max_nft_owned by {
        assert(b.owned_of(x) == a.owned_of(x));
    }
    assert forall|x: u64| ids_unique(#[trigger] b.owned_of(x)) by {
        assert(b.owned_of(x) == a.owned_of(x));
    }
    assert forall|x: u64, i: int| 0 <= i < b.owned_of(x).len() implies {
        let g = b.nft_at((#[trigger] b.owned_of(x)[i])@);
        g is Some && g.unwrap().owner == x
    } by {
        assert(b.owned_of(x) == a.owned_of(x));
        let y = a.owned_of(x)[i];
        assert(a.nft_at(y@) is Some && a.nft_at(y@).unwrap().owner == x);
    }
    assert forall|k: int| 0 <= k < b.nfts@.len() implies ids_contain(
        b.owned_of((#[trigger] b.nfts@[k]).1.owner),
        b.nfts@[k].0@,
    ) by {
        assert(ids_contain(a.owned_of(a.nfts@[k].1.owner), a.nfts@[k].0@));
        assert(b.owned_of(b.nfts@[k].1.owner) == a.owned_of(a.nfts@[k].1.owner));
    }
}

/// Overwriting one record in place without changing its owner keeps the
/// registry well-formed: both agreement directions only read identifiers
/// and owners.
proof fn lemma_wf_after_same_owner_update(o: Pallet, f: Pallet, idv: Seq<u8>, owner: u64)
    requires
        o.wf(),
        f.max_nft_owned == o.max_nft_owned,
        f.nfts_owned == o.nfts_owned,
        f.nfts@.len() == o.nfts@.len(),
        forall|k: int|
            0 <= k < o.nfts@.len() ==> (#[trigger] f.nfts@[k]).0 == o.nfts@[k].0
                && f.nfts@[k].1.owner == o.nfts@[k].1.owner,
        store_ids_unique(f.nfts@),
        forall|x: Seq<u8>| x != idv ==> f.nft_at(x) == o.nft_at(x),
        f.nft_at(idv) is Some <==> o.nft_at(idv) is Some,
        f.nft_at(idv) is Some ==> f.nft_at(idv).unwrap().owner == owner && o.nft_at(
            idv,
        ).unwrap().owner == owner,
    ensures
        f.wf(),
{
    assert forall|a: u64| (#[trigger] f.owned_of(a)).len() <= f.max_nft_owned by {
        assert(f.owned_of(a) == o.owned_of(a));
    }
    assert forall|a: u64| ids_unique(#[trigger] f.owned_of(a)) by {
        assert(f.owned_of(a) == o.owned_of(a));
    }
    assert forall|a: u64, i: int| 0 <= i < f.owned_of(a).len() implies {
        let g = f.nft_at((#[trigger] f.owned_of(a)[i])@);
        g is Some && g.unwrap().owner == a
    } by {
        assert(f.owned_of(a) == o.owned_of(a));
        let x = o.owned_of(a)[i];
        assert(o.nft_at(x@) is Some && o.nft_at(x@).unwrap().owner == a);
        if x@ == idv {
            assert(f.nft_at(idv).unwrap().owner == owner);
        }
    }
    assert forall|k: int| 0 <= k < f.nfts@.len() implies ids_contain(
        f.owned_of((#[trigger] f.nfts@[k]).1.owner),
        f.nfts@[k].0@,
    ) by {
        assert(f.nfts@[k].1.owner == o.nfts@[k].1.owner);
        assert(f.nfts@[k].0 == o.nfts@[k].0);
        assert(ids_contain(o.owned_of(o.nfts@[k].1.owner), o.nfts@[k].0@));
        assert(f.owned_of(o.nfts@[k].1.owner) == o.owned_of(o.nfts@[k].1.owner));
    }
}

} // verus!
