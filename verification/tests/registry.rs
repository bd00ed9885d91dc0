//! End-to-end tests of the registry: minting, pricing, transfer, purchase,
//! capacity enforcement and the bootstrap loader, with the identifier
//! derivation cross-checked against the outside hashing crate.

use nft_pallet::Error;
use nft_pallet::Event;
use nft_pallet::Pallet;

/// The canonical encoding of a freshly minted record: dna bytes, the
/// `None`-price tag byte, then the owner in little-endian order.
fn encoded_mint_record(dna: &[u8; 16], owner: u64) -> Vec<u8> {
    let mut out = Vec::new();
    out.extend_from_slice(dna);
    out.push(0u8);
    out.extend_from_slice(&owner.to_le_bytes());
    out
}

#[test]
fn mint_and_lookup() {
    let mut p = Pallet::new(10);
    let id = p.mint(1, [0u8; 16]).unwrap();
    let nft = p.nfts(&id).unwrap();
    assert_eq!(nft.dna, [0u8; 16]);
    assert_eq!(nft.price, None);
    assert_eq!(nft.owner, 1);
    assert_eq!(p.nft_count(), 1);
    assert_eq!(p.nfts_owned(1), vec![id]);
    assert_eq!(p.nfts_owned(2), Vec::<[u8; 32]>::new());
    assert_eq!(p.events, vec![Event::Created(1, id)]);
}

#[test]
fn token_id_is_content_hash() {
    let mut p = Pallet::new(10);
    let dna = [5u8; 16];
    let id = p.mint(77, dna).unwrap();
    let expected = sp_io::hashing::blake2_256(&encoded_mint_record(&dna, 77));
    assert_eq!(id, expected);
}

#[test]
fn gen_dna_matches_outside_hash_and_is_deterministic() {
    let randomness = [7u8; 32];
    let mut payload = Vec::new();
    payload.extend_from_slice(&randomness);
    payload.extend_from_slice(&3u32.to_le_bytes());
    payload.extend_from_slice(&9u64.to_le_bytes());
    let expected = sp_io::hashing::blake2_128(&payload);
    let d1 = Pallet::gen_dna(&randomness, 3, 9);
    let d2 = Pallet::gen_dna(&randomness, 3, 9);
    assert_eq!(d1, expected);
    assert_eq!(d1, d2);
    let d3 = Pallet::gen_dna(&randomness, 3, 10);
    assert_ne!(d1, d3);
}

#[test]
fn create_nft_uses_derived_dna() {
    let mut p = Pallet::new(10);
    let randomness = [9u8; 32];
    let id = p.create_nft(4, &randomness, 0, 1).unwrap();
    let dna = Pallet::gen_dna(&randomness, 0, 1);
    let nft = p.nfts(&id).unwrap();
    assert_eq!(nft.dna, dna);
    assert_eq!(nft.owner, 4);
    assert_eq!(p.events, vec![Event::Created(4, id)]);
}

#[test]
fn duplicate_mint_fails_and_keeps_first_record() {
    let mut p = Pallet::new(10);
    let id = p.mint(1, [3u8; 16]).unwrap();
    p.set_price(1, &id, Some(40)).unwrap();
    assert_eq!(p.mint(1, [3u8; 16]), Err(Error::NftExists));
    let nft = p.nfts(&id).unwrap();
    assert_eq!(nft.dna, [3u8; 16]);
    assert_eq!(nft.price, Some(40));
    assert_eq!(nft.owner, 1);
    assert_eq!(p.nft_count(), 1);
    assert_eq!(p.nfts_owned(1), vec![id]);
}

#[test]
fn distinct_dna_gives_distinct_ids() {
    let mut p = Pallet::new(10);
    let id1 = p.mint(1, [1u8; 16]).unwrap();
    let id2 = p.mint(1, [2u8; 16]).unwrap();
    let id3 = p.mint(2, [1u8; 16]).unwrap();
    assert_ne!(id1, id2);
    assert_ne!(id1, id3);
    assert_ne!(id2, id3);
}

#[test]
fn mint_counter_overflow() {
    let mut p = Pallet {
        max_nft_owned: 10,
        nft_count: u64::MAX,
        nfts: Vec::new(),
        nfts_owned: Vec::new(),
        events: Vec::new(),
    };
    assert_eq!(p.mint(1, [0u8; 16]), Err(Error::NftCountOverflow));
    assert_eq!(p.nft_count(), u64::MAX);
}

#[test]
fn set_price_checks_existence_and_ownership() {
    let mut p = Pallet::new(10);
    let id = p.mint(1, [0u8; 16]).unwrap();
    let unknown = [0xffu8; 32];
    assert_eq!(p.set_price(1, &unknown, Some(5)), Err(Error::NftNotExist));
    assert_eq!(p.set_price(2, &id, Some(5)), Err(Error::NotNftOwner));
    assert_eq!(p.set_price(1, &id, Some(100)), Ok(()));
    assert_eq!(p.nfts(&id).unwrap().price, Some(100));
    assert_eq!(p.set_price(1, &id, None), Ok(()));
    assert_eq!(p.nfts(&id).unwrap().price, None);
    assert_eq!(
        p.events,
        vec![
            Event::Created(1, id),
            Event::PriceSet(1, id, Some(100)),
            Event::PriceSet(1, id, None)
        ]
    );
}

#[test]
fn transfer_moves_ownership_and_resets_price() {
    let mut p = Pallet::new(10);
    let id = p.mint(1, [0u8; 16]).unwrap();
    p.set_price(1, &id, Some(30)).unwrap();
    assert_eq!(p.transfer(2, 3, &id), Err(Error::NotNftOwner));
    assert_eq!(p.transfer(1, 1, &id), Err(Error::TransferToSelf));
    assert_eq!(p.transfer(1, 2, &id), Ok(()));
    let nft = p.nfts(&id).unwrap();
    assert_eq!(nft.owner, 2);
    assert_eq!(nft.price, None);
    assert_eq!(p.nfts_owned(1), Vec::<[u8; 32]>::new());
    assert_eq!(p.nfts_owned(2), vec![id]);
    assert_eq!(p.events.last(), Some(&Event::Transferred(1, 2, id)));
}

#[test]
fn removal_swaps_last_entry_into_freed_slot() {
    let mut p = Pallet::new(10);
    let a = p.mint(1, [1u8; 16]).unwrap();
    let b = p.mint(1, [2u8; 16]).unwrap();
    let c = p.mint(1, [3u8; 16]).unwrap();
    assert_eq!(p.nfts_owned(1), vec![a, b, c]);
    p.transfer(1, 2, &a).unwrap();
    assert_eq!(p.nfts_owned(1), vec![c, b]);
}

#[test]
fn capacity_blocks_mint_transfer_and_buy() {
    let mut p = Pallet::new(1);
    let t1 = p.mint(1, [1u8; 16]).unwrap();
    let before_events = p.events.clone();

    // mint into the full account
    assert_eq!(p.mint(1, [2u8; 16]), Err(Error::ExceedMaxNftOwned));
    assert_eq!(p.nft_count(), 1);
    assert_eq!(p.nfts_owned(1), vec![t1]);

    // transfer into the full account
    let t2 = p.mint(2, [2u8; 16]).unwrap();
    assert_eq!(p.transfer(2, 1, &t2), Err(Error::ExceedMaxNftOwned));
    assert_eq!(p.nfts(&t2).unwrap().owner, 2);
    assert_eq!(p.nfts_owned(2), vec![t2]);

    // purchase into the full account
    p.set_price(2, &t2, Some(5)).unwrap();
    assert_eq!(p.buy_nft(1, &t2, 10, 1000), Err(Error::ExceedMaxNftOwned));
    assert_eq!(p.complete_buy(1, &t2, 10), Err(Error::ExceedMaxNftOwned));
    assert_eq!(p.nfts(&t2).unwrap().owner, 2);
    assert_eq!(p.nfts(&t2).unwrap().price, Some(5));

    // a transfer out of the full account still succeeds and frees a slot
    assert_eq!(p.transfer(1, 3, &t1), Ok(()));
    assert_eq!(p.nfts_owned(1), Vec::<[u8; 32]>::new());
    assert_eq!(p.nfts_owned(3), vec![t1]);
    assert_eq!(p.mint(1, [4u8; 16]).map(|_| ()), Ok(()));

    assert!(p.events.len() > before_events.len());
}

#[test]
fn buy_scenario_with_ledger() {
    let mut p = Pallet::new(10);
    let id = p.mint(1, [0u8; 16]).unwrap();
    assert_eq!(p.set_price(1, &id, Some(100)), Ok(()));
    assert_eq!(p.nfts(&id).unwrap().price, Some(100));

    // a bid below the asking price is rejected, state unchanged
    assert_eq!(p.buy_nft(2, &id, 50, 1000), Err(Error::NftBidPriceTooLow));
    assert_eq!(p.nfts(&id).unwrap().owner, 1);
    assert_eq!(p.nfts(&id).unwrap().price, Some(100));

    // a covering bid goes through: funds move, then the registry commits
    let mut seller_balance: u64 = 20;
    let mut buyer_balance: u64 = 1000;
    let seller = p.buy_nft(2, &id, 150, buyer_balance).unwrap();
    assert_eq!(seller, 1);
    buyer_balance -= 150;
    seller_balance += 150;
    assert_eq!(p.complete_buy(2, &id, 150), Ok(()));
    let nft = p.nfts(&id).unwrap();
    assert_eq!(nft.owner, 2);
    assert_eq!(nft.price, None);
    assert_eq!(buyer_balance, 850);
    assert_eq!(seller_balance, 170);
    assert_eq!(p.nfts_owned(1), Vec::<[u8; 32]>::new());
    assert_eq!(p.nfts_owned(2), vec![id]);
    assert_eq!(p.events.last(), Some(&Event::Bought(2, 1, id, 150)));
}

#[test]
fn buy_error_cases() {
    let mut p = Pallet::new(10);
    let id = p.mint(1, [0u8; 16]).unwrap();
    let unknown = [0xabu8; 32];
    assert_eq!(p.buy_nft(2, &unknown, 10, 100), Err(Error::NftNotExist));
    assert_eq!(p.buy_nft(1, &id, 10, 100), Err(Error::BuyerIsNftOwner));
    assert_eq!(p.buy_nft(2, &id, 10, 100), Err(Error::NftNotForSale));
    p.set_price(1, &id, Some(50)).unwrap();
    assert_eq!(p.buy_nft(2, &id, 60, 59), Err(Error::NotEnoughBalance));
    assert_eq!(p.buy_nft(2, &id, 60, 60), Ok(1));
}

#[test]
fn buy_aborts_without_registry_change_when_ledger_fails() {
    let mut p = Pallet::new(10);
    let id = p.mint(1, [0u8; 16]).unwrap();
    p.set_price(1, &id, Some(100)).unwrap();
    let owned_seller_before = p.nfts_owned(1);
    let owned_buyer_before = p.nfts_owned(2);
    let events_before = p.events.clone();

    // validation passes, but the currency transfer is made to fail, so the
    // commit step never runs: the registry must be untouched
    let seller = p.buy_nft(2, &id, 150, 1000).unwrap();
    assert_eq!(seller, 1);
    let ledger_transfer: Result<(), ()> = Err(());
    assert!(ledger_transfer.is_err());

    let nft = p.nfts(&id).unwrap();
    assert_eq!(nft.owner, 1);
    assert_eq!(nft.price, Some(100));
    assert_eq!(p.nfts_owned(1), owned_seller_before);
    assert_eq!(p.nfts_owned(2), owned_buyer_before);
    assert_eq!(p.events, events_before);
}

#[test]
fn genesis_builds_in_order() {
    let g = nft_pallet::GenesisConfig {
        nfts: vec![(1, [1u8; 16]), (2, [2u8; 16]), (1, [3u8; 16])],
    };
    let p = g.build(10).unwrap();
    assert_eq!(p.nft_count(), 3);
    assert_eq!(p.nfts_owned(1).len(), 2);
    assert_eq!(p.nfts_owned(2).len(), 1);
    assert_eq!(p.events.len(), 3);
    assert!(matches!(p.events[0], Event::Created(1, _)));
    assert!(matches!(p.events[1], Event::Created(2, _)));
    assert!(matches!(p.events[2], Event::Created(1, _)));
}

#[test]
fn genesis_rejects_duplicates_and_overflowing_accounts() {
    let dup = nft_pallet::GenesisConfig {
        nfts: vec![(1, [1u8; 16]), (1, [1u8; 16])],
    };
    assert_eq!(dup.build(10).err(), Some(Error::NftExists));

    let crowded = nft_pallet::GenesisConfig {
        nfts: vec![(1, [1u8; 16]), (1, [2u8; 16])],
    };
    assert_eq!(crowded.build(1).err(), Some(Error::ExceedMaxNftOwned));

    let empty: nft_pallet::GenesisConfig = Default::default();
    let p = empty.build(1).unwrap();
    assert_eq!(p.nft_count(), 0);
    assert_eq!(p.events.len(), 0);
}

#[test]
fn is_nft_owner_reports_ownership() {
    let mut p = Pallet::new(10);
    let id = p.mint(1, [0u8; 16]).unwrap();
    assert_eq!(p.is_nft_owner(&id, 1), Ok(true));
    assert_eq!(p.is_nft_owner(&id, 2), Ok(false));
    let unknown = [1u8; 32];
    assert_eq!(p.is_nft_owner(&unknown, 1), Err(Error::NftNotExist));
}

#[test]
fn transfer_nft_to_moves_between_accounts() {
    let mut p = Pallet::new(10);
    let id = p.mint(1, [0u8; 16]).unwrap();
    p.set_price(1, &id, Some(9)).unwrap();
    assert_eq!(p.transfer_nft_to(&id, 2), Ok(()));
    assert_eq!(p.nfts(&id).unwrap().owner, 2);
    assert_eq!(p.nfts(&id).unwrap().price, None);
    let unknown = [9u8; 32];
    assert_eq!(p.transfer_nft_to(&unknown, 2), Err(Error::NftNotExist));
}
