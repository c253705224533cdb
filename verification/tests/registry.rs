use kitties::identity::gen_dna_gender;
use kitties::pallet::Pallet;
use kitties::types::{Config, Error, Event, Gender};

fn service(max: u32) -> Pallet {
    Pallet::new(Config { max_kitties_owned: max })
}

#[test]
fn payload_is_the_canonical_serialization() {
    let random = vec![1u8, 2, 3];
    let (dna, gender) = gen_dna_gender(&random, 5, 7);
    assert_eq!(
        dna,
        vec![1u8, 2, 3, 5, 0, 0, 0, 7, 0, 0, 0, 0, 0, 0, 0]
    );
    assert_eq!(gender, Gender::Female);
}

#[test]
fn attribute_follows_first_byte_parity() {
    for first in 0u8..=20 {
        let random = vec![first, 9, 9];
        let (dna, gender) = gen_dna_gender(&random, 1, 1);
        assert_eq!(dna[0], first);
        if first % 2 == 0 {
            assert_eq!(gender, Gender::Male);
        } else {
            assert_eq!(gender, Gender::Female);
        }
    }
    // an empty randomness draw leaves the extrinsic index in front
    let (dna, gender) = gen_dna_gender(&Vec::new(), 4, 1);
    assert_eq!(dna[0], 4);
    assert_eq!(gender, Gender::Male);
}

#[test]
fn attribute_derivation_is_deterministic() {
    let random = vec![42u8, 7];
    let a = gen_dna_gender(&random, 3, 11);
    let b = gen_dna_gender(&random, 3, 11);
    assert_eq!(a.0, b.0);
    assert_eq!(a.1, b.1);
}

#[test]
fn create_commits_every_effect() {
    let mut p = service(5);
    let random = vec![8u8, 1];
    let (dna, gender) = gen_dna_gender(&random, 0, 1);
    assert_eq!(p.create_kitty(7, &random, 0, 1, 99), Ok(()));

    let kitty = p.get_kitty(&dna).expect("the new identity is registered");
    assert_eq!(kitty.dna, dna);
    assert_eq!(kitty.owner, 7);
    assert_eq!(kitty.gender, gender);
    assert_eq!(kitty.price, 0);
    assert_eq!(kitty.created_date, 99);

    assert_eq!(p.kitty_id, 1);
    assert_eq!(p.kitty_owned(7), vec![dna.clone()]);
    assert_eq!(p.events.len(), 1);
    match &p.events[0] {
        Event::Created { kitty, owner } => {
            assert_eq!(kitty, &dna);
            assert_eq!(owner, &7);
        }
        other => panic!("expected a Created event, got {:?}", other),
    }
}

#[test]
fn duplicate_identity_is_rejected_and_changes_nothing() {
    let mut p = service(5);
    let random = vec![8u8, 1];
    assert_eq!(p.create_kitty(7, &random, 0, 1, 99), Ok(()));
    // the same draw, sequence number and block collide
    assert_eq!(
        p.create_kitty(7, &random, 0, 1, 100),
        Err(Error::DuplicateKitty)
    );
    assert_eq!(p.kitty_id, 1);
    assert_eq!(p.kitty_owned(7).len(), 1);
    assert_eq!(p.events.len(), 1);
}

#[test]
fn counter_overflow_is_rejected() {
    let mut p = Pallet {
        config: Config { max_kitties_owned: 5 },
        kitty_id: u32::MAX,
        kitties: Vec::new(),
        kitties_owned: Vec::new(),
        events: Vec::new(),
    };
    let random = vec![8u8, 1];
    assert_eq!(p.create_kitty(7, &random, 0, 1, 99), Err(Error::Overflow));
    assert_eq!(p.kitty_id, u32::MAX);
    assert!(p.kitties.is_empty());
    assert!(p.events.is_empty());
}

#[test]
fn transfer_moves_the_asset() {
    let mut p = service(5);
    let random = vec![8u8, 1];
    let (dna, _) = gen_dna_gender(&random, 0, 1);
    assert_eq!(p.create_kitty(7, &random, 0, 1, 99), Ok(()));
    assert_eq!(p.transfer(7, 9, &dna), Ok(()));

    assert_eq!(p.get_kitty(&dna).unwrap().owner, 9);
    assert!(p.kitty_owned(7).is_empty());
    assert_eq!(p.kitty_owned(9), vec![dna.clone()]);
    assert_eq!(p.kitty_id, 1);
    assert_eq!(p.events.len(), 2);
    match &p.events[1] {
        Event::Transferred { from, to, kitty } => {
            assert_eq!(from, &7);
            assert_eq!(to, &9);
            assert_eq!(kitty, &dna);
        }
        other => panic!("expected a Transferred event, got {:?}", other),
    }
}

#[test]
fn transfer_of_an_unknown_identity_is_rejected() {
    let mut p = service(5);
    let random = vec![8u8, 1];
    let (absent, _) = gen_dna_gender(&random, 0, 1);
    assert_eq!(p.transfer(7, 9, &absent), Err(Error::NoKitty));
    assert!(p.events.is_empty());
}

#[test]
fn transfer_by_a_non_owner_is_rejected() {
    let mut p = service(5);
    let random = vec![8u8, 1];
    let (dna, _) = gen_dna_gender(&random, 0, 1);
    assert_eq!(p.create_kitty(7, &random, 0, 1, 99), Ok(()));
    assert_eq!(p.transfer(8, 9, &dna), Err(Error::NotOwner));
    assert_eq!(p.get_kitty(&dna).unwrap().owner, 7);
    assert_eq!(p.events.len(), 1);
}

#[test]
fn transfer_to_oneself_is_rejected() {
    let mut p = service(5);
    let random = vec![8u8, 1];
    let (dna, _) = gen_dna_gender(&random, 0, 1);
    assert_eq!(p.create_kitty(7, &random, 0, 1, 99), Ok(()));
    assert_eq!(p.transfer(7, 7, &dna), Err(Error::TransferToSelf));
    assert_eq!(p.get_kitty(&dna).unwrap().owner, 7);
    assert_eq!(p.kitty_owned(7).len(), 1);
}

#[test]
fn transfer_to_a_full_account_is_rejected() {
    let mut p = service(1);
    let r1 = vec![2u8];
    let r2 = vec![4u8];
    let (dna1, _) = gen_dna_gender(&r1, 0, 1);
    let (dna2, _) = gen_dna_gender(&r2, 1, 1);
    assert_eq!(p.create_kitty(7, &r1, 0, 1, 99), Ok(()));
    assert_eq!(p.create_kitty(9, &r2, 1, 1, 99), Ok(()));
    // account 9 is at capacity, so nothing may move
    assert_eq!(p.transfer(7, 9, &dna1), Err(Error::TooManyOwned));
    assert_eq!(p.get_kitty(&dna1).unwrap().owner, 7);
    assert_eq!(p.kitty_owned(7), vec![dna1.clone()]);
    assert_eq!(p.kitty_owned(9), vec![dna2.clone()]);
}

#[test]
fn capacity_scenario_with_two_slots() {
    let mut p = service(2);
    let r1 = vec![2u8];
    let r2 = vec![4u8];
    let r3 = vec![6u8];
    let r4 = vec![8u8];
    let (dna1, _) = gen_dna_gender(&r1, 0, 1);
    let (dna2, _) = gen_dna_gender(&r2, 1, 1);

    // two creations fill account 1
    assert_eq!(p.create_kitty(1, &r1, 0, 1, 10), Ok(()));
    assert_eq!(p.create_kitty(1, &r2, 1, 1, 11), Ok(()));
    assert_eq!(p.kitty_owned(1).len(), 2);

    // the third is refused without any change
    assert_eq!(p.create_kitty(1, &r3, 2, 1, 12), Err(Error::TooManyOwned));
    assert_eq!(p.kitty_owned(1).len(), 2);
    assert_eq!(p.kitty_id, 2);
    assert_eq!(p.events.len(), 2);

    // a transfer makes room again
    assert_eq!(p.transfer(1, 2, &dna1), Ok(()));
    assert_eq!(p.kitty_owned(1), vec![dna2.clone()]);
    assert_eq!(p.kitty_owned(2), vec![dna1.clone()]);

    // and a fourth creation now succeeds
    assert_eq!(p.create_kitty(1, &r4, 3, 1, 13), Ok(()));
    let owned = p.kitty_owned(1);
    assert_eq!(owned.len(), 2);
    let (dna4, _) = gen_dna_gender(&r4, 3, 1);
    assert!(owned.contains(&dna4));
    assert!(owned.contains(&dna2));
}

#[test]
fn unordered_removal_keeps_the_other_identities() {
    let mut p = service(3);
    let draws = [vec![2u8], vec![4u8], vec![6u8]];
    let mut dnas = Vec::new();
    for (i, r) in draws.iter().enumerate() {
        let (dna, _) = gen_dna_gender(r, i as u32, 1);
        assert_eq!(p.create_kitty(1, r, i as u32, 1, 10), Ok(()));
        dnas.push(dna);
    }
    // remove the first of three: membership is preserved, order need not be
    assert_eq!(p.transfer(1, 2, &dnas[0]), Ok(()));
    let owned = p.kitty_owned(1);
    assert_eq!(owned.len(), 2);
    assert!(owned.contains(&dnas[1]));
    assert!(owned.contains(&dnas[2]));
    assert!(!owned.contains(&dnas[0]));
}

#[test]
fn distinct_draws_give_distinct_identities() {
    let mut p = service(10);
    for i in 0u32..6 {
        let random = vec![(2 * i) as u8, 1];
        assert_eq!(p.create_kitty(3, &random, i, 1, 50), Ok(()));
    }
    let owned = p.kitty_owned(3);
    assert_eq!(owned.len(), 6);
    for a in 0..owned.len() {
        for b in (a + 1)..owned.len() {
            assert_ne!(owned[a], owned[b]);
        }
    }
    assert_eq!(p.kitty_id, 6);
}
