use quartz_counter::codec::{decode_counter, encode_counter};
use quartz_counter::counter::Counter;
use quartz_counter::identity::Pubkey;
use quartz_counter::pda::{counter_address, counter_tag_bytes};

fn key(fill: u8) -> Pubkey {
    Pubkey::new(vec![fill; 32])
}

#[test]
fn counter_tag_spells_counter() {
    assert_eq!(counter_tag_bytes(), b"counter".to_vec());
}

#[test]
fn encode_has_exact_layout() {
    let header: Vec<u8> = vec![1, 2, 3, 4, 5, 6, 7, 8];
    let record = Counter {
        authority: key(0xAA),
        count: 0x0807060504030201,
        last_updated: 0,
    };
    let bytes = encode_counter(&header, &record);
    assert_eq!(bytes.len(), 56);
    assert_eq!(&bytes[0..8], &[1, 2, 3, 4, 5, 6, 7, 8]);
    assert_eq!(&bytes[8..40], vec![0xAA; 32].as_slice());
    // count, little-endian
    assert_eq!(&bytes[40..48], &[1, 2, 3, 4, 5, 6, 7, 8]);
    // stamp 0
    assert_eq!(&bytes[48..56], &[0; 8]);
}

#[test]
fn decode_round_trips_negative_stamp() {
    let header: Vec<u8> = vec![9, 9, 9, 9, 9, 9, 9, 9];
    let record = Counter {
        authority: key(0x3C),
        count: u64::MAX,
        last_updated: -1_234_567_890,
    };
    let bytes = encode_counter(&header, &record);
    let back = decode_counter(&bytes, &header).expect("a record it wrote must read back");
    assert_eq!(back.authority.bytes, record.authority.bytes);
    assert_eq!(back.count, record.count);
    assert_eq!(back.last_updated, record.last_updated);
}

#[test]
fn decode_refuses_wrong_header_and_length() {
    let header: Vec<u8> = vec![1, 2, 3, 4, 5, 6, 7, 8];
    let other_header: Vec<u8> = vec![1, 2, 3, 4, 5, 6, 7, 9];
    let record = Counter {
        authority: key(0x3C),
        count: 5,
        last_updated: 5,
    };
    let bytes = encode_counter(&header, &record);
    assert!(decode_counter(&bytes, &other_header).is_none());

    let mut short = bytes.clone();
    short.pop();
    assert!(decode_counter(&short, &header).is_none());
}

#[test]
fn derived_address_is_a_new_key() {
    let program_id = key(0x11);
    let alice = key(0xA1);
    let bob = key(0xB2);
    let a1 = counter_address(&program_id, &alice).expect("derivable");
    let a2 = counter_address(&program_id, &alice).expect("derivable");
    let b = counter_address(&program_id, &bob).expect("derivable");
    // Deterministic, and not any of its inputs handed back.
    assert_eq!(a1.bytes, a2.bytes);
    assert_ne!(a1.bytes, alice.bytes);
    assert_ne!(a1.bytes, program_id.bytes);
    assert_ne!(a1.bytes, b.bytes);
    assert_eq!(a1.bytes.len(), 32);
}

#[test]
fn derivation_matches_host_sdk() {
    let program_id = key(0x11);
    let alice = key(0xA1);
    let ours = counter_address(&program_id, &alice).expect("derivable");

    let pid = anchor_lang::prelude::Pubkey::try_from(program_id.bytes.as_slice()).unwrap();
    let auth = anchor_lang::prelude::Pubkey::try_from(alice.bytes.as_slice()).unwrap();
    let (theirs, _bump) =
        anchor_lang::prelude::Pubkey::try_find_program_address(&[b"counter", auth.as_ref()], &pid)
            .expect("derivable");
    assert_eq!(ours.bytes, theirs.to_bytes().to_vec());
}
