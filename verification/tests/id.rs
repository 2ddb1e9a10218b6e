use std::str::FromStr;

use dechst::id::{hex_encode, starts_with, Id, Idd, ParseHexIdError, WIDTH};
use rand::RngCore;

fn random_data(len: usize) -> Vec<u8> {
    let mut data = vec![0u8; len];
    rand::thread_rng().fill_bytes(&mut data);
    data
}

fn rs_to_hex_lower(slice: &[u8]) -> String {
    slice.iter().map(|b| format!("{:02x}", b)).collect()
}

fn rs_to_hex_upper(slice: &[u8]) -> String {
    slice.iter().map(|b| format!("{:02X}", b)).collect()
}

#[test]
fn id_from_bytes() {
    let data = random_data(WIDTH);
    for i in 0..WIDTH {
        let id = Id::from_bytes(&data[..i]);

        assert_eq!(&id.0[..i], &data[..i]);
        assert_eq!(&id.0[i..], vec![0u8; WIDTH - i]);
    }
}

#[test]
fn id_from_bytes_cuts_long_input() {
    let data: Vec<u8> = (0u8..40).collect();
    let id = Id::from_bytes(&data);
    assert_eq!(&id.0[..], &data[..32]);
    assert_eq!(id.as_bytes(), &data[..32]);
}

#[test]
fn id_to_hex_lower() {
    for _ in 0..WIDTH {
        let data = random_data(WIDTH);
        let id = Id::from_bytes(&data);
        let should = rs_to_hex_lower(&data);

        assert_eq!(id.to_hex_lower(), should);
        assert_eq!(id.to_hex(), should);
    }
}

#[test]
fn id_to_hex_upper() {
    for _ in 0..WIDTH {
        let data = random_data(WIDTH);
        let id = Id::from_bytes(&data);
        let should = rs_to_hex_upper(&data);

        assert_eq!(id.to_hex_upper(), should);
        assert_eq!(String::from_utf8(hex_encode(&data, true)).unwrap(), should);
    }
}

#[test]
fn random() {
    assert_ne!(Id::random(), Id::random());
}

#[test]
fn id_idd_eq() {
    let id = Id([0xed; WIDTH]);

    let idd_one = Idd::new(id, ());
    let idd_two = Idd::new(id, 2);

    assert_eq!(idd_one, idd_two);
}

#[test]
fn id_idd_ne() {
    let id_one = Id([0xed; WIDTH]);
    let id_two = Id([0xaa; WIDTH]);

    let idd_one = Idd::new(id_one, 2);
    let idd_two = Idd::new(id_two, 2);

    assert_ne!(idd_one, idd_two);
}

#[test]
fn id_hex_exact_value() {
    let mut bytes = [0u8; WIDTH];
    bytes[0] = 0xa1;
    bytes[1] = 0xb2;
    bytes[31] = 0x0f;
    let id = Id(bytes);
    let expected = format!("a1b2{}0f", "0".repeat(58));
    assert_eq!(id.to_hex(), expected);
    assert_eq!(id.to_hex_upper(), format!("A1B2{}0F", "0".repeat(58)));
    assert_eq!(id.to_hex().len(), 64);
    assert_eq!(id.to_hex_bytes(), id.to_hex().into_bytes());
    assert_eq!(Id::zero().to_hex(), "0".repeat(64));
    assert_eq!(Id::default(), Id::zero());
}

#[test]
fn id_parse_round_trip() {
    for _ in 0..WIDTH {
        let id = Id::from_bytes(&random_data(WIDTH));
        assert_eq!(Id::from_str(&id.to_hex_lower()), Ok(id));
        assert_eq!(Id::parse_hex(&id.to_hex_upper()), Ok(id));
    }
}

#[test]
fn id_parse_rejects() {
    assert_eq!(Id::from_str(""), Err(ParseHexIdError));
    assert_eq!(Id::from_str(&"0".repeat(63)), Err(ParseHexIdError));
    assert_eq!(Id::from_str(&"0".repeat(65)), Err(ParseHexIdError));
    let mut bad = "0".repeat(63);
    bad.push('g');
    assert_eq!(Id::from_str(&bad), Err(ParseHexIdError));
    let mut signed = String::from("-1");
    signed.push_str(&"0".repeat(62));
    assert_eq!(Id::from_str(&signed), Err(ParseHexIdError));
}

#[test]
fn id_parse_takes_hex_digits_only() {
    // a sign is no digit, though a number parser would read it
    let mut text = String::from("+f");
    text.push_str(&"0".repeat(62));
    assert_eq!(Id::from_str(&text), Err(ParseHexIdError));
    assert_eq!(Id::parse_hex(&text), Err(ParseHexIdError));
    let mut text = "0".repeat(62);
    text.push_str("+f");
    assert_eq!(Id::from_str(&text), Err(ParseHexIdError));
    let mut text = "0".repeat(63);
    text.push(' ');
    assert_eq!(Id::from_str(&text), Err(ParseHexIdError));
    // digits of either case, mixed
    let mut text = String::from("aBcDeF09");
    text.push_str(&"0".repeat(56));
    let id = Id::from_str(&text).unwrap();
    assert_eq!(&id.0[..4], &[0xab, 0xcd, 0xef, 0x09]);
    assert_eq!(id.to_hex(), text.to_lowercase());
}

#[test]
fn id_idd_and_id_compare_by_the_identifier() {
    let id = Id([7; WIDTH]);
    let other = Id([8; WIDTH]);
    let idd = Idd::new(id, "value");
    assert!(idd == id);
    assert!(id == idd);
    assert!(idd != other);
    assert!(other != idd);
    assert!(idd == Idd::new(id, 5u8));
    let made: Idd<u8> = Idd::from((id, 5u8));
    assert_eq!(made.into_inner(), (id, 5u8));
    let pair: (Id, u8) = Idd::new(other, 9u8).into();
    assert_eq!(pair, (other, 9u8));
    let again: Idd<u8> = pair.into();
    assert!(again == other);
    assert_eq!(*again.value(), 9);
}

#[test]
fn id_idd_parts() {
    let id = Id([7; WIDTH]);
    let idd = id.idd("value");
    assert_eq!(*idd.id(), id);
    assert_eq!(*idd.value(), "value");
    assert_eq!(idd.into_inner(), (id, "value"));
    assert_eq!(Idd::new(id, 5u8).into_value(), 5);
}

#[test]
fn id_starts_with() {
    assert!(starts_with(b"a1b2", b"a1"));
    assert!(starts_with(b"a1b2", b""));
    assert!(starts_with(b"a1b2", b"a1b2"));
    assert!(!starts_with(b"a1b2", b"a1b2c"));
    assert!(!starts_with(b"a1b2", b"b"));
}
