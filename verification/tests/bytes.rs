use rksuid::bytes::{be_bytes, be_value, le_bytes, le_value, native_order, order_shown};
use rksuid::{ByteOrder, Ksuid};

fn known() -> Ksuid {
    Ksuid::new_with_timestamp_and_payload(107608047, 0xB5A1CD34B5F99D1154FB6853345C9735)
}

const KNOWN_BYTES: [u8; 20] = [
    0x06, 0x69, 0xF7, 0xEF, 0xB5, 0xA1, 0xCD, 0x34, 0xB5, 0xF9, 0x9D, 0x11, 0x54, 0xFB, 0x68, 0x53,
    0x34, 0x5C, 0x97, 0x35,
];

#[test]
fn network_bytes_are_timestamp_then_payload() {
    assert_eq!(known().get_network_bytes(), KNOWN_BYTES.to_vec());
    assert_eq!(known().payload_network_bytes(), KNOWN_BYTES[4..].to_vec());
    let one = Ksuid::new_with_timestamp_and_payload(1, 2);
    let mut want = vec![0u8; 20];
    want[3] = 1;
    want[19] = 2;
    assert_eq!(one.get_network_bytes(), want);
}

#[test]
fn network_bytes_are_read_back() {
    assert_eq!(Ksuid::from_network_bytes(KNOWN_BYTES.to_vec()), known());
    for id in [
        Ksuid::new_with_timestamp_and_payload(0, 0),
        Ksuid::new_with_timestamp_and_payload(u32::MAX, u128::MAX),
        Ksuid::new_with_timestamp_and_payload(0x01020304, 0x05060708090A0B0C0D0E0F1011121314),
    ] {
        assert_eq!(Ksuid::from_network_bytes(id.get_network_bytes()), id);
    }
}

#[test]
fn bytes_after_the_twentieth_are_not_read() {
    let mut long = KNOWN_BYTES.to_vec();
    long.extend([0xFF, 0xEE, 0xDD]);
    assert_eq!(Ksuid::from_network_bytes(long.clone()), known());
    assert_eq!(Ksuid::from_bytes_in(&long, ByteOrder::Big), known());
}

#[test]
fn native_bytes_are_those_of_the_machine() {
    let id = known();
    let mut want: Vec<u8> = id.timestamp.to_ne_bytes().to_vec();
    want.extend(id.payload.to_ne_bytes());
    assert_eq!(id.get_bytes(), want);
    assert_eq!(id.payload_bytes(), id.payload.to_ne_bytes().to_vec());
    assert_eq!(Ksuid::from_native_bytes(want), id);
}

#[test]
fn native_bytes_are_read_back() {
    for id in [
        Ksuid::new_with_timestamp_and_payload(0, 0),
        Ksuid::new_with_timestamp_and_payload(1, 2),
        known(),
        Ksuid::new_with_timestamp_and_payload(u32::MAX, u128::MAX),
    ] {
        assert_eq!(Ksuid::from_native_bytes(id.get_bytes()), id);
    }
}

#[test]
fn native_order_is_that_of_the_machine() {
    let little = 1u32.to_ne_bytes() == 1u32.to_le_bytes();
    assert_eq!(native_order() == ByteOrder::Little, little);
    assert_eq!(native_order() == ByteOrder::Big, !little);
    assert_eq!(known().get_bytes(), known().to_bytes_in(native_order()));
}

#[test]
fn first_byte_of_the_word_one_shows_the_order() {
    assert_eq!(order_shown(1u32.to_le_bytes()), ByteOrder::Little);
    assert_eq!(order_shown(1u32.to_be_bytes()), ByteOrder::Big);
    assert_eq!(order_shown([1, 0, 0, 0]), ByteOrder::Little);
    assert_eq!(order_shown([0, 0, 0, 1]), ByteOrder::Big);
    assert_eq!(order_shown(1u32.to_ne_bytes()), native_order());
}

#[test]
fn little_endian_layout_turns_each_part_around() {
    let id = known();
    let mut want: Vec<u8> = KNOWN_BYTES[..4].iter().rev().copied().collect();
    want.extend(KNOWN_BYTES[4..].iter().rev());
    assert_eq!(id.to_bytes_in(ByteOrder::Little), want);
    assert_eq!(id.to_bytes_in(ByteOrder::Big), KNOWN_BYTES.to_vec());
    assert_eq!(Ksuid::from_bytes_in(&want, ByteOrder::Little), id);
    assert_eq!(Ksuid::from_bytes_in(&KNOWN_BYTES, ByteOrder::Big), id);
}

#[test]
fn words_as_bytes() {
    assert_eq!(be_bytes(0x0102, 4), vec![0, 0, 1, 2]);
    assert_eq!(le_bytes(0x0102, 4), vec![2, 1, 0, 0]);
    assert_eq!(be_bytes(0x010203, 2), vec![2, 3]);
    assert_eq!(le_bytes(0x010203, 2), vec![3, 2]);
    assert_eq!(be_bytes(7, 0), Vec::<u8>::new());
    assert_eq!(be_bytes(u128::MAX, 16), vec![0xFF; 16]);
    assert_eq!(be_bytes(1, 18), {
        let mut v = vec![0u8; 18];
        v[17] = 1;
        v
    });
    assert_eq!(be_bytes(0x1234_5678_9ABC_DEF0, 8), 0x1234_5678_9ABC_DEF0u64.to_be_bytes().to_vec());
    assert_eq!(le_bytes(0x1234_5678_9ABC_DEF0, 8), 0x1234_5678_9ABC_DEF0u64.to_le_bytes().to_vec());
}

#[test]
fn bytes_as_words() {
    let bytes = [9u8, 1, 2, 3, 4, 9];
    assert_eq!(be_value(&bytes, 1, 5), 0x01020304);
    assert_eq!(le_value(&bytes, 1, 5), 0x04030201);
    assert_eq!(be_value(&bytes, 2, 2), 0);
    assert_eq!(le_value(&bytes, 0, 1), 9);
    assert_eq!(be_value(&[0xFF; 16], 0, 16), u128::MAX);
    assert_eq!(le_value(&[0xFF; 16], 0, 16), u128::MAX);
    let word: u128 = 0x000102030405060708090A0B0C0D0E0F;
    assert_eq!(be_value(&word.to_be_bytes(), 0, 16), word);
    assert_eq!(le_value(&word.to_le_bytes(), 0, 16), word);
}
