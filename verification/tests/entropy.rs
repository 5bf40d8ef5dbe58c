use rksuid::{gen_payload, Ksuid, RngType};

#[test]
fn payloads_differ_from_draw_to_draw() {
    let first = gen_payload(None);
    let second = gen_payload(None);
    let third = gen_payload(Some(RngType::PCG64FAST));
    assert_ne!(first, second);
    assert_ne!(second, third);
}

#[test]
fn identifiers_of_one_timestamp_differ() {
    let a = Ksuid::new_with_timestamp(85);
    let b = Ksuid::new_with_timestamp(85);
    assert_eq!(a.timestamp, b.timestamp);
    assert_ne!(a.payload, b.payload);
    assert_ne!(a, b);
}
