use rksuid::Ksuid;
use std::cmp::Ordering;

#[test]
fn timestamp_decides_first() {
    let early = Ksuid::new_with_timestamp_and_payload(1, u128::MAX);
    let late = Ksuid::new_with_timestamp_and_payload(2, 0);
    assert!(early < late);
    assert!(late > early);
    assert!(early <= late);
    assert!(early != late);
    assert_eq!(early.partial_cmp(&late), Some(Ordering::Less));
    assert_eq!(late.partial_cmp(&early), Some(Ordering::Greater));
    assert_eq!(early.cmp(&late), Ordering::Less);
}

#[test]
fn payload_decides_within_one_timestamp() {
    let low = Ksuid::new_with_timestamp_and_payload(5, 10);
    let high = Ksuid::new_with_timestamp_and_payload(5, 11);
    assert!(low < high);
    assert!(!(high < low));
    assert_eq!(low.partial_cmp(&high), Some(Ordering::Less));
    assert_eq!(high.cmp(&low), Ordering::Greater);
}

#[test]
fn equal_parts_are_equal_identifiers() {
    let a = Ksuid::new_with_timestamp_and_payload(5, 10);
    let b = Ksuid::new_with_timestamp_and_payload(5, 10);
    assert_eq!(a, b);
    assert!(!(a < b) && !(b < a));
    assert_eq!(a.partial_cmp(&b), Some(Ordering::Equal));
    assert_eq!(a.cmp(&b), Ordering::Equal);
}

#[test]
fn order_is_transitive_on_chosen_identifiers() {
    let ids = [
        Ksuid::new_with_timestamp_and_payload(0, 0),
        Ksuid::new_with_timestamp_and_payload(0, 1),
        Ksuid::new_with_timestamp_and_payload(0, u128::MAX),
        Ksuid::new_with_timestamp_and_payload(1, 0),
        Ksuid::new_with_timestamp_and_payload(u32::MAX, u128::MAX),
    ];
    for a in &ids {
        for b in &ids {
            for c in &ids {
                if a < b && b < c {
                    assert!(a < c);
                }
            }
            assert_eq!(a.partial_cmp(b), Some(a.cmp(b)));
        }
    }
}
