use chrono::{DateTime, TimeZone, Utc};
use rksuid::Ksuid;

#[test]
fn test_get_time() {
    // Friday, July 14, 2017 2:40:00 AM
    let timestamp: DateTime<Utc> = Utc.timestamp_opt(1500000000, 0).unwrap();
    let epoch = Utc.timestamp_opt(rksuid::gen_epoch().seconds, 0).unwrap();
    let epoch_offset = timestamp.signed_duration_since(epoch).num_seconds();
    // Sanity check the expected timestamp for the ksuid
    assert_eq!(100000000, epoch_offset);
    let ksuid = Ksuid::new_with_timestamp(epoch_offset as u32);
    let ksuid_time = Utc.timestamp_opt(ksuid.get_time().seconds, 0).unwrap();
    assert_eq!(timestamp, ksuid_time);
}
