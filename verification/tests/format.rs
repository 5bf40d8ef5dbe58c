use rksuid::format::decimal;
use rksuid::Ksuid;

fn known() -> Ksuid {
    Ksuid::new_with_timestamp_and_payload(107608047, 0xB5A1CD34B5F99D1154FB6853345C9735)
}

#[test]
fn payload_in_hexadecimal() {
    assert_eq!(known().get_payload(), "B5A1CD34B5F99D1154FB6853345C9735");
    let id = Ksuid::new_with_timestamp_and_payload(1, u128::MAX);
    assert_eq!(id.get_payload(), "F".repeat(32));
    let id = Ksuid::new_with_timestamp_and_payload(1, 0x0123456789ABCDEF0123456789ABCDEF);
    assert_eq!(id.get_payload(), "123456789ABCDEF0123456789ABCDEF");
}

#[test]
fn payload_with_zero_bytes_on_the_left() {
    // One `0` for each zero byte, then the digits of the number.
    let id = Ksuid::new_with_timestamp_and_payload(1, 0xAB);
    assert_eq!(id.get_payload(), "000000000000000AB");
    let id = Ksuid::new_with_timestamp_and_payload(1, 0x0A00);
    assert_eq!(id.get_payload(), "00000000000000A00");
    let id = Ksuid::new_with_timestamp_and_payload(1, 0);
    assert_eq!(id.get_payload(), "0".repeat(17));
}

#[test]
fn seven_lines_of_the_known_identifier() {
    let lines = known().get_formatted_lines();
    assert_eq!(lines.len(), 7);
    assert_eq!(lines[0], "REPRESENTATION:");
    assert_eq!(lines[1], "\tString: 0ujtsYcgvSTl8PAuAdqWYSMnLOv");
    assert_eq!(lines[2], "\tRaw: 669F7EFB5A1CD34B5F99D1154FB6853");
    assert_eq!(lines[3], "COMPONENTS:");
    assert_eq!(lines[4], "\tTime: Tue, 10 Oct 2017 04:00:47 +0000");
    assert_eq!(lines[5], "\tTimestamp: 107608047");
    assert_eq!(lines[6], "\tPayload: B5A1CD34B5F99D1154FB6853345C9735");
}

#[test]
fn seven_lines_of_the_smallest_identifier() {
    let lines = Ksuid::new_with_timestamp_and_payload(0, 0).get_formatted_lines();
    assert_eq!(lines[1], "\tString: 000000000000000000000000000");
    assert_eq!(lines[2], "\tRaw: 00000000000000000");
    assert_eq!(lines[4], "\tTime: Tue, 13 May 2014 16:53:20 +0000");
    assert_eq!(lines[5], "\tTimestamp: 0");
    assert_eq!(lines[6], "\tPayload: 00000000000000000");
}

#[test]
fn time_of_the_largest_timestamp() {
    let lines = Ksuid::new_with_timestamp_and_payload(u32::MAX, 1).get_formatted_lines();
    assert_eq!(lines[4], "\tTime: Fri, 19 Jun 2150 23:21:35 +0000");
    assert_eq!(lines[5], "\tTimestamp: 4294967295");
}

#[test]
fn lines_with_a_given_time() {
    let lines = known().formatted_lines_with("some day");
    assert_eq!(lines[0], "REPRESENTATION:");
    assert_eq!(lines[1], "\tString: 0ujtsYcgvSTl8PAuAdqWYSMnLOv");
    assert_eq!(lines[2], "\tRaw: 669F7EFB5A1CD34B5F99D1154FB6853");
    assert_eq!(lines[3], "COMPONENTS:");
    assert_eq!(lines[4], "\tTime: some day");
    assert_eq!(lines[5], "\tTimestamp: 107608047");
    assert_eq!(lines[6], "\tPayload: B5A1CD34B5F99D1154FB6853345C9735");
    assert_eq!(known().formatted_lines_with("")[4], "\tTime: ");
}

#[test]
fn formatted_text_ends_each_line_with_a_line_feed() {
    let text = known().get_formatted();
    assert_eq!(
        text,
        "REPRESENTATION:\n\tString: 0ujtsYcgvSTl8PAuAdqWYSMnLOv\n\tRaw: 669F7EFB5A1CD34B5F99D1154FB6853\nCOMPONENTS:\n\tTime: Tue, 10 Oct 2017 04:00:47 +0000\n\tTimestamp: 107608047\n\tPayload: B5A1CD34B5F99D1154FB6853345C9735\n"
    );
    let lines: Vec<&str> = text.lines().collect();
    assert_eq!(lines.len(), 7);
    assert_eq!(lines[5], "\tTimestamp: 107608047");
    let mut joined = String::new();
    for line in known().get_formatted_lines().iter() {
        joined.push_str(line);
        joined.push('\n');
    }
    assert_eq!(text, joined);
    assert_eq!(
        known().formatted_with("now"),
        "REPRESENTATION:\n\tString: 0ujtsYcgvSTl8PAuAdqWYSMnLOv\n\tRaw: 669F7EFB5A1CD34B5F99D1154FB6853\nCOMPONENTS:\n\tTime: now\n\tTimestamp: 107608047\n\tPayload: B5A1CD34B5F99D1154FB6853345C9735\n"
    );
}

#[test]
fn numbers_in_decimal() {
    assert_eq!(decimal(0), "0");
    assert_eq!(decimal(7), "7");
    assert_eq!(decimal(10), "10");
    assert_eq!(decimal(107608047), "107608047");
    assert_eq!(decimal(4294967295), "4294967295");
    for n in [1u32, 9, 99, 100, 1000, 65535, 1_000_000_007] {
        assert_eq!(decimal(n), n.to_string());
    }
}
