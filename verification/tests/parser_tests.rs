use usbtop_ng::parser::{
    parse_hex_data, parse_usbmon_binary_packet, parse_usbmon_text_line, DecodeError, UrbType,
    UsbTimestamp,
};
use usbtop_ng::reader::{decode_binary_frames, decode_text_records};

fn clock() -> UsbTimestamp {
    UsbTimestamp { sec: 1_700_000_000, usec: 123_456 }
}

#[test]
fn test_parse_usbmon_text_line() {
    let line = "ffff88007c861a00 2389264913 S Bo:1:001:0 -115 31 = 55534243 1f000000 00000000 00000600 00000000 00000000 00000000 000000";
    let packet = parse_usbmon_text_line(line, clock()).unwrap();

    assert_eq!(packet.urb_tag, "ffff88007c861a00");
    assert_eq!(packet.urb_type, UrbType::Submission);
    assert_eq!(packet.bus_id, 1);
    assert_eq!(packet.device_id, 1);
    assert_eq!(packet.endpoint, 0);
    assert!(!packet.direction); // OUT
    assert_eq!(packet.data_length, 31);
    assert_eq!(packet.status, -115);
    assert!(packet.data.is_some());
}

#[test]
fn text_payload_bytes_are_decoded() {
    let line = "tag 1 C Ci:2:005:1 0 4 = 55534243 1f";
    let packet = parse_usbmon_text_line(line, clock()).unwrap();
    assert!(packet.direction); // IN
    assert_eq!(packet.bus_id, 2);
    assert_eq!(packet.device_id, 5);
    assert_eq!(packet.endpoint, 1);
    assert_eq!(packet.data.unwrap(), vec![0x55, 0x53, 0x42, 0x43, 0x1f]);
}

#[test]
fn text_odd_hex_group_is_dropped_silently() {
    let line = "tag 1 S Bo:1:001:0 0 4 = 555 aabb";
    let packet = parse_usbmon_text_line(line, clock()).unwrap();
    assert_eq!(packet.data.unwrap(), vec![0xaa, 0xbb]);
}

#[test]
fn text_bad_pair_inside_group_is_dropped() {
    let line = "tag 1 S Bo:1:001:0 0 4 = zz11";
    let packet = parse_usbmon_text_line(line, clock()).unwrap();
    assert_eq!(packet.data.unwrap(), vec![0x11]);
}

#[test]
fn text_without_equals_has_no_payload() {
    let line = "tag 1 S Bo:1:001:0 0 4 x yy zz";
    let packet = parse_usbmon_text_line(line, clock()).unwrap();
    assert!(packet.data.is_none());
}

#[test]
fn text_equals_with_no_groups_has_no_payload() {
    // exactly seven fields: the '=' is the seventh, nothing follows
    let line = "tag 1 S Bo:1:001:0 0 4 =";
    let packet = parse_usbmon_text_line(line, clock()).unwrap();
    assert!(packet.data.is_none());
}

#[test]
fn text_too_few_fields() {
    assert_eq!(
        parse_usbmon_text_line("a b c", clock()).unwrap_err(),
        DecodeError::TooShort
    );
}

#[test]
fn text_bad_timestamp() {
    let line = "tag notanumber S Bo:1:001:0 -115 31 x";
    assert_eq!(
        parse_usbmon_text_line(line, clock()).unwrap_err(),
        DecodeError::BadTimestamp
    );
}

#[test]
fn text_bad_event_type() {
    let line = "tag 123 X Bo:1:001:0 -115 31 x";
    assert_eq!(
        parse_usbmon_text_line(line, clock()).unwrap_err(),
        DecodeError::BadEventType
    );
}

#[test]
fn text_bad_address_wrong_arity() {
    let line = "tag 123 S Bo:1:001 -115 31 x";
    assert_eq!(
        parse_usbmon_text_line(line, clock()).unwrap_err(),
        DecodeError::BadAddress
    );
}

#[test]
fn text_bad_address_short_type_token() {
    let line = "tag 123 S B:1:001:0 -115 31 x";
    assert_eq!(
        parse_usbmon_text_line(line, clock()).unwrap_err(),
        DecodeError::BadAddress
    );
}

#[test]
fn text_bad_bus_id() {
    let line = "tag 123 S Bo:999:001:0 -115 31 x";
    assert_eq!(
        parse_usbmon_text_line(line, clock()).unwrap_err(),
        DecodeError::BadBusId
    );
}

#[test]
fn text_bad_device_id() {
    let line = "tag 123 S Bo:1:zz:0 -115 31 x";
    assert_eq!(
        parse_usbmon_text_line(line, clock()).unwrap_err(),
        DecodeError::BadDeviceId
    );
}

#[test]
fn text_bad_endpoint() {
    let line = "tag 123 S Bo:1:001:boom -115 31 x";
    assert_eq!(
        parse_usbmon_text_line(line, clock()).unwrap_err(),
        DecodeError::BadEndpoint
    );
}

#[test]
fn text_bad_status() {
    let line = "tag 123 S Bo:1:001:0 minusfive 31 x";
    assert_eq!(
        parse_usbmon_text_line(line, clock()).unwrap_err(),
        DecodeError::BadStatus
    );
}

#[test]
fn text_bad_length() {
    let line = "tag 123 S Bo:1:001:0 -115 99999999999 x";
    assert_eq!(
        parse_usbmon_text_line(line, clock()).unwrap_err(),
        DecodeError::BadLength
    );
}

#[test]
fn text_plus_signed_status_parses_as_rust_does() {
    let line = "tag 123 S Bo:1:001:0 +5 31 x";
    let packet = parse_usbmon_text_line(line, clock()).unwrap();
    assert_eq!(packet.status, 5);
}

#[test]
fn text_wall_clock_is_substituted() {
    // the record's own microsecond timestamp is parsed but not used
    let line = "tag 2389264913 S Bo:1:001:0 -115 31 x";
    let packet = parse_usbmon_text_line(line, clock()).unwrap();
    assert_eq!(packet.timestamp, clock());
}

fn sample_frame() -> Vec<u8> {
    let mut frame = vec![0u8; 64];
    frame[0] = 0xaa; // urb id, little endian
    frame[8] = b'S';
    frame[9] = 2; // transfer type, unused downstream
    frame[10] = 0x81; // endpoint 1, direction IN
    frame[11] = 3; // device id
    frame[12] = 2; // bus id low byte
    frame[13] = 0; // bus id high byte
    frame[16..24].copy_from_slice(&100u64.to_le_bytes());
    frame[24..28].copy_from_slice(&500_000u32.to_le_bytes());
    frame[28..32].copy_from_slice(&(-32i32).to_le_bytes());
    frame[32..36].copy_from_slice(&512u32.to_le_bytes());
    frame
}

#[test]
fn binary_frame_decodes_every_field() {
    let frame = sample_frame();
    let packet = parse_usbmon_binary_packet(&frame, clock()).unwrap();
    assert_eq!(packet.urb_tag, "00000000000000aa");
    assert_eq!(packet.urb_type, UrbType::Submission);
    assert_eq!(packet.endpoint, 1);
    assert!(packet.direction);
    assert_eq!(packet.device_id, 3);
    assert_eq!(packet.bus_id, 2);
    assert_eq!(packet.timestamp, UsbTimestamp { sec: 100, usec: 500_000 });
    assert_eq!(packet.status, -32);
    assert_eq!(packet.data_length, 512);
    assert!(packet.setup_packet.is_none());
    assert!(packet.data.is_none());
}

#[test]
fn binary_short_frame_is_too_short() {
    let frame = vec![0u8; 10];
    assert_eq!(
        parse_usbmon_binary_packet(&frame, clock()).unwrap_err(),
        DecodeError::TooShort
    );
    assert_eq!(
        parse_usbmon_binary_packet(&[], clock()).unwrap_err(),
        DecodeError::TooShort
    );
    // sixty-three bytes is still one short
    let frame = vec![0u8; 63];
    assert_eq!(
        parse_usbmon_binary_packet(&frame, clock()).unwrap_err(),
        DecodeError::TooShort
    );
}

#[test]
fn binary_bad_event_byte() {
    let mut frame = sample_frame();
    frame[8] = b'X';
    assert_eq!(
        parse_usbmon_binary_packet(&frame, clock()).unwrap_err(),
        DecodeError::BadEventType
    );
}

#[test]
fn binary_sixteen_bit_bus_id_is_truncated() {
    let mut frame = sample_frame();
    frame[12] = 0x07;
    frame[13] = 0x01; // bus 263 on the wire, stored as its low byte
    let packet = parse_usbmon_binary_packet(&frame, clock()).unwrap();
    assert_eq!(packet.bus_id, 7);
}

#[test]
fn binary_out_of_range_timestamp_falls_back_to_clock() {
    // nanoseconds out of the calendar library's accepted range
    let mut frame = sample_frame();
    frame[24..28].copy_from_slice(&3_000_000u32.to_le_bytes());
    let packet = parse_usbmon_binary_packet(&frame, clock()).unwrap();
    assert_eq!(packet.timestamp, clock());

    // microseconds so large the nanosecond conversion overflows
    let mut frame = sample_frame();
    frame[24..28].copy_from_slice(&5_000_000u32.to_le_bytes());
    let packet = parse_usbmon_binary_packet(&frame, clock()).unwrap();
    assert_eq!(packet.timestamp, clock());
}

#[test]
fn parse_hex_data_handles_mixed_groups() {
    let parts: Vec<&str> = vec!["5553", "4243", "bad", "ff"];
    // "bad" has odd length and is dropped whole; "ff" is one pair
    assert_eq!(parse_hex_data(&parts), vec![0x55, 0x53, 0x42, 0x43, 0xff]);
}

#[test]
fn parse_hex_data_accepts_upper_case() {
    let parts: Vec<&str> = vec!["AB", "cd"];
    assert_eq!(parse_hex_data(&parts), vec![0xab, 0xcd]);
}

#[test]
fn malformed_text_record_costs_only_itself() {
    let good_one = "aaa 1 S Bo:1:001:0 -115 31 x".to_string();
    let bad = "not even close".to_string();
    let good_two = "bbb 2 C Ci:1:001:0 0 16 x".to_string();
    let lines = vec![good_one, bad, good_two];
    let packets = decode_text_records(&lines, clock());
    assert_eq!(packets.len(), 2);
    assert_eq!(packets[0].urb_tag, "aaa");
    assert_eq!(packets[1].urb_tag, "bbb");
}

#[test]
fn malformed_binary_frame_costs_only_itself() {
    let mut stream = Vec::new();
    let mut first = sample_frame();
    first[0] = 1;
    let mut second = sample_frame();
    second[0] = 2;
    second[8] = b'X'; // malformed middle record
    let mut third = sample_frame();
    third[0] = 3;
    third[8] = b'C';
    stream.extend_from_slice(&first);
    stream.extend_from_slice(&second);
    stream.extend_from_slice(&third);
    stream.push(0xff); // trailing partial frame is ignored
    let packets = decode_binary_frames(&stream, clock());
    assert_eq!(packets.len(), 2);
    assert_eq!(packets[0].urb_tag, "0000000000000001");
    assert_eq!(packets[0].urb_type, UrbType::Submission);
    assert_eq!(packets[1].urb_tag, "0000000000000003");
    assert_eq!(packets[1].urb_type, UrbType::Callback);
}

#[test]
fn bandwidth_contribution_counts_only_data_records() {
    let line = "tag 1 E Bo:1:001:0 -71 31 x";
    let error_packet = parse_usbmon_text_line(line, clock()).unwrap();
    assert!(!error_packet.is_data_packet());
    assert_eq!(error_packet.bandwidth_bytes(), 0);

    let line = "tag 1 S Bo:1:001:0 0 0 x";
    let empty_packet = parse_usbmon_text_line(line, clock()).unwrap();
    assert!(!empty_packet.is_data_packet());
    assert_eq!(empty_packet.bandwidth_bytes(), 0);

    let line = "tag 1 C Ci:1:001:0 0 31 x";
    let data_packet = parse_usbmon_text_line(line, clock()).unwrap();
    assert!(data_packet.is_data_packet());
    assert_eq!(data_packet.bandwidth_bytes(), 31);
}
