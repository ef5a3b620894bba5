use vtk::client::{disable_request, disconnects_after, idle_request, parse_response, show_qr_request, DeviceOp, RESPONSE_TIMEOUT_MS};
use vtk::error::LinkError;
use vtk::frame::{decode_frame, encode_frame, MAGIC_HI, MAGIC_LO};
use vtk::link::{Link, LinkState, RECEIVE_BUFFER_LEN, WRITE_TIMEOUT_MS};
use vtk::tlv::{Tlv, TlvKey};

fn entry_count(t: &Tlv) -> usize {
    t.data().len()
}

#[test]
fn single_entry_round_trip() {
    let mut t = Tlv::new();
    t.set_bin(TlvKey::ProductId, &[0xDE, 0xAD, 0xBE, 0xEF]);
    let bytes = t.serialize();
    assert_eq!(bytes, vec![0x09, 0x04, 0xDE, 0xAD, 0xBE, 0xEF]);
    let back = Tlv::deserialize(&bytes);
    assert_eq!(entry_count(&back), 1);
    assert_eq!(back.get_bin(TlvKey::ProductId).unwrap(), &vec![0xDE, 0xAD, 0xBE, 0xEF]);
}

#[test]
fn multi_entry_round_trip_is_set_equal() {
    let mut a = Tlv::new();
    a.set_str(TlvKey::MsgName, "IDL");
    a.set_bin(TlvKey::EventNum, &[7]);
    a.set_str(TlvKey::ProductName, "coffee");

    let mut b = Tlv::new();
    b.set_str(TlvKey::ProductName, "coffee");
    b.set_bin(TlvKey::EventNum, &[7]);
    b.set_str(TlvKey::MsgName, "IDL");

    // The two encodings differ in byte order but decode to the same set.
    let da = Tlv::deserialize(&a.serialize());
    let db = Tlv::deserialize(&b.serialize());
    for t in [&da, &db] {
        assert_eq!(entry_count(t), 3);
        assert_eq!(t.get_bin(TlvKey::MsgName).unwrap(), b"IDL");
        assert_eq!(t.get_bin(TlvKey::EventNum).unwrap(), &vec![7]);
        assert_eq!(t.get_bin(TlvKey::ProductName).unwrap(), b"coffee");
    }
}

#[test]
fn decode_never_fails_on_arbitrary_bytes() {
    // None of these are well-formed encodings; all must decode quietly.
    let junk: [&[u8]; 6] = [
        &[],
        &[0xFF],
        &[0x01],
        &[0x01, 0x05, 0x41],
        &[0x00, 0xFF, 0x00],
        &[0x14, 0x02, 0x01],
    ];
    for bytes in junk {
        let _ = Tlv::deserialize(&bytes.to_vec());
    }
}

#[test]
fn truncated_prefix_decodes_to_subset() {
    let mut t = Tlv::new();
    t.set_bin(TlvKey::OperationNum, &[1, 2]);
    t.set_bin(TlvKey::EventName, &[3]);
    let bytes = t.serialize();
    for n in 0..bytes.len() + 1 {
        let part = Tlv::deserialize(&bytes[..n].to_vec());
        // Every decoded record matches the full set, uncorrupted.
        for e in part.data() {
            assert_eq!(Some(&e.value), t.get_bin(e.key));
        }
    }
}

#[test]
fn unknown_tag_skipped_but_offset_kept() {
    // 0x02 is not a key; the decoder must still recover the record after it.
    let bytes = vec![0x02, 0x03, 0xAA, 0xBB, 0xCC, 0x0A, 0x02, 0x58, 0x59];
    let t = Tlv::deserialize(&bytes);
    assert_eq!(entry_count(&t), 1);
    assert_eq!(t.get_bin(TlvKey::QrCodeData).unwrap(), &vec![0x58, 0x59]);
}

#[test]
fn later_record_overwrites_earlier() {
    let bytes = vec![0x01, 0x01, 0x41, 0x01, 0x01, 0x42];
    let t = Tlv::deserialize(&bytes);
    assert_eq!(entry_count(&t), 1);
    assert_eq!(t.get_bin(TlvKey::MsgName).unwrap(), &vec![0x42]);
}

#[test]
fn set_twice_keeps_last_value() {
    let mut t = Tlv::new();
    t.set_bin(TlvKey::SysInfo, &[1]);
    t.set_bin(TlvKey::SysInfo, &[2, 3]);
    assert_eq!(entry_count(&t), 1);
    assert_eq!(t.get_bin(TlvKey::SysInfo).unwrap(), &vec![2, 3]);
    assert_eq!(t.get_bin(TlvKey::LocalTime), None);
}

#[test]
fn connect_twice_same_as_once() {
    let mut l = Link::new();
    assert!(!l.is_connected());
    assert!(l.needs_open());
    l.opened();
    assert!(l.is_connected());
    let once = l.is_connected();
    assert!(!l.needs_open());
    l.opened();
    assert_eq!(l.is_connected(), once);
}

#[test]
fn disconnect_twice_same_as_once() {
    let mut l = Link::new();
    l.opened();
    l.disconnect();
    assert!(!l.is_connected());
    l.disconnect();
    assert!(!l.is_connected());
    l.open_failed();
    assert!(!l.is_connected());
}

#[test]
fn example_idle_qr_payload_and_frame() {
    let mut t = Tlv::new();
    t.set_str(TlvKey::MsgName, "IDL");
    t.set_str(TlvKey::QrCodeData, "abc");
    let payload = t.serialize();
    assert_eq!(payload.len(), 10);
    assert_eq!(
        payload,
        vec![0x01, 0x03, b'I', b'D', b'L', 0x0A, 0x03, b'a', b'b', b'c']
    );
    let frame = encode_frame(&payload);
    assert_eq!(frame.len(), 14);
    assert_eq!(&frame[..4], &[0x00, 12, 0x96, 0xFB]);
    assert_eq!(&frame[4..], &payload[..]);
}

#[test]
fn idle_request_frame_is_byte_exact() {
    // The send-level frame for {MsgName:"IDL", QrCodeData:"abc"}: 14 bytes,
    // BE16(12) ++ magic ++ the two records in either order.
    let mut extra = Tlv::new();
    extra.set_str(TlvKey::QrCodeData, "abc");
    let frame = idle_request(Some(extra));
    assert_eq!(frame.len(), 14);
    assert_eq!(&frame[..4], &[0x00, 0x0C, 0x96, 0xFB]);
    let qr_first = [0x0A, 0x03, b'a', b'b', b'c', 0x01, 0x03, b'I', b'D', b'L'];
    let name_first = [0x01, 0x03, b'I', b'D', b'L', 0x0A, 0x03, b'a', b'b', b'c'];
    assert!(frame[4..] == qr_first || frame[4..] == name_first);
}

#[test]
fn frame_magic_constants() {
    let frame = encode_frame(&Vec::new());
    assert_eq!(frame, vec![0x00, 0x02, MAGIC_HI, MAGIC_LO]);
}

#[test]
fn decode_frame_strips_head() {
    let received = vec![0x00, 0x07, 0x96, 0xFB, 0x01, 0x03, b'I', b'D', b'L'];
    let payload = decode_frame(&received).unwrap();
    assert_eq!(payload, vec![0x01, 0x03, b'I', b'D', b'L']);
}

#[test]
fn eight_bytes_is_short_frame() {
    let received = vec![0x00, 0x06, 0x96, 0xFB, 0x01, 0x02, b'I', b'D'];
    assert_eq!(received.len(), 8);
    match parse_response(&received) {
        Err(LinkError::ShortFrame) => {}
        _ => panic!("expected a short-frame error"),
    }
    assert_eq!(decode_frame(&received), Err(LinkError::ShortFrame));
}

#[test]
fn nine_bytes_is_parsed() {
    let received = vec![0x00, 0x07, 0x96, 0xFB, 0x01, 0x03, b'I', b'D', b'L'];
    let t = parse_response(&received).unwrap();
    assert_eq!(t.get_bin(TlvKey::MsgName).unwrap(), b"IDL");
}

#[test]
fn show_qr_frame_carries_name_and_data() {
    let frame = show_qr_request("X");
    let sent = Tlv::deserialize(&frame[4..].to_vec());
    assert_eq!(sent.get_bin(TlvKey::MsgName).unwrap(), b"IDL");
    assert_eq!(sent.get_bin(TlvKey::QrCodeData).unwrap(), b"X");
}

#[test]
fn idle_request_merges_extras() {
    let mut extra = Tlv::new();
    extra.set_bin(TlvKey::DisplayTimeInMs, &[0x10, 0x00]);
    let frame = idle_request(Some(extra));
    let sent = Tlv::deserialize(&frame[4..].to_vec());
    assert_eq!(sent.get_bin(TlvKey::MsgName).unwrap(), b"IDL");
    assert_eq!(sent.get_bin(TlvKey::DisplayTimeInMs).unwrap(), &vec![0x10, 0x00]);

    let bare = idle_request(None);
    let sent = Tlv::deserialize(&bare[4..].to_vec());
    assert_eq!(entry_count(&sent), 1);
    assert_eq!(sent.get_bin(TlvKey::MsgName).unwrap(), b"IDL");
}

#[test]
fn disable_request_sends_dis_alone() {
    let frame = disable_request();
    let sent = Tlv::deserialize(&frame[4..].to_vec());
    assert_eq!(entry_count(&sent), 1);
    assert_eq!(sent.get_bin(TlvKey::MsgName).unwrap(), b"DIS");
}

#[test]
fn key_codes_round_trip() {
    let keys = [
        (TlvKey::MsgName, 0x01),
        (TlvKey::OperationNum, 0x03),
        (TlvKey::AmountInMinorCurrencyUnit, 0x04),
        (TlvKey::KeepaliveIntervalInSecs, 0x05),
        (TlvKey::OperationTimeoutInSecs, 0x06),
        (TlvKey::EventName, 0x07),
        (TlvKey::EventNum, 0x08),
        (TlvKey::ProductId, 0x09),
        (TlvKey::QrCodeData, 0x0A),
        (TlvKey::TcpIpDestination, 0x0B),
        (TlvKey::OutgoingByteCounter, 0x0C),
        (TlvKey::SimpleDataBlock, 0x0D),
        (TlvKey::ConfirmableDataBlock, 0x0E),
        (TlvKey::ProductName, 0x0F),
        (TlvKey::PosManagementData, 0x10),
        (TlvKey::LocalTime, 0x11),
        (TlvKey::SysInfo, 0x12),
        (TlvKey::BankingReceipt, 0x13),
        (TlvKey::DisplayTimeInMs, 0x14),
    ];
    for (k, b) in keys {
        assert_eq!(k.code(), b);
        assert_eq!(TlvKey::from_code(b), Some(k));
    }
    for b in [0x00, 0x02, 0x15, 0x80, 0xFF] {
        assert_eq!(TlvKey::from_code(b), None);
    }
}

#[test]
fn operation_policies() {
    assert!(disconnects_after(DeviceOp::Idle));
    assert!(!disconnects_after(DeviceOp::Disable));
    assert_eq!(RESPONSE_TIMEOUT_MS, 2000);
    assert_eq!(WRITE_TIMEOUT_MS, 250);
    assert_eq!(RECEIVE_BUFFER_LEN, 512);
    assert_eq!(LinkState::Disconnected, LinkState::Disconnected);
}

#[test]
fn error_descriptions() {
    assert_eq!(LinkError::Connect.describe(), "connection failed");
    assert_eq!(LinkError::IoTimeout.describe(), "i/o timed out");
    assert_eq!(LinkError::ShortFrame.describe(), "too few bytes received");
}
