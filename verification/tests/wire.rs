use muvor::uictl::client::CLIENT_NAME;
use muvor::uictl::validate::{validate_frame, ConnState};
use muvor::uictl::wire::{
    valid_client_name, BatchItem, Button, EncodeError, Header, HelloResponse, Op, Request,
    ResultCode, SourceTag, HEADER_LEN, MAX_PAYLOAD,
};

const HOTKEY: SourceTag = SourceTag(SourceTag::HOTKEY);

#[test]
fn encoder_never_emits_a_frame_the_validator_rejects() {
    let mut buf = vec![0u8; HEADER_LEN + MAX_PAYLOAD];
    let st = ConnState { pinned_version: Some(1) };
    let cases: Vec<Request> = vec![
        Request::Ping,
        Request::Hello { proto_min: 1, proto_max: 1, client_name: CLIENT_NAME },
        Request::MoveAbs { x: 0, y: 0 },
        Request::MoveAbs { x: 32767, y: 32767 },
        Request::MoveAbs { x: -1, y: 99999 },
        Request::MoveRel { dx: -5, dy: 3 },
        Request::Scroll { notches_v: -1000, notches_h: 1000 },
        Request::Button { code: Button::Left, down: true },
        Request::Button { code: Button::Extra, down: false },
    ];
    for req in &cases {
        let n = req.encode_into(&mut buf, HOTKEY, 7).unwrap();
        validate_frame(&buf[..n], st)
            .unwrap_or_else(|e| panic!("{:?} produced a frame refused with {}", req.opcode(), e.0));
    }

    let items = [
        BatchItem::MoveAbs { x: 100, y: 200 },
        BatchItem::Button { code: Button::Left, down: true },
        BatchItem::Button { code: Button::Left, down: false },
    ];
    let n = Request::Batch(&items).encode_into(&mut buf, HOTKEY, 8).unwrap();
    validate_frame(&buf[..n], st).expect("hint-jump batch refused");
}

#[test]
fn validator_actually_rejects() {
    let st = ConnState { pinned_version: Some(1) };
    let mut buf = vec![0u8; 128];
    let n = Request::Button { code: Button::Left, down: true }
        .encode_into(&mut buf, HOTKEY, 1)
        .unwrap();

    let mut bad = buf[..n].to_vec();
    bad[HEADER_LEN + 3] = 1;
    assert_eq!(validate_frame(&bad, st), Err(ResultCode(ResultCode::ERR_PAYLOAD_INVALID)));

    let mut bad = buf[..n].to_vec();
    bad[HEADER_LEN + 1] = 0x00;
    assert_eq!(u16::from_le_bytes([bad[HEADER_LEN], bad[HEADER_LEN + 1]]), 16);
    assert_eq!(validate_frame(&bad, st), Err(ResultCode(ResultCode::ERR_PAYLOAD_INVALID)));

    let mut bad = buf[..n].to_vec();
    bad[12..16].copy_from_slice(&(MAX_PAYLOAD as u32 + 1).to_le_bytes());
    assert_eq!(validate_frame(&bad, st), Err(ResultCode(ResultCode::ERR_TOO_LARGE)));

    let mut bad = buf[..n].to_vec();
    bad[0..2].copy_from_slice(&9u16.to_le_bytes());
    assert_eq!(validate_frame(&bad, st), Err(ResultCode(ResultCode::ERR_VERSION_UNSUPPORTED)));
}

#[test]
fn encoder_refuses_what_the_daemon_would() {
    let mut buf = vec![0u8; 512];
    let mut e = |r: Request| r.encode_into(&mut buf, HOTKEY, 1).unwrap_err();

    assert_eq!(e(Request::MoveRel { dx: 0, dy: 0 }), EncodeError::ZeroDelta);
    assert_eq!(e(Request::Scroll { notches_v: 0, notches_h: 0 }), EncodeError::ZeroDelta);
    assert_eq!(e(Request::Scroll { notches_v: 1001, notches_h: 0 }), EncodeError::ScrollRange);
    assert_eq!(e(Request::Batch(&[])), EncodeError::BatchSize);
    let too_many = [BatchItem::MoveRel { dx: 1, dy: 1 }; 17];
    assert_eq!(e(Request::Batch(&too_many)), EncodeError::BatchSize);
    assert_eq!(
        e(Request::Hello { proto_min: 1, proto_max: 1, client_name: "" }),
        EncodeError::BadClientName
    );
    assert_eq!(
        e(Request::Hello { proto_min: 1, proto_max: 1, client_name: "has space" }),
        EncodeError::BadClientName
    );
}

#[test]
fn a_negative_delta_is_two_complement_little_endian() {
    let mut buf = vec![0u8; 64];
    let n = Request::MoveRel { dx: -5, dy: 3 }.encode_into(&mut buf, SourceTag(1), 0x0102).unwrap();
    assert_eq!(n, HEADER_LEN + 8);
    assert_eq!(&buf[..2], &[1, 0], "version");
    assert_eq!(&buf[2..4], &Op::MoveRel.to_u16().to_le_bytes());
    assert_eq!(&buf[4..8], &[1, 0, 0, 0], "tag");
    assert_eq!(&buf[8..12], &[2, 1, 0, 0], "number");
    assert_eq!(&buf[12..16], &[8, 0, 0, 0], "length");
    assert_eq!(&buf[16..24], &[0xfb, 0xff, 0xff, 0xff, 3, 0, 0, 0]);
}

#[test]
fn a_header_reads_back() {
    let h = Header { version: 1, opcode: 11, source_tag: 2, seq: 77, payload_len: 4 };
    let mut buf = [0u8; HEADER_LEN];
    h.encode_into(&mut buf);
    assert_eq!(Header::decode(&buf), Some(h));
    assert_eq!(Header::decode(&buf[..15]), None);
}

#[test]
fn a_buffer_too_small_is_refused_and_left_alone() {
    for n in [0usize, 15, 23] {
        let mut buf = vec![7u8; n];
        let r = Request::MoveAbs { x: 1, y: 2 }.encode_into(&mut buf, HOTKEY, 1);
        assert_eq!(r, Err(EncodeError::BufferTooSmall), "{n}");
        assert!(buf.iter().all(|&b| b == 7));
    }
    let mut buf = vec![7u8; 15];
    assert_eq!(Request::Ping.encode_into(&mut buf, HOTKEY, 1), Err(EncodeError::BufferTooSmall));
}

#[test]
fn the_longest_scroll_backwards_is_out_of_range() {
    let mut buf = vec![0u8; 64];
    let r = Request::Scroll { notches_v: i32::MIN, notches_h: 0 }.encode_into(&mut buf, HOTKEY, 1);
    assert_eq!(r, Err(EncodeError::ScrollRange));
}

#[test]
fn operations_have_the_numbers_they_are_sent_under() {
    for v in 0..64u16 {
        if let Some(op) = Op::from_u16(v) {
            assert_eq!(op.to_u16(), v, "{op:?}");
        }
    }
    assert_eq!(Op::from_u16(999), None);
    assert_eq!(Button::Left.code(), 272);
    assert_eq!(Button::Extra.code(), 276);
}

#[test]
fn a_client_name_is_short_and_graphic() {
    assert!(valid_client_name("muvor"));
    assert!(!valid_client_name(""));
    assert!(!valid_client_name("has space"));
    assert!(!valid_client_name("na\u{ef}ve"));
    assert!(valid_client_name(&"x".repeat(31)));
    assert!(!valid_client_name(&"x".repeat(32)));
}

#[test]
fn a_greeting_is_read_from_its_floor_and_its_tail_ignored() {
    let mut body = vec![0u8; 40];
    body[0] = 1;
    body[4..8].copy_from_slice(&32767u32.to_le_bytes());
    let h = HelloResponse::decode(&body[..HelloResponse::MIN_LEN]).expect("24 bytes are enough");
    assert!(HelloResponse::decode(&body[..HelloResponse::MIN_LEN - 1]).is_none());
    assert_eq!(h.proto_selected, 1);
}

#[test]
fn before_the_handshake_any_version_is_taken() {
    let st = ConnState { pinned_version: None };
    let mut buf = vec![0u8; 256];
    let n = Request::Ping.encode_into(&mut buf, HOTKEY, 1).unwrap();
    buf[0..2].copy_from_slice(&9u16.to_le_bytes());
    assert_eq!(validate_frame(&buf[..n], st), Ok(()));
    assert_eq!(
        validate_frame(&buf[..n], ConnState { pinned_version: Some(1) }),
        Err(ResultCode(ResultCode::ERR_VERSION_UNSUPPORTED))
    );
}

#[test]
fn an_unknown_operation_and_a_short_frame_are_refused() {
    let st = ConnState { pinned_version: Some(1) };
    let mut buf = vec![0u8; 64];
    let n = Request::Ping.encode_into(&mut buf, HOTKEY, 1).unwrap();
    assert_eq!(
        validate_frame(&buf[..n - 1], st),
        Err(ResultCode(ResultCode::ERR_PAYLOAD_INVALID))
    );
    buf[2..4].copy_from_slice(&999u16.to_le_bytes());
    assert_eq!(validate_frame(&buf[..n], st), Err(ResultCode(ResultCode::ERR_OPCODE_UNKNOWN)));
}
