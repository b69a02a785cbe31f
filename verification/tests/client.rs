use muvor::uictl::client::{Client, Error, Gesture, Next, Outgoing, Stage};
use muvor::uictl::socket::{parse_number, runtime_dir, uid_in_status};
use muvor::uictl::wire::{
    BatchItem, Button, EncodeError, Header, Op, Request, ResultCode, SourceTag, HEADER_LEN,
    MAX_PAYLOAD,
};

fn buf() -> Vec<u8> {
    vec![0u8; HEADER_LEN + MAX_PAYLOAD]
}

fn hello(bitmap: u64, reserved: u8) -> Vec<u8> {
    let mut body = vec![0u8; 24];
    body[0] = 1;
    body[4..8].copy_from_slice(&32767u32.to_le_bytes());
    body[8..16].copy_from_slice(&bitmap.to_le_bytes());
    body[20] = reserved;
    body
}

#[test]
fn every_request_takes_a_number() {
    let mut c = Client::new();
    let mut b = buf();
    let (n, pending) = c.send(Client::greeting(), &mut b).unwrap();
    assert_eq!((pending.op, pending.seq), (Op::Hello, 1));
    assert_eq!(Header::decode(&b[..n]).unwrap().seq, 1);
    assert!(c.send(Request::MoveRel { dx: 0, dy: 0 }, &mut b).is_err());
    let (_, pending) = c.send(Request::Ping, &mut b).unwrap();
    assert_eq!(pending.seq, 3, "one that cannot be framed takes one too");
    c.seq = u32::MAX;
    c.send(Request::Ping, &mut b).unwrap();
    assert_eq!(c.seq, 0);
}

#[test]
fn a_reply_echoes_its_request() {
    let mut c = Client::new();
    c.set_source_tag(SourceTag(SourceTag::CLI));
    let mut b = buf();
    let (_, pending) = c.send(Request::Ping, &mut b).unwrap();
    let reply = |version, opcode, seq, source_tag, payload_len| {
        let mut h = [0u8; HEADER_LEN];
        Header { version, opcode, source_tag, seq, payload_len }.encode_into(&mut h);
        h
    };
    let head = |opcode, seq, source_tag, payload_len| reply(1, opcode, seq, source_tag, payload_len);
    let op = Op::Ping.to_u16();
    assert_eq!(pending.payload_len(&head(op, 1, SourceTag::CLI, 6)).unwrap(), 6);
    for bad in [
        head(op + 1, 1, SourceTag::CLI, 6),
        head(op, 2, SourceTag::CLI, 6),
        head(op, 1, SourceTag::HOTKEY, 6),
        head(op, 1, SourceTag::CLI, 1),
        head(op, 1, SourceTag::CLI, MAX_PAYLOAD as u32 + 1),
        reply(2, op, 1, SourceTag::CLI, 6),
        reply(0, op, 1, SourceTag::CLI, 6),
    ] {
        assert!(matches!(pending.payload_len(&bad), Err(Error::Mismatched)));
    }
    assert_eq!(pending.reply(&[0, 0, 7, 8]).unwrap(), vec![7, 8]);
    match pending.reply(&[5, 0]) {
        Err(Error::Refused { op, result }) => {
            assert_eq!((op, result), (Op::Ping, ResultCode(5)));
        }
        other => panic!("{other:?}"),
    }
}

#[test]
fn a_handshake_is_gated_on_what_the_broker_implements() {
    let bit = |op: Op| 1u64 << op.to_u16();
    let all = bit(Op::MoveAbs) | bit(Op::Button) | bit(Op::Batch);
    let mut c = Client::new();
    assert!(matches!(c.handshake(&[0; 23]), Err(Error::ShortHello)));
    assert!(matches!(c.handshake(&hello(all, 1)), Err(Error::ReservedNonZero)));
    for op in [Op::MoveAbs, Op::Button, Op::Batch] {
        match c.handshake(&hello(all & !bit(op), 0)) {
            Err(Error::Unsupported(missing)) => assert_eq!(missing, op),
            other => panic!("{other:?}"),
        }
    }
    assert!(c.handshake(&hello(all, 0)).is_ok());
    assert_eq!(c.abs_range_max(), 32767);
    assert_eq!(c.hello().proto_selected, 1);
}

fn refused(code: u16) -> Result<(), Error> {
    Err(Error::Refused { op: Op::Button, result: ResultCode(code) })
}

#[test]
fn a_stale_hold_is_let_go_of_and_the_press_sent_again() {
    let g = Gesture::Press(Button::Left);
    let press = Outgoing::Button { code: Button::Left, down: true };
    let release = Outgoing::Button { code: Button::Left, down: false };
    assert_eq!(g.start(), press);
    match g.next(Stage::First, refused(ResultCode::ERR_KEY_ALREADY_HELD)) {
        Next::Send(stage, out) => assert_eq!((stage, out), (Stage::LettingGo, release)),
        other => panic!("{other:?}"),
    }
    for reply in [Ok(()), refused(ResultCode::ERR_KEY_NOT_HELD)] {
        match g.next(Stage::LettingGo, reply) {
            Next::Send(stage, out) => assert_eq!((stage, out), (Stage::Again, press)),
            other => panic!("{other:?}"),
        }
    }
    assert!(matches!(
        g.next(Stage::Again, refused(ResultCode::ERR_KEY_ALREADY_HELD)),
        Next::Done(Err(Error::Refused { .. }))
    ));
    assert!(matches!(
        g.next(Stage::LettingGo, refused(ResultCode::ERR_RATE_LIMITED)),
        Next::Done(Err(_))
    ));
}

#[test]
fn letting_go_of_nothing_is_success() {
    let g = Gesture::Release(Button::Right);
    assert!(matches!(
        g.next(Stage::First, refused(ResultCode::ERR_KEY_NOT_HELD)),
        Next::Done(Ok(()))
    ));
    assert!(matches!(g.next(Stage::First, Err(Error::Mismatched)), Next::Done(Err(_))));
}

#[test]
fn a_hint_jump_is_one_batch() {
    let g = Gesture::ClickAt { x: 3, y: 4, code: Button::Left };
    assert_eq!(
        g.start(),
        Outgoing::Batch(
            BatchItem::MoveAbs { x: 3, y: 4 },
            BatchItem::Button { code: Button::Left, down: true },
            BatchItem::Button { code: Button::Left, down: false },
        )
    );
}

#[test]
fn a_refusal_by_policy_names_the_fix() {
    let e = Error::Refused { op: Op::Batch, result: ResultCode(ResultCode::ERR_DENIED_BY_POLICY) };
    let text = e.describe();
    assert!(text.starts_with("uictl refused Batch: result "), "{text}");
    assert!(text.ends_with("to ~/.config/uictl/clients"), "{text}");
    assert_eq!(
        Error::from(EncodeError::ZeroDelta).describe(),
        "cannot encode request: ZeroDelta"
    );
    assert_eq!(Error::Io("broken pipe".into()).describe(), "uictl socket: broken pipe");
    assert_eq!(Error::Unsupported(Op::Scroll).describe(), "daemon does not implement Scroll");
}

#[test]
fn the_user_is_read_from_the_process_status() {
    assert_eq!(uid_in_status("Name:\tmuvor\nUid:\t1001\t1001\t1001\t1001\nGid:\t5\n"), 1001);
    assert_eq!(uid_in_status("Uid: +7"), 7);
    assert_eq!(uid_in_status("xUid:\t3\n"), 1000);
    assert_eq!(uid_in_status("Uid:\n5\n"), 1000);
    assert_eq!(uid_in_status("Uid:\tnobody\nUid:\t5\n"), 1000, "the first line decides");
    assert_eq!(uid_in_status("Uid:\t4294967296\n"), 1000);
    assert_eq!(uid_in_status(""), 1000);
    assert_eq!(parse_number(&['4', '2']), Some(42));
    assert_eq!(parse_number(&['+']), None);
    assert_eq!(parse_number(&['-', '1']), None);
    assert_eq!(runtime_dir(1000), "/run/user/1000");
}
