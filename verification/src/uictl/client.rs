//! The client's side of the conversation with the broker.
//!
//! Everything but the socket: which bytes go out, whether a reply answers its
//! request, what it says, and what to do about a refusal. The application
//! writes the bytes and reads the replies.
use vstd::prelude::*;
use vstd::string::*;

use crate::text;
use crate::uictl::validate;
use crate::uictl::wire;
use crate::uictl::wire::{
    BatchItem, Button, EncodeError, Header, HelloResponse, Op, Request, ResultCode, SourceTag,
    MAX_PAYLOAD, PROTO_VERSION,
};

verus! {

/// The name claimed at the handshake, and the name that must be granted the
/// `interactive` class. A label, not a credential.
pub const CLIENT_NAME: &'static str = "muvor";

/// What can go wrong between client and broker.
#[derive(Debug)]
pub enum Error {
    /// The socket failed, in the system's own words.
    Io(String),
    Encode(EncodeError),
    /// The broker answered, and refused.
    Refused { op: Op, result: ResultCode },
    /// A reply whose header did not match the request it claims to answer.
    /// A response is the request's header echoed.
    Mismatched,
    /// A HELLO response shorter than the 24-byte floor.
    ShortHello,
    /// `reserved` was non-zero. It is kept as an explicit canary against
    /// uninitialised tail padding reaching the wire; if it ever trips, the
    /// broker is leaking process memory and this is not a warning.
    ReservedNonZero,
    /// The broker does not implement an opcode that is required.
    Unsupported(Op),
}

impl From<EncodeError> for Error {
    fn from(e: EncodeError) -> (r: Self) {
        Error::Encode(e)
    }
}

impl vstd::std_specs::convert::FromSpecImpl<EncodeError> for Error {
    open spec fn obeys_from_spec() -> bool {
        true
    }

    open spec fn from_spec(e: EncodeError) -> Self {
        Error::Encode(e)
    }
}

impl Op {
    /// What the operation is called.
    pub open spec fn called(self) -> Seq<char> {
        match self {
            Op::Invalid => "Invalid"@,
            Op::Ping => "Ping"@,
            Op::MoveAbs => "MoveAbs"@,
            Op::Hello => "Hello"@,
            Op::KeyTap => "KeyTap"@,
            Op::KeySequence => "KeySequence"@,
            Op::KeyDown => "KeyDown"@,
            Op::KeyUp => "KeyUp"@,
            Op::ConfirmSubscribe => "ConfirmSubscribe"@,
            Op::ConfirmRequest => "ConfirmRequest"@,
            Op::ConfirmDecide => "ConfirmDecide"@,
            Op::Button => "Button"@,
            Op::MoveRel => "MoveRel"@,
            Op::Scroll => "Scroll"@,
            Op::Batch => "Batch"@,
        }
    }

    pub fn name(self) -> (s: &'static str)
        ensures
            s@ == self.called(),
    {
        match self {
            Op::Invalid => "Invalid",
            Op::Ping => "Ping",
            Op::MoveAbs => "MoveAbs",
            Op::Hello => "Hello",
            Op::KeyTap => "KeyTap",
            Op::KeySequence => "KeySequence",
            Op::KeyDown => "KeyDown",
            Op::KeyUp => "KeyUp",
            Op::ConfirmSubscribe => "ConfirmSubscribe",
            Op::ConfirmRequest => "ConfirmRequest",
            Op::ConfirmDecide => "ConfirmDecide",
            Op::Button => "Button",
            Op::MoveRel => "MoveRel",
            Op::Scroll => "Scroll",
            Op::Batch => "Batch",
        }
    }
}

impl EncodeError {
    /// What the refusal is called.
    pub open spec fn called(self) -> Seq<char> {
        match self {
            EncodeError::BadClientName => "BadClientName"@,
            EncodeError::BatchSize => "BatchSize"@,
            EncodeError::ZeroDelta => "ZeroDelta"@,
            EncodeError::ScrollRange => "ScrollRange"@,
            EncodeError::BufferTooSmall => "BufferTooSmall"@,
        }
    }

    pub fn name(self) -> (s: &'static str)
        ensures
            s@ == self.called(),
    {
        match self {
            EncodeError::BadClientName => "BadClientName",
            EncodeError::BatchSize => "BatchSize",
            EncodeError::ZeroDelta => "ZeroDelta",
            EncodeError::ScrollRange => "ScrollRange",
            EncodeError::BufferTooSmall => "BufferTooSmall",
        }
    }
}

impl Error {
    /// What the error says. The refusal that means "your setup is wrong", not
    /// "your request was wrong", names the fix.
    pub open spec fn message(self) -> Seq<char> {
        match self {
            Error::Io(e) => "uictl socket: "@ + e@,
            Error::Encode(e) => "cannot encode request: "@ + e.called(),
            Error::Refused { op, result } => "uictl refused "@ + op.called() + ": result "@
                + text::decimal(result.0 as nat) + if result.0 == ResultCode::ERR_DENIED_BY_POLICY {
                "\n  hint: add 'muvor interactive exe=<abs path>' to ~/.config/uictl/clients"@
            } else {
                Seq::empty()
            },
            Error::Mismatched => "uictl reply did not echo the request header"@,
            Error::ShortHello => "HELLO response shorter than 24 bytes"@,
            Error::ReservedNonZero =>
                "HELLO reserved field non-zero — daemon may be leaking memory"@,
            Error::Unsupported(op) => "daemon does not implement "@ + op.called(),
        }
    }

    /// What the error says.
    pub fn describe(&self) -> (s: String)
        ensures
            s@ == self.message(),
    {
        match self {
            Error::Io(e) => {
                let mut s: String = "uictl socket: ".to_owned();
                s.append(e.as_str());
                s
            },
            Error::Encode(e) => {
                let mut s: String = "cannot encode request: ".to_owned();
                s.append(e.name());
                s
            },
            Error::Refused { op, result } => {
                let mut s: String = "uictl refused ".to_owned();
                s.append(op.name());
                s.append(": result ");
                text::push_decimal(&mut s, result.0 as u64);
                if result.0 == ResultCode::ERR_DENIED_BY_POLICY {
                    s.append(
                        "\n  hint: add 'muvor interactive exe=<abs path>' to ~/.config/uictl/clients",
                    );
                }
                assert(s@ =~= self.message());
                s
            },
            Error::Mismatched => "uictl reply did not echo the request header".to_owned(),
            Error::ShortHello => "HELLO response shorter than 24 bytes".to_owned(),
            Error::ReservedNonZero =>
                "HELLO reserved field non-zero — daemon may be leaking memory".to_owned(),
            Error::Unsupported(op) => {
                let mut s: String = "daemon does not implement ".to_owned();
                s.append(op.name());
                s
            },
        }
    }
}

// ---------------------------------------------------------------------------
// Requests and replies
// ---------------------------------------------------------------------------

/// A request that was sent, as far as its reply must match it.
#[derive(Debug, Clone, Copy, PartialEq, Eq, Structural)]
pub struct Pending {
    pub op: Op,
    pub seq: u32,
    pub source_tag: SourceTag,
}

impl Pending {
    /// A reply header that answers this request: it echoes the version, the
    /// operation, the number and the tag, and declares a payload that holds a
    /// result and is not too long.
    pub open spec fn answered_by(self, h: Header) -> bool {
        &&& h.version == PROTO_VERSION
        &&& h.opcode == self.op.number()
        &&& h.seq == self.seq
        &&& h.source_tag == self.source_tag.0
        &&& 2 <= h.payload_len <= MAX_PAYLOAD
    }

    /// How long the payload of a reply is, from the reply's header.
    pub fn payload_len(&self, head: &[u8]) -> (r: Result<usize, Error>)
        ensures
            match r {
                Ok(n) => head@.len() >= wire::HEADER_LEN && self.answered_by(Header::parsed(head@))
                    && n == Header::parsed(head@).payload_len,
                Err(e) => e is Mismatched && !(head@.len() >= wire::HEADER_LEN && self.answered_by(
                    Header::parsed(head@),
                )),
            },
    {
        let h: Header = match Header::decode(head) {
            Some(h) => h,
            None => {
                return Err(Error::Mismatched);
            },
        };
        // The response echoes version, opcode, source_tag and seq.
        if h.version != PROTO_VERSION {
            return Err(Error::Mismatched);
        }
        if h.opcode != self.op.to_u16() || h.seq != self.seq || h.source_tag != self.source_tag.0 {
            return Err(Error::Mismatched);
        }
        if h.payload_len < 2 || h.payload_len > MAX_PAYLOAD as u32 {
            return Err(Error::Mismatched);
        }
        Ok(h.payload_len as usize)
    }

    /// What a reply's payload says: the data behind its result, or the
    /// refusal. Response data grows append-only; a longer tail is
    /// accepted.
    pub fn reply(&self, payload: &[u8]) -> (r: Result<Vec<u8>, Error>)
        requires
            payload@.len() >= 2,
        ensures
            match r {
                Ok(data) => wire::u16_at(payload@, 0) == ResultCode::OK && data@ == payload@.skip(
                    2,
                ),
                Err(e) => wire::u16_at(payload@, 0) != ResultCode::OK && e == (Error::Refused {
                    op: self.op,
                    result: ResultCode(wire::u16_at(payload@, 0) as u16),
                }),
            },
    {
        let result: ResultCode = ResultCode(wire::read16(payload, 0));
        if !result.is_ok() {
            return Err(Error::Refused { op: self.op, result });
        }
        let data: Vec<u8> = vstd::slice::slice_to_vec(
            vstd::slice::slice_subrange(payload, 2, payload.len()),
        );
        assert(data@ =~= payload@.skip(2));
        Ok(data)
    }
}

/// What the broker's answer to the greeting comes to.
pub open spec fn greeted(body: Seq<u8>) -> Result<HelloResponse, Error> {
    let h = HelloResponse::parsed(body);
    if body.len() < HelloResponse::MIN_LEN {
        Err(Error::ShortHello)
    } else if wire::u32_at(body, 20) != 0 {
        Err(Error::ReservedNonZero)
    } else if !h.offers(Op::MoveAbs) {
        Err(Error::Unsupported(Op::MoveAbs))
    } else if !h.offers(Op::Button) {
        Err(Error::Unsupported(Op::Button))
    } else if !h.offers(Op::Batch) {
        Err(Error::Unsupported(Op::Batch))
    } else {
        Ok(h)
    }
}

/// One connection: the number of the next request, the tag it goes out
/// under, and what the broker said of itself.
#[derive(Debug, Clone, Copy)]
pub struct Client {
    pub seq: u32,
    pub source_tag: SourceTag,
    pub hello: HelloResponse,
}

impl Client {
    /// A connection that nothing was sent over yet.
    pub fn new() -> (c: Self)
        ensures
            c.seq == 1,
            c.source_tag == SourceTag(SourceTag::HOTKEY),
            c.hello == (HelloResponse {
                proto_selected: 0,
                device_caps: 0,
                abs_range_max: 0,
                opcode_bitmap: 0,
                daemon_version: 0,
                reconnect: None,
            }),
    {
        Client {
            seq: 1,
            source_tag: SourceTag(SourceTag::HOTKEY),
            hello: HelloResponse {
                proto_selected: 0,
                device_caps: 0,
                abs_range_max: 0,
                opcode_bitmap: 0,
                daemon_version: 0,
                reconnect: None,
            },
        }
    }

    /// The request a connection opens with.
    pub fn greeting() -> (r: Request<'static>)
        ensures
            r == (Request::Hello {
                proto_min: PROTO_VERSION,
                proto_max: PROTO_VERSION,
                client_name: CLIENT_NAME,
            }),
    {
        Request::Hello {
            proto_min: PROTO_VERSION,
            proto_max: PROTO_VERSION,
            client_name: CLIENT_NAME,
        }
    }

    pub fn hello(&self) -> (h: &HelloResponse)
        ensures
            *h == self.hello,
    {
        &self.hello
    }

    /// The coordinate contract.
    pub fn abs_range_max(&self) -> (n: u32)
        ensures
            n == self.hello.abs_range_max,
    {
        self.hello.abs_range_max
    }

    pub fn set_source_tag(&mut self, tag: SourceTag)
        ensures
            *final(self) == (Client { source_tag: tag, ..*old(self) }),
    {
        self.source_tag = tag;
    }

    /// Frame a request into `buf`. Every request takes a number, one that
    /// cannot be framed too.
    pub fn send(&mut self, req: Request, buf: &mut [u8]) -> (r: Result<(usize, Pending), Error>)
        ensures
            *final(self) == (Client {
                seq: ((old(self).seq + 1) % 0x1_0000_0000) as u32,
                ..*old(self)
            }),
            match r {
                Ok((n, pending)) => {
                    let frame = req.frame(old(self).source_tag, old(self).seq);
                    &&& req.refusal(old(buf)@.len() as int) is None
                    &&& n == frame.len()
                    &&& final(buf)@ == wire::overlaid(old(buf)@, 0, frame)
                    &&& pending == (Pending {
                        op: req.op(),
                        seq: old(self).seq,
                        source_tag: old(self).source_tag,
                    })
                },
                Err(e) => {
                    &&& req.refusal(old(buf)@.len() as int) is Some
                    &&& e == Error::Encode(req.refusal(old(buf)@.len() as int)->0)
                    &&& final(buf)@ == old(buf)@
                },
            },
    {
        let seq: u32 = self.seq;
        self.seq = self.seq.wrapping_add(1);
        let pending: Pending = Pending { op: req.opcode(), seq, source_tag: self.source_tag };
        match req.encode_into(buf, self.source_tag, seq) {
            Ok(n) => Ok((n, pending)),
            Err(e) => Err(Error::Encode(e)),
        }
    }

    /// Take the broker's answer to the greeting. Every feature is gated
    /// on the opcode bitmap, never on the broker's version.
    pub fn handshake(&mut self, body: &[u8]) -> (r: Result<(), Error>)
        ensures
            r is Ok <==> greeted(body@) is Ok,
            r is Err ==> r->Err_0 == greeted(body@)->Err_0,
            *final(self) == (Client {
                hello: if body@.len() < HelloResponse::MIN_LEN || wire::u32_at(body@, 20) != 0 {
                    old(self).hello
                } else {
                    HelloResponse::parsed(body@)
                },
                ..*old(self)
            }),
    {
        if body.len() < HelloResponse::MIN_LEN {
            return Err(Error::ShortHello);
        }
        if body[20] != 0 || body[21] != 0 || body[22] != 0 || body[23] != 0 {
            return Err(Error::ReservedNonZero);
        }
        match HelloResponse::decode(body) {
            Some(h) => {
                self.hello = h;
            },
            None => {
                return Err(Error::ShortHello);
            },
        }
        if !self.hello.supports(Op::MoveAbs) {
            return Err(Error::Unsupported(Op::MoveAbs));
        }
        if !self.hello.supports(Op::Button) {
            return Err(Error::Unsupported(Op::Button));
        }
        if !self.hello.supports(Op::Batch) {
            return Err(Error::Unsupported(Op::Batch));
        }
        Ok(())
    }
}

// ---------------------------------------------------------------------------
// Gestures
// ---------------------------------------------------------------------------

/// Something that may take more than one request.
#[derive(Debug, Clone, Copy, PartialEq, Eq, Structural)]
pub enum Gesture {
    /// A press that repairs a stale hold rather than failing on it.
    Press(Button),
    /// A release that treats "it was not held" as the outcome it wanted:
    /// letting go must never fail on the way out of a mode.
    Release(Button),
    /// Move and click in one batch, and therefore **one rate-limit token**,
    /// not three.
    ClickAt { x: i32, y: i32, code: Button },
}

/// What to send for a gesture.
#[derive(Debug, Clone, Copy, PartialEq, Eq, Structural)]
pub enum Outgoing {
    Button { code: Button, down: bool },
    Batch(BatchItem, BatchItem, BatchItem),
}

/// How far a gesture has got.
#[derive(Debug, Clone, Copy, PartialEq, Eq, Structural)]
pub enum Stage {
    /// The request was sent.
    First,
    /// The broker said that this connection already holds the button, and a
    /// release of it was sent.
    LettingGo,
    /// The request was sent once more.
    Again,
}

/// What to do about a reply.
#[derive(Debug)]
pub enum Next {
    /// Send this, and come back with its reply at that stage.
    Send(Stage, Outgoing),
    /// The gesture is over.
    Done(Result<(), Error>),
}

impl Gesture {
    /// The button a gesture is about.
    pub open spec fn button(self) -> Button {
        match self {
            Gesture::Press(code) => code,
            Gesture::Release(code) => code,
            Gesture::ClickAt { code, .. } => code,
        }
    }

    /// The request a gesture is.
    pub open spec fn wanted(self) -> Outgoing {
        match self {
            Gesture::Press(code) => Outgoing::Button { code, down: true },
            Gesture::Release(code) => Outgoing::Button { code, down: false },
            Gesture::ClickAt { x, y, code } => Outgoing::Batch(
                BatchItem::MoveAbs { x, y },
                BatchItem::Button { code, down: true },
                BatchItem::Button { code, down: false },
            ),
        }
    }

    /// What to send first.
    pub fn start(self) -> (out: Outgoing)
        ensures
            out == self.wanted(),
    {
        match self {
            Gesture::Press(code) => Outgoing::Button { code, down: true },
            Gesture::Release(code) => Outgoing::Button { code, down: false },
            Gesture::ClickAt { x, y, code } => Outgoing::Batch(
                BatchItem::MoveAbs { x, y },
                BatchItem::Button { code, down: true },
                BatchItem::Button { code, down: false },
            ),
        }
    }

    /// What follows a reply. Only a *press* can find a stale hold: then the
    /// button is let go of and the request sent once more. A release that
    /// the broker refuses because nothing was held has done what it was for.
    pub open spec fn follows(self, stage: Stage, reply: Result<(), Error>) -> Next {
        let up = Outgoing::Button { code: self.button(), down: false };
        match stage {
            Stage::First => match self {
                Gesture::Release(_) => Next::Done(
                    if refused_with(reply, ResultCode::ERR_KEY_NOT_HELD) {
                        Ok(())
                    } else {
                        reply
                    },
                ),
                _ => if refused_with(reply, ResultCode::ERR_KEY_ALREADY_HELD) {
                    Next::Send(Stage::LettingGo, up)
                } else {
                    Next::Done(reply)
                },
            },
            Stage::LettingGo => if reply is Ok || refused_with(
                reply,
                ResultCode::ERR_KEY_NOT_HELD,
            ) {
                Next::Send(Stage::Again, self.wanted())
            } else {
                Next::Done(reply)
            },
            Stage::Again => Next::Done(reply),
        }
    }

    /// What to do about a reply.
    pub fn next(self, stage: Stage, reply: Result<(), Error>) -> (n: Next)
        ensures
            n == self.follows(stage, reply),
    {
        let code: Button = match self {
            Gesture::Press(code) => code,
            Gesture::Release(code) => code,
            Gesture::ClickAt { code, .. } => code,
        };
        let released: bool = match self {
            Gesture::Release(_) => true,
            _ => false,
        };
        match stage {
            Stage::First => {
                if released {
                    if is_refusal(&reply, ResultCode::ERR_KEY_NOT_HELD) {
                        Next::Done(Ok(()))
                    } else {
                        Next::Done(reply)
                    }
                } else if is_refusal(&reply, ResultCode::ERR_KEY_ALREADY_HELD) {
                    Next::Send(Stage::LettingGo, Outgoing::Button { code, down: false })
                } else {
                    Next::Done(reply)
                }
            },
            Stage::LettingGo => {
                if reply.is_ok() || is_refusal(&reply, ResultCode::ERR_KEY_NOT_HELD) {
                    Next::Send(Stage::Again, self.start())
                } else {
                    Next::Done(reply)
                }
            },
            Stage::Again => Next::Done(reply),
        }
    }
}

/// The broker refused, with that code.
pub open spec fn refused_with(reply: Result<(), Error>, code: u16) -> bool {
    reply is Err && reply->Err_0 is Refused && reply->Err_0->result.0 == code
}

fn is_refusal(reply: &Result<(), Error>, code: u16) -> (r: bool)
    ensures
        r == refused_with(*reply, code),
{
    match reply {
        Err(Error::Refused { result, .. }) => result.0 == code,
        _ => false,
    }
}

// ---------------------------------------------------------------------------
// Laws
// ---------------------------------------------------------------------------

/// The greeting is a frame the broker accepts.
pub proof fn the_greeting_is_accepted(source_tag: SourceTag, seq: u32, pinned: Option<u16>)
    requires
        pinned is Some ==> pinned->0 == PROTO_VERSION,
    ensures
        validate::verdict(
            (Request::Hello {
                proto_min: PROTO_VERSION,
                proto_max: PROTO_VERSION,
                client_name: CLIENT_NAME,
            }).frame(source_tag, seq),
            pinned,
        ) is Ok,
{
    let r = Request::Hello {
        proto_min: PROTO_VERSION,
        proto_max: PROTO_VERSION,
        client_name: CLIENT_NAME,
    };
    reveal_strlit("muvor");
    vstd::utf8::is_ascii_chars_encode_utf8(CLIENT_NAME@);
    let name = wire::name_bytes(CLIENT_NAME@);
    assert(name.len() == 5);
    assert forall|i: int| 0 <= i < name.len() implies wire::graphic(#[trigger] name[i]) by {
        assert(name[i] == CLIENT_NAME@[i] as u8);
    }
    validate::encoder_frames_are_accepted(r, source_tag, seq, 100, pinned);
}

/// A gesture ends after three requests at most: each stage is later than the
/// one before.
pub proof fn a_gesture_ends(g: Gesture, stage: Stage, reply: Result<(), Error>)
    ensures
        g.follows(stage, reply) matches Next::Send(next, _) ==> {
            ||| stage is First && next is LettingGo
            ||| stage is LettingGo && next is Again
        },
        stage is Again ==> g.follows(stage, reply) is Done,
        g is Release ==> (stage is First ==> g.follows(stage, reply) is Done),
{
}

/// Nothing is pressed again before it was let go of: between the two presses
/// of a repair the broker has been told to release the button, and has either
/// done so or said that it was up.
pub proof fn a_repair_lets_go_first(g: Gesture, stage: Stage, reply: Result<(), Error>)
    ensures
        g.follows(stage, reply) matches Next::Send(Stage::LettingGo, out) ==> out
            == (Outgoing::Button { code: g.button(), down: false }) && refused_with(
            reply,
            ResultCode::ERR_KEY_ALREADY_HELD,
        ),
        g.follows(stage, reply) matches Next::Send(Stage::Again, out) ==> out == g.wanted() && stage
            is LettingGo && (reply is Ok || refused_with(reply, ResultCode::ERR_KEY_NOT_HELD)),
{
}

/// Letting go succeeds whenever the button ends up not held.
pub proof fn letting_go_of_nothing_succeeds(code: Button, reply: Result<(), Error>)
    ensures
        (Gesture::Release(code).follows(Stage::First, reply) matches Next::Done(r) && r is Ok)
            <==> reply is Ok || refused_with(reply, ResultCode::ERR_KEY_NOT_HELD),
{
}

} // verus!
