//! Frame encoding and decoding.
//!
//! A frame is a 16-byte little-endian header followed by a payload. Section
//! numbers in comments refer to `WIRE.md` of the broker.
use vstd::prelude::*;
use vstd::string::*;

use crate::num;

verus! {

/// Exactly 16 bytes, `u16 u16 u32 u32 u32`, no padding.
pub const HEADER_LEN: usize = 16;

/// The longest payload. Bounded before it is used as a length, on both
/// sides.
pub const MAX_PAYLOAD: usize = 4096;

/// Fixed width of the client name, NUL-padded.
pub const CLIENT_NAME_MAX: usize = 32;

/// The only version spoken here.
pub const PROTO_VERSION: u16 = 1;

/// A batch holds 1 to 16 items.
pub const BATCH_MAX_ITEMS: usize = 16;

/// The bound on a scroll, per axis, in either direction.
pub const SCROLL_MAX: i32 = 1000;

// ---------------------------------------------------------------------------
// Little-endian numbers
// ---------------------------------------------------------------------------

/// The two bytes of a 16-bit number, least significant first.
pub open spec fn le16(v: int) -> Seq<u8> {
    seq![(v % 256) as u8, (v / 256) as u8]
}

/// The four bytes of a 32-bit number, least significant first.
pub open spec fn le32(v: int) -> Seq<u8> {
    seq![
        (v % 256) as u8,
        ((v / 256) % 256) as u8,
        ((v / 65536) % 256) as u8,
        (v / 16777216) as u8,
    ]
}

/// The four bytes of a signed 32-bit number in two's complement.
pub open spec fn le32_signed(v: int) -> Seq<u8> {
    le32(if v < 0 {
        v + 0x1_0000_0000
    } else {
        v
    })
}

/// The 16-bit number that starts at offset `o`.
pub open spec fn u16_at(s: Seq<u8>, o: int) -> int {
    s[o] + 256 * s[o + 1]
}

/// The 32-bit number that starts at offset `o`.
pub open spec fn u32_at(s: Seq<u8>, o: int) -> int {
    s[o] + 256 * s[o + 1] + 65536 * s[o + 2] + 16777216 * s[o + 3]
}

/// The 64-bit number that starts at offset `o`.
pub open spec fn u64_at(s: Seq<u8>, o: int) -> int {
    u32_at(s, o) + 0x1_0000_0000 * u32_at(s, o + 4)
}

/// The signed 32-bit number that starts at offset `o`.
pub open spec fn i32_at(s: Seq<u8>, o: int) -> int {
    let v = u32_at(s, o);
    if v < 0x8000_0000 {
        v
    } else {
        v - 0x1_0000_0000
    }
}

/// Writing a 16-bit number and reading it back.
pub proof fn lemma_le16_reads_back(v: int)
    requires
        0 <= v < 0x1_0000,
    ensures
        u16_at(le16(v), 0) == v,
{
}

/// Writing a 32-bit number and reading it back.
pub proof fn lemma_le32_reads_back(v: int)
    requires
        0 <= v < 0x1_0000_0000,
    ensures
        u32_at(le32(v), 0) == v,
{
    let b = le32(v);
    assert(v / 65536 == (v / 256) / 256);
    assert(v / 16777216 == (v / 65536) / 256);
}

/// Writing a signed 32-bit number and reading it back.
pub proof fn lemma_le32_signed_reads_back(v: int)
    requires
        num::fits(v),
    ensures
        i32_at(le32_signed(v), 0) == v,
{
    lemma_le32_reads_back(
        if v < 0 {
            v + 0x1_0000_0000
        } else {
            v
        },
    );
}

/// `buf` with `bytes` laid over it from offset `at` on.
pub open spec fn overlaid(buf: Seq<u8>, at: int, bytes: Seq<u8>) -> Seq<u8> {
    Seq::new(
        buf.len(),
        |i: int|
            if at <= i < at + bytes.len() {
                bytes[i - at]
            } else {
                buf[i]
            },
    )
}

pub(crate) fn read16(s: &[u8], o: usize) -> (v: u16)
    requires
        o + 2 <= s@.len(),
    ensures
        v == u16_at(s@, o as int),
{
    s[o] as u16 + 256 * (s[o + 1] as u16)
}

fn read32(s: &[u8], o: usize) -> (v: u32)
    requires
        o + 4 <= s@.len(),
    ensures
        v == u32_at(s@, o as int),
{
    s[o] as u32 + 256 * (s[o + 1] as u32) + 65536 * (s[o + 2] as u32) + 16777216 * (s[o + 3] as u32)
}

fn read64(s: &[u8], o: usize) -> (v: u64)
    requires
        o + 8 <= s.len(),
    ensures
        v == u64_at(s@, o as int),
{
    read32(s, o) as u64 + 0x1_0000_0000 * (read32(s, o + 4) as u64)
}

pub(crate) fn read32_signed(s: &[u8], o: usize) -> (v: i32)
    requires
        o + 4 <= s@.len(),
    ensures
        v == i32_at(s@, o as int),
{
    let u: u32 = read32(s, o);
    if u < 0x8000_0000 {
        u as i32
    } else {
        (u as i64 - 0x1_0000_0000) as i32
    }
}

fn write16(out: &mut [u8], at: usize, v: u16)
    requires
        at + 2 <= old(out)@.len(),
    ensures
        final(out)@ == overlaid(old(out)@, at as int, le16(v as int)),
{
    out[at] = (v % 256) as u8;
    out[at + 1] = (v / 256) as u8;
    assert(out@ =~= overlaid(old(out)@, at as int, le16(v as int)));
}

fn write32(out: &mut [u8], at: usize, v: u32)
    requires
        at + 4 <= old(out)@.len(),
    ensures
        final(out)@ == overlaid(old(out)@, at as int, le32(v as int)),
{
    out[at] = (v % 256) as u8;
    out[at + 1] = ((v / 256) % 256) as u8;
    out[at + 2] = ((v / 65536) % 256) as u8;
    out[at + 3] = (v / 16777216) as u8;
    assert(out@ =~= overlaid(old(out)@, at as int, le32(v as int)));
}

fn write32_signed(out: &mut [u8], at: usize, v: i32)
    requires
        at + 4 <= old(out)@.len(),
    ensures
        final(out)@ == overlaid(old(out)@, at as int, le32_signed(v as int)),
{
    if v < 0 {
        write32(out, at, (v as i64 + 0x1_0000_0000) as u32);
    } else {
        write32(out, at, v as u32);
    }
}

// ---------------------------------------------------------------------------
// Opcodes, results, tags
// ---------------------------------------------------------------------------

/// The numbers are on the wire: append only, never renumber.
#[derive(Debug, Clone, Copy, PartialEq, Eq, Structural)]
pub enum Op {
    Invalid,
    Ping,
    MoveAbs,
    Hello,
    KeyTap,
    KeySequence,
    KeyDown,
    KeyUp,
    ConfirmSubscribe,
    ConfirmRequest,
    ConfirmDecide,
    Button,
    MoveRel,
    Scroll,
    Batch,
}

impl Op {
    /// The number that stands for the operation on the wire.
    pub open spec fn number(self) -> u16 {
        match self {
            Op::Invalid => 0,
            Op::Ping => 1,
            Op::MoveAbs => 2,
            Op::Hello => 3,
            Op::KeyTap => 4,
            Op::KeySequence => 5,
            Op::KeyDown => 6,
            Op::KeyUp => 7,
            Op::ConfirmSubscribe => 8,
            Op::ConfirmRequest => 9,
            Op::ConfirmDecide => 10,
            Op::Button => 11,
            Op::MoveRel => 12,
            Op::Scroll => 13,
            Op::Batch => 14,
        }
    }

    /// The operation that a wire number stands for.
    pub open spec fn numbered(v: int) -> Option<Op> {
        if v == 0 {
            Some(Op::Invalid)
        } else if v == 1 {
            Some(Op::Ping)
        } else if v == 2 {
            Some(Op::MoveAbs)
        } else if v == 3 {
            Some(Op::Hello)
        } else if v == 4 {
            Some(Op::KeyTap)
        } else if v == 5 {
            Some(Op::KeySequence)
        } else if v == 6 {
            Some(Op::KeyDown)
        } else if v == 7 {
            Some(Op::KeyUp)
        } else if v == 8 {
            Some(Op::ConfirmSubscribe)
        } else if v == 9 {
            Some(Op::ConfirmRequest)
        } else if v == 10 {
            Some(Op::ConfirmDecide)
        } else if v == 11 {
            Some(Op::Button)
        } else if v == 12 {
            Some(Op::MoveRel)
        } else if v == 13 {
            Some(Op::Scroll)
        } else if v == 14 {
            Some(Op::Batch)
        } else {
            None
        }
    }

    pub fn to_u16(self) -> (v: u16)
        ensures
            v == self.number(),
    {
        match self {
            Op::Invalid => 0,
            Op::Ping => 1,
            Op::MoveAbs => 2,
            Op::Hello => 3,
            Op::KeyTap => 4,
            Op::KeySequence => 5,
            Op::KeyDown => 6,
            Op::KeyUp => 7,
            Op::ConfirmSubscribe => 8,
            Op::ConfirmRequest => 9,
            Op::ConfirmDecide => 10,
            Op::Button => 11,
            Op::MoveRel => 12,
            Op::Scroll => 13,
            Op::Batch => 14,
        }
    }

    pub fn from_u16(v: u16) -> (op: Option<Self>)
        ensures
            op == Op::numbered(v as int),
    {
        match v {
            0 => Some(Op::Invalid),
            1 => Some(Op::Ping),
            2 => Some(Op::MoveAbs),
            3 => Some(Op::Hello),
            4 => Some(Op::KeyTap),
            5 => Some(Op::KeySequence),
            6 => Some(Op::KeyDown),
            7 => Some(Op::KeyUp),
            8 => Some(Op::ConfirmSubscribe),
            9 => Some(Op::ConfirmRequest),
            10 => Some(Op::ConfirmDecide),
            11 => Some(Op::Button),
            12 => Some(Op::MoveRel),
            13 => Some(Op::Scroll),
            14 => Some(Op::Batch),
            _ => None,
        }
    }
}

/// An operation's wire number stands for that operation and no other, and a
/// number that stands for an operation is that operation's.
pub proof fn op_numbers_are_one_to_one(op: Op, v: int)
    ensures
        Op::numbered(op.number() as int) == Some(op),
        Op::numbered(v) == Some(op) ==> v == op.number(),
{
}

/// What a reply says of its request. The constants are the codes.
#[derive(Debug, Clone, Copy, PartialEq, Eq, Structural)]
pub struct ResultCode(pub u16);

impl ResultCode {
    pub const OK: u16 = 0;

    pub const ERR_VERSION_UNSUPPORTED: u16 = 1;

    pub const ERR_OPCODE_UNKNOWN: u16 = 2;

    pub const ERR_PAYLOAD_INVALID: u16 = 3;

    pub const ERR_DENIED_BY_POLICY: u16 = 4;

    pub const ERR_TOO_LARGE: u16 = 5;

    pub const ERR_HANDSHAKE_REQUIRED: u16 = 8;

    pub const ERR_RATE_LIMITED: u16 = 11;

    /// **This connection already holds that button.** The broker seeds a
    /// batch's validation from the connection's held set, so one press whose
    /// release was lost refuses every click that follows.
    pub const ERR_KEY_ALREADY_HELD: u16 = 12;

    pub const ERR_KEY_NOT_HELD: u16 = 14;

    pub fn is_ok(self) -> (r: bool)
        ensures
            r == (self.0 == ResultCode::OK),
    {
        self.0 == ResultCode::OK
    }
}

/// **Advisory only**: a hint for the audit log, never a ground for a
/// decision. The constants are the tags.
#[derive(Debug, Clone, Copy, PartialEq, Eq, Structural)]
pub struct SourceTag(pub u32);

impl SourceTag {
    pub const CLI: u32 = 1;

    pub const HOTKEY: u32 = 2;

    pub const LLM: u32 = 4;
}

// ---------------------------------------------------------------------------
// Header
// ---------------------------------------------------------------------------

/// What every frame begins with: sixteen bytes, every field little-endian.
#[derive(Debug, Clone, Copy, PartialEq, Eq, Structural)]
pub struct Header {
    pub version: u16,
    pub opcode: u16,
    pub source_tag: u32,
    pub seq: u32,
    pub payload_len: u32,
}

impl Header {
    /// The sixteen bytes of the header.
    pub open spec fn bytes(self) -> Seq<u8> {
        le16(self.version as int) + le16(self.opcode as int) + le32(self.source_tag as int) + le32(
            self.seq as int,
        ) + le32(self.payload_len as int)
    }

    /// The header that the first sixteen bytes of `s` hold.
    pub open spec fn parsed(s: Seq<u8>) -> Header {
        Header {
            version: u16_at(s, 0) as u16,
            opcode: u16_at(s, 2) as u16,
            source_tag: u32_at(s, 4) as u32,
            seq: u32_at(s, 8) as u32,
            payload_len: u32_at(s, 12) as u32,
        }
    }

    pub fn encode_into(&self, buf: &mut [u8; 16])
        ensures
            final(buf)@ == self.bytes(),
    {
        let a: [u8; 2] = bytes16(self.version);
        let b: [u8; 2] = bytes16(self.opcode);
        let c: [u8; 4] = bytes32(self.source_tag);
        let d: [u8; 4] = bytes32(self.seq);
        let e: [u8; 4] = bytes32(self.payload_len);
        buf[0] = a[0];
        buf[1] = a[1];
        buf[2] = b[0];
        buf[3] = b[1];
        buf[4] = c[0];
        buf[5] = c[1];
        buf[6] = c[2];
        buf[7] = c[3];
        buf[8] = d[0];
        buf[9] = d[1];
        buf[10] = d[2];
        buf[11] = d[3];
        buf[12] = e[0];
        buf[13] = e[1];
        buf[14] = e[2];
        buf[15] = e[3];
        assert(buf@ =~= self.bytes());
    }

    /// `None` exactly when there are fewer than sixteen bytes.
    pub fn decode(buf: &[u8]) -> (h: Option<Self>)
        ensures
            h == (if buf@.len() < HEADER_LEN {
                None
            } else {
                Some(Header::parsed(buf@))
            }),
    {
        if buf.len() < HEADER_LEN {
            return None;
        }
        Some(
            Header {
                version: read16(buf, 0),
                opcode: read16(buf, 2),
                source_tag: read32(buf, 4),
                seq: read32(buf, 8),
                payload_len: read32(buf, 12),
            },
        )
    }
}

fn bytes16(v: u16) -> (b: [u8; 2])
    ensures
        b@ == le16(v as int),
{
    let b: [u8; 2] = [(v % 256) as u8, (v / 256) as u8];
    assert(b@ =~= le16(v as int));
    b
}

fn bytes32(v: u32) -> (b: [u8; 4])
    ensures
        b@ == le32(v as int),
{
    let b: [u8; 4] = [
        (v % 256) as u8,
        ((v / 256) % 256) as u8,
        ((v / 65536) % 256) as u8,
        (v / 16777216) as u8,
    ];
    assert(b@ =~= le32(v as int));
    b
}

/// Decoding an encoded header gives the header back, whatever follows it.
pub proof fn header_reads_back(h: Header, rest: Seq<u8>)
    ensures
        h.bytes().len() == HEADER_LEN,
        Header::parsed(h.bytes() + rest) == h,
{
    let s = h.bytes() + rest;
    lemma_le16_reads_back(h.version as int);
    lemma_le16_reads_back(h.opcode as int);
    lemma_le32_reads_back(h.source_tag as int);
    lemma_le32_reads_back(h.seq as int);
    lemma_le32_reads_back(h.payload_len as int);
    assert(u16_at(s, 0) == u16_at(le16(h.version as int), 0));
    assert(u16_at(s, 2) == u16_at(le16(h.opcode as int), 0));
    assert(u32_at(s, 4) == u32_at(le32(h.source_tag as int), 0));
    assert(u32_at(s, 8) == u32_at(le32(h.seq as int), 0));
    assert(u32_at(s, 12) == u32_at(le32(h.payload_len as int), 0));
}

// ---------------------------------------------------------------------------
// Requests
// ---------------------------------------------------------------------------

/// The five codes the pointer device registers, and no others.
#[derive(Debug, Clone, Copy, PartialEq, Eq, Structural)]
pub enum Button {
    Left,
    Right,
    Middle,
    Side,
    Extra,
}

impl Button {
    /// The button's code on the wire.
    pub open spec fn number(self) -> u16 {
        match self {
            Button::Left => 272,
            Button::Right => 273,
            Button::Middle => 274,
            Button::Side => 275,
            Button::Extra => 276,
        }
    }

    pub fn code(self) -> (v: u16)
        ensures
            v == self.number(),
    {
        match self {
            Button::Left => 272,
            Button::Right => 273,
            Button::Middle => 274,
            Button::Side => 275,
            Button::Extra => 276,
        }
    }
}

/// A batch item is a fixed-size tagged union, 12 bytes. Exactly six
/// operations are batchable.
#[derive(Debug, Clone, Copy, PartialEq, Eq, Structural)]
pub enum BatchItem {
    MoveAbs { x: i32, y: i32 },
    MoveRel { dx: i32, dy: i32 },
    Scroll { notches_v: i32, notches_h: i32 },
    Button { code: Button, down: bool },
    KeyDown { keycode: u16 },
    KeyUp { keycode: u16 },
}

impl BatchItem {
    /// The operation an item stands for.
    pub open spec fn op(self) -> Op {
        match self {
            BatchItem::MoveAbs { .. } => Op::MoveAbs,
            BatchItem::MoveRel { .. } => Op::MoveRel,
            BatchItem::Scroll { .. } => Op::Scroll,
            BatchItem::Button { .. } => Op::Button,
            BatchItem::KeyDown { .. } => Op::KeyDown,
            BatchItem::KeyUp { .. } => Op::KeyUp,
        }
    }

    /// An item's first argument.
    pub open spec fn first(self) -> int {
        match self {
            BatchItem::MoveAbs { x, .. } => x as int,
            BatchItem::MoveRel { dx, .. } => dx as int,
            BatchItem::Scroll { notches_v, .. } => notches_v as int,
            BatchItem::Button { code, .. } => code.number() as int,
            BatchItem::KeyDown { keycode } => keycode as int,
            BatchItem::KeyUp { keycode } => keycode as int,
        }
    }

    /// An item's second argument; zero where it has none.
    pub open spec fn second(self) -> int {
        match self {
            BatchItem::MoveAbs { y, .. } => y as int,
            BatchItem::MoveRel { dy, .. } => dy as int,
            BatchItem::Scroll { notches_h, .. } => notches_h as int,
            BatchItem::Button { down, .. } => if down {
                1
            } else {
                0
            },
            BatchItem::KeyDown { .. } => 0,
            BatchItem::KeyUp { .. } => 0,
        }
    }

    /// The twelve bytes of an item: operation, reserved zero, arguments.
    pub open spec fn bytes(self) -> Seq<u8> {
        le16(self.op().number() as int) + le16(0) + le32_signed(self.first()) + le32_signed(
            self.second(),
        )
    }

    fn parts(self) -> (p: (Op, i32, i32))
        ensures
            p.0 == self.op(),
            p.1 == self.first(),
            p.2 == self.second(),
    {
        match self {
            BatchItem::MoveAbs { x, y } => (Op::MoveAbs, x, y),
            BatchItem::MoveRel { dx, dy } => (Op::MoveRel, dx, dy),
            BatchItem::Scroll { notches_v, notches_h } => (Op::Scroll, notches_v, notches_h),
            BatchItem::Button { code, down } => (
                Op::Button,
                code.code() as i32,
                if down {
                    1
                } else {
                    0
                },
            ),
            BatchItem::KeyDown { keycode } => (Op::KeyDown, keycode as i32, 0),
            BatchItem::KeyUp { keycode } => (Op::KeyUp, keycode as i32, 0),
        }
    }

    fn encode_into(self, out: &mut [u8], at: usize)
        requires
            at + 12 <= old(out).len(),
        ensures
            final(out)@ == overlaid(old(out)@, at as int, self.bytes()),
    {
        let (op, a, b) = self.parts();
        write16(out, at, op.to_u16());
        write16(out, at + 2, 0);
        write32_signed(out, at + 4, a);
        write32_signed(out, at + 8, b);
        assert(out@ =~= overlaid(old(out)@, at as int, self.bytes()));
    }
}

/// The bytes of a run of batch items, one after the other.
pub open spec fn items_bytes(items: Seq<BatchItem>) -> Seq<u8>
    decreases items.len(),
{
    if items.len() == 0 {
        Seq::empty()
    } else {
        items_bytes(items.drop_last()) + items.last().bytes()
    }
}

/// The bytes of a client name.
pub open spec fn name_bytes(name: Seq<char>) -> Seq<u8> {
    vstd::utf8::encode_utf8(name)
}

/// Printable ASCII, the blank excluded.
pub open spec fn graphic(b: u8) -> bool {
    0x21 <= b <= 0x7e
}

/// The name is a label, not a credential, but it still has to be a
/// name: not empty, printable, and short enough to NUL-terminate.
pub open spec fn is_client_name(name: Seq<u8>) -> bool {
    &&& 0 < name.len() < CLIENT_NAME_MAX
    &&& forall|i: int| 0 <= i < name.len() ==> graphic(#[trigger] name[i])
}

/// A name padded with NULs to its fixed width.
pub open spec fn padded_name(name: Seq<u8>) -> Seq<u8> {
    Seq::new(
        CLIENT_NAME_MAX as nat,
        |i: int|
            if i < name.len() {
                name[i]
            } else {
                0
            },
    )
}

pub fn valid_client_name(name: &str) -> (r: bool)
    ensures
        r == is_client_name(name_bytes(name@)),
{
    let bytes: &[u8] = name.as_bytes();
    if bytes.len() == 0 || bytes.len() >= CLIENT_NAME_MAX {
        return false;
    }
    let mut i: usize = 0;
    while i < bytes.len()
        invariant
            i <= bytes@.len(),
            bytes@ == name_bytes(name@),
            forall|j: int| 0 <= j < i ==> graphic(#[trigger] bytes@[j]),
        decreases bytes.len() - i,
    {
        if bytes[i] < 0x21 || bytes[i] > 0x7e {
            assert(!graphic(bytes@[i as int]));
            return false;
        }
        i = i + 1;
    }
    true
}

/// The body of a request, before it is wrapped in a header.
#[derive(Debug, Clone, Copy)]
pub enum Request<'a> {
    Ping,
    Hello { proto_min: u16, proto_max: u16, client_name: &'a str },
    MoveAbs { x: i32, y: i32 },
    MoveRel { dx: i32, dy: i32 },
    Scroll { notches_v: i32, notches_h: i32 },
    Button { code: Button, down: bool },
    Batch(&'a [BatchItem]),
}

#[derive(Debug, Clone, Copy, PartialEq, Eq, Structural)]
pub enum EncodeError {
    /// A client name that is empty, over 31 bytes, or not printable ASCII.
    /// The broker rejects these, so none is ever emitted.
    BadClientName,
    /// Count must be 1..=16.
    BatchSize,
    /// A zero nudge or zero scroll is a client bug and the
    /// broker refuses it. Refusing locally saves the round trip.
    ZeroDelta,
    /// Bounds are +/-1000 per axis.
    ScrollRange,
    /// Buffer too small for the frame.
    BufferTooSmall,
}

impl<'a> Request<'a> {
    /// The operation a request asks for.
    pub open spec fn op(self) -> Op {
        match self {
            Request::Ping => Op::Ping,
            Request::Hello { .. } => Op::Hello,
            Request::MoveAbs { .. } => Op::MoveAbs,
            Request::MoveRel { .. } => Op::MoveRel,
            Request::Scroll { .. } => Op::Scroll,
            Request::Button { .. } => Op::Button,
            Request::Batch(_) => Op::Batch,
        }
    }

    /// The length of the payload.
    pub open spec fn payload_len(self) -> int {
        match self {
            Request::Ping => 0,
            Request::Hello { .. } => 4 + CLIENT_NAME_MAX,
            Request::MoveAbs { .. } => 8,
            Request::MoveRel { .. } => 8,
            Request::Scroll { .. } => 8,
            Request::Button { .. } => 4,
            Request::Batch(items) => (4 + 12 * items@.len()) as int,
        }
    }

    /// Why the request cannot be framed in a buffer of `room` bytes, if it
    /// cannot. Of several reasons, the one that is reported.
    pub open spec fn refusal(self, room: int) -> Option<EncodeError> {
        if (self matches Request::Batch(items) && !(1 <= items@.len() <= BATCH_MAX_ITEMS)) {
            Some(EncodeError::BatchSize)
        } else if room < HEADER_LEN + self.payload_len() {
            Some(EncodeError::BufferTooSmall)
        } else {
            self.fault()
        }
    }

    /// What is wrong with the request's own fields, if anything is.
    pub open spec fn fault(self) -> Option<EncodeError> {
        match self {
            Request::Hello { client_name, .. } => if is_client_name(name_bytes(client_name@)) {
                None
            } else {
                Some(EncodeError::BadClientName)
            },
            Request::MoveRel { dx, dy } => if dx == 0 && dy == 0 {
                Some(EncodeError::ZeroDelta)
            } else {
                None
            },
            Request::Scroll { notches_v, notches_h } => if notches_v == 0 && notches_h == 0 {
                Some(EncodeError::ZeroDelta)
            } else if num::magnitude(notches_v as int) > SCROLL_MAX || num::magnitude(
                notches_h as int,
            ) > SCROLL_MAX {
                Some(EncodeError::ScrollRange)
            } else {
                None
            },
            _ => None,
        }
    }

    /// The bytes of the payload.
    pub open spec fn payload(self) -> Seq<u8> {
        match self {
            Request::Ping => Seq::empty(),
            Request::Hello { proto_min, proto_max, client_name } => le16(proto_min as int) + le16(
                proto_max as int,
            ) + padded_name(name_bytes(client_name@)),
            Request::MoveAbs { x, y } => le32_signed(x as int) + le32_signed(y as int),
            Request::MoveRel { dx, dy } => le32_signed(dx as int) + le32_signed(dy as int),
            Request::Scroll { notches_v, notches_h } => le32_signed(notches_v as int)
                + le32_signed(notches_h as int),
            Request::Button { code, down } => le16(code.number() as int) + seq![
                if down {
                    1u8
                } else {
                    0u8
                },
                0u8,
            ],
            Request::Batch(items) => le16(items@.len() as int) + le16(0) + items_bytes(items@),
        }
    }

    /// The header the request goes out under.
    pub open spec fn header(self, source_tag: SourceTag, seq: u32) -> Header {
        Header {
            version: PROTO_VERSION,
            opcode: self.op().number(),
            source_tag: source_tag.0,
            seq,
            payload_len: self.payload_len() as u32,
        }
    }

    /// The whole frame: header, then payload.
    pub open spec fn frame(self, source_tag: SourceTag, seq: u32) -> Seq<u8> {
        self.header(source_tag, seq).bytes() + self.payload()
    }

    pub fn opcode(&self) -> (op: Op)
        ensures
            op == self.op(),
    {
        match self {
            Request::Ping => Op::Ping,
            Request::Hello { .. } => Op::Hello,
            Request::MoveAbs { .. } => Op::MoveAbs,
            Request::MoveRel { .. } => Op::MoveRel,
            Request::Scroll { .. } => Op::Scroll,
            Request::Button { .. } => Op::Button,
            Request::Batch(_) => Op::Batch,
        }
    }

    /// Write the whole frame — header then payload — into `buf`, returning
    /// its length. Takes a caller-owned buffer, so nothing is allocated. A
    /// refused request leaves the buffer as it was.
    pub fn encode_into(&self, buf: &mut [u8], source_tag: SourceTag, seq: u32) -> (r: Result<
        usize,
        EncodeError,
    >)
        ensures
            match r {
                Ok(n) => {
                    &&& self.refusal(old(buf)@.len() as int) is None
                    &&& n == self.frame(source_tag, seq).len()
                    &&& final(buf)@ == overlaid(old(buf)@, 0, self.frame(source_tag, seq))
                },
                Err(e) => {
                    &&& self.refusal(old(buf)@.len() as int) == Some(e)
                    &&& final(buf)@ == old(buf)@
                },
            },
    {
        let payload_len: usize = match self.write_payload(buf) {
            Ok(n) => n,
            Err(e) => {
                return Err(e);
            },
        };
        let mut head: [u8; 16] = [0u8; 16];
        let h: Header = Header {
            // HELLO is the version-invariant bootstrap frame, but only
            // one version is spoken here, so it is stamped like the rest.
            version: PROTO_VERSION,
            opcode: self.opcode().to_u16(),
            source_tag: source_tag.0,
            seq,
            payload_len: payload_len as u32,
        };
        h.encode_into(&mut head);
        let ghost filled = buf@;
        let mut i: usize = 0;
        while i < HEADER_LEN
            invariant
                i <= HEADER_LEN,
                head@.len() == HEADER_LEN,
                HEADER_LEN <= filled.len(),
                buf@ == overlaid(filled, 0, head@.take(i as int)),
            decreases HEADER_LEN - i,
        {
            buf[i] = head[i];
            i = i + 1;
            assert(buf@ =~= overlaid(filled, 0, head@.take(i as int)));
        }
        proof {
            lemma_payload_len(*self);
            assert(head@.take(HEADER_LEN as int) =~= head@);
            assert(buf@ =~= overlaid(old(buf)@, 0, self.frame(source_tag, seq)));
        }
        Ok(HEADER_LEN + payload_len)
    }

    /// Lay the payload into `buf` behind the room for the header.
    fn write_payload(&self, buf: &mut [u8]) -> (r: Result<usize, EncodeError>)
        ensures
            match r {
                Ok(n) => {
                    &&& self.refusal(old(buf)@.len() as int) is None
                    &&& n == self.payload_len()
                    &&& final(buf)@ == overlaid(old(buf)@, HEADER_LEN as int, self.payload())
                },
                Err(e) => {
                    &&& self.refusal(old(buf)@.len() as int) == Some(e)
                    &&& final(buf)@ == old(buf)@
                },
            },
    {
        let need: usize = match *self {
            Request::Ping => 0,
            Request::Hello { .. } => 4 + CLIENT_NAME_MAX,
            Request::MoveAbs { .. } => 8,
            Request::MoveRel { .. } => 8,
            Request::Scroll { .. } => 8,
            Request::Button { .. } => 4,
            Request::Batch(items) => {
                if items.len() == 0 || items.len() > BATCH_MAX_ITEMS {
                    return Err(EncodeError::BatchSize);
                }
                4 + 12 * items.len()
            },
        };
        if buf.len() < HEADER_LEN + need {
            return Err(EncodeError::BufferTooSmall);
        }
        match *self {
            Request::Ping => {},
            Request::Hello { proto_min, proto_max, client_name } => {
                if !valid_client_name(client_name) {
                    return Err(EncodeError::BadClientName);
                }
                write16(buf, HEADER_LEN, proto_min);
                write16(buf, HEADER_LEN + 2, proto_max);
                write_name(buf, HEADER_LEN + 4, client_name);
            },
            Request::MoveAbs { x, y } => {
                write32_signed(buf, HEADER_LEN, x);
                write32_signed(buf, HEADER_LEN + 4, y);
            },
            Request::MoveRel { dx, dy } => {
                if dx == 0 && dy == 0 {
                    return Err(EncodeError::ZeroDelta);
                }
                write32_signed(buf, HEADER_LEN, dx);
                write32_signed(buf, HEADER_LEN + 4, dy);
            },
            Request::Scroll { notches_v, notches_h } => {
                if notches_v == 0 && notches_h == 0 {
                    return Err(EncodeError::ZeroDelta);
                }
                if notches_v > SCROLL_MAX || notches_v < -SCROLL_MAX || notches_h > SCROLL_MAX
                    || notches_h < -SCROLL_MAX {
                    return Err(EncodeError::ScrollRange);
                }
                write32_signed(buf, HEADER_LEN, notches_v);
                write32_signed(buf, HEADER_LEN + 4, notches_h);
            },
            Request::Button { code, down } => {
                write16(buf, HEADER_LEN, code.code());
                buf[HEADER_LEN + 2] = if down {
                    1
                } else {
                    0
                };
                buf[HEADER_LEN + 3] = 0;  // reserved, validated by the broker, not ignored
            },
            Request::Batch(items) => {
                write16(buf, HEADER_LEN, items.len() as u16);
                write16(buf, HEADER_LEN + 2, 0);  // reserved
                write_items(buf, HEADER_LEN + 4, items);
                proof {
                    lemma_items_len(items@);
                }
            },
        }
        proof {
            assert(buf@ =~= overlaid(old(buf)@, HEADER_LEN as int, self.payload()));
        }
        Ok(need)
    }
}

/// Fixed width, NUL-terminated, and every byte after the NUL zero — an
/// uninitialised tail on the wire is a leak to whatever is listening.
fn write_name(buf: &mut [u8], at: usize, name: &str)
    requires
        at + CLIENT_NAME_MAX <= old(buf).len(),
        is_client_name(name_bytes(name@)),
    ensures
        final(buf)@ == overlaid(old(buf)@, at as int, padded_name(name_bytes(name@))),
{
    let bytes: &[u8] = name.as_bytes();
    let ghost before = buf@;
    let mut i: usize = 0;
    while i < CLIENT_NAME_MAX
        invariant
            i <= CLIENT_NAME_MAX,
            bytes@ == name_bytes(name@),
            buf@.len() == before.len(),
            at + CLIENT_NAME_MAX <= buf.len(),
            buf@ == overlaid(before, at as int, padded_name(name_bytes(name@)).take(i as int)),
        decreases CLIENT_NAME_MAX - i,
    {
        buf[at + i] = if i < bytes.len() {
            bytes[i]
        } else {
            0
        };
        i = i + 1;
        assert(buf@ =~= overlaid(
            before,
            at as int,
            padded_name(name_bytes(name@)).take(i as int),
        ));
    }
    proof {
        let p = padded_name(name_bytes(name@));
        assert(p.take(CLIENT_NAME_MAX as int) =~= p);
    }
}

fn write_items(buf: &mut [u8], at: usize, items: &[BatchItem])
    requires
        items@.len() <= BATCH_MAX_ITEMS,
        at + 12 * items@.len() <= old(buf).len(),
    ensures
        final(buf)@ == overlaid(old(buf)@, at as int, items_bytes(items@)),
{
    let ghost before = buf@;
    let mut i: usize = 0;
    proof {
        assert(buf@ =~= overlaid(before, at as int, items_bytes(items@.take(0))));
    }
    while i < items.len()
        invariant
            i <= items@.len() <= BATCH_MAX_ITEMS,
            buf@.len() == before.len(),
            at + 12 * items@.len() <= buf.len(),
            buf@ == overlaid(before, at as int, items_bytes(items@.take(i as int))),
        decreases items.len() - i,
    {
        proof {
            lemma_items_len(items@.take(i as int));
            assert(items@.take(i + 1).drop_last() =~= items@.take(i as int));
        }
        items[i].encode_into(buf, at + 12 * i);
        i = i + 1;
        assert(buf@ =~= overlaid(before, at as int, items_bytes(items@.take(i as int))));
    }
    proof {
        assert(items@.take(i as int) =~= items@);
    }
}

/// Twelve bytes to the item.
pub proof fn lemma_items_len(items: Seq<BatchItem>)
    ensures
        items_bytes(items).len() == 12 * items.len(),
    decreases items.len(),
{
    if items.len() > 0 {
        lemma_items_len(items.drop_last());
    }
}

/// The payload is as long as the header will say.
pub proof fn lemma_payload_len(r: Request)
    ensures
        r.payload().len() == r.payload_len(),
{
    if let Request::Batch(items) = r {
        lemma_items_len(items@);
    }
}

// ---------------------------------------------------------------------------
// The handshake's answer
// ---------------------------------------------------------------------------

pub const CAP_POINTER_ABS: u16 = 1;

pub const CAP_KEYBOARD: u16 = 2;

pub const CAP_POINTER_REL: u16 = 4;

pub const CAP_BUTTONS: u16 = 8;

/// The HELLO answer. Any response of at least 24 bytes is accepted and
/// a tail that is not understood is ignored; demanding an exact length would
/// break the growth rule for the next field that gets appended.
#[derive(Debug, Clone, Copy, PartialEq, Eq, Structural)]
pub struct HelloResponse {
    pub proto_selected: u16,
    pub device_caps: u16,
    pub abs_range_max: u32,
    pub opcode_bitmap: u64,
    pub daemon_version: u32,
    pub reconnect: Option<Reconnect>,
}

#[derive(Debug, Clone, Copy, PartialEq, Eq, Structural)]
pub struct Reconnect {
    pub mode: u8,
    pub max_tries: u8,
    pub base_ms: u16,
}

impl HelloResponse {
    pub const MIN_LEN: usize = 24;

    /// The length from which on the answer carries reconnect advice.
    pub const RECONNECT_LEN: usize = 30;

    /// What a long enough answer says.
    pub open spec fn parsed(body: Seq<u8>) -> HelloResponse {
        HelloResponse {
            proto_selected: u16_at(body, 0) as u16,
            device_caps: u16_at(body, 2) as u16,
            abs_range_max: u32_at(body, 4) as u32,
            opcode_bitmap: u64_at(body, 8) as u64,
            daemon_version: u32_at(body, 16) as u32,
            reconnect: if body.len() >= HelloResponse::RECONNECT_LEN {
                Some(
                    Reconnect {
                        mode: body[24],
                        max_tries: body[25],
                        base_ms: u16_at(body, 26) as u16,
                    },
                )
            } else {
                None
            },
        }
    }

    /// `None` exactly when there are fewer than 24 bytes. Bytes 20 to 23 are
    /// reserved and must be zero; that is for the caller to check, so that
    /// the canary is visible rather than swallowed here.
    pub fn decode(body: &[u8]) -> (r: Option<Self>)
        ensures
            r == (if body@.len() < HelloResponse::MIN_LEN {
                None
            } else {
                Some(HelloResponse::parsed(body@))
            }),
    {
        if body.len() < HelloResponse::MIN_LEN {
            return None;
        }
        let reconnect: Option<Reconnect> = if body.len() >= HelloResponse::RECONNECT_LEN {
            Some(Reconnect { mode: body[24], max_tries: body[25], base_ms: read16(body, 26) })
        } else {
            None
        };
        Some(
            HelloResponse {
                proto_selected: read16(body, 0),
                device_caps: read16(body, 2),
                abs_range_max: read32(body, 4),
                opcode_bitmap: read64(body, 8),
                daemon_version: read32(body, 16),
                reconnect,
            },
        )
    }

    /// Whether the answer's bitmap has the operation's bit.
    pub open spec fn offers(self, op: Op) -> bool {
        self.opcode_bitmap & (1u64 << (op.number() as u64)) != 0
    }

    /// Gate on the opcode bit, **never** on `daemon_version`.
    /// Feature-sniffing by version is how a protocol grows a compatibility
    /// matrix nobody can test.
    pub fn supports(&self, op: Op) -> (r: bool)
        ensures
            r == self.offers(op),
    {
        let bit: u64 = op.to_u16() as u64;
        self.opcode_bitmap & (1u64 << bit) != 0
    }

    pub fn has_cap(&self, bit: u16) -> (r: bool)
        ensures
            r == (self.device_caps & bit != 0),
    {
        self.device_caps & bit != 0
    }
}

/// A longer answer says what the shorter one said: fields are only ever
/// appended, and a tail that is not understood changes nothing.
pub proof fn hello_tail_is_ignored(body: Seq<u8>, tail: Seq<u8>)
    requires
        body.len() >= HelloResponse::MIN_LEN,
    ensures
        body.len() >= HelloResponse::RECONNECT_LEN ==> HelloResponse::parsed(body + tail)
            == HelloResponse::parsed(body),
        (HelloResponse { reconnect: None, ..HelloResponse::parsed(body + tail) }) == (
        HelloResponse { reconnect: None, ..HelloResponse::parsed(body) }),
{
    let long = body + tail;
    assert(u64_at(long, 8) == u64_at(body, 8));
    assert(u32_at(long, 4) == u32_at(body, 4));
    assert(u32_at(long, 16) == u32_at(body, 16));
}

/// Each operation has a bit of its own: an answer that offers one says
/// nothing of another.
pub proof fn opcode_bits_are_distinct(a: Op, b: Op)
    requires
        a != b,
    ensures
        (1u64 << (a.number() as u64)) & (1u64 << (b.number() as u64)) == 0,
{
    let x: u64 = a.number() as u64;
    let y: u64 = b.number() as u64;
    assert((1u64 << x) & (1u64 << y) == 0) by (bit_vector)
        requires
            x < 15,
            y < 15,
            x != y,
    ;
}

} // verus!
