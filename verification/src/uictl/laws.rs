//! What crosses the socket, byte by byte.
//!
//! The laws here speak of bytes, of the numbers the kernel and the broker
//! gave to buttons and operations, and of nothing in between.
use vstd::prelude::*;
use vstd::string::*;

use crate::uictl::client;
use crate::uictl::client::{Error, Gesture, Next, Outgoing, Pending, Stage};
use crate::uictl::validate;
use crate::uictl::wire;
use crate::uictl::wire::{
    BatchItem, Button, EncodeError, Header, HelloResponse, Op, Request, ResultCode, SourceTag,
};

verus! {

/// A button goes out under the code that the kernel gave it.
pub proof fn a_button_has_the_kernels_code(b: Button)
    ensures
        b is Left ==> b.number() == 272,
        b is Right ==> b.number() == 273,
        b is Middle ==> b.number() == 274,
        b is Side ==> b.number() == 275,
        b is Extra ==> b.number() == 276,
{
}

/// An operation goes out under the number that the broker knows it by.
pub proof fn an_operation_has_the_brokers_number(op: Op)
    ensures
        op is Invalid ==> op.number() == 0,
        op is Ping ==> op.number() == 1,
        op is MoveAbs ==> op.number() == 2,
        op is Hello ==> op.number() == 3,
        op is KeyTap ==> op.number() == 4,
        op is KeySequence ==> op.number() == 5,
        op is KeyDown ==> op.number() == 6,
        op is KeyUp ==> op.number() == 7,
        op is ConfirmSubscribe ==> op.number() == 8,
        op is ConfirmRequest ==> op.number() == 9,
        op is ConfirmDecide ==> op.number() == 10,
        op is Button ==> op.number() == 11,
        op is MoveRel ==> op.number() == 12,
        op is Scroll ==> op.number() == 13,
        op is Batch ==> op.number() == 14,
{
}

/// A number stands for the operation that goes out under it, and a number
/// past the last stands for none.
pub proof fn a_number_is_read_as_its_operation(v: int)
    ensures
        Op::numbered(v) is Some <==> 0 <= v <= 14,
        Op::numbered(v) matches Some(op) ==> op.number() == v,
{
}

proof fn lemma_le32(v: int)
    requires
        0 <= v < 0x1_0000_0000,
    ensures
        wire::le32(v).len() == 4,
        wire::le32(v)[0] + 0x100 * wire::le32(v)[1] + 0x1_0000 * wire::le32(v)[2] + 0x100_0000
            * wire::le32(v)[3] == v,
{
    wire::lemma_le32_reads_back(v);
}

/// Four bytes hold a signed number in two's complement, the least significant
/// first.
pub proof fn a_signed_number_is_two_complement(v: int)
    requires
        -0x8000_0000 <= v < 0x8000_0000,
    ensures
        wire::le32_signed(v).len() == 4,
        wire::le32_signed(v)[0] + 0x100 * wire::le32_signed(v)[1] + 0x1_0000 * wire::le32_signed(
            v,
        )[2] + 0x100_0000 * wire::le32_signed(v)[3] == v + (if v < 0 {
            0x1_0000_0000int
        } else {
            0int
        }),
{
    if v < 0 {
        lemma_le32(v + 0x1_0000_0000);
    } else {
        lemma_le32(v);
    }
}

/// A frame opens with the version spoken, the operation asked for, the tag,
/// the number of the request and the length of what follows, each with its
/// least significant byte first.
pub proof fn a_frame_opens_with_its_header(req: Request, tag: SourceTag, seq: u32)
    requires
        req matches Request::Batch(items) ==> items@.len() <= 16,
    ensures
        ({
            let f = req.frame(tag, seq);
            &&& f.len() >= 16
            &&& f[0] == 1 && f[1] == 0
            &&& f[3] == 0
            &&& req is Ping ==> f[2] == 1
            &&& req is Hello ==> f[2] == 3
            &&& req is MoveAbs ==> f[2] == 2
            &&& req is MoveRel ==> f[2] == 12
            &&& req is Scroll ==> f[2] == 13
            &&& req is Button ==> f[2] == 11
            &&& req is Batch ==> f[2] == 14
            &&& f[4] + 0x100 * f[5] + 0x1_0000 * f[6] + 0x100_0000 * f[7] == tag.0
            &&& f[8] + 0x100 * f[9] + 0x1_0000 * f[10] + 0x100_0000 * f[11] == seq
            &&& f[12] + 0x100 * f[13] + 0x1_0000 * f[14] + 0x100_0000 * f[15] == f.len() - 16
        }),
{
    wire::lemma_payload_len(req);
    lemma_le32(tag.0 as int);
    lemma_le32(seq as int);
    lemma_le32(req.payload_len());
}

/// What follows the header has the length its operation is to have.
pub proof fn a_frame_is_as_long_as_its_operation(req: Request, tag: SourceTag, seq: u32)
    ensures
        req is Ping ==> req.frame(tag, seq).len() == 16,
        req is Hello ==> req.frame(tag, seq).len() == 52,
        req is MoveAbs || req is MoveRel || req is Scroll ==> req.frame(tag, seq).len() == 24,
        req is Button ==> req.frame(tag, seq).len() == 20,
        req matches Request::Batch(items) ==> req.frame(tag, seq).len() == 20 + 12 * items@.len(),
{
    wire::lemma_payload_len(req);
}

/// A move or a scroll carries its two numbers in the order in which they were
/// given.
pub proof fn a_pair_is_carried_in_order(req: Request, tag: SourceTag, seq: u32, a: i32, b: i32)
    requires
        req == (Request::MoveAbs { x: a, y: b }) || req == (Request::MoveRel { dx: a, dy: b })
            || req == (Request::Scroll { notches_v: a, notches_h: b }),
    ensures
        ({
            let f = req.frame(tag, seq);
            &&& f[16] + 0x100 * f[17] + 0x1_0000 * f[18] + 0x100_0000 * f[19] == a + (if a < 0 {
                0x1_0000_0000int
            } else {
                0int
            })
            &&& f[20] + 0x100 * f[21] + 0x1_0000 * f[22] + 0x100_0000 * f[23] == b + (if b < 0 {
                0x1_0000_0000int
            } else {
                0int
            })
        }),
{
    a_signed_number_is_two_complement(a as int);
    a_signed_number_is_two_complement(b as int);
}

/// A press or a release carries the kernel's code of the button, then one for
/// down and zero for up.
pub proof fn a_button_request_names_its_button(code: Button, down: bool, tag: SourceTag, seq: u32)
    ensures
        ({
            let f = (Request::Button { code, down }).frame(tag, seq);
            &&& f[17] == 1
            &&& code is Left ==> f[16] == 0x10
            &&& code is Right ==> f[16] == 0x11
            &&& code is Middle ==> f[16] == 0x12
            &&& code is Side ==> f[16] == 0x13
            &&& code is Extra ==> f[16] == 0x14
            &&& down ==> f[18] == 1
            &&& !down ==> f[18] == 0
            &&& f[19] == 0
        }),
{
}

/// A greeting carries the versions it offers, the lowest first, and its name
/// followed by zeros.
pub proof fn a_greeting_carries_versions_and_name(
    lo: u16,
    hi: u16,
    name: &str,
    tag: SourceTag,
    seq: u32,
)
    requires
        name.is_ascii(),
        name@.len() <= 32,
    ensures
        ({
            let f = (Request::Hello { proto_min: lo, proto_max: hi, client_name: name }).frame(
                tag,
                seq,
            );
            &&& f[16] + 0x100 * f[17] == lo
            &&& f[18] + 0x100 * f[19] == hi
            &&& forall|i: int| 0 <= i < name@.len() ==> #[trigger] f[20 + i] == name@[i] as u8
            &&& forall|i: int| name@.len() <= i < 32 ==> #[trigger] f[20 + i] == 0
        }),
{
    wire::lemma_le16_reads_back(lo as int);
    wire::lemma_le16_reads_back(hi as int);
    vstd::utf8::is_ascii_chars_encode_utf8(name@);
}

proof fn lemma_items(items: Seq<BatchItem>, i: int)
    requires
        0 <= i < items.len(),
    ensures
        wire::items_bytes(items).len() == 12 * items.len(),
        wire::items_bytes(items).subrange(12 * i, 12 * i + 12) =~= items[i].bytes(),
    decreases items.len(),
{
    let front = items.drop_last();
    wire::lemma_items_len(front);
    wire::lemma_items_len(items);
    if i < front.len() {
        lemma_items(front, i);
        assert(wire::items_bytes(items).subrange(12 * i, 12 * i + 12) =~= wire::items_bytes(
            front,
        ).subrange(12 * i, 12 * i + 12));
    }
}

/// A batch carries how many items it has, then the items in the order in which
/// they were given: twelve bytes each, the operation, a zero and two numbers.
pub proof fn a_batch_carries_its_items_in_order(
    items: &[BatchItem],
    tag: SourceTag,
    seq: u32,
    i: int,
)
    requires
        items@.len() <= 16,
        0 <= i < items@.len(),
    ensures
        ({
            let f = Request::Batch(items).frame(tag, seq);
            let at = 20 + 12 * i;
            let a = f[at + 4] + 0x100 * f[at + 5] + 0x1_0000 * f[at + 6] + 0x100_0000 * f[at + 7];
            let b = f[at + 8] + 0x100 * f[at + 9] + 0x1_0000 * f[at + 10] + 0x100_0000 * f[at + 11];
            &&& f[16] == items@.len() && f[17] == 0 && f[18] == 0 && f[19] == 0
            &&& f[at + 1] == 0 && f[at + 2] == 0 && f[at + 3] == 0
            &&& match items@[i] {
                BatchItem::MoveAbs { x, y } => {
                    &&& f[at] == 2
                    &&& (a - x) % 0x1_0000_0000 == 0 && (b - y) % 0x1_0000_0000 == 0
                },
                BatchItem::MoveRel { dx, dy } => {
                    &&& f[at] == 12
                    &&& (a - dx) % 0x1_0000_0000 == 0 && (b - dy) % 0x1_0000_0000 == 0
                },
                BatchItem::Scroll { notches_v, notches_h } => {
                    &&& f[at] == 13
                    &&& (a - notches_v) % 0x1_0000_0000 == 0 && (b - notches_h) % 0x1_0000_0000
                        == 0
                },
                BatchItem::Button { code, down } => {
                    &&& f[at] == 11
                    &&& code is Left ==> a == 272
                    &&& code is Right ==> a == 273
                    &&& code is Middle ==> a == 274
                    &&& code is Side ==> a == 275
                    &&& code is Extra ==> a == 276
                    &&& down ==> b == 1
                    &&& !down ==> b == 0
                },
                BatchItem::KeyDown { keycode } => f[at] == 6 && a == keycode && b == 0,
                BatchItem::KeyUp { keycode } => f[at] == 7 && a == keycode && b == 0,
            }
        }),
{
    let f = Request::Batch(items).frame(tag, seq);
    let at = 20 + 12 * i;
    lemma_items(items@, i);
    let bytes = items@[i].bytes();
    assert forall|k: int| 0 <= k < 12 implies #[trigger] bytes[k] == f[at + k] by {
        assert(wire::items_bytes(items@).subrange(12 * i, 12 * i + 12)[k] == wire::items_bytes(
            items@,
        )[12 * i + k]);
        assert(f[20 + (12 * i + k)] == wire::items_bytes(items@)[12 * i + k]);
    }
    a_signed_number_is_two_complement(items@[i].first());
    a_signed_number_is_two_complement(items@[i].second());
    assert(bytes[0] == f[at] && bytes[1] == f[at + 1] && bytes[2] == f[at + 2] && bytes[3] == f[at
        + 3]);
    assert(bytes[4] == f[at + 4] && bytes[5] == f[at + 5] && bytes[6] == f[at + 6] && bytes[7]
        == f[at + 7]);
    assert(bytes[8] == f[at + 8] && bytes[9] == f[at + 9] && bytes[10] == f[at + 10] && bytes[11]
        == f[at + 11]);
}

/// A request is refused for what is wrong with it and for nothing else: a
/// batch that is empty or over sixteen, a buffer too small for the frame, a
/// name that is no name, a nudge or a scroll by nothing, a scroll by more than
/// a thousand notches.
pub proof fn a_request_is_refused_for_its_fault(req: Request, room: int, tag: SourceTag, seq: u32)
    ensures
        ({
            let size = if let Request::Batch(items) = req {
                1 <= items@.len() <= 16
            } else {
                true
            };
            let fits = req.frame(tag, seq).len() <= room;
            let zero = match req {
                Request::MoveRel { dx, dy } => dx == 0 && dy == 0,
                Request::Scroll { notches_v, notches_h } => notches_v == 0 && notches_h == 0,
                _ => false,
            };
            let far = match req {
                Request::Scroll { notches_v, notches_h } => !(-1000 <= notches_v <= 1000 && -1000
                    <= notches_h <= 1000),
                _ => false,
            };
            let nameless = match req {
                Request::Hello { client_name, .. } => {
                    let name = vstd::utf8::encode_utf8(client_name@);
                    !(1 <= name.len() <= 31 && forall|i: int|
                        0 <= i < name.len() ==> 0x21 <= #[trigger] name[i] <= 0x7e)
                },
                _ => false,
            };
            &&& req.refusal(room) == Some(EncodeError::BatchSize) <==> !size
            &&& req.refusal(room) == Some(EncodeError::BufferTooSmall) <==> size && !fits
            &&& req.refusal(room) == Some(EncodeError::ZeroDelta) <==> size && fits && zero
            &&& req.refusal(room) == Some(EncodeError::ScrollRange) <==> size && fits && far
            &&& req.refusal(room) == Some(EncodeError::BadClientName) <==> size && fits && nameless
            &&& req.refusal(room) is None <==> size && fits && !zero && !far && !nameless
        }),
{
    wire::lemma_payload_len(req);
    if let Request::Hello { client_name, .. } = req {
        let name = vstd::utf8::encode_utf8(client_name@);
        assert(wire::name_bytes(client_name@) == name);
        if forall|i: int| 0 <= i < name.len() ==> 0x21 <= #[trigger] name[i] <= 0x7e {
            assert(forall|i: int| 0 <= i < name.len() ==> wire::graphic(#[trigger] name[i]));
        }
        if forall|i: int| 0 <= i < name.len() ==> wire::graphic(#[trigger] name[i]) {
            assert(forall|i: int| 0 <= i < name.len() ==> 0x21 <= #[trigger] name[i] <= 0x7e);
        }
    }
}

/// Laying a frame over a buffer changes the bytes of the frame and no others.
pub proof fn nothing_but_the_frame_is_written(buf: Seq<u8>, at: int, bytes: Seq<u8>, i: int)
    requires
        0 <= at,
        at + bytes.len() <= buf.len(),
        0 <= i < buf.len(),
    ensures
        wire::overlaid(buf, at, bytes).len() == buf.len(),
        i < at || at + bytes.len() <= i ==> wire::overlaid(buf, at, bytes)[i] == buf[i],
        i < bytes.len() ==> wire::overlaid(buf, at, bytes)[at + i] == bytes[i],
{
}

/// A frame is judged by its header first: one cut short, one that declares
/// over 4096 bytes, one of another version than was agreed on, one of an
/// operation that is not known or not for a client to ask, and one that does
/// not carry what it declares are refused, in that order. A greeting may be of
/// any version.
pub proof fn a_frame_is_judged_by_its_header(f: Seq<u8>, pinned: Option<u16>)
    ensures
        f.len() < 16 ==> validate::verdict(f, pinned) == Err::<(), ResultCode>(ResultCode(3)),
        f.len() >= 16 ==> {
            let version = f[0] + 0x100 * f[1];
            let op = f[2] + 0x100 * f[3];
            let len = f[12] + 0x100 * f[13] + 0x1_0000 * f[14] + 0x100_0000 * f[15];
            let other = pinned is Some && op != 3 && version != pinned->0;
            let r = validate::verdict(f, pinned);
            &&& len > 4096 ==> r == Err::<(), ResultCode>(ResultCode(5))
            &&& len <= 4096 && other ==> r == Err::<(), ResultCode>(ResultCode(1))
            &&& len <= 4096 && !other && op > 14 ==> r == Err::<(), ResultCode>(ResultCode(2))
            &&& len <= 4096 && !other && op <= 14 && f.len() < 16 + len ==> r == Err::<
                (),
                ResultCode,
            >(ResultCode(3))
            &&& len <= 4096 && !other && f.len() >= 16 + len && (op == 0 || op == 9) ==> r == Err::<
                (),
                ResultCode,
            >(ResultCode(2))
            &&& len <= 4096 && !other && op <= 14 && op != 0 && op != 9 && f.len() >= 16 + len
                ==> r is Ok || r == Err::<(), ResultCode>(ResultCode(3))
        },
{
    if f.len() >= 16 {
        let h = Header::parsed(f);
        assert(h.version == f[0] + 0x100 * f[1]);
        assert(h.opcode == f[2] + 0x100 * f[3]);
        assert(h.payload_len == f[12] + 0x100 * f[13] + 0x1_0000 * f[14] + 0x100_0000 * f[15]);
    }
}

/// The frame passes all that its header can fail it for.
spec fn header_passes(f: Seq<u8>, pinned: Option<u16>, op: int, len: int) -> bool {
    &&& f.len() >= 16 + len
    &&& 0 <= len <= 4096
    &&& op == f[2] + 0x100 * f[3]
    &&& len == f[12] + 0x100 * f[13] + 0x1_0000 * f[14] + 0x100_0000 * f[15]
    &&& op == 3 || pinned is None || pinned->0 == f[0] + 0x100 * f[1]
}

proof fn lemma_judged(f: Seq<u8>, pinned: Option<u16>, op: int, len: int)
    requires
        header_passes(f, pinned, op, len),
        op <= 14,
        op != 0,
        op != 9,
    ensures
        validate::verdict(f, pinned) is Ok <==> validate::body_ok(
            Op::numbered(op)->0,
            f[0] + 0x100 * f[1],
            f.subrange(16, 16 + len),
        ),
{
    let h = Header::parsed(f);
    assert(h.version == f[0] + 0x100 * f[1]);
    assert(h.opcode == f[2] + 0x100 * f[3]);
    assert(h.payload_len == f[12] + 0x100 * f[13] + 0x1_0000 * f[14] + 0x100_0000 * f[15]);
}

/// What follows the header of a command has the exact length and the fields
/// of its operation: nothing for a ping, any two numbers for a move to a
/// point, two that are not both zero for a nudge, and for a scroll within a
/// thousand either way, a registered button up or down, a keycode.
pub proof fn a_command_is_judged_by_its_fields(
    f: Seq<u8>,
    pinned: Option<u16>,
    op: int,
    len: int,
)
    requires
        f.len() >= 16 + len,
        0 <= len <= 4096,
        op == f[2] + 0x100 * f[3],
        len == f[12] + 0x100 * f[13] + 0x1_0000 * f[14] + 0x100_0000 * f[15],
        op == 3 || pinned is None || pinned->0 == f[0] + 0x100 * f[1],
    ensures
        ({
            let ok = validate::verdict(f, pinned) is Ok;
            let a = f[16] + 0x100 * f[17] + 0x1_0000 * f[18] + 0x100_0000 * f[19];
            let b = f[20] + 0x100 * f[21] + 0x1_0000 * f[22] + 0x100_0000 * f[23];
            let code = f[16] + 0x100 * f[17];
            &&& op == 1 || op == 8 ==> (ok <==> len == 0)
            &&& op == 2 ==> (ok <==> len == 8)
            &&& op == 12 ==> (ok <==> len == 8 && !(a == 0 && b == 0))
            &&& op == 13 ==> (ok <==> {
                &&& len == 8
                &&& !(a == 0 && b == 0)
                &&& a <= 1000 || a >= 0x1_0000_0000 - 1000
                &&& b <= 1000 || b >= 0x1_0000_0000 - 1000
            })
            &&& op == 11 ==> (ok <==> len == 4 && 272 <= code <= 276 && f[18] <= 1 && f[19] == 0)
            &&& op == 4 || op == 6 || op == 7 ==> (ok <==> len == 2 && 1 <= code <= 767)
            &&& op == 10 ==> ok
        }),
{
    if op == 1 || op == 2 || op == 4 || op == 6 || op == 7 || op == 8 || op == 10 || op == 11 || op
        == 12 || op == 13 {
        lemma_judged(f, pinned, op, len);
        let body = f.subrange(16, 16 + len);
        if len >= 2 {
            assert(body[0] == f[16] && body[1] == f[17]);
        }
        if len >= 4 {
            assert(body[2] == f[18] && body[3] == f[19]);
        }
        if len >= 8 {
            assert(body[4] == f[20] && body[5] == f[21] && body[6] == f[22] && body[7] == f[23]);
        }
    }
}

/// A greeting is taken when it offers the version it is stamped with and its
/// name is one: up to 31 printable bytes, then zeros to the end of its field.
/// What follows the field is not judged.
pub proof fn a_greeting_is_judged_by_versions_and_name(f: Seq<u8>, pinned: Option<u16>, len: int)
    requires
        f.len() >= 16 + len,
        0 <= len <= 4096,
        f[2] == 3,
        f[3] == 0,
        len == f[12] + 0x100 * f[13] + 0x1_0000 * f[14] + 0x100_0000 * f[15],
    ensures
        validate::verdict(f, pinned) is Ok <==> {
            let version = f[0] + 0x100 * f[1];
            &&& len >= 36
            &&& f[16] + 0x100 * f[17] <= version <= f[18] + 0x100 * f[19]
            &&& 0x21 <= f[20] <= 0x7e
            &&& f[51] == 0
            &&& forall|i: int|
                20 <= i < 52 ==> #[trigger] f[i] == 0 || 0x21 <= f[i] <= 0x7e
            &&& forall|i: int, j: int|
                20 <= i < j < 52 && #[trigger] f[i] == 0 ==> #[trigger] f[j] == 0
        },
{
    lemma_judged(f, pinned, 3, len);
    let version = f[0] + 0x100 * f[1];
    let body = f.subrange(16, 16 + len);
    if len >= 36 {
        assert(body[0] == f[16] && body[1] == f[17] && body[2] == f[18] && body[3] == f[19]);
        let field = body.subrange(4, 36);
        assert(field == body.subrange(4, 4 + wire::CLIENT_NAME_MAX as int));
        assert forall|i: int| 0 <= i < 32 implies #[trigger] field[i] == f[20 + i] by {}
        if exists|n: int| #[trigger] validate::is_name_of_len(field, n) {
            let n = choose|n: int| #[trigger] validate::is_name_of_len(field, n);
            assert(field[0] == f[20] && field[31] == f[51]);
            assert(wire::graphic(field[0]));
            assert forall|i: int| 20 <= i < 52 implies #[trigger] f[i] == 0 || 0x21 <= f[i]
                <= 0x7e by {
                assert(field[i - 20] == f[i]);
                assert(wire::graphic(field[i - 20]) || field[i - 20] == 0);
            }
            assert forall|i: int, j: int| 20 <= i < j < 52 && #[trigger] f[i] == 0 implies
                #[trigger] f[j] == 0 by {
                assert(field[i - 20] == f[i] && field[j - 20] == f[j]);
                if i - 20 < n {
                    assert(wire::graphic(field[i - 20]));
                }
            }
        }
        if 0x21 <= f[20] <= 0x7e && f[51] == 0 && (forall|i: int|
            20 <= i < 52 ==> #[trigger] f[i] == 0 || 0x21 <= f[i] <= 0x7e) && (forall|
            i: int,
            j: int,
        |
            20 <= i < j < 52 && #[trigger] f[i] == 0 ==> #[trigger] f[j] == 0) {
            lemma_first_zero(field, 31);
            let n = choose|n: int|
                0 <= n <= 31 && #[trigger] field[n] == 0 && forall|k: int|
                    0 <= k < n ==> #[trigger] field[k] != 0;
            assert(f[20 + n] == 0);
            assert forall|i: int| 0 <= i < n implies wire::graphic(#[trigger] field[i]) by {
                assert(f[20 + i] == field[i]);
            }
            assert forall|i: int| n <= i < 32 implies #[trigger] field[i] == 0 by {
                assert(f[20 + i] == field[i]);
            }
            assert(field[0] == f[20]);
            assert(validate::is_name_of_len(field, n));
            assert(exists|n: int| #[trigger] validate::is_name_of_len(field, n));
        }
    }
}

proof fn lemma_first_zero(s: Seq<u8>, at: int)
    requires
        0 <= at < s.len(),
        s[at] == 0,
    ensures
        exists|n: int|
            0 <= n <= at && #[trigger] s[n] == 0 && forall|k: int|
                0 <= k < n ==> #[trigger] s[k] != 0,
    decreases at,
{
    if exists|k: int| 0 <= k < at && #[trigger] s[k] == 0 {
        let k = choose|k: int| 0 <= k < at && #[trigger] s[k] == 0;
        lemma_first_zero(s, k);
    }
}

/// A batch is taken when it has one to sixteen items, as many as it says and
/// nothing behind them, each of an operation that can be batched and with its
/// reserved field zero.
pub proof fn a_batch_is_judged_by_its_items(f: Seq<u8>, pinned: Option<u16>, len: int)
    requires
        f.len() >= 16 + len,
        0 <= len <= 4096,
        f[2] == 14,
        f[3] == 0,
        len == f[12] + 0x100 * f[13] + 0x1_0000 * f[14] + 0x100_0000 * f[15],
        pinned is None || pinned->0 == f[0] + 0x100 * f[1],
    ensures
        validate::verdict(f, pinned) is Ok <==> {
            &&& 1 <= f[16] <= 16 && f[17] == 0 && f[18] == 0 && f[19] == 0
            &&& len == 4 + 12 * f[16]
            &&& forall|i: int|
                0 <= i < f[16] ==> {
                    let op = #[trigger] f[20 + 12 * i];
                    &&& op == 2 || op == 6 || op == 7 || op == 11 || op == 12 || op == 13
                    &&& f[21 + 12 * i] == 0 && f[22 + 12 * i] == 0 && f[23 + 12 * i] == 0
                }
        },
{
    lemma_judged(f, pinned, 14, len);
    let body = f.subrange(16, 16 + len);
    if len >= 4 {
        assert(body[0] == f[16] && body[1] == f[17] && body[2] == f[18] && body[3] == f[19]);
        if 1 <= f[16] <= 16 && f[17] == 0 && len == 4 + 12 * f[16] {
            assert forall|i: int| 0 <= i < f[16] implies (#[trigger] validate::batch_item_ok(body, i)
                <==> {
                let op = f[20 + 12 * i];
                &&& op == 2 || op == 6 || op == 7 || op == 11 || op == 12 || op == 13
                &&& f[21 + 12 * i] == 0 && f[22 + 12 * i] == 0 && f[23 + 12 * i] == 0
            }) by {
                assert(body[4 + 12 * i] == f[20 + 12 * i]);
                assert(body[5 + 12 * i] == f[21 + 12 * i]);
                assert(body[6 + 12 * i] == f[22 + 12 * i]);
                assert(body[7 + 12 * i] == f[23 + 12 * i]);
            }
            if validate::batch_body_ok(body) {
                assert forall|i: int| 0 <= i < f[16] implies {
                    let op = #[trigger] f[20 + 12 * i];
                    &&& op == 2 || op == 6 || op == 7 || op == 11 || op == 12 || op == 13
                    &&& f[21 + 12 * i] == 0 && f[22 + 12 * i] == 0 && f[23 + 12 * i] == 0
                } by {
                    assert(validate::batch_item_ok(body, i));
                }
            }
        }
    }
}

/// The last time the key of a sequence was touched before item `k` it was
/// pressed.
spec fn last_pressed(f: Seq<u8>, c: int, k: int) -> bool {
    exists|j: int|
        {
            &&& 0 <= j < k
            &&& #[trigger] f[22 + 4 * j] == 1
            &&& f[20 + 4 * j] + 0x100 * f[21 + 4 * j] == c
            &&& forall|m: int|
                j < m < k ==> f[20 + 4 * m] + 0x100 * f[21 + 4 * m] != c || #[trigger] f[22 + 4 * m]
                    == 1
        }
}

proof fn lemma_held(f: Seq<u8>, len: int, c: int, k: int)
    requires
        0 <= k,
        4 + 4 * k <= len,
        f.len() >= 16 + len,
    ensures
        validate::held_after(f.subrange(16, 16 + len), k).contains(c) <==> last_pressed(f, c, k),
    decreases k,
{
    if k > 0 {
        let body = f.subrange(16, 16 + len);
        let j = k - 1;
        lemma_held(f, len, c, j);
        assert(body[4 + 4 * j] == f[20 + 4 * j]);
        assert(body[5 + 4 * j] == f[21 + 4 * j]);
        assert(body[6 + 4 * j] == f[22 + 4 * j]);
        if f[22 + 4 * j] == 1 && f[20 + 4 * j] + 0x100 * f[21 + 4 * j] == c {
            assert(last_pressed(f, c, k));
        } else if last_pressed(f, c, j) {
            let i = choose|i: int|
                {
                    &&& 0 <= i < j
                    &&& #[trigger] f[22 + 4 * i] == 1
                    &&& f[20 + 4 * i] + 0x100 * f[21 + 4 * i] == c
                    &&& forall|m: int|
                        i < m < j ==> f[20 + 4 * m] + 0x100 * f[21 + 4 * m] != c || #[trigger] f[22
                            + 4 * m] == 1
                };
            if f[20 + 4 * j] + 0x100 * f[21 + 4 * j] != c {
                assert(f[22 + 4 * i] == 1);
                assert(last_pressed(f, c, k));
            }
        }
        if last_pressed(f, c, k) {
            let i = choose|i: int|
                {
                    &&& 0 <= i < k
                    &&& #[trigger] f[22 + 4 * i] == 1
                    &&& f[20 + 4 * i] + 0x100 * f[21 + 4 * i] == c
                    &&& forall|m: int|
                        i < m < k ==> f[20 + 4 * m] + 0x100 * f[21 + 4 * m] != c || #[trigger] f[22
                            + 4 * m] == 1
                };
            if i < j {
                assert(f[22 + 4 * i] == 1);
                assert(last_pressed(f, c, j));
                assert(f[20 + 4 * j] + 0x100 * f[21 + 4 * j] != c || f[22 + 4 * j] == 1);
            }
        }
    }
}

/// A key sequence is taken when it has one to sixteen items, as many as it
/// says and nothing behind them, and balances: no key is pressed that the
/// sequence holds down, none released that it does not, and none is left
/// down.
pub proof fn a_key_sequence_is_judged_by_its_balance(f: Seq<u8>, pinned: Option<u16>, len: int)
    requires
        f.len() >= 16 + len,
        0 <= len <= 4096,
        f[2] == 5,
        f[3] == 0,
        len == f[12] + 0x100 * f[13] + 0x1_0000 * f[14] + 0x100_0000 * f[15],
        pinned is None || pinned->0 == f[0] + 0x100 * f[1],
    ensures
        validate::verdict(f, pinned) is Ok <==> {
            let held = |c: int, k: int|
                exists|j: int|
                    {
                        &&& 0 <= j < k
                        &&& #[trigger] f[22 + 4 * j] == 1
                        &&& f[20 + 4 * j] + 0x100 * f[21 + 4 * j] == c
                        &&& forall|m: int|
                            j < m < k ==> f[20 + 4 * m] + 0x100 * f[21 + 4 * m] != c || #[trigger] f[22
                                + 4 * m] == 1
                    };
            &&& 1 <= f[16] <= 16 && f[17] == 0 && f[18] == 0 && f[19] == 0
            &&& len == 4 + 4 * f[16]
            &&& forall|i: int|
                0 <= i < f[16] ==> {
                    let code = #[trigger] f[20 + 4 * i] + 0x100 * f[21 + 4 * i];
                    &&& 1 <= code <= 767
                    &&& f[22 + 4 * i] <= 1
                    &&& f[23 + 4 * i] == 0
                    &&& f[22 + 4 * i] == 1 <==> !held(code, i)
                }
            &&& forall|c: int| !#[trigger] held(c, f[16] as int)
        },
{
    lemma_judged(f, pinned, 5, len);
    let body = f.subrange(16, 16 + len);
    let held = |c: int, k: int|
        exists|j: int|
            {
                &&& 0 <= j < k
                &&& #[trigger] f[22 + 4 * j] == 1
                &&& f[20 + 4 * j] + 0x100 * f[21 + 4 * j] == c
                &&& forall|m: int|
                    j < m < k ==> f[20 + 4 * m] + 0x100 * f[21 + 4 * m] != c || #[trigger] f[22 + 4
                        * m] == 1
            };
    if len >= 4 {
        assert(body[0] == f[16] && body[1] == f[17] && body[2] == f[18] && body[3] == f[19]);
        if 1 <= f[16] <= 16 && f[17] == 0 && len == 4 + 4 * f[16] {
            let n = f[16] as int;
            assert forall|c: int, k: int| 0 <= k <= n implies #[trigger] held(c, k)
                == validate::held_after(body, k).contains(c) by {
                lemma_held(f, len, c, k);
            }
            assert forall|i: int| 0 <= i < n implies (#[trigger] validate::sequence_item_ok(body, i)
                <==> {
                let code = f[20 + 4 * i] + 0x100 * f[21 + 4 * i];
                &&& 1 <= code <= 767
                &&& f[22 + 4 * i] <= 1
                &&& f[23 + 4 * i] == 0
                &&& f[22 + 4 * i] == 1 <==> !held(code, i)
            }) by {
                assert(body[4 + 4 * i] == f[20 + 4 * i]);
                assert(body[5 + 4 * i] == f[21 + 4 * i]);
                assert(body[6 + 4 * i] == f[22 + 4 * i]);
                assert(body[7 + 4 * i] == f[23 + 4 * i]);
                let code = f[20 + 4 * i] + 0x100 * f[21 + 4 * i];
                assert(held(code, i) == validate::held_after(body, i).contains(code));
            }
            if validate::sequence_body_ok(body) {
                assert forall|i: int| 0 <= i < f[16] implies {
                    let code = #[trigger] f[20 + 4 * i] + 0x100 * f[21 + 4 * i];
                    &&& 1 <= code <= 767
                    &&& f[22 + 4 * i] <= 1
                    &&& f[23 + 4 * i] == 0
                    &&& f[22 + 4 * i] == 1 <==> !held(code, i)
                } by {
                    assert(validate::sequence_item_ok(body, i));
                }
                assert forall|c: int| !#[trigger] held(c, n) by {
                    assert(held(c, n) == validate::held_after(body, n).contains(c));
                }
            } else if forall|c: int| !#[trigger] held(c, n) {
                assert forall|c: int| !validate::held_after(body, n).contains(c) by {
                    assert(held(c, n) == validate::held_after(body, n).contains(c));
                }
                assert(validate::held_after(body, n) =~= Set::empty());
                let i = choose|i: int| 0 <= i < n && !#[trigger] validate::sequence_item_ok(body, i);
                assert(f[20 + 4 * i] >= 0);
            }
        }
    }
}

/// The broker's answer is read field by field from where each stands; from 30
/// bytes on it carries advice on how to come back.
pub proof fn an_answer_to_the_greeting_is_read_in_place(b: Seq<u8>)
    requires
        b.len() >= 24,
    ensures
        ({
            let h = HelloResponse::parsed(b);
            &&& h.proto_selected == b[0] + 0x100 * b[1]
            &&& h.device_caps == b[2] + 0x100 * b[3]
            &&& h.abs_range_max == b[4] + 0x100 * b[5] + 0x1_0000 * b[6] + 0x100_0000 * b[7]
            &&& h.opcode_bitmap == b[8] + 0x100 * b[9] + 0x1_0000 * b[10] + 0x100_0000 * b[11]
                + 0x1_0000_0000 * b[12] + 0x100_0000_0000 * b[13] + 0x1_0000_0000_0000 * b[14]
                + 0x100_0000_0000_0000 * b[15]
            &&& h.daemon_version == b[16] + 0x100 * b[17] + 0x1_0000 * b[18] + 0x100_0000 * b[19]
            &&& b.len() < 30 ==> h.reconnect is None
            &&& b.len() >= 30 ==> h.reconnect is Some && h.reconnect->0.mode == b[24]
                && h.reconnect->0.max_tries == b[25] && h.reconnect->0.base_ms == b[26] + 0x100
                * b[27]
        }),
{
}

/// An operation is offered by the bit of its number in the bitmap.
pub proof fn an_operation_is_offered_by_its_bit(h: HelloResponse, op: Op)
    ensures
        op is Ping ==> (h.offers(op) <==> h.opcode_bitmap & 0x2 != 0),
        op is MoveAbs ==> (h.offers(op) <==> h.opcode_bitmap & 0x4 != 0),
        op is Hello ==> (h.offers(op) <==> h.opcode_bitmap & 0x8 != 0),
        op is KeyTap ==> (h.offers(op) <==> h.opcode_bitmap & 0x10 != 0),
        op is KeySequence ==> (h.offers(op) <==> h.opcode_bitmap & 0x20 != 0),
        op is KeyDown ==> (h.offers(op) <==> h.opcode_bitmap & 0x40 != 0),
        op is KeyUp ==> (h.offers(op) <==> h.opcode_bitmap & 0x80 != 0),
        op is ConfirmSubscribe ==> (h.offers(op) <==> h.opcode_bitmap & 0x100 != 0),
        op is ConfirmRequest ==> (h.offers(op) <==> h.opcode_bitmap & 0x200 != 0),
        op is ConfirmDecide ==> (h.offers(op) <==> h.opcode_bitmap & 0x400 != 0),
        op is Button ==> (h.offers(op) <==> h.opcode_bitmap & 0x800 != 0),
        op is MoveRel ==> (h.offers(op) <==> h.opcode_bitmap & 0x1000 != 0),
        op is Scroll ==> (h.offers(op) <==> h.opcode_bitmap & 0x2000 != 0),
        op is Batch ==> (h.offers(op) <==> h.opcode_bitmap & 0x4000 != 0),
        op is Invalid ==> (h.offers(op) <==> h.opcode_bitmap & 0x1 != 0),
{
    assert(1u64 << 0u64 == 0x1 && 1u64 << 1u64 == 0x2 && 1u64 << 2u64 == 0x4 && 1u64 << 3u64 == 0x8
        && 1u64 << 4u64 == 0x10 && 1u64 << 5u64 == 0x20 && 1u64 << 6u64 == 0x40 && 1u64 << 7u64
        == 0x80 && 1u64 << 8u64 == 0x100 && 1u64 << 9u64 == 0x200 && 1u64 << 10u64 == 0x400 && 1u64
        << 11u64 == 0x800 && 1u64 << 12u64 == 0x1000 && 1u64 << 13u64 == 0x2000 && 1u64 << 14u64
        == 0x4000) by (bit_vector);
}

/// The broker's answer is good when it is long enough, its reserved bytes are
/// zero and it offers moves, buttons and batches; else the first of these that
/// is missing is the error, and the version it claims decides nothing.
pub proof fn a_greeting_is_answered_well(b: Seq<u8>)
    ensures
        b.len() < 24 <==> client::greeted(b) == Err::<HelloResponse, Error>(Error::ShortHello),
        b.len() >= 24 ==> {
            let zero = b[20] == 0 && b[21] == 0 && b[22] == 0 && b[23] == 0;
            let map = HelloResponse::parsed(b).opcode_bitmap;
            let r = client::greeted(b);
            &&& !zero <==> r == Err::<HelloResponse, Error>(Error::ReservedNonZero)
            &&& zero && map & 0x4 == 0 <==> r == Err::<HelloResponse, Error>(
                Error::Unsupported(Op::MoveAbs),
            )
            &&& zero && map & 0x4 != 0 && map & 0x800 == 0 <==> r == Err::<HelloResponse, Error>(
                Error::Unsupported(Op::Button),
            )
            &&& zero && map & 0x4 != 0 && map & 0x800 != 0 && map & 0x4000 == 0 <==> r == Err::<
                HelloResponse,
                Error,
            >(Error::Unsupported(Op::Batch))
            &&& zero && map & 0x4 != 0 && map & 0x800 != 0 && map & 0x4000 != 0 <==> r == Ok::<
                HelloResponse,
                Error,
            >(HelloResponse::parsed(b))
        },
{
    let h = HelloResponse::parsed(b);
    an_operation_is_offered_by_its_bit(h, Op::MoveAbs);
    an_operation_is_offered_by_its_bit(h, Op::Button);
    an_operation_is_offered_by_its_bit(h, Op::Batch);
}

/// A reply answers a request when it echoes its header: the version, the
/// operation, the tag and the number, and declares 2 to 4096 bytes.
pub proof fn a_reply_echoes_its_request(req: Request, tag: SourceTag, seq: u32, f: Seq<u8>)
    requires
        f.len() >= 16,
        req matches Request::Batch(items) ==> items@.len() <= 16,
    ensures
        (Pending { op: req.op(), seq, source_tag: tag }).answered_by(Header::parsed(f)) <==> {
            let len = f[12] + 0x100 * f[13] + 0x1_0000 * f[14] + 0x100_0000 * f[15];
            &&& f.take(12) == req.frame(tag, seq).take(12)
            &&& 2 <= len <= 4096
        },
        Header::parsed(f).payload_len == f[12] + 0x100 * f[13] + 0x1_0000 * f[14] + 0x100_0000
            * f[15],
{
    let g = req.frame(tag, seq);
    let h = Header::parsed(f);
    a_frame_opens_with_its_header(req, tag, seq);
    an_operation_has_the_brokers_number(req.op());
    let (s, t) = (f.take(12), g.take(12));
    if s == t {
        assert forall|i: int| 0 <= i < 12 implies #[trigger] f[i] == g[i] by {
            assert(s[i] == t[i]);
        }
    }
    if (Pending { op: req.op(), seq, source_tag: tag }).answered_by(h) {
        lemma_two_bytes(f[0], f[1], g[0], g[1]);
        lemma_two_bytes(f[2], f[3], g[2], g[3]);
        lemma_four_bytes(f[4], f[5], f[6], f[7], g[4], g[5], g[6], g[7]);
        lemma_four_bytes(f[8], f[9], f[10], f[11], g[8], g[9], g[10], g[11]);
        assert(s =~= t);
    }
}

proof fn lemma_two_bytes(a: u8, b: u8, c: u8, d: u8)
    ensures
        a + 0x100 * b == c + 0x100 * d ==> a == c && b == d,
{
}

proof fn lemma_low_byte(a: u8, rest: int, b: u8, other: int)
    ensures
        a + 0x100 * rest == b + 0x100 * other ==> a == b && rest == other,
{
}

proof fn lemma_four_bytes(a: u8, b: u8, c: u8, d: u8, e: u8, f: u8, g: u8, h: u8)
    ensures
        a + 0x100 * b + 0x1_0000 * c + 0x100_0000 * d == e + 0x100 * f + 0x1_0000 * g + 0x100_0000
            * h ==> a == e && b == f && c == g && d == h,
{
    let (x, y) = (c + 0x100 * d, g + 0x100 * h);
    lemma_low_byte(a, b + 0x100 * x, e, f + 0x100 * y);
    lemma_low_byte(b, x, f, y);
    lemma_low_byte(c, d as int, g, h as int);
}

/// What a gesture sends is what it is: a press goes down, a release up, and a
/// click at a point moves there first, then presses and releases the one
/// button.
pub proof fn a_gesture_sends_what_it_is(code: Button, x: i32, y: i32)
    ensures
        Gesture::Press(code).wanted() == (Outgoing::Button { code, down: true }),
        Gesture::Release(code).wanted() == (Outgoing::Button { code, down: false }),
        (Gesture::ClickAt { x, y, code }).wanted() == Outgoing::Batch(
            BatchItem::MoveAbs { x, y },
            BatchItem::Button { code, down: true },
            BatchItem::Button { code, down: false },
        ),
{
}

/// A press or a click that finds its button held lets go of that button and is
/// sent once more; any other reply ends it, with that reply.
pub proof fn a_stale_hold_is_let_go_of(
    g: Gesture,
    code: Button,
    stage: Stage,
    reply: Result<(), Error>,
)
    requires
        g == Gesture::Press(code) || exists|x: i32, y: i32| g == (Gesture::ClickAt { x, y, code }),
    ensures
        ({
            let held = reply matches Err(Error::Refused { result, .. }) && result.0 == 12;
            let free = reply is Ok || (reply matches Err(Error::Refused { result, .. }) && result.0
                == 14);
            let next = g.follows(stage, reply);
            &&& stage is First && held ==> next == Next::Send(
                Stage::LettingGo,
                Outgoing::Button { code, down: false },
            )
            &&& stage is First && !held ==> next == Next::Done(reply)
            &&& stage is LettingGo && free ==> next == Next::Send(Stage::Again, g.wanted())
            &&& stage is LettingGo && !free ==> next == Next::Done(reply)
            &&& stage is Again ==> next == Next::Done(reply)
        }),
{
}

/// A release ends with its reply, but that what was not held counts as let go
/// of.
pub proof fn a_release_never_fails_on_nothing(code: Button, reply: Result<(), Error>)
    ensures
        ({
            let up = reply matches Err(Error::Refused { result, .. }) && result.0 == 14;
            let next = Gesture::Release(code).follows(Stage::First, reply);
            &&& up ==> next == Next::Done(Ok(()))
            &&& !up ==> next == Next::Done(reply)
        }),
{
}

/// Numbers are read from their lowest byte up.
pub proof fn a_number_is_read_from_its_lowest_byte(s: Seq<u8>, o: int)
    ensures
        wire::u16_at(s, o) == s[o] + 0x100 * s[o + 1],
        wire::u32_at(s, o) == s[o] + 0x100 * s[o + 1] + 0x1_0000 * s[o + 2] + 0x100_0000 * s[o + 3],
        wire::u64_at(s, o) == s[o] + 0x100 * s[o + 1] + 0x1_0000 * s[o + 2] + 0x100_0000 * s[o + 3]
            + 0x1_0000_0000 * (s[o + 4] + 0x100 * s[o + 5] + 0x1_0000 * s[o + 6] + 0x100_0000 * s[o
            + 7]),
        s[o + 3] < 0x80 ==> wire::i32_at(s, o) == wire::u32_at(s, o),
        s[o + 3] >= 0x80 ==> wire::i32_at(s, o) == wire::u32_at(s, o) - 0x1_0000_0000,
{
}

/// The broker's numbers for its results, for who sends and for what a device
/// can do, and the name the client goes by.
pub proof fn the_protocol_has_these_numbers()
    ensures
        wire::ResultCode::OK == 0,
        wire::ResultCode::ERR_VERSION_UNSUPPORTED == 1,
        wire::ResultCode::ERR_OPCODE_UNKNOWN == 2,
        wire::ResultCode::ERR_PAYLOAD_INVALID == 3,
        wire::ResultCode::ERR_DENIED_BY_POLICY == 4,
        wire::ResultCode::ERR_TOO_LARGE == 5,
        wire::ResultCode::ERR_HANDSHAKE_REQUIRED == 8,
        wire::ResultCode::ERR_RATE_LIMITED == 11,
        wire::ResultCode::ERR_KEY_ALREADY_HELD == 12,
        wire::ResultCode::ERR_KEY_NOT_HELD == 14,
        wire::SourceTag::CLI == 1,
        wire::SourceTag::HOTKEY == 2,
        wire::SourceTag::LLM == 4,
        wire::CAP_POINTER_ABS == 1,
        wire::CAP_KEYBOARD == 2,
        wire::CAP_POINTER_REL == 4,
        wire::CAP_BUTTONS == 8,
        wire::PROTO_VERSION == 1,
        wire::HEADER_LEN == 16,
        client::CLIENT_NAME@ == "muvor"@,
{
}

} // verus!
