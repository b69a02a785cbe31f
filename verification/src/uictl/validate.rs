//! The broker's own frame checks.
//!
//! A client has no need to judge frames. This exists so that "the encoder
//! never emits a frame the broker would refuse" is a property that is proved
//! ([`encoder_frames_are_accepted`]) rather than a claim a comment makes.
use vstd::prelude::*;

use crate::num;
use crate::uictl::wire;
use crate::uictl::wire::{
    Header, Op, Request, ResultCode, SourceTag, BATCH_MAX_ITEMS, CLIENT_NAME_MAX, HEADER_LEN,
    MAX_PAYLOAD, PROTO_VERSION, SCROLL_MAX,
};

verus! {

/// The largest keycode of the kernel.
pub const KEY_MAX: u16 = 767;

/// What a broker holds across one connection. `None` before the handshake.
#[derive(Debug, Clone, Copy)]
pub struct ConnState {
    pub pinned_version: Option<u16>,
}

impl Default for ConnState {
    fn default() -> (st: Self)
        ensures
            st.pinned_version is None,
    {
        ConnState { pinned_version: None }
    }
}

/// A range check, not policy.
pub open spec fn is_keycode(code: int) -> bool {
    1 <= code <= KEY_MAX
}

/// A HELLO body: at least its fixed part, a version range that is not empty
/// and holds the version the frame is stamped with (the frame must not
/// contradict itself), and a name that is printable, terminated, and followed
/// by nothing but NULs.
pub open spec fn hello_body_ok(version: int, body: Seq<u8>) -> bool {
    &&& body.len() >= 4 + CLIENT_NAME_MAX
    &&& wire::u16_at(body, 0) <= version <= wire::u16_at(body, 2)
    &&& exists|n: int| #[trigger] is_name_of_len(body.subrange(4, 4 + CLIENT_NAME_MAX as int), n)
}

/// A fixed-width name field whose text is its first `n` bytes.
pub open spec fn is_name_of_len(field: Seq<u8>, n: int) -> bool {
    &&& 0 < n < field.len()
    &&& forall|i: int| 0 <= i < n ==> wire::graphic(#[trigger] field[i])
    &&& forall|i: int| n <= i < field.len() ==> #[trigger] field[i] == 0
}

/// Two deltas, not both zero.
pub open spec fn move_rel_body_ok(body: Seq<u8>) -> bool {
    &&& body.len() == 8
    &&& !(wire::i32_at(body, 0) == 0 && wire::i32_at(body, 4) == 0)
}

/// Two notch counts, not both zero, each within bounds.
pub open spec fn scroll_body_ok(body: Seq<u8>) -> bool {
    &&& move_rel_body_ok(body)
    &&& num::magnitude(wire::i32_at(body, 0)) <= SCROLL_MAX
    &&& num::magnitude(wire::i32_at(body, 4)) <= SCROLL_MAX
}

/// A registered button, up or down, and the reserved byte zero: it is
/// validated, not ignored, so it stays available for a future field.
pub open spec fn button_body_ok(body: Seq<u8>) -> bool {
    &&& body.len() == 4
    &&& 272 <= wire::u16_at(body, 0) <= 276
    &&& body[2] <= 1
    &&& body[3] == 0
}

/// One keycode.
pub open spec fn key_body_ok(body: Seq<u8>) -> bool {
    body.len() == 2 && is_keycode(wire::u16_at(body, 0))
}

/// The start of a counted body: 1 to 16 items of `size` bytes each, and
/// nothing else.
pub open spec fn counted_body_ok(body: Seq<u8>, size: int) -> bool {
    &&& body.len() >= 4
    &&& 1 <= wire::u16_at(body, 0) <= BATCH_MAX_ITEMS
    &&& wire::u16_at(body, 2) == 0
    &&& body.len() == 4 + size * wire::u16_at(body, 0)
}

/// Exactly six operations are batchable.
pub open spec fn batchable(op: Option<Op>) -> bool {
    op == Some(Op::MoveAbs) || op == Some(Op::MoveRel) || op == Some(Op::Scroll) || op == Some(
        Op::Button,
    ) || op == Some(Op::KeyDown) || op == Some(Op::KeyUp)
}

/// The batch item at index `i`: batchable, its reserved field zero.
pub open spec fn batch_item_ok(body: Seq<u8>, i: int) -> bool {
    &&& batchable(Op::numbered(wire::u16_at(body, 4 + 12 * i)))
    &&& wire::u16_at(body, 6 + 12 * i) == 0
}

pub open spec fn batch_body_ok(body: Seq<u8>) -> bool {
    &&& counted_body_ok(body, 12)
    &&& forall|i: int| 0 <= i < wire::u16_at(body, 0) ==> #[trigger] batch_item_ok(body, i)
}

/// The keycode of item `i` of a key sequence.
pub open spec fn sequence_code(body: Seq<u8>, i: int) -> int {
    wire::u16_at(body, 4 + 4 * i)
}

/// Whether item `i` of a key sequence is a press.
pub open spec fn sequence_press(body: Seq<u8>, i: int) -> bool {
    body[6 + 4 * i] == 1
}

/// The keys held down after the first `k` items of a key sequence.
pub open spec fn held_after(body: Seq<u8>, k: int) -> Set<int>
    decreases k,
{
    if k <= 0 {
        Set::empty()
    } else if sequence_press(body, k - 1) {
        held_after(body, k - 1).insert(sequence_code(body, k - 1))
    } else {
        held_after(body, k - 1).remove(sequence_code(body, k - 1))
    }
}

/// The key-sequence item at index `i`: a keycode, pressed while it is up or
/// released while it is down, and the reserved byte zero.
pub open spec fn sequence_item_ok(body: Seq<u8>, i: int) -> bool {
    &&& is_keycode(sequence_code(body, i))
    &&& body[6 + 4 * i] <= 1
    &&& body[7 + 4 * i] == 0
    &&& sequence_press(body, i) != held_after(body, i).contains(sequence_code(body, i))
}

/// Self-balancing. Every press has its matching release inside the
/// same request, tracked item by item, so a release before its press fails.
pub open spec fn sequence_body_ok(body: Seq<u8>) -> bool {
    &&& counted_body_ok(body, 4)
    &&& forall|i: int| 0 <= i < wire::u16_at(body, 0) ==> #[trigger] sequence_item_ok(body, i)
    &&& held_after(body, wire::u16_at(body, 0)) =~= Set::empty()
}

/// Whether a body is one the operation takes. Command payloads are
/// exact-size, never "at least"; HELLO is the one exception. The body of a
/// confirmer's decision is not judged.
pub open spec fn body_ok(op: Op, version: int, body: Seq<u8>) -> bool {
    match op {
        Op::Ping => body.len() == 0,
        Op::ConfirmSubscribe => body.len() == 0,
        Op::Hello => hello_body_ok(version, body),
        Op::MoveAbs => body.len() == 8,
        Op::MoveRel => move_rel_body_ok(body),
        Op::Scroll => scroll_body_ok(body),
        Op::Button => button_body_ok(body),
        Op::KeyDown => key_body_ok(body),
        Op::KeyUp => key_body_ok(body),
        Op::KeyTap => key_body_ok(body),
        Op::Batch => batch_body_ok(body),
        Op::KeySequence => sequence_body_ok(body),
        Op::ConfirmDecide => true,
        Op::ConfirmRequest => false,
        Op::Invalid => false,
    }
}

/// What a conforming broker answers to a frame.
pub open spec fn verdict(frame: Seq<u8>, pinned: Option<u16>) -> Result<(), ResultCode> {
    let h = Header::parsed(frame);
    let op = Op::numbered(h.opcode as int);
    if frame.len() < HEADER_LEN {
        Err(ResultCode(ResultCode::ERR_PAYLOAD_INVALID))
    } else if h.payload_len > MAX_PAYLOAD {
        Err(ResultCode(ResultCode::ERR_TOO_LARGE))
    } else if pinned is Some && op != Some(Op::Hello) && h.version != pinned->0 {
        Err(ResultCode(ResultCode::ERR_VERSION_UNSUPPORTED))
    } else if op is None {
        Err(ResultCode(ResultCode::ERR_OPCODE_UNKNOWN))
    } else if frame.len() < HEADER_LEN + h.payload_len {
        Err(ResultCode(ResultCode::ERR_PAYLOAD_INVALID))
    } else if op == Some(Op::ConfirmRequest) || op == Some(Op::Invalid) {
        Err(ResultCode(ResultCode::ERR_OPCODE_UNKNOWN))
    } else if body_ok(
        op->0,
        h.version as int,
        frame.subrange(HEADER_LEN as int, HEADER_LEN + h.payload_len),
    ) {
        Ok(())
    } else {
        Err(ResultCode(ResultCode::ERR_PAYLOAD_INVALID))
    }
}

/// Returns `Ok(())` for a frame a conforming broker accepts, or the result
/// code it must answer with.
pub fn validate_frame(frame: &[u8], st: ConnState) -> (r: Result<(), ResultCode>)
    ensures
        r == verdict(frame@, st.pinned_version),
{
    let h: Header = match Header::decode(frame) {
        Some(h) => h,
        None => {
            return Err(ResultCode(ResultCode::ERR_PAYLOAD_INVALID));
        },
    };
    // Payload_len is bounded *before* it is used as a length, and
    // before anything else about the frame is considered except version.
    if h.payload_len > MAX_PAYLOAD as u32 {
        return Err(ResultCode(ResultCode::ERR_TOO_LARGE));
    }
    // Once a version is pinned, a frame stamped with a different
    // one is refused. HELLO is exempt — it is the bootstrap frame and is
    // accepted at any version.
    let known: Option<Op> = Op::from_u16(h.opcode);
    if let Some(pinned) = st.pinned_version {
        let is_hello: bool = match known {
            Some(Op::Hello) => true,
            _ => false,
        };
        if !is_hello && h.version != pinned {
            return Err(ResultCode(ResultCode::ERR_VERSION_UNSUPPORTED));
        }
    }
    let op: Op = match known {
        Some(op) => op,
        None => {
            return Err(ResultCode(ResultCode::ERR_OPCODE_UNKNOWN));
        },
    };
    // The frame must actually carry what it declared. A short read is a
    // truncated frame, not a short payload.
    let declared: usize = h.payload_len as usize;
    if frame.len() - HEADER_LEN < declared {
        return Err(ResultCode(ResultCode::ERR_PAYLOAD_INVALID));
    }
    let body: &[u8] = vstd::slice::slice_subrange(frame, HEADER_LEN, HEADER_LEN + declared);
    let ok: bool = match op {
        Op::Ping => declared == 0,
        Op::ConfirmSubscribe => declared == 0,
        Op::Hello => check_hello(h.version, body),
        Op::MoveAbs => declared == 8,  // Any coordinate is valid; out of range clamps
        Op::MoveRel => check_move_rel(body),
        Op::Scroll => check_scroll(body),
        Op::Button => check_button(body),
        Op::KeyDown => check_key(body),
        Op::KeyUp => check_key(body),
        Op::KeyTap => check_key(body),
        Op::Batch => check_batch(body),
        Op::KeySequence => check_sequence(body),
        // The confirmer role, which is never taken here.
        Op::ConfirmDecide => true,
        Op::ConfirmRequest => {
            return Err(ResultCode(ResultCode::ERR_OPCODE_UNKNOWN));
        },
        Op::Invalid => {
            return Err(ResultCode(ResultCode::ERR_OPCODE_UNKNOWN));
        },
    };
    if ok {
        Ok(())
    } else {
        Err(ResultCode(ResultCode::ERR_PAYLOAD_INVALID))
    }
}

fn check_hello(version: u16, body: &[u8]) -> (ok: bool)
    ensures
        ok == hello_body_ok(version as int, body@),
{
    if body.len() < 4 + CLIENT_NAME_MAX {
        return false;
    }
    if version < wire::read16(body, 0) || version > wire::read16(body, 2) {
        return false;
    }
    let ghost field = body@.subrange(4, 4 + CLIENT_NAME_MAX as int);
    let mut nul: usize = 0;
    while nul < CLIENT_NAME_MAX && body[4 + nul] != 0
        invariant
            nul <= CLIENT_NAME_MAX,
            body@.len() >= 4 + CLIENT_NAME_MAX,
            field == body@.subrange(4, 4 + CLIENT_NAME_MAX as int),
            forall|i: int| 0 <= i < nul ==> wire::graphic(#[trigger] field[i]),
        decreases CLIENT_NAME_MAX - nul,
    {
        let b: u8 = body[4 + nul];
        assert(b == field[nul as int]);
        if b < 0x21 || b > 0x7e {
            assert forall|n: int| !#[trigger] is_name_of_len(field, n) by {
                if is_name_of_len(field, n) {
                    assert(wire::graphic(field[nul as int]) || field[nul as int] == 0);
                }
            }
            return false;
        }
        nul = nul + 1;
    }
    if nul == 0 || nul == CLIENT_NAME_MAX {
        assert forall|n: int| !#[trigger] is_name_of_len(field, n) by {
            if is_name_of_len(field, n) {
                if nul == 0 {
                    assert(field[0] == body@[4]);
                    assert(wire::graphic(field[0]));
                } else {
                    assert(wire::graphic(field[n]));
                    assert(field[n] == 0);
                }
            }
        }
        return false;
    }
    assert(field[nul as int] == body@[4 + nul]);
    let mut i: usize = nul;
    while i < CLIENT_NAME_MAX
        invariant
            0 < nul <= i <= CLIENT_NAME_MAX,
            nul < CLIENT_NAME_MAX,
            body@.len() >= 4 + CLIENT_NAME_MAX,
            field == body@.subrange(4, 4 + CLIENT_NAME_MAX as int),
            field[nul as int] == 0,
            forall|j: int| 0 <= j < nul ==> wire::graphic(#[trigger] field[j]),
            forall|j: int| nul <= j < i ==> #[trigger] field[j] == 0,
        decreases CLIENT_NAME_MAX - i,
    {
        if body[4 + i] != 0 {
            assert(field[i as int] == body@[4 + i]);
            assert forall|n: int| !#[trigger] is_name_of_len(field, n) by {
                if is_name_of_len(field, n) {
                    assert(!wire::graphic(field[nul as int]));
                    assert(field[i as int] == 0);
                }
            }
            return false;  // junk after NUL
        }
        assert(field[i as int] == body@[4 + i]);
        i = i + 1;
    }
    assert(is_name_of_len(field, nul as int));
    true
}

fn check_move_rel(body: &[u8]) -> (ok: bool)
    ensures
        ok == move_rel_body_ok(body@),
{
    if body.len() != 8 {
        return false;
    }
    !(wire::read32_signed(body, 0) == 0 && wire::read32_signed(body, 4) == 0)
}

fn check_scroll(body: &[u8]) -> (ok: bool)
    ensures
        ok == scroll_body_ok(body@),
{
    if !check_move_rel(body) {
        return false;
    }
    let v: i32 = wire::read32_signed(body, 0);
    let h: i32 = wire::read32_signed(body, 4);
    v <= SCROLL_MAX && v >= -SCROLL_MAX && h <= SCROLL_MAX && h >= -SCROLL_MAX
}

fn check_button(body: &[u8]) -> (ok: bool)
    ensures
        ok == button_body_ok(body@),
{
    if body.len() != 4 {
        return false;
    }
    let code: u16 = wire::read16(body, 0);
    body[3] == 0 && body[2] <= 1 && 272 <= code && code <= 276
}

fn check_key(body: &[u8]) -> (ok: bool)
    ensures
        ok == key_body_ok(body@),
{
    if body.len() != 2 {
        return false;
    }
    let code: u16 = wire::read16(body, 0);
    1 <= code && code <= KEY_MAX
}

/// The number of items of a counted body, if it is one.
fn check_count(body: &[u8], size: usize) -> (n: Option<usize>)
    requires
        size == 4 || size == 12,
    ensures
        n is Some <==> counted_body_ok(body@, size as int),
        n is Some ==> n->0 == wire::u16_at(body@, 0),
{
    if body.len() < 4 {
        return None;
    }
    let count: usize = wire::read16(body, 0) as usize;
    if wire::read16(body, 2) != 0 || count == 0 || count > BATCH_MAX_ITEMS {
        return None;
    }
    if size == 4 {
        if body.len() != 4 + 4 * count {
            return None;
        }
    } else {
        if body.len() != 4 + 12 * count {
            return None;
        }
    }
    Some(count)
}

fn check_batch(body: &[u8]) -> (ok: bool)
    ensures
        ok == batch_body_ok(body@),
{
    let count: usize = match check_count(body, 12) {
        Some(n) => n,
        None => {
            return false;
        },
    };
    let mut i: usize = 0;
    while i < count
        invariant
            i <= count <= BATCH_MAX_ITEMS,
            counted_body_ok(body@, 12),
            count == wire::u16_at(body@, 0),
            forall|j: int| 0 <= j < i ==> #[trigger] batch_item_ok(body@, j),
        decreases count - i,
    {
        let batched: bool = match Op::from_u16(wire::read16(body, 4 + 12 * i)) {
            Some(Op::MoveAbs) => true,
            Some(Op::MoveRel) => true,
            Some(Op::Scroll) => true,
            Some(Op::Button) => true,
            Some(Op::KeyDown) => true,
            Some(Op::KeyUp) => true,
            _ => false,
        };
        if !batched || wire::read16(body, 6 + 12 * i) != 0 {
            assert(!batch_item_ok(body@, i as int));
            return false;
        }
        i = i + 1;
    }
    true
}

/// Where `code` stands in `held`.
fn position(held: &Vec<u16>, code: u16) -> (at: Option<usize>)
    ensures
        match at {
            Some(i) => i < held@.len() && held@[i as int] == code,
            None => !held@.contains(code),
        },
{
    let mut i: usize = 0;
    while i < held.len()
        invariant
            i <= held@.len(),
            forall|j: int| 0 <= j < i ==> #[trigger] held@[j] != code,
        decreases held.len() - i,
    {
        if held[i] == code {
            return Some(i);
        }
        i = i + 1;
    }
    None
}

/// `held` lists the keys of `keys`, each once.
spec fn lists(held: Seq<u16>, keys: Set<int>) -> bool {
    &&& held.no_duplicates()
    &&& forall|c: u16| #[trigger] held.contains(c) <==> keys.contains(c as int)
    &&& forall|k: int| #[trigger] keys.contains(k) ==> 0 <= k <= u16::MAX
}

fn check_sequence(body: &[u8]) -> (ok: bool)
    ensures
        ok == sequence_body_ok(body@),
{
    let count: usize = match check_count(body, 4) {
        Some(n) => n,
        None => {
            return false;
        },
    };
    let mut held: Vec<u16> = Vec::new();
    let mut i: usize = 0;
    while i < count
        invariant
            i <= count <= BATCH_MAX_ITEMS,
            counted_body_ok(body@, 4),
            count == wire::u16_at(body@, 0),
            lists(held@, held_after(body@, i as int)),
            forall|j: int| 0 <= j < i ==> #[trigger] sequence_item_ok(body@, j),
        decreases count - i,
    {
        let code: u16 = wire::read16(body, 4 + 4 * i);
        let value: u8 = body[6 + 4 * i];
        if body[7 + 4 * i] != 0 || value > 1 || code < 1 || code > KEY_MAX {
            assert(!sequence_item_ok(body@, i as int));
            return false;
        }
        let ghost before = held@;
        match position(&held, code) {
            Some(at) => {
                assert(before.contains(code));
                if value == 1 {
                    assert(!sequence_item_ok(body@, i as int));
                    return false;
                }
                held.remove(at);
                proof {
                    lemma_removed(before, held_after(body@, i as int), at as int);
                    assert(held@ =~= before.remove(at as int));
                }
            },
            None => {
                if value != 1 {
                    assert(!sequence_item_ok(body@, i as int));
                    return false;
                }
                held.push(code);
                proof {
                    lemma_pushed(before, held_after(body@, i as int), code);
                }
            },
        }
        assert(sequence_item_ok(body@, i as int));
        i = i + 1;
    }
    if held.len() > 0 {
        assert(held@.contains(held@[0]));
        assert(held_after(body@, count as int).contains(held@[0] as int));
        return false;  // unbalanced
    }
    proof {
        let keys = held_after(body@, count as int);
        assert forall|k: int| !keys.contains(k) by {
            if keys.contains(k) {
                assert(held@.contains(k as u16));
            }
        }
        assert(keys =~= Set::empty());
    }
    true
}

proof fn lemma_pushed(held: Seq<u16>, keys: Set<int>, code: u16)
    requires
        lists(held, keys),
        !held.contains(code),
    ensures
        lists(held.push(code), keys.insert(code as int)),
{
    let next = held.push(code);
    assert forall|c: u16| #[trigger] next.contains(c) <==> keys.insert(code as int).contains(
        c as int,
    ) by {
        if next.contains(c) {
            let j = next.index_of(c);
            if j < held.len() {
                assert(held[j] == c);
                assert(held.contains(c));
            }
        }
        if keys.contains(c as int) {
            assert(held.contains(c));
            let j = held.index_of(c);
            assert(next[j] == c);
        }
        if c == code {
            assert(next[held.len() as int] == c);
        }
    }
}

proof fn lemma_removed(held: Seq<u16>, keys: Set<int>, at: int)
    requires
        lists(held, keys),
        0 <= at < held.len(),
    ensures
        lists(held.remove(at), keys.remove(held[at] as int)),
{
    let next = held.remove(at);
    assert forall|c: u16| #[trigger] next.contains(c) <==> keys.remove(held[at] as int).contains(
        c as int,
    ) by {
        if next.contains(c) {
            let j = next.index_of(c);
            let k = if j < at {
                j
            } else {
                j + 1
            };
            assert(held[k] == c);
            assert(held.contains(c));
        }
        if keys.remove(held[at] as int).contains(c as int) {
            assert(held.contains(c));
            let j = held.index_of(c);
            let k = if j < at {
                j
            } else {
                j - 1
            };
            assert(next[k] == c);
        }
    }
}

/// The encoder never emits a frame that the broker refuses: whatever request
/// it frames, the frame is accepted before the handshake and after it. A
/// greeting must offer the version spoken here, for it is stamped with it.
pub proof fn encoder_frames_are_accepted(
    req: Request,
    source_tag: SourceTag,
    seq: u32,
    room: int,
    pinned: Option<u16>,
)
    requires
        req.refusal(room) is None,
        pinned is Some ==> pinned->0 == PROTO_VERSION,
        req matches Request::Hello { proto_min, proto_max, .. } ==> proto_min <= PROTO_VERSION
            <= proto_max,
    ensures
        verdict(req.frame(source_tag, seq), pinned) is Ok,
{
    let h = req.header(source_tag, seq);
    let frame = req.frame(source_tag, seq);
    wire::header_reads_back(h, req.payload());
    wire::op_numbers_are_one_to_one(req.op(), 0);
    wire::lemma_payload_len(req);
    let body = frame.subrange(HEADER_LEN as int, HEADER_LEN + h.payload_len);
    assert(body =~= req.payload());
    match req {
        Request::Ping => {},
        Request::Hello { proto_min, proto_max, client_name } => {
            let name = wire::name_bytes(client_name@);
            wire::lemma_le16_reads_back(proto_min as int);
            wire::lemma_le16_reads_back(proto_max as int);
            assert(wire::u16_at(body, 0) == wire::u16_at(wire::le16(proto_min as int), 0));
            assert(wire::u16_at(body, 2) == wire::u16_at(wire::le16(proto_max as int), 0));
            let field = body.subrange(4, 4 + CLIENT_NAME_MAX as int);
            assert(field =~= wire::padded_name(name));
            assert(is_name_of_len(field, name.len() as int));
        },
        Request::MoveAbs { x, y } => {},
        Request::MoveRel { dx, dy } => {
            lemma_pair_reads_back(dx, dy);
        },
        Request::Scroll { notches_v, notches_h } => {
            lemma_pair_reads_back(notches_v, notches_h);
        },
        Request::Button { code, down } => {
            wire::lemma_le16_reads_back(code.number() as int);
            assert(wire::u16_at(body, 0) == wire::u16_at(wire::le16(code.number() as int), 0));
        },
        Request::Batch(items) => {
            wire::lemma_le16_reads_back(items@.len() as int);
            wire::lemma_le16_reads_back(0);
            assert(wire::u16_at(body, 0) == wire::u16_at(wire::le16(items@.len() as int), 0));
            assert(wire::u16_at(body, 2) == wire::u16_at(wire::le16(0), 0));
            assert forall|i: int| 0 <= i < items@.len() implies #[trigger] batch_item_ok(
                body,
                i,
            ) by {
                lemma_item_stands_at(items@, i);
                let bytes = items@[i].bytes();
                assert forall|k: int| 0 <= k < 12 implies #[trigger] body[4 + 12 * i + k]
                    == bytes[k] by {
                    assert(wire::items_bytes(items@)[12 * i + k] == bytes[k]);
                }
                wire::lemma_le16_reads_back(items@[i].op().number() as int);
                assert(body[4 + 12 * i + 0] == bytes[0]);
                assert(body[4 + 12 * i + 1] == bytes[1]);
                assert(body[4 + 12 * i + 2] == bytes[2]);
                assert(body[4 + 12 * i + 3] == bytes[3]);
                assert(wire::u16_at(body, 4 + 12 * i) == items@[i].op().number());
                assert(wire::u16_at(body, 6 + 12 * i) == 0);
            }
        },
    }
}

proof fn lemma_pair_reads_back(a: i32, b: i32)
    ensures
        wire::i32_at(wire::le32_signed(a as int) + wire::le32_signed(b as int), 0) == a,
        wire::i32_at(wire::le32_signed(a as int) + wire::le32_signed(b as int), 4) == b,
{
    let s = wire::le32_signed(a as int) + wire::le32_signed(b as int);
    wire::lemma_le32_signed_reads_back(a as int);
    wire::lemma_le32_signed_reads_back(b as int);
    assert(wire::u32_at(s, 0) == wire::u32_at(wire::le32_signed(a as int), 0));
    assert(wire::u32_at(s, 4) == wire::u32_at(wire::le32_signed(b as int), 0));
}

/// The bytes of item `i` stand at offset `12 * i`.
proof fn lemma_item_stands_at(items: Seq<wire::BatchItem>, i: int)
    requires
        0 <= i < items.len(),
    ensures
        wire::items_bytes(items).len() == 12 * items.len(),
        forall|k: int|
            0 <= k < 12 ==> #[trigger] wire::items_bytes(items)[12 * i + k] == items[i].bytes()[k],
    decreases items.len(),
{
    let front = items.drop_last();
    wire::lemma_items_len(front);
    wire::lemma_items_len(items);
    if i < front.len() {
        lemma_item_stands_at(front, i);
        assert forall|k: int| 0 <= k < 12 implies #[trigger] wire::items_bytes(items)[12 * i + k]
            == items[i].bytes()[k] by {
            assert(wire::items_bytes(front)[12 * i + k] == front[i].bytes()[k]);
        }
    }
}

} // verus!
