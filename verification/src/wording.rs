//! Numbers and texts.
//!
//! The laws of the arithmetic and the wording that the rest is built from:
//! what a number is rounded, cut or written to, and what is said of an error.
use vstd::prelude::*;

use crate::a11y::error::ErrorView;
use crate::num;
use crate::sort;
use crate::sort::Key;
use crate::text;
use crate::uictl::client::Error;
use crate::uictl::socket;
use crate::uictl::wire::{EncodeError, Op, ResultCode};

verus! {

/// A number is written with its last digit last, and what stands before that
/// is the number without it.
pub proof fn a_number_is_written_digit_by_digit(n: nat)
    ensures
        text::decimal(n).len() > 0,
        text::decimal(n).last() == (48 + n % 10) as char,
        n < 10 ==> text::decimal(n).len() == 1,
        n >= 10 ==> text::decimal(n).drop_last() == text::decimal(n / 10),
{
    if n >= 10 {
        assert(text::decimal(n).drop_last() =~= text::decimal(n / 10));
    }
}

/// What is written of a number is read as that number again.
pub proof fn a_written_number_is_read_back(n: nat)
    ensures
        socket::value(text::decimal(n)) == n,
        forall|i: int| 0 <= i < text::decimal(n).len() ==> '0' <= #[trigger] text::decimal(n)[i] <= '9',
    decreases n,
{
    a_number_is_written_digit_by_digit(n);
    let s = text::decimal(n);
    if n >= 10 {
        a_written_number_is_read_back(n / 10);
        assert forall|i: int| 0 <= i < s.len() implies '0' <= #[trigger] s[i] <= '9' by {
            if i < s.len() - 1 {
                assert(s[i] == text::decimal(n / 10)[i]);
            }
        }
    } else {
        assert(s.drop_last() =~= Seq::<char>::empty());
        assert(socket::value(s.drop_last()) == 0);
    }
}

/// A negative number has a dash before its digits.
pub proof fn a_negative_number_has_a_dash(n: int)
    ensures
        n >= 0 ==> text::signed_decimal(n) == text::decimal(n as nat),
        n < 0 ==> text::signed_decimal(n).len() == 1 + text::decimal((-n) as nat).len(),
        n < 0 ==> text::signed_decimal(n)[0] == '-',
        n < 0 ==> text::signed_decimal(n).skip(1) == text::decimal((-n) as nat),
{
    reveal_strlit("-");
    if n < 0 {
        assert(text::signed_decimal(n).skip(1) =~= text::decimal((-n) as nat));
    }
}

/// Digits are worth ten times what they were for every digit behind them.
pub proof fn a_digit_is_worth_its_place(s: Seq<char>, c: char)
    requires
        '0' <= c <= '9',
    ensures
        socket::value(Seq::empty()) == 0,
        socket::value(s.push(c)) == 10 * socket::value(s) + (c as int - 48),
{
    assert(s.push(c).drop_last() =~= s);
}

/// A word of digits, with or without a plus before them, is the number they
/// are worth, as long as that is one of thirty-two bits; every other word is
/// none.
pub proof fn a_word_of_digits_is_a_number(digits: Seq<char>, word: Seq<char>, i: int)
    requires
        digits.len() > 0,
        forall|k: int| 0 <= k < digits.len() ==> '0' <= #[trigger] digits[k] <= '9',
    ensures
        socket::value(digits) <= 0xffff_ffff ==> socket::number(digits) is Some && socket::number(
            digits,
        )->0 == socket::value(digits),
        socket::value(digits) > 0xffff_ffff ==> socket::number(digits) is None,
        socket::number(seq!['+'] + digits) == socket::number(digits),
        word.len() == 0 ==> socket::number(word) is None,
        0 < i < word.len() && !('0' <= word[i] <= '9') ==> socket::number(word) is None,
        word.len() > 0 && word[0] != '+' && !('0' <= word[0] <= '9') ==> socket::number(word) is None,
        word.len() == 1 && word[0] == '+' ==> socket::number(word) is None,
{
    assert(digits[0] != '+');
    let signed = seq!['+'] + digits;
    assert(signed[0] == '+');
    assert(signed.skip(1) =~= digits);
    let d = socket::unsigned(word);
    if 0 < i < word.len() && !('0' <= word[i] <= '9') {
        if word[0] == '+' {
            assert(d[i - 1] == word[i]);
        } else {
            assert(d[i] == word[i]);
        }
    }
    if word.len() > 0 && word[0] != '+' && !('0' <= word[0] <= '9') {
        assert(d[0] == word[0]);
    }
}

/// These characters are white, and no others.
pub proof fn white_is_what_separates_words(c: char)
    ensures
        socket::white(c) <==> {
            let n = c as u32;
            ||| 9 <= n <= 13
            ||| n == 32
            ||| n == 0x85
            ||| n == 0xa0
            ||| n == 0x1680
            ||| 0x2000 <= n <= 0x200a
            ||| n == 0x2028
            ||| n == 0x2029
            ||| n == 0x202f
            ||| n == 0x205f
            ||| n == 0x3000
        },
{
}

/// The user's number is the digits behind the first label that stands at the
/// start of a line, blanks passed over; the usual one where they are too large
/// to be one.
pub proof fn the_user_is_named_behind_the_label(s: Seq<char>, i: int, a: int, b: int, uid: u32)
    requires
        0 <= i,
        i + 4 <= a < b <= s.len(),
        s[i] == 'U' && s[i + 1] == 'i' && s[i + 2] == 'd' && s[i + 3] == ':',
        i == 0 || s[i - 1] == '\n',
        forall|j: int|
            0 <= j < i ==> !(#[trigger] s[j] == 'U' && s[j + 1] == 'i' && s[j + 2] == 'd' && s[j + 3]
                == ':' && (j == 0 || s[j - 1] == '\n')),
        forall|k: int| i + 4 <= k < a ==> #[trigger] s[k] == ' ' || s[k] == '\t',
        forall|k: int| a <= k < b ==> '0' <= #[trigger] s[k] <= '9',
        b < s.len() ==> s[b] == ' ' || s[b] == '\t' || s[b] == '\n',
    ensures
        ({
            let worth = socket::value(s.subrange(a, b));
            &&& worth <= 0xffff_ffff ==> (socket::says_uid(s, uid) <==> uid == worth)
            &&& worth > 0xffff_ffff ==> (socket::says_uid(s, uid) <==> uid == 1000)
        }),
{
    lemma_labelled(s, i);
    assert forall|j: int| 0 <= j < i implies !socket::labelled(s, j) by {
        lemma_labelled(s, j);
        assert(!(s[j] == 'U' && s[j + 1] == 'i' && s[j + 2] == 'd' && s[j + 3] == ':' && (j == 0
            || s[j - 1] == '\n')));
    }
    lemma_after_blanks(s, i + 4, a);
    lemma_after_digits(s, a, b);
    let word = s.subrange(a, b);
    assert(socket::word_at(s, i) == word);
    assert forall|k: int| 0 <= k < word.len() implies '0' <= #[trigger] word[k] <= '9' by {
        assert(word[k] == s[a + k]);
    }
    a_word_of_digits_is_a_number(word, word, 0);
    assert forall|j: int| #[trigger]
        socket::labelled(s, j) && (forall|k: int| 0 <= k < j ==> !socket::labelled(s, k)) implies j
        == i by {
        if j > i {
            assert(!socket::labelled(s, i));
        }
        assert(0 <= j);
    }
}

/// A status without the label names the usual user.
pub proof fn an_unlabelled_status_names_the_usual_user(s: Seq<char>, uid: u32)
    requires
        forall|j: int|
            0 <= j <= s.len() - 4 ==> !(#[trigger] s[j] == 'U' && s[j + 1] == 'i' && s[j + 2] == 'd'
                && s[j + 3] == ':' && (j == 0 || s[j - 1] == '\n')),
    ensures
        socket::says_uid(s, uid) <==> uid == 1000,
{
    assert forall|j: int| !#[trigger] socket::labelled(s, j) by {
        lemma_labelled(s, j);
        if 0 <= j <= s.len() - 4 {
            assert(!(s[j] == 'U' && s[j + 1] == 'i' && s[j + 2] == 'd' && s[j + 3] == ':' && (j == 0
                || s[j - 1] == '\n')));
        }
    }
}

proof fn lemma_labelled(s: Seq<char>, i: int)
    ensures
        socket::labelled(s, i) <==> 0 <= i && i + 4 <= s.len() && s[i] == 'U' && s[i + 1] == 'i' && s[i
            + 2] == 'd' && s[i + 3] == ':' && (i == 0 || s[i - 1] == '\n'),
{
    reveal_strlit("Uid:");
    if 0 <= i && i + 4 <= s.len() {
        let part = s.subrange(i, i + 4);
        assert(part[0] == s[i] && part[1] == s[i + 1] && part[2] == s[i + 2] && part[3] == s[i + 3]);
        if s[i] == 'U' && s[i + 1] == 'i' && s[i + 2] == 'd' && s[i + 3] == ':' {
            assert(part =~= "Uid:"@);
        }
    }
}

proof fn lemma_after_blanks(s: Seq<char>, from: int, to: int)
    requires
        0 <= from <= to < s.len(),
        forall|k: int| from <= k < to ==> #[trigger] s[k] == ' ' || s[k] == '\t',
        '0' <= s[to] <= '9',
    ensures
        socket::after_white(s, from) == to,
    decreases to - from,
{
    if from < to {
        assert(s[from] == ' ' || s[from] == '\t');
        lemma_after_blanks(s, from + 1, to);
    }
}

proof fn lemma_after_digits(s: Seq<char>, from: int, to: int)
    requires
        0 <= from <= to <= s.len(),
        forall|k: int| from <= k < to ==> '0' <= #[trigger] s[k] <= '9',
        to < s.len() ==> s[to] == ' ' || s[to] == '\t' || s[to] == '\n',
    ensures
        socket::after_word(s, from) == to,
    decreases to - from,
{
    if from < to {
        assert('0' <= s[from] <= '9');
        lemma_after_digits(s, from + 1, to);
    }
}

/// A text holds each part it is made of, and ends in its last.
pub proof fn a_text_holds_its_parts(a: Seq<char>, part: Seq<char>, b: Seq<char>)
    ensures
        text::holds(a + part + b, part),
        text::ends_in(a + part, part),
{
    let s = a + part + b;
    let i = a.len() as int;
    assert(s.subrange(i, i + part.len()) =~= part);
    assert(text::found_at(s, part, i));
    assert((a + part).skip(i) =~= part);
}

/// What a text holds stands in it, character by character.
pub proof fn what_a_text_holds_stands_in_it(s: Seq<char>, part: Seq<char>) -> (i: int)
    requires
        text::holds(s, part),
    ensures
        0 <= i <= s.len() - part.len(),
        forall|k: int| 0 <= k < part.len() ==> s[i + k] == #[trigger] part[k],
{
    let i = choose|i: int| #[trigger] text::found_at(s, part, i);
    assert forall|k: int| 0 <= k < part.len() implies s[i + k] == #[trigger] part[k] by {
        assert(s.subrange(i, i + part.len())[k] == s[i + k]);
    }
    i
}

/// What a text ends in are its last characters.
pub proof fn a_text_ends_in_its_last_characters(s: Seq<char>, tail: Seq<char>, k: int)
    requires
        text::ends_in(s, tail),
    ensures
        tail.len() <= s.len(),
        0 <= k < tail.len() ==> tail[k] == s[s.len() - tail.len() + k],
{
    if 0 <= k < tail.len() {
        assert(s.skip(s.len() - tail.len())[k] == s[s.len() - tail.len() + k]);
    }
}

/// A sum stops at the ends of the thirty-two bits.
pub proof fn a_sum_stops_at_the_ends(a: int, b: int)
    ensures
        -0x8000_0000 <= a + b <= 0x7fff_ffff ==> num::sat_add(a, b) == a + b,
        a + b > 0x7fff_ffff ==> num::sat_add(a, b) == 0x7fff_ffff,
        a + b < -0x8000_0000 ==> num::sat_add(a, b) == -0x8000_0000,
        num::fits(a) <==> -0x8000_0000 <= a <= 0x7fff_ffff,
{
}

/// What is cut to a range is in it, and is as near as can be.
pub proof fn what_is_cut_to_a_range_is_the_nearest_in_it(x: int, lo: int, hi: int)
    requires
        lo <= hi,
    ensures
        lo <= num::clamped(x, lo, hi) <= hi,
        lo <= x <= hi ==> num::clamped(x, lo, hi) == x,
        x <= lo ==> num::clamped(x, lo, hi) == lo,
        x >= hi ==> num::clamped(x, lo, hi) == hi,
{
}

/// Half of a number is cut towards nothing; of two numbers one is larger and
/// the other smaller; a magnitude has no sign.
pub proof fn halves_and_extremes(a: int, b: int)
    ensures
        a >= 0 ==> 0 <= a - 2 * num::half(a) <= 1,
        a < 0 ==> -1 <= a - 2 * num::half(a) <= 0,
        num::larger(a, b) >= a && num::larger(a, b) >= b,
        num::smaller(a, b) <= a && num::smaller(a, b) <= b,
        num::larger(a, b) + num::smaller(a, b) == a + b,
        num::magnitude(a) >= 0,
        num::magnitude(a) == a || num::magnitude(a) == -a,
{
}

/// A quotient is rounded to the nearest number, and away from nothing where
/// two are as near.
pub proof fn a_quotient_is_rounded_to_the_nearest(n: int, d: int)
    requires
        d > 0,
    ensures
        n >= 0 ==> 2 * n - d < 2 * (num::rounded(n, d) * d) <= 2 * n + d,
        n < 0 ==> 2 * n - d <= 2 * (num::rounded(n, d) * d) < 2 * n + d,
{
    if n >= 0 {
        let q = (2 * n + d) / (2 * d);
        assert(2 * n - d < 2 * (q * d) <= 2 * n + d) by (nonlinear_arith)
            requires
                d > 0,
                q == (2 * n + d) / (2 * d),
        ;
    } else {
        let q = (2 * -n + d) / (2 * d);
        assert(2 * -n - d < 2 * (q * d) <= 2 * -n + d) by (nonlinear_arith)
            requires
                d > 0,
                q == (2 * -n + d) / (2 * d),
        ;
        assert((-q) * d == -(q * d)) by (nonlinear_arith);
    }
}

/// Keys are compared by their first part, then by their second, their third
/// and their index.
pub proof fn the_first_part_that_differs_decides(a: Key, b: Key)
    ensures
        a.0 < b.0 ==> sort::key_le(a, b) && !sort::key_le(b, a),
        a.0 == b.0 && a.1 < b.1 ==> sort::key_le(a, b) && !sort::key_le(b, a),
        a.0 == b.0 && a.1 == b.1 && a.2 < b.2 ==> sort::key_le(a, b) && !sort::key_le(b, a),
        a.0 == b.0 && a.1 == b.1 && a.2 == b.2 && a.3 < b.3 ==> sort::key_le(a, b)
            && !sort::key_le(b, a),
        sort::key_le(a, a),
{
}

/// Sorted keys never go back.
pub proof fn sorted_keys_never_go_back(keys: Seq<Key>, i: int, j: int)
    requires
        sort::in_order(keys),
        0 <= i < j < keys.len(),
    ensures
        keys[i].0 <= keys[j].0,
        keys[i].0 == keys[j].0 ==> keys[i].1 <= keys[j].1,
        keys[i].0 == keys[j].0 && keys[i].1 == keys[j].1 ==> keys[i].2 <= keys[j].2,
        keys[i].0 == keys[j].0 && keys[i].1 == keys[j].1 && keys[i].2 == keys[j].2 ==> keys[i].3
            <= keys[j].3,
{
    assert(sort::key_le(keys[i], keys[j]));
}

/// A fault of the bus is told with what it is about; a call that stalled, with
/// the five seconds it was given.
pub proof fn a_fault_of_the_bus_says_what_it_is_about(what: Seq<char>)
    ensures
        ErrorView::Bus(what).message() == "at-spi: "@ + what,
        ErrorView::Timeout(what).message() == "at-spi: '"@ + what
            + "' timed out; the application is not answering"@,
        ErrorView::Disconnected.message() == "at-spi: detection thread is gone"@,
        ErrorView::Stalled(what).message() == "at-spi: '"@ + what + "' did not answer in "@ + seq![
            '5',
        ]
            + "s — the accessibility bus or the application behind it has stopped responding. muvor is not stuck; it gave up on purpose (§4.2-ii)"@,
{
    assert(text::decimal(5) =~= seq!['5']);
}

/// A request that was refused is told with its name and the number of the
/// refusal, and a refusal by policy with what to do about it.
pub proof fn a_refusal_is_told_by_name_and_number(op: Op, result: ResultCode)
    ensures
        ({
            let said = (Error::Refused { op, result }).message();
            let plain = "uictl refused "@ + op.called() + ": result "@ + text::decimal(
                result.0 as nat,
            );
            &&& result.0 != 4 ==> said == plain
            &&& result.0 == 4 ==> said == plain
                + "\n  hint: add 'muvor interactive exe=<abs path>' to ~/.config/uictl/clients"@
        }),
{
    let said = (Error::Refused { op, result }).message();
    let plain = "uictl refused "@ + op.called() + ": result "@ + text::decimal(result.0 as nat);
    if result.0 != 4 {
        assert(said =~= plain);
    }
}

/// What else goes wrong with the broker is told in these words.
pub proof fn a_fault_of_the_broker_is_told(op: Op, e: EncodeError, what: String)
    ensures
        Error::Io(what).message() == "uictl socket: "@ + what@,
        Error::Encode(e).message() == "cannot encode request: "@ + e.called(),
        Error::Mismatched.message() == "uictl reply did not echo the request header"@,
        Error::ShortHello.message() == "HELLO response shorter than 24 bytes"@,
        Error::ReservedNonZero.message()
            == "HELLO reserved field non-zero — daemon may be leaking memory"@,
        Error::Unsupported(op).message() == "daemon does not implement "@ + op.called(),
{
}

/// An operation is called by its own name.
pub proof fn an_operation_is_called_by_its_name(op: Op)
    ensures
        op is Invalid ==> op.called() == "Invalid"@,
        op is Ping ==> op.called() == "Ping"@,
        op is MoveAbs ==> op.called() == "MoveAbs"@,
        op is Hello ==> op.called() == "Hello"@,
        op is KeyTap ==> op.called() == "KeyTap"@,
        op is KeySequence ==> op.called() == "KeySequence"@,
        op is KeyDown ==> op.called() == "KeyDown"@,
        op is KeyUp ==> op.called() == "KeyUp"@,
        op is ConfirmSubscribe ==> op.called() == "ConfirmSubscribe"@,
        op is ConfirmRequest ==> op.called() == "ConfirmRequest"@,
        op is ConfirmDecide ==> op.called() == "ConfirmDecide"@,
        op is Button ==> op.called() == "Button"@,
        op is MoveRel ==> op.called() == "MoveRel"@,
        op is Scroll ==> op.called() == "Scroll"@,
        op is Batch ==> op.called() == "Batch"@,
{
}

/// A fault of a request is called by its own name.
pub proof fn a_fault_of_a_request_is_called_by_its_name(e: EncodeError)
    ensures
        e is BadClientName ==> e.called() == "BadClientName"@,
        e is BatchSize ==> e.called() == "BatchSize"@,
        e is ZeroDelta ==> e.called() == "ZeroDelta"@,
        e is ScrollRange ==> e.called() == "ScrollRange"@,
        e is BufferTooSmall ==> e.called() == "BufferTooSmall"@,
{
}

} // verus!
