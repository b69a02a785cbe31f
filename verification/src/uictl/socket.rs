//! Where the broker listens.
use vstd::prelude::*;
use vstd::string::*;

use crate::text;

verus! {

/// The name of the broker's socket in the runtime directory.
pub const SOCKET_NAME: &'static str = "uictld.sock";

/// The user to assume when nothing says who it is.
pub const DEFAULT_UID: u32 = 1000;

/// Unicode's white space.
pub open spec fn white(c: char) -> bool {
    ||| '\t' <= c <= '\r'
    ||| c == ' '
    ||| c == '\u{85}'
    ||| c == '\u{a0}'
    ||| c == '\u{1680}'
    ||| '\u{2000}' <= c <= '\u{200a}'
    ||| c == '\u{2028}'
    ||| c == '\u{2029}'
    ||| c == '\u{202f}'
    ||| c == '\u{205f}'
    ||| c == '\u{3000}'
}

fn is_white(c: char) -> (r: bool)
    ensures
        r == white(c),
{
    ('\t' <= c && c <= '\r') || c == ' ' || c == '\u{85}' || c == '\u{a0}' || c == '\u{1680}' || (
    '\u{2000}' <= c && c <= '\u{200a}') || c == '\u{2028}' || c == '\u{2029}' || c == '\u{202f}'
        || c == '\u{205f}' || c == '\u{3000}'
}

/// A line begins at `i`, and with the label of the user's number.
pub open spec fn labelled(s: Seq<char>, i: int) -> bool {
    text::found_at(s, "Uid:"@, i) && (i == 0 || s[i - 1] == '\n')
}

/// The first place from `i` on that is not white, or is the line's end.
pub open spec fn after_white(s: Seq<char>, i: int) -> int
    decreases s.len() - i,
{
    if i < s.len() && s[i] != '\n' && white(s[i]) {
        after_white(s, i + 1)
    } else {
        i
    }
}

/// The first place from `i` on that is white, or the text's end.
pub open spec fn after_word(s: Seq<char>, i: int) -> int
    decreases s.len() - i,
{
    if i < s.len() && !white(s[i]) {
        after_word(s, i + 1)
    } else {
        i
    }
}

/// A decimal digit.
pub open spec fn digit(c: char) -> bool {
    '0' <= c <= '9'
}

/// The number a row of digits stands for.
pub open spec fn value(s: Seq<char>) -> nat
    decreases s.len(),
{
    if s.len() == 0 {
        0
    } else {
        10 * value(s.drop_last()) + (s.last() as nat - '0' as nat) as nat
    }
}

/// A word without the plus sign it may begin with.
pub open spec fn unsigned(word: Seq<char>) -> Seq<char> {
    if word.len() > 0 && word[0] == '+' {
        word.skip(1)
    } else {
        word
    }
}

/// The number a word is, if it is one that fits.
pub open spec fn number(word: Seq<char>) -> Option<u32> {
    let digits = unsigned(word);
    if digits.len() > 0 && (forall|i: int| 0 <= i < digits.len() ==> digit(#[trigger] digits[i]))
        && value(digits) <= u32::MAX {
        Some(value(digits) as u32)
    } else {
        None
    }
}

/// The first word behind a label.
pub open spec fn word_at(s: Seq<char>, i: int) -> Seq<char> {
    let from = after_white(s, i + 4);
    s.subrange(from, after_word(s, from))
}

/// The user's number in a process status, from the first line that is
/// labelled with it.
pub open spec fn says_uid(s: Seq<char>, uid: u32) -> bool {
    if exists|i: int| labelled(s, i) {
        exists|i: int|
            {
                &&& #[trigger] labelled(s, i)
                &&& forall|j: int| 0 <= j < i ==> !labelled(s, j)
                &&& uid == match number(word_at(s, i)) {
                    Some(n) => n,
                    None => DEFAULT_UID,
                }
            }
    } else {
        uid == DEFAULT_UID
    }
}

/// The number a word is, if it is one that fits.
pub fn parse_number(word: &[char]) -> (n: Option<u32>)
    ensures
        n == number(word@),
{
    let from: usize = if word.len() > 0 && word[0] == '+' {
        1
    } else {
        0
    };
    let ghost digits = unsigned(word@);
    assert(digits =~= word@.skip(from as int));
    if from == word.len() {
        return None;
    }
    let mut i: usize = from;
    let mut n: u32 = 0;
    let mut fits: bool = true;
    assert(digits.take(0) =~= Seq::empty());
    while i < word.len()
        invariant
            from <= i <= word@.len(),
            digits == word@.skip(from as int),
            digits.len() > 0,
            digits == unsigned(word@),
            forall|k: int| 0 <= k < i - from ==> digit(#[trigger] digits[k]),
            fits ==> n == value(digits.take(i - from)),
            !fits ==> value(digits.take(i - from)) > u32::MAX,
        decreases word.len() - i,
    {
        let c: char = word[i];
        assert(digits[i - from] == c);
        if c < '0' || c > '9' {
            return None;
        }
        let d: u32 = c as u32 - '0' as u32;
        assert(digits.take(i - from + 1).drop_last() =~= digits.take(i - from));
        if fits {
            let wide: u64 = 10 * n as u64 + d as u64;
            if wide > u32::MAX as u64 {
                fits = false;
            } else {
                n = wide as u32;
            }
        }
        i = i + 1;
    }
    assert(digits.take(i - from) =~= digits);
    if fits {
        Some(n)
    } else {
        None
    }
}

/// Whether a line begins here, and with the label of the user's number.
fn is_labelled(s: &Vec<char>, i: usize) -> (r: bool)
    requires
        i <= s.len(),
    ensures
        r == labelled(s@, i as int),
{
    proof {
        reveal_strlit("Uid:");
        assert("Uid:"@ =~= seq!['U', 'i', 'd', ':']);
    }
    if s.len() - i < 4 {
        return false;
    }
    let ghost part = s@.subrange(i as int, i + 4);
    assert(part[0] == s@[i as int] && part[1] == s@[i + 1] && part[2] == s@[i + 2] && part[3]
        == s@[i + 3]);
    let here: bool = s[i] == 'U' && s[i + 1] == 'i' && s[i + 2] == 'd' && s[i + 3] == ':';
    assert(here ==> part =~= "Uid:"@);
    here && (i == 0 || s[i - 1] == '\n')
}

/// The number behind a label; the usual one where there is none.
fn uid_behind(s: &Vec<char>, i: usize) -> (uid: u32)
    requires
        i + 4 <= s.len(),
    ensures
        uid == match number(word_at(s@, i as int)) {
            Some(n) => n,
            None => DEFAULT_UID,
        },
{
    let n: usize = s.len();
    let mut from: usize = i + 4;
    while from < n && s[from] != '\n' && is_white(s[from])
        invariant
            i + 4 <= from <= n,
            n == s.len(),
            after_white(s@, from as int) == after_white(s@, i + 4),
        decreases n - from,
    {
        from = from + 1;
    }
    let mut to: usize = from;
    while to < n && !is_white(s[to])
        invariant
            from <= to <= n,
            n == s.len(),
            after_word(s@, to as int) == after_word(s@, from as int),
        decreases n - to,
    {
        to = to + 1;
    }
    let word: &[char] = vstd::slice::slice_subrange(s.as_slice(), from, to);
    match parse_number(word) {
        Some(uid) => uid,
        None => DEFAULT_UID,
    }
}

/// The user's number in a process status; the usual one where it does not
/// say.
pub fn uid_in_status(status: &str) -> (uid: u32)
    ensures
        says_uid(status@, uid),
{
    let s: Vec<char> = text::chars(status);
    let n: usize = s.len();
    let mut i: usize = 0;
    while i < n
        invariant
            i <= n,
            n == s.len(),
            s@ == status@,
            forall|j: int| 0 <= j < i ==> !labelled(status@, j),
        decreases n - i,
    {
        if is_labelled(&s, i) {
            proof {
                reveal_strlit("Uid:");
            }
            return uid_behind(&s, i);
        }
        i = i + 1;
    }
    proof {
        reveal_strlit("Uid:");
        assert forall|j: int| !labelled(status@, j) by {}
    }
    DEFAULT_UID
}

/// The runtime directory of a user, for when the session does not name it.
pub fn runtime_dir(uid: u32) -> (s: String)
    ensures
        s@ == "/run/user/"@ + text::decimal(uid as nat),
{
    let mut s: String = "/run/user/".to_owned();
    text::push_decimal(&mut s, uid as u64);
    s
}

} // verus!
