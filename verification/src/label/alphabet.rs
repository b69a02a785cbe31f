//! What labels are spelt with.
use vstd::arithmetic::power;
use vstd::prelude::*;
use vstd::string::*;

use crate::num;
use crate::text;

verus! {

/// The default alphabet: home row, left hand to right, no reaches.
///
/// Ten characters is exactly 100 two-character labels.
pub const HOME_ROW: &'static str = "asdfghjkl;";

/// The rank alphabet: what the *second* key counts with, inside a column.
///
/// Home row first, because that is where the hand is. Then the top row, then
/// the bottom row, then the same three shifted — so the reach grows only as
/// a column gets crowded, and the first ten targets in any column are still
/// pure home row.
pub const RANK_ROWS: &'static str = "asdfghjkl;qwertyuiopzxcvbnm,./ASDFGHJKL:QWERTYUIOPZXCVBNM<>?";

/// Labels are always **at least** this long.
///
/// A window with four targets could be labelled with one key each, and then
/// every label would change the first time an eleventh button appears. Two
/// keys, always, is a promise that can be kept.
pub const MIN_LEN: usize = 2;

/// At least two characters, no two the same. Its view is the characters.
#[derive(Debug, PartialEq, Eq)]
pub struct Alphabet {
    chars: Vec<char>,
}

#[derive(Debug, Clone, Copy, PartialEq, Eq, Structural)]
pub enum AlphabetError {
    /// Fewer than two characters cannot produce a growing label set.
    TooShort,
    /// A repeated character makes a label ambiguous the moment it is typed.
    Duplicate(char),
}

impl AlphabetError {
    /// What the error says.
    pub open spec fn message(self) -> Seq<char> {
        match self {
            AlphabetError::TooShort => "an alphabet needs at least 2 characters"@,
            AlphabetError::Duplicate(c) => "alphabet contains '"@ + seq![c] + "' twice"@,
        }
    }

    /// What the error says.
    pub fn describe(&self) -> (s: String)
        ensures
            s@ == self.message(),
    {
        match *self {
            AlphabetError::TooShort => "an alphabet needs at least 2 characters".to_owned(),
            AlphabetError::Duplicate(c) => {
                let mut s: String = "alphabet contains '".to_owned();
                s.push(c);
                s.append("' twice");
                assert(s@ =~= self.message());
                s
            },
        }
    }
}

/// Fit to be an alphabet.
pub open spec fn is_alphabet(chars: Seq<char>) -> bool {
    chars.len() >= 2 && chars.no_duplicates()
}

/// The character at `i` is the first to repeat an earlier one.
pub open spec fn first_repeat(chars: Seq<char>, i: int) -> bool {
    &&& 0 <= i < chars.len()
    &&& chars.take(i).no_duplicates()
    &&& chars.take(i).contains(chars[i])
}

/// The `i`th label of length `len`, counted like an odometer: the last
/// character counts fastest.
pub open spec fn odometer(chars: Seq<char>, i: int, len: nat) -> Seq<char>
    decreases len,
{
    if len == 0 {
        Seq::empty()
    } else {
        odometer(chars, i / chars.len() as int, (len - 1) as nat).push(
            chars[i % chars.len() as int],
        )
    }
}

/// `len` is the least length, from `least` on, at which `base` characters
/// make `n` labels or more.
pub open spec fn is_label_len(base: nat, n: int, least: nat, len: nat) -> bool {
    &&& len >= least
    &&& power::pow(base as int, len) >= n
    &&& forall|k: nat| least <= k < len ==> #[trigger] power::pow(base as int, k) < n
}

impl Alphabet {
    /// Holds of every alphabet there is.
    #[verifier::type_invariant]
    pub open spec fn wf(self) -> bool {
        is_alphabet(self@)
    }
}

impl View for Alphabet {
    type V = Seq<char>;

    closed spec fn view(&self) -> Seq<char> {
        self.chars@
    }
}

impl Clone for Alphabet {
    fn clone(&self) -> (a: Self)
        ensures
            a@ == self@,
    {
        proof {
            use_type_invariant(self);
        }
        let chars: Vec<char> = self.chars.clone();
        assert(chars@ =~= self.chars@);
        Alphabet { chars }
    }
}

impl Default for Alphabet {
    fn default() -> (a: Self)
        ensures
            a@ == HOME_ROW@,
            is_alphabet(a@),
    {
        proof {
            reveal_strlit("asdfghjkl;");
            assert(is_alphabet(HOME_ROW@));
        }
        Alphabet { chars: text::chars(HOME_ROW) }
    }
}

impl Alphabet {
    /// The sixty ranks of [`RANK_ROWS`], for counting down a column.
    pub fn ranks() -> (a: Self)
        ensures
            a@ == RANK_ROWS@,
            is_alphabet(a@),
    {
        proof {
            reveal_strlit("asdfghjkl;qwertyuiopzxcvbnm,./ASDFGHJKL:QWERTYUIOPZXCVBNM<>?");
            assert(is_alphabet(RANK_ROWS@));
        }
        Alphabet { chars: text::chars(RANK_ROWS) }
    }

    pub fn new(chars: &str) -> (r: Result<Self, AlphabetError>)
        ensures
            match r {
                Ok(a) => a@ == chars@ && is_alphabet(chars@),
                Err(AlphabetError::TooShort) => chars@.len() < 2,
                Err(AlphabetError::Duplicate(c)) => {
                    &&& chars@.len() >= 2
                    &&& exists|i: int| #[trigger] first_repeat(chars@, i) && chars@[i] == c
                },
            },
    {
        let list: Vec<char> = text::chars(chars);
        if list.len() < 2 {
            return Err(AlphabetError::TooShort);
        }
        let mut i: usize = 0;
        while i < list.len()
            invariant
                i <= list@.len(),
                2 <= list@.len(),
                list@ == chars@,
                list@.take(i as int).no_duplicates(),
            decreases list.len() - i,
        {
            let c: char = list[i];
            let mut j: usize = 0;
            while j < i
                invariant
                    j <= i < list@.len(),
                    2 <= list@.len(),
                    c == list@[i as int],
                    list@ == chars@,
                    list@.take(i as int).no_duplicates(),
                    forall|k: int| 0 <= k < j ==> #[trigger] list@[k] != c,
                decreases i - j,
            {
                if list[j] == c {
                    assert(list@.take(i as int)[j as int] == c);
                    assert(first_repeat(chars@, i as int));
                    return Err(AlphabetError::Duplicate(c));
                }
                j = j + 1;
            }
            i = i + 1;
        }
        assert(list@.take(i as int) =~= list@);
        Ok(Alphabet { chars: list })
    }

    pub fn len(&self) -> (n: usize)
        ensures
            n == self@.len(),
            n >= 2,
    {
        proof {
            use_type_invariant(self);
        }
        self.chars.len()
    }

    pub fn is_empty(&self) -> (r: bool)
        ensures
            r == (self@.len() == 0),
            !r,
    {
        proof {
            use_type_invariant(self);
        }
        self.chars.len() == 0
    }

    pub fn chars(&self) -> (s: &[char])
        ensures
            s@ == self@,
            is_alphabet(s@),
    {
        proof {
            use_type_invariant(self);
        }
        self.chars.as_slice()
    }

    /// Position of `c` in the alphabet, or `None` if it is not in it — which
    /// is how a typo is told from a keystroke.
    pub fn index_of(&self, c: char) -> (at: Option<usize>)
        ensures
            match at {
                Some(i) => i < self@.len() && self@[i as int] == c && !self@.take(
                    i as int,
                ).contains(c),
                None => !self@.contains(c),
            },
    {
        let mut i: usize = 0;
        while i < self.chars.len()
            invariant
                i <= self.chars@.len(),
                forall|k: int| 0 <= k < i ==> #[trigger] self.chars@[k] != c,
            decreases self.chars.len() - i,
        {
            if self.chars[i] == c {
                return Some(i);
            }
            i = i + 1;
        }
        None
    }

    /// How many characters every label needs, for `n` targets.
    ///
    /// One length for the whole set, so the set is prefix-free by
    /// construction and the user always types the same number of keys.
    pub fn label_len(&self, n: usize) -> (len: usize)
        ensures
            is_label_len(self@.len(), n as int, MIN_LEN as nat, len as nat),
            is_label_len(self@.len(), n as int, 2, len as nat),
    {
        self.len_for(n, MIN_LEN)
    }

    /// The least length, from `least` on, that `n` labels fit into.
    pub(crate) fn len_for(&self, n: usize, least: usize) -> (len: usize)
        requires
            1 <= least <= 2,
        ensures
            is_label_len(self@.len(), n as int, least as nat, len as nat),
            len < usize::MAX,
    {
        proof {
            use_type_invariant(self);
        }
        let base: usize = self.chars.len();
        let ghost b = base as int;
        let mut len: usize = least;
        let mut capacity: usize = self.capacity(least);
        proof {
            power::lemma_pow1(b);
            lemma_next_power(b, 1);
            assert(b * b >= 4) by (nonlinear_arith)
                requires
                    b >= 2,
            ;
        }
        while capacity < n
            invariant
                1 <= least <= len < capacity,
                2 <= base == b == self@.len(),
                capacity as int == (if power::pow(b, len as nat) <= usize::MAX {
                    power::pow(b, len as nat)
                } else {
                    usize::MAX as int
                }),
                forall|k: nat| least <= k < len ==> #[trigger] power::pow(b, k) < n,
            decreases usize::MAX - capacity,
        {
            proof {
                lemma_next_power(b, len as nat);
                assert(capacity * b >= 2 * capacity) by (nonlinear_arith)
                    requires
                        b >= 2,
                        capacity >= 0,
                ;
            }
            capacity = num::saturating_mul(capacity, base);
            len = len + 1;
        }
        len
    }

    /// How many targets `len` characters can label. The count stops at the
    /// largest number there is; of the length its low 32 bits are taken.
    pub fn capacity(&self, len: usize) -> (n: usize)
        ensures
            n as int == (if power::pow(self@.len() as int, (len as u32) as nat) <= usize::MAX {
                power::pow(self@.len() as int, (len as u32) as nat)
            } else {
                usize::MAX as int
            }),
    {
        proof {
            use_type_invariant(self);
        }
        let base: usize = self.chars.len();
        let ghost b = base as int;
        let exponent: u32 = len as u32;
        let mut n: usize = 1;
        let mut i: u32 = 0;
        proof {
            power::lemma_pow0(b);
        }
        while i < exponent && n < usize::MAX
            invariant
                i <= exponent,
                2 <= base == b,
                n >= 1,
                n as int == (if power::pow(b, i as nat) <= usize::MAX {
                    power::pow(b, i as nat)
                } else {
                    usize::MAX as int
                }),
            decreases exponent - i,
        {
            proof {
                lemma_next_power(b, i as nat);
            }
            n = num::saturating_mul(n, base);
            i = i + 1;
        }
        proof {
            if i < exponent {
                power::lemma_pow_increases(b as nat, i as nat, exponent as nat);
            }
        }
        n
    }
}

impl Alphabet {
    /// The `i`th label of length `len`: `aa`, `as`, `ad`, … so that the first
    /// target on screen gets the first label, and labels sharing a first key
    /// are adjacent in reading order.
    pub fn nth(&self, i: usize, len: usize) -> (s: String)
        ensures
            s@ == odometer(self@, i as int, len as nat),
    {
        proof {
            use_type_invariant(self);
        }
        // Digits from the last to the first.
        let base: usize = self.chars.len();
        let mut rest: usize = i;
        let mut back: Vec<char> = Vec::new();
        let mut k: usize = 0;
        while k < len
            invariant
                k <= len,
                is_alphabet(self@),
                base == self@.len(),
                back@.len() == k,
                odometer(self@, i as int, len as nat) == odometer(
                    self@,
                    rest as int,
                    (len - k) as nat,
                ) + back@.reverse(),
            decreases len - k,
        {
            let ghost before = back@;
            let c: char = self.chars[rest % base];
            back.push(c);
            rest = rest / base;
            k = k + 1;
            assert(back@.reverse() =~= seq![c] + before.reverse());
            assert(odometer(self@, i as int, len as nat) =~= odometer(
                self@,
                rest as int,
                (len - k) as nat,
            ) + back@.reverse());
        }
        let mut s: String = String::new();
        while k > 0
            invariant
                k <= back@.len(),
                s@ == back@.reverse().take(back@.len() - k),
            decreases k,
        {
            s.push(back[k - 1]);
            k = k - 1;
            assert(s@ =~= back@.reverse().take(back@.len() - k));
        }
        assert(s@ =~= odometer(self@, i as int, len as nat));
        s
    }
}

/// A label has the length it was asked for.
pub proof fn lemma_odometer_len(chars: Seq<char>, i: int, len: nat)
    ensures
        odometer(chars, i, len).len() == len,
    decreases len,
{
    if len > 0 {
        lemma_odometer_len(chars, i / chars.len() as int, (len - 1) as nat);
    }
}

/// A label is spelt with the alphabet's characters.
pub proof fn lemma_odometer_spelt(chars: Seq<char>, i: int, len: nat)
    requires
        chars.len() > 0,
    ensures
        forall|j: int| 0 <= j < len ==> chars.contains(#[trigger] odometer(chars, i, len)[j]),
    decreases len,
{
    if len > 0 {
        let n = chars.len() as int;
        lemma_odometer_spelt(chars, i / n, (len - 1) as nat);
        lemma_odometer_len(chars, i / n, (len - 1) as nat);
        assert(0 <= i % n < n) by (nonlinear_arith)
            requires
                n > 0,
        ;
        assert(chars.contains(chars[i % n]));
        assert forall|j: int| 0 <= j < len implies chars.contains(
            #[trigger] odometer(chars, i, len)[j],
        ) by {
            if j < len - 1 {
                assert(odometer(chars, i, len)[j] == odometer(
                    chars,
                    i / n,
                    (len - 1) as nat,
                )[j]);
            }
        }
    }
}

/// Two different numbers that fit are two different labels.
pub proof fn lemma_odometer_distinct(chars: Seq<char>, i: int, j: int, len: nat)
    requires
        is_alphabet(chars),
        0 <= i < power::pow(chars.len() as int, len),
        0 <= j < power::pow(chars.len() as int, len),
        odometer(chars, i, len) == odometer(chars, j, len),
    ensures
        i == j,
    decreases len,
{
    let n = chars.len() as int;
    if len == 0 {
        power::lemma_pow0(n);
    } else {
        let less = (len - 1) as nat;
        let a = odometer(chars, i / n, less);
        let b = odometer(chars, j / n, less);
        assert(a.push(chars[i % n]).last() == b.push(chars[j % n]).last());
        assert(a =~= a.push(chars[i % n]).drop_last());
        assert(b =~= b.push(chars[j % n]).drop_last());
        assert(0 <= i % n < n && 0 <= j % n < n) by (nonlinear_arith)
            requires
                n >= 2,
        ;
        assert(i % n == j % n);
        lemma_next_power(n, less);
        let p = power::pow(n, less);
        assert(0 <= i / n < p) by (nonlinear_arith)
            requires
                0 <= i < p * n,
                n >= 2,
        ;
        assert(0 <= j / n < p) by (nonlinear_arith)
            requires
                0 <= j < p * n,
                n >= 2,
        ;
        lemma_odometer_distinct(chars, i / n, j / n, less);
        assert(i == j) by (nonlinear_arith)
            requires
                i / n == j / n,
                i % n == j % n,
                n >= 2,
        ;
    }
}

/// Each further character multiplies the number of labels.
proof fn lemma_next_power(b: int, k: nat)
    requires
        b >= 2,
    ensures
        power::pow(b, k + 1) == power::pow(b, k) * b,
        power::pow(b, k) >= 1,
        power::pow(b, k + 1) > power::pow(b, k),
{
    power::lemma_pow_positive(b, k);
    reveal(power::pow);
    assert(power::pow(b, k + 1) == b * power::pow(b, k));
    let p = power::pow(b, k);
    assert(b * p == p * b && p * b > p) by (nonlinear_arith)
        requires
            p >= 1,
            b >= 2,
    ;
}

} // verus!
