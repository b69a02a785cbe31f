//! Building a match rule that servers actually answer.
//!
//! Three things about the rule are not what they look like, and each alone
//! makes the answer an empty array with no error:
//!
//! 1. **Every match type must be set.** An unset one means "match nothing",
//!    not "ignore this criterion", even when the criterion is empty.
//! 2. **Roles travel as a bitmask, not as a list.** The signature is the same
//!    either way, so a list of role numbers passes validation and is read as
//!    a nonsense set of roles.
//! 3. **The search must traverse**, though that is documented as
//!    unimplemented.
use std::collections::HashMap;

use vstd::prelude::*;

use crate::a11y::filter;
use crate::a11y::role::{Role, State, StateSet};

verus! {

/// `(states, states_mt, attrs, attrs_mt, roles, roles_mt, ifaces, ifaces_mt, invert)`
pub type MatchRule = (
    Vec<i32>,
    i32,
    HashMap<String, String>,
    i32,
    Vec<i32>,
    i32,
    Vec<String>,
    i32,
    bool,
);

/// All of the criterion. Also the right value for an *empty* criterion.
pub const MATCH_ALL: i32 = 1;

/// Any of the criterion.
pub const MATCH_ANY: i32 = 2;

/// Canonical order. Zero is invalid, not canonical.
pub const SORT_CANONICAL: u32 = 1;

/// Roles are packed into this many bits, so a role numbered beyond them
/// cannot be asked for at all.
pub const ROLE_BITS: u32 = 128;

/// Bit `n` of a row of words, the lowest bit of the first word first.
pub open spec fn lit(words: Seq<i32>, n: int) -> bool {
    ((words[n / 32] as u32) >> ((n % 32) as u32)) & 1 == 1
}

/// The words hold exactly these states.
pub open spec fn holds_states(words: Seq<i32>, states: StateSet) -> bool {
    &&& words.len() == 2
    &&& forall|n: int| 0 <= n < 64 ==> (#[trigger] lit(words, n) <==> (states.bits >> (n as u64)) & 1 == 1)
}

/// The words hold exactly those of these roles that have a bit.
pub open spec fn holds_roles(words: Seq<i32>, roles: Seq<Role>) -> bool {
    &&& words.len() == 4
    &&& forall|n: int|
        0 <= n < ROLE_BITS ==> (#[trigger] lit(words, n) <==> asks_for(roles, n))
}

/// A role of that number is among them.
pub open spec fn asks_for(roles: Seq<Role>, n: int) -> bool {
    exists|i: int| 0 <= i < roles.len() && (#[trigger] roles[i]).number() == n
}

/// The rule for a target: any actionable role, all three states.
pub fn actionable() -> (r: MatchRule)
    ensures
        r.0@.len() == 2,
        forall|n: int| 0 <= n < 64 ==> (#[trigger] lit(r.0@, n) <==> is_target_state(n)),
        r.1 == MATCH_ALL,
        r.2@ == Map::<String, String>::empty(),
        r.3 == MATCH_ALL,
        holds_roles(r.4@, filter::ACTIONABLE@),
        r.5 == MATCH_ANY,
        r.6@ == Seq::<String>::empty(),
        r.7 == MATCH_ALL,
        !r.8,
        r.1 == 1 && r.3 == 1 && r.5 == 2 && r.7 == 1,
{
    let mut states: StateSet = StateSet::empty();
    states.insert(State::Visible);
    states.insert(State::Showing);
    states.insert(State::Sensitive);
    proof {
        let bits = states.bits;
        assert(bits == ((0u64 | (1u64 << 30u64)) | (1u64 << 25u64)) | (1u64 << 24u64));
        assert forall|n: u64| n < 64 implies (#[trigger] (bits >> n) & 1 == 1 <==> (n == 30 || n
            == 25 || n == 24)) by {
            assert(((((0u64 | (1u64 << 30u64)) | (1u64 << 25u64)) | (1u64 << 24u64)) >> n) & 1 == 1
                <==> (n == 30 || n == 25 || n == 24)) by (bit_vector)
                requires
                    n < 64,
            ;
        }
    }
    let roles: [Role; 17] = filter::ACTIONABLE;
    (
        state_bits(states),
        MATCH_ALL,
        HashMap::new(),
        MATCH_ALL,
        role_mask(roles.as_slice()),
        MATCH_ANY,
        Vec::new(),
        MATCH_ALL,
        false,
    )
}

/// What a target must say of itself: visible, showing and sensitive.
pub open spec fn is_target_state(n: int) -> bool {
    n == State::Visible.bit() || n == State::Showing.bit() || n == State::Sensitive.bit()
}

/// A state set as the two words the wire wants. The bit positions are the
/// states' own numbers.
pub fn state_bits(states: StateSet) -> (words: Vec<i32>)
    ensures
        holds_states(words@, states),
{
    let bits: u64 = states.bits;
    let low: u32 = (bits & 0xffff_ffff) as u32;
    let high: u32 = (bits >> 32) as u32;
    let words: Vec<i32> = vec![low as i32, high as i32];
    assert forall|n: int| 0 <= n < 64 implies (#[trigger] lit(words@, n) <==> (bits >> (n as u64))
        & 1 == 1) by {
        lemma_there_and_back(low);
        lemma_there_and_back(high);
        let b: u32 = (n % 32) as u32;
        assert(b < 32 && low == (bits & 0xffff_ffff) as u32 && high == (bits >> 32) as u32 ==> ((low
            >> b) & 1 == 1 <==> (bits >> (b as u64)) & 1 == 1) && ((high >> b) & 1 == 1 <==> (bits
            >> ((b + 32) as u64)) & 1 == 1)) by (bit_vector);
        if n < 32 {
            assert(n / 32 == 0);
        } else {
            assert(n / 32 == 1 && n == b + 32);
        }
    }
    words
}

/// Nothing is lost in a change of sign.
proof fn lemma_there_and_back(w: u32)
    ensures
        (w as i32) as u32 == w,
{
    assert((w as i32) as u32 == w) by (bit_vector);
}

/// Bit `n` of a row of unsigned words.
spec fn marked(mask: Seq<u32>, n: int) -> bool {
    (mask[n / 32] >> ((n % 32) as u32)) & 1 == 1
}

/// Setting a bit sets that one and no other.
proof fn lemma_set_bit(w: u32, b: u32, c: u32)
    by (bit_vector)
    requires
        b < 32,
        c < 32,
    ensures
        ((w | (1u32 << b)) >> c) & 1 == 1 <==> (b == c || (w >> c) & 1 == 1),
{
}

/// Roles as a mask in four words. Roles at or beyond [`ROLE_BITS`] are
/// dropped rather than wrapped: a silently mis-set bit would ask for some
/// *other* role, which is worse than not asking.
pub fn role_mask(roles: &[Role]) -> (words: Vec<i32>)
    ensures
        holds_roles(words@, roles@),
{
    let mut mask: Vec<u32> = vec![0, 0, 0, 0];
    let mut i: usize = 0;
    assert forall|n: int| 0 <= n < 128 implies !#[trigger] marked(mask@, n) by {
        let b: u32 = (n % 32) as u32;
        assert((0u32 >> b) & 1 == 0) by (bit_vector);
    }
    while i < roles.len()
        invariant
            i <= roles@.len(),
            mask@.len() == 4,
            forall|n: int|
                0 <= n < 128 ==> (#[trigger] marked(mask@, n) <==> asks_for(
                    roles@.take(i as int),
                    n,
                )),
        decreases roles.len() - i,
    {
        let number: u32 = roles[i].to_u32();
        let ghost before = mask@;
        if number < ROLE_BITS {
            let k: usize = (number / 32) as usize;
            let b: u32 = number % 32;
            let word: u32 = mask[k];
            mask.set(k, word | (1u32 << b));
        }
        proof {
            let (seen, next) = (roles@.take(i as int), roles@.take(i + 1));
            assert forall|n: int| 0 <= n < 128 implies (#[trigger] marked(mask@, n) <==> asks_for(
                next,
                n,
            )) by {
                assert(marked(before, n) <==> asks_for(seen, n));
                if number < 128 {
                    lemma_set_bit(before[(number / 32) as int], number % 32, (n % 32) as u32);
                }
                assert(next[i as int] == roles@[i as int]);
                if asks_for(seen, n) {
                    let j = choose|j: int| 0 <= j < seen.len() && (#[trigger] seen[j]).number() == n;
                    assert(next[j] == seen[j]);
                }
                if asks_for(next, n) && number != n {
                    let j = choose|j: int| 0 <= j < next.len() && (#[trigger] next[j]).number() == n;
                    assert(seen[j] == next[j]);
                }
            }
        }
        i = i + 1;
    }
    assert(roles@.take(roles@.len() as int) =~= roles@);
    let words: Vec<i32> = vec![mask[0] as i32, mask[1] as i32, mask[2] as i32, mask[3] as i32];
    proof {
        lemma_there_and_back(mask@[0]);
        lemma_there_and_back(mask@[1]);
        lemma_there_and_back(mask@[2]);
        lemma_there_and_back(mask@[3]);
        assert forall|n: int| 0 <= n < 128 implies (#[trigger] lit(words@, n) <==> asks_for(
            roles@,
            n,
        )) by {
            assert(marked(mask@, n) <==> asks_for(roles@, n));
            assert(words@[n / 32] as u32 == mask@[n / 32]);
        }
    }
    words
}

/// The push button menu is the one actionable role that cannot be asked for.
pub proof fn only_the_push_button_menu_is_past_the_mask(role: Role)
    requires
        filter::actionable(role),
    ensures
        role.number() >= ROLE_BITS <==> role == Role::PushButtonMenu,
{
    let i = filter::ACTIONABLE@.index_of(role);
    assert(filter::ACTIONABLE@[i] == role);
}

/// A word mask counts its bits from the lowest of the first word up, thirty-two
/// to a word.
pub proof fn a_mask_counts_from_its_lowest_bit(words: Seq<i32>, n: int)
    ensures
        lit(words, n) <==> ((words[n / 32] as u32) >> ((n % 32) as u32)) & 1 == 1,
{
}

/// What is asked for are the states visible, showing and sensitive, by their
/// bus numbers.
pub proof fn three_states_are_asked_for(n: int)
    ensures
        is_target_state(n) <==> n == 24 || n == 25 || n == 30,
{
}

/// A mask of states is two words, lit where the set has its bit.
pub proof fn a_state_mask_is_lit_where_the_set_is(words: Seq<i32>, states: StateSet, n: int)
    requires
        holds_states(words, states),
        0 <= n < 64,
    ensures
        words.len() == 2,
        ((words[n / 32] as u32) >> ((n % 32) as u32)) & 1 == 1 <==> (states.bits >> (n as u64)) & 1
            == 1,
{
    assert(lit(words, n) <==> (states.bits >> (n as u64)) & 1 == 1);
}

/// A mask of roles is four words, lit at the number of every role asked for
/// and nowhere else.
pub proof fn a_role_mask_is_lit_at_its_roles(words: Seq<i32>, roles: Seq<Role>, n: int)
    requires
        holds_roles(words, roles),
        0 <= n < 128,
    ensures
        words.len() == 4,
        ((words[n / 32] as u32) >> ((n % 32) as u32)) & 1 == 1 <==> exists|i: int|
            0 <= i < roles.len() && (#[trigger] roles[i]).number() == n,
{
    assert(lit(words, n) <==> asks_for(roles, n));
}

} // verus!
