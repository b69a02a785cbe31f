//! What counts as a target.
//!
//! Every rule here is decided from a role, a state set and two rectangles.
use std::cmp::Ordering;

use vstd::prelude::*;
use vstd::string::*;

use crate::a11y::role::{Role, State, StateSet};
use crate::a11y::target::WindowRect;
use crate::num;

verus! {

/// Roles that can be clicked.
///
/// A closed list, not a "not a container" heuristic: an unknown role is not
/// a target, because a wrong click is the failure mode everything here is
/// organised around, and a missing hint is merely an annoyance.
pub const ACTIONABLE: [Role; 17] = [
    Role::Button,
    Role::PushButtonMenu,
    Role::ToggleButton,
    Role::CheckBox,
    Role::RadioButton,
    Role::Link,
    Role::MenuItem,
    Role::CheckMenuItem,
    Role::RadioMenuItem,
    Role::PageTab,
    Role::Entry,
    Role::PasswordText,
    Role::ComboBox,
    Role::ListItem,
    Role::TreeItem,
    Role::Slider,
    Role::SpinButton,
];

/// Roles that may sit between a target and the point about to be clicked.
///
/// A closed list for the same reason [`ACTIONABLE`] is one: an unknown role
/// is not a *target*, and it is not *decoration* either.
pub const PASSIVE: [Role; 12] = [
    Role::Label,
    Role::Static,
    Role::Text,
    Role::Image,
    Role::Icon,
    Role::Panel,
    Role::Filler,
    Role::Section,
    Role::Separator,
    Role::Grouping,
    Role::ScrollPane,
    Role::Viewport,
];

/// Role *names* that may sit between a target and the point, when the role
/// itself is `Invalid`: there is no number for a merely presentational
/// object, so it arrives as `Invalid` and says so in its name. A node that
/// answers `Invalid` with any other name, or will not answer at all, still
/// blocks.
pub const PASSIVE_ROLE_NAMES: [&'static str; 1] = ["presentation"];

/// Below this, in either dimension, a rect is not something a human aims at.
pub const MIN_SIDE: i32 = 4;

/// Two targets whose centres are within this many pixels click the same
/// thing, whatever the tree says they are.
pub const DUPLICATE_PX: i32 = 6;

/// A rect covering this much of the window, in hundredths, is a container
/// wearing an actionable role, not a click target. Kept high on purpose: the
/// job is to drop a window-sized list item, not to second-guess a genuinely
/// large button.
pub const MAX_FRAME_FRACTION: i64 = 90;

/// Why a node was dropped.
#[derive(Debug, Clone, Copy, PartialEq, Eq, Structural)]
pub enum Reject {
    Role,
    NotVisible,
    NotShowing,
    Insensitive,
    /// Zero, negative, or `i32::MIN` — the "no position" sentinels.
    Degenerate,
    /// Smaller than `MIN_SIDE`.
    TooSmall,
    /// Outside the window it claims to live in.
    OffFrame,
    /// Covers `MAX_FRAME_FRACTION` or more of the window.
    Container,
    /// Another target already claims this pixel. Two hints on one point are
    /// two keystrokes for one click.
    Duplicate,
    /// Extents could not be read at all. Distinct from `Degenerate`, which is
    /// a rectangle that arrived and was nonsense.
    NoBounds,
}

impl Reject {
    pub fn as_str(self) -> (s: &'static str)
        ensures
            s@ == match self {
                Reject::Role => "role"@,
                Reject::NotVisible => "not-visible"@,
                Reject::NotShowing => "not-showing"@,
                Reject::Insensitive => "insensitive"@,
                Reject::Degenerate => "degenerate"@,
                Reject::TooSmall => "too-small"@,
                Reject::OffFrame => "off-frame"@,
                Reject::Container => "container"@,
                Reject::Duplicate => "duplicate"@,
                Reject::NoBounds => "no-bounds"@,
            },
    {
        match self {
            Reject::Role => "role",
            Reject::NotVisible => "not-visible",
            Reject::NotShowing => "not-showing",
            Reject::Insensitive => "insensitive",
            Reject::Degenerate => "degenerate",
            Reject::TooSmall => "too-small",
            Reject::OffFrame => "off-frame",
            Reject::Container => "container",
            Reject::Duplicate => "duplicate",
            Reject::NoBounds => "no-bounds",
        }
    }
}

/// Where a role stands in [`ACTIONABLE`]; behind all of them when it does
/// not.
pub open spec fn rank(role: Role) -> int {
    if ACTIONABLE@.contains(role) {
        ACTIONABLE@.index_of(role)
    } else {
        17
    }
}

/// The role can be clicked.
pub open spec fn actionable(role: Role) -> bool {
    ACTIONABLE@.contains(role)
}

/// The role is decoration.
pub open spec fn passive(role: Role) -> bool {
    PASSIVE@.contains(role)
}

proof fn lemma_actionable_distinct()
    ensures
        ACTIONABLE@.no_duplicates(),
{
}

fn rank_of(role: Role) -> (r: usize)
    ensures
        r == rank(role),
        r < 17 <==> actionable(role),
{
    let mut i: usize = 0;
    while i < 17
        invariant
            i <= 17,
            forall|j: int| 0 <= j < i ==> ACTIONABLE@[j] != role,
        decreases 17 - i,
    {
        if ACTIONABLE[i] == role {
            proof {
                lemma_actionable_distinct();
                assert(ACTIONABLE@.contains(role));
                assert(ACTIONABLE@.index_of(role) == i);
            }
            return i;
        }
        i = i + 1;
    }
    17
}

pub fn role_is_actionable(role: Role) -> (r: bool)
    ensures
        r == actionable(role),
{
    rank_of(role) < 17
}

/// Whether the role is decoration.
pub fn role_is_passive(role: Role) -> (r: bool)
    ensures
        r == passive(role),
{
    let mut i: usize = 0;
    while i < 12
        invariant
            i <= 12,
            forall|j: int| 0 <= j < i ==> PASSIVE@[j] != role,
        decreases 12 - i,
    {
        if PASSIVE[i] == role {
            assert(PASSIVE@[i as int] == role);
            return true;
        }
        i = i + 1;
    }
    false
}

/// The name is that of decoration.
pub open spec fn passive_name(name: Seq<char>) -> bool {
    exists|i: int|
        0 <= i < PASSIVE_ROLE_NAMES@.len() && (#[trigger] PASSIVE_ROLE_NAMES@[i])@ == name
}

/// Whether the name is that of decoration.
pub fn role_name_is_passive(name: &str) -> (r: bool)
    ensures
        r == passive_name(name@),
{
    let mut i: usize = 0;
    while i < 1
        invariant
            i <= 1,
            forall|j: int| 0 <= j < i ==> (#[trigger] PASSIVE_ROLE_NAMES@[j])@ != name@,
        decreases 1 - i,
    {
        if PASSIVE_ROLE_NAMES[i].eq(name) {
            assert(PASSIVE_ROLE_NAMES@[i as int]@ == name@);
            return true;
        }
        i = i + 1;
    }
    false
}

/// The centres are within reach of each other.
pub open spec fn same_place(a: WindowRect, b: WindowRect) -> bool {
    num::magnitude(a.middle_x() - b.middle_x()) <= DUPLICATE_PX && num::magnitude(
        a.middle_y() - b.middle_y(),
    ) <= DUPLICATE_PX
}

/// Do these two rectangles click the same thing?
pub fn same_spot(a: WindowRect, b: WindowRect) -> (r: bool)
    ensures
        r == same_place(a, b),
{
    let (ax, ay) = a.middle();
    let (bx, by) = b.middle();
    let (dx, dy): (i64, i64) = (ax - bx, ay - by);
    dx <= DUPLICATE_PX as i64 && -dx <= DUPLICATE_PX as i64 && dy <= DUPLICATE_PX as i64 && -dy
        <= DUPLICATE_PX as i64
}

/// The bytes of a text.
pub open spec fn bytes(s: Seq<char>) -> Seq<u8> {
    vstd::utf8::encode_utf8(s)
}

/// `a` and `b` agree up to `n` and `a` is less there, or ends there.
pub open spec fn less_at(a: Seq<u8>, b: Seq<u8>, n: int) -> bool {
    &&& 0 <= n <= a.len()
    &&& n < b.len()
    &&& a.take(n) == b.take(n)
    &&& n == a.len() || a[n] < b[n]
}

/// `a` comes before `b`, byte by byte.
pub open spec fn text_less(a: Seq<u8>, b: Seq<u8>) -> bool {
    exists|n: int| #[trigger] less_at(a, b, n)
}

/// Order texts byte by byte.
fn order_text(a: &str, b: &str) -> (o: Ordering)
    ensures
        match o {
            Ordering::Less => text_less(bytes(a@), bytes(b@)),
            Ordering::Equal => bytes(a@) == bytes(b@),
            Ordering::Greater => text_less(bytes(b@), bytes(a@)),
        },
{
    let x: &[u8] = a.as_bytes();
    let y: &[u8] = b.as_bytes();
    let mut i: usize = 0;
    while i < x.len() && i < y.len() && x[i] == y[i]
        invariant
            i <= x@.len(),
            i <= y@.len(),
            forall|j: int| 0 <= j < i ==> x@[j] == y@[j],
        decreases x.len() - i,
    {
        i = i + 1;
    }
    let ghost n: int = i + 0;
    assert(x@.take(n) =~= y@.take(n));
    if i == x.len() && i == y.len() {
        assert(x@ =~= y@);
        Ordering::Equal
    } else if i == x.len() || (i < y.len() && x[i] < y[i]) {
        assert(less_at(x@, y@, n));
        Ordering::Less
    } else {
        assert(less_at(y@, x@, n));
        Ordering::Greater
    }
}

/// Of two targets on one spot the first is the one to keep: the smaller, then
/// the one whose role comes first, then the one whose path does.
pub open spec fn preferable(
    a: (WindowRect, Role, Seq<char>),
    b: (WindowRect, Role, Seq<char>),
) -> bool {
    a.0.size() < b.0.size() || (a.0.size() == b.0.size() && (rank(a.1) < rank(b.1) || (rank(a.1)
        == rank(b.1) && text_less(bytes(a.2), bytes(b.2)))))
}

/// Which of two targets on the same spot to keep.
///
/// The smaller rectangle wins: where a toolkit exposes a widget twice, the
/// tighter box is the more specific object, and a click at its centre is the
/// one more likely to land inside both. Ties break on role order and then on
/// path, so the choice is total and reproducible rather than dependent on
/// which arrived first.
pub fn prefer(a: (WindowRect, Role, &str), b: (WindowRect, Role, &str)) -> (o: Ordering)
    ensures
        match o {
            Ordering::Less => preferable((a.0, a.1, a.2@), (b.0, b.1, b.2@)),
            Ordering::Equal => a.0.size() == b.0.size() && rank(a.1) == rank(b.1) && bytes(a.2@)
                == bytes(b.2@),
            Ordering::Greater => preferable((b.0, b.1, b.2@), (a.0, a.1, a.2@)),
        },
{
    let (p, q): (i64, i64) = (a.0.area(), b.0.area());
    if p < q {
        return Ordering::Less;
    }
    if p > q {
        return Ordering::Greater;
    }
    let (r, s): (usize, usize) = (rank_of(a.1), rank_of(b.1));
    if r < s {
        return Ordering::Less;
    }
    if r > s {
        return Ordering::Greater;
    }
    order_text(a.2, b.2)
}

/// What is wrong with a state set, if anything is.
pub open spec fn state_fault(states: StateSet) -> Option<Reject> {
    if !states.has(State::Visible) {
        Some(Reject::NotVisible)
    } else if !states.has(State::Showing) {
        Some(Reject::NotShowing)
    } else if !states.has(State::Sensitive) {
        Some(Reject::Insensitive)
    } else {
        None
    }
}

/// Turns what is wrong into a verdict.
pub open spec fn verdict(fault: Option<Reject>) -> Result<(), Reject> {
    match fault {
        Some(why) => Err(why),
        None => Ok(()),
    }
}

/// The state half of the rules, on its own because a query can push exactly
/// this into the application and a read of its cache cannot.
///
/// Visible and showing: either alone is a lie. A widget on an unselected
/// notebook page passes the first and fails the second.
pub fn states_ok(states: StateSet) -> (r: Result<(), Reject>)
    ensures
        r == verdict(state_fault(states)),
{
    if !states.contains(State::Visible) {
        return Err(Reject::NotVisible);
    }
    if !states.contains(State::Showing) {
        return Err(Reject::NotShowing);
    }
    if !states.contains(State::Sensitive) {
        return Err(Reject::Insensitive);
    }
    Ok(())
}

/// The centre is what gets clicked, so the centre is what has to be on the
/// window.
pub open spec fn centre_inside(r: WindowRect, frame: WindowRect) -> bool {
    frame.x <= r.middle_x() < frame.x + frame.w && frame.y <= r.middle_y() < frame.y + frame.h
}

/// What is wrong with a rectangle, if anything is. Without a boundary to be
/// trusted the two rules that need one are skipped.
pub open spec fn bounds_fault(r: WindowRect, clip: Option<WindowRect>) -> Option<Reject> {
    if r.w <= 0 || r.h <= 0 || r.x == i32::MIN || r.y == i32::MIN {
        Some(Reject::Degenerate)
    } else if r.w < MIN_SIDE || r.h < MIN_SIDE {
        Some(Reject::TooSmall)
    } else {
        match clip {
            None => None,
            Some(frame) => if !centre_inside(r, frame) {
                Some(Reject::OffFrame)
            } else if frame.size() > 0 && 100 * r.size() >= MAX_FRAME_FRACTION * frame.size() {
                Some(Reject::Container)
            } else {
                None
            },
        }
    }
}

/// The geometry half. `clip` is the window's own bounds, `None` when they
/// cannot be trusted as a boundary: a target that cannot be checked against a
/// boundary is still a target.
///
/// Real windows hold objects that are visible and showing at `-1,-1 -1x-1`,
/// and objects at `i32::MIN` for "no position"; rules that trusted the state
/// bits would offer both.
pub fn bounds_ok(r: WindowRect, clip: Option<WindowRect>) -> (ok: Result<(), Reject>)
    ensures
        ok == verdict(bounds_fault(r, clip)),
{
    if r.w <= 0 || r.h <= 0 {
        return Err(Reject::Degenerate);
    }
    if r.x == i32::MIN || r.y == i32::MIN {
        return Err(Reject::Degenerate);
    }
    if r.w < MIN_SIDE || r.h < MIN_SIDE {
        return Err(Reject::TooSmall);
    }
    let frame: WindowRect = match clip {
        Some(frame) => frame,
        None => {
            return Ok(());
        },
    };
    let (cx, cy) = r.middle();
    if cx < frame.x as i64 || cy < frame.y as i64 || cx >= frame.x as i64 + frame.w as i64 || cy
        >= frame.y as i64 + frame.h as i64 {
        return Err(Reject::OffFrame);
    }
    let frame_area: i64 = frame.area();
    if frame_area > 0 && 100 * (r.area() as i128) >= MAX_FRAME_FRACTION as i128
        * frame_area as i128 {
        return Err(Reject::Container);
    }
    Ok(())
}

/// All of the rules at once: role, then state, then geometry.
pub open spec fn fault(
    role: Role,
    states: StateSet,
    r: WindowRect,
    clip: Option<WindowRect>,
) -> Option<Reject> {
    if !actionable(role) {
        Some(Reject::Role)
    } else if state_fault(states) is Some {
        state_fault(states)
    } else {
        bounds_fault(r, clip)
    }
}

/// All of the rules at once. `Ok(())` means "label it".
pub fn keep(role: Role, states: StateSet, r: WindowRect, clip: Option<WindowRect>) -> (ok: Result<
    (),
    Reject,
>)
    ensures
        ok == verdict(fault(role, states, r, clip)),
{
    if !role_is_actionable(role) {
        return Err(Reject::Role);
    }
    match states_ok(states) {
        Ok(()) => bounds_ok(r, clip),
        Err(why) => Err(why),
    }
}

/// A target is kept exactly when it can be clicked, is visible, showing and
/// sensitive, is large enough to aim at, and, where the window's bounds are
/// known, is centred inside them without covering them.
pub proof fn kept_exactly_when_clickable(
    role: Role,
    states: StateSet,
    r: WindowRect,
    clip: Option<WindowRect>,
)
    ensures
        fault(role, states, r, clip) is None <==> {
            &&& actionable(role)
            &&& states.has(State::Visible) && states.has(State::Showing) && states.has(
                State::Sensitive,
            )
            &&& r.w >= MIN_SIDE && r.h >= MIN_SIDE && r.x != i32::MIN && r.y != i32::MIN
            &&& clip is Some ==> centre_inside(r, clip->0) && !(clip->0.size() > 0 && 100
                * r.size() >= MAX_FRAME_FRACTION * clip->0.size())
        },
{
}

/// Nothing is both a control and decoration.
pub proof fn controls_are_not_decoration(role: Role)
    ensures
        !(actionable(role) && passive(role)),
        !actionable(Role::Invalid),
        !passive(Role::Invalid),
{
    if actionable(role) && passive(role) {
        let i = ACTIONABLE@.index_of(role);
        let j = PASSIVE@.index_of(role);
        assert(ACTIONABLE@[i] == PASSIVE@[j]);
    }
    if actionable(Role::Invalid) {
        let i = ACTIONABLE@.index_of(Role::Invalid);
        assert(ACTIONABLE@[i] == Role::Invalid);
    }
    if passive(Role::Invalid) {
        let i = PASSIVE@.index_of(Role::Invalid);
        assert(PASSIVE@[i] == Role::Invalid);
    }
}

/// Of two targets at most one is to be preferred to the other.
pub proof fn preference_is_one_way(
    a: (WindowRect, Role, Seq<char>),
    b: (WindowRect, Role, Seq<char>),
)
    ensures
        !(preferable(a, b) && preferable(b, a)),
{
    let (x, y) = (bytes(a.2), bytes(b.2));
    if text_less(x, y) && text_less(y, x) {
        let n = choose|n: int| #[trigger] less_at(x, y, n);
        let m = choose|m: int| #[trigger] less_at(y, x, m);
        if n < m {
            assert(y.take(m)[n] == x.take(m)[n]);
        } else if m < n {
            assert(x.take(n)[m] == y.take(n)[m]);
        }
    }
}

/// Nothing is to be preferred to its equal.
pub proof fn equals_are_not_preferred(
    a: (WindowRect, Role, Seq<char>),
    b: (WindowRect, Role, Seq<char>),
)
    ensures
        a.0.size() == b.0.size() && rank(a.1) == rank(b.1) && bytes(a.2) == bytes(b.2)
            ==> !preferable(a, b),
{
    preference_is_one_way(a, b);
}

/// What is preferred to what is preferred to a third is preferred to it: with
/// the above, the choice never depends on which arrived first.
pub proof fn preference_is_transitive(
    a: (WindowRect, Role, Seq<char>),
    b: (WindowRect, Role, Seq<char>),
    c: (WindowRect, Role, Seq<char>),
)
    requires
        preferable(a, b),
        preferable(b, c),
    ensures
        preferable(a, c),
{
    let (x, y, z) = (bytes(a.2), bytes(b.2), bytes(c.2));
    if text_less(x, y) && text_less(y, z) {
        let n = choose|n: int| #[trigger] less_at(x, y, n);
        let m = choose|m: int| #[trigger] less_at(y, z, m);
        let k = if n < m {
            n
        } else {
            m
        };
        assert(x.take(k) =~= x.take(n).take(k));
        assert(y.take(k) =~= y.take(n).take(k));
        assert(y.take(k) =~= y.take(m).take(k));
        assert(z.take(k) =~= z.take(m).take(k));
        if n < m {
            assert(y.take(m)[n] == z.take(m)[n]);
        } else if m < n {
            assert(x.take(n)[m] == y.take(n)[m]);
        }
        assert(less_at(x, z, k));
    }
}

/// Of any two targets that differ in size, in the place of their roles or in
/// the bytes of their paths, one is to be preferred.
pub proof fn preference_decides(
    a: (WindowRect, Role, Seq<char>),
    b: (WindowRect, Role, Seq<char>),
)
    ensures
        preferable(a, b) || preferable(b, a) || (a.0.size() == b.0.size() && rank(a.1) == rank(b.1)
            && bytes(a.2) == bytes(b.2)),
{
    let (x, y) = (bytes(a.2), bytes(b.2));
    assert(x.take(0) =~= y.take(0));
    lemma_text_decides(x, y, 0);
}

proof fn lemma_text_decides(x: Seq<u8>, y: Seq<u8>, n: int)
    requires
        0 <= n <= x.len(),
        n <= y.len(),
        x.take(n) == y.take(n),
    ensures
        text_less(x, y) || text_less(y, x) || x == y,
    decreases x.len() - n,
{
    if n == x.len() && n == y.len() {
        assert(x.take(n) =~= x);
        assert(y.take(n) =~= y);
    } else if n == x.len() {
        assert(less_at(x, y, n));
    } else if n == y.len() {
        assert(less_at(y, x, n));
    } else if x[n] < y[n] {
        assert(less_at(x, y, n));
    } else if y[n] < x[n] {
        assert(less_at(y, x, n));
    } else {
        assert(x.take(n + 1) =~= x.take(n).push(x[n]));
        assert(y.take(n + 1) =~= y.take(n).push(y[n]));
        lemma_text_decides(x, y, n + 1);
    }
}

} // verus!
