//! What counts as a target, in pixels, bits and numbers.
use vstd::prelude::*;
use vstd::string::*;

use crate::a11y::filter;
use crate::a11y::filter::Reject;
use crate::a11y::resolve;
use crate::a11y::resolve::{CandidateView, FactsView, RejectedView};
use crate::a11y::role::{Role, State, StateSet};
use crate::a11y::spots;
use crate::a11y::target;
use crate::a11y::target::{FrameView, Provenance, TargetView, WindowRect};
use crate::num;

verus! {

/// A role goes under the number that the accessibility bus gave it.
pub proof fn a_role_has_the_bus_number(r: Role)
    ensures
        r is Invalid ==> r.number() == 0,
        r is AcceleratorLabel ==> r.number() == 1,
        r is Alert ==> r.number() == 2,
        r is Animation ==> r.number() == 3,
        r is Arrow ==> r.number() == 4,
        r is Calendar ==> r.number() == 5,
        r is Canvas ==> r.number() == 6,
        r is CheckBox ==> r.number() == 7,
        r is CheckMenuItem ==> r.number() == 8,
        r is ColorChooser ==> r.number() == 9,
        r is ColumnHeader ==> r.number() == 10,
        r is ComboBox ==> r.number() == 11,
        r is DateEditor ==> r.number() == 12,
        r is DesktopIcon ==> r.number() == 13,
        r is DesktopFrame ==> r.number() == 14,
        r is Dial ==> r.number() == 15,
        r is Dialog ==> r.number() == 16,
        r is DirectoryPane ==> r.number() == 17,
        r is DrawingArea ==> r.number() == 18,
        r is FileChooser ==> r.number() == 19,
        r is Filler ==> r.number() == 20,
        r is FocusTraversable ==> r.number() == 21,
        r is FontChooser ==> r.number() == 22,
        r is Frame ==> r.number() == 23,
        r is GlassPane ==> r.number() == 24,
        r is HtmlContainer ==> r.number() == 25,
        r is Icon ==> r.number() == 26,
        r is Image ==> r.number() == 27,
        r is InternalFrame ==> r.number() == 28,
        r is Label ==> r.number() == 29,
        r is LayeredPane ==> r.number() == 30,
        r is List ==> r.number() == 31,
        r is ListItem ==> r.number() == 32,
        r is Menu ==> r.number() == 33,
        r is MenuBar ==> r.number() == 34,
        r is MenuItem ==> r.number() == 35,
        r is OptionPane ==> r.number() == 36,
        r is PageTab ==> r.number() == 37,
        r is PageTabList ==> r.number() == 38,
        r is Panel ==> r.number() == 39,
        r is PasswordText ==> r.number() == 40,
        r is PopupMenu ==> r.number() == 41,
        r is ProgressBar ==> r.number() == 42,
        r is Button ==> r.number() == 43,
        r is RadioButton ==> r.number() == 44,
        r is RadioMenuItem ==> r.number() == 45,
        r is RootPane ==> r.number() == 46,
        r is RowHeader ==> r.number() == 47,
        r is ScrollBar ==> r.number() == 48,
        r is ScrollPane ==> r.number() == 49,
        r is Separator ==> r.number() == 50,
        r is Slider ==> r.number() == 51,
        r is SpinButton ==> r.number() == 52,
        r is SplitPane ==> r.number() == 53,
        r is StatusBar ==> r.number() == 54,
        r is Table ==> r.number() == 55,
        r is TableCell ==> r.number() == 56,
        r is TableColumnHeader ==> r.number() == 57,
        r is TableRowHeader ==> r.number() == 58,
        r is TearoffMenuItem ==> r.number() == 59,
        r is Terminal ==> r.number() == 60,
        r is Text ==> r.number() == 61,
        r is ToggleButton ==> r.number() == 62,
        r is ToolBar ==> r.number() == 63,
        r is ToolTip ==> r.number() == 64,
        r is Tree ==> r.number() == 65,
        r is TreeTable ==> r.number() == 66,
        r is Unknown ==> r.number() == 67,
        r is Viewport ==> r.number() == 68,
        r is Window ==> r.number() == 69,
        r is Extended ==> r.number() == 70,
        r is Header ==> r.number() == 71,
        r is Footer ==> r.number() == 72,
        r is Paragraph ==> r.number() == 73,
        r is Ruler ==> r.number() == 74,
        r is Application ==> r.number() == 75,
        r is Autocomplete ==> r.number() == 76,
        r is Editbar ==> r.number() == 77,
        r is Embedded ==> r.number() == 78,
        r is Entry ==> r.number() == 79,
        r is Chart ==> r.number() == 80,
        r is Caption ==> r.number() == 81,
        r is DocumentFrame ==> r.number() == 82,
        r is Heading ==> r.number() == 83,
        r is Page ==> r.number() == 84,
        r is Section ==> r.number() == 85,
        r is RedundantObject ==> r.number() == 86,
        r is Form ==> r.number() == 87,
        r is Link ==> r.number() == 88,
        r is InputMethodWindow ==> r.number() == 89,
        r is TableRow ==> r.number() == 90,
        r is TreeItem ==> r.number() == 91,
        r is DocumentSpreadsheet ==> r.number() == 92,
        r is DocumentPresentation ==> r.number() == 93,
        r is DocumentText ==> r.number() == 94,
        r is DocumentWeb ==> r.number() == 95,
        r is DocumentEmail ==> r.number() == 96,
        r is Comment ==> r.number() == 97,
        r is ListBox ==> r.number() == 98,
        r is Grouping ==> r.number() == 99,
        r is ImageMap ==> r.number() == 100,
        r is Notification ==> r.number() == 101,
        r is InfoBar ==> r.number() == 102,
        r is LevelBar ==> r.number() == 103,
        r is TitleBar ==> r.number() == 104,
        r is BlockQuote ==> r.number() == 105,
        r is Audio ==> r.number() == 106,
        r is Video ==> r.number() == 107,
        r is Definition ==> r.number() == 108,
        r is Article ==> r.number() == 109,
        r is Landmark ==> r.number() == 110,
        r is Log ==> r.number() == 111,
        r is Marquee ==> r.number() == 112,
        r is Math ==> r.number() == 113,
        r is Rating ==> r.number() == 114,
        r is Timer ==> r.number() == 115,
        r is Static ==> r.number() == 116,
        r is MathFraction ==> r.number() == 117,
        r is MathRoot ==> r.number() == 118,
        r is Subscript ==> r.number() == 119,
        r is Superscript ==> r.number() == 120,
        r is DescriptionList ==> r.number() == 121,
        r is DescriptionTerm ==> r.number() == 122,
        r is DescriptionValue ==> r.number() == 123,
        r is Footnote ==> r.number() == 124,
        r is ContentDeletion ==> r.number() == 125,
        r is ContentInsertion ==> r.number() == 126,
        r is Mark ==> r.number() == 127,
        r is Suggestion ==> r.number() == 128,
        r is PushButtonMenu ==> r.number() == 129,
{
}

/// A state is the bit that the accessibility bus gave it.
pub proof fn a_state_has_the_bus_bit(s: State)
    ensures
        s is Invalid ==> s.bit() == 0,
        s is Active ==> s.bit() == 1,
        s is Armed ==> s.bit() == 2,
        s is Busy ==> s.bit() == 3,
        s is Checked ==> s.bit() == 4,
        s is Collapsed ==> s.bit() == 5,
        s is Defunct ==> s.bit() == 6,
        s is Editable ==> s.bit() == 7,
        s is Enabled ==> s.bit() == 8,
        s is Expandable ==> s.bit() == 9,
        s is Expanded ==> s.bit() == 10,
        s is Focusable ==> s.bit() == 11,
        s is Focused ==> s.bit() == 12,
        s is HasTooltip ==> s.bit() == 13,
        s is Horizontal ==> s.bit() == 14,
        s is Iconified ==> s.bit() == 15,
        s is Modal ==> s.bit() == 16,
        s is MultiLine ==> s.bit() == 17,
        s is Multiselectable ==> s.bit() == 18,
        s is Opaque ==> s.bit() == 19,
        s is Pressed ==> s.bit() == 20,
        s is Resizable ==> s.bit() == 21,
        s is Selectable ==> s.bit() == 22,
        s is Selected ==> s.bit() == 23,
        s is Sensitive ==> s.bit() == 24,
        s is Showing ==> s.bit() == 25,
        s is SingleLine ==> s.bit() == 26,
        s is Stale ==> s.bit() == 27,
        s is Transient ==> s.bit() == 28,
        s is Vertical ==> s.bit() == 29,
        s is Visible ==> s.bit() == 30,
        s is ManagesDescendants ==> s.bit() == 31,
        s is Indeterminate ==> s.bit() == 32,
        s is Required ==> s.bit() == 33,
        s is Truncated ==> s.bit() == 34,
        s is Animated ==> s.bit() == 35,
        s is InvalidEntry ==> s.bit() == 36,
        s is SupportsAutocompletion ==> s.bit() == 37,
        s is SelectableText ==> s.bit() == 38,
        s is IsDefault ==> s.bit() == 39,
        s is Visited ==> s.bit() == 40,
        s is Checkable ==> s.bit() == 41,
        s is HasPopup ==> s.bit() == 42,
        s is ReadOnly ==> s.bit() == 43,
{
}

/// A state is in a set when its bit is.
pub proof fn a_state_is_in_a_set_by_its_bit(s: StateSet)
    ensures
        s.has(State::Visible) <==> s.bits & 0x4000_0000 != 0,
        s.has(State::Showing) <==> s.bits & 0x200_0000 != 0,
        s.has(State::Sensitive) <==> s.bits & 0x100_0000 != 0,
        s.has(State::Active) <==> s.bits & 0x2 != 0,
{
    assert(1u64 << 30u64 == 0x4000_0000 && 1u64 << 25u64 == 0x200_0000 && 1u64 << 24u64
        == 0x100_0000 && 1u64 << 1u64 == 0x2) by (bit_vector);
}

/// Any state is in a set when the bit at its place is set.
pub proof fn every_state_is_in_a_set_by_its_bit(s: StateSet, state: State)
    ensures
        s.has(state) <==> (s.bits >> (state.bit() as u64)) & 1 == 1,
{
    let (b, k) = (s.bits, state.bit() as u64);
    assert(b & (1u64 << k) != 0 <==> (b >> k) & 1 == 1) by (bit_vector)
        requires
            k < 64,
    ;
}

/// These roles can be clicked, and no others; each comes before the next.
pub proof fn what_can_be_clicked(r: Role)
    ensures
        filter::actionable(r) <==> r is Button || r is PushButtonMenu || r is ToggleButton || r is CheckBox || r is RadioButton || r is Link || r is MenuItem || r is CheckMenuItem || r is RadioMenuItem || r is PageTab || r is Entry || r is PasswordText || r is ComboBox || r is ListItem || r is TreeItem || r is Slider || r is SpinButton,
        r is Button ==> filter::rank(r) == 0,
        r is PushButtonMenu ==> filter::rank(r) == 1,
        r is ToggleButton ==> filter::rank(r) == 2,
        r is CheckBox ==> filter::rank(r) == 3,
        r is RadioButton ==> filter::rank(r) == 4,
        r is Link ==> filter::rank(r) == 5,
        r is MenuItem ==> filter::rank(r) == 6,
        r is CheckMenuItem ==> filter::rank(r) == 7,
        r is RadioMenuItem ==> filter::rank(r) == 8,
        r is PageTab ==> filter::rank(r) == 9,
        r is Entry ==> filter::rank(r) == 10,
        r is PasswordText ==> filter::rank(r) == 11,
        r is ComboBox ==> filter::rank(r) == 12,
        r is ListItem ==> filter::rank(r) == 13,
        r is TreeItem ==> filter::rank(r) == 14,
        r is Slider ==> filter::rank(r) == 15,
        r is SpinButton ==> filter::rank(r) == 16,
        !filter::actionable(r) ==> filter::rank(r) == 17,
{
    let all = filter::ACTIONABLE@;
    assert(all.no_duplicates());
    assert(all[0] == Role::Button);
    assert(all[1] == Role::PushButtonMenu);
    assert(all[2] == Role::ToggleButton);
    assert(all[3] == Role::CheckBox);
    assert(all[4] == Role::RadioButton);
    assert(all[5] == Role::Link);
    assert(all[6] == Role::MenuItem);
    assert(all[7] == Role::CheckMenuItem);
    assert(all[8] == Role::RadioMenuItem);
    assert(all[9] == Role::PageTab);
    assert(all[10] == Role::Entry);
    assert(all[11] == Role::PasswordText);
    assert(all[12] == Role::ComboBox);
    assert(all[13] == Role::ListItem);
    assert(all[14] == Role::TreeItem);
    assert(all[15] == Role::Slider);
    assert(all[16] == Role::SpinButton);
    if all.contains(r) {
        let i = all.index_of(r);
        assert(all[i] == r);
    }
}

/// These roles are decoration, and no others.
pub proof fn what_is_decoration(r: Role)
    ensures
        filter::passive(r) <==> r is Label || r is Static || r is Text || r is Image || r is Icon || r is Panel || r is Filler || r is Section || r is Separator || r is Grouping || r is ScrollPane || r is Viewport,
{
    let all = filter::PASSIVE@;
    assert(all[0] == Role::Label);
    assert(all[1] == Role::Static);
    assert(all[2] == Role::Text);
    assert(all[3] == Role::Image);
    assert(all[4] == Role::Icon);
    assert(all[5] == Role::Panel);
    assert(all[6] == Role::Filler);
    assert(all[7] == Role::Section);
    assert(all[8] == Role::Separator);
    assert(all[9] == Role::Grouping);
    assert(all[10] == Role::ScrollPane);
    assert(all[11] == Role::Viewport);
    if all.contains(r) {
        let i = all.index_of(r);
        assert(all[i] == r);
    }
}

/// One role name is decoration.
pub proof fn what_is_called_decoration(name: Seq<char>)
    ensures
        filter::passive_name(name) <==> name == "presentation"@,
{
    assert(filter::PASSIVE_ROLE_NAMES@[0]@ == "presentation"@);
}

/// The point to click is halfway, to the pixel towards the start.
pub proof fn the_centre_is_halfway(r: WindowRect)
    ensures
        r.w >= 0 ==> r.w - 1 <= 2 * (r.middle_x() - r.x) <= r.w,
        r.h >= 0 ==> r.h - 1 <= 2 * (r.middle_y() - r.y) <= r.h,
        r.w < 0 ==> r.w <= 2 * (r.middle_x() - r.x) <= r.w + 1,
        r.h < 0 ==> r.h <= 2 * (r.middle_y() - r.y) <= r.h + 1,
{
}

/// Two rectangles are one spot exactly when their centres are no more than six
/// pixels apart from left to right and no more than six from top to bottom.
pub proof fn one_spot_is_six_pixels_both_ways(a: WindowRect, b: WindowRect)
    ensures
        a.w >= 0 && a.h >= 0 && b.w >= 0 && b.h >= 0 ==> {
            let dx = (a.x + a.w / 2) - (b.x + b.w / 2);
            let dy = (a.y + a.h / 2) - (b.y + b.h / 2);
            filter::same_place(a, b) <==> -6 <= dx <= 6 && -6 <= dy <= 6
        },
        filter::same_place(a, b) <==> {
            &&& -6 <= a.middle_x() - b.middle_x() <= 6
            &&& -6 <= a.middle_y() - b.middle_y() <= 6
        },
{
}

/// Two targets are apart: their centres are more than six pixels from each
/// other along one of the two ways.
spec fn apart(a: WindowRect, b: WindowRect) -> bool {
    ||| a.middle_x() - b.middle_x() > 6
    ||| b.middle_x() - a.middle_x() > 6
    ||| a.middle_y() - b.middle_y() > 6
    ||| b.middle_y() - a.middle_y() > 6
}

/// Targets that are apart are all kept, as they came, and nothing is dropped:
/// one under the other or one beside the other.
pub proof fn targets_that_are_apart_are_all_kept(ts: Seq<TargetView>)
    requires
        forall|i: int, j: int|
            0 <= i < j < ts.len() ==> {
                let (a, b) = ((#[trigger] ts[i]).bounds, (#[trigger] ts[j]).bounds);
                ||| a.middle_x() - b.middle_x() > 6
                ||| b.middle_x() - a.middle_x() > 6
                ||| a.middle_y() - b.middle_y() > 6
                ||| b.middle_y() - a.middle_y() > 6
            },
    ensures
        spots::kept(ts) == ts,
        spots::dropped(ts).len() == 0,
{
    let n = ts.len() as int;
    let turns = spots::kept_turns(ts);
    assert forall|i: int, j: int| 0 <= i < n && 0 <= j < n && i != j implies !spots::same(
        ts,
        i,
        j,
    ) by {
        if i < j {
            assert(apart(ts[i].bounds, ts[j].bounds));
        } else {
            assert(apart(ts[j].bounds, ts[i].bounds));
        }
    }
    assert forall|i: int| 0 <= i < n implies #[trigger] turns[i] == Some(i) by {
        lemma_alone(ts, i);
        assert(spots::stays(ts, i));
        lemma_first_alone(ts, i, 0);
    }
    lemma_turn_by_turn(turns, n);
    assert(spots::kept(ts) =~= ts);
    spots::none_is_lost(ts);
}

proof fn lemma_alone(ts: Seq<TargetView>, i: int)
    requires
        0 <= i < ts.len(),
        forall|j: int| 0 <= j < ts.len() && j != i ==> !#[trigger] spots::same(ts, j, i),
    ensures
        spots::stays(ts, i),
{
    assert forall|j: int| 0 <= j < ts.len() && #[trigger] spots::ahead(ts, j, i) implies !spots::stays(
        ts,
        j,
    ) by {
        assert(spots::same(ts, j, i));
        assert(j == i);
        filter::preference_is_one_way(spots::seen_as(ts[i]), spots::seen_as(ts[i]));
        assert(!spots::beats(ts, i, i));
    }
}

proof fn lemma_first_alone(ts: Seq<TargetView>, i: int, k: int)
    requires
        0 <= k <= i < ts.len(),
        forall|j: int| 0 <= j < ts.len() && j != i ==> !#[trigger] spots::same(ts, j, i),
    ensures
        spots::first_on_spot(ts, i, k) == i,
    decreases i - k,
{
    if k < i {
        assert(!spots::same(ts, k, i));
        lemma_first_alone(ts, i, k + 1);
    } else {
        assert(spots::same(ts, i, i));
    }
}

proof fn lemma_turn_by_turn(turns: Seq<Option<int>>, n: int)
    requires
        0 <= n <= turns.len(),
        forall|i: int| 0 <= i < turns.len() ==> #[trigger] turns[i] == Some(i),
    ensures
        spots::in_turn(turns, n) =~= Seq::new(n as nat, |i: int| i),
    decreases n,
{
    if n > 0 {
        lemma_turn_by_turn(turns, n - 1);
        lemma_one_turn(turns, n - 1, turns.len() as int);
    }
}

proof fn lemma_one_turn(turns: Seq<Option<int>>, turn: int, m: int)
    requires
        0 <= turn,
        0 <= m <= turns.len(),
        forall|i: int| 0 <= i < turns.len() ==> #[trigger] turns[i] == Some(i),
    ensures
        spots::at_turn(turns, turn, m) =~= (if turn < m {
            seq![turn]
        } else {
            Seq::<int>::empty()
        }),
    decreases m,
{
    if m > 0 {
        lemma_one_turn(turns, turn, m - 1);
        assert(turns[m - 1] == Some(m - 1));
    }
}

/// What is kept is listed in the order of the spots: the spot that a target
/// came upon first stands first.
pub proof fn kept_targets_stand_in_the_order_of_spots(ts: Seq<TargetView>, a: int, b: int, p: int)
    requires
        0 <= a < b < spots::kept_ones(ts).len(),
        0 <= p < ts.len(),
        -6 <= ts[p].bounds.middle_x() - spots::kept(ts)[b].bounds.middle_x() <= 6,
        -6 <= ts[p].bounds.middle_y() - spots::kept(ts)[b].bounds.middle_y() <= 6,
    ensures
        exists|q: int|
            {
                &&& 0 <= q <= p
                &&& -6 <= (#[trigger] ts[q]).bounds.middle_x() - spots::kept(
                    ts,
                )[a].bounds.middle_x() <= 6
                &&& -6 <= ts[q].bounds.middle_y() - spots::kept(ts)[a].bounds.middle_y() <= 6
            },
{
    let ones = spots::kept_ones(ts);
    let turns = spots::kept_turns(ts);
    spots::lemma_listed(ts);
    lemma_sorted_by_turn(turns, ts.len() as int, a, b);
    let (i, j) = (ones[a], ones[b]);
    assert(spots::kept(ts)[a] == ts[i] && spots::kept(ts)[b] == ts[j]);
    assert(spots::same(ts, p, j));
    lemma_first_is_first(ts, j, p, 0);
    lemma_first_is_first(ts, i, i, 0);
    let q = spots::first_on_spot(ts, i, 0);
    assert(turns[i] == Some(q));
    assert(turns[j] == Some(spots::first_on_spot(ts, j, 0)));
    assert(spots::same(ts, q, i));
    assert(ts[q] == ts[q]);
}

proof fn lemma_first_is_first(ts: Seq<TargetView>, i: int, p: int, k: int)
    requires
        0 <= k <= p < ts.len(),
        0 <= i < ts.len(),
        spots::same(ts, p, i),
    ensures
        k <= spots::first_on_spot(ts, i, k) <= p,
        spots::same(ts, spots::first_on_spot(ts, i, k), i),
    decreases p - k,
{
    if !spots::same(ts, k, i) {
        lemma_first_is_first(ts, i, p, k + 1);
    }
}

proof fn lemma_listed_at_turn(turns: Seq<Option<int>>, turn: int, m: int, a: int)
    requires
        0 <= m <= turns.len(),
        0 <= a < spots::at_turn(turns, turn, m).len(),
    ensures
        0 <= spots::at_turn(turns, turn, m)[a] < m,
        turns[spots::at_turn(turns, turn, m)[a]] == Some(turn),
    decreases m,
{
    if m > 0 && a < spots::at_turn(turns, turn, m - 1).len() {
        lemma_listed_at_turn(turns, turn, m - 1, a);
    }
}

proof fn lemma_sorted_by_turn(turns: Seq<Option<int>>, n: int, a: int, b: int)
    requires
        0 <= n,
        0 <= a <= b < spots::in_turn(turns, n).len(),
    ensures
        ({
            let s = spots::in_turn(turns, n);
            &&& 0 <= s[a] < turns.len() && 0 <= s[b] < turns.len()
            &&& turns[s[a]] is Some && turns[s[b]] is Some
            &&& turns[s[a]]->0 <= turns[s[b]]->0 < n
        }),
    decreases n,
{
    if n > 0 {
        let before = spots::in_turn(turns, n - 1);
        if b < before.len() {
            lemma_sorted_by_turn(turns, n - 1, a, b);
        } else {
            lemma_listed_at_turn(turns, n - 1, turns.len() as int, b - before.len());
            if a < before.len() {
                lemma_sorted_by_turn(turns, n - 1, a, a);
            } else {
                lemma_listed_at_turn(turns, n - 1, turns.len() as int, a - before.len());
            }
        }
    }
}

/// A target is kept when every other on its spot is larger, or as large and of
/// a role that comes later, or as large, of a role as early and of a path that
/// comes later.
pub proof fn the_best_on_a_spot_is_kept(ts: Seq<TargetView>, i: int)
    requires
        0 <= i < ts.len(),
        forall|j: int|
            0 <= j < ts.len() && j != i ==> {
                let (a, b) = (ts[i], #[trigger] ts[j]);
                ||| a.bounds.middle_x() - b.bounds.middle_x() > 6
                ||| b.bounds.middle_x() - a.bounds.middle_x() > 6
                ||| a.bounds.middle_y() - b.bounds.middle_y() > 6
                ||| b.bounds.middle_y() - a.bounds.middle_y() > 6
                ||| a.bounds.w * a.bounds.h < b.bounds.w * b.bounds.h
                ||| a.bounds.w * a.bounds.h == b.bounds.w * b.bounds.h && filter::rank(a.role)
                    < filter::rank(b.role)
                ||| a.bounds.w * a.bounds.h == b.bounds.w * b.bounds.h && filter::rank(a.role)
                    == filter::rank(b.role) && filter::text_less(
                    vstd::utf8::encode_utf8(a.path),
                    vstd::utf8::encode_utf8(b.path),
                )
            },
    ensures
        spots::kept(ts).contains(ts[i]),
        spots::stays(ts, i),
{
    assert forall|j: int| 0 <= j < ts.len() implies !#[trigger] spots::ahead(ts, j, i) by {
        if j == i {
            filter::preference_is_one_way(spots::seen_as(ts[i]), spots::seen_as(ts[i]));
        } else {
            assert(ts[j] == ts[j]);
            if !apart(ts[i].bounds, ts[j].bounds) {
                assert(spots::preferred(ts, i, j));
                filter::preference_is_one_way(spots::seen_as(ts[i]), spots::seen_as(ts[j]));
            }
        }
    }
    spots::each_target_stays_or_goes(ts, i);
    let k = choose|k: int| 0 <= k < spots::kept_ones(ts).len() && spots::kept_ones(ts)[k] == i;
    assert(spots::kept(ts)[k] == ts[i]);
}

/// What is dropped is dropped for one that is kept within six pixels of it
/// both ways and that is no larger; and no two that are kept are that near.
pub proof fn a_target_is_dropped_for_a_better_one(ts: Seq<TargetView>, j: int) -> (i: int)
    requires
        0 <= j < ts.len(),
    ensures
        0 <= i < spots::kept(ts).len(),
        ({
            let (a, b) = (spots::kept(ts)[i].bounds, ts[j].bounds);
            &&& -6 <= a.middle_x() - b.middle_x() <= 6
            &&& -6 <= a.middle_y() - b.middle_y() <= 6
            &&& a.w * a.h <= b.w * b.h
        }),
        forall|k: int, m: int|
            0 <= k < m < spots::kept(ts).len() ==> {
                let (a, b) = (
                    (#[trigger] spots::kept(ts)[k]).bounds,
                    (#[trigger] spots::kept(ts)[m]).bounds,
                );
                ||| a.middle_x() - b.middle_x() > 6
                ||| b.middle_x() - a.middle_x() > 6
                ||| a.middle_y() - b.middle_y() > 6
                ||| b.middle_y() - a.middle_y() > 6
            },
{
    assert forall|k: int, m: int| 0 <= k < m < spots::kept(ts).len() implies {
        let (a, b) = (
            (#[trigger] spots::kept(ts)[k]).bounds,
            (#[trigger] spots::kept(ts)[m]).bounds,
        );
        ||| a.middle_x() - b.middle_x() > 6
        ||| b.middle_x() - a.middle_x() > 6
        ||| a.middle_y() - b.middle_y() > 6
        ||| b.middle_y() - a.middle_y() > 6
    } by {
        spots::one_hint_per_spot(ts, k, m);
    }
    let i = spots::every_spot_keeps_a_hint(ts, j);
    spots::lemma_listed(ts);
    let k = spots::kept_ones(ts)[i];
    assert(spots::kept(ts)[i] == ts[k]);
    if k != j {
        filter::preference_decides(spots::seen_as(ts[k]), spots::seen_as(ts[j]));
    }
    i
}

/// What is dropped is listed with its own role, name and path, as a duplicate.
pub proof fn a_dropped_target_is_named(ts: Seq<TargetView>, k: int) -> (j: int)
    requires
        0 <= k < spots::dropped(ts).len(),
    ensures
        0 <= j < ts.len(),
        spots::dropped(ts)[k].why == Reject::Duplicate,
        spots::dropped(ts)[k].role == ts[j].role,
        spots::dropped(ts)[k].name == ts[j].name,
        spots::dropped(ts)[k].path == ts[j].path,
        !spots::stays(ts, j),
{
    spots::lemma_listed(ts);
    spots::dropped_ones(ts)[k]
}

/// Of two targets the smaller is preferred, whatever their roles; of two as
/// large the one whose role comes first; then the one whose path is less, byte
/// by byte.
pub proof fn the_smaller_target_is_preferred(
    a: (WindowRect, Role, Seq<char>),
    b: (WindowRect, Role, Seq<char>),
)
    ensures
        a.0.w * a.0.h < b.0.w * b.0.h ==> filter::preferable(a, b) && !filter::preferable(b, a),
        a.0.w * a.0.h == b.0.w * b.0.h && filter::rank(a.1) < filter::rank(b.1)
            ==> filter::preferable(a, b) && !filter::preferable(b, a),
        a.0.w * a.0.h == b.0.w * b.0.h && a.1 == b.1 ==> (filter::preferable(a, b) <==> {
            let (x, y) = (vstd::utf8::encode_utf8(a.2), vstd::utf8::encode_utf8(b.2));
            exists|n: int|
                {
                    &&& 0 <= n <= x.len() && n < y.len()
                    &&& #[trigger] x.take(n) == y.take(n)
                    &&& n == x.len() || x[n] < y[n]
                }
        }),
{
    filter::preference_is_one_way(a, b);
    let (x, y) = (filter::bytes(a.2), filter::bytes(b.2));
    if filter::text_less(x, y) {
        let n = choose|n: int| #[trigger] filter::less_at(x, y, n);
        assert(x.take(n) == y.take(n));
    }
    if exists|n: int|
        {
            &&& 0 <= n <= x.len() && n < y.len()
            &&& #[trigger] x.take(n) == y.take(n)
            &&& n == x.len() || x[n] < y[n]
        } {
        let n = choose|n: int|
            {
                &&& 0 <= n <= x.len() && n < y.len()
                &&& #[trigger] x.take(n) == y.take(n)
                &&& n == x.len() || x[n] < y[n]
            };
        assert(filter::less_at(x, y, n));
    }
}

/// A state set passes when it is visible, showing and sensitive; else the
/// first of these that is missing is the reason.
pub proof fn a_target_is_visible_showing_and_sensitive(s: StateSet)
    ensures
        ({
            let visible = s.bits & 0x4000_0000 != 0;
            let showing = s.bits & 0x200_0000 != 0;
            let sensitive = s.bits & 0x100_0000 != 0;
            &&& filter::state_fault(s) is None <==> visible && showing && sensitive
            &&& filter::state_fault(s) == Some(Reject::NotVisible) <==> !visible
            &&& filter::state_fault(s) == Some(Reject::NotShowing) <==> visible && !showing
            &&& filter::state_fault(s) == Some(Reject::Insensitive) <==> visible && showing
                && !sensitive
        }),
{
    a_state_is_in_a_set_by_its_bit(s);
}

/// A rectangle passes when it is a rectangle at a position, four pixels or
/// more each way, and, where the window's bounds are known, centred inside
/// them and under nine tenths of them; else the first of these that fails is
/// the reason.
pub proof fn a_target_can_be_aimed_at(r: WindowRect, clip: Option<WindowRect>)
    ensures
        ({
            let fault = filter::bounds_fault(r, clip);
            let sound = r.w > 0 && r.h > 0 && r.x > -0x8000_0000 && r.y > -0x8000_0000;
            let large = r.w >= 4 && r.h >= 4;
            let inside = clip is Some ==> {
                &&& clip->0.x <= r.x + r.w / 2 < clip->0.x + clip->0.w
                &&& clip->0.y <= r.y + r.h / 2 < clip->0.y + clip->0.h
            };
            let covers = clip is Some && clip->0.w * clip->0.h > 0 && 10 * (r.w * r.h) >= 9 * (
            clip->0.w * clip->0.h);
            &&& fault == Some(Reject::Degenerate) <==> !sound
            &&& fault == Some(Reject::TooSmall) <==> sound && !large
            &&& fault == Some(Reject::OffFrame) <==> sound && large && !inside
            &&& fault == Some(Reject::Container) <==> sound && large && inside && covers
            &&& fault is None <==> sound && large && inside && !covers
        }),
{
}

/// A node is kept when it can be clicked, its states pass and its rectangle
/// does; else it is dropped for its role, then for its states, then for its
/// rectangle.
pub proof fn a_node_is_kept_by_role_states_and_bounds(
    role: Role,
    states: StateSet,
    r: WindowRect,
    clip: Option<WindowRect>,
)
    ensures
        ({
            let fault = filter::fault(role, states, r, clip);
            &&& fault == Some(Reject::Role) <==> !filter::actionable(role)
            &&& filter::actionable(role) && filter::state_fault(states) is Some ==> fault
                == filter::state_fault(states)
            &&& filter::actionable(role) && filter::state_fault(states) is None ==> fault
                == filter::bounds_fault(r, clip)
            &&& filter::verdict(fault) is Ok <==> fault is None
            &&& fault is Some ==> filter::verdict(fault) == Err::<(), Reject>(fault->0)
        }),
{
    a_target_is_visible_showing_and_sensitive(states);
    a_target_can_be_aimed_at(r, clip);
}

/// The bounds of a window are a boundary when it is an application's frame and
/// has an inside.
pub proof fn only_a_frame_is_a_boundary(f: FrameView)
    ensures
        f.boundary() == Some(f.bounds) <==> f.role is Frame && f.bounds.w > 0 && f.bounds.h > 0,
        f.boundary() is Some ==> f.boundary()->0 == f.bounds,
{
}

/// A candidate with extents becomes a target under its own path and
/// connection, with the role and name it is known by, or else those it gave
/// when it was asked; or it is dropped for its rectangle. One without extents,
/// or without the role it was asked for, is dropped for that.
pub proof fn a_candidate_becomes_its_own_target(
    c: CandidateView,
    facts: Option<FactsView>,
    clip: Option<WindowRect>,
    provenance: Provenance,
    metadata: bool,
)
    ensures
        ({
            let r = c.outcome(facts, clip, provenance, metadata);
            let answered = facts is Some && (c.role is None && metadata ==> facts->0.role is Some);
            let role = if c.role is Some {
                c.role->0
            } else if metadata {
                facts->0.role->0
            } else {
                Role::Invalid
            };
            &&& !answered ==> r is Err && r->Err_0.why == Reject::NoBounds && r->Err_0.path
                == c.object.path
            &&& answered ==> {
                let fault = filter::bounds_fault(facts->0.bounds, clip);
                &&& fault is None <==> r is Ok
                &&& r matches Ok(t) ==> {
                    &&& t.bounds == facts->0.bounds
                    &&& t.path == c.object.path
                    &&& t.provenance == provenance
                    &&& t.role == role
                    &&& c.object.name is Some ==> t.bus_name == c.object.name->0
                    &&& c.object.name is None ==> t.bus_name.len() == 0
                    &&& c.name is Some ==> t.name == c.name->0
                    &&& c.name is None && metadata && facts->0.name is Some ==> t.name
                        == facts->0.name->0
                    &&& c.name is None && (!metadata || facts->0.name is None) ==> t.name.len()
                        == 0
                }
                &&& r matches Err(x) ==> {
                    &&& fault == Some(x.why)
                    &&& x.path == c.object.path
                    &&& x.role == role
                }
            }
        }),
{
}

/// A candidate is asked for what is wanted and not known.
pub proof fn a_candidate_is_asked_for_what_it_lacks(c: CandidateView, metadata: bool)
    ensures
        c.lacks_role(metadata) <==> metadata && c.role is None,
        c.lacks_name(metadata) <==> metadata && c.name is None,
{
}

/// Each candidate is sorted out for itself: what becomes a target is among the
/// targets, and what is dropped among the dropped.
pub proof fn each_candidate_is_sorted_out_for_itself(
    cands: Seq<CandidateView>,
    facts: Seq<Option<FactsView>>,
    clip: Option<WindowRect>,
    provenance: Provenance,
    metadata: bool,
    n: nat,
    i: int,
)
    requires
        0 <= i < n <= cands.len(),
    ensures
        ({
            let (targets, rejects) = resolve::sorted_out(
                cands,
                facts,
                clip,
                provenance,
                metadata,
                n,
            );
            match cands[i].outcome(facts[i], clip, provenance, metadata) {
                Ok(t) => targets.contains(t),
                Err(r) => rejects.contains(r),
            }
        }),
    decreases n,
{
    let (targets, rejects) = resolve::sorted_out(cands, facts, clip, provenance, metadata, n);
    let less = (n - 1) as nat;
    let (some, others) = resolve::sorted_out(cands, facts, clip, provenance, metadata, less);
    if i < less {
        each_candidate_is_sorted_out_for_itself(
            cands,
            facts,
            clip,
            provenance,
            metadata,
            less,
            i,
        );
        match cands[i].outcome(facts[i], clip, provenance, metadata) {
            Ok(t) => {
                let k = some.index_of(t);
                assert(targets[k] == t);
            },
            Err(r) => {
                let k = others.index_of(r);
                assert(rejects[k] == r);
            },
        }
    } else {
        match cands[i].outcome(facts[i], clip, provenance, metadata) {
            Ok(t) => {
                assert(targets.last() == t);
            },
            Err(r) => {
                assert(rejects.last() == r);
            },
        }
    }
}

/// The targets stand in the order of their candidates.
pub proof fn targets_stand_in_the_order_of_candidates(
    cands: Seq<CandidateView>,
    facts: Seq<Option<FactsView>>,
    clip: Option<WindowRect>,
    provenance: Provenance,
    metadata: bool,
    n: nat,
    a: int,
    b: int,
) -> (at: (int, int))
    requires
        n <= cands.len(),
        0 <= a <= b < resolve::sorted_out(cands, facts, clip, provenance, metadata, n).0.len(),
    ensures
        ({
            let targets = resolve::sorted_out(cands, facts, clip, provenance, metadata, n).0;
            &&& 0 <= at.0 <= at.1 < n
            &&& a < b ==> at.0 < at.1
            &&& cands[at.0].outcome(facts[at.0], clip, provenance, metadata) == Ok::<
                TargetView,
                RejectedView,
            >(targets[a])
            &&& cands[at.1].outcome(facts[at.1], clip, provenance, metadata) == Ok::<
                TargetView,
                RejectedView,
            >(targets[b])
        }),
    decreases n,
{
    let less = (n - 1) as nat;
    let some = resolve::sorted_out(cands, facts, clip, provenance, metadata, less).0;
    if b < some.len() {
        targets_stand_in_the_order_of_candidates(
            cands,
            facts,
            clip,
            provenance,
            metadata,
            less,
            a,
            b,
        )
    } else if a < b {
        let low = targets_stand_in_the_order_of_candidates(
            cands,
            facts,
            clip,
            provenance,
            metadata,
            less,
            a,
            a,
        ).0;
        (low, n - 1)
    } else {
        (n - 1, n - 1)
    }
}

/// What a reading comes to is the targets that the candidates become, one of
/// each spot; what is not among them was dropped for its own fault or for
/// another target on its spot.
pub proof fn a_reading_keeps_one_target_of_each_spot(
    cands: Seq<CandidateView>,
    facts: Seq<Option<FactsView>>,
    clip: Option<WindowRect>,
    provenance: Provenance,
    metadata: bool,
    i: int,
)
    requires
        0 <= i < cands.len(),
    ensures
        ({
            let (targets, rejects) = resolve::resolution(cands, facts, clip, provenance, metadata);
            match cands[i].outcome(facts[i], clip, provenance, metadata) {
                Err(r) => rejects.contains(r),
                Ok(t) => exists|k: int|
                    {
                        &&& 0 <= k < targets.len()
                        &&& -6 <= (#[trigger] targets[k]).bounds.middle_x() - t.bounds.middle_x()
                            <= 6
                        &&& -6 <= targets[k].bounds.middle_y() - t.bounds.middle_y() <= 6
                        &&& targets[k].bounds.w * targets[k].bounds.h <= t.bounds.w * t.bounds.h
                    },
            }
        }),
{
    each_candidate_is_sorted_out_for_itself(
        cands,
        facts,
        clip,
        provenance,
        metadata,
        cands.len(),
        i,
    );
    let (all, faulty) = resolve::sorted_out(
        cands,
        facts,
        clip,
        provenance,
        metadata,
        cands.len(),
    );
    let (targets, rejects) = resolve::resolution(cands, facts, clip, provenance, metadata);
    match cands[i].outcome(facts[i], clip, provenance, metadata) {
        Ok(t) => {
            let j = all.index_of(t);
            let k = a_target_is_dropped_for_a_better_one(all, j);
            assert(targets[k] == spots::kept(all)[k]);
        },
        Err(r) => {
            let j = faulty.index_of(r);
            assert(rejects[j] == r);
        },
    }
}

} // verus!
