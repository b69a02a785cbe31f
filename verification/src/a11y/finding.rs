//! How a window is found.
//!
//! The laws of the search for a window, in terms of what the applications and
//! windows of a desktop say of themselves.
use vstd::prelude::*;

use crate::a11y::desktop::Desktop;
use crate::a11y::error::ErrorView;
use crate::a11y::mirror::MirrorView;
use crate::a11y::names;
use crate::a11y::pixels;
use crate::a11y::role::Role;
use crate::a11y::search;
use crate::a11y::search::{Outcome, Quest, WindowView};
use crate::a11y::seek;
use crate::a11y::seek::{Named, PickView};
use crate::a11y::target::{FocusSource, FrameView, ObjectView, WindowRect};
use crate::a11y::verify::Space;
use crate::text;

verus! {

/// A path is a slash, or names with a slash before each: what is a path stays
/// one when a slash and a name are put behind it.
pub proof fn a_path_is_made_of_names(path: Seq<char>, name: Seq<char>)
    requires
        name.len() > 0,
        forall|i: int|
            0 <= i < name.len() ==> ('a' <= #[trigger] name[i] <= 'z' || 'A' <= name[i] <= 'Z'
                || '0' <= name[i] <= '9' || name[i] == '_'),
        names::is_object_path(path),
    ensures
        names::is_object_path(seq!['/']),
        names::is_object_path(seq!['/'] + name),
        path.len() > 1 ==> names::is_object_path(path + seq!['/'] + name),
{
    let root: Seq<char> = seq!['/'];
    assert(root.len() == 1 && root[0] == '/');
    let first = root + name;
    assert forall|i: int| 1 <= i < first.len() implies #[trigger] first[i] != '/' by {
        assert(first[i] == name[i - 1]);
    }
    assert forall|i: int| 0 <= i < first.len() implies names::name_char(#[trigger] first[i])
        || first[i] == '/' by {
        if i > 0 {
            assert(first[i] == name[i - 1]);
        }
    }
    if path.len() > 1 {
        let long = path + root + name;
        let n = path.len() as int;
        assert forall|i: int| 0 <= i < long.len() implies names::name_char(#[trigger] long[i])
            || long[i] == '/' by {
            if i < n {
                assert(long[i] == path[i]);
            } else if i > n {
                assert(long[i] == name[i - n - 1]);
            }
        }
        assert(long.last() == name.last());
        assert forall|i: int, j: int| 0 <= i && j == i + 1 && j < long.len() implies !(
        #[trigger] long[i] == '/' && #[trigger] long[j] == '/') by {
            if j < n {
                assert(long[i] == path[i] && long[j] == path[j]);
            } else if j == n {
                assert(long[i] == path.last());
            } else {
                assert(long[j] == name[j - n - 1]);
            }
        }
    }
}

/// A text that does not begin with a slash, ends in one behind something else,
/// has two in a row or holds any other character is no path.
pub proof fn what_is_not_made_of_names_is_no_path(s: Seq<char>, i: int)
    ensures
        s.len() == 0 ==> !names::is_object_path(s),
        s.len() > 0 && s[0] != '/' ==> !names::is_object_path(s),
        s.len() > 1 && s[s.len() - 1] == '/' ==> !names::is_object_path(s),
        0 <= i < s.len() - 1 && s[i] == '/' && s[i + 1] == '/' ==> !names::is_object_path(s),
        0 <= i < s.len() && s[i] != '/' && s[i] != '_' && !('a' <= s[i] <= 'z') && !('A' <= s[i]
            <= 'Z') && !('0' <= s[i] <= '9') ==> !names::is_object_path(s),
{
    if 0 <= i < s.len() {
        let c = s[i];
        assert(names::is_object_path(s) ==> names::name_char(c) || c == '/');
    }
}

/// Two parts with a dot between them, behind a colon, name a connection, as
/// long as it is no longer than two hundred and fifty-five.
pub proof fn a_connection_is_named_in_parts(a: Seq<char>, b: Seq<char>)
    requires
        a.len() > 0,
        b.len() > 0,
        2 + a.len() + b.len() <= 255,
        forall|i: int|
            0 <= i < a.len() ==> ('a' <= #[trigger] a[i] <= 'z' || 'A' <= a[i] <= 'Z' || '0' <= a[i]
                <= '9' || a[i] == '_' || a[i] == '-'),
        forall|i: int|
            0 <= i < b.len() ==> ('a' <= #[trigger] b[i] <= 'z' || 'A' <= b[i] <= 'Z' || '0' <= b[i]
                <= '9' || b[i] == '_' || b[i] == '-'),
    ensures
        names::is_unique_name(seq![':'] + a + seq!['.'] + b),
{
    let colon: Seq<char> = seq![':'];
    let dot: Seq<char> = seq!['.'];
    let s = colon + a + dot + b;
    let n = a.len() + 1;
    assert(s[0] == ':');
    assert(s[n as int] == '.');
    assert forall|i: int| 1 <= i < s.len() implies (names::name_char(#[trigger] s[i]) || s[i]
        == '-' || s[i] == '.') && (s[i] == '.' <==> i == n) by {
        if i < n {
            assert(s[i] == a[i - 1]);
        } else if i > n {
            assert(s[i] == b[i - n - 1]);
        }
    }
    assert(s.last() == s[s.len() - 1]);
}

/// Only the bus itself is named without a colon; a name without a dot, with
/// two in a row, one at either end, another character or more than two hundred
/// and fifty-five of them names no connection.
pub proof fn what_is_not_in_parts_names_no_connection(s: Seq<char>, i: int)
    requires
        s != "org.freedesktop.DBus"@,
    ensures
        s.len() == 0 || s[0] != ':' ==> !names::is_unique_name(s),
        s.len() > 255 ==> !names::is_unique_name(s),
        s.len() > 1 && (s[1] == '.' || s[s.len() - 1] == '.') ==> !names::is_unique_name(s),
        (forall|k: int| 0 <= k < s.len() ==> #[trigger] s[k] != '.') ==> !names::is_unique_name(s),
        0 <= i < s.len() - 1 && s[i] == '.' && s[i + 1] == '.' ==> !names::is_unique_name(s),
        1 <= i < s.len() && s[i] != '.' && s[i] != '-' && s[i] != '_' && !('a' <= s[i] <= 'z') && !(
        'A' <= s[i] <= 'Z') && !('0' <= s[i] <= '9') ==> !names::is_unique_name(s),
{
    if 1 <= i < s.len() {
        let c = s[i];
        assert(names::is_unique_name(s) ==> names::name_char(c) || c == '-' || c == '.');
    }
}

/// An object can be addressed when its connection and its path can be; what is
/// said otherwise names the connection first.
pub proof fn an_address_is_a_name_and_a_path(bus: Seq<char>, path: Seq<char>)
    ensures
        names::addressable(bus, path) <==> names::is_unique_name(bus) && names::is_object_path(
            path,
        ),
        !names::is_unique_name(bus) ==> names::address_fault(bus, path) == ErrorView::Bus(
            "bus name '"@ + bus + "': "@
                + "Invalid unique name. See https://dbus.freedesktop.org/doc/dbus-specification.html#message-protocol-names-bus"@,
        ),
        names::is_unique_name(bus) ==> names::address_fault(bus, path) == ErrorView::Bus(
            "object path: "@ + "Invalid object path"@,
        ),
        names::frame_fault() == ErrorView::Bus("frame path: "@ + "Invalid object path"@),
{
}

/// A window is where the screen says it is, unless the screen says the origin
/// and the window itself knows better.
pub proof fn a_window_at_the_origin_is_not_believed(screen: WindowRect, window: WindowRect)
    ensures
        screen.x != 0 || screen.y != 0 ==> search::settled(screen, window) == (
            screen,
            Space::Screen,
        ),
        window.x == 0 && window.y == 0 ==> search::settled(screen, window) == (
            screen,
            Space::Screen,
        ),
        screen.x == 0 && screen.y == 0 && (window.x != 0 || window.y != 0) ==> search::settled(
            screen,
            window,
        ) == (window, Space::Window),
{
}

/// A frame is what the window said of itself, under the object's own
/// connection and path.
pub proof fn a_frame_is_what_its_window_said(w: WindowView, o: ObjectView, focus: FocusSource)
    ensures
        ({
            let f = w.frame(o, focus);
            &&& f.focus == focus
            &&& !f.pid_memo
            &&& !f.title_memo
            &&& f.path == o.path
            &&& f.bounds == w.bounds
            &&& o.name is Some ==> f.bus_name == o.name->0
            &&& o.name is None ==> f.bus_name.len() == 0
            &&& w.app is Some ==> f.app == w.app->0
            &&& w.app is None ==> f.app.len() == 0
            &&& w.title is Some ==> f.title == w.title->0
            &&& w.title is None ==> f.title.len() == 0
            &&& w.role is Some ==> f.role == w.role->0
            &&& w.role is None ==> f.role is Invalid
        }),
{
}

/// A frame that knows no application of its own takes the name of the one it
/// was found under.
pub proof fn a_nameless_frame_belongs_to_its_application(f: FrameView, app_name: Seq<char>)
    ensures
        f.app.len() > 0 ==> search::belonging(f, app_name) == f,
        f.app.len() == 0 ==> search::belonging(f, app_name).app == app_name,
        ({
            let g = search::belonging(f, app_name);
            &&& g.focus == f.focus
            &&& g.pid_memo == f.pid_memo
            &&& g.title_memo == f.title_memo
            &&& g.title == f.title
            &&& g.role == f.role
            &&& g.bus_name == f.bus_name
            &&& g.path == f.path
            &&& g.bounds == f.bounds
        }),
{
}

/// A search of all applications looks at all of them; a search of one looks at
/// the first object of that connection, or at none.
pub proof fn a_search_of_one_looks_at_that_one(q: Quest, apps: Seq<ObjectView>, i: int)
    ensures
        q.only is None ==> q.searched(apps) == apps,
        q.only is Some && 0 <= i < apps.len() && apps[i].name == q.only && (forall|k: int|
            0 <= k < i ==> (#[trigger] apps[k]).name != q.only) ==> q.searched(apps).len() == 1
            && q.searched(apps)[0] == apps[i],
        q.only is Some && (forall|k: int|
            0 <= k < apps.len() ==> (#[trigger] apps[k]).name != q.only) ==> q.searched(apps).len()
            == 0,
{
    if q.only is Some {
        let bus = q.only->0;
        if 0 <= i < apps.len() && apps[i].name == q.only && (forall|k: int|
            0 <= k < i ==> (#[trigger] apps[k]).name != q.only) {
            lemma_first_named(apps, bus, i);
        }
        if forall|k: int| 0 <= k < apps.len() ==> (#[trigger] apps[k]).name != q.only {
            lemma_first_named(apps, bus, apps.len() as int);
        }
    }
}

proof fn lemma_first_named(apps: Seq<ObjectView>, bus: Seq<char>, i: int)
    requires
        0 <= i <= apps.len(),
        forall|j: int| 0 <= j < i ==> (#[trigger] apps[j]).name != Some(bus),
        i < apps.len() ==> apps[i].name == Some(bus),
    ensures
        search::named(apps, bus) == i,
    decreases i,
{
    if i > 0 {
        let rest = apps.skip(1);
        assert(apps[0].name != Some(bus));
        assert forall|j: int| 0 <= j < i - 1 implies (#[trigger] rest[j]).name != Some(bus) by {
            assert(rest[j] == apps[j + 1]);
        }
        lemma_first_named(rest, bus, i - 1);
    }
}

/// A window suits a name that its title or its application's holds, in lower
/// case; without a name to look for, the active window does. One without a
/// title never does.
pub proof fn a_window_suits_by_name_or_by_being_active(
    d: Desktop,
    q: Quest,
    app_name: Seq<char>,
    win: ObjectView,
)
    ensures
        (d.title)(win) is None ==> !d.suits(q, app_name, win),
        (d.title)(win) is Some && q.query is Some ==> (d.suits(q, app_name, win) <==> text::holds(
            text::lowercase(app_name),
            q.query->0,
        ) || text::holds(text::lowercase((d.title)(win)->0), q.query->0)),
        (d.title)(win) is Some && q.query is None ==> (d.suits(q, app_name, win) <==> (d.states)(
            win,
        ) is Some && (d.states)(win)->0.bits & 2 != 0),
{
    if (d.states)(win) is Some {
        pixels::a_state_is_in_a_set_by_its_bit((d.states)(win)->0);
    }
}

/// The first window that suits and can be described is the one that is found:
/// those before it in its application, and every application before its own,
/// have none.
pub proof fn the_first_suitable_window_is_found(
    d: Desktop,
    q: Quest,
    apps: Seq<ObjectView>,
    i: int,
    j: int,
)
    requires
        d.apps is Ok,
        q.searched(d.apps->Ok_0) == apps,
        0 <= i < apps.len(),
        (d.windows)(apps[i]) is Some,
        0 <= j < ((d.windows)(apps[i])->0).0.len(),
        ({
            let (wins, app_name) = (d.windows)(apps[i])->0;
            &&& d.suits(q, app_name, wins[j])
            &&& (d.window)(wins[j]) is Some
            &&& forall|l: int|
                0 <= l < j ==> !d.suits(q, app_name, #[trigger] wins[l]) || (d.window)(wins[l])
                    is None
        }),
        forall|k: int, l: int|
            0 <= k < i && (d.windows)(apps[k]) is Some && 0 <= l < ((d.windows)(
                apps[k],
            )->0).0.len() ==> !d.suits(
                q,
                ((d.windows)(apps[k])->0).1,
                #[trigger] ((d.windows)(#[trigger] apps[k])->0).0[l],
            ) || (d.window)(((d.windows)(apps[k])->0).0[l]) is None,
    ensures
        ({
            let (wins, app_name) = (d.windows)(apps[i])->0;
            let title = (d.title)(wins[j])->0;
            match (d.window)(wins[j])->0 {
                Ok(w) => {
                    &&& d.found(q) is Ok
                    &&& d.found(q)->Ok_0 is Some
                    &&& {
                        let f = d.found(q)->Ok_0->0;
                        &&& f.path == wins[j].path
                        &&& wins[j].name is Some ==> f.bus_name == wins[j].name->0
                        &&& f.bounds == w.bounds
                        &&& q.query is Some ==> f.focus is Named
                        &&& q.query is None ==> f.focus is ActiveState
                        &&& q.only is None ==> f.title == title
                        &&& q.only is Some && w.title is Some ==> f.title == w.title->0
                        &&& w.app is Some && w.app->0.len() > 0 ==> f.app == w.app->0
                        &&& w.app is None || w.app->0.len() == 0 ==> f.app == app_name
                        &&& w.role is Some ==> f.role == w.role->0
                        &&& !f.pid_memo
                        &&& !f.title_memo
                    }
                },
                Err(e) => d.found(q) == Err::<Option<FrameView>, ErrorView>(e),
            }
        }),
{
    lemma_among_skips(d, q, apps, 0, i as nat);
    let (wins, app_name) = (d.windows)(apps[i])->0;
    lemma_in_app_skips(d, q, app_name, wins, 0, j as nat);
}

/// A search that no window suits finds none.
pub proof fn nothing_suitable_is_nothing_found(d: Desktop, q: Quest, apps: Seq<ObjectView>)
    requires
        d.apps is Ok,
        q.searched(d.apps->Ok_0) == apps,
        forall|k: int, l: int|
            0 <= k < apps.len() && (d.windows)(apps[k]) is Some && 0 <= l < ((d.windows)(
                apps[k],
            )->0).0.len() ==> !d.suits(
                q,
                ((d.windows)(apps[k])->0).1,
                #[trigger] ((d.windows)(#[trigger] apps[k])->0).0[l],
            ) || (d.window)(((d.windows)(apps[k])->0).0[l]) is None,
    ensures
        d.found(q) == Ok::<Option<FrameView>, ErrorView>(None),
{
    lemma_among_skips(d, q, apps, 0, apps.len());
}

/// A desktop that cannot list its applications fails with its own fault.
pub proof fn a_fault_of_the_desktop_is_passed_on(
    d: Desktop,
    q: Quest,
    n: Named,
    m: MirrorView,
    e: ErrorView,
)
    requires
        d.apps == Err::<Seq<ObjectView>, ErrorView>(e),
    ensures
        d.found(q) == Err::<Option<FrameView>, ErrorView>(e),
        d.sought(n, m).0 == Err::<Option<FrameView>, ErrorView>(e),
        d.sought(n, m).1 == m,
{
}

proof fn lemma_in_app_skips(
    d: Desktop,
    q: Quest,
    app_name: Seq<char>,
    wins: Seq<ObjectView>,
    from: nat,
    to: nat,
)
    requires
        from <= to <= wins.len(),
        forall|l: int|
            from <= l < to ==> !d.suits(q, app_name, #[trigger] wins[l]) || (d.window)(wins[l])
                is None,
    ensures
        d.in_app(q, app_name, wins, from) == d.in_app(q, app_name, wins, to),
    decreases to - from,
{
    if from < to {
        assert(!d.suits(q, app_name, wins[from as int]) || (d.window)(wins[from as int]) is None);
        lemma_in_app_skips(d, q, app_name, wins, from + 1, to);
    }
}

proof fn lemma_among_skips(d: Desktop, q: Quest, apps: Seq<ObjectView>, from: nat, to: nat)
    requires
        from <= to <= apps.len(),
        forall|k: int, l: int|
            from <= k < to && (d.windows)(apps[k]) is Some && 0 <= l < ((d.windows)(
                apps[k],
            )->0).0.len() ==> !d.suits(
                q,
                ((d.windows)(apps[k])->0).1,
                #[trigger] ((d.windows)(#[trigger] apps[k])->0).0[l],
            ) || (d.window)(((d.windows)(apps[k])->0).0[l]) is None,
    ensures
        d.among(q, apps, from) == d.among(q, apps, to),
    decreases to - from,
{
    if from < to {
        let app = apps[from as int];
        if (d.windows)(app) is Some {
            let (wins, app_name) = (d.windows)(app)->0;
            assert forall|l: int| 0 <= l < wins.len() implies !d.suits(
                q,
                app_name,
                #[trigger] wins[l],
            ) || (d.window)(wins[l]) is None by {
                assert(((d.windows)(apps[from as int])->0).0[l] == wins[l]);
            }
            lemma_in_app_skips(d, q, app_name, wins, 0, wins.len());
        }
        lemma_among_skips(d, q, apps, from + 1, to);
    }
}

/// The window that was activated last is the focused one as long as it
/// describes itself; else the active window is looked for.
pub proof fn the_window_that_was_activated_is_focused(d: Desktop, held: Option<ObjectView>)
    ensures
        ({
            let there = held is Some && (d.window)(held->0) is Some && (d.window)(held->0)->0 is Ok;
            &&& there ==> {
                let w = (d.window)(held->0)->0->Ok_0;
                &&& d.focused(held) is Ok
                &&& d.focused(held)->Ok_0 is Some
                &&& d.focused(held)->Ok_0->0.focus is Activate
                &&& d.focused(held)->Ok_0->0.path == held->0.path
                &&& d.focused(held)->Ok_0->0.bounds == w.bounds
                &&& held->0.name is Some ==> d.focused(held)->Ok_0->0.bus_name == held->0.name->0
            }
            &&& !there ==> d.focused(held) == d.found(Quest { query: None, only: None })
        }),
{
}

/// A rectangle is of a size when neither side is more than eight pixels off.
pub proof fn a_size_matches_within_eight_pixels(b: WindowRect, size: (i32, i32))
    ensures
        seek::sized(b, size) <==> -8 <= b.w - size.0 <= 8 && -8 <= b.h - size.1 <= 8,
{
}

/// The very name counts four, a name that holds the other or is held by it
/// two, and anything else nothing, as does an empty one.
pub proof fn a_name_counts_by_how_alike_it_is(name: Seq<char>, wanted: Seq<char>)
    ensures
        name == wanted && name.len() > 0 ==> seek::likeness(name, wanted) == 4,
        name != wanted && name.len() > 0 && wanted.len() > 0 && (text::holds(name, wanted)
            || text::holds(wanted, name)) ==> seek::likeness(name, wanted) == 2,
        !text::holds(name, wanted) && !text::holds(wanted, name) && name != wanted
            ==> seek::likeness(name, wanted) == 0,
        name.len() == 0 || wanted.len() == 0 ==> seek::likeness(name, wanted) == 0,
{
}

/// A window scores by its title, and three more where its extents are of the
/// size that is looked for; one without a title scores nothing.
pub proof fn a_window_scores_by_title_and_size(d: Desktop, p: PickView, win: ObjectView)
    ensures
        (d.title)(win) is None ==> d.score(p, win) == 0,
        (d.title)(win) is Some ==> {
            let named = seek::likeness(text::lowercase((d.title)(win)->0), p.wanted);
            let fits = {
                &&& p.size.0 > 0
                &&& p.size.1 > 0
                &&& (d.extents)(win) is Some
                &&& -8 <= (d.extents)(win)->0.w - p.size.0 <= 8
                &&& -8 <= (d.extents)(win)->0.h - p.size.1 <= 8
            };
            &&& fits ==> d.score(p, win) == named + 3
            &&& !fits ==> d.score(p, win) == named
        },
{
    if (d.extents)(win) is Some {
        a_size_matches_within_eight_pixels((d.extents)(win)->0, p.size);
    }
}

/// The one window of an application is the one that is meant.
pub proof fn a_lone_window_is_meant(d: Desktop, n: Named, wins: Seq<ObjectView>)
    requires
        wins.len() == 1,
    ensures
        d.meant(n, wins).0 == wins[0],
        d.meant(n, wins).1 is Compositor,
{
}

/// What is looked for is the title in lower case.
pub proof fn a_title_is_looked_for_in_lower_case(n: Named)
    ensures
        n.key() == text::lowercase(n.title),
{
}

/// The application whose process it is, the first of them, is asked for the
/// window that is meant; that window is found where it describes itself and is
/// of the size that was asked for, and the application is remembered.
pub proof fn the_owner_of_the_process_is_asked(
    d: Desktop,
    n: Named,
    m: MirrorView,
    apps: Seq<ObjectView>,
    i: int,
    w: WindowView,
)
    requires
        d.apps == Ok::<Seq<ObjectView>, ErrorView>(apps),
        n.pid != 0,
        !m.pid_without_app.contains(n.pid),
        !m.app_for_pid.contains_key(n.pid),
        0 <= i < apps.len(),
        apps[i].name is Some,
        (d.pid)(apps[i].name->0) == Some(n.pid),
        forall|k: int|
            0 <= k < i ==> (#[trigger] apps[k]).name is None || (d.pid)(apps[k].name->0) != Some(
                n.pid,
            ),
        (d.windows)(apps[i]) is Some,
        ((d.windows)(apps[i])->0).0.len() > 0,
        (d.window)(d.meant(n, ((d.windows)(apps[i])->0).0).0) == Some(
            Ok::<WindowView, ErrorView>(w),
        ),
        n.size == (0i32, 0i32) || (-8 <= w.bounds.w - n.size.0 <= 8 && -8 <= w.bounds.h - n.size.1
            <= 8),
    ensures
        ({
            let (wins, app_name) = (d.windows)(apps[i])->0;
            let (win, focus) = d.meant(n, wins);
            let (r, after) = d.sought(n, m);
            &&& r is Ok
            &&& r->Ok_0 is Some
            &&& r->Ok_0->0.path == win.path
            &&& r->Ok_0->0.bounds == w.bounds
            &&& r->Ok_0->0.focus == focus
            &&& win.name is Some ==> r->Ok_0->0.bus_name == win.name->0
            &&& w.title is Some ==> r->Ok_0->0.title == w.title->0
            &&& w.app is Some && w.app->0.len() > 0 ==> r->Ok_0->0.app == w.app->0
            &&& w.app is None ==> r->Ok_0->0.app == app_name
            &&& !r->Ok_0->0.pid_memo
            &&& !r->Ok_0->0.title_memo
            &&& after.app_for_pid == m.app_for_pid.insert(n.pid, apps[i].name->0)
            &&& after.pid_without_app == m.pid_without_app
            &&& after.app_for_title == m.app_for_title
            &&& after.apps == m.apps
        }),
{
    lemma_by_pid_skips(d, n, m, apps, 0, i as nat);
    a_size_matches_within_eight_pixels(w.bounds, n.size);
}

proof fn lemma_by_pid_skips(
    d: Desktop,
    n: Named,
    m: MirrorView,
    apps: Seq<ObjectView>,
    from: nat,
    to: nat,
)
    requires
        from <= to <= apps.len(),
        forall|k: int|
            from <= k < to ==> (#[trigger] apps[k]).name is None || n.pid == 0 || (d.pid)(
                apps[k].name->0,
            ) != Some(n.pid),
    ensures
        d.by_pid(n, m, apps, from, None) == d.by_pid(n, m, apps, to, None),
    decreases to - from,
{
    if from < to {
        assert(apps[from as int].name is None || n.pid == 0 || (d.pid)(
            apps[from as int].name->0,
        ) != Some(n.pid));
        lemma_by_pid_skips(d, n, m, apps, from + 1, to);
    }
}

/// A process that no application owns is remembered as such, and the title
/// decides.
pub proof fn a_process_without_owner_is_found_by_title(
    d: Desktop,
    n: Named,
    m: MirrorView,
    apps: Seq<ObjectView>,
)
    requires
        d.apps == Ok::<Seq<ObjectView>, ErrorView>(apps),
        n.title.len() > 0,
        !m.app_for_pid.contains_key(n.pid),
        !m.app_for_title.contains_key(text::lowercase(n.title)),
        forall|k: int|
            0 <= k < apps.len() ==> (#[trigger] apps[k]).name is None || n.pid == 0 || (d.pid)(
                apps[k].name->0,
            ) != Some(n.pid),
    ensures
        ({
            let found = d.found(Quest { query: Some(text::lowercase(n.title)), only: None });
            let (r, after) = d.sought(n, m);
            &&& r == found
            &&& after.app_for_pid == m.app_for_pid
            &&& after.apps == m.apps
            &&& n.pid != 0 ==> after.pid_without_app.contains(n.pid)
            &&& n.pid == 0 ==> after.pid_without_app == m.pid_without_app
            &&& forall|pid: u32|
                pid != n.pid ==> (#[trigger] after.pid_without_app.contains(pid)
                    <==> m.pid_without_app.contains(pid))
            &&& found is Ok && found->Ok_0 is Some ==> after.app_for_title
                == m.app_for_title.insert(text::lowercase(n.title), found->Ok_0->0.bus_name)
            &&& found is Err || found->Ok_0 is None ==> after.app_for_title == m.app_for_title
        }),
{
    lemma_by_pid_skips(d, n, m, apps, 0, apps.len());
}

/// A process known to be owned by no application is not asked about again.
pub proof fn a_hopeless_process_is_not_asked_about(
    d: Desktop,
    n: Named,
    m: MirrorView,
    apps: Seq<ObjectView>,
)
    requires
        d.apps == Ok::<Seq<ObjectView>, ErrorView>(apps),
        n.pid != 0,
        m.pid_without_app.contains(n.pid),
        n.title.len() > 0,
        !m.app_for_title.contains_key(text::lowercase(n.title)),
    ensures
        d.sought(n, m).0 == d.found(
            Quest { query: Some(text::lowercase(n.title)), only: None },
        ),
        d.sought(n, m).1.pid_without_app == m.pid_without_app,
        d.sought(n, m).1.app_for_pid == m.app_for_pid,
{
}

/// An application that a title led to before is searched first; what is found
/// there is marked as remembered, and a memory that misleads is dropped, with
/// what was held of the process.
pub proof fn a_remembered_title_is_tried_first(
    d: Desktop,
    n: Named,
    m: MirrorView,
    hopeless: bool,
)
    requires
        hopeless || n.pid == 0,
        n.title.len() > 0,
        m.app_for_title.contains_key(text::lowercase(n.title)),
    ensures
        ({
            let key = text::lowercase(n.title);
            let again = d.found(Quest { query: Some(key), only: Some(m.app_for_title[key]) });
            let anew = d.found(Quest { query: Some(key), only: None });
            let (r, after) = d.by_title(n, m, hopeless);
            let hit = again is Ok && again->Ok_0 is Some;
            &&& hit ==> {
                &&& after == m
                &&& r is Ok
                &&& r->Ok_0 is Some
                &&& r->Ok_0->0.title_memo
                &&& r->Ok_0->0.path == again->Ok_0->0.path
                &&& r->Ok_0->0.bus_name == again->Ok_0->0.bus_name
                &&& r->Ok_0->0.bounds == again->Ok_0->0.bounds
                &&& r->Ok_0->0.title == again->Ok_0->0.title
                &&& r->Ok_0->0.app == again->Ok_0->0.app
                &&& r->Ok_0->0.role == again->Ok_0->0.role
                &&& r->Ok_0->0.focus == again->Ok_0->0.focus
            }
            &&& !hit ==> {
                &&& r == anew
                &&& !after.pid_without_app.contains(n.pid)
                &&& anew is Ok && anew->Ok_0 is Some ==> after.app_for_title.contains_key(key)
                    && after.app_for_title[key] == anew->Ok_0->0.bus_name
                &&& anew is Err || anew->Ok_0 is None ==> !after.app_for_title.contains_key(key)
            }
        }),
{
}

/// The application that owned the process before, if it still does, is asked
/// first, and its frame is marked as remembered.
pub proof fn a_remembered_owner_is_asked_first(
    d: Desktop,
    n: Named,
    m: MirrorView,
    apps: Seq<ObjectView>,
    w: WindowView,
)
    requires
        d.apps == Ok::<Seq<ObjectView>, ErrorView>(apps),
        n.pid != 0,
        !m.pid_without_app.contains(n.pid),
        m.app_for_pid.contains_key(n.pid),
        (d.pid)(m.app_for_pid[n.pid]) == Some(n.pid),
        seek::first_of(apps, m.app_for_pid[n.pid]).len() > 0,
        ({
            let first = seek::first_of(apps, m.app_for_pid[n.pid])[0];
            &&& first.name == Some(m.app_for_pid[n.pid])
            &&& (d.windows)(first) is Some
            &&& ((d.windows)(first)->0).0.len() > 0
            &&& (d.window)(d.meant(n, ((d.windows)(first)->0).0).0) == Some(
                Ok::<WindowView, ErrorView>(w),
            )
        }),
        n.size == (0i32, 0i32) || (-8 <= w.bounds.w - n.size.0 <= 8 && -8 <= w.bounds.h - n.size.1
            <= 8),
    ensures
        ({
            let first = seek::first_of(apps, m.app_for_pid[n.pid])[0];
            let (win, focus) = d.meant(n, ((d.windows)(first)->0).0);
            let (r, after) = d.sought(n, m);
            &&& r is Ok
            &&& r->Ok_0 is Some
            &&& r->Ok_0->0.pid_memo
            &&& r->Ok_0->0.path == win.path
            &&& r->Ok_0->0.bounds == w.bounds
            &&& r->Ok_0->0.focus == focus
            &&& after.app_for_pid.contains_key(n.pid)
            &&& after.app_for_pid[n.pid] == m.app_for_pid[n.pid]
        }),
{
    a_size_matches_within_eight_pixels(w.bounds, n.size);
}

/// A remembered owner that does not own the process any more is forgotten.
pub proof fn a_stale_owner_is_forgotten(
    d: Desktop,
    n: Named,
    m: MirrorView,
    apps: Seq<ObjectView>,
)
    requires
        d.apps == Ok::<Seq<ObjectView>, ErrorView>(apps),
        n.pid != 0,
        !m.pid_without_app.contains(n.pid),
        m.app_for_pid.contains_key(n.pid),
        (d.pid)(m.app_for_pid[n.pid]) != Some(n.pid),
    ensures
        d.sought(n, m) == d.sought(n, MirrorView { app_for_pid: m.app_for_pid.remove(n.pid), ..m }),
{
}

/// The objects of one connection come before all others, and both keep their
/// order.
pub proof fn one_connection_comes_first(apps: Seq<ObjectView>, o: ObjectView, bus: Seq<char>)
    ensures
        seek::first_of(seq![], bus).len() == 0,
        o.name != Some(bus) ==> seek::first_of(apps.push(o), bus) == seek::first_of(apps, bus).push(
            o,
        ),
        o.name == Some(bus) && (forall|k: int|
            0 <= k < apps.len() ==> (#[trigger] apps[k]).name == Some(bus)) ==> seek::first_of(
            apps.push(o),
            bus,
        ) == apps.push(o),
        seek::first_of(apps, bus).len() == apps.len(),
        forall|a: int, b: int|
            0 <= a < b < apps.len() && (#[trigger] seek::first_of(apps, bus)[b]).name == Some(bus)
                ==> (#[trigger] seek::first_of(apps, bus)[a]).name == Some(bus),
{
    let on = |o: ObjectView| o.name == Some(bus);
    let off = |o: ObjectView| o.name != Some(bus);
    reveal(Seq::filter);
    assert(apps.push(o).drop_last() =~= apps);
    lemma_split(apps, bus);
    let all = seek::first_of(apps, bus);
    assert(seek::first_of(seq![], bus) =~= seq![]);
    if o.name != Some(bus) {
        assert(seek::first_of(apps.push(o), bus) =~= all.push(o));
    }
    if o.name == Some(bus) && (forall|k: int|
        0 <= k < apps.len() ==> (#[trigger] apps[k]).name == Some(bus)) {
        lemma_all_on(apps, bus);
        assert(seek::first_of(apps.push(o), bus) =~= apps.push(o));
    }
}

proof fn lemma_split(apps: Seq<ObjectView>, bus: Seq<char>)
    ensures
        ({
            let on = apps.filter(|o: ObjectView| o.name == Some(bus));
            let off = apps.filter(|o: ObjectView| o.name != Some(bus));
            &&& on.len() + off.len() == apps.len()
            &&& forall|k: int| 0 <= k < on.len() ==> (#[trigger] on[k]).name == Some(bus)
            &&& forall|k: int| 0 <= k < off.len() ==> (#[trigger] off[k]).name != Some(bus)
        }),
    decreases apps.len(),
{
    reveal(Seq::filter);
    if apps.len() > 0 {
        lemma_split(apps.drop_last(), bus);
    }
}

proof fn lemma_all_on(apps: Seq<ObjectView>, bus: Seq<char>)
    requires
        forall|k: int| 0 <= k < apps.len() ==> (#[trigger] apps[k]).name == Some(bus),
    ensures
        apps.filter(|o: ObjectView| o.name == Some(bus)) == apps,
        apps.filter(|o: ObjectView| o.name != Some(bus)).len() == 0,
    decreases apps.len(),
{
    reveal(Seq::filter);
    if apps.len() > 0 {
        let rest = apps.drop_last();
        assert forall|k: int| 0 <= k < rest.len() implies (#[trigger] rest[k]).name == Some(
            bus,
        ) by {
            assert(rest[k] == apps[k]);
        }
        lemma_all_on(rest, bus);
        assert(apps.last().name == Some(bus));
        assert(rest.push(apps.last()) =~= apps);
    }
}

} // verus!
