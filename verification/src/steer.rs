//! Where the pointer goes, key by key.
//!
//! What [`crate::motion`] and [`crate::free`] promise of every key, in pixels.
//! The keys that are down are at places 0 to 10: `k`, `j`, `h`, `l`, `s`, `f`,
//! `d`, `g`, `a`, `r` and the keys that leave.
use vstd::prelude::*;
use vstd::string::*;

use crate::detect::rect::Rect;
use crate::free::{Dir, FreeState, Nanos};
use crate::motion;
use crate::motion::{Button, Cmd, Ev, Input, Key, MotionState};
use crate::num;

verus! {

// ---------------------------------------------------------------------------
// Keys
// ---------------------------------------------------------------------------

/// A name stands for its key and for no other, and a name of none of them for
/// no key.
pub proof fn a_key_has_its_name(name: Seq<char>)
    ensures
        Key::named(name) == Some(Key::Move(Dir::Left)) <==> name == "h"@,
        Key::named(name) == Some(Key::Move(Dir::Down)) <==> name == "j"@,
        Key::named(name) == Some(Key::Move(Dir::Up)) <==> name == "k"@,
        Key::named(name) == Some(Key::Move(Dir::Right)) <==> name == "l"@,
        Key::named(name) == Some(Key::Fast) <==> name == "s"@,
        Key::named(name) == Some(Key::LeftButton) <==> name == "f"@,
        Key::named(name) == Some(Key::DoubleClick) <==> name == "d"@,
        Key::named(name) == Some(Key::TripleClick) <==> name == "g"@,
        Key::named(name) == Some(Key::Wheel) <==> name == "a"@,
        Key::named(name) == Some(Key::RightClick) <==> name == "r"@,
        Key::named(name) == Some(Key::Leave) <==> name == "Tab"@ || name == "Escape"@ || name
            == "Alt_R"@ || name == "ISO_Level3_Shift"@,
{
    reveal_strlit("h");
    reveal_strlit("j");
    reveal_strlit("k");
    reveal_strlit("l");
    reveal_strlit("s");
    reveal_strlit("f");
    reveal_strlit("d");
    reveal_strlit("g");
    reveal_strlit("a");
    reveal_strlit("r");
    reveal_strlit("Tab");
    reveal_strlit("Escape");
    reveal_strlit("Alt_R");
    reveal_strlit("ISO_Level3_Shift");
    assert("h"@[0] == 'h' && "j"@[0] == 'j' && "k"@[0] == 'k' && "l"@[0] == 'l' && "s"@[0] == 's'
        && "f"@[0] == 'f' && "d"@[0] == 'd' && "g"@[0] == 'g' && "a"@[0] == 'a' && "r"@[0] == 'r');
    assert("Tab"@.len() == 3 && "Escape"@.len() == 6 && "Alt_R"@.len() == 5
        && "ISO_Level3_Shift"@.len() == 16);
}

/// Each key is remembered at a place of its own.
pub proof fn a_key_has_its_place(k: Key)
    ensures
        k == Key::Move(Dir::Up) ==> k.place() == 0,
        k == Key::Move(Dir::Down) ==> k.place() == 1,
        k == Key::Move(Dir::Left) ==> k.place() == 2,
        k == Key::Move(Dir::Right) ==> k.place() == 3,
        k == Key::Fast ==> k.place() == 4,
        k == Key::LeftButton ==> k.place() == 5,
        k == Key::DoubleClick ==> k.place() == 6,
        k == Key::TripleClick ==> k.place() == 7,
        k == Key::Wheel ==> k.place() == 8,
        k == Key::RightClick ==> k.place() == 9,
        k == Key::Leave ==> k.place() == 10,
{
}

/// A key that goes down is remembered as down and one that comes up as up; the
/// clock changes neither, and none is confused with another.
pub proof fn what_is_down_is_what_was_pressed(s: MotionState, ev: Ev)
    requires
        s.wf(),
        !s.over,
    ensures
        ({
            let now = s.after(ev).0.keys_down;
            match ev {
                Ev::Down(k) => now == s.keys_down.update(k.place(), true),
                Ev::Up(k) => now == s.keys_down.update(k.place(), false),
                Ev::Tick => now == s.keys_down,
            }
        }),
{
    if let Ev::Down(k) = ev {
        if s.is_down(k) {
            assert(s.keys_down.update(k.place(), true) =~= s.keys_down);
        }
    }
}

/// The clock is wanted exactly while a direction is held.
pub proof fn a_direction_is_held_when_its_key_is(s: MotionState)
    ensures
        s.moving() <==> s.keys_down[0] || s.keys_down[1] || s.keys_down[2] || s.keys_down[3],
{
}

// ---------------------------------------------------------------------------
// Movement mode: moving
// ---------------------------------------------------------------------------

/// With one direction held, whether a drag is under way or not, a press of it
/// and every tick move the pointer by one step in that direction and not at
/// all in the other, up to the edge; and say so once, unless the pointer is
/// there already. Without `s` the step is the slow step; with it the steps of
/// the sweep follow one another from the first.
pub proof fn a_direction_moves_its_own_way(s: MotionState, d: Dir, pressed: bool, step: int)
    requires
        s.wf(),
        !s.over,
        !s.wheel,
        pressed ==> !s.keys_down[0] && !s.keys_down[1] && !s.keys_down[2] && !s.keys_down[3],
        !pressed ==> {
            &&& s.keys_down[0] <==> d is Up
            &&& s.keys_down[1] <==> d is Down
            &&& s.keys_down[2] <==> d is Left
            &&& s.keys_down[3] <==> d is Right
        },
        !s.fast ==> step == s.slow_step,
        s.fast && pressed ==> step == s.fast_steps[0],
        s.fast && !pressed ==> step == s.fast_steps[s.ramp],
        step >= 1,
    ensures
        ({
            let ev = if pressed {
                Ev::Down(Key::Move(d))
            } else {
                Ev::Tick
            };
            let (t, cmds) = s.after(ev);
            let right = s.bounds.x + (if s.bounds.w > 0 {
                s.bounds.w - 1
            } else {
                0int
            });
            let bottom = s.bounds.y + (if s.bounds.h > 0 {
                s.bounds.h - 1
            } else {
                0int
            });
            &&& d is Right && s.x + step <= right ==> t.x == s.x + step && t.y == s.y
            &&& d is Right && s.x + step > right ==> t.x == right && t.y == s.y
            &&& d is Left && s.x - step >= s.bounds.x ==> t.x == s.x - step && t.y == s.y
            &&& d is Left && s.x - step < s.bounds.x ==> t.x == s.bounds.x && t.y == s.y
            &&& d is Down && s.y + step <= bottom ==> t.y == s.y + step && t.x == s.x
            &&& d is Down && s.y + step > bottom ==> t.y == bottom && t.x == s.x
            &&& d is Up && s.y - step >= s.bounds.y ==> t.y == s.y - step && t.x == s.x
            &&& d is Up && s.y - step < s.bounds.y ==> t.y == s.bounds.y && t.x == s.x
            &&& (t.x != s.x || t.y != s.y) ==> cmds =~= seq![Cmd::MoveTo(t.x as i32, t.y as i32)]
            &&& t.x == s.x && t.y == s.y ==> cmds =~= Seq::<Cmd>::empty()
        }),
{
    assert(0 * step == 0 && 1 * step == step && (-1) * step == -step) by (nonlinear_arith);
}

/// With two directions held that are not opposite, the pointer goes as far
/// along both, and that is the step over the root of two to the nearest pixel
/// and at least one: a diagonal is no faster than a straight line.
pub proof fn a_diagonal_is_no_faster(s: MotionState, up: bool, left: bool, step: int) -> (g: int)
    requires
        s.wf(),
        !s.over,
        !s.wheel,
        s.keys_down[0] == up,
        s.keys_down[1] == !up,
        s.keys_down[2] == left,
        s.keys_down[3] == !left,
        !s.fast ==> step == s.slow_step,
        s.fast ==> step == s.fast_steps[s.ramp],
        step >= 1,
    ensures
        g >= 1,
        step == 1 ==> g == 1,
        step > 1 ==> (2 * g - 1) * (2 * g - 1) < 2 * (step * step) < (2 * g + 1) * (2 * g + 1),
        ({
            let (t, cmds) = s.after(Ev::Tick);
            let right = s.bounds.x + (if s.bounds.w > 0 {
                s.bounds.w - 1
            } else {
                0int
            });
            let bottom = s.bounds.y + (if s.bounds.h > 0 {
                s.bounds.h - 1
            } else {
                0int
            });
            &&& !left && s.x + g <= right ==> t.x == s.x + g
            &&& !left && s.x + g > right ==> t.x == right
            &&& left && s.x - g >= s.bounds.x ==> t.x == s.x - g
            &&& left && s.x - g < s.bounds.x ==> t.x == s.bounds.x
            &&& !up && s.y + g <= bottom ==> t.y == s.y + g
            &&& !up && s.y + g > bottom ==> t.y == bottom
            &&& up && s.y - g >= s.bounds.y ==> t.y == s.y - g
            &&& up && s.y - g < s.bounds.y ==> t.y == s.bounds.y
            &&& (t.x != s.x || t.y != s.y) ==> cmds =~= seq![Cmd::MoveTo(t.x as i32, t.y as i32)]
            &&& t.x == s.x && t.y == s.y ==> cmds =~= Seq::<Cmd>::empty()
        }),
{
    let g = motion::diagonal(step);
    if step > 1 {
        assert(1 < 2 * (step * step)) by (nonlinear_arith)
            requires
                step > 1,
        ;
        assert((2 * 1 - 1) * (2 * 1 - 1) == 1);
    }
    lemma_there_is_a_diagonal(step, 1);
    assert(motion::is_diagonal(step, g));
    assert(1 * g == g && (-1) * g == -g) by (nonlinear_arith);
    g
}

/// Some whole number is nearest.
proof fn lemma_there_is_a_diagonal(step: int, from: int)
    requires
        step >= 1,
        from >= 1,
        step > 1 ==> (2 * from - 1) * (2 * from - 1) < 2 * (step * step),
    ensures
        exists|s: int| motion::is_diagonal(step, s),
    decreases step - from,
{
    if step == 1 {
        assert(motion::is_diagonal(step, 1));
    } else if 2 * (step * step) < (2 * from + 1) * (2 * from + 1) {
        assert(motion::is_diagonal(step, from));
    } else {
        assert((2 * from + 1) * (2 * from + 1) != 2 * (step * step)) by {
            assert((2 * from + 1) * (2 * from + 1) == 2 * (2 * (from * from) + 2 * from) + 1)
                by (nonlinear_arith);
        }
        assert(from < step) by (nonlinear_arith)
            requires
                (2 * from + 1) * (2 * from + 1) < 2 * (step * step),
                from >= 1,
                step >= 1,
        ;
        assert((2 * (from + 1) - 1) == 2 * from + 1);
        lemma_there_is_a_diagonal(step, from + 1);
    }
}

/// Opposite keys cancel: left and right together move the pointer neither way,
/// and with up or down besides it goes straight up or down by the full step.
pub proof fn opposite_keys_cancel(s: MotionState, step: int)
    requires
        s.wf(),
        !s.over,
        !s.wheel,
        !s.fast ==> step == s.slow_step,
        s.fast ==> step == s.fast_steps[s.ramp],
        step >= 1,
    ensures
        ({
            let (t, cmds) = s.after(Ev::Tick);
            let (k, j, h, l) = (
                s.keys_down[0],
                s.keys_down[1],
                s.keys_down[2],
                s.keys_down[3],
            );
            &&& h == l ==> t.x == s.x
            &&& k == j ==> t.y == s.y
            &&& h == l && k == j ==> cmds =~= Seq::<Cmd>::empty()
            &&& h && l && j && !k && s.y + step <= s.bounds.y + s.bounds.h - 1 ==> t.y == s.y
                + step
            &&& h && l && k && !j && s.y - step >= s.bounds.y ==> t.y == s.y - step
            &&& k && j && l && !h && s.x + step <= s.bounds.x + s.bounds.w - 1 ==> t.x == s.x
                + step
            &&& k && j && h && !l && s.x - step >= s.bounds.x ==> t.x == s.x - step
        }),
{
    let (a, b) = (s.vx(), s.vy());
    let g = s.step();
    assert(0 * g == 0 && 1 * g == g && (-1) * g == -g) by (nonlinear_arith);
}

/// A press of a direction is one step with the keys as they are now, from the
/// start of a sweep: it does what a tick would.
pub proof fn a_press_is_the_first_step(s: MotionState, d: Dir)
    requires
        s.wf(),
        !s.over,
        !s.wheel,
        !s.keys_down[Key::Move(d).place()],
    ensures
        ({
            let held = MotionState {
                keys_down: s.keys_down.update(Key::Move(d).place(), true),
                ramp: 0,
                ..s
            };
            let (t, u) = (s.after(Ev::Down(Key::Move(d))), held.after(Ev::Tick));
            t.1 == u.1 && t.0.x == u.0.x && t.0.y == u.0.y && t.0.ramp == 0
        }),
{
    let held = MotionState {
        keys_down: s.keys_down.update(Key::Move(d).place(), true),
        ramp: 0,
        ..s
    };
    assert(held.keys_down[Key::Move(d).place()]);
}

/// A sweep speeds up by one of its steps with every tick, up to the last,
/// which repeats; the slow speed never changes.
pub proof fn a_sweep_speeds_up_step_by_step(s: MotionState)
    requires
        s.wf(),
        !s.over,
        !s.wheel,
        s.keys_down[0] || s.keys_down[1] || s.keys_down[2] || s.keys_down[3],
    ensures
        !s.fast ==> s.after(Ev::Tick).0.ramp == s.ramp,
        s.fast && s.ramp + 1 < s.fast_steps.len() ==> s.after(Ev::Tick).0.ramp == s.ramp + 1,
        s.fast && s.ramp + 1 == s.fast_steps.len() ==> s.after(Ev::Tick).0.ramp == s.ramp,
{
}

/// `s` is held from its press to its release, and both start the sweep over.
pub proof fn s_is_held_while_it_is_down(s: MotionState, ev: Ev)
    requires
        s.wf(),
        !s.over,
    ensures
        ev == Ev::Up(Key::Fast) ==> !s.after(ev).0.fast && s.after(ev).0.ramp == 0,
        ev == Ev::Down(Key::Fast) && !s.keys_down[4] ==> s.after(ev).0.fast && s.after(ev).0.ramp
            == 0,
        ev != Ev::Up(Key::Fast) && ev != Ev::Down(Key::Fast) ==> s.after(ev).0.fast == s.fast,
        ev is Down && ev->Down_0 is Fast || ev is Up && ev->Up_0 is Fast ==> s.after(ev).1
            =~= Seq::<Cmd>::empty(),
{
}

/// Nothing but a direction or the clock moves the pointer.
pub proof fn only_directions_move_the_pointer(s: MotionState, k: Key, ev: Ev)
    requires
        s.wf(),
        !(k is Move),
        ev == Ev::Down(k) || ev is Up,
    ensures
        s.after(ev).0.x == s.x,
        s.after(ev).0.y == s.y,
        forall|i: int|
            0 <= i < s.after(ev).1.len() ==> !(#[trigger] s.after(ev).1[i] is MoveTo)
                && !(s.after(ev).1[i] is Scroll),
{
}

/// The setup of the mode and whether it goes on are the same.
spec fn same_setup(s: MotionState, t: MotionState) -> bool {
    &&& t.bounds == s.bounds
    &&& t.tick == s.tick
    &&& t.slow_step == s.slow_step
    &&& t.fast_steps == s.fast_steps
    &&& t.scroll_slow_ticks == s.scroll_slow_ticks
    &&& t.scroll_fast_ticks == s.scroll_fast_ticks
}

proof fn lemma_pressed_setup(s: MotionState, k: Key)
    ensures
        same_setup(s, s.pressed(k).0),
        !(k is Leave) ==> s.pressed(k).0.over == s.over,
{
}

proof fn lemma_released_setup(s: MotionState, k: Key)
    ensures
        same_setup(s, s.released(k).0),
        s.released(k).0.over == s.over,
{
}

/// What the mode was set up with never changes, and only leaving ends it.
pub proof fn the_setup_never_changes(s: MotionState, input: Input)
    ensures
        ({
            let t = s.answer(input).0;
            &&& t.bounds == s.bounds
            &&& t.tick == s.tick
            &&& t.slow_step == s.slow_step
            &&& t.fast_steps == s.fast_steps
            &&& t.scroll_slow_ticks == s.scroll_slow_ticks
            &&& t.scroll_fast_ticks == s.scroll_fast_ticks
            &&& t.over && !s.over ==> input is Leave || input == Input::Event(
                Ev::Down(Key::Leave),
            ) || input == Input::Repress(Key::Leave)
        }),
{
    match input {
        Input::Event(Ev::Down(k)) => {
            lemma_pressed_setup(s.marked(k, true), k);
        },
        Input::Event(Ev::Up(k)) => {
            lemma_released_setup(s.marked(k, false), k);
        },
        Input::Event(Ev::Tick) => {},
        Input::Repress(k) => {
            let up = s.forgiven(k).marked(k, false);
            lemma_released_setup(up, k);
            lemma_pressed_setup(up.released(k).0.marked(k, true), k);
            lemma_pressed_setup(s.marked(k, true), k);
        },
        Input::Lost(k) => {
            lemma_released_setup(s.forgiven(k).marked(k, false), k);
        },
        Input::ReleaseDrag => {},
        Input::Leave => {},
    }
}

// ---------------------------------------------------------------------------
// Movement mode: the wheel
// ---------------------------------------------------------------------------

/// With the wheel held and one direction, a press of it turns the wheel by one
/// notch that way: up is a notch up, right a notch to the right. The next
/// notch comes when as many ticks have gone by as the speed asks for, and none
/// before.
pub proof fn a_held_wheel_turns_the_way_of_the_key(s: MotionState, d: Dir, pressed: bool)
    requires
        s.wf(),
        !s.over,
        s.wheel,
        pressed ==> !s.keys_down[0] && !s.keys_down[1] && !s.keys_down[2] && !s.keys_down[3],
        !pressed ==> {
            &&& s.keys_down[0] <==> d is Up
            &&& s.keys_down[1] <==> d is Down
            &&& s.keys_down[2] <==> d is Left
            &&& s.keys_down[3] <==> d is Right
        },
    ensures
        ({
            let ev = if pressed {
                Ev::Down(Key::Move(d))
            } else {
                Ev::Tick
            };
            let every = if s.fast {
                s.scroll_fast_ticks
            } else {
                s.scroll_slow_ticks
            };
            let due = pressed || s.since_notch + 1 >= every;
            let (t, cmds) = s.after(ev);
            &&& due && d is Up ==> cmds =~= seq![Cmd::Scroll { v: 1, h: 0 }]
            &&& due && d is Down ==> cmds =~= seq![Cmd::Scroll { v: (-1) as i32, h: 0 }]
            &&& due && d is Left ==> cmds =~= seq![Cmd::Scroll { v: 0, h: (-1) as i32 }]
            &&& due && d is Right ==> cmds =~= seq![Cmd::Scroll { v: 0, h: 1 }]
            &&& due ==> t.since_notch == 0 && t.wheel_used
            &&& !due ==> cmds =~= Seq::<Cmd>::empty() && t.since_notch == s.since_notch + 1
                && t.wheel_used == s.wheel_used
            &&& t.wheel && t.x == s.x && t.y == s.y
        }),
{
}

/// With the wheel held and two directions that are not opposite, a notch goes
/// both ways at once; opposite ones cancel, and turn nothing.
pub proof fn a_held_wheel_turns_both_ways_at_once(s: MotionState)
    requires
        s.wf(),
        !s.over,
        s.wheel,
        s.since_notch + 1 >= s.scroll_slow_ticks,
        s.since_notch + 1 >= s.scroll_fast_ticks,
    ensures
        ({
            let (t, cmds) = s.after(Ev::Tick);
            let (k, j, h, l) = (
                s.keys_down[0],
                s.keys_down[1],
                s.keys_down[2],
                s.keys_down[3],
            );
            &&& k && !j && l && !h ==> cmds =~= seq![Cmd::Scroll { v: 1, h: 1 }]
            &&& k && !j && h && !l ==> cmds =~= seq![Cmd::Scroll { v: 1, h: (-1) as i32 }]
            &&& j && !k && l && !h ==> cmds =~= seq![Cmd::Scroll { v: (-1) as i32, h: 1 }]
            &&& j && !k && h && !l ==> cmds =~= seq![Cmd::Scroll { v: (-1) as i32, h: (-1) as i32 }]
            &&& k == j && h == l ==> cmds =~= Seq::<Cmd>::empty() && t.wheel_used == s.wheel_used
        }),
{
}

/// The wheel is held from its press to its release, and is unturned when it
/// goes down. Let go of unturned it is a middle click, turned it is nothing.
pub proof fn a_is_the_wheel_while_it_is_down(s: MotionState, ev: Ev)
    requires
        s.wf(),
        !s.over,
    ensures
        ev == Ev::Down(Key::Wheel) && !s.keys_down[8] ==> {
            &&& s.after(ev).0.wheel
            &&& !s.after(ev).0.wheel_used
            &&& s.after(ev).0.since_notch == 0
            &&& s.after(ev).1 =~= Seq::<Cmd>::empty()
        },
        ev == Ev::Up(Key::Wheel) ==> {
            &&& !s.after(ev).0.wheel
            &&& s.wheel && !s.wheel_used ==> s.after(ev).1 =~= seq![
                Cmd::Click { button: Button::Middle, times: 1 },
            ]
            &&& !s.wheel || s.wheel_used ==> s.after(ev).1 =~= Seq::<Cmd>::empty()
        },
        ev != Ev::Up(Key::Wheel) && ev != Ev::Down(Key::Wheel) && ev != Ev::Down(Key::Leave)
            ==> s.after(ev).0.wheel == s.wheel,
{
}

// ---------------------------------------------------------------------------
// Movement mode: the buttons
// ---------------------------------------------------------------------------

/// A press of `d` is two clicks, of `g` three, both of the left button, and of
/// `r` one of the right; `f` presses the left button and its release releases
/// it, if it was down. Nothing else happens to the mode.
pub proof fn a_button_key_clicks_its_button(s: MotionState, k: Key)
    requires
        s.wf(),
        !s.over,
        !s.keys_down[k.place()],
    ensures
        ({
            let (t, cmds) = s.after(Ev::Down(k));
            &&& k is DoubleClick ==> cmds =~= seq![Cmd::Click { button: Button::Left, times: 2 }]
            &&& k is TripleClick ==> cmds =~= seq![Cmd::Click { button: Button::Left, times: 3 }]
            &&& k is RightClick ==> cmds =~= seq![Cmd::Click { button: Button::Right, times: 1 }]
            &&& k is LeftButton && !s.dragging ==> cmds =~= seq![Cmd::Press(Button::Left)]
            &&& k is LeftButton && s.dragging ==> cmds =~= Seq::<Cmd>::empty()
            &&& k is LeftButton ==> t.dragging
            &&& k is DoubleClick || k is TripleClick || k is RightClick || k is Move || k is Fast
                || k is Wheel ==> t.dragging == s.dragging
            &&& !(k is Leave) ==> !t.over
            &&& k is Leave ==> t.over && !t.dragging && cmds.last() == Cmd::Leave
        }),
{
}

/// The release of `f` releases the left button if it is down; that of any
/// other key but `a` does nothing.
pub proof fn a_release_lets_go_of_its_own(s: MotionState, k: Key)
    requires
        s.wf(),
        !s.over,
    ensures
        ({
            let (t, cmds) = s.after(Ev::Up(k));
            &&& k is LeftButton ==> !t.dragging
            &&& k is LeftButton && s.dragging ==> cmds =~= seq![Cmd::Release(Button::Left)]
            &&& k is LeftButton && !s.dragging ==> cmds =~= Seq::<Cmd>::empty()
            &&& !(k is LeftButton) ==> t.dragging == s.dragging
            &&& !(k is LeftButton) && !(k is Wheel) ==> cmds =~= Seq::<Cmd>::empty()
            &&& !t.over
            &&& t.x == s.x && t.y == s.y
        }),
{
}

/// A lost release is a release, of `a` without its click.
pub proof fn a_lost_release_is_a_release(s: MotionState, k: Key)
    requires
        s.wf(),
        !s.over,
        s.keys_down[k.place()],
    ensures
        !(k is Wheel) ==> s.after_lost(k) == s.after(Ev::Up(k)),
        k is Wheel ==> s.after_lost(k).1 =~= Seq::<Cmd>::empty() && !s.after_lost(k).0.wheel
            && s.after_lost(k).0.keys_down == s.keys_down.update(8, false),
{
}

/// A release that nobody lost is no release: a repair of a key that is up does
/// nothing.
pub proof fn nothing_is_lost_of_a_key_that_is_up(s: MotionState, k: Key)
    requires
        !s.keys_down[k.place()],
    ensures
        s.after_lost(k) == (s, Seq::<Cmd>::empty()),
        s.after_repress(k) == s.after(Ev::Down(k)),
{
}

/// A press of a key that was thought to be down is the release that was lost,
/// then the press.
pub proof fn a_repress_lets_go_then_presses(s: MotionState, k: Key)
    requires
        s.wf(),
        !s.over,
        s.keys_down[k.place()],
    ensures
        ({
            let (up, first) = s.after_lost(k);
            let (t, second) = up.after(Ev::Down(k));
            &&& s.after_repress(k).1 =~= first + second
            &&& s.after_repress(k).0.x == t.x && s.after_repress(k).0.y == t.y
            &&& s.after_repress(k).0.dragging == t.dragging
            &&& s.after_repress(k).0.wheel == t.wheel
            &&& s.after_repress(k).0.wheel_used == t.wheel_used
            &&& s.after_repress(k).0.fast == t.fast
            &&& s.after_repress(k).0.over == t.over
            &&& s.after_repress(k).0.keys_down =~= t.keys_down
        }),
{
    let up = s.after_lost(k).0;
    assert(!up.keys_down[k.place()]);
}

/// A drag ended from outside is one release of the left button; there is none
/// where there was no drag, and the keys and the mode stay as they are.
pub proof fn a_drag_ends_once(s: MotionState)
    requires
        s.wf(),
        !s.over,
    ensures
        s.dragging ==> s.after_release_drag().1 =~= seq![Cmd::Release(Button::Left)],
        !s.dragging ==> s.after_release_drag().1 =~= Seq::<Cmd>::empty(),
        s.after_release_drag().0 == (MotionState { dragging: false, ..s }),
{
}

/// Leaving ends the mode where the pointer is, and lets go of the wheel
/// without a click.
pub proof fn leaving_clicks_nothing(s: MotionState)
    requires
        s.wf(),
        !s.over,
    ensures
        s.left().0.over,
        !s.left().0.wheel,
        s.left().0.x == s.x && s.left().0.y == s.y,
        s.dragging ==> s.left().1 =~= seq![Cmd::Release(Button::Left), Cmd::Leave],
        !s.dragging ==> s.left().1 =~= seq![Cmd::Leave],
        !s.keys_down[10] ==> s.after(Ev::Down(Key::Leave)).1 == s.left().1,
{
}

// ---------------------------------------------------------------------------
// Free mode
// ---------------------------------------------------------------------------

/// A nudge goes its own way by the step that was announced, up to the edge,
/// and not at all the other way.
pub proof fn a_nudge_goes_its_own_way(s: FreeState, d: Dir, since_last: Nanos)
    requires
        s.wf(),
        s.step(d, since_last) >= 0,
    ensures
        ({
            let t = s.nudged(d, since_last);
            let step = s.step(d, since_last);
            let right = s.bounds.x + (if s.bounds.w > 0 {
                s.bounds.w - 1
            } else {
                0int
            });
            let bottom = s.bounds.y + (if s.bounds.h > 0 {
                s.bounds.h - 1
            } else {
                0int
            });
            &&& d is Right && s.x + step <= right ==> t.x == s.x + step && t.y == s.y
            &&& d is Right && s.x + step > right ==> t.x == right && t.y == s.y
            &&& d is Left && s.x - step >= s.bounds.x ==> t.x == s.x - step && t.y == s.y
            &&& d is Left && s.x - step < s.bounds.x ==> t.x == s.bounds.x && t.y == s.y
            &&& d is Down && s.y + step <= bottom ==> t.y == s.y + step && t.x == s.x
            &&& d is Down && s.y + step > bottom ==> t.y == bottom && t.x == s.x
            &&& d is Up && s.y - step >= s.bounds.y ==> t.y == s.y - step && t.x == s.x
            &&& d is Up && s.y - step < s.bounds.y ==> t.y == s.bounds.y && t.x == s.x
            &&& t.run == Some((d, step as i32))
            &&& t.bounds == s.bounds && t.params == s.params
        }),
{
    let step = s.step(d, since_last);
    assert(0 * step == 0 && 1 * step == step && (-1) * step == -step) by (nonlinear_arith);
}

/// A step that follows one the same way, soon enough, is that step times the
/// growth to the nearest pixel, a half counting as a whole, up to the cap; any
/// other step is the base step.
pub proof fn a_run_grows_by_its_factor(s: FreeState, d: Dir, since_last: Nanos, last: i32)
    requires
        s.wf(),
        last >= 0,
        s.params.growth.part >= 0,
    ensures
        ({
            let step = s.step(d, since_last);
            let (part, whole) = (s.params.growth.part as int, s.params.growth.whole as int);
            let run = s.run == Some((d, last)) && since_last <= s.params.reset_after;
            &&& run && step < s.params.cap && step < i32::MAX ==> (2 * step - 1) * whole <= 2 * (last
                * part) < (2 * step + 1) * whole
            &&& run && step == s.params.cap ==> (2 * step - 1) * whole <= 2 * (last * part) || step
                < 0
            &&& run ==> step <= s.params.cap
            &&& s.run is None || (s.run->0).0 != d || since_last > s.params.reset_after ==> step
                == s.params.base
        }),
{
    let (part, whole) = (s.params.growth.part as int, s.params.growth.whole as int);
    let n = last * part;
    let r = num::rounded(n, whole);
    assert(n >= 0) by (nonlinear_arith)
        requires
            n == last * part,
            last >= 0,
            part >= 0,
    ;
    assert((2 * r - 1) * whole <= 2 * n < (2 * r + 1) * whole && r >= 0) by (nonlinear_arith)
        requires
            n >= 0,
            whole > 0,
            r == (2 * n + whole) / (2 * whole),
    ;
    let step = s.step(d, since_last);
    if s.run == Some((d, last)) && since_last <= s.params.reset_after {
        if step == s.params.cap && step >= 0 {
            assert((2 * step - 1) * whole <= 2 * n) by (nonlinear_arith)
                requires
                    step <= r,
                    whole > 0,
                    (2 * r - 1) * whole <= 2 * n,
            ;
        }
    }
}

} // verus!
