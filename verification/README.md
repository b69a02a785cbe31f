# muvor

Keyboard-driven pointer control for Linux: label every clickable thing on
screen, type the label, the pointer goes there.

`src/` is the library. It decides; it performs no I/O. Every function of it
carries a contract that Verus proves.

| Module | What it answers |
|---|---|
| `label` | what a target is called, and what typing does |
| `place` | where a badge is drawn, and what is clicked |
| `motion`, `free` | how keys become pointer movement, wheel and buttons |
| `detect`, `occlude` | what there is to click where no tree says so, and whether it shows |
| `a11y` | which nodes of an accessibility tree are targets, which window is meant, whether a target is still what its label promised |
| `uictl` | the input broker's wire format, its validation, and what to send next |

Things that take several questions to the outside — finding a window, reading
its tree, checking a target before it is clicked, a press that repairs a stale
hold — are state machines: they say what to ask, take the answer, and say what
follows. What they come to for every possible answer is stated beside them, as
is what holds of the library as a whole.

`app/` asks the questions: the accessibility bus and its thread, the broker's
socket, and what needs floating point.

`tests/` runs the library on concrete values.
