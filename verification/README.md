# wm

Column layouts and crash recovery for a tiling window manager, verified with
Verus.

- `src/columns/` arranges a workspace's windows into columns: it parses column
  specs such as `*,C,*`, deals windows to columns, keeps track of the master
  window, and rearranges windows and focus. `deal.rs`, `reading.rs`, `ring.rs`,
  `mirror.rs`, `places.rs`, `laws.rs` and `changes.rs` state what holds of the
  layouts, and prove it: that the deal is even, that a layout that can be read
  back stays as it is when it is applied again, that a new window moves no
  other, that a rearrangement outlives the next reapply. A layout cannot be read
  back where all its side columns are fixed ones and windows beyond their counts
  go to a last side column that is too short (`deal::readable`).
- `src/cloak_journal.rs` keeps the journal from which windows that were left
  cloaked are recovered.
- `src/events/` decides what is to be done when a window is closed or hidden.
- `src/text.rs` and `src/state.rs` hold what these share.

The library decides and the caller acts: a command takes the state that it
reads as plain values, and returns the columns to be shown, the window to be
focused, or the next question to be asked. Container ids are the bits of their
UUIDs, and fractions of the screen the bits of their `f32`; arithmetic on
fractions is left to the caller, which gets each width as a `ColumnWidth`.

`app/` carries the decisions out on a desktop, and `tests/` runs the library.
