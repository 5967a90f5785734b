# jiji_layout

The workspace layout core of a scrollable-tiling window manager, verified with Verus: activities,
workspaces, outputs and the rules by which they are arranged.

- A *workspace* holds windows. Every workspace lives in one pool.
- An *activity* groups workspaces; one is active. It has one *view* of each connected output: an
  ordered strip of workspaces with an empty one at its end and, where the output asks for it, one
  at its start.
- A workspace can belong to several activities, or to all of them. While no output is connected,
  workspaces with windows or a name wait.

## Layout

Every type has a mathematical model, its view. `LayoutModel` in `src/layout.rs` is the model of the
layout; each operation is a function on it, and the executable method ensures that it does just
that. Requirements like `old(self)@.disconnect(..).fits()` say that the counters which hand out
identities do not run out.

`LayoutModel::whole` in `src/wholeness.rs` is what holds of a layout between operations: pool,
activities and views fit together, every activity has one view of each connected output with its
bookends, and shows there what belongs to it, once. A new layout is whole, and public operations
leave a whole layout whole; the ones that can move, open or close workspaces require that it is, do
their work and then mend (`src/mending.rs`) what that left undone.

`LayoutModel::orderly` in `src/census.rs` says that no window is in more than one place, and that the
monitors agree on the overview and on sliding between activities. A new layout is in order, and
public operations leave a layout in order so, as long as only new windows are added to it; a switch
of activities asks besides that no monitor is still sliding away from the activity switched to while
such slides are off. `LayoutModel::mindful` in `src/retaining.rs` says that what is grabbed or
bookmarked is in the layout; an operation whose contract says so keeps it. A layout that is whole and
in order passes its own checks (`Layout::verify_invariants`) exactly if it keeps to the rules on
names, routes, swipes, grabbed windows and bookmarks.

- `ids`, `workspace`, `pool`, `view`, `activity`, `monitor`, `layout`, `bookmarks`: the data.
- `lookup`, `listing`, `commands`, `routing`, `rendering`: questions, and where commands go.
- `outputs`, `connect`, `disconnect`: outputs coming and going.
- `switching`, `membership`, `reconcile`, `config`, `reload`: activities and membership.
- `arrange`, `transfer`, `moves`, `windows`, `interactive`, `gestures`, `upkeep`: everything else
  that the user or a client does.
- `bookends`, `materialize`, `reclaim`, `strips`, `mending`: the steps that operations share.
- `operations`: the operations themselves, made of the steps above.
- `wholeness`, `beginnings`, `lasting`, `abiding`, `resting`: what is whole stays whole.
- `census`, `load`, `ordering`, `agreeing`: what is in order stays in order.
- `retaining`: what is grabbed or bookmarked stays in the layout.
- `outages`, `sparing`, `restoring`: what stays and what comes back when an output goes and returns.
- `sticking`: what making a workspace sticky does, and what undoing that leaves.
- `settling`, `repairing`: what putting in bookends, bringing views in agreement with membership and
  repairing change, and that doing it twice changes no more.
- `invariants`, `soundness`: the layout's checks on itself, and what of them operations keep.
- `text`, `errors`, `search`: names, messages and searching.
- The other modules prove laws about several operations; the laws are the proof functions whose
  names begin with `law_`.

`app/` is what floating-point numbers keep out of the library: positions on the screen, the zoom of
the overview, and the ways of the pointer.
