//! Workspaces and their windows.

use vstd::prelude::*;

use crate::ids::{ActivityId, OutputId, WindowId, WorkspaceId};

verus! {

/// A connected or once-connected output.
#[derive(Clone, Copy, Debug, PartialEq, Eq, Structural)]
pub struct Output {
    /// Designation by make, model and serial.
    pub id: OutputId,
    /// Designation by connector.
    pub connector: OutputId,
}

impl OutputId {
    /// Whether this designates `output`, by either of its designations.
    pub open spec fn designates(self, output: Output) -> bool {
        self.0 != 0 && (self == output.id || self == output.connector)
    }

    /// Whether this designates `output`, by either of its designations.
    pub fn matches(&self, output: &Output) -> (b: bool)
        ensures
            b == self.designates(*output),
    {
        self.0 != 0 && (*self == output.id || *self == output.connector)
    }
}

/// How a window is sized.
#[derive(Clone, Copy, Debug, PartialEq, Eq, Structural)]
pub enum SizingMode {
    /// Its own size.
    Normal,
    /// Maximized to the edges of the working area.
    Maximized,
    /// Covering the whole output.
    Fullscreen,
}

impl SizingMode {
    /// Whether this is the normal mode.
    #[must_use]
    pub fn is_normal(&self) -> (b: bool)
        ensures
            b == (*self is Normal),
    {
        matches!(self, SizingMode::Normal)
    }

    /// Whether this is the fullscreen mode.
    #[must_use]
    pub fn is_fullscreen(&self) -> (b: bool)
        ensures
            b == (*self is Fullscreen),
    {
        matches!(self, SizingMode::Fullscreen)
    }

    /// Whether this is the maximized mode.
    #[must_use]
    pub fn is_maximized(&self) -> (b: bool)
        ensures
            b == (*self is Maximized),
    {
        matches!(self, SizingMode::Maximized)
    }
}

/// A size, in logical pixels.
#[derive(Clone, Copy, Debug, PartialEq, Eq, Structural)]
pub struct Size {
    /// Width.
    pub w: i32,
    /// Height.
    pub h: i32,
}

/// What an element of the layout says about its size.
#[derive(Clone, Copy, Debug, PartialEq, Eq, Structural)]
pub struct LayoutElement {
    /// The sizing mode that it has.
    pub sizing_mode: SizingMode,
    /// The size that it was last asked to take. A component of zero leaves the choice to it.
    pub requested_size: Option<Size>,
    /// The size that it has.
    pub size: Size,
}

/// A requested component of a size, or the current one where none was requested.
pub open spec fn requested_or(requested: int, current: int) -> int {
    if requested == 0 {
        current
    } else {
        requested
    }
}

impl LayoutElement {
    /// The width that the element is to have: what was requested, or what it has.
    pub open spec fn expected_width(self) -> int {
        match self.requested_size {
            Some(q) => requested_or(q.w as int, self.size.w as int),
            None => self.size.w as int,
        }
    }

    /// The height that the element is to have: what was requested, or what it has.
    pub open spec fn expected_height(self) -> int {
        match self.requested_size {
            Some(q) => requested_or(q.h as int, self.size.h as int),
            None => self.size.h as int,
        }
    }

    /// The size that the element has or will shortly have when it is not fullscreen: what was
    /// requested of it, and what it has where nothing was. There is none while it is fullscreen, nor
    /// while a component is known neither way; no component is ever zero.
    pub fn expected_size(&self) -> (r: Option<Size>)
        ensures
            r is None <==> self.sizing_mode is Fullscreen || self.expected_width() == 0
                || self.expected_height() == 0,
            match r {
                Some(s) => s.w == self.expected_width() && s.h == self.expected_height() && s.w != 0
                    && s.h != 0,
                None => true,
            },
    {
        if self.sizing_mode.is_fullscreen() {
            return None;
        }
        let mut requested = match self.requested_size {
            Some(s) => s,
            None => Size { w: 0, h: 0 },
        };
        if requested.w == 0 {
            requested.w = self.size.w;
        }
        if requested.h == 0 {
            requested.h = self.size.h;
        }
        if requested.w == 0 || requested.h == 0 {
            return None;
        }
        Some(requested)
    }
}

/// What the layout knows about a window.
#[derive(Clone, Copy, Debug, PartialEq, Eq, Structural)]
pub struct Window {
    /// The window.
    pub id: WindowId,
    /// The window this one is a dialog of.
    pub parent: Option<WindowId>,
    /// Whether the window asks for attention.
    pub urgent: bool,
    /// The sizing mode it was last asked to take.
    pub pending_sizing_mode: SizingMode,
    /// Whether it was told that it is fullscreen while it stays windowed.
    pub windowed_fullscreen: bool,
}

/// A window in its place on a workspace.
#[derive(Clone, Copy, Debug, PartialEq, Eq, Structural)]
pub struct Tile {
    /// The window.
    pub window: Window,
    /// The window that leads its column. Tiles of one column have the same leader.
    pub column: WindowId,
    /// Whether the tile floats above the columns.
    pub floating: bool,
}

/// Mathematical model of a [`Workspace`].
#[verifier::ext_equal]
pub struct WorkspaceModel {
    pub id: WorkspaceId,
    pub name: Option<Seq<char>>,
    pub output_id: Option<OutputId>,
    pub bound: Option<OutputId>,
    pub activities: Seq<ActivityId>,
    pub sticky: bool,
    pub tiles: Seq<Tile>,
    pub active: Option<WindowId>,
    pub scroll_lock: bool,
    pub view_gesture: Option<bool>,
}

/// A workspace: an ordered set of windows with an optional name.
#[derive(Debug)]
pub struct Workspace {
    /// Its identity.
    pub id: WorkspaceId,
    /// Its name, if it has one.
    pub name: Option<String>,
    /// The output it goes to when that output is connected. A routing hint, not a location.
    pub output_id: Option<OutputId>,
    /// The output its windows were told they are on.
    pub bound: Option<OutputId>,
    /// The activities it belongs to, without repetitions.
    pub activities: Vec<ActivityId>,
    /// Whether it belongs to every activity, present and future.
    pub sticky: bool,
    /// Its windows.
    pub tiles: Vec<Tile>,
    /// The window that has the focus when the workspace does.
    pub active: Option<WindowId>,
    /// Whether the view is held still while something is dragged over it.
    pub scroll_lock: bool,
    /// Whether the user drags the view sideways, and if so, on a touchpad.
    pub view_gesture: Option<bool>,
}

/// The characters of an optional name.
pub open spec fn name_model(name: Option<String>) -> Option<Seq<char>> {
    match name {
        Some(s) => Some(s@),
        None => None,
    }
}

impl View for Workspace {
    type V = WorkspaceModel;

    open spec fn view(&self) -> WorkspaceModel {
        WorkspaceModel {
            id: self.id,
            name: name_model(self.name),
            output_id: self.output_id,
            bound: self.bound,
            activities: self.activities@,
            sticky: self.sticky,
            tiles: self.tiles@,
            active: self.active,
            scroll_lock: self.scroll_lock,
            view_gesture: self.view_gesture,
        }
    }
}

/// The predicate that picks the tile of window `w`.
pub open spec fn shows(w: WindowId) -> spec_fn(Tile) -> bool {
    |t: Tile| t.window.id == w
}

/// The predicate that picks the tiled members of the column that `leader` leads.
pub open spec fn in_column(leader: WindowId) -> spec_fn(Tile) -> bool {
    |t: Tile| t.column == leader && !t.floating
}

/// The predicate that picks everything but the tiled members of the column that `leader` leads.
pub open spec fn not_in_column(leader: WindowId) -> spec_fn(Tile) -> bool {
    |t: Tile| !(t.column == leader && !t.floating)
}

/// Tile `t` with `to` as the leader of its column in place of `from`.
pub open spec fn follow(t: Tile, from: WindowId, to: WindowId) -> Tile {
    if t.column == from && !t.floating {
        Tile { column: to, ..t }
    } else {
        t
    }
}

/// `tiles` with the first member of the column that `gone` led leading it.
pub open spec fn relead(tiles: Seq<Tile>, gone: WindowId) -> Seq<Tile> {
    match crate::search::find(tiles, in_column(gone)) {
        Some(i) => Seq::new(
            tiles.len(),
            |k: int| follow(tiles[k], gone, tiles[i].window.id),
        ),
        None => tiles,
    }
}

/// What takes the focus once the tile at `pos` is gone from `tiles`: its successor, or else the
/// last one.
pub open spec fn heir(tiles: Seq<Tile>, pos: int) -> Option<WindowId> {
    if tiles.len() == 0 {
        None
    } else if pos < tiles.len() {
        Some(tiles[pos].window.id)
    } else {
        Some(tiles.last().window.id)
    }
}

impl WorkspaceModel {
    /// A new empty workspace for activity `act` on the output designated `output`.
    pub open spec fn fresh(id: WorkspaceId, output: OutputId, act: ActivityId) -> WorkspaceModel {
        WorkspaceModel {
            id,
            name: None,
            output_id: Some(output),
            bound: Some(output),
            activities: seq![act],
            sticky: false,
            tiles: Seq::empty(),
            active: None,
            scroll_lock: false,
            view_gesture: None,
        }
    }

    /// Whether any window is here.
    pub open spec fn has_windows(self) -> bool {
        self.tiles.len() > 0
    }

    /// Whether the workspace is worth keeping: it has windows or a name.
    pub open spec fn busy(self) -> bool {
        self.tiles.len() > 0 || self.name is Some
    }

    /// Position of the tile of window `w`.
    pub open spec fn window_pos(self, w: WindowId) -> Option<int> {
        crate::search::find(self.tiles, shows(w))
    }

    /// Whether window `w` leads a column.
    pub open spec fn has_column(self, w: WindowId) -> bool {
        exists|i: int|
            0 <= i < self.tiles.len() && (#[trigger] self.tiles[i]).window.id == w
                && self.tiles[i].column == w && !self.tiles[i].floating
    }

    /// Whether window `w` is here.
    pub open spec fn has_window(self, w: WindowId) -> bool {
        self.window_pos(w) is Some
    }

    /// Whether the workspace belongs to exactly one activity.
    pub open spec fn exclusive(self) -> bool {
        self.activities.len() == 1
    }

    /// Its windows told that they are on `output`. The routing hint is brought up to date only
    /// if it already designates that output.
    pub open spec fn bind(self, output: Output) -> WorkspaceModel {
        WorkspaceModel {
            output_id: match self.output_id {
                Some(o) => if o.designates(output) {
                    Some(output.id)
                } else {
                    Some(o)
                },
                None => None,
            },
            bound: Some(output.id),
            ..self
        }
    }

    /// Its windows told that they left their output. The routing hint stays.
    pub open spec fn unbind(self) -> WorkspaceModel {
        WorkspaceModel { bound: None, ..self }
    }

    /// `tile` added; it gets the focus if asked for or if there was no window.
    pub open spec fn add_tile(self, tile: Tile, activate: bool) -> WorkspaceModel {
        WorkspaceModel {
            tiles: self.tiles.push(tile),
            active: if activate || self.active is None {
                Some(tile.window.id)
            } else {
                self.active
            },
            ..self
        }
    }

    /// The tile at `pos` taken out.
    pub open spec fn remove_tile_at(self, pos: int) -> WorkspaceModel {
        let rest = self.tiles.remove(pos);
        WorkspaceModel {
            tiles: relead(rest, self.tiles[pos].window.id),
            active: if self.active == Some(self.tiles[pos].window.id) {
                heir(rest, pos)
            } else {
                self.active
            },
            ..self
        }
    }

    /// The tile of window `w` taken out, if it is here.
    pub open spec fn remove_window(self, w: WindowId) -> WorkspaceModel {
        match self.window_pos(w) {
            Some(pos) => self.remove_tile_at(pos),
            None => self,
        }
    }

    /// Window `w` focused, if it is here.
    pub open spec fn activate_window(self, w: WindowId) -> WorkspaceModel {
        if self.has_window(w) {
            WorkspaceModel { active: Some(w), ..self }
        } else {
            self
        }
    }
}

impl Workspace {
    /// A new empty workspace for activity `act` on the output designated `output`.
    pub fn new(id: WorkspaceId, output: OutputId, act: ActivityId) -> (w: Workspace)
        ensures
            w@ == WorkspaceModel::fresh(id, output, act),
    {
        let mut activities: Vec<ActivityId> = Vec::new();
        activities.push(act);
        let w = Workspace {
            id,
            name: None,
            output_id: Some(output),
            bound: Some(output),
            activities,
            sticky: false,
            tiles: Vec::new(),
            active: None,
            scroll_lock: false,
            view_gesture: None,
        };
        assert(w@ =~= WorkspaceModel::fresh(id, output, act));
        w
    }

    /// Whether any window is here.
    pub fn has_windows(&self) -> (b: bool)
        ensures
            b == self@.has_windows(),
    {
        self.tiles.len() > 0
    }

    /// Whether the workspace has windows or a name.
    pub fn has_windows_or_name(&self) -> (b: bool)
        ensures
            b == self@.busy(),
    {
        self.tiles.len() > 0 || self.name.is_some()
    }

    /// Whether the workspace belongs to activity `act`.
    pub fn belongs_to(&self, act: ActivityId) -> (b: bool)
        ensures
            b == self@.activities.contains(act),
    {
        let mut i: usize = 0;
        while i < self.activities.len()
            invariant
                i <= self.activities@.len(),
                forall|j: int| 0 <= j < i ==> self.activities@[j] != act,
            decreases self.activities@.len() - i,
        {
            if self.activities[i] == act {
                return true;
            }
            i = i + 1;
        }
        false
    }

    /// Position of the tile of window `w`.
    pub fn window_pos(&self, w: WindowId) -> (pos: Option<usize>)
        ensures
            match pos {
                Some(p) => self@.window_pos(w) == Some(p as int) && p < self@.tiles.len()
                    && self@.tiles[p as int].window.id == w,
                None => self@.window_pos(w) is None,
            },
    {
        let ghost p = shows(w);
        let mut i: usize = 0;
        while i < self.tiles.len()
            invariant
                i <= self.tiles@.len(),
                p == shows(w),
                crate::search::find(self.tiles@, p) == crate::search::find_from(
                    self.tiles@,
                    p,
                    i as int,
                ),
            decreases self.tiles@.len() - i,
        {
            if self.tiles[i].window.id == w {
                return Some(i);
            }
            i = i + 1;
        }
        None
    }

    /// Whether window `w` is here.
    pub fn has_window(&self, w: WindowId) -> (b: bool)
        ensures
            b == self@.has_window(w),
    {
        self.window_pos(w).is_some()
    }

    /// Tells the windows that they are on `output`.
    pub fn bind_output(&mut self, output: &Output)
        ensures
            final(self)@ == old(self)@.bind(*output),
    {
        let refresh = match &self.output_id {
            Some(o) => o.matches(output),
            None => false,
        };
        if refresh {
            self.output_id = Some(output.id);
        }
        self.bound = Some(output.id);
    }

    /// Tells the windows that they left their output.
    pub fn unbind_output(&mut self)
        ensures
            final(self)@ == old(self)@.unbind(),
    {
        self.bound = None;
    }

    /// Adds a tile.
    pub fn add_tile(&mut self, tile: Tile, activate: bool)
        ensures
            final(self)@ == old(self)@.add_tile(tile, activate),
    {
        if activate || self.active.is_none() {
            self.active = Some(tile.window.id);
        }
        self.tiles.push(tile);
    }

    /// Takes out the tile at `pos`.
    pub fn remove_tile_at(&mut self, pos: usize) -> (tile: Tile)
        requires
            pos < old(self)@.tiles.len(),
        ensures
            tile == old(self)@.tiles[pos as int],
            final(self)@ == old(self)@.remove_tile_at(pos as int),
    {
        let tile = self.tiles.remove(pos);
        let was_active = match self.active {
            Some(w) => w == tile.window.id,
            None => false,
        };
        if was_active {
            let n: usize = self.tiles.len();
            self.active = if n == 0 {
                None
            } else if pos < n {
                Some(self.tiles[pos].window.id)
            } else {
                Some(self.tiles[n - 1].window.id)
            };
        }
        self.relead(tile.window.id);
        tile
    }

    /// Has the first member of the column that `gone` led lead it.
    fn relead(&mut self, gone: WindowId)
        ensures
            final(self)@ == (WorkspaceModel { tiles: relead(old(self)@.tiles, gone), ..old(self)@ }),
    {
        let ghost start = self@;
        let ghost q = in_column(gone);
        let mut i: usize = 0;
        while i < self.tiles.len()
            invariant_except_break
                crate::search::find(start.tiles, q) == crate::search::find_from(
                    start.tiles,
                    q,
                    i as int,
                ),
            invariant
                i <= self.tiles@.len(),
                self@ == start,
                q == in_column(gone),
            ensures
                crate::search::find(start.tiles, q) == if i < start.tiles.len() {
                    Some(i as int)
                } else {
                    None
                },
            decreases self.tiles@.len() - i,
        {
            if self.tiles[i].column == gone && !self.tiles[i].floating {
                break;
            }
            i = i + 1;
        }
        if i == self.tiles.len() {
            return;
        }
        let to = self.tiles[i].window.id;
        let mut k: usize = 0;
        while k < self.tiles.len()
            invariant
                k <= self.tiles@.len(),
                self.tiles@.len() == start.tiles.len(),
                self@ == (WorkspaceModel { tiles: self.tiles@, ..start }),
                forall|j: int|
                    0 <= j < k ==> #[trigger] self.tiles@[j] == follow(start.tiles[j], gone, to),
                forall|j: int|
                    k <= j < self.tiles@.len() ==> #[trigger] self.tiles@[j] == start.tiles[j],
            decreases self.tiles@.len() - k,
        {
            if self.tiles[k].column == gone && !self.tiles[k].floating {
                self.tiles[k].column = to;
            }
            k = k + 1;
        }
        assert(self.tiles@ =~= relead(start.tiles, gone));
    }

    /// Focuses window `w`, if it is here, and says whether it is.
    pub fn activate_window(&mut self, w: WindowId) -> (found: bool)
        ensures
            found == old(self)@.has_window(w),
            final(self)@ == old(self)@.activate_window(w),
    {
        if self.has_window(w) {
            self.active = Some(w);
            true
        } else {
            false
        }
    }

    /// The tile that has the focus.
    pub fn active_tile(&self) -> (tile: Option<Tile>)
        ensures
            tile == self@.active_tile(),
    {
        match self.active {
            Some(w) => match self.window_pos(w) {
                Some(p) => Some(self.tiles[p]),
                None => None,
            },
            None => None,
        }
    }
}

impl WorkspaceModel {
    /// The tile that has the focus.
    pub open spec fn active_tile(self) -> Option<Tile> {
        match self.active {
            Some(w) => match self.window_pos(w) {
                Some(p) => Some(self.tiles[p]),
                None => None,
            },
            None => None,
        }
    }
}

} // verus!
