//! What can go wrong when the user asks for something, and how it is reported.

use vstd::prelude::*;
use vstd::string::*;

use crate::lookup::FocusWorkspaceInActivityError;

verus! {

/// What the user is doing that forbids switching activities.
#[derive(Clone, Copy, Debug, PartialEq, Eq, Structural)]
pub enum ActivitySwitchBlock {
    /// Dragging a window.
    InteractiveMove,
    /// Dragging something else.
    Dnd,
    /// Swiping between workspaces.
    WorkspaceSwitchGesture,
}

impl ActivitySwitchBlock {
    /// The word for it.
    pub open spec fn token(self) -> Seq<char> {
        match self {
            ActivitySwitchBlock::InteractiveMove => "interactive window move"@,
            ActivitySwitchBlock::Dnd => "drag and drop"@,
            ActivitySwitchBlock::WorkspaceSwitchGesture => "workspace switch gesture"@,
        }
    }

    /// The word for it.
    pub fn describe(&self) -> (s: String)
        ensures
            s@ == self.token(),
    {
        match self {
            ActivitySwitchBlock::InteractiveMove => "interactive window move".to_owned(),
            ActivitySwitchBlock::Dnd => "drag and drop".to_owned(),
            ActivitySwitchBlock::WorkspaceSwitchGesture => "workspace switch gesture".to_owned(),
        }
    }
}

/// Why an activity could not be created.
#[derive(Clone, Copy, Debug, PartialEq, Eq, Structural)]
pub enum CreateActivityError {
    /// The name is blank.
    EmptyName,
    /// Another activity has that name, up to case.
    DuplicateName,
}

/// Why an activity could not be removed.
#[derive(Clone, Copy, Debug, PartialEq, Eq, Structural)]
pub enum RemoveActivityError {
    /// There is none.
    NotFound,
    /// The configuration declares it.
    ConfigDeclared,
    /// It is the only one.
    LastRemaining,
    /// One of its own workspaces has windows.
    ExclusiveWorkspaceHasWindows,
    /// One of its own workspaces has a name.
    ExclusiveNamedWorkspace,
}

/// Why an activity could not be renamed.
#[derive(Clone, Copy, Debug, PartialEq, Eq, Structural)]
pub enum RenameActivityError {
    /// There is none.
    NotFound,
    /// The configuration declares it.
    ConfigDeclared,
    /// The new name is blank.
    EmptyName,
    /// Another activity has that name, up to case.
    DuplicateName,
}

/// Why an activity could not be switched to.
#[derive(Clone, Copy, Debug, PartialEq, Eq, Structural)]
pub enum SwitchActivityError {
    /// There is none.
    NotFound,
}

/// Why a workspace could not be added to an activity.
#[derive(Clone, Copy, Debug, PartialEq, Eq, Structural)]
pub enum AddWorkspaceToActivityError {
    /// There is no such activity.
    ActivityNotFound,
    /// There is no such workspace.
    WorkspaceNotFound,
}

/// Why a workspace could not be removed from an activity.
#[derive(Clone, Copy, Debug, PartialEq, Eq, Structural)]
pub enum RemoveWorkspaceFromActivityError {
    /// There is no such activity.
    ActivityNotFound,
    /// There is no such workspace.
    WorkspaceNotFound,
    /// The workspace belongs to no other activity.
    LastActivity,
}

/// Why a workspace could not be given other activities.
#[derive(Clone, Copy, Debug, PartialEq, Eq, Structural)]
pub enum SetWorkspaceActivitiesError {
    /// There is no such activity.
    ActivityNotFound,
    /// No activity is given.
    EmptyActivityList,
    /// There is no such workspace.
    WorkspaceNotFound,
}

/// Why a workspace could not be moved to an activity.
#[derive(Clone, Copy, Debug, PartialEq, Eq, Structural)]
pub enum MoveWorkspaceToActivityError {
    /// There is no such activity.
    ActivityNotFound,
    /// There is no such workspace.
    WorkspaceNotFound,
    /// The workspace does not belong to the active activity.
    WorkspaceNotInActiveActivity,
}

/// Why a workspace could not be made sticky or the opposite.
#[derive(Clone, Copy, Debug, PartialEq, Eq, Structural)]
pub enum WorkspaceStickyError {
    /// There is no such workspace.
    WorkspaceNotFound,
}

/// Why an action failed.
#[derive(Clone, Debug, PartialEq, Eq)]
pub enum DoActionError {
    /// What the user is doing forbids switching activities for now.
    ActivitySwitchBlocked(ActivitySwitchBlock),
    /// There is no such window.
    WindowNotFound { id: u64 },
    /// No window can be moved to that workspace.
    MoveWindowTargetUnreachable { ws_id: u64 },
    /// There is no workspace of that name to move a window to.
    MoveWindowTargetUnknownName { name: String },
    /// Creating an activity failed.
    CreateActivity(CreateActivityError),
    /// Removing an activity failed.
    RemoveActivity(RemoveActivityError),
    /// Renaming an activity failed.
    RenameActivity(RenameActivityError),
    /// Switching activities failed.
    SwitchActivity(SwitchActivityError),
    /// Adding a workspace to an activity failed.
    AddWorkspaceToActivity(AddWorkspaceToActivityError),
    /// Removing a workspace from an activity failed.
    RemoveWorkspaceFromActivity(RemoveWorkspaceFromActivityError),
    /// Giving a workspace other activities failed.
    SetWorkspaceActivities(SetWorkspaceActivitiesError),
    /// Moving a workspace to an activity failed.
    MoveWorkspaceToActivity(MoveWorkspaceToActivityError),
    /// Toggling stickiness failed.
    ToggleWorkspaceSticky(WorkspaceStickyError),
    /// Making a workspace sticky failed.
    SetWorkspaceSticky(WorkspaceStickyError),
    /// Making a workspace not sticky failed.
    UnsetWorkspaceSticky(WorkspaceStickyError),
    /// Focusing a workspace within an activity failed.
    FocusWorkspaceInActivity(FocusWorkspaceInActivityError),
    /// There is no such workspace to focus.
    FocusWorkspaceTargetUnknown { reference: String },
    /// There is no such bookmark.
    BookmarkNotFound { id: u64 },
    /// The key cannot be used for a bookmark.
    BookmarkKeyInvalid { key: String, reason: String },
    /// The key is taken.
    BookmarkKeyCollision { key: String },
    /// The name cannot be used for a bookmark.
    BookmarkNameInvalid { name: String, reason: String },
    /// The bookmark has no window at the moment.
    BookmarkDangling { id: u64 },
    /// The rule cannot be used for a bookmark.
    BookmarkRuleInvalid { reason: String },
    /// The appearance cannot be overridden like that.
    AppearanceOverrideInvalid { reason: String },
}

/// What becomes of a request that failed.
#[derive(Clone, Copy, Debug, PartialEq, Eq, Structural)]
pub enum Disposition {
    /// It waits and is tried again.
    Park,
    /// It is answered.
    Terminal,
}

/// `n` in decimal digits.
pub open spec fn decimal(n: nat) -> Seq<char>
    decreases n,
{
    if n < 10 {
        seq![digit(n)]
    } else {
        decimal(n / 10).push(digit(n % 10))
    }
}

/// The digit `n`.
pub open spec fn digit(n: nat) -> char {
    ('0' as nat + n) as char
}

/// Appends digit `n` to `s`.
fn append_digit(s: &mut String, n: u64)
    requires
        n < 10,
    ensures
        final(s)@ == old(s)@.push(digit(n as nat)),
{
    proof {
        reveal_strlit("0");
        reveal_strlit("1");
        reveal_strlit("2");
        reveal_strlit("3");
        reveal_strlit("4");
        reveal_strlit("5");
        reveal_strlit("6");
        reveal_strlit("7");
        reveal_strlit("8");
        reveal_strlit("9");
    }
    if n == 0 {
        s.append("0");
    } else if n == 1 {
        s.append("1");
    } else if n == 2 {
        s.append("2");
    } else if n == 3 {
        s.append("3");
    } else if n == 4 {
        s.append("4");
    } else if n == 5 {
        s.append("5");
    } else if n == 6 {
        s.append("6");
    } else if n == 7 {
        s.append("7");
    } else if n == 8 {
        s.append("8");
    } else {
        s.append("9");
    }
    assert(s@ =~= old(s)@.push(digit(n as nat)));
}

/// Appends `n` in decimal digits to `s`.
pub fn append_decimal(s: &mut String, n: u64)
    ensures
        final(s)@ == old(s)@ + decimal(n as nat),
    decreases n,
{
    if n < 10 {
        append_digit(s, n);
        assert(s@ =~= old(s)@ + decimal(n as nat));
    } else {
        append_decimal(s, n / 10);
        append_digit(s, n % 10);
        assert(s@ =~= old(s)@ + decimal(n as nat));
    }
}

/// `head` followed by `n` in decimal digits.
fn with_number(head: &str, n: u64) -> (s: String)
    ensures
        s@ == head@ + decimal(n as nat),
{
    let mut s = head.to_owned();
    append_decimal(&mut s, n);
    s
}

/// `head` followed by `tail`.
fn with_text(head: &str, tail: &str) -> (s: String)
    ensures
        s@ == head@ + tail@,
{
    let mut s = head.to_owned();
    s.append(tail);
    s
}

/// `head`, `a`, a colon with a space, and `b`.
fn with_reason(head: &str, a: &str, b: &str) -> (s: String)
    ensures
        s@ == head@ + a@ + ": "@ + b@,
{
    let mut s = head.to_owned();
    s.append(a);
    s.append(": ");
    s.append(b);
    s
}

impl DoActionError {
    /// What becomes of the request: it waits only while activities cannot be switched.
    pub fn disposition(&self) -> (d: Disposition)
        ensures
            d == if self is ActivitySwitchBlocked {
                Disposition::Park
            } else {
                Disposition::Terminal
            },
    {
        match self {
            DoActionError::ActivitySwitchBlocked(_) => Disposition::Park,
            DoActionError::WindowNotFound { .. }
            | DoActionError::MoveWindowTargetUnreachable { .. }
            | DoActionError::MoveWindowTargetUnknownName { .. }
            | DoActionError::CreateActivity(_)
            | DoActionError::RemoveActivity(_)
            | DoActionError::RenameActivity(_)
            | DoActionError::SwitchActivity(_)
            | DoActionError::AddWorkspaceToActivity(_)
            | DoActionError::RemoveWorkspaceFromActivity(_)
            | DoActionError::SetWorkspaceActivities(_)
            | DoActionError::MoveWorkspaceToActivity(_)
            | DoActionError::ToggleWorkspaceSticky(_)
            | DoActionError::SetWorkspaceSticky(_)
            | DoActionError::UnsetWorkspaceSticky(_)
            | DoActionError::FocusWorkspaceInActivity(_)
            | DoActionError::FocusWorkspaceTargetUnknown { .. }
            | DoActionError::BookmarkNotFound { .. }
            | DoActionError::BookmarkKeyInvalid { .. }
            | DoActionError::BookmarkKeyCollision { .. }
            | DoActionError::BookmarkNameInvalid { .. }
            | DoActionError::BookmarkDangling { .. }
            | DoActionError::BookmarkRuleInvalid { .. }
            | DoActionError::AppearanceOverrideInvalid { .. } => Disposition::Terminal,
        }
    }

    /// The message, given the text of the wrapped error where there is one.
    pub open spec fn message(self, wrapped: Seq<char>) -> Seq<char> {
        match self {
            DoActionError::ActivitySwitchBlocked(block) => block.token(),
            DoActionError::WindowNotFound { id } => "window not found: id="@ + decimal(id as nat),
            DoActionError::MoveWindowTargetUnreachable { ws_id } => "workspace not reachable for move: id="@
                + decimal(ws_id as nat),
            DoActionError::MoveWindowTargetUnknownName { name } => "workspace not found for move: "@
                + name@,
            DoActionError::FocusWorkspaceInActivity(e) => e.message(),
            DoActionError::FocusWorkspaceTargetUnknown { reference } => "workspace not found: "@
                + reference@,
            DoActionError::BookmarkNotFound { id } => "bookmark not found: id="@ + decimal(
                id as nat,
            ),
            DoActionError::BookmarkKeyInvalid { key, reason } => "invalid bookmark key: "@ + key@
                + ": "@ + reason@,
            DoActionError::BookmarkKeyCollision { key } => "bookmark key already bound: "@ + key@,
            DoActionError::BookmarkNameInvalid { name, reason } => "invalid bookmark name: "@
                + name@ + ": "@ + reason@,
            DoActionError::BookmarkDangling { id } => "bookmark has no attached window: id="@
                + decimal(id as nat),
            DoActionError::BookmarkRuleInvalid { reason } => "invalid bookmark rule: "@ + reason@,
            DoActionError::AppearanceOverrideInvalid { reason } => "appearance override invalid: "@
                + reason@,
            _ => wrapped,
        }
    }

    /// The message, given the text of the wrapped error where there is one.
    pub fn describe(&self, wrapped: &str) -> (s: String)
        ensures
            s@ == self.message(wrapped@),
    {
        match self {
            DoActionError::ActivitySwitchBlocked(block) => block.describe(),
            DoActionError::WindowNotFound { id } => with_number("window not found: id=", *id),
            DoActionError::MoveWindowTargetUnreachable { ws_id } => with_number(
                "workspace not reachable for move: id=",
                *ws_id,
            ),
            DoActionError::MoveWindowTargetUnknownName { name } => with_text(
                "workspace not found for move: ",
                name.as_str(),
            ),
            DoActionError::FocusWorkspaceInActivity(e) => e.describe(),
            DoActionError::FocusWorkspaceTargetUnknown { reference } => with_text(
                "workspace not found: ",
                reference.as_str(),
            ),
            DoActionError::BookmarkNotFound { id } => with_number("bookmark not found: id=", *id),
            DoActionError::BookmarkKeyInvalid { key, reason } => with_reason(
                "invalid bookmark key: ",
                key.as_str(),
                reason.as_str(),
            ),
            DoActionError::BookmarkKeyCollision { key } => with_text(
                "bookmark key already bound: ",
                key.as_str(),
            ),
            DoActionError::BookmarkNameInvalid { name, reason } => with_reason(
                "invalid bookmark name: ",
                name.as_str(),
                reason.as_str(),
            ),
            DoActionError::BookmarkDangling { id } => with_number(
                "bookmark has no attached window: id=",
                *id,
            ),
            DoActionError::BookmarkRuleInvalid { reason } => with_text(
                "invalid bookmark rule: ",
                reason.as_str(),
            ),
            DoActionError::AppearanceOverrideInvalid { reason } => with_text(
                "appearance override invalid: ",
                reason.as_str(),
            ),
            _ => wrapped.to_owned(),
        }
    }
}

impl From<ActivitySwitchBlock> for DoActionError {
    fn from(block: ActivitySwitchBlock) -> (e: DoActionError) {
        DoActionError::ActivitySwitchBlocked(block)
    }
}

impl vstd::std_specs::convert::FromSpecImpl<ActivitySwitchBlock> for DoActionError {
    open spec fn obeys_from_spec() -> bool {
        true
    }

    open spec fn from_spec(block: ActivitySwitchBlock) -> DoActionError {
        DoActionError::ActivitySwitchBlocked(block)
    }
}

/// The reply to a request for an activity switch that is not possible now.
pub fn format_activity_switch_block_err(block: ActivitySwitchBlock) -> (s: String)
    ensures
        s@ == "activity switch blocked: "@ + block.token(),
{
    with_text("activity switch blocked: ", block.describe().as_str())
}

/// The reply to a request that failed, given the text of the wrapped error where there is one.
pub fn format_do_action_error(err: &DoActionError, wrapped: &str) -> (s: String)
    ensures
        s@ == match err {
            DoActionError::ActivitySwitchBlocked(block) => "activity switch blocked: "@
                + block.token(),
            _ => err.message(wrapped@),
        },
{
    match err {
        DoActionError::ActivitySwitchBlocked(block) => format_activity_switch_block_err(*block),
        _ => err.describe(wrapped),
    }
}

} // verus!
