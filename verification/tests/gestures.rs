use jiji_layout::gestures::Reached;
use jiji_layout::ids::{ActivityId, OutputId, WindowId, WorkspaceId};
use jiji_layout::interactive::{DragMotion, DropPlace, InsertWorkspace, Tick};
use jiji_layout::layout::{DndHoldTarget, InteractiveMoveState, Layout, Options, OverviewProgress};
use jiji_layout::monitor::WorkspaceSwitch;
use jiji_layout::upkeep::AnimationSigns;
use jiji_layout::windows::{ActivateWindow, AddWindowTarget};
use jiji_layout::workspace::{Output, SizingMode, Tile, Window};

fn plain() -> Options {
    Options { empty_workspace_above_first: false, animate_activity_switch: false }
}

fn output(n: u64) -> Output {
    Output { id: OutputId(n), connector: OutputId(n) }
}

fn tile(n: u64) -> Tile {
    Tile {
        window: Window {
            id: WindowId(n),
            parent: None,
            urgent: false,
            pending_sizing_mode: SizingMode::Normal,
            windowed_fullscreen: false,
        },
        column: WindowId(n),
        floating: false,
    }
}

fn shown(l: &Layout, out: u64) -> Vec<WorkspaceId> {
    let act: ActivityId = l.activities.active;
    match l.view_for(act, OutputId(out)) {
        Some(v) => v.ids().clone(),
        None => Vec::new(),
    }
}

fn home(l: &Layout, w: u64) -> Option<WorkspaceId> {
    l.home_of(WindowId(w))
}

fn one_output() -> Layout {
    let mut l = Layout::with_options(plain());
    l.add_output(output(1), None);
    l
}

fn two_outputs() -> Layout {
    let mut l = one_output();
    l.add_output(output(2), None);
    l
}

fn open(l: &mut Layout, w: u64) -> Option<Output> {
    l.add_window(tile(w), AddWindowTarget::Auto, ActivateWindow::Yes)
}

fn tick(now: u64, scrolled: bool, target: Option<DndHoldTarget>, arrived: bool) -> Tick {
    Tick { now, scrolled, target, opened: false, slid: vec![false], arrived: vec![arrived] }
}

fn motion(out: u64, far: bool, over: Option<WorkspaceId>) -> DragMotion {
    DragMotion { output: output(out), far, floats: false, configured: false, over }
}

#[test]
fn a_swipe_is_followed_to_its_end() {
    let mut l = one_output();
    open(&mut l, 1);
    let v = shown(&l, 1);
    let start = Reached { at: 0, between: false };
    l.workspace_switch_gesture_begin(OutputId(1), true, start, &vec![0]);
    assert!(l.monitors[0].is_in_gesture());
    let halfway = Reached { at: 0, between: true };
    assert_eq!(l.workspace_switch_gesture_update(false, halfway, true), None);
    assert_eq!(l.workspace_switch_gesture_update(true, start, false), Some(None));
    assert_eq!(l.workspace_switch_gesture_update(true, halfway, true), Some(Some(output(1))));
    assert_eq!(
        l.monitors[0].workspace_switch,
        Some(WorkspaceSwitch::Gesture { target: 0, between: true, is_touchpad: true })
    );
    assert_eq!(l.workspace_switch_gesture_end(Some(false), 1), None);
    assert_eq!(l.workspace_switch_gesture_end(Some(true), 1), Some(output(1)));
    assert_eq!(l.active_workspace_id(), Some(v[1]));
    assert!(!l.monitors[0].is_in_gesture());
    assert!(l.monitors[0].is_animating());
    l.advance_animations(&tick(0, false, None, true));
    assert!(!l.monitors[0].is_animating());
    assert!(l.verify_invariants());
}

#[test]
fn a_swipe_along_a_workspace_names_its_output() {
    let mut l = two_outputs();
    open(&mut l, 1);
    l.view_offset_gesture_begin(OutputId(2), None, true);
    assert_eq!(l.workspaces.get(shown(&l, 2)[0]).unwrap().view_gesture, Some(true));
    assert_eq!(l.workspaces.get(shown(&l, 1)[0]).unwrap().view_gesture, None);
    assert_eq!(l.view_offset_gesture_update(true, true), Some(Some(output(2))));
    assert_eq!(l.view_offset_gesture_update(true, false), Some(None));
    assert_eq!(l.view_offset_gesture_update(false, true), None);
    assert_eq!(l.view_offset_gesture_end(Some(true)), Some(output(2)));
    assert_eq!(l.view_offset_gesture_end(None), None);
    assert_eq!(l.workspaces.get(shown(&l, 2)[0]).unwrap().view_gesture, None);
}

#[test]
fn a_drag_takes_the_window_out_and_puts_it_back() {
    let mut l = one_output();
    open(&mut l, 1);
    open(&mut l, 2);
    let v = shown(&l, 1);
    assert!(!l.interactive_move_begin(WindowId(9), OutputId(1)));
    assert!(!l.interactive_move_begin(WindowId(1), OutputId(2)));
    assert!(l.interactive_move_begin(WindowId(1), OutputId(1)));
    assert!(!l.interactive_move_begin(WindowId(2), OutputId(1)));
    assert!(l.interactive_move_update(WindowId(1), motion(1, false, Some(v[0]))));
    assert_eq!(home(&l, 1), Some(v[0]));
    assert!(l.interactive_move_update(WindowId(1), motion(1, true, Some(v[0]))));
    assert!(matches!(l.interactive_move, Some(InteractiveMoveState::Moving(_))));
    assert_eq!(home(&l, 1), None);
    assert!(l.has_window(WindowId(1)));
    assert!(l.is_dragged(WindowId(1)));
    assert!(l.interactive_move_is_moving_above_output(&output(1)));
    assert_eq!(l.find_window_and_output(WindowId(1)), Some(Some(output(1))));
    assert_eq!(l.windows_for_output(&output(1)), vec![WindowId(1), WindowId(2)]);
    assert_eq!(l.with_windows()[0].workspace, None);
    assert_eq!(l.update_window(WindowId(1)), None);
    assert!(l.verify_invariants());
    let place = DropPlace { workspace: InsertWorkspace::Existing(v[1]), column: None };
    l.interactive_move_end(WindowId(1), place);
    assert!(l.interactive_move.is_none());
    assert_eq!(home(&l, 1), Some(v[1]));
    assert!(l.verify_invariants());
}

#[test]
fn a_drag_can_end_between_workspaces() {
    let mut l = one_output();
    open(&mut l, 1);
    open(&mut l, 2);
    l.move_to_workspace_down(true);
    let v = shown(&l, 1);
    assert!(l.interactive_move_begin(WindowId(2), OutputId(1)));
    assert!(l.interactive_move_update(WindowId(2), motion(1, true, Some(v[1]))));
    let place = DropPlace { workspace: InsertWorkspace::NewAt(0), column: None };
    l.interactive_move_end(WindowId(2), place);
    let fresh = home(&l, 2).unwrap();
    assert!(!v.contains(&fresh));
    assert_eq!(shown(&l, 1)[0], fresh);
    assert_eq!(shown(&l, 1)[1], v[0]);
}

#[test]
fn a_grabbed_window_stays_when_let_go() {
    let mut l = one_output();
    open(&mut l, 1);
    let v = shown(&l, 1);
    assert!(l.interactive_move_begin(WindowId(1), OutputId(1)));
    let place = DropPlace { workspace: InsertWorkspace::Existing(v[1]), column: None };
    l.interactive_move_end(WindowId(1), place);
    assert!(l.interactive_move.is_none());
    assert_eq!(home(&l, 1), Some(v[0]));
    assert!(l.verify_invariants());
}

#[test]
fn resting_over_a_workspace_activates_it() {
    let mut l = one_output();
    open(&mut l, 1);
    let v = shown(&l, 1);
    let over = Some(DndHoldTarget::Workspace(v[1]));
    l.open_overview();
    l.dnd_update(output(1));
    l.advance_animations(&tick(1000, false, over, false));
    assert_eq!(l.active_workspace_id(), Some(v[0]));
    l.advance_animations(&tick(1749, false, over, false));
    assert_eq!(l.active_workspace_id(), Some(v[0]));
    l.advance_animations(&tick(1750, false, over, false));
    assert_eq!(l.active_workspace_id(), Some(v[1]));
    l.dnd_end();
    assert!(l.dnd.is_none());
}

#[test]
fn scrolling_restarts_the_rest() {
    let mut l = one_output();
    open(&mut l, 1);
    let v = shown(&l, 1);
    let over = Some(DndHoldTarget::Workspace(v[1]));
    l.open_overview();
    l.dnd_update(output(1));
    l.advance_animations(&tick(0, false, over, false));
    l.advance_animations(&tick(700, true, over, false));
    l.advance_animations(&tick(800, false, over, false));
    assert_eq!(l.active_workspace_id(), Some(v[0]));
}

#[test]
fn the_overview_opens_and_closes() {
    let mut l = two_outputs();
    open(&mut l, 1);
    assert!(!l.is_overview_open());
    assert!(l.open_overview());
    assert!(!l.open_overview());
    assert!(l.is_overview_open());
    assert!(l.monitors[0].overview_open && l.monitors[1].overview_open);
    assert!(l.close_overview());
    assert!(!l.close_overview());
    l.toggle_overview();
    assert!(l.is_overview_open());
    l.focus_output(OutputId(1));
    let v = shown(&l, 1);
    l.toggle_overview_to_workspace(1);
    assert!(!l.is_overview_open());
    assert_eq!(l.active_workspace_id(), Some(v[1]));
    assert!(!l.overview_gesture_end(true));
    assert!(!l.is_overview_open());
    l.overview_gesture_begin();
    assert!(l.is_overview_open());
    assert_eq!(l.overview_progress, Some(OverviewProgress::Gesture));
    assert!(l.overview_gesture_end(false));
    assert!(!l.is_overview_open());
    assert_eq!(l.overview_progress, Some(OverviewProgress::Animation));
    let still = AnimationSigns { tile: false, monitors: vec![false, false] };
    assert!(l.are_animations_ongoing(None, &still));
    l.advance_animations(&Tick {
        now: 0,
        scrolled: false,
        target: None,
        opened: true,
        slid: vec![false, false],
        arrived: vec![false, false],
    });
    assert_eq!(l.overview_progress, None);
    assert!(!l.are_animations_ongoing(None, &still));
    assert!(l.verify_invariants());
}

#[test]
fn animations_are_looked_for_on_the_output() {
    let mut l = two_outputs();
    let still = AnimationSigns { tile: false, monitors: vec![false, false] };
    assert!(!l.are_animations_ongoing(None, &still));
    l.dnd_update(output(2));
    assert!(l.are_animations_ongoing(None, &still));
    assert!(l.are_animations_ongoing(Some(OutputId(2)), &still));
    assert!(!l.are_animations_ongoing(Some(OutputId(1)), &still));
    l.dnd_end();
    let moving = AnimationSigns { tile: false, monitors: vec![true, false] };
    assert!(l.are_animations_ongoing(Some(OutputId(1)), &moving));
    assert!(!l.are_animations_ongoing(Some(OutputId(2)), &moving));
}

#[test]
fn switching_activities_slides_what_was_shown_out() {
    let mut l = Layout::with_options(Options {
        empty_workspace_above_first: false,
        animate_activity_switch: true,
    });
    l.add_output(output(1), None);
    open(&mut l, 1);
    let before = shown(&l, 1);
    let a = l.create_activity("a".to_string()).unwrap();
    assert!(l.outgoing_ctx_for(0).is_none());
    l.switch_activity(a);
    assert_eq!(*l.ctx_for(0).unwrap().ids(), shown(&l, 1));
    assert_eq!(*l.outgoing_ctx_for(0).unwrap().ids(), before);
    let mut arrived = tick(0, false, None, false);
    l.advance_animations(&arrived);
    assert!(l.outgoing_ctx_for(0).is_some());
    arrived.slid = vec![true];
    l.advance_animations(&arrived);
    assert!(l.outgoing_ctx_for(0).is_none());
    assert!(l.verify_invariants());
    l.switch_activity_previous(1);
    assert_eq!(l.monitors[0].activity_switch.map(|s| s.from), Some(a));
    l.snap_all_activity_switches();
    assert!(l.outgoing_ctx_for(0).is_none());
    assert!(l.verify_invariants());
}

#[test]
fn windowed_fullscreen_is_flipped_and_left() {
    let mut l = one_output();
    open(&mut l, 1);
    let ws = home(&l, 1);
    assert_eq!(l.set_fullscreen(WindowId(1), true), ws);
    assert_eq!(l.toggle_windowed_fullscreen(WindowId(1)), None);
    assert!(l.workspaces.get(ws.unwrap()).unwrap().tiles[0].window.windowed_fullscreen);
    assert_eq!(l.set_fullscreen(WindowId(1), false), None);
    assert!(!l.workspaces.get(ws.unwrap()).unwrap().tiles[0].window.windowed_fullscreen);
    assert_eq!(l.set_fullscreen(WindowId(1), false), ws);
}

#[test]
fn floating_is_asked_of_the_workspace_that_has_the_window() {
    let mut l = one_output();
    open(&mut l, 1);
    assert_eq!(l.toggle_window_floating(None), home(&l, 1));
    assert_eq!(l.set_window_floating(Some(WindowId(1)), true), home(&l, 1));
    assert_eq!(l.set_window_floating(Some(WindowId(5)), true), None);
}

#[test]
fn refreshing_ends_swipes_out_of_sight() {
    let mut l = one_output();
    open(&mut l, 1);
    l.view_offset_gesture_begin(OutputId(1), None, true);
    let v = shown(&l, 1);
    l.switch_workspace(1);
    l.refresh(true);
    assert_eq!(l.workspaces.get(v[0]).unwrap().view_gesture, None);
    assert!(l.is_active);
}
