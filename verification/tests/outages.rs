use jiji_layout::ids::{ActivityId, OutputId, WindowId, WorkspaceId};
use jiji_layout::layout::{Layout, Options};
use jiji_layout::lookup::{ActivityReferenceArg, WorkspaceReference};
use jiji_layout::windows::{ActivateWindow, AddWindowTarget};
use jiji_layout::workspace::{LayoutElement, Output, Size, SizingMode, Tile, Window};

fn plain() -> Options {
    Options { empty_workspace_above_first: false, animate_activity_switch: false }
}

fn output(n: u64) -> Output {
    Output { id: OutputId(n), connector: OutputId(n) }
}

fn tile(n: u64) -> Tile {
    Tile {
        window: Window {
            id: WindowId(n),
            parent: None,
            urgent: false,
            pending_sizing_mode: SizingMode::Normal,
            windowed_fullscreen: false,
        },
        column: WindowId(n),
        floating: false,
    }
}

fn named(name: &str) -> ActivityReferenceArg {
    ActivityReferenceArg::Name(name.to_string())
}

fn view(l: &Layout, act: ActivityId, out: u64) -> Vec<WorkspaceId> {
    match l.view_for(act, OutputId(out)) {
        Some(v) => v.ids().clone(),
        None => Vec::new(),
    }
}

fn busy(l: &Layout, ids: &Vec<WorkspaceId>) -> Vec<WorkspaceId> {
    ids.iter().copied().filter(|w| l.workspaces.is_busy(*w)).collect()
}

fn one_output() -> Layout {
    let mut l = Layout::with_options(plain());
    l.add_output(output(1), None);
    l
}

fn two_outputs() -> Layout {
    let mut l = one_output();
    l.add_output(output(2), None);
    l
}

fn open_on(l: &mut Layout, w: u64, out: u64) {
    l.add_window(tile(w), AddWindowTarget::Output(OutputId(out)), ActivateWindow::Yes);
}

#[test]
fn a_shared_empty_workspace_goes_with_the_last_output() {
    let mut l = one_output();
    l.create_activity("Work".to_string()).unwrap();
    let ws = l.active_workspace_id().unwrap();
    assert!(l.add_workspace_to_activity(Some(WorkspaceReference::Id(ws.get())), &named("Work")).is_ok());
    assert!(l.verify_invariants());
    l.remove_output(OutputId(1));
    assert!(l.disconnected_workspace_ids.is_empty());
    assert_eq!(l.workspaces.len(), 0);
    assert!(l.verify_invariants());
    l.add_output(output(1), None);
    assert_eq!(l.workspaces.len(), 2);
    assert!(l.verify_invariants());
}

#[test]
fn a_shared_empty_workspace_goes_with_one_of_several_outputs() {
    let mut l = two_outputs();
    let first = l.activities.active;
    let work = l.create_activity("Work".to_string()).unwrap();
    let ws = view(&l, first, 2)[0];
    assert!(l.add_workspace_to_activity(Some(WorkspaceReference::Id(ws.get())), &named("Work")).is_ok());
    l.remove_output(OutputId(2));
    for act in [first, work] {
        let shown = view(&l, act, 1);
        assert!(!l.workspaces.is_busy(*shown.last().unwrap()));
        assert!(view(&l, act, 2).is_empty());
    }
    for w in &l.workspaces.items {
        for act in &w.activities {
            assert!(view(&l, *act, 1).contains(&w.id));
        }
    }
    assert!(l.verify_invariants());
}

#[test]
fn activities_that_are_not_active_get_their_order_back() {
    let mut l = two_outputs();
    let first = l.activities.active;
    let work = l.create_activity("Work".to_string()).unwrap();
    l.switch_activity(work);
    l.focus_output(OutputId(2));
    for w in [1, 2, 3] {
        open_on(&mut l, w, 2);
        l.move_to_workspace_down(true);
    }
    let before = busy(&l, &view(&l, work, 2));
    assert!(before.len() > 1);
    l.switch_activity(first);
    l.remove_output(OutputId(2));
    assert!(l.verify_invariants());
    l.add_output(output(2), None);
    assert_eq!(busy(&l, &view(&l, work, 2)), before);
    assert!(l.verify_invariants());
}

#[test]
fn a_lone_output_gives_every_activity_its_order_back() {
    let mut l = one_output();
    let first = l.activities.active;
    let work = l.create_activity("Work".to_string()).unwrap();
    l.switch_activity(work);
    for w in [1, 2, 3] {
        open_on(&mut l, w, 1);
        l.move_to_workspace_down(true);
    }
    let before = busy(&l, &view(&l, work, 1));
    assert!(before.len() > 1);
    l.switch_activity(first);
    l.remove_output(OutputId(1));
    assert_eq!(l.disconnected_workspace_ids.len(), before.len());
    l.add_output(output(1), None);
    assert_eq!(busy(&l, &view(&l, work, 1)), before);
    assert!(l.verify_invariants());
}

#[test]
fn a_workspace_that_fills_keeps_a_bookend_in_every_view() {
    let mut l = one_output();
    let first = l.activities.active;
    let work = l.create_activity("Work".to_string()).unwrap();
    l.add_window(tile(1), AddWindowTarget::Auto, ActivateWindow::Yes);
    let ws = *view(&l, first, 1).last().unwrap();
    assert!(l.add_workspace_to_activity(Some(WorkspaceReference::Id(ws.get())), &named("Work")).is_ok());
    l.move_to_workspace_down(true);
    for act in [first, work] {
        let shown = view(&l, act, 1);
        assert!(!l.workspaces.is_busy(*shown.last().unwrap()));
    }
    assert!(l.verify_invariants());
}

#[test]
fn reconciling_and_mending_settle() {
    let mut l = two_outputs();
    let first = l.activities.active;
    let work = l.create_activity("Work".to_string()).unwrap();
    open_on(&mut l, 1, 1);
    let ws = l.home_of(WindowId(1)).unwrap();
    assert!(l.add_workspace_to_activity(Some(WorkspaceReference::Id(ws.get())), &named("Work")).is_ok());
    let before = (view(&l, first, 1), view(&l, work, 1), l.workspaces.len());
    l.reconcile_views_with_membership();
    assert_eq!((view(&l, first, 1), view(&l, work, 1), l.workspaces.len()), before);
    assert_eq!(l.normalize_view_bookends(), 0);
    assert!(before.1.contains(&ws));
}

#[test]
fn each_missing_bookend_takes_one_workspace() {
    let mut l = one_output();
    let first = l.activities.active;
    l.create_activity("Work".to_string()).unwrap();
    let last = view(&l, first, 1)[0];
    l.workspaces.add_tile(last, tile(7), true);
    let n = l.workspaces.len();
    assert_eq!(l.normalize_view_bookends(), 1);
    assert_eq!(l.workspaces.len(), n + 1);
    assert_eq!(view(&l, first, 1)[0], last);
    assert_eq!(view(&l, first, 1).len(), 2);
    assert_eq!(l.normalize_view_bookends(), 0);
}

#[test]
fn a_repair_keeps_the_order_and_drops_empty_views() {
    let mut l = one_output();
    let first = l.activities.active;
    let work = l.create_activity("Work".to_string()).unwrap();
    for w in [1, 2, 3] {
        open_on(&mut l, w, 1);
        l.move_to_workspace_down(false);
    }
    let v = view(&l, first, 1);
    let gone = view(&l, work, 1)[0];
    l.workspaces.remove(gone);
    l.workspaces.remove(v[0]);
    l.repair_view_pool_coherence();
    assert_eq!(view(&l, first, 1), v[1..].to_vec());
    assert!(l.view_for(work, OutputId(1)).is_none());
    let after = view(&l, first, 1);
    l.repair_view_pool_coherence();
    assert_eq!(view(&l, first, 1), after);
}

#[test]
fn expected_sizes_are_requested_or_current() {
    let size = Size { w: 640, h: 480 };
    let mut e = LayoutElement { sizing_mode: SizingMode::Normal, requested_size: None, size };
    assert_eq!(e.expected_size(), Some(size));
    e.requested_size = Some(Size { w: 800, h: 0 });
    assert_eq!(e.expected_size(), Some(Size { w: 800, h: 480 }));
    e.requested_size = Some(Size { w: 0, h: 600 });
    assert_eq!(e.expected_size(), Some(Size { w: 640, h: 600 }));
    e.requested_size = Some(Size { w: 800, h: 600 });
    assert_eq!(e.expected_size(), Some(Size { w: 800, h: 600 }));
    e.sizing_mode = SizingMode::Maximized;
    assert_eq!(e.expected_size(), Some(Size { w: 800, h: 600 }));
    e.sizing_mode = SizingMode::Fullscreen;
    assert_eq!(e.expected_size(), None);
}

#[test]
fn an_expected_size_has_no_empty_component() {
    let mut e = LayoutElement {
        sizing_mode: SizingMode::Normal,
        requested_size: None,
        size: Size { w: 0, h: 0 },
    };
    assert_eq!(e.expected_size(), None);
    e.requested_size = Some(Size { w: 800, h: 0 });
    assert_eq!(e.expected_size(), None);
    e.size = Size { w: 0, h: 480 };
    assert_eq!(e.expected_size(), Some(Size { w: 800, h: 480 }));
}

#[test]
fn what_was_on_an_output_goes_below_what_another_shows() {
    let mut l = two_outputs();
    let act = l.activities.active;
    for out in [1, 2] {
        l.focus_output(OutputId(out));
        for w in [1, 2] {
            open_on(&mut l, 10 * out + w, out);
            l.move_to_workspace_down(true);
        }
    }
    let mut expected = busy(&l, &view(&l, act, 1));
    assert_eq!(expected.len(), 2);
    expected.extend(busy(&l, &view(&l, act, 2)));
    assert_eq!(expected.len(), 4);
    l.remove_output(OutputId(2));
    assert_eq!(busy(&l, &view(&l, act, 1)), expected);
    assert!(l.verify_invariants());
    l.add_output(output(3), None);
    assert_eq!(busy(&l, &view(&l, act, 1)), expected);
    assert!(l.verify_invariants());
}

#[test]
fn a_column_can_be_added() {
    let mut l = one_output();
    let act = l.activities.active;
    let at = view(&l, act, 1)[0];
    let mut second = tile(2);
    second.column = WindowId(1);
    l.add_column_by_idx(0, 0, &vec![tile(1), second], Some(WindowId(2)), true);
    assert_eq!(l.home_of(WindowId(1)), Some(at));
    assert_eq!(l.home_of(WindowId(2)), Some(at));
    assert_eq!(view(&l, act, 1).len(), 2);
    assert!(l.verify_invariants());
}

/// Two workspaces with a window each on output 2, beside output 1.
fn two_on_the_second() -> (Layout, WorkspaceId, WorkspaceId) {
    let mut l = two_outputs();
    let act = l.activities.active;
    l.focus_output(OutputId(2));
    open_on(&mut l, 21, 2);
    l.switch_workspace_down();
    open_on(&mut l, 22, 2);
    let there = busy(&l, &view(&l, act, 2));
    assert_eq!(there.len(), 2);
    (l, there[0], there[1])
}

/// Puts the workspace `id` of output `out` one place lower.
fn lower(l: &mut Layout, id: WorkspaceId, out: u64) {
    let at = view(l, l.activities.active, out).iter().position(|x| *x == id).unwrap();
    l.move_workspace_to_idx(Some((Some(OutputId(out)), at)), at + 1);
}

#[test]
fn an_order_changed_while_an_output_was_away_stays() {
    let (mut l, a, b) = two_on_the_second();
    let act = l.activities.active;
    l.remove_output(OutputId(2));
    assert_eq!(busy(&l, &view(&l, act, 1)), vec![a, b]);
    lower(&mut l, a, 1);
    assert_eq!(busy(&l, &view(&l, act, 1)), vec![b, a]);
    l.add_output(output(2), None);
    assert_eq!(busy(&l, &view(&l, act, 2)), vec![b, a]);
    assert!(l.verify_invariants());
}

#[test]
fn the_first_output_back_shows_what_waits_in_its_order() {
    let (mut l, a, b) = two_on_the_second();
    let act = l.activities.active;
    l.remove_output(OutputId(2));
    lower(&mut l, a, 1);
    l.remove_output(OutputId(1));
    l.add_output(output(2), None);
    assert_eq!(busy(&l, &view(&l, act, 2)), vec![b, a]);
    assert!(l.verify_invariants());
}

/// How often window `w` is on a workspace.
fn places(l: &Layout, w: u64) -> usize {
    let mut n = 0;
    for ws in &l.workspaces.items {
        for t in &ws.tiles {
            if t.window.id == WindowId(w) {
                n += 1;
            }
        }
    }
    n
}

#[test]
fn a_window_is_in_one_place_wherever_it_goes() {
    let mut l = two_outputs();
    open_on(&mut l, 7, 1);
    assert_eq!(places(&l, 7), 1);
    l.move_to_workspace_down(true);
    assert_eq!(places(&l, 7), 1);
    l.move_to_output(Some(WindowId(7)), OutputId(2), None, ActivateWindow::Yes);
    assert_eq!(places(&l, 7), 1);
    l.remove_output(OutputId(2));
    assert_eq!(places(&l, 7), 1);
    l.remove_output(OutputId(1));
    assert_eq!(places(&l, 7), 1);
    l.add_output(output(2), None);
    assert_eq!(places(&l, 7), 1);
    assert!(l.remove_window(WindowId(7)).is_some());
    assert_eq!(places(&l, 7), 0);
    assert!(!l.has_window(WindowId(7)));
    assert!(l.verify_invariants());
}

#[test]
fn a_workspace_that_was_sticky_stays_in_every_activity() {
    let mut l = one_output();
    open_on(&mut l, 7, 1);
    let act = l.activities.active;
    let id = busy(&l, &view(&l, act, 1))[0];
    let other = l.create_activity("other".to_string()).unwrap();
    assert!(l.set_workspace_sticky(Some(WorkspaceReference::Id(id.0))).is_ok());
    assert!(view(&l, other, 1).contains(&id));
    assert!(l.unset_workspace_sticky(Some(WorkspaceReference::Id(id.0))).is_ok());
    assert!(view(&l, other, 1).contains(&id));
    let third = l.create_activity("third".to_string()).unwrap();
    assert!(!view(&l, third, 1).contains(&id));
    assert!(l.verify_invariants());
}

#[test]
fn opening_the_overview_ends_slides_between_activities() {
    let mut l = Layout::with_options(
        Options { empty_workspace_above_first: false, animate_activity_switch: true },
    );
    l.add_output(output(1), None);
    l.add_output(output(2), None);
    let other = l.create_activity("other".to_string()).unwrap();
    l.switch_activity(other);
    assert!(l.monitors.iter().all(|m| m.activity_switch.is_some()));
    assert!(l.verify_invariants());
    l.toggle_overview();
    assert!(l.monitors.iter().all(|m| m.activity_switch.is_none() && m.overview_open));
    assert!(l.verify_invariants());
}
