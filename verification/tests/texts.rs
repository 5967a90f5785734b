use jiji_layout::errors::{
    append_decimal, format_activity_switch_block_err, format_do_action_error, ActivitySwitchBlock,
    CreateActivityError, Disposition, DoActionError, SwitchActivityError,
};
use jiji_layout::lookup::FocusWorkspaceInActivityError;
use jiji_layout::text::{eq_exact, eq_ignore_ascii_case, is_blank};

#[test]
fn names_are_compared_up_to_ascii_case() {
    assert!(eq_ignore_ascii_case("Work", "wORK"));
    assert!(!eq_ignore_ascii_case("Work", "Works"));
    assert!(!eq_ignore_ascii_case("\u{c4}", "\u{e4}"));
    assert!(eq_ignore_ascii_case("", ""));
    assert!(!eq_ignore_ascii_case("[", "{"));
    assert!(eq_exact("Work", "Work"));
    assert!(!eq_exact("Work", "work"));
}

#[test]
fn white_space_alone_is_no_name() {
    assert!(is_blank(""));
    assert!(is_blank(" \t\n\u{3000}"));
    assert!(!is_blank(" a "));
    for c in '\u{0}'..='\u{ffff}' {
        assert_eq!(is_blank(&c.to_string()), c.is_whitespace());
    }
}

#[test]
fn numbers_are_written_in_decimal() {
    let mut s = String::from("n=");
    append_decimal(&mut s, 0);
    assert_eq!(s, "n=0");
    let mut s = String::new();
    append_decimal(&mut s, 18446744073709551615);
    assert_eq!(s, "18446744073709551615");
}

#[test]
fn blocks_have_fixed_words() {
    assert_eq!(ActivitySwitchBlock::InteractiveMove.describe(), "interactive window move");
    assert_eq!(ActivitySwitchBlock::Dnd.describe(), "drag and drop");
    assert_eq!(
        ActivitySwitchBlock::WorkspaceSwitchGesture.describe(),
        "workspace switch gesture"
    );
    assert_eq!(
        format_activity_switch_block_err(ActivitySwitchBlock::Dnd),
        "activity switch blocked: drag and drop"
    );
}

#[test]
fn failed_requests_are_answered() {
    let of = |e: DoActionError| format_do_action_error(&e, "inner");
    assert_eq!(
        of(DoActionError::from(ActivitySwitchBlock::Dnd)),
        "activity switch blocked: drag and drop"
    );
    assert_eq!(of(DoActionError::WindowNotFound { id: 7 }), "window not found: id=7");
    assert_eq!(
        of(DoActionError::MoveWindowTargetUnreachable { ws_id: 12 }),
        "workspace not reachable for move: id=12"
    );
    assert_eq!(
        of(DoActionError::MoveWindowTargetUnknownName { name: "x".to_string() }),
        "workspace not found for move: x"
    );
    assert_eq!(of(DoActionError::CreateActivity(CreateActivityError::EmptyName)), "inner");
    assert_eq!(of(DoActionError::SwitchActivity(SwitchActivityError::NotFound)), "inner");
    assert_eq!(
        of(DoActionError::FocusWorkspaceInActivity(
            FocusWorkspaceInActivityError::WorkspaceNotInActivity
        )),
        "workspace does not belong to the given activity"
    );
    assert_eq!(
        of(DoActionError::FocusWorkspaceInActivity(
            FocusWorkspaceInActivityError::IndexUnsupported
        )),
        "index references are not supported with --activity; use a name or id:N"
    );
    assert_eq!(
        of(DoActionError::FocusWorkspaceTargetUnknown { reference: "x".to_string() }),
        "workspace not found: x"
    );
    assert_eq!(of(DoActionError::BookmarkNotFound { id: 3 }), "bookmark not found: id=3");
    assert_eq!(
        of(DoActionError::BookmarkKeyInvalid { key: "k".to_string(), reason: "r".to_string() }),
        "invalid bookmark key: k: r"
    );
    assert_eq!(
        of(DoActionError::BookmarkKeyCollision { key: "k".to_string() }),
        "bookmark key already bound: k"
    );
    assert_eq!(
        of(DoActionError::BookmarkNameInvalid { name: "n".to_string(), reason: "r".to_string() }),
        "invalid bookmark name: n: r"
    );
    assert_eq!(
        of(DoActionError::BookmarkDangling { id: 3 }),
        "bookmark has no attached window: id=3"
    );
    assert_eq!(
        of(DoActionError::BookmarkRuleInvalid { reason: "r".to_string() }),
        "invalid bookmark rule: r"
    );
    assert_eq!(
        of(DoActionError::AppearanceOverrideInvalid { reason: "r".to_string() }),
        "appearance override invalid: r"
    );
}

#[test]
fn only_blocked_switches_wait() {
    let blocked = DoActionError::ActivitySwitchBlocked(ActivitySwitchBlock::Dnd);
    assert_eq!(blocked.disposition(), Disposition::Park);
    assert_eq!(DoActionError::WindowNotFound { id: 1 }.disposition(), Disposition::Terminal);
    assert_eq!(blocked.describe(""), "drag and drop");
}
