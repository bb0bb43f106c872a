use vector_core::title_bar::{
    branch_label, branch_status_visible, left_padding, project_items, project_name_label, rounded_corners,
    uses_active_background, window_controls, PlatformStyle, PointerEvent, ProjectItems, TitleBarPadding,
    TitleBarSettings, WindowControls, WindowMoveTracker, MAX_SHORT_SHA_LENGTH, truncate_and_trailoff,
    MAX_BRANCH_NAME_LENGTH, MAX_PROJECT_NAME_LENGTH,
};

fn settings(icon: bool, branch: bool, items: bool) -> TitleBarSettings {
    TitleBarSettings { show_branch_icon: icon, show_branch_name: branch, show_project_items: items }
}

#[test]
fn project_items_follow_settings_and_menu() {
    assert_eq!(project_items(settings(false, true, true), None), ProjectItems { project_name: true, branch: true });
    assert_eq!(project_items(settings(false, false, true), Some(false)), ProjectItems { project_name: true, branch: false });
    assert_eq!(project_items(settings(false, true, true), Some(true)), ProjectItems { project_name: false, branch: false });
    assert_eq!(project_items(settings(true, false, false), None), ProjectItems { project_name: false, branch: false });
}

#[test]
fn title_bar_layout() {
    assert_eq!(left_padding(false, PlatformStyle::Mac), TitleBarPadding::TrafficLights);
    assert_eq!(left_padding(true, PlatformStyle::Mac), TitleBarPadding::Standard);
    assert_eq!(left_padding(false, PlatformStyle::Linux), TitleBarPadding::Standard);
    assert!(uses_active_background(false, false, true));
    assert!(uses_active_background(true, true, false));
    assert!(!uses_active_background(true, false, false));
    assert!(!uses_active_background(true, true, true));
    assert_eq!(window_controls(true, PlatformStyle::Windows, true), WindowControls::NoControls);
    assert_eq!(window_controls(false, PlatformStyle::Mac, true), WindowControls::NoControls);
    assert_eq!(window_controls(false, PlatformStyle::Linux, true), WindowControls::Linux);
    assert_eq!(window_controls(false, PlatformStyle::Linux, false), WindowControls::NoControls);
    assert_eq!(window_controls(false, PlatformStyle::Windows, false), WindowControls::Windows);
    assert_eq!(rounded_corners(false, false, false), (true, true));
    assert_eq!(rounded_corners(false, true, false), (false, true));
    assert_eq!(rounded_corners(true, false, false), (false, false));
}

#[test]
fn labels() {
    assert_eq!(project_name_label(Some("vector".to_string())), ("vector".to_string(), false));
    assert_eq!(project_name_label(None), ("Open recent project".to_string(), true));
    assert_eq!(MAX_SHORT_SHA_LENGTH, 8);
    assert_eq!(branch_label(Some("main".to_string()), Some("0123456789")), Some("main".to_string()));
    assert_eq!(branch_label(None, Some("0123456789abcdef")), Some("01234567".to_string()));
    assert_eq!(branch_label(None, Some("abc")), Some("abc".to_string()));
    assert_eq!(branch_label(None, None), None);
    assert!(branch_status_visible(true, &Some("main".to_string())));
    assert!(!branch_status_visible(false, &Some("main".to_string())));
    assert!(!branch_status_visible(true, &None));
}

#[test]
fn window_drag_moves_once() {
    let mut t = WindowMoveTracker::new();
    assert!(!t.handle(PointerEvent::Move));
    assert!(!t.handle(PointerEvent::LeftDown));
    assert!(t.handle(PointerEvent::Move));
    assert!(!t.handle(PointerEvent::Move));
    assert!(!t.handle(PointerEvent::LeftDown));
    assert!(!t.handle(PointerEvent::LeftUp));
    assert!(!t.handle(PointerEvent::Move));
}

#[test]
fn long_names_are_cut() {
    let long = "a".repeat(45);
    let (label, muted) = project_name_label(Some(long.clone()));
    assert_eq!(label, format!("{}…", "a".repeat(40)));
    assert!(!muted);
    assert_eq!(project_name_label(Some("b".repeat(40))).0, "b".repeat(40));
    assert_eq!(branch_label(Some(long), None), Some(format!("{}…", "a".repeat(40))));
    assert_eq!(truncate_and_trailoff("héllo wörld", 5), "héllo…");
    assert_eq!(truncate_and_trailoff("short", 5), "short");
    assert_eq!(MAX_PROJECT_NAME_LENGTH, 40);
    assert_eq!(MAX_BRANCH_NAME_LENGTH, 40);
}
