use hyprtag::monitor::{MonitorInfo, MonitorsState};
use hyprtag::Error;

fn two_monitors() -> MonitorsState {
    MonitorsState::from_infos(vec![
        MonitorInfo { id: 0, name: "DP-1".to_string(), focused: true, },
        MonitorInfo { id: 1, name: "DP-2".to_string(), focused: false, },
    ])
}

#[test]
fn from_infos_picks_focused_monitor() {
    let ms = MonitorsState::from_infos(vec![
        MonitorInfo { id: 0, name: "DP-1".to_string(), focused: false, },
        MonitorInfo { id: 1, name: "DP-2".to_string(), focused: true, },
    ]);
    assert_eq!(ms.active_monitor_index, 1);

    let ms = MonitorsState::from_infos(vec![MonitorInfo {
        id: 3,
        name: "HDMI-A-1".to_string(),
        focused: false,
    }]);
    assert_eq!(ms.active_monitor_index, 0);
    assert_eq!(ms.monitors.len(), 1);
    assert_eq!(ms.monitors[0].id, 3);
}

#[test]
fn next_monitor_wraps() {
    let mut ms = two_monitors();
    assert_eq!(ms.next_monitor(), 1);
    ms.focused_monitor_changed("DP-2").unwrap();
    assert_eq!(ms.next_monitor(), 0);
}

#[test]
fn focused_monitor_changed_by_name_and_num() {
    let mut ms = two_monitors();
    assert_eq!(ms.active_monitor_index, 0);
    ms.focused_monitor_changed("DP-2").unwrap();
    assert_eq!(ms.active_monitor_index, 1);
    assert_eq!(
        ms.focused_monitor_changed("DP-9").unwrap_err(),
        Error::UnknownMonitor
    );
    assert_eq!(ms.active_monitor_index, 1);
    ms.focused_monitor_changed_by_num(1);
    assert_eq!(ms.active_monitor_index, 0);
}

#[test]
fn window_tracked_on_one_monitor_only() {
    let mut ms = two_monitors();
    ms.new_window_added("w1".to_string()).unwrap();
    ms.focused_monitor_changed("DP-2").unwrap();
    // the same address cannot appear on the other monitor
    assert_eq!(
        ms.new_window_added("w1".to_string()),
        Err(Error::AlreadyTracked)
    );
    ms.new_window_added("w2".to_string()).unwrap();
    assert_eq!(ms.monitors[0].state.visible_windows().len(), 1);
    assert_eq!(ms.monitors[1].state.visible_windows().len(), 1);
}

#[test]
fn window_removed_acts_on_focused_monitor() {
    let mut ms = two_monitors();
    ms.new_window_added("w1".to_string()).unwrap();
    ms.focused_monitor_changed("DP-2").unwrap();
    // w1 lives on the other monitor: the focused one does not know it
    assert_eq!(
        ms.window_removed("w1".to_string()),
        Err(Error::UnknownWindow)
    );
    ms.focused_monitor_changed("DP-1").unwrap();
    ms.window_removed("w1".to_string()).unwrap();
    assert_eq!(ms.monitors[0].state.visible_windows().len(), 0);
}

#[test]
fn move_window_to_monitor_migrates() {
    let mut ms = two_monitors();
    ms.new_window_added("w1".to_string()).unwrap();
    ms.move_window_to_monitor(1, Some("w1".to_string())).unwrap();
    assert_eq!(ms.monitors[0].state.visible_windows().len(), 0);
    assert_eq!(ms.monitors[1].state.visible_windows().len(), 1);
    assert_eq!(ms.monitors[1].state.find_window_tag_index("w1"), Some(0));

    assert_eq!(
        ms.move_window_to_monitor(1, None).unwrap_err(),
        Error::NoActiveWindow
    );
    assert_eq!(
        ms.move_window_to_monitor(9, Some("w1".to_string())).unwrap_err(),
        Error::MonitorOutOfRange
    );
    assert_eq!(
        ms.move_window_to_monitor(0, Some("ghost".to_string())).unwrap_err(),
        Error::UnknownWindow
    );
}

#[test]
fn delegated_ops_wrap_monitor_index() {
    let mut ms = two_monitors();
    ms.focused_monitor_changed("DP-2").unwrap();
    ms.new_window_added("w".to_string()).unwrap();
    let changes = ms.set_visible_tags(0b10).unwrap();
    assert_eq!(changes.active_monitor_index, 1);
    assert_eq!(changes.changes.window_removed.len(), 1);
    let changes = ms.toggle_tag(1).unwrap();
    assert_eq!(changes.active_monitor_index, 1);
    let changes = ms.restore_prev_tags().unwrap();
    assert_eq!(changes.active_monitor_index, 1);
    let changes = ms.move_window(5, Some("w".to_string())).unwrap();
    assert_eq!(changes.active_monitor_index, 1);
}

#[test]
fn focus_window_changed_adds_unknown_window() {
    let mut ms = two_monitors();
    ms.focus_window_changed("fresh".to_string()).unwrap();
    assert_eq!(ms.monitors[0].state.active_window, Some("fresh".to_string()));
    assert_eq!(ms.monitors[0].state.find_window_tag_index("fresh"), Some(0));

    // a window of the other monitor is refused, not stolen
    ms.focused_monitor_changed("DP-2").unwrap();
    assert_eq!(
        ms.focus_window_changed("fresh".to_string()),
        Err(Error::AlreadyTracked)
    );
    assert!(ms.monitors[1].state.active_window.is_none());
}

#[test]
fn monitor_removed_migrates_windows() {
    let mut ms = two_monitors();
    ms.new_window_added("a".to_string()).unwrap();
    ms.new_window_added("b".to_string()).unwrap();

    let (survivor, survivor_active_tag, windows) = ms.monitor_removed("DP-1").unwrap();
    assert_eq!(survivor, 1);
    assert_eq!(survivor_active_tag, 0);
    assert_eq!(windows, vec!["a".to_string(), "b".to_string()]);
    assert_eq!(ms.monitors.len(), 1);
    assert_eq!(ms.monitors[0].name, "DP-2");
    let visible: Vec<String> = ms.monitors[0]
        .state
        .visible_windows()
        .iter()
        .map(|w| w.addr.clone())
        .collect();
    assert_eq!(visible, vec!["a".to_string(), "b".to_string()]);

    assert_eq!(ms.monitor_removed("DP-1").unwrap_err(), Error::UnknownMonitor);
    assert_eq!(ms.monitor_removed("DP-2").unwrap_err(), Error::LastMonitor);
}

#[test]
fn monitor_added_with_object_appends_and_resets() {
    let mut ms = two_monitors();
    let lines = ms
        .monitor_added_with_object(MonitorInfo { id: 2, name: "HDMI-A-1".to_string(), focused: false, })
        .unwrap();
    assert_eq!(ms.monitors.len(), 3);
    assert_eq!(
        lines,
        vec![
            "dispatch moveworkspacetomonitor 1 DP-1".to_string(),
            "dispatch moveworkspacetomonitor 2 DP-2".to_string(),
            "dispatch moveworkspacetomonitor 3 HDMI-A-1".to_string(),
        ]
    );
    assert_eq!(
        ms.monitor_added_with_object(MonitorInfo { id: 9, name: "DP-2".to_string(), focused: false, })
            .unwrap_err(),
        Error::AlreadyRegistered
    );
}

#[test]
fn workspace_reset_numbers_by_position_not_id() {
    // a monitor whose id diverges from its position: the base workspace
    // follows the position, matching the numbering of the reveal commands
    let ms = MonitorsState::from_infos(vec![
        MonitorInfo { id: 7, name: "DP-3".to_string(), focused: true, },
        MonitorInfo { id: 2, name: "DP-4".to_string(), focused: false, },
    ]);
    assert_eq!(
        ms.reset_monitor_workspaces(),
        vec![
            "dispatch moveworkspacetomonitor 1 DP-3".to_string(),
            "dispatch moveworkspacetomonitor 2 DP-4".to_string(),
        ]
    );
}

#[test]
fn debug_dump_lists_monitors() {
    let ms = two_monitors();
    assert_eq!(
        ms.debug_dump(),
        "Active monitor: 0\n\
         Monitor 0,DP-1:\n  visible: 1 prev: 1 active_tag: 0\n\
         Monitor 1,DP-2:\n  visible: 1 prev: 1 active_tag: 0\n"
    );
}
