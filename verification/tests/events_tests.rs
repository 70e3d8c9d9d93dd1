use hyprtag::events::{handle_ctrl, handle_event_stream, parse_ctrl, parse_line, parse_u8, Ctrl};
use hyprtag::monitor::{MonitorInfo, MonitorsState};

fn one_monitor() -> MonitorsState {
    MonitorsState::from_infos(vec![MonitorInfo {
        id: 0,
        name: "DP-1".to_string(),
        focused: true,
    }])
}

#[test]
fn test_parse_line() {
    let line = "openwindow>>12345\n";

    let (command, id, extra) = parse_line(line).unwrap();
    assert_eq!(command, "openwindow");
    assert_eq!(id, "12345");
    assert_eq!(extra, "");

    let line = "movewindow>>123456,2\n";

    let (command, id, extra) = parse_line(line).unwrap();
    assert_eq!(command, "movewindow");
    assert_eq!(id, "123456");
    assert_eq!(extra, "2");
}

#[test]
fn parse_line_edge_shapes() {
    let (command, id, extra) = parse_line("noargs\n").unwrap();
    assert_eq!(command, "noargs");
    assert_eq!(id, "");
    assert_eq!(extra, "");

    // only the chunk up to the second separator carries arguments
    let (command, id, extra) = parse_line("a>>b,c,d>>e\n").unwrap();
    assert_eq!(command, "a");
    assert_eq!(id, "b");
    assert_eq!(extra, "c");

    let (command, id, extra) = parse_line("\n").unwrap();
    assert_eq!(command, "");
    assert_eq!(id, "");
    assert_eq!(extra, "");
}

#[test]
fn parse_u8_reads_like_std() {
    assert_eq!(parse_u8("0"), Some(0));
    assert_eq!(parse_u8("32"), Some(32));
    assert_eq!(parse_u8("255"), Some(255));
    assert_eq!(parse_u8("+7"), Some(7));
    assert_eq!(parse_u8("007"), Some(7));
    assert_eq!(parse_u8("256"), None);
    assert_eq!(parse_u8("99999999999999999999"), None);
    assert_eq!(parse_u8(""), None);
    assert_eq!(parse_u8("+"), None);
    assert_eq!(parse_u8("-3"), None);
    assert_eq!(parse_u8("3a"), None);
    assert_eq!(parse_u8(" 3"), None);
}

#[test]
fn parse_ctrl_commands() {
    assert!(matches!(parse_ctrl("show 3\n"), Some(Ctrl::ShowTag(3))));
    assert!(matches!(parse_ctrl("toggle 12\r\n"), Some(Ctrl::ToggleTag(12))));
    assert!(matches!(parse_ctrl("move 2\n"), Some(Ctrl::MoveToTag(2, None))));
    assert!(matches!(parse_ctrl("restore\n"), Some(Ctrl::RestorePrevTags)));
    assert!(matches!(
        parse_ctrl("move_to_next_monitor\n"),
        Some(Ctrl::MoveToNextMonitor)
    ));

    assert!(parse_ctrl("show\n").is_none());
    assert!(parse_ctrl("show x\n").is_none());
    assert!(parse_ctrl("show 300\n").is_none());
    assert!(parse_ctrl("bogus 1\n").is_none());
    assert!(parse_ctrl("\n").is_none());
}

#[test]
fn event_stream_drives_the_state() {
    let mut ms = one_monitor();

    handle_event_stream(&mut ms, "openwindow>>abc\n");
    assert_eq!(ms.monitors[0].state.find_window_tag_index("abc"), Some(0));

    // a second open of the same address is dropped
    handle_event_stream(&mut ms, "openwindow>>abc\n");
    assert_eq!(ms.monitors[0].state.visible_windows().len(), 1);

    handle_event_stream(&mut ms, "activewindowv2>>xyz\n");
    assert_eq!(ms.monitors[0].state.active_window, Some("xyz".to_string()));
    assert_eq!(ms.monitors[0].state.visible_windows().len(), 2);

    handle_event_stream(&mut ms, "closewindow>>abc\n");
    assert_eq!(ms.monitors[0].state.find_window_tag_index("abc"), None);

    // unknown events and empty arguments are ignored
    handle_event_stream(&mut ms, "somethingelse>>zzz\n");
    handle_event_stream(&mut ms, "openwindow>>\n");
    assert_eq!(ms.monitors[0].state.visible_windows().len(), 1);
}

#[test]
fn focusedmon_event_changes_focus() {
    let mut ms = MonitorsState::from_infos(vec![
        MonitorInfo { id: 0, name: "DP-1".to_string(), focused: true, },
        MonitorInfo { id: 1, name: "DP-2".to_string(), focused: false, },
    ]);
    handle_event_stream(&mut ms, "focusedmon>>DP-2,1\n");
    assert_eq!(ms.active_monitor_index, 1);
    handle_event_stream(&mut ms, "focusedmon>>DP-9,1\n");
    assert_eq!(ms.active_monitor_index, 1);
}

#[test]
fn show_emits_park_and_focus_commands() {
    let mut ms = one_monitor();
    handle_ctrl(&mut ms, Ctrl::ShowTag(1));
    handle_event_stream(&mut ms, "openwindow>>aa11\n");
    handle_event_stream(&mut ms, "openwindow>>bb22\n");

    // hide tag 1, show tag 2: both windows park on workspace 1 + 100
    let lines = handle_ctrl(&mut ms, Ctrl::ShowTag(2));
    assert_eq!(
        lines,
        vec![
            "dispatch movetoworkspacesilent 101,address:0xaa11".to_string(),
            "dispatch movetoworkspacesilent 101,address:0xbb22".to_string(),
        ]
    );

    // back to tag 1: both windows return to the visible workspace, and the
    // first window of the lowest visible tag takes focus
    let lines = handle_ctrl(&mut ms, Ctrl::ShowTag(1));
    assert_eq!(
        lines,
        vec![
            "dispatch movetoworkspacesilent 1,address:0xaa11".to_string(),
            "dispatch movetoworkspacesilent 1,address:0xbb22".to_string(),
            "dispatch focuswindow address:0xaa11".to_string(),
        ]
    );
}

#[test]
fn move_command_emits_silent_updates_only() {
    let mut ms = one_monitor();
    handle_event_stream(&mut ms, "openwindow>>aa11\n");
    // the hidden window parks under the tag it was visible on
    let lines = handle_ctrl(&mut ms, Ctrl::MoveToTag(3, Some("aa11".to_string())));
    assert_eq!(
        lines,
        vec!["dispatch movetoworkspacesilent 101,address:0xaa11".to_string()]
    );

    // moving it again to the same tag fails and emits nothing
    let lines = handle_ctrl(&mut ms, Ctrl::MoveToTag(3, Some("aa11".to_string())));
    assert!(lines.is_empty());

    // an out-of-range tag is dropped
    let lines = handle_ctrl(&mut ms, Ctrl::ShowTag(0));
    assert!(lines.is_empty());
    let lines = handle_ctrl(&mut ms, Ctrl::ToggleTag(40));
    assert!(lines.is_empty());
}

#[test]
fn toggle_and_restore_round_trip() {
    let mut ms = one_monitor();
    handle_event_stream(&mut ms, "openwindow>>aa11\n");
    handle_ctrl(&mut ms, Ctrl::MoveToTag(2, Some("aa11".to_string())));

    let lines = handle_ctrl(&mut ms, Ctrl::ToggleTag(2));
    assert_eq!(ms.monitors[0].state.visible_tags(), 0b11);
    assert_eq!(
        lines,
        vec![
            "dispatch movetoworkspacesilent 1,address:0xaa11".to_string(),
            "dispatch focuswindow address:0xaa11".to_string(),
        ]
    );

    handle_ctrl(&mut ms, Ctrl::RestorePrevTags);
    assert_eq!(ms.monitors[0].state.visible_tags(), 0b1);
}

#[test]
fn parking_workspaces_are_disjoint_per_monitor() {
    let mut ms = MonitorsState::from_infos(vec![
        MonitorInfo { id: 0, name: "DP-1".to_string(), focused: false, },
        MonitorInfo { id: 1, name: "DP-2".to_string(), focused: true, },
    ]);
    handle_event_stream(&mut ms, "openwindow>>cc33\n");

    // monitor index 1: parking for tag 1 is 1 + 100 + 32
    let lines = handle_ctrl(&mut ms, Ctrl::ShowTag(32));
    assert_eq!(
        lines,
        vec!["dispatch movetoworkspacesilent 133,address:0xcc33".to_string()]
    );
    assert_eq!(ms.monitors[1].state.visible_tags(), 1 << 31);

    // revealing on monitor index 1 targets workspace 2
    let lines = handle_ctrl(&mut ms, Ctrl::ShowTag(1));
    assert_eq!(
        lines,
        vec![
            "dispatch movetoworkspacesilent 2,address:0xcc33".to_string(),
            "dispatch focuswindow address:0xcc33".to_string(),
        ]
    );
}

#[test]
fn move_to_next_monitor_emits_switch_then_migrates() {
    let mut ms = MonitorsState::from_infos(vec![
        MonitorInfo { id: 0, name: "DP-1".to_string(), focused: true, },
        MonitorInfo { id: 1, name: "DP-2".to_string(), focused: false, },
    ]);
    handle_event_stream(&mut ms, "activewindowv2>>aa11\n");
    // the next monitor has index 1, so its visible workspace is 2
    let lines = handle_ctrl(&mut ms, Ctrl::MoveToNextMonitor);
    assert_eq!(lines, vec!["dispatch movetoworkspace 2".to_string()]);
    assert_eq!(ms.monitors[0].state.find_window_tag_index("aa11"), None);
    assert_eq!(ms.monitors[1].state.find_window_tag_index("aa11"), Some(0));

    // with no active window the switch is still emitted, the state unchanged
    let lines = handle_ctrl(&mut ms, Ctrl::MoveToNextMonitor);
    assert_eq!(lines, vec!["dispatch movetoworkspace 2".to_string()]);
    assert_eq!(ms.monitors[1].state.find_window_tag_index("aa11"), Some(0));
}
