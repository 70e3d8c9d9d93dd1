use hyprtag::state::{window_diff, State, WindowInfo};
use hyprtag::Error;

fn sorted(v: Vec<String>) -> Vec<String> {
    let mut v = v.clone();
    v.sort();
    v
}

#[test]
fn simple_test() {
    let mut state = State::new();

    state.new_window_added("terminal".into()).unwrap();
    state.new_window_added("firefox".into()).unwrap();
    assert_eq!(
        state
            .visible_windows()
            .iter()
            .map(|w| w.addr.clone())
            .collect::<Vec<String>>(),
        vec!["terminal", "firefox"]
    );

    let changes = state.set_visible_tags(1 << 1).unwrap();
    assert_eq!(state.visible_windows().len(), 0);
    assert_eq!(changes.window_added.len(), 0);
    assert_eq!(
        sorted(changes.window_removed.iter().map(|w| w.addr.clone()).collect()),
        sorted(vec!["terminal".to_string(), "firefox".to_string()])
    );

    state.set_visible_tags(1 << 0).unwrap();
    assert_eq!(
        state
            .visible_windows()
            .iter()
            .map(|w| w.addr.clone())
            .collect::<Vec<String>>(),
        vec!["terminal", "firefox"]
    );

    state.move_window(2, Some("firefox".into())).unwrap();
    assert_eq!(
        state
            .visible_windows()
            .iter()
            .map(|w| w.addr.clone())
            .collect::<Vec<String>>(),
        vec!["terminal"]
    );

    state.set_visible_tags(1 << 1).unwrap();
    assert_eq!(
        state
            .visible_windows()
            .iter()
            .map(|w| w.addr.clone())
            .collect::<Vec<String>>(),
        vec!["firefox"]
    );

    state.set_visible_tags(1 << 0 | 1 << 1).unwrap();
    assert_eq!(
        state
            .visible_windows()
            .iter()
            .map(|w| w.addr.clone())
            .collect::<Vec<String>>(),
        vec!["terminal", "firefox"]
    );
}

#[test]
fn toggle_tag() {
    let mut state = State::new();

    state.new_window_added("terminal".into()).unwrap();
    state.new_window_added("firefox".into()).unwrap();
    state.new_window_added("emacs".into()).unwrap();

    state.move_window(2, Some("firefox".into())).unwrap();
    state.move_window(3, Some("emacs".into())).unwrap();

    assert_eq!(state.visible_windows().len(), 1);
    assert_eq!(state.visible_tags(), 0b01);

    state.toggle_tag(2).unwrap();
    assert_eq!(state.visible_windows().len(), 2);
    assert_eq!(state.visible_tags(), 0b11);

    state.toggle_tag(3).unwrap();
    assert_eq!(state.visible_windows().len(), 3);
    assert_eq!(state.visible_tags(), 0b111);

    state.toggle_tag(2).unwrap();
    assert_eq!(state.visible_windows().len(), 2);
    assert_eq!(state.visible_tags(), 0b101);
}

#[test]
fn new_window_on_empty_tag() {
    let mut state = State::new();

    state.new_window_added("terminal".into()).unwrap();

    assert_eq!(state.visible_windows().len(), 1);
    state.set_visible_tags(0b10).unwrap();
    assert_eq!(state.visible_windows().len(), 0);
    assert_eq!(state.active_tag_index, 1);

    state.new_window_added("firefox".into()).unwrap();
    assert_eq!(state.visible_windows().len(), 1);

    state.set_visible_tags(0b1).unwrap();
    assert_eq!(state.visible_windows().len(), 1);
}

#[test]
fn active_tag_index() {
    let mut state = State::new();

    state.focus_window_changed("terminal".into()).unwrap();
    assert_eq!(state.visible_windows().len(), 1);
    assert!(state.active_window.is_some());
    assert_eq!(state.active_tag_index, 0);

    state.set_visible_tags(1 << 1).unwrap();
    assert_eq!(state.visible_windows().len(), 0);
    assert_eq!(state.active_tag_index, 1);
    assert!(state.active_window.is_none());
}

#[test]
fn toggle_twice_restores_mask() {
    let mut state = State::new();
    state.new_window_added("terminal".into()).unwrap();
    let before = state.visible_tags();
    state.toggle_tag(5).unwrap();
    assert_ne!(state.visible_tags(), before);
    state.toggle_tag(5).unwrap();
    assert_eq!(state.visible_tags(), before);
}

#[test]
fn restore_returns_to_previous_mask() {
    let mut state = State::new();
    state.set_visible_tags(0b100).unwrap();
    state.set_visible_tags(0b1010).unwrap();
    state.restore_prev_tags().unwrap();
    assert_eq!(state.visible_tags(), 0b100);
    // a second restore swaps back
    state.restore_prev_tags().unwrap();
    assert_eq!(state.visible_tags(), 0b1010);
}

#[test]
fn move_back_returns_to_original_tag() {
    let mut state = State::new();
    state.new_window_added("terminal".into()).unwrap();
    assert_eq!(state.find_window_tag_index("terminal"), Some(0));
    state.move_window(7, Some("terminal".into())).unwrap();
    assert_eq!(state.find_window_tag_index("terminal"), Some(6));
    state.move_window(1, Some("terminal".into())).unwrap();
    assert_eq!(state.find_window_tag_index("terminal"), Some(0));
}

#[test]
fn changes_are_disjoint_and_apply() {
    let mut state = State::new();
    state.new_window_added("a".into()).unwrap();
    state.new_window_added("b".into()).unwrap();
    state.move_window(2, Some("b".into())).unwrap();
    state.new_window_added("c".into()).unwrap();

    let before: Vec<String> = state.visible_windows().iter().map(|w| w.addr.clone()).collect();
    let changes = state.set_visible_tags(0b10).unwrap();
    let after: Vec<String> = state.visible_windows().iter().map(|w| w.addr.clone()).collect();

    let added: Vec<String> = changes.window_added.iter().map(|w| w.addr.clone()).collect();
    let removed: Vec<String> = changes.window_removed.iter().map(|w| w.addr.clone()).collect();

    // added and removed never share an address
    for a in added.iter() {
        assert!(!removed.contains(a));
    }
    // applying the update to the old snapshot yields the new one
    let mut applied: Vec<String> = before.iter().filter(|a| !removed.contains(a)).cloned().collect();
    applied.extend(added.iter().cloned());
    assert_eq!(sorted(applied), sorted(after));

    assert_eq!(sorted(added.clone()), vec!["b".to_string()]);
    assert_eq!(sorted(removed.clone()), vec!["a".to_string(), "c".to_string()]);
}

#[test]
fn focus_moves_to_first_window_of_lowest_visible_tag() {
    let mut state = State::new();
    state.new_window_added("one".into()).unwrap();
    state.new_window_added("two".into()).unwrap();
    state.move_window(3, Some("two".into())).unwrap();
    state.focus_window_changed("one".into()).unwrap();

    // tag 1 is hidden: focus falls to the first window of the lowest
    // visible non-empty tag
    let changes = state.set_visible_tags(0b110).unwrap();
    assert_eq!(changes.focus, Some("two".to_string()));
    assert!(state.active_window.is_none());
    assert_eq!(state.active_tag_index, 1);
}

#[test]
fn focus_kept_when_active_window_stays_visible() {
    let mut state = State::new();
    state.focus_window_changed("keepme".into()).unwrap();
    let changes = state.set_visible_tags(0b11).unwrap();
    assert_eq!(changes.focus, Some("keepme".to_string()));
    assert_eq!(state.active_window, Some("keepme".to_string()));
    assert_eq!(state.active_tag_index, 0);
}

#[test]
fn removing_active_window_clears_it() {
    let mut state = State::new();
    state.focus_window_changed("gone".into()).unwrap();
    assert_eq!(state.active_window, Some("gone".to_string()));
    state.window_removed("gone".into()).unwrap();
    assert!(state.active_window.is_none());
    assert_eq!(state.visible_windows().len(), 0);
}

#[test]
fn state_error_variants() {
    let mut state = State::new();
    state.new_window_added("w".into()).unwrap();

    assert_eq!(state.new_window_added("w".into()), Err(Error::AlreadyTracked));
    assert_eq!(state.window_removed("nope".into()), Err(Error::UnknownWindow));
    assert_eq!(state.set_visible_tags(0).unwrap_err(), Error::MaskEmpty);
    assert_eq!(state.toggle_tag(1).unwrap_err(), Error::MaskEmpty);
    assert_eq!(state.toggle_tag(0).unwrap_err(), Error::TagOutOfRange);
    assert_eq!(state.toggle_tag(33).unwrap_err(), Error::TagOutOfRange);
    assert_eq!(state.move_window(0, None).unwrap_err(), Error::TagOutOfRange);
    assert_eq!(state.move_window(2, None).unwrap_err(), Error::NoActiveWindow);
    assert_eq!(
        state.move_window(2, Some("nope".into())).unwrap_err(),
        Error::UnknownWindow
    );
    assert_eq!(state.move_window(1, Some("w".into())).unwrap_err(), Error::SameTag);

    // none of the failures changed anything
    assert_eq!(state.visible_tags(), 1);
    let visible: Vec<String> = state.visible_windows().iter().map(|w| w.addr.clone()).collect();
    assert_eq!(visible, vec!["w".to_string()]);
}

#[test]
fn window_diff_is_addr_set_difference() {
    let a = vec![
        WindowInfo { addr: "x".to_string(), tag: 1 },
        WindowInfo { addr: "y".to_string(), tag: 1 },
    ];
    let b = vec![
        WindowInfo { addr: "y".to_string(), tag: 2 },
        WindowInfo { addr: "z".to_string(), tag: 2 },
    ];
    let (added, removed) = window_diff(a, b);
    let added: Vec<String> = added.iter().map(|w| w.addr.clone()).collect();
    let removed: Vec<String> = removed.iter().map(|w| w.addr.clone()).collect();
    assert_eq!(added, vec!["z".to_string()]);
    assert_eq!(removed, vec!["x".to_string()]);
}

#[test]
fn dump_has_exact_format() {
    let state = State::new();
    assert_eq!(state.debug_dump(), "  visible: 1 prev: 1 active_tag: 0\n");
}
