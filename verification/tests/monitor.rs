use a11y_monitor::a11y_keyboard_monitor::{A11yKeyboardMonitorState, KeyEventNotification};
use a11y_monitor::ids::Identity;

const A: Identity = Identity(1);
const B: Identity = Identity(2);

#[test]
fn grab_is_idempotent_and_ungrab_clears() {
    let mut state = A11yKeyboardMonitorState::new();
    assert!(!state.has_keyboard_grab());
    state.grab_keyboard(Some(A));
    state.grab_keyboard(Some(A));
    assert!(state.has_keyboard_grab());
    state.ungrab_keyboard(Some(A));
    state.ungrab_keyboard(Some(A));
    assert!(!state.has_keyboard_grab());
}

#[test]
fn two_clients_grab_then_both_release() {
    let mut state = A11yKeyboardMonitorState::new();
    state.grab_keyboard(Some(A));
    state.grab_keyboard(Some(B));
    assert!(state.has_keyboard_grab());
    state.ungrab_keyboard(Some(A));
    assert!(state.has_keyboard_grab());
    state.ungrab_keyboard(Some(B));
    assert!(!state.has_keyboard_grab());
}

#[test]
fn call_without_sender_is_a_no_op() {
    let mut state = A11yKeyboardMonitorState::new();
    state.grab_keyboard(None);
    state.watch_keyboard(None);
    state.set_key_grabs(None, vec![100], vec![(5, 0)]);
    assert!(!state.has_keyboard_grab());
    assert!(!state.has_virtual_mod(100));
    assert!(!state.has_key_grab(0, 5));
}

#[test]
fn key_grab_requires_exact_virtual_mod_set() {
    let mut state = A11yKeyboardMonitorState::new();
    // One grab: key 55, real mods 0b11, virtual mods {100, 200}
    // (bits 15 and 16 select indices 0 and 1 of the declared list).
    let raw: u32 = 0b11 | (1 << 15) | (1 << 16);
    state.set_key_grabs(Some(A), vec![100, 200], vec![(55, raw)]);

    // Active set {100} is a strict subset: no match.
    state.add_active_virtual_mod(100);
    assert!(!state.has_key_grab(0b11, 55));

    // Active set {100, 200} is exactly equal: match.
    state.add_active_virtual_mod(200);
    assert!(state.has_key_grab(0b11, 55));

    // Active set {100, 200, 300} is a strict superset: no match.
    state.add_active_virtual_mod(300);
    assert!(!state.has_key_grab(0b11, 55));

    assert!(state.remove_active_virtual_mod(300));
    assert!(state.has_key_grab(0b11, 55));
    assert!(!state.remove_active_virtual_mod(300));

    // Same virtual mods, wrong key or wrong real mask: no match.
    assert!(!state.has_key_grab(0b11, 56));
    assert!(!state.has_key_grab(0b10, 55));
}

#[test]
fn set_key_grabs_replaces_not_merges() {
    let mut state = A11yKeyboardMonitorState::new();
    state.set_key_grabs(Some(A), vec![], vec![(10, 0b1)]);
    assert!(state.has_key_grab(0b1, 10));
    state.set_key_grabs(Some(A), vec![], vec![(20, 0b10)]);
    assert!(!state.has_key_grab(0b1, 10));
    assert!(state.has_key_grab(0b10, 20));
}

#[test]
fn declared_virtual_mods_are_replaced_too() {
    let mut state = A11yKeyboardMonitorState::new();
    state.set_key_grabs(Some(A), vec![100, 200], vec![]);
    assert!(state.has_virtual_mod(100));
    assert!(state.has_virtual_mod(200));
    assert!(!state.has_virtual_mod(300));
    state.set_key_grabs(Some(A), vec![300], vec![]);
    assert!(!state.has_virtual_mod(100));
    assert!(state.has_virtual_mod(300));
}

#[test]
fn key_event_broadcast_decision() {
    let mut state = A11yKeyboardMonitorState::new();
    // Not serving yet: no broadcast even with a watcher.
    state.watch_keyboard(Some(A));
    assert_eq!(state.key_event(false, 0, 65, 97, 38), None);

    state.mark_serving();
    let expected = KeyEventNotification {
        released: false,
        layout: 0,
        keysym: 65,
        unichar: 97,
        keycode: 38,
    };
    assert_eq!(state.key_event(false, 0, 65, 97, 38), Some(expected));

    // A released event carries the flag through unaltered.
    let released = KeyEventNotification { released: true, ..expected };
    assert_eq!(state.key_event(true, 0, 65, 97, 38), Some(released));

    // Nobody watching: no broadcast is constructed.
    state.unwatch_keyboard(Some(A));
    assert_eq!(state.key_event(false, 0, 65, 97, 38), None);
}

#[test]
fn watcher_state_is_per_client() {
    let mut state = A11yKeyboardMonitorState::new();
    state.mark_serving();
    state.watch_keyboard(Some(A));
    state.unwatch_keyboard(Some(B));
    assert!(state.key_event(false, 1, 2, 3, 4).is_some());
    state.unwatch_keyboard(Some(A));
    assert!(state.key_event(false, 1, 2, 3, 4).is_none());
}

#[test]
fn remove_client_drops_its_session() {
    let mut state = A11yKeyboardMonitorState::new();
    state.grab_keyboard(Some(A));
    state.set_key_grabs(Some(A), vec![100], vec![(5, 1)]);
    assert!(state.has_keyboard_grab());
    assert!(state.has_virtual_mod(100));
    assert!(state.remove_client(A));
    assert!(!state.has_keyboard_grab());
    assert!(!state.has_virtual_mod(100));
    assert!(!state.remove_client(A));
}
