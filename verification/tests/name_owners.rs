use a11y_monitor::ids::{Identity, WellKnownName};
use a11y_monitor::name_owners::{NameOwners, OwnershipEvent};

const U1: Identity = Identity(11);
const U2: Identity = Identity(22);
const N: WellKnownName = WellKnownName(1);
const M: WellKnownName = WellKnownName(2);

fn ev(name: WellKnownName, new_owner: Option<Identity>) -> OwnershipEvent {
    OwnershipEvent { name, new_owner }
}

#[test]
fn ownership_tracks_the_latest_event() {
    let mut reg = NameOwners::new(true);
    assert!(!reg.check_owner(U1, &vec![N]));

    reg.apply_event(ev(N, Some(U1)));
    assert!(reg.check_owner(U1, &vec![N]));
    assert!(!reg.check_owner(U2, &vec![N]));
    assert!(!reg.check_owner(U1, &vec![M]));

    reg.apply_event(ev(N, Some(U2)));
    assert!(!reg.check_owner(U1, &vec![N]));
    assert!(reg.check_owner(U2, &vec![N]));
}

#[test]
fn released_name_has_no_owner() {
    let mut reg = NameOwners::new(true);
    reg.apply_events(&vec![ev(N, Some(U1)), ev(N, Some(U2)), ev(N, None)]);
    assert!(!reg.check_owner(U1, &vec![N]));
    assert!(!reg.check_owner(U2, &vec![N]));
}

#[test]
fn release_leaves_other_names_owned() {
    let mut reg = NameOwners::new(true);
    reg.apply_events(&vec![ev(N, Some(U1)), ev(M, Some(U2)), ev(N, None)]);
    assert!(!reg.check_owner(U1, &vec![N]));
    assert!(reg.check_owner(U2, &vec![M]));
}

#[test]
fn one_owned_name_among_the_allowed_suffices() {
    let mut reg = NameOwners::new(true);
    reg.apply_event(ev(M, Some(U1)));
    assert!(reg.check_owner(U1, &vec![N, M]));
    assert!(!reg.check_owner(U1, &vec![N]));
    assert!(!reg.check_owner(U1, &vec![]));
}

#[test]
fn disabled_enforcement_is_always_permissive() {
    let reg = NameOwners::new(false);
    assert!(!reg.enforce());
    // Never fed a single event, yet every query passes.
    assert!(reg.check_owner(U1, &vec![N]));
    assert!(reg.check_owner(U2, &vec![]));
}

#[test]
fn enforcement_flag_is_reported() {
    assert!(NameOwners::new(true).enforce());
    assert!(!NameOwners::new(false).enforce());
}
