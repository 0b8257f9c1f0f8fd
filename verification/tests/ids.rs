use rustty::app::types::{IdCounter, ProfileId, TabId};

#[test]
fn tab_id_uniqueness() {
    let mut ids = IdCounter::new();
    let a = TabId::new(&mut ids);
    let b = TabId::new(&mut ids);
    assert_ne!(a, b);
}

#[test]
fn profile_id_uniqueness() {
    let mut ids = IdCounter::new();
    let a = ProfileId::new(&mut ids);
    let b = ProfileId::new(&mut ids);
    assert_ne!(a, b);
}

#[test]
fn tab_id_as_u64() {
    let mut ids = IdCounter::new();
    let id = TabId::new(&mut ids);
    assert!(id.as_u64() > 0);
}
