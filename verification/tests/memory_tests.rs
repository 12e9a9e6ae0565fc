use castagne_rs::memory::{CastagneMemory, MemoryValue};
use castagne_rs::state_handle::CastagneStateHandle;

fn int_of(v: Option<MemoryValue>) -> Option<i64> {
    match v {
        Some(MemoryValue::Int(n)) => Some(n),
        _ => None,
    }
}

#[test]
fn memory_global_read_after_write() {
    let mut m = CastagneMemory::new();
    assert!(m.global_get("X").is_none());
    // Without `new_value` a missing key is not created.
    assert!(!m.global_set("X", MemoryValue::Int(1), false));
    assert!(!m.global_has("X"));
    assert!(m.global_set("X", MemoryValue::Int(1), true));
    assert_eq!(int_of(m.global_get("X")), Some(1));
    assert!(m.global_set("X", MemoryValue::Int(2), false));
    assert_eq!(int_of(m.global_get("X")), Some(2));
    m.global_set("Y", MemoryValue::Bool(true), true);
    assert_eq!(int_of(m.global_get("X")), Some(2));
}

#[test]
fn memory_players() {
    let mut m = CastagneMemory::new();
    assert!(m.player_get(0, "HP").is_none());
    assert!(!m.player_set(0, "HP", MemoryValue::Int(5), true));
    assert!(!m.player_has(0, "HP"));
    m.add_player();
    m.add_player();
    assert!(!m.player_set(1, "HP", MemoryValue::Int(5), false));
    assert!(m.player_set(1, "HP", MemoryValue::Int(5), true));
    assert!(m.player_has(1, "HP"));
    assert!(!m.player_has(0, "HP"));
    assert_eq!(int_of(m.player_get(1, "HP")), Some(5));
}

#[test]
fn memory_entities_add_and_remove() {
    let mut m = CastagneMemory::new();
    assert!(!m.is_eid_valid(0));
    assert!(!m.is_eid_valid(-1));
    assert_eq!(m.add_entity(), 0);
    assert_eq!(m.add_entity(), 1);
    assert!(m.is_eid_valid(1));
    assert!(!m.entity_set(1, "HP", MemoryValue::Int(9), false));
    assert!(!m.entity_set(7, "HP", MemoryValue::Int(9), true));
    assert!(m.entity_set(1, "HP", MemoryValue::Int(9), true));
    assert!(m.entity_has(1, "HP"));
    assert_eq!(int_of(m.entity_get(1, "HP")), Some(9));
    m.remove_entity(1);
    assert!(!m.is_eid_valid(1));
    assert!(!m.entity_has(1, "HP"));
    assert_eq!(m.entity_count(), 2);
    // Removing a slot past the end does nothing.
    m.remove_entity(7);
    assert_eq!(m.entity_count(), 2);
    assert!(m.is_eid_valid(0));
}

#[test]
fn memory_copy_from() {
    let mut a = CastagneMemory::new();
    a.global_set("X", MemoryValue::Str("x".to_string()), true);
    a.add_entity();
    let mut b = CastagneMemory::new();
    b.copy_from(&a);
    assert!(b.global_has("X"));
    assert!(b.is_eid_valid(0));
}

#[test]
fn state_handle_context() {
    let mut m = CastagneMemory::new();
    let mut h = CastagneStateHandle::new();
    assert_eq!(h.get_entity_id(), -1);
    assert_eq!(h.get_target_eid(), -1);
    assert_eq!(h.get_player(), -1);
    assert_eq!(h.get_phase(), "None");
    h.set_phase("Action");
    assert_eq!(h.get_phase(), "Action");
    // An entity that does not exist.
    assert!(!h.point_to_entity(&mut m, 3));
    assert_eq!(h.get_entity_id(), 3);
    let e0 = m.add_entity() as i32;
    let e1 = m.add_entity() as i32;
    m.entity_set(e1, "_Player", MemoryValue::Int(1), true);
    m.entity_set(e1, "_TargetEID", MemoryValue::Int(e0 as i64), true);
    assert!(h.point_to_entity(&mut m, e1));
    assert_eq!(h.get_player(), 1);
    assert_eq!(h.get_target_eid(), e0);
    let copy = h.clone_handle();
    assert_eq!(copy.get_entity_id(), e1);
}

#[test]
fn state_handle_target_out_of_range_falls_back_to_self() {
    let mut m = CastagneMemory::new();
    let e0 = m.add_entity() as i32;
    m.entity_set(e0, "_TargetEID", MemoryValue::Int(-1), true);
    let mut h = CastagneStateHandle::new();
    assert!(h.point_to_entity(&mut m, e0));
    // -1 is no slot: the entity targets itself, and records it.
    assert_eq!(h.get_target_eid(), e0);
    assert_eq!(int_of(m.entity_get(e0, "_TargetEID")), Some(e0 as i64));
    h.set_target_entity(&mut m, 42);
    assert_eq!(h.get_target_eid(), e0);
}

#[test]
fn state_handle_adds() {
    let mut m = CastagneMemory::new();
    m.global_set("Frame", MemoryValue::Int(10), true);
    m.global_set("Name", MemoryValue::Str("x".to_string()), true);
    let e0 = m.add_entity() as i32;
    m.entity_set(e0, "HP", MemoryValue::Int(100), true);
    m.add_player();
    m.player_set(0, "Meter", MemoryValue::Int(3), true);
    m.entity_set(e0, "_Player", MemoryValue::Int(0), true);
    let mut h = CastagneStateHandle::new();
    h.point_to_entity(&mut m, e0);
    h.global_add(&mut m, "Frame", 5);
    assert_eq!(int_of(h.global_get(&m, "Frame")), Some(15));
    // A value that is no integer is left alone.
    h.global_add(&mut m, "Name", 5);
    assert!(matches!(h.global_get(&m, "Name"), Some(MemoryValue::Str(_))));
    h.entity_add(&mut m, "HP", -30);
    assert_eq!(int_of(h.entity_get(&m, "HP")), Some(70));
    h.player_add(&mut m, "Meter", 2);
    assert_eq!(int_of(h.player_get(&m, "Meter")), Some(5));
    assert!(h.player_has(&m, "Meter"));
    h.set_target_entity(&mut m, e0);
    h.target_entity_add(&mut m, "HP", 1);
    assert_eq!(int_of(h.target_entity_get(&m, "HP")), Some(71));
    assert!(h.target_entity_has(&m, "HP"));
}

#[test]
fn state_handle_flags() {
    let mut m = CastagneMemory::new();
    let e0 = m.add_entity() as i32;
    m.entity_set(e0, "_Flags", MemoryValue::StringArray(vec!["A".to_string()]), true);
    let mut h = CastagneStateHandle::new();
    h.point_to_entity(&mut m, e0);
    assert!(h.entity_has_flag(&m, "A"));
    assert!(!h.entity_has_flag(&m, "B"));
    h.entity_set_flag(&mut m, "B", true);
    h.entity_set_flag(&mut m, "B", true);
    match h.entity_get(&m, "_Flags") {
        Some(MemoryValue::StringArray(f)) => assert_eq!(f, vec!["A", "B"]),
        other => panic!("unexpected flags: {:?}", other),
    }
    h.entity_set_flag(&mut m, "A", false);
    assert!(!h.entity_has_flag(&m, "A"));
    assert!(h.entity_has_flag(&m, "B"));
}

#[test]
fn state_handle_main_entity() {
    let mut m = CastagneMemory::new();
    let e0 = m.add_entity() as i32;
    m.add_player();
    m.player_set(0, "MainEntity", MemoryValue::Int(e0 as i64), true);
    let mut h = CastagneStateHandle::new();
    assert!(h.point_to_player_main_entity(&mut m, 0));
    assert_eq!(h.get_entity_id(), e0);
    assert!(!h.point_to_player_main_entity(&mut m, 1));
    assert!(!h.point_to_player_main_entity(&mut m, -1));
}
