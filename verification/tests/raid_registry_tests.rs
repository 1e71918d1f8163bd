use baras::raid_registry::{RaidRegistryAction, RaidSlotRegistry, RegisteredPlayer};

fn names(r: &RaidSlotRegistry) -> Vec<(u8, String)> {
    r.iter().into_iter().map(|(s, p)| (s, p.name.clone())).collect()
}

#[test]
fn registered_player_starts_without_class() {
    let p = RegisteredPlayer::new(5, "Ayla".to_string());
    assert_eq!(p.entity_id, 5);
    assert_eq!(p.name, "Ayla");
    assert_eq!(p.class_id, None);
    assert_eq!(p.discipline_id, None);
}

#[test]
fn players_fill_the_lowest_free_slots() {
    let mut r = RaidSlotRegistry::new(3);
    assert!(r.is_empty());
    assert_eq!(r.try_register(10, "A".to_string()), Some(0));
    assert_eq!(r.try_register(11, "B".to_string()), Some(1));
    assert_eq!(r.try_register(10, "A again".to_string()), None);
    assert_eq!(r.len(), 2);
    r.remove_slot(0);
    assert_eq!(r.try_register(12, "C".to_string()), Some(0));
    assert_eq!(r.try_register(13, "D".to_string()), Some(2));
    assert_eq!(r.try_register(14, "E".to_string()), None);
    assert_eq!(r.max_slots(), 3);
    assert_eq!(names(&r), vec![(0, "C".to_string()), (1, "B".to_string()), (2, "D".to_string())]);
}

#[test]
fn lookups_agree_with_registration() {
    let mut r = RaidSlotRegistry::new(8);
    r.try_register(10, "A".to_string());
    assert_eq!(r.get_slot(10), Some(0));
    assert!(r.is_registered(10));
    assert_eq!(r.get_player(0).unwrap().entity_id, 10);
    assert_eq!(r.get_slot(99), None);
    assert!(r.get_player(5).is_none());
}

#[test]
fn swapping_twice_restores_the_slots() {
    let mut r = RaidSlotRegistry::new(8);
    r.try_register(10, "A".to_string());
    r.try_register(11, "B".to_string());
    r.swap_slots(0, 1);
    assert_eq!(r.get_slot(10), Some(1));
    assert_eq!(r.get_slot(11), Some(0));
    r.swap_slots(0, 1);
    assert_eq!(names(&r), vec![(0, "A".to_string()), (1, "B".to_string())]);
}

#[test]
fn swapping_with_an_empty_slot_moves_the_player() {
    let mut r = RaidSlotRegistry::new(8);
    r.try_register(10, "A".to_string());
    r.swap_slots(0, 5);
    assert_eq!(r.get_slot(10), Some(5));
    assert!(r.get_player(0).is_none());
    assert_eq!(r.len(), 1);
}

#[test]
fn removed_player_is_no_longer_registered() {
    let mut r = RaidSlotRegistry::new(8);
    r.try_register(10, "A".to_string());
    r.remove_slot(0);
    assert!(!r.is_registered(10));
    assert!(r.is_empty());
    r.remove_slot(3);
    assert!(r.is_empty());
}

#[test]
fn updates_change_only_the_player() {
    let mut r = RaidSlotRegistry::new(8);
    r.try_register(10, "A".to_string());
    r.update_discipline(10, 16, 2031339142381593);
    r.update_name(10, "Renamed".to_string());
    r.update_name(99, "Nobody".to_string());
    let p = r.get_player(0).unwrap();
    assert_eq!(p.class_id, Some(16));
    assert_eq!(p.discipline_id, Some(2031339142381593));
    assert_eq!(p.name, "Renamed");
    assert_eq!(r.len(), 1);
}

#[test]
fn clear_empties_everything() {
    let mut r = RaidSlotRegistry::new(4);
    r.try_register(10, "A".to_string());
    r.try_register(11, "B".to_string());
    r.clear();
    assert!(r.is_empty());
    assert!(!r.is_registered(10));
    assert_eq!(r.max_slots(), 4);
}

#[test]
fn registry_actions_apply_in_order() {
    let mut r = RaidSlotRegistry::new(8);
    r.try_register(10, "A".to_string());
    r.try_register(11, "B".to_string());
    r.apply_registry_actions(&[RaidRegistryAction::SwapSlots(0, 1), RaidRegistryAction::ClearSlot(0)]);
    assert!(!r.is_registered(11));
    assert_eq!(r.get_slot(10), Some(1));
    assert_eq!(r.len(), 1);
}
