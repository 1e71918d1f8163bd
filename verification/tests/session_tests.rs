use baras::session::{EncounterState, SessionCache, CACHE_DEFAULT_CAPACITY};

#[test]
fn new_session_has_one_fresh_encounter() {
    let cache = SessionCache::new();
    assert_eq!(cache.encounter_count(), 1);
    assert_eq!(cache.next_id(), 1);
    let e = cache.current_encounter().unwrap();
    assert_eq!(e.id, 0);
    assert_eq!(e.state, EncounterState::NotStarted);
    assert_eq!(e.local_player, None);
    assert_eq!(cache.player_state(), (0, false));
}

#[test]
fn pushing_keeps_only_the_latest_encounters() {
    let mut cache = SessionCache::new();
    for expected in 1..=5u64 {
        assert_eq!(cache.push_new_encounter(), expected);
    }
    assert_eq!(cache.encounter_count(), CACHE_DEFAULT_CAPACITY);
    let ids: Vec<u64> = cache.encounters().iter().map(|e| e.id).collect();
    assert_eq!(ids, vec![3, 4, 5]);
    assert!(cache.encounter_by_id(2).is_none());
    assert_eq!(cache.encounter_by_id(4).unwrap().id, 4);
    assert_eq!(cache.current_encounter().unwrap().id, 5);
}

#[test]
fn last_combat_encounter_skips_unstarted_ones() {
    let mut cache = SessionCache::new();
    assert!(cache.last_combat_encounter().is_none());
    let mut e = cache.take_current().unwrap();
    e.state = EncounterState::InCombat;
    cache.restore_current(e);
    cache.push_new_encounter();
    assert_eq!(cache.last_combat_encounter().unwrap().id, 0);
}

#[test]
fn grace_exit_time_is_kept_until_cleared() {
    let mut cache = SessionCache::new();
    cache.set_last_combat_exit_time(Some(1234));
    assert_eq!(cache.last_exit(), Some(1234));
    cache.set_last_combat_exit_time(None);
    assert_eq!(cache.last_exit(), None);
}
