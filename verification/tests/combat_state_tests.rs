use baras::combat_state::{
    advance_combat_state, is_within_grace_window, tick_combat_state, tick_combat_state_at,
    CombatStateEvent, GameSignal,
};
use baras::event_models::EntityType;
use baras::game_ids::{APPLY_EFFECT, AREA_ENTERED, DAMAGE, ENTER_COMBAT, EXIT_COMBAT, HEAL};
use baras::session::{EncounterState, SessionCache};

fn event(line: usize, t: i64, effect_id: i64, effect_type_id: i64) -> CombatStateEvent {
    CombatStateEvent {
        line_number: line,
        timestamp: t,
        effect_id,
        effect_type_id,
        source_log_id: 1,
        source_type: EntityType::Player,
        target_type: EntityType::Npc,
    }
}

fn state(cache: &SessionCache) -> EncounterState {
    cache.current_encounter().unwrap().state
}

fn current_id(cache: &SessionCache) -> u64 {
    cache.current_encounter().unwrap().id
}

#[test]
fn entering_combat_starts_the_current_encounter() {
    let mut cache = SessionCache::new();
    let (signals, acc) = advance_combat_state(&event(1, 1000, ENTER_COMBAT, 0), &mut cache);
    assert_eq!(signals, vec![GameSignal::CombatStarted { timestamp: 1000, encounter_id: 0 }]);
    assert!(acc);
    assert_eq!(state(&cache), EncounterState::InCombat);
    assert_eq!(cache.current_encounter().unwrap().enter_combat_time, Some(1000));
}

#[test]
fn damage_before_combat_is_skipped_other_events_are_buffered() {
    let mut cache = SessionCache::new();
    let (signals, acc) = advance_combat_state(&event(1, 500, DAMAGE, APPLY_EFFECT), &mut cache);
    assert!(signals.is_empty());
    assert!(!acc);
    let (signals, acc) = advance_combat_state(&event(2, 600, 42, 0), &mut cache);
    assert!(signals.is_empty());
    assert!(acc);
    assert_eq!(cache.current_encounter().unwrap().accumulated_lines, vec![2]);
    assert_eq!(state(&cache), EncounterState::NotStarted);
}

#[test]
fn damage_and_heal_mark_combat_activity() {
    let mut cache = SessionCache::new();
    advance_combat_state(&event(1, 1000, ENTER_COMBAT, 0), &mut cache);
    let (signals, acc) = advance_combat_state(&event(2, 2000, DAMAGE, APPLY_EFFECT), &mut cache);
    assert!(signals.is_empty());
    assert!(acc);
    assert_eq!(cache.current_encounter().unwrap().last_combat_activity_time, Some(2000));
    advance_combat_state(&event(3, 2500, HEAL, APPLY_EFFECT), &mut cache);
    assert_eq!(cache.current_encounter().unwrap().last_combat_activity_time, Some(2500));
    advance_combat_state(&event(4, 2600, 77, 0), &mut cache);
    assert_eq!(cache.current_encounter().unwrap().last_combat_activity_time, Some(2500));
}

#[test]
fn exit_opens_a_grace_window_without_signals() {
    let mut cache = SessionCache::new();
    advance_combat_state(&event(1, 1000, ENTER_COMBAT, 0), &mut cache);
    let (signals, acc) = advance_combat_state(&event(2, 3000, EXIT_COMBAT, 0), &mut cache);
    assert!(signals.is_empty());
    assert!(!acc);
    assert_eq!(state(&cache), EncounterState::PostCombat { exit_time: 3000 });
    assert_eq!(cache.last_exit(), Some(3000));
    assert_eq!(is_within_grace_window(&cache, 3900), Some(1));
    assert_eq!(is_within_grace_window(&cache, 4999), Some(1));
    assert_eq!(is_within_grace_window(&cache, 5000), None);
}

#[test]
fn fake_exit_is_merged_into_the_same_encounter() {
    let mut cache = SessionCache::new();
    advance_combat_state(&event(1, 1000, ENTER_COMBAT, 0), &mut cache);
    advance_combat_state(&event(2, 3000, EXIT_COMBAT, 0), &mut cache);
    let (signals, acc) = advance_combat_state(&event(3, 3500, ENTER_COMBAT, 0), &mut cache);
    assert!(signals.is_empty());
    assert!(!acc);
    assert_eq!(state(&cache), EncounterState::InCombat);
    assert_eq!(current_id(&cache), 0);
    assert_eq!(cache.encounter_count(), 1);
    assert_eq!(cache.current_encounter().unwrap().exit_combat_time, None);
}

#[test]
fn second_exit_within_grace_ends_combat_at_the_first_exit() {
    let mut cache = SessionCache::new();
    advance_combat_state(&event(1, 1000, ENTER_COMBAT, 0), &mut cache);
    advance_combat_state(&event(2, 3000, EXIT_COMBAT, 0), &mut cache);
    advance_combat_state(&event(3, 3500, ENTER_COMBAT, 0), &mut cache);
    let (signals, _) = advance_combat_state(&event(4, 3800, EXIT_COMBAT, 0), &mut cache);
    assert_eq!(signals, vec![GameSignal::CombatEnded { timestamp: 3000, encounter_id: 0 }]);
    assert_eq!(current_id(&cache), 1);
    assert_eq!(state(&cache), EncounterState::NotStarted);
    assert_eq!(cache.last_exit(), None);
    let old = cache.encounter_by_id(0).unwrap();
    assert_eq!(old.exit_combat_time, Some(3000));
}

#[test]
fn damage_after_grace_closes_the_encounter_and_is_dropped() {
    let mut cache = SessionCache::new();
    advance_combat_state(&event(1, 1000, ENTER_COMBAT, 0), &mut cache);
    advance_combat_state(&event(2, 3000, EXIT_COMBAT, 0), &mut cache);
    let (signals, acc) = advance_combat_state(&event(3, 9000, DAMAGE, APPLY_EFFECT), &mut cache);
    assert_eq!(signals, vec![GameSignal::CombatEnded { timestamp: 3000, encounter_id: 0 }]);
    assert!(!acc);
    assert_eq!(current_id(&cache), 1);
    assert!(cache.current_encounter().unwrap().accumulated_lines.is_empty());
}

#[test]
fn event_after_grace_goes_to_the_next_encounter() {
    let mut cache = SessionCache::new();
    advance_combat_state(&event(1, 1000, ENTER_COMBAT, 0), &mut cache);
    advance_combat_state(&event(2, 3000, EXIT_COMBAT, 0), &mut cache);
    let (signals, acc) = advance_combat_state(&event(3, 9000, 55, 0), &mut cache);
    assert_eq!(signals, vec![GameSignal::CombatEnded { timestamp: 3000, encounter_id: 0 }]);
    assert!(acc);
    assert_eq!(current_id(&cache), 1);
    assert_eq!(cache.current_encounter().unwrap().accumulated_lines, vec![3]);
}

#[test]
fn enter_after_grace_ends_old_and_starts_new_encounter() {
    let mut cache = SessionCache::new();
    advance_combat_state(&event(1, 1000, ENTER_COMBAT, 0), &mut cache);
    advance_combat_state(&event(2, 3000, EXIT_COMBAT, 0), &mut cache);
    let (signals, acc) = advance_combat_state(&event(3, 20000, ENTER_COMBAT, 0), &mut cache);
    assert_eq!(
        signals,
        vec![
            GameSignal::CombatEnded { timestamp: 3000, encounter_id: 0 },
            GameSignal::CombatStarted { timestamp: 20000, encounter_id: 1 },
        ]
    );
    assert!(acc);
    assert_eq!(state(&cache), EncounterState::InCombat);
}

#[test]
fn inactivity_timeout_ends_combat_at_last_activity() {
    let mut cache = SessionCache::new();
    advance_combat_state(&event(1, 0, ENTER_COMBAT, 0), &mut cache);
    advance_combat_state(&event(2, 1000, DAMAGE, APPLY_EFFECT), &mut cache);
    let (signals, acc) = advance_combat_state(&event(3, 62000, 99, 0), &mut cache);
    assert_eq!(signals, vec![GameSignal::CombatEnded { timestamp: 1000, encounter_id: 0 }]);
    // Re-handled in the new encounter, before combat: buffered there.
    assert!(acc);
    assert_eq!(current_id(&cache), 1);
    assert_eq!(cache.current_encounter().unwrap().accumulated_lines, vec![3]);
}

#[test]
fn just_under_timeout_stays_in_combat() {
    let mut cache = SessionCache::new();
    advance_combat_state(&event(1, 0, ENTER_COMBAT, 0), &mut cache);
    advance_combat_state(&event(2, 1000, DAMAGE, APPLY_EFFECT), &mut cache);
    let (signals, _) = advance_combat_state(&event(3, 60999, 99, 0), &mut cache);
    assert!(signals.is_empty());
    assert_eq!(state(&cache), EncounterState::InCombat);
}

#[test]
fn entering_an_area_ends_combat() {
    let mut cache = SessionCache::new();
    advance_combat_state(&event(1, 1000, ENTER_COMBAT, 0), &mut cache);
    let (signals, acc) = advance_combat_state(&event(2, 5000, 7, AREA_ENTERED), &mut cache);
    assert_eq!(signals, vec![GameSignal::CombatEnded { timestamp: 5000, encounter_id: 0 }]);
    assert!(!acc);
    assert_eq!(current_id(&cache), 1);
}

#[test]
fn re_entering_combat_mid_fight_is_recorded() {
    let mut cache = SessionCache::new();
    advance_combat_state(&event(1, 1000, ENTER_COMBAT, 0), &mut cache);
    let (signals, acc) = advance_combat_state(&event(2, 2000, ENTER_COMBAT, 0), &mut cache);
    assert!(signals.is_empty());
    assert!(acc);
    assert_eq!(state(&cache), EncounterState::InCombat);
}

#[test]
fn tick_closes_an_expired_grace_window() {
    let mut cache = SessionCache::new();
    advance_combat_state(&event(1, 1000, ENTER_COMBAT, 0), &mut cache);
    advance_combat_state(&event(2, 10000, EXIT_COMBAT, 0), &mut cache);
    assert!(tick_combat_state_at(&mut cache, 11000).is_empty());
    let signals = tick_combat_state_at(&mut cache, 12000);
    assert_eq!(signals, vec![GameSignal::CombatEnded { timestamp: 10000, encounter_id: 0 }]);
    assert_eq!(current_id(&cache), 1);
    assert_eq!(cache.last_exit(), None);
}

#[test]
fn tick_times_out_idle_combat() {
    let mut cache = SessionCache::new();
    advance_combat_state(&event(1, 0, ENTER_COMBAT, 0), &mut cache);
    advance_combat_state(&event(2, 5000, DAMAGE, APPLY_EFFECT), &mut cache);
    assert!(tick_combat_state_at(&mut cache, 30000).is_empty());
    let signals = tick_combat_state_at(&mut cache, 65000);
    assert_eq!(signals, vec![GameSignal::CombatEnded { timestamp: 5000, encounter_id: 0 }]);
    assert_eq!(current_id(&cache), 1);
}

#[test]
fn tick_on_a_fresh_session_does_nothing() {
    let mut cache = SessionCache::new();
    assert!(tick_combat_state(&mut cache).is_empty());
    assert_eq!(current_id(&cache), 0);
}

#[test]
fn effect_applications_are_tracked() {
    let mut cache = SessionCache::new();
    advance_combat_state(&event(1, 1000, ENTER_COMBAT, 0), &mut cache);
    advance_combat_state(&event(2, 2000, 12345, APPLY_EFFECT), &mut cache);
    assert_eq!(cache.current_encounter().unwrap().applied_effect_lines, vec![2]);
}

#[test]
fn processing_many_events_collects_their_signals_in_order() {
    let mut cache = Some(SessionCache::new());
    let events = vec![event(1, 1000, ENTER_COMBAT, 0), event(2, 1500, DAMAGE, APPLY_EFFECT)];
    let signals = baras::combat_state::process_events(&mut cache, &events);
    assert_eq!(signals, vec![GameSignal::CombatStarted { timestamp: 1000, encounter_id: 0 }]);
    assert_eq!(state(cache.as_ref().unwrap()), EncounterState::InCombat);
}
