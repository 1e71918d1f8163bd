use baras::encounter::{CombatState, EncounterBuilder};
use baras::event_models::{CombatEvent, Effect, Timestamp};
use baras::game_ids::{DAMAGE, ENTER_COMBAT, EXIT_COMBAT, HEAL};

fn ev(line: usize, second: u8, millis: u16, id: i64) -> CombatEvent {
    let mut e = CombatEvent::default();
    e.line_number = line;
    e.timestamp = Timestamp { hour: 10, minute: 0, second, millis };
    e.effect = Effect::Standard {
        effect_type_name: "Event".to_string(),
        type_id: 836045448945472,
        name: "x".to_string(),
        id,
    };
    e
}

fn lines(events: &[CombatEvent]) -> Vec<usize> {
    events.iter().map(|e| e.line_number).collect()
}

#[test]
fn builder_starts_idle() {
    let b = EncounterBuilder::new();
    assert_eq!(b.state(), CombatState::Idle);
    assert!(b.current().is_none());
    assert!(b.completed().is_empty());
}

#[test]
fn enter_combat_opens_an_encounter() {
    let mut b = EncounterBuilder::new();
    b.process(ev(1, 0, 0, ENTER_COMBAT));
    assert_eq!(b.state(), CombatState::InCombat);
    assert_eq!(lines(&b.current().unwrap().events), vec![1]);
}

#[test]
fn idle_buffers_non_damage_and_drops_damage() {
    let mut b = EncounterBuilder::new();
    b.process(ev(1, 0, 0, 42));
    b.process(ev(2, 0, 0, DAMAGE));
    b.process(ev(3, 1, 0, ENTER_COMBAT));
    assert_eq!(lines(&b.current().unwrap().events), vec![1, 3]);
}

#[test]
fn idle_buffers_a_pre_combat_heal() {
    let mut b = EncounterBuilder::new();
    b.process(ev(1, 0, 0, !DAMAGE));
    b.process(ev(2, 0, 0, HEAL));
    b.process(ev(3, 1, 0, ENTER_COMBAT));
    assert_eq!(lines(&b.current().unwrap().events), vec![1, 2, 3]);
}

#[test]
fn exit_then_damage_within_threshold_stays() {
    let mut b = EncounterBuilder::new();
    b.process(ev(1, 0, 0, ENTER_COMBAT));
    b.process(ev(2, 1, 0, DAMAGE));
    b.process(ev(3, 2, 0, EXIT_COMBAT));
    let exit = Timestamp { hour: 10, minute: 0, second: 2, millis: 0 };
    assert_eq!(b.state(), CombatState::PostCombat { exit_time: exit });
    b.process(ev(4, 7, 0, DAMAGE));
    assert_eq!(lines(&b.current().unwrap().events), vec![1, 2, 3, 4]);
}

#[test]
fn late_damage_closes_the_encounter() {
    let mut b = EncounterBuilder::new();
    b.process(ev(1, 0, 0, ENTER_COMBAT));
    b.process(ev(2, 2, 0, EXIT_COMBAT));
    b.process(ev(3, 7, 1, DAMAGE));
    assert_eq!(b.state(), CombatState::Idle);
    assert!(b.current().is_none());
    assert_eq!(b.completed().len(), 1);
    assert_eq!(lines(&b.completed()[0].events), vec![1, 2]);
}

#[test]
fn non_damage_after_exit_is_kept_for_the_next_encounter() {
    let mut b = EncounterBuilder::new();
    b.process(ev(1, 0, 0, ENTER_COMBAT));
    b.process(ev(2, 2, 0, EXIT_COMBAT));
    b.process(ev(3, 3, 0, 55));
    assert_eq!(b.state(), CombatState::Idle);
    assert_eq!(b.completed().len(), 1);
    b.process(ev(4, 4, 0, ENTER_COMBAT));
    assert_eq!(lines(&b.current().unwrap().events), vec![3, 4]);
}

#[test]
fn enter_after_exit_starts_a_new_encounter() {
    let mut b = EncounterBuilder::new();
    b.process(ev(1, 0, 0, ENTER_COMBAT));
    b.process(ev(2, 2, 0, EXIT_COMBAT));
    b.process(ev(3, 3, 0, ENTER_COMBAT));
    assert_eq!(b.state(), CombatState::InCombat);
    assert_eq!(b.completed().len(), 1);
    assert_eq!(lines(&b.current().unwrap().events), vec![3]);
}
