use baras::combat_state::{CombatStateEvent, GameSignal};
use baras::event_models::EntityType;
use baras::game_ids::ENTER_COMBAT;
use baras::parsing_session::{log_session_start, parse_log_timestamp, ParsingSession};

// chrono reads `%f` as nanoseconds, so `123456` is well under a millisecond.
#[test]
fn the_session_date_comes_from_the_file_name() {
    assert_eq!(log_session_start("combat_2024-01-15_20_30_45_123456"), Some(1705350645000));
    assert_eq!(log_session_start("combat_combat_2024-01-15_20_30_45_123456"), Some(1705350645000));
    assert_eq!(log_session_start("2024-01-15_20_30_45_123456"), Some(1705350645000));
    assert_eq!(log_session_start("combat_notadate"), None);
    assert_eq!(
        parse_log_timestamp("/logs/combat_2024-01-15_20_30_45_123456.txt"),
        Some(1705350645000)
    );
    assert_eq!(parse_log_timestamp("/"), None);
}

#[test]
fn a_new_session_follows_its_file() {
    let s = ParsingSession::new("/logs/combat_2024-01-15_20_30_45_123456.txt".to_string());
    assert_eq!(s.current_byte, None);
    assert_eq!(s.active_file.as_deref(), Some("/logs/combat_2024-01-15_20_30_45_123456.txt"));
    assert_eq!(s.game_session_date, Some(1705350645000));
    assert!(s.session_cache.is_some());
    assert!(s.handlers().is_empty());
}

fn enter(line: usize, t: i64) -> CombatStateEvent {
    CombatStateEvent {
        line_number: line,
        timestamp: t,
        effect_id: ENTER_COMBAT,
        effect_type_id: 0,
        source_log_id: 1,
        source_type: EntityType::Player,
        target_type: EntityType::Npc,
    }
}

#[test]
fn every_handler_gets_all_signals_once_in_order() {
    let mut s = ParsingSession::new("combat_x.txt".to_string());
    s.add_signal_handler(7);
    s.add_signal_handler(3);
    let sent = s.process_events(&vec![enter(1, 1000)]);
    let started = vec![GameSignal::CombatStarted { timestamp: 1000, encounter_id: 0 }];
    assert_eq!(sent, vec![(7, started.clone()), (3, started)]);
}

#[test]
fn without_a_cache_handlers_get_nothing() {
    let mut s = ParsingSession::new("combat_x.txt".to_string());
    s.session_cache = None;
    s.add_signal_handler(1);
    assert_eq!(s.process_events(&vec![enter(1, 1000)]), vec![(1, vec![])]);
}
