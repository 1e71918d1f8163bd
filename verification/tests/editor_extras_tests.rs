use baras::boss_search::{area_headers, move_highlight};
use baras::combat_state::{process_events, CombatStateEvent};
use baras::query::sql_escape;
use baras::raid_registry::RaidSlotRegistry;
use baras::session::SessionCache;
use baras::timer_form::{f32_bits_equal, timer_has_changes, trigger_equal};
use baras::types::{BossListItem, TimerListItem, TimerTrigger};

fn boss(id: &str, area: &str) -> BossListItem {
    BossListItem {
        id: id.to_string(),
        name: id.to_string(),
        area_name: area.to_string(),
        category: "operations".to_string(),
        file_path: "x.toml".to_string(),
    }
}

#[test]
fn area_headers_mark_area_changes() {
    let bs = vec![boss("a", "Dxun"), boss("b", "Dxun"), boss("c", "Gods"), boss("d", "")];
    let refs: Vec<&BossListItem> = bs.iter().collect();
    assert_eq!(area_headers(&refs), vec![true, false, true, true]);
    let blank = vec![boss("e", "")];
    let refs: Vec<&BossListItem> = blank.iter().collect();
    assert_eq!(area_headers(&refs), vec![false]);
}

#[test]
fn highlight_moves_within_the_results() {
    assert_eq!(move_highlight(0, 3, true), 1);
    assert_eq!(move_highlight(2, 3, true), 2);
    assert_eq!(move_highlight(0, 0, true), 0);
    assert_eq!(move_highlight(2, 3, false), 1);
    assert_eq!(move_highlight(0, 3, false), 0);
}

#[test]
fn quotes_are_doubled_for_sql() {
    assert_eq!(sql_escape("O'Brien"), "O''Brien");
    assert_eq!(sql_escape("''"), "''''");
    assert_eq!(sql_escape("plain"), "plain");
}

#[test]
fn float_equality_on_bits() {
    assert!(f32_bits_equal(1.5f32.to_bits(), 1.5f32.to_bits()));
    assert!(f32_bits_equal(0.0f32.to_bits(), (-0.0f32).to_bits()));
    assert!(!f32_bits_equal(f32::NAN.to_bits(), f32::NAN.to_bits()));
    assert!(!f32_bits_equal(1.0f32.to_bits(), 2.0f32.to_bits()));
}

fn item(duration: f32, trigger: TimerTrigger) -> TimerListItem {
    TimerListItem {
        timer_id: "t".to_string(),
        boss_id: "b".to_string(),
        boss_name: "Boss".to_string(),
        area_name: "Dxun".to_string(),
        category: "operations".to_string(),
        file_path: "x.toml".to_string(),
        name: "Stomp".to_string(),
        enabled: true,
        duration_secs_bits: duration.to_bits(),
        color: [1, 2, 3, 4],
        phases: vec![],
        difficulties: vec!["story".to_string()],
        trigger,
        can_be_refreshed: false,
        repeats: 0,
        chains_to: None,
        alert_at_secs_bits: None,
        show_on_raid_frames: false,
    }
}

fn hp(p: f32) -> TimerTrigger {
    TimerTrigger::BossHpBelow { hp_percent_bits: p.to_bits(), npc_id: Some(3), boss_name: None }
}

#[test]
fn unsaved_changes() {
    let saved = item(10.0, TimerTrigger::AllOf { conditions: vec![hp(50.0), TimerTrigger::CombatStart] });
    let same = item(10.0, TimerTrigger::AllOf { conditions: vec![hp(50.0), TimerTrigger::CombatStart] });
    assert!(!timer_has_changes(&same, &saved));
    let other = item(10.0, TimerTrigger::AllOf { conditions: vec![hp(40.0), TimerTrigger::CombatStart] });
    assert!(timer_has_changes(&other, &saved));
    let longer = item(12.0, TimerTrigger::AllOf { conditions: vec![hp(50.0), TimerTrigger::CombatStart] });
    assert!(timer_has_changes(&longer, &saved));
    let mut renamed = item(10.0, TimerTrigger::CombatStart);
    renamed.name = "Beam".to_string();
    assert!(timer_has_changes(&renamed, &item(10.0, TimerTrigger::CombatStart)));
    let nan = item(f32::NAN, TimerTrigger::CombatStart);
    assert!(timer_has_changes(&nan, &item(f32::NAN, TimerTrigger::CombatStart)));
    assert!(!trigger_equal(&TimerTrigger::AnyOf { conditions: vec![] }, &TimerTrigger::AllOf { conditions: vec![] }));
}

#[test]
fn registry_counts_players() {
    let mut r = RaidSlotRegistry::new(2);
    assert_eq!(r.try_register(1, "a".to_string()), Some(0));
    assert_eq!(r.try_register(2, "b".to_string()), Some(1));
    assert_eq!(r.try_register(3, "c".to_string()), None);
    assert_eq!(r.len(), 2);
    r.swap_slots(0, 1);
    assert_eq!(r.len(), 2);
    r.remove_slot(0);
    assert_eq!(r.len(), 1);
    r.remove_slot(0);
    assert_eq!(r.len(), 1);
    assert_eq!(r.max_slots(), 2);
}

#[test]
fn no_session_no_signals() {
    let mut none: Option<SessionCache> = None;
    assert!(process_events(&mut none, &Vec::new()).is_empty());
    assert!(none.is_none());
    let mut some = Some(SessionCache::new());
    assert!(process_events(&mut some, &Vec::<CombatStateEvent>::new()).is_empty());
    assert!(some.is_some());
}
