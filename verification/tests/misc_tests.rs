use baras::app_state::{resolve_log_path, AppConfig, AppState};
use baras::color::parse_hex_color;
use baras::parsely::{find_subslice, parse_parsely_response};
use baras::rotation::{group_into_gcd_slots, split_into_cycles, GcdSlot, RotationEvent};
use baras::tracking::{default_timer_color, default_true, EffectCategory, EffectTracker, EntityFilter};
use baras::types::{MetricType, TimerTrigger};

#[test]
fn parsely_error_reply() {
    let r = parse_parsely_response("<status>NOT OK</status>").unwrap();
    assert!(!r.success);
    assert_eq!(r.link, None);
    assert_eq!(r.error.as_deref(), Some("<status>NOT OK</status>"));
    let r = parse_parsely_response("an error happened <file>x</file>").unwrap();
    assert!(!r.success);
}

#[test]
fn parsely_link_reply() {
    let r = parse_parsely_response("<status>OK</status><file>https://parsely.io/parser/view/123</file>").unwrap();
    assert!(r.success);
    assert_eq!(r.link.as_deref(), Some("https://parsely.io/parser/view/123"));
    assert_eq!(r.error, None);
}

#[test]
fn parsely_unexpected_reply() {
    let r = parse_parsely_response("<status>OK</status>").unwrap();
    assert!(!r.success);
    assert_eq!(r.error.as_deref(), Some("Unexpected response: <status>OK</status>"));
}

#[test]
fn substring_search_finds_first() {
    assert_eq!(find_subslice(b"abcabc", b"bc"), Some(1));
    assert_eq!(find_subslice(b"abc", b"abcd"), None);
    assert_eq!(find_subslice(b"abc", b""), Some(0));
    assert_eq!(find_subslice(b"abc", b"x"), None);
}

#[test]
fn hex_colors() {
    assert_eq!(parse_hex_color("#ff8000"), Some([255, 128, 0, 255]));
    assert_eq!(parse_hex_color("##A0b1C2ignored"), Some([160, 177, 194, 255]));
    assert_eq!(parse_hex_color("#+f0000"), Some([15, 0, 0, 255]));
    assert_eq!(parse_hex_color("#fff"), None);
    assert_eq!(parse_hex_color("#gg0000"), None);
    assert_eq!(parse_hex_color(""), None);
}

fn ev(id: i64) -> RotationEvent {
    RotationEvent { time_secs_bits: 0, ability_id: id, ability_name: format!("a{}", id) }
}

fn slot(id: i64, weaves: &[i64]) -> GcdSlot {
    GcdSlot { gcd_ability: ev(id), off_gcd: weaves.iter().map(|w| ev(*w)).collect() }
}

fn shape(cycles: &[baras::rotation::RotationCycle]) -> Vec<Vec<i64>> {
    cycles.iter().map(|c| c.slots.iter().map(|s| s.gcd_ability.ability_id).collect()).collect()
}

#[test]
fn cycles_split_at_anchor() {
    let slots = vec![slot(1, &[]), slot(9, &[]), slot(2, &[]), slot(9, &[]), slot(3, &[])];
    let cycles = split_into_cycles(slots, 9);
    assert_eq!(shape(&cycles), vec![vec![1], vec![9, 2], vec![9, 3]]);
    assert!(cycles.iter().all(|c| c.hit_count == 0 && c.crit_count == 0 && c.duration_secs_bits == 0));
}

#[test]
fn anchor_as_weave_and_at_start() {
    let slots = vec![slot(9, &[]), slot(1, &[]), slot(2, &[9]), slot(3, &[])];
    let cycles = split_into_cycles(slots, 9);
    assert_eq!(shape(&cycles), vec![vec![9, 1], vec![2, 3]]);
}

#[test]
fn no_slots_no_cycles() {
    assert!(split_into_cycles(vec![], 9).is_empty());
    let cycles = split_into_cycles(vec![slot(1, &[]), slot(2, &[])], 9);
    assert_eq!(shape(&cycles), vec![vec![1, 2]]);
}

#[test]
fn app_config_default_directory() {
    assert_eq!(AppConfig::default().log_directory, "/home/prescott/baras/test-log-files/");
    let s = AppState::default();
    assert!(s.events.is_empty());
    assert_eq!(s.active_file, None);
}

#[test]
fn relative_paths_are_joined_to_the_log_directory() {
    let config = AppConfig { log_directory: "/logs".to_string() };
    assert_eq!(resolve_log_path(&config, "combat_1.txt"), "/logs/combat_1.txt");
    assert_eq!(resolve_log_path(&config, "/abs/combat.txt"), "/abs/combat.txt");
    let mut s = AppState::with_config(config);
    assert_eq!(s.set_active_file("a.txt"), "/logs/a.txt");
    assert_eq!(s.active_file.as_deref(), Some("/logs/a.txt"));
    assert_eq!(s.set_active_file("/b.txt"), "/b.txt");
    assert_eq!(s.active_file.as_deref(), Some("/b.txt"));
}

#[test]
fn labels_and_option_lists() {
    assert_eq!(EntityFilter::Specific("x".to_string()).label(), "Specific");
    assert_eq!(EntityFilter::GroupMembersExceptLocal.label(), "Group (Except Local)");
    assert_eq!(EntityFilter::source_options().len(), 6);
    assert_eq!(EntityFilter::target_options()[1], EntityFilter::GroupMembers);
    assert_eq!(EffectCategory::all().len(), 7);
    assert_eq!(EffectCategory::Hot.label(), "HoT");
    assert_eq!(EffectCategory::Mechanic.default_color(), [255, 140, 60, 255]);
    assert!(default_true());
    assert_eq!(default_timer_color(), [200, 200, 200, 255]);
    assert_eq!(MetricType::all().len(), 8);
    let t = TimerTrigger::AllOf { conditions: vec![TimerTrigger::CombatStart] };
    assert_eq!(t.label(), "All Of (AND)");
    assert_eq!(t.tag_name(), "all_of");
    assert_eq!(TimerTrigger::BossHpBelow { hp_percent_bits: 0, npc_id: None, boss_name: None }.tag_name(), "boss_hp_below");
    let _tracker = EffectTracker::new();
}

fn cast(t: f32, id: i64) -> RotationEvent {
    RotationEvent { time_secs_bits: t.to_bits(), ability_id: id, ability_name: format!("a{id}") }
}

fn within_gcd(start: u32, time: u32) -> bool {
    (f32::from_bits(time) - f32::from_bits(start)) < 0.6
}

#[test]
fn gcd_slots_take_weaves_before_the_gcd_ability() {
    let events = vec![cast(0.0, 1), cast(0.1, 2), cast(0.5, 3), cast(1.5, 4), cast(3.0, 5), cast(3.59, 6)];
    let slots = group_into_gcd_slots(&events, within_gcd);
    let shape: Vec<(i64, Vec<i64>)> = slots
        .iter()
        .map(|s| (s.gcd_ability.ability_id, s.off_gcd.iter().map(|e| e.ability_id).collect()))
        .collect();
    assert_eq!(shape, vec![(3, vec![1, 2]), (4, vec![]), (6, vec![5])]);
}

#[test]
fn gcd_slot_window_is_measured_from_the_slot_start() {
    let events = vec![cast(0.0, 1), cast(0.4, 2), cast(0.8, 3)];
    let slots = group_into_gcd_slots(&events, within_gcd);
    assert_eq!(slots.len(), 2);
    assert_eq!(slots[0].gcd_ability.ability_id, 2);
    assert_eq!(slots[1].gcd_ability.ability_id, 3);
    assert!(group_into_gcd_slots(&Vec::new(), within_gcd).is_empty());
}
