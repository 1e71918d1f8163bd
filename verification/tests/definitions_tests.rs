use baras::definitions::{
    DefinitionConfig, DefinitionSet, EffectDefinition, TimerDefinition, TimerTrigger,
};
use baras::tracking::{EffectCategory, EntityFilter};

fn effect(id: &str, name: &str, enabled: bool, ids: Vec<u64>) -> EffectDefinition {
    EffectDefinition {
        id: id.to_string(),
        name: name.to_string(),
        enabled,
        effect_ids: ids,
        refresh_abilities: vec![1014376786034688],
        source: EntityFilter::LocalPlayer,
        target: EntityFilter::GroupMembers,
        duration_secs_bits: Some(20.0f32.to_bits()),
        can_be_refreshed: true,
        category: EffectCategory::Hot,
        color: None,
        max_stacks: 2,
        persist_past_death: false,
        track_outside_combat: true,
        on_apply_trigger_timer: None,
        on_expire_trigger_timer: None,
        encounters: vec![],
        alert_near_expiration: false,
        alert_threshold_secs_bits: 3.0f32.to_bits(),
    }
}

fn timer(id: &str, enabled: bool) -> TimerDefinition {
    TimerDefinition {
        id: id.to_string(),
        name: "Enrage".to_string(),
        enabled,
        trigger: TimerTrigger::CombatStart,
        source: EntityFilter::Any,
        target: EntityFilter::Any,
        duration_secs_bits: 300.0f32.to_bits(),
        can_be_refreshed: false,
        repeats: 0,
        color: [255, 0, 0, 255],
        show_on_raid_frames: false,
        alert_at_secs_bits: None,
        alert_text: None,
        audio_file: None,
        triggers_timer: None,
        encounters: vec![],
        boss: None,
        difficulties: vec![],
    }
}

#[test]
fn effective_color_prefers_override() {
    let mut e = effect("k", "K", true, vec![]);
    assert_eq!(e.effective_color(), [80, 200, 80, 255]);
    e.category = EffectCategory::Shield;
    assert_eq!(e.effective_color(), [220, 180, 50, 255]);
    e.color = Some([1, 2, 3, 4]);
    assert_eq!(e.effective_color(), [1, 2, 3, 4]);
}

#[test]
fn matching_effect_and_refresh_ids() {
    let e = effect("kolto_probe", "Kolto Probe", true, vec![814832605462528]);
    assert!(e.matches_effect(814832605462528));
    assert!(!e.matches_effect(1));
    assert!(e.can_refresh_with(1014376786034688));
    assert!(!e.can_refresh_with(814832605462528));
}

#[test]
fn add_config_reports_duplicates_and_later_wins() {
    let mut set = DefinitionSet::new();
    let builtin = DefinitionConfig {
        effects: vec![effect("a", "Builtin A", true, vec![1]), effect("b", "B", true, vec![2])],
        timers: vec![timer("t", true)],
    };
    assert!(set.add_config(builtin).is_empty());
    let custom = DefinitionConfig {
        effects: vec![effect("a", "Custom A", true, vec![1])],
        timers: vec![timer("t", false), timer("u", true)],
    };
    assert_eq!(set.add_config(custom), vec!["a".to_string(), "t".to_string()]);
    assert_eq!(set.get_effect("a").unwrap().name, "Custom A");
    assert_eq!(set.get_effect("b").unwrap().name, "B");
    assert!(set.get_effect("c").is_none());
    assert!(!set.get_timer("t").unwrap().enabled);
    assert!(set.get_timer("u").is_some());
}

#[test]
fn duplicates_within_one_config() {
    let mut set = DefinitionSet::new();
    let cfg = DefinitionConfig {
        effects: vec![effect("a", "First", true, vec![]), effect("a", "Second", true, vec![])],
        timers: vec![],
    };
    assert_eq!(set.add_config(cfg), vec!["a".to_string()]);
    assert_eq!(set.get_effect("a").unwrap().name, "Second");
}

#[test]
fn find_by_game_id_returns_enabled_matches_once() {
    let mut set = DefinitionSet::new();
    set.add_config(DefinitionConfig {
        effects: vec![
            effect("a", "A", true, vec![5, 6]),
            effect("b", "B", false, vec![5]),
            effect("c", "C", true, vec![5]),
            effect("d", "D", true, vec![7]),
        ],
        timers: vec![timer("t", true), timer("u", false)],
    });
    let mut found: Vec<String> = set.find_effects_by_game_id(5).iter().map(|d| d.id.clone()).collect();
    found.sort();
    assert_eq!(found, vec!["a".to_string(), "c".to_string()]);
    assert!(set.find_effects_by_game_id(99).is_empty());
    let mut enabled: Vec<String> = set.enabled_effects().iter().map(|d| d.id.clone()).collect();
    enabled.sort();
    assert_eq!(enabled, vec!["a".to_string(), "c".to_string(), "d".to_string()]);
    let timers: Vec<String> = set.enabled_timers().iter().map(|d| d.id.clone()).collect();
    assert_eq!(timers, vec!["t".to_string()]);
}

#[test]
fn empty_config_changes_nothing() {
    let mut set = DefinitionSet::new();
    assert!(set.add_config(DefinitionConfig::default()).is_empty());
    assert!(set.enabled_effects().is_empty());
}
