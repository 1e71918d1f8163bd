use baras::timer_form::{default_difficulties, find_boss, new_timer_item, toggle_difficulty};
use baras::types::{BossListItem, TimerTrigger};

fn strings(xs: &[&str]) -> Vec<String> {
    xs.iter().map(|x| x.to_string()).collect()
}

fn boss(id: &str, name: &str) -> BossListItem {
    BossListItem {
        id: id.to_string(),
        name: name.to_string(),
        area_name: "Dxun".to_string(),
        category: "operations".to_string(),
        file_path: "dxun.toml".to_string(),
    }
}

#[test]
fn new_timers_start_on_every_difficulty() {
    assert_eq!(default_difficulties(), strings(&["story", "veteran", "master"]));
}

#[test]
fn toggling_removes_then_appends() {
    let mut ds = default_difficulties();
    toggle_difficulty(&mut ds, "story");
    assert_eq!(ds, strings(&["veteran", "master"]));
    toggle_difficulty(&mut ds, "story");
    assert_eq!(ds, strings(&["veteran", "master", "story"]));
}

#[test]
fn toggling_removes_every_copy() {
    let mut ds = strings(&["master", "story", "master"]);
    toggle_difficulty(&mut ds, "master");
    assert_eq!(ds, strings(&["story"]));
    let mut empty: Vec<String> = Vec::new();
    toggle_difficulty(&mut empty, "veteran");
    assert_eq!(empty, strings(&["veteran"]));
}

#[test]
fn the_first_boss_with_the_id_is_picked() {
    let bosses = vec![boss("a", "Red"), boss("b", "Apex"), boss("b", "Other")];
    assert_eq!(find_boss(&bosses, "b").map(|b| b.name.clone()), Some("Apex".to_string()));
    assert!(find_boss(&bosses, "").is_none());
    assert!(find_boss(&bosses, "c").is_none());
}

#[test]
fn a_new_timer_needs_a_name() {
    let b = boss("b1", "Apex");
    let none = new_timer_item(
        &b,
        String::new(),
        30.0f32.to_bits(),
        [255, 128, 0, 255],
        default_difficulties(),
        TimerTrigger::CombatStart,
    );
    assert!(none.is_none());
    let t = new_timer_item(
        &b,
        "Rocket Salvo".to_string(),
        30.0f32.to_bits(),
        [255, 128, 0, 255],
        strings(&["master"]),
        TimerTrigger::AbilityCast { ability_ids: vec![7] },
    )
    .unwrap();
    assert_eq!(t.timer_id, "");
    assert_eq!(t.boss_id, "b1");
    assert_eq!(t.boss_name, "Apex");
    assert_eq!(t.area_name, "Dxun");
    assert_eq!(t.category, "operations");
    assert_eq!(t.file_path, "dxun.toml");
    assert_eq!(t.name, "Rocket Salvo");
    assert!(t.enabled);
    assert_eq!(f32::from_bits(t.duration_secs_bits), 30.0);
    assert_eq!(t.color, [255, 128, 0, 255]);
    assert!(t.phases.is_empty());
    assert_eq!(t.difficulties, strings(&["master"]));
    assert_eq!(t.trigger.tag_name(), "ability_cast");
    assert!(!t.can_be_refreshed && t.repeats == 0 && t.chains_to.is_none());
    assert!(t.alert_at_secs_bits.is_none() && !t.show_on_raid_frames);
}
