use baras::overlay_control::{refresh_config_targets, show_all_overlays};
use baras::settings_edit::{move_stat_down, move_stat_up, profile_name_to_create, IntSetting};
use baras::types::{MetricType, OverlayType};

fn keys(ks: &[&str]) -> Vec<String> {
    ks.iter().map(|k| k.to_string()).collect()
}

#[test]
fn show_all_marks_visible_and_saves_unplaced_monitors() {
    let enabled = keys(&["personal", "dps", "raid"]);
    let running = vec![OverlayType::Raid];
    let plan = show_all_overlays(&enabled, &running, &keys(&["dps"]));
    assert!(plan.overlays_visible);
    assert_eq!(plan.save_monitor, keys(&["personal"]));
    let plan = show_all_overlays(&enabled, &Vec::new(), &Vec::new());
    assert_eq!(plan.save_monitor, keys(&["personal", "dps", "raid"]));
}

#[test]
fn refreshed_windows_get_their_settings() {
    let running = vec![OverlayType::Metric(MetricType::Hps), OverlayType::Timers, OverlayType::Raid];
    let targets = refresh_config_targets(&running, &keys(&["raid"]));
    let got: Vec<(OverlayType, String, bool)> =
        targets.into_iter().map(|t| (t.kind, t.key, t.send_position)).collect();
    assert_eq!(
        got,
        vec![
            (OverlayType::Metric(MetricType::Hps), "hps".to_string(), false),
            (OverlayType::Raid, "raid".to_string(), true),
        ]
    );
}

#[test]
fn new_profile_names() {
    assert_eq!(profile_name_to_create("  Raid night ", 2, 10), Some("Raid night".to_string()));
    assert_eq!(profile_name_to_create("   ", 0, 10), None);
    assert_eq!(profile_name_to_create("Full", 10, 10), None);
}

#[test]
fn whole_number_settings_are_clamped() {
    assert_eq!(IntSetting::GridColumns.accept(0), 1);
    assert_eq!(IntSetting::GridColumns.accept(9), 4);
    assert_eq!(IntSetting::GridRows.accept(5), 5);
    assert_eq!(IntSetting::MaxEffectsPerFrame.accept(200), 8);
    assert_eq!(IntSetting::MaxEntries.accept(16), 16);
    assert_eq!(IntSetting::MaxEntries.accept(17), 16);
}

#[test]
fn stats_move_up_and_down() {
    let mut v = vec!['a', 'b', 'c'];
    move_stat_up(&mut v, 0);
    assert_eq!(v, vec!['a', 'b', 'c']);
    move_stat_up(&mut v, 2);
    assert_eq!(v, vec!['a', 'c', 'b']);
    move_stat_down(&mut v, 2);
    assert_eq!(v, vec!['a', 'c', 'b']);
    move_stat_down(&mut v, 0);
    assert_eq!(v, vec!['c', 'a', 'b']);
}
