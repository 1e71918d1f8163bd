use baras::overlay_control::{
    get_overlay_status, overlay_kind_for_key, refresh_overlay_settings, running_metric_types,
    show_all_overlays, toggle_move_mode, toggle_raid_rearrange, OverlayModes, OverlayStep,
};
use baras::types::{MetricType, OverlayType};

fn keys(ks: &[&str]) -> Vec<String> {
    ks.iter().map(|k| k.to_string()).collect()
}

#[test]
fn metric_config_keys_round_trip() {
    for m in MetricType::all() {
        assert_eq!(MetricType::from_config_key(m.config_key()), Some(m));
    }
    assert_eq!(MetricType::from_config_key("personal"), None);
    assert_eq!(MetricType::from_config_key("DPS"), None);
}

#[test]
fn overlay_kinds_by_key() {
    assert_eq!(overlay_kind_for_key("personal"), Some(OverlayType::Personal));
    assert_eq!(overlay_kind_for_key("raid"), Some(OverlayType::Raid));
    assert_eq!(overlay_kind_for_key("boss_health"), Some(OverlayType::BossHealth));
    assert_eq!(overlay_kind_for_key("hps"), Some(OverlayType::Metric(MetricType::Hps)));
    assert_eq!(overlay_kind_for_key("timers"), None);
}

#[test]
fn show_all_starts_what_is_not_up() {
    let enabled = keys(&["dps", "personal", "raid", "hps", "unknown", "dps"]);
    let running = vec![OverlayType::Raid, OverlayType::Metric(MetricType::Hps)];
    let plan = show_all_overlays(&enabled, &running, &Vec::new());
    assert_eq!(
        plan.spawn,
        vec![OverlayType::Metric(MetricType::Dps), OverlayType::Personal]
    );
    assert_eq!(
        plan.shown_metrics,
        vec![MetricType::Dps, MetricType::Hps, MetricType::Dps]
    );
}

#[test]
fn show_all_with_nothing_enabled() {
    let plan = show_all_overlays(&Vec::new(), &vec![OverlayType::Personal], &Vec::new());
    assert!(plan.spawn.is_empty());
    assert!(plan.shown_metrics.is_empty());
}

#[test]
fn refresh_follows_flags_and_restarts_raid() {
    let enabled = keys(&["personal", "edps", "boss_health"]);
    let running = vec![OverlayType::Metric(MetricType::Dps), OverlayType::Raid];
    let steps = refresh_overlay_settings(&enabled, &running);
    assert_eq!(
        steps,
        vec![
            OverlayStep::Start(OverlayType::Personal),
            OverlayStep::Stop(OverlayType::Metric(MetricType::Dps)),
            OverlayStep::Start(OverlayType::Metric(MetricType::EDps)),
            OverlayStep::Stop(OverlayType::Raid),
            OverlayStep::Start(OverlayType::Raid),
            OverlayStep::Start(OverlayType::BossHealth),
        ]
    );
}

#[test]
fn refresh_starts_enabled_raid_and_leaves_matching_overlays() {
    let enabled = keys(&["raid", "tps"]);
    let running = vec![OverlayType::Metric(MetricType::Tps)];
    let steps = refresh_overlay_settings(&enabled, &running);
    assert_eq!(steps, vec![OverlayStep::Start(OverlayType::Raid)]);
    let none = refresh_overlay_settings(&Vec::new(), &Vec::new());
    assert!(none.is_empty());
}

#[test]
fn move_mode_needs_a_window() {
    let modes = OverlayModes { move_mode: false, rearrange_mode: true };
    let r = toggle_move_mode(modes, false);
    assert_eq!(r.err(), Some("No overlays running".to_string()));
}

#[test]
fn move_mode_on_ends_rearranging_and_off_saves_positions() {
    let modes = OverlayModes { move_mode: false, rearrange_mode: true };
    let on = toggle_move_mode(modes, true).ok().unwrap();
    assert_eq!(on.modes, OverlayModes { move_mode: true, rearrange_mode: false });
    assert!(on.end_rearrange);
    assert!(!on.save_positions);
    let off = toggle_move_mode(on.modes, true).ok().unwrap();
    assert_eq!(off.modes, OverlayModes { move_mode: false, rearrange_mode: false });
    assert!(!off.end_rearrange);
    assert!(off.save_positions);
}

#[test]
fn rearrange_needs_the_raid_overlay() {
    let modes = OverlayModes { move_mode: true, rearrange_mode: false };
    assert_eq!(toggle_raid_rearrange(modes, false), (modes, false));
    let (after, on) = toggle_raid_rearrange(modes, true);
    assert!(on);
    assert_eq!(after, OverlayModes { move_mode: true, rearrange_mode: true });
    assert_eq!(toggle_raid_rearrange(after, true).1, false);
}

#[test]
fn status_reports_running_and_enabled() {
    let running = vec![
        OverlayType::Personal,
        OverlayType::Metric(MetricType::Abs),
        OverlayType::Metric(MetricType::Dtps),
    ];
    assert_eq!(
        running_metric_types(&running),
        vec![MetricType::Abs, MetricType::Dtps]
    );
    let enabled = keys(&["abs", "raid", "ehps", "bogus"]);
    let modes = OverlayModes { move_mode: true, rearrange_mode: false };
    let st = get_overlay_status(&running, &enabled, true, modes);
    assert_eq!(st.running, vec![MetricType::Abs, MetricType::Dtps]);
    assert_eq!(st.enabled, vec![MetricType::Abs, MetricType::EHps]);
    assert!(st.personal_running && !st.personal_enabled);
    assert!(!st.raid_running && st.raid_enabled);
    assert!(!st.boss_health_running && !st.boss_health_enabled);
    assert!(st.overlays_visible && st.move_mode && !st.rearrange_mode);
}
