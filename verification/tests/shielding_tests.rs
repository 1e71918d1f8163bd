use baras::session::{EffectInstance, Encounter};
use baras::shielding::{is_shield_active_at, ShieldedHit, SHIELD_GRACE_PERIOD_MS};

fn shield(source: i64, applied: i64, removed: Option<i64>) -> EffectInstance {
    EffectInstance {
        effect_id: 1,
        source_id: source,
        target_id: 100,
        applied_at: applied,
        removed_at: removed,
        is_shield: true,
        has_absorbed: false,
    }
}

fn hit(t: i64, amount: i32, effective: i32, absorbed: i32) -> ShieldedHit {
    ShieldedHit { target_id: 100, timestamp: t, dmg_amount: amount, dmg_effective: effective, dmg_absorbed: absorbed }
}

fn shielding(enc: &Encounter, source: i64) -> Option<i64> {
    enc.accumulated_data.get(&source).map(|a| a.shielding_given)
}

#[test]
fn shield_activity_window() {
    let s = shield(1, 0, Some(10_000));
    assert!(is_shield_active_at(&s, 9_000));
    assert!(is_shield_active_at(&s, 10_000));
    assert!(is_shield_active_at(&s, 10_000 + SHIELD_GRACE_PERIOD_MS));
    assert!(!is_shield_active_at(&s, 10_000 + SHIELD_GRACE_PERIOD_MS + 1));
    assert!(is_shield_active_at(&shield(1, 0, None), i64::MAX));
    assert!(!is_shield_active_at(&shield(1, 0, Some(i64::MIN)), i64::MAX));
}

#[test]
fn single_shield_gets_all_absorption() {
    let mut enc = Encounter::new(0);
    enc.effects.insert(100, vec![shield(7, 1000, None)]);
    enc.attribute_shield_absorption(&hit(2000, 500, 200, 300));
    assert_eq!(shielding(&enc, 7), Some(300));
    assert!(!enc.effects[&100][0].has_absorbed);
}

#[test]
fn removed_shield_that_let_damage_through_is_used_up() {
    let mut enc = Encounter::new(0);
    enc.effects.insert(100, vec![shield(7, 1000, Some(2500))]);
    enc.attribute_shield_absorption(&hit(2000, 500, 200, 300));
    assert!(enc.effects[&100][0].has_absorbed);
    // A used-up shield takes no further credit.
    enc.attribute_shield_absorption(&hit(2100, 500, 200, 300));
    assert_eq!(shielding(&enc, 7), Some(300));
}

#[test]
fn two_shields_split_by_age() {
    let mut enc = Encounter::new(0);
    // Listed newest first: the older one (source 8) is credited first.
    enc.effects.insert(100, vec![shield(7, 1500, None), shield(8, 1000, None)]);
    enc.attribute_shield_absorption(&hit(2000, 1000, 0, 300));
    assert_eq!(shielding(&enc, 8), Some(700));
    assert_eq!(shielding(&enc, 7), Some(300));
}

#[test]
fn two_shields_when_all_was_absorbed() {
    let mut enc = Encounter::new(0);
    enc.effects.insert(100, vec![shield(7, 1000, None), shield(8, 1500, None)]);
    enc.attribute_shield_absorption(&hit(2000, 400, 0, 400));
    assert_eq!(shielding(&enc, 7), Some(400));
    assert_eq!(shielding(&enc, 8), None);
}

#[test]
fn equally_old_shields_go_in_list_order() {
    let mut enc = Encounter::new(0);
    enc.effects.insert(100, vec![shield(7, 1000, None), shield(8, 1000, None)]);
    enc.attribute_shield_absorption(&hit(2000, 1000, 0, 100));
    assert_eq!(shielding(&enc, 7), Some(900));
    assert_eq!(shielding(&enc, 8), Some(100));
}

#[test]
fn shields_applied_later_or_not_shields_take_nothing() {
    let mut enc = Encounter::new(0);
    let mut not_shield = shield(9, 500, None);
    not_shield.is_shield = false;
    enc.effects.insert(100, vec![shield(7, 3000, None), not_shield]);
    enc.attribute_shield_absorption(&hit(2000, 500, 0, 300));
    assert!(enc.accumulated_data.is_empty());
}

#[test]
fn hit_on_untracked_target_changes_nothing() {
    let mut enc = Encounter::new(0);
    enc.attribute_shield_absorption(&hit(2000, 500, 0, 300));
    assert!(enc.accumulated_data.is_empty());
    assert!(enc.effects.is_empty());
}
