use baras::trigger_edit::{
    add_condition, remove_condition, set_condition, toggle_composite, unwrap_single,
    wrap_in_composite,
};
use baras::types::TimerTrigger;

fn tags(t: &TimerTrigger) -> Vec<&'static str> {
    match t {
        TimerTrigger::AllOf { conditions } | TimerTrigger::AnyOf { conditions } => {
            conditions.iter().map(|c| c.tag_name()).collect()
        }
        other => vec![other.tag_name()],
    }
}

#[test]
fn wrapping_and_toggling() {
    let t = wrap_in_composite(TimerTrigger::TimerExpires { timer_id: "x".to_string() }, true);
    assert_eq!(t.tag_name(), "all_of");
    assert_eq!(tags(&t), vec!["timer_expires"]);
    let t = toggle_composite(t);
    assert_eq!(t.tag_name(), "any_of");
    assert_eq!(tags(&t), vec!["timer_expires"]);
    let simple = toggle_composite(TimerTrigger::CombatStart);
    assert_eq!(simple.tag_name(), "combat_start");
    let any = wrap_in_composite(TimerTrigger::CombatStart, false);
    assert_eq!(any.tag_name(), "any_of");
}

#[test]
fn adding_setting_and_removing_conditions() {
    let t = wrap_in_composite(TimerTrigger::CombatStart, true);
    let t = add_condition(t);
    assert_eq!(tags(&t), vec!["combat_start", "combat_start"]);
    let t = set_condition(t, 1, TimerTrigger::PhaseEntered { phase_id: "p2".to_string() });
    assert_eq!(tags(&t), vec!["combat_start", "phase_entered"]);
    let t = remove_condition(t, 0);
    assert_eq!(tags(&t), vec!["phase_entered"]);
    // The last condition of a composite is not removed.
    let t = remove_condition(t, 0);
    assert_eq!(tags(&t), vec!["phase_entered"]);
    assert_eq!(t.tag_name(), "all_of");
}

#[test]
fn unwrapping_a_single_condition() {
    let t = wrap_in_composite(TimerTrigger::EffectApplied { effect_ids: vec![7] }, false);
    let t = unwrap_single(t);
    assert_eq!(t.tag_name(), "effect_applied");
    let two = add_condition(wrap_in_composite(TimerTrigger::CombatStart, true));
    let still = unwrap_single(two);
    assert_eq!(still.tag_name(), "all_of");
}
