use baras::timer_list::{filter_timers, group_timers, remove_timer, replace_timer};
use baras::types::{TimerListItem, TimerTrigger};

fn item(timer_id: &str, boss_id: &str, boss_name: &str, name: &str) -> TimerListItem {
    TimerListItem {
        timer_id: timer_id.to_string(),
        boss_id: boss_id.to_string(),
        boss_name: boss_name.to_string(),
        area_name: "Dxun".to_string(),
        category: "operations".to_string(),
        file_path: "dxun.toml".to_string(),
        name: name.to_string(),
        enabled: true,
        duration_secs_bits: 10.0f32.to_bits(),
        color: [1, 2, 3, 255],
        phases: vec![],
        difficulties: vec![],
        trigger: TimerTrigger::CombatStart,
        can_be_refreshed: false,
        repeats: 0,
        chains_to: None,
        alert_at_secs_bits: None,
        show_on_raid_frames: false,
    }
}

fn sample() -> Vec<TimerListItem> {
    vec![
        item("t1", "b2", "Red", "Enrage"),
        item("t2", "b1", "Apex", "Stomp"),
        item("t3", "b2", "Red", "Grenade"),
        item("t4", "b3", "Apex", "Beam"),
    ]
}

#[test]
fn search_is_case_insensitive_over_name_boss_and_area() {
    let timers = sample();
    let names = |q: &str| -> Vec<String> { filter_timers(&timers, q).iter().map(|t| t.timer_id.clone()).collect() };
    assert_eq!(names(""), vec!["t1", "t2", "t3", "t4"]);
    assert_eq!(names("STOMP"), vec!["t2"]);
    assert_eq!(names("red"), vec!["t1", "t3"]);
    assert_eq!(names("dXuN"), vec!["t1", "t2", "t3", "t4"]);
    assert!(names("nothing").is_empty());
}

#[test]
fn groups_by_boss_sorted_by_name_stably() {
    let timers = sample();
    let all = filter_timers(&timers, "");
    let groups = group_timers(&all);
    let shape: Vec<(String, String, Vec<String>)> = groups
        .iter()
        .map(|g| (g.key.clone(), g.boss_name.clone(), g.timers.iter().map(|t| t.timer_id.clone()).collect()))
        .collect();
    assert_eq!(
        shape,
        vec![
            ("operations_b1".to_string(), "Apex".to_string(), vec!["t2".to_string()]),
            ("operations_b3".to_string(), "Apex".to_string(), vec!["t4".to_string()]),
            ("operations_b2".to_string(), "Red".to_string(), vec!["t1".to_string(), "t3".to_string()]),
        ]
    );
}

#[test]
fn no_timers_no_groups() {
    let timers: Vec<TimerListItem> = vec![];
    let all = filter_timers(&timers, "x");
    assert!(group_timers(&all).is_empty());
}

#[test]
fn saving_replaces_the_matching_timer() {
    let mut timers = sample();
    replace_timer(&mut timers, item("t3", "b2", "Red", "Grenade (edited)"));
    assert_eq!(timers[2].name, "Grenade (edited)");
    assert_eq!(timers.len(), 4);
    replace_timer(&mut timers, item("t3", "b9", "Other", "Not here"));
    assert_eq!(timers.len(), 4);
    assert!(timers.iter().all(|t| t.name != "Not here"));
}

#[test]
fn deleting_removes_only_that_timer_of_that_boss() {
    let timers = remove_timer(sample(), "t1", "b2");
    let ids: Vec<String> = timers.iter().map(|t| t.timer_id.clone()).collect();
    assert_eq!(ids, vec!["t2", "t3", "t4"]);
    let timers = remove_timer(timers, "t2", "b3");
    assert_eq!(timers.len(), 3);
}
