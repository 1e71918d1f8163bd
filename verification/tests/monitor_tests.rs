use baras::monitor::NotLiveHiding;
use baras::monitor::{is_session_not_live, is_session_not_live_at, pgrep_verdict, tasklist_verdict, STALE_SESSION_MS};

#[test]
fn pgrep_exit_codes() {
    assert_eq!(pgrep_verdict(Some(0)), Some(true));
    assert_eq!(pgrep_verdict(Some(1)), Some(false));
    assert_eq!(pgrep_verdict(Some(2)), None);
    assert_eq!(pgrep_verdict(None), None);
}

#[test]
fn tasklist_output() {
    assert_eq!(tasklist_verdict(true, "swtor.exe   1234 Console  1  2,000 K"), Some(true));
    assert_eq!(tasklist_verdict(true, "INFO: No tasks are running which match the specified criteria."), Some(false));
    assert_eq!(tasklist_verdict(false, "swtor.exe"), None);
}

#[test]
fn session_liveness() {
    let now = 10 * STALE_SESSION_MS;
    assert!(is_session_not_live_at(false, true, true, Some(now), None, now));
    assert!(is_session_not_live_at(true, false, true, Some(now), None, now));
    assert!(is_session_not_live_at(true, true, false, Some(now), None, now));
    assert!(!is_session_not_live_at(true, true, true, Some(now - STALE_SESSION_MS), None, now));
    assert!(is_session_not_live_at(true, true, true, Some(now - STALE_SESSION_MS - 1), None, now));
    assert!(is_session_not_live_at(true, true, true, None, Some(0), now));
    assert!(!is_session_not_live_at(true, true, true, None, None, now));
    assert!(is_session_not_live(false, true, true, None, None));
}

#[test]
fn not_live_hiding_restores_once() {
    let mut h = NotLiveHiding { active: false, visible_before: false };
    assert!(!h.deactivate_not_live_hiding());
    assert_eq!(h, NotLiveHiding { active: false, visible_before: false });
    h.activate_not_live_hiding();
    assert_eq!(h, NotLiveHiding { active: true, visible_before: true });
    assert!(h.deactivate_not_live_hiding());
    assert_eq!(h, NotLiveHiding { active: false, visible_before: false });
    assert!(!h.deactivate_not_live_hiding());
}

#[test]
fn lifting_an_active_hiding_reports_what_was_shown() {
    let mut h = NotLiveHiding { active: true, visible_before: false };
    assert!(!h.deactivate_not_live_hiding());
    assert!(!h.active);
}
