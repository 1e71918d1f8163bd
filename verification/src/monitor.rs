//! Whether the game is running and whether the followed session is live:
//! the decisions, on what the process listing and the session report.
//!
//! Times are milliseconds on the local clock.
use crate::combat_state::local_now_millis;
use crate::parsely::{ascii, find_bytes, find_subslice};
use vstd::prelude::*;
use vstd::string::*;
use vstd::utf8::*;

verus! {

/// A session with no event for this long is no longer live.
pub const STALE_SESSION_MS: i64 = 15 * 60 * 1000;

/// What `pgrep` exiting with `exit_code` says: found (0), not found (1), or
/// nothing known (any other code, or no code at all).
pub open spec fn pgrep_says(exit_code: Option<i32>) -> Option<bool> {
    match exit_code {
        Some(0) => Some(true),
        Some(1) => Some(false),
        _ => None,
    }
}

/// Whether the game is running, from the exit code of `pgrep -f swtor.exe`.
pub fn pgrep_verdict(exit_code: Option<i32>) -> (r: Option<bool>)
    ensures
        r == pgrep_says(exit_code),
{
    match exit_code {
        Some(0) => Some(true),  // Process found
        Some(1) => Some(false),  // No matching process (normal pgrep "not found" exit)
        _ => None,
    }
}

/// What `tasklist` reports: when it succeeded, whether its output names the
/// game's executable; otherwise nothing is known.
pub open spec fn tasklist_says(success: bool, stdout: Seq<u8>) -> Option<bool> {
    if success {
        Some(find_bytes(stdout, ascii("swtor.exe"@)) is Some)
    } else {
        None
    }
}

/// Whether the game is running, from the outcome and output of the
/// `tasklist` filter for `swtor.exe`.
pub fn tasklist_verdict(success: bool, stdout: &str) -> (r: Option<bool>)
    ensures
        r == tasklist_says(success, stdout.spec_bytes()),
{
    if !success {
        return None;
    }
    let name = "swtor.exe";
    proof {
        reveal_strlit("swtor.exe");
        is_ascii_chars_encode_utf8(name@);
        assert(name.spec_bytes() =~= ascii(name@));
    }
    Some(find_subslice(stdout.as_bytes(), name.as_bytes()).is_some())
}

/// The session is not live: not tailing, no session, no known player, or
/// no event for longer than the stale time (the last event's time, else the
/// session's start, if either is known).
pub open spec fn not_live(
    is_live_tailing: bool,
    has_session: bool,
    has_player: bool,
    last_event_time: Option<i64>,
    session_start: Option<i64>,
    now: i64,
) -> bool {
    let last = match last_event_time {
        Some(t) => Some(t),
        None => session_start,
    };
    ||| !is_live_tailing
    ||| !has_session
    ||| !has_player
    ||| (last matches Some(l) && now - l > STALE_SESSION_MS)
}

/// Whether the session is not live at time `now`.
pub fn is_session_not_live_at(
    is_live_tailing: bool,
    has_session: bool,
    has_player: bool,
    last_event_time: Option<i64>,
    session_start: Option<i64>,
    now: i64,
) -> (r: bool)
    ensures
        r == not_live(is_live_tailing, has_session, has_player, last_event_time, session_start, now),
{
    if !is_live_tailing {
        return true;
    }
    if !has_session {
        return true;
    }
    if !has_player {
        return true;
    }
    // Stale check: no events in the last 15 minutes
    let last_activity = match last_event_time {
        Some(t) => Some(t),
        None => session_start,
    };
    if let Some(last) = last_activity {
        let elapsed: i128 = now as i128 - last as i128;
        if elapsed > STALE_SESSION_MS as i128 {
            return true;
        }
    }
    false
}

/// Whether the session is not live now, by the wall clock: the result is
/// [`not_live`] at some time.
pub fn is_session_not_live(
    is_live_tailing: bool,
    has_session: bool,
    has_player: bool,
    last_event_time: Option<i64>,
    session_start: Option<i64>,
) -> (r: bool)
    ensures
        exists|now: i64|
            r == not_live(is_live_tailing, has_session, has_player, last_event_time, session_start, now),
{
    let now = local_now_millis();
    is_session_not_live_at(is_live_tailing, has_session, has_player, last_event_time, session_start, now)
}

/// Whether the overlays are hidden because the session is not live, and
/// whether they were shown before, so that they can be brought back.
#[derive(Debug, Clone, Copy, PartialEq, Eq, Structural)]
pub struct NotLiveHiding {
    pub active: bool,
    pub visible_before: bool,
}

/// The state after hiding the overlays for a session that is not live.
pub open spec fn hidden_state() -> NotLiveHiding {
    NotLiveHiding { active: true, visible_before: true }
}

/// Lifting the hiding: the state afterwards, and whether to show the overlays
/// again.  Nothing changes, and nothing is restored, when it was not active.
pub open spec fn lifted(s: NotLiveHiding) -> (NotLiveHiding, bool) {
    if !s.active {
        (s, false)
    } else {
        (NotLiveHiding { active: false, visible_before: false }, s.visible_before)
    }
}

impl NotLiveHiding {
    /// Marks the overlays as hidden because the session is not live,
    /// remembering that they were shown.
    pub fn activate_not_live_hiding(&mut self)
        ensures
            *final(self) == hidden_state(),
    {
        self.active = true;
        self.visible_before = true;
    }

    /// Lifts the hiding and tells whether the overlays are to be shown again.
    pub fn deactivate_not_live_hiding(&mut self) -> (restore: bool)
        ensures
            (*final(self), restore) == lifted(*old(self)),
    {
        if !self.active {
            return false;
        }
        self.active = false;
        let was_visible = self.visible_before;
        self.visible_before = false;
        was_visible
    }
}

/// Overlays hidden because the session is not live are shown again when the
/// hiding is lifted, and only once: lifting it a second time restores nothing.
pub proof fn lemma_hiding_restores_once(s: NotLiveHiding)
    ensures
        lifted(hidden_state()).1,
        !lifted(lifted(s).0).1,
{
}

} // verus!
