//! Combat state machine for the encounter lifecycle.
//!
//! The current encounter moves through
//! - `NotStarted`: waiting for combat to begin,
//! - `InCombat`: active combat, accumulating data,
//! - `PostCombat`: combat ended; a short grace window lets a quick re-entry
//!   (a fake exit) continue the same encounter.
//!
//! Each event advances the machine and may emit `CombatStarted` or
//! `CombatEnded`.  Times are milliseconds on the log's clock.
use vstd::prelude::*;

use crate::event_models::EntityType;
use crate::game_ids::{
    APPLY_EFFECT, AREA_ENTERED, DAMAGE, ENTER_COMBAT, EXIT_COMBAT, HEAL, RECENTLY_REVIVED,
    REMOVE_EFFECT,
};
use crate::session::{
    ended_at, lemma_with_current_wf, Encounter, EncounterState, EncounterView, SessionCache,
    SessionCacheView,
};

verus! {

/// Seconds without damage or healing after which combat times out.
pub const COMBAT_TIMEOUT_SECONDS: i64 = 60;

/// Grace window after a combat exit in a boss encounter (seconds).
pub const BOSS_COMBAT_EXIT_GRACE_SECS: i64 = 3;

/// Grace window after a combat exit in other encounters (seconds).
pub const TRASH_COMBAT_EXIT_GRACE_SECS: i64 = 1;

/// What the combat state machine reads of a combat event.
#[derive(Debug, Clone, Copy, PartialEq, Eq, Structural)]
pub struct CombatStateEvent {
    pub line_number: usize,
    pub timestamp: i64,
    pub effect_id: i64,
    pub effect_type_id: i64,
    pub source_log_id: i64,
    pub source_type: EntityType,
    pub target_type: EntityType,
}

/// Things that happened at a higher level than single log events.
#[derive(Debug, Clone, Copy, PartialEq, Eq, Structural)]
pub enum GameSignal {
    CombatStarted { timestamp: i64, encounter_id: u64 },
    CombatEnded { timestamp: i64, encounter_id: u64 },
    EntityDeath { entity_id: i64, entity_type: EntityType, timestamp: i64 },
    EntityRevived { entity_id: i64, entity_type: EntityType, timestamp: i64 },
    EffectApplied { effect_id: i64, source_id: i64, target_id: i64, timestamp: i64 },
    EffectRemoved { effect_id: i64, source_id: i64, target_id: i64, timestamp: i64 },
    AbilityActivated { ability_id: i64, source_id: i64, timestamp: i64 },
    AreaEntered { area_id: i64, timestamp: i64 },
    PlayerInitialized { entity_id: i64, timestamp: i64 },
}

// ───────────────────────── model ─────────────────────────

/// Whole seconds from `earlier` to `later`, rounded toward zero.
pub open spec fn whole_seconds(later: i64, earlier: i64) -> int {
    let d = later - earlier;
    if d >= 0 {
        d / 1000
    } else {
        -((-d) / 1000)
    }
}

/// The grace window for the current encounter: longer when a boss is active.
pub open spec fn grace_secs(c: SessionCacheView) -> int {
    if c.current() matches Some(e) && e.active_boss_idx is Some {
        BOSS_COMBAT_EXIT_GRACE_SECS as int
    } else {
        TRASH_COMBAT_EXIT_GRACE_SECS as int
    }
}

/// `t` lies within the grace window after the last combat exit.
pub open spec fn within_grace_window(c: SessionCacheView, t: i64) -> bool {
    match c.last_combat_exit_time {
        None => false,
        Some(x) => whole_seconds(t, x) <= grace_secs(c),
    }
}

/// `e` with the entities of `line` tracked.
pub open spec fn with_entities(e: EncounterView, line: usize) -> EncounterView {
    EncounterView { entity_lines: e.entity_lines.push(line), ..e }
}

/// `e` with the data of `line` accumulated.
pub open spec fn with_accumulated(e: EncounterView, line: usize) -> EncounterView {
    EncounterView { accumulated_lines: e.accumulated_lines.push(line), ..e }
}

/// `e` with `line` counted as one of its lines.
pub open spec fn with_line(e: EncounterView, line: usize) -> EncounterView {
    EncounterView { event_lines: e.event_lines.push(line), ..e }
}

/// `e` with `line` fully recorded: entities, data and line.
pub open spec fn recorded(e: EncounterView, line: usize) -> EncounterView {
    with_line(with_accumulated(with_entities(e, line), line), line)
}

/// All kill targets of the active boss that have been seen are dead, and at
/// least one was seen.
pub open spec fn kill_targets_all_dead(e: EncounterView) -> bool {
    match e.active_boss_idx {
        None => false,
        Some(i) => {
            let ids = e.boss_definitions[i as int].kill_target_class_ids;
            &&& ids.len() > 0
            &&& exists|k: int| 0 <= k < e.npcs.len() && ids.contains(#[trigger] e.npcs[k].class_id)
            &&& forall|k: int|
                0 <= k < e.npcs.len() && ids.contains(#[trigger] e.npcs[k].class_id)
                    ==> e.npcs[k].is_dead
        },
    }
}

/// Boss definitions are loaded, or a boss NPC was seen.
pub open spec fn is_boss_encounter(e: EncounterView) -> bool {
    e.boss_definitions.len() > 0 || exists|k: int| 0 <= k < e.npcs.len() && (#[trigger] e.npcs[k]).is_boss
}

/// The active boss ends on a victory trigger that has not fired yet, so
/// exit conditions other than a wipe are ignored.
pub open spec fn ignores_exit(e: EncounterView) -> bool {
    match e.active_boss_idx {
        Some(i) => e.boss_definitions[i as int].has_victory_trigger && !e.victory_triggered,
        None => false,
    }
}

/// Model of `track_encounter_effects`.
pub open spec fn tracked_effects(c: SessionCacheView, ev: CombatStateEvent) -> SessionCacheView {
    match c.current() {
        None => c,
        Some(e) => if ev.effect_type_id == APPLY_EFFECT && ev.target_type != EntityType::Empty {
            c.with_current(
                EncounterView { applied_effect_lines: e.applied_effect_lines.push(ev.line_number), ..e },
            )
        } else if ev.effect_type_id == REMOVE_EFFECT && ev.source_type != EntityType::Empty {
            c.with_current(
                EncounterView { removed_effect_lines: e.removed_effect_lines.push(ev.line_number), ..e },
            )
        } else {
            c
        },
    }
}

/// The session, the signals and whether the event was accumulated.
pub type StepModel = (SessionCacheView, Seq<GameSignal>, bool);

/// Model of `handle_not_started`: entering combat starts the encounter;
/// other non-damage events are buffered into it; pre-combat damage is skipped.
pub open spec fn not_started_step(c: SessionCacheView, ev: CombatStateEvent) -> StepModel {
    let t = ev.timestamp;
    let l = ev.line_number;
    match c.current() {
        None => (c, seq![], false),
        Some(e) => if ev.effect_id == ENTER_COMBAT {
            (
                c.with_current(
                    recorded(
                        EncounterView {
                            state: EncounterState::InCombat,
                            enter_combat_time: Some(t),
                            ..e
                        },
                        l,
                    ),
                ),
                seq![GameSignal::CombatStarted { timestamp: t, encounter_id: e.id }],
                true,
            )
        } else if ev.effect_id != DAMAGE {
            (c.with_current(with_line(with_accumulated(e, l), l)), seq![], true)
        } else {
            (c, seq![], false)
        },
    }
}

/// Combat has seen no damage or healing for the timeout.
pub open spec fn timed_out(c: SessionCacheView, t: i64) -> bool {
    c.current() matches Some(e) && e.last_combat_activity_time matches Some(last)
        && whole_seconds(t, last) >= COMBAT_TIMEOUT_SECONDS
}

/// The local player got the revive immunity buff.
pub open spec fn local_player_revived(c: SessionCacheView, ev: CombatStateEvent) -> bool {
    ev.effect_type_id == APPLY_EFFECT && ev.effect_id == RECENTLY_REVIVED && c.player_initialized
        && ev.source_log_id == c.player_id
}

/// Some condition ends the current combat.
pub open spec fn combat_ends(c: SessionCacheView, ev: CombatStateEvent) -> bool {
    match c.current() {
        None => ev.effect_id == EXIT_COMBAT || local_player_revived(c, ev),
        Some(e) => e.all_players_dead || ev.effect_id == EXIT_COMBAT || kill_targets_all_dead(e)
            || (local_player_revived(c, ev) && !is_boss_encounter(e)),
    }
}

/// Model of `handle_in_combat`.
pub open spec fn in_combat_step(c: SessionCacheView, ev: CombatStateEvent) -> StepModel {
    let t = ev.timestamp;
    let l = ev.line_number;
    if timed_out(c, t) {
        // End at the last activity, start a new encounter, and handle the
        // event there.
        let e = c.current()->0;
        let last = e.last_combat_activity_time->0;
        let c1 = c.with_current(ended_at(e, last)).pushed();
        let (c2, s2, acc) = not_started_step(tracked_effects(c1, ev), ev);
        (c2, seq![GameSignal::CombatEnded { timestamp: last, encounter_id: e.id }] + s2, acc)
    } else {
        let all_dead = c.current() matches Some(e) && e.all_players_dead;
        let ignore_exit = c.current() matches Some(e) && ignores_exit(e);
        if ev.effect_id != ENTER_COMBAT && ignore_exit && !all_dead {
            let e = c.current()->0;
            (c.with_current(recorded(e, l)), seq![], true)
        } else if combat_ends(c, ev) {
            if within_grace_window(c, t) {
                let x = c.last_combat_exit_time->0;
                let c1 = match c.current() {
                    Some(e) => c.with_current(ended_at(e, x)),
                    None => c,
                };
                (
                    SessionCacheView { last_combat_exit_time: None, ..c1 }.pushed(),
                    seq![GameSignal::CombatEnded { timestamp: x, encounter_id: c.current_id() }],
                    false,
                )
            } else {
                let c1 = SessionCacheView { last_combat_exit_time: Some(t), ..c };
                (
                    match c1.current() {
                        Some(e) => c1.with_current(ended_at(e, t)),
                        None => c1,
                    },
                    seq![],
                    false,
                )
            }
        } else if ev.effect_type_id == AREA_ENTERED {
            let c1 = match c.current() {
                Some(e) => c.with_current(ended_at(e, t)),
                None => c,
            };
            (
                c1.pushed(),
                seq![GameSignal::CombatEnded { timestamp: t, encounter_id: c.current_id() }],
                false,
            )
        } else {
            match c.current() {
                None => (c, seq![], false),
                Some(e) => {
                    let e1 = recorded(e, l);
                    let e2 = if ev.effect_id == DAMAGE || ev.effect_id == HEAL {
                        EncounterView { last_combat_activity_time: Some(t), ..e1 }
                    } else {
                        e1
                    };
                    (c.with_current(e2), seq![], true)
                },
            }
        }
    }
}

/// Model of `finalize_pending_combat_exit`: a pending exit is closed and
/// announced.
pub open spec fn finalized_exit(c: SessionCacheView) -> (SessionCacheView, Seq<GameSignal>) {
    match c.last_combat_exit_time {
        Some(x) => (
            SessionCacheView { last_combat_exit_time: None, ..c },
            seq![GameSignal::CombatEnded { timestamp: x, encounter_id: c.current_id() }],
        ),
        None => (c, seq![]),
    }
}

/// Model of `handle_post_combat`.
pub open spec fn post_combat_step(c: SessionCacheView, ev: CombatStateEvent) -> StepModel {
    let t = ev.timestamp;
    let l = ev.line_number;
    let in_grace = within_grace_window(c, t);
    if ev.effect_id == ENTER_COMBAT {
        if in_grace {
            (
                match c.current() {
                    Some(e) => c.with_current(
                        with_line(
                            EncounterView {
                                state: EncounterState::InCombat,
                                exit_combat_time: None,
                                ..e
                            },
                            l,
                        ),
                    ),
                    None => c,
                },
                seq![],
                false,
            )
        } else {
            let (c1, s1) = finalized_exit(c);
            let c2 = c1.pushed();
            let e = c2.current()->0;
            (
                c2.with_current(
                    with_line(
                        with_accumulated(
                            EncounterView {
                                state: EncounterState::InCombat,
                                enter_combat_time: Some(t),
                                ..e
                            },
                            l,
                        ),
                        l,
                    ),
                ),
                s1.push(
                    GameSignal::CombatStarted { timestamp: t, encounter_id: c1.next_encounter_id },
                ),
                true,
            )
        }
    } else if in_grace {
        (
            match c.current() {
                Some(e) => c.with_current(with_line(e, l)),
                None => c,
            },
            seq![],
            false,
        )
    } else if ev.effect_id == DAMAGE {
        let (c1, s1) = finalized_exit(c);
        (c1.pushed(), s1, false)
    } else {
        let (c1, s1) = finalized_exit(c);
        let c2 = c1.pushed();
        let e = c2.current()->0;
        (c2.with_current(with_line(with_accumulated(e, l), l)), s1, true)
    }
}

/// The state of the current encounter (`NotStarted` when there is none).
pub open spec fn current_state(c: SessionCacheView) -> EncounterState {
    match c.current() {
        Some(e) => e.state,
        None => EncounterState::NotStarted,
    }
}

/// Model of `advance_combat_state`: effects are tracked, then the event is
/// handled by the current encounter's state.
pub open spec fn advance_step(c: SessionCacheView, ev: CombatStateEvent) -> StepModel {
    let c0 = tracked_effects(c, ev);
    match current_state(c0) {
        EncounterState::NotStarted => not_started_step(c0, ev),
        EncounterState::InCombat => in_combat_step(c0, ev),
        EncounterState::PostCombat { .. } => post_combat_step(c0, ev),
    }
}

/// Model of `tick_combat_state` at wall-clock time `now`.
pub open spec fn tick_step(c: SessionCacheView, now: i64) -> (SessionCacheView, Seq<GameSignal>) {
    let state = current_state(c);
    if c.last_combat_exit_time matches Some(x) && whole_seconds(now, x) > grace_secs(c) {
        let x = c.last_combat_exit_time->0;
        let c1 = SessionCacheView { last_combat_exit_time: None, ..c };
        if state is PostCombat {
            (c1.pushed(), seq![GameSignal::CombatEnded { timestamp: x, encounter_id: c.current_id() }])
        } else {
            (c1, seq![])
        }
    } else if state != EncounterState::InCombat {
        (c, seq![])
    } else if timed_out(c, now) {
        let e = c.current()->0;
        let last = e.last_combat_activity_time->0;
        (
            SessionCacheView { last_combat_exit_time: None, ..c.with_current(ended_at(e, last)) }.pushed(),
            seq![GameSignal::CombatEnded { timestamp: last, encounter_id: e.id }],
        )
    } else {
        (c, seq![])
    }
}

// ───────────────────────── laws ─────────────────────────

/// A signal that announces the start of combat.
pub open spec fn is_start_signal(g: GameSignal) -> bool {
    g is CombatStarted
}

/// Combat starts only on an enter-combat event: whatever the session, an
/// event of any other kind emits no `CombatStarted`.
pub proof fn lemma_only_enter_combat_starts(c: SessionCacheView, ev: CombatStateEvent)
    requires
        ev.effect_id != ENTER_COMBAT,
    ensures
        forall|i: int|
            0 <= i < advance_step(c, ev).1.len() ==> !is_start_signal(
                #[trigger] advance_step(c, ev).1[i],
            ),
{
    let c0 = tracked_effects(c, ev);
    if current_state(c0) is InCombat && timed_out(c0, ev.timestamp) {
        let e = c0.current()->0;
        let last = e.last_combat_activity_time->0;
        let c1 = c0.with_current(ended_at(e, last)).pushed();
        let s2 = not_started_step(tracked_effects(c1, ev), ev).1;
        assert(s2.len() == 0);
        let all = seq![GameSignal::CombatEnded { timestamp: last, encounter_id: e.id }] + s2;
        assert(all =~= seq![GameSignal::CombatEnded { timestamp: last, encounter_id: e.id }]);
    }
}

/// Tracking effects changes nothing that the state machine decides on.
proof fn lemma_tracked_effects_keeps(c: SessionCacheView, ev: CombatStateEvent)
    requires
        c.current() is Some,
    ensures
        ({
            let d = tracked_effects(c, ev);
            let e = c.current()->0;
            let f = d.current()->0;
            &&& d.current() is Some
            &&& d.encounters.len() == c.encounters.len()
            &&& d.last_combat_exit_time == c.last_combat_exit_time
            &&& d.next_encounter_id == c.next_encounter_id
            &&& d.player_initialized == c.player_initialized
            &&& d.player_id == c.player_id
            &&& f.id == e.id
            &&& f.state == e.state
            &&& f.all_players_dead == e.all_players_dead
            &&& f.last_combat_activity_time == e.last_combat_activity_time
            &&& f.active_boss_idx == e.active_boss_idx
            &&& f.boss_definitions == e.boss_definitions
            &&& f.npcs == e.npcs
            &&& f.victory_triggered == e.victory_triggered
        }),
{
}

/// A fake combat split is merged: when an encounter in combat (not timed
/// out, not waiting for a victory trigger, no exit pending) sees an exit,
/// and combat is entered again within the grace window, no signal is
/// emitted, no new encounter is opened, and the same encounter is in
/// combat again.
pub proof fn lemma_fake_exit_merged(c: SessionCacheView, exit: CombatStateEvent, enter: CombatStateEvent)
    requires
        c.wf(),
        c.current() matches Some(e) && e.state == EncounterState::InCombat && !ignores_exit(e),
        c.last_combat_exit_time is None,
        !timed_out(c, exit.timestamp),
        exit.effect_id == EXIT_COMBAT,
        enter.effect_id == ENTER_COMBAT,
        whole_seconds(enter.timestamp, exit.timestamp) <= grace_secs(c),
    ensures
        ({
            let (c1, s1, _) = advance_step(c, exit);
            let (c2, s2, _) = advance_step(c1, enter);
            &&& s1.len() == 0
            &&& current_state(c1) == EncounterState::PostCombat { exit_time: exit.timestamp }
            &&& c1.last_combat_exit_time == Some(exit.timestamp)
            &&& s2.len() == 0
            &&& current_state(c2) == EncounterState::InCombat
            &&& c2.current_id() == c.current_id()
            &&& c1.current_id() == c.current_id()
            &&& c2.encounters.len() == c.encounters.len()
            &&& c2.next_encounter_id == c.next_encounter_id
        }),
{
    let c0 = tracked_effects(c, exit);
    lemma_tracked_effects_keeps(c, exit);
    assert(!timed_out(c0, exit.timestamp));
    assert(!within_grace_window(c0, exit.timestamp));
    assert(combat_ends(c0, exit));
    let (c1, s1, _) = advance_step(c, exit);
    assert(c1.current() is Some);
    let d0 = tracked_effects(c1, enter);
    lemma_tracked_effects_keeps(c1, enter);
    assert(grace_secs(d0) == grace_secs(c));
    assert(within_grace_window(d0, enter.timestamp));
}

/// A tick after the grace window of a pending exit has passed, while the
/// encounter is still out of combat, announces the end of that encounter
/// at the exit time and opens a new one.
pub proof fn lemma_tick_closes_expired_exit(c: SessionCacheView, now: i64)
    requires
        c.last_combat_exit_time matches Some(x) && whole_seconds(now, x) > grace_secs(c),
        current_state(c) is PostCombat,
        c.next_encounter_id < u64::MAX,
    ensures
        ({
            let (c1, s) = tick_step(c, now);
            &&& s == seq![
                GameSignal::CombatEnded {
                    timestamp: c.last_combat_exit_time->0,
                    encounter_id: c.current_id(),
                },
            ]
            &&& c1.last_combat_exit_time is None
            &&& c1.next_encounter_id == c.next_encounter_id + 1
            &&& current_state(c1) == EncounterState::NotStarted
        }),
{
}

/// A tick in combat after the inactivity timeout (with no exit pending)
/// ends combat at the last damage or healing and opens a new encounter.
pub proof fn lemma_tick_times_out_combat(c: SessionCacheView, now: i64)
    requires
        c.last_combat_exit_time is None,
        current_state(c) == EncounterState::InCombat,
        timed_out(c, now),
        c.next_encounter_id < u64::MAX,
    ensures
        ({
            let (c1, s) = tick_step(c, now);
            let e = c.current()->0;
            &&& s == seq![
                GameSignal::CombatEnded {
                    timestamp: e.last_combat_activity_time->0,
                    encounter_id: e.id,
                },
            ]
            &&& c1.next_encounter_id == c.next_encounter_id + 1
            &&& current_state(c1) == EncounterState::NotStarted
        }),
{
}

/// The next encounter id never goes down, whatever event comes (short of
/// running out of ids).
pub proof fn lemma_next_id_grows(c: SessionCacheView, ev: CombatStateEvent)
    requires
        c.next_encounter_id < u64::MAX,
    ensures
        advance_step(c, ev).0.next_encounter_id >= c.next_encounter_id,
{
}

/// One event opens at most one encounter.
proof fn lemma_next_id_step(c: SessionCacheView, ev: CombatStateEvent)
    requires
        c.next_encounter_id < u64::MAX,
    ensures
        c.next_encounter_id <= advance_step(c, ev).0.next_encounter_id <= c.next_encounter_id + 1,
{
}

/// Combat is not cut while a kill target lives: in a boss fight in combat
/// (no exit pending, not timed out, no victory trigger awaited, not a wipe),
/// when some NPC seen of a class among the active boss's kill targets is
/// still alive, an event that is neither an exit nor an area change leaves
/// the same encounter in combat, with no exit pending, and the event is
/// counted in it.
pub proof fn lemma_living_kill_target_keeps_combat(
    c: SessionCacheView,
    e: EncounterView,
    ev: CombatStateEvent,
    k: int,
)
    requires
        c.wf(),
        c.current() == Some(e),
        c.last_combat_exit_time is None,
        e.state == EncounterState::InCombat,
        !e.all_players_dead,
        e.active_boss_idx matches Some(b) && !(e.boss_definitions[b as int].has_victory_trigger
            && !e.victory_triggered) && e.boss_definitions[b as int].kill_target_class_ids.contains(
            e.npcs[k].class_id,
        ),
        0 <= k < e.npcs.len(),
        !e.npcs[k].is_dead,
        e.last_combat_activity_time matches Some(last) ==> whole_seconds(ev.timestamp, last)
            < COMBAT_TIMEOUT_SECONDS,
        ev.effect_id != EXIT_COMBAT,
        ev.effect_type_id != AREA_ENTERED,
    ensures
        advance_step(c, ev).0.current() matches Some(f) && f.state == EncounterState::InCombat && f.id
            == e.id,
        advance_step(c, ev).0.last_combat_exit_time is None,
        advance_step(c, ev).2,
{
    lemma_tracked_effects_keeps(c, ev);
    let c0 = tracked_effects(c, ev);
    let f = c0.current()->0;
    assert(c.encounters.last() == e);
    assert(c.encounters[c.encounters.len() - 1].wf());
    assert(!kill_targets_all_dead(f));
    assert(is_boss_encounter(f));
    assert(!combat_ends(c0, ev));
}

// ───────────────────────── executable machine ─────────────────────────

/// Whole seconds from `earlier` to `later`, rounded toward zero.
fn whole_seconds_between(later: i64, earlier: i64) -> (r: i128)
    ensures
        r == whole_seconds(later, earlier),
{
    let d: i128 = later as i128 - earlier as i128;
    if d >= 0 {
        d / 1000
    } else {
        -((-d) / 1000)
    }
}

fn grace_window_secs(cache: &SessionCache) -> (r: i64)
    ensures
        r == grace_secs(cache@),
{
    match cache.current_encounter() {
        Some(e) => if e.active_boss_idx.is_some() {
            BOSS_COMBAT_EXIT_GRACE_SECS
        } else {
            TRASH_COMBAT_EXIT_GRACE_SECS
        },
        None => TRASH_COMBAT_EXIT_GRACE_SECS,
    }
}

/// Checks whether `t` lies within the grace window after the last combat
/// exit: the grace duration (seconds) if so, `None` otherwise.
pub fn is_within_grace_window(cache: &SessionCache, t: i64) -> (r: Option<i64>)
    ensures
        r is Some == within_grace_window(cache@, t),
        r matches Some(g) ==> g == grace_secs(cache@),
{
    match cache.last_exit() {
        None => None,
        Some(x) => {
            let grace = grace_window_secs(cache);
            if whole_seconds_between(t, x) <= grace as i128 {
                Some(grace)
            } else {
                None
            }
        },
    }
}

fn contains_id(ids: &Vec<i64>, x: i64) -> (r: bool)
    ensures
        r == ids@.contains(x),
{
    let mut i: usize = 0;
    while i < ids.len()
        invariant
            i <= ids@.len(),
            forall|j: int| 0 <= j < i ==> ids@[j] != x,
        decreases ids@.len() - i,
    {
        if ids[i] == x {
            return true;
        }
        i = i + 1;
    }
    false
}

fn all_kill_targets_dead(e: &Encounter) -> (r: bool)
    requires
        e@.wf(),
    ensures
        r == kill_targets_all_dead(e@),
{
    let i = match e.active_boss_idx {
        None => return false,
        Some(i) => i,
    };
    let ids = &e.boss_definitions[i].kill_target_class_ids;
    proof {
        assert(e@.boss_definitions[i as int].kill_target_class_ids == ids@);
    }
    if ids.len() == 0 {
        return false;
    }
    let mut seen = false;
    let mut all_dead = true;
    let mut k: usize = 0;
    while k < e.npcs.len()
        invariant
            k <= e@.npcs.len(),
            ids@ == e@.boss_definitions[i as int].kill_target_class_ids,
            seen == exists|j: int| 0 <= j < k && ids@.contains(#[trigger] e@.npcs[j].class_id),
            all_dead == forall|j: int|
                0 <= j < k && ids@.contains(#[trigger] e@.npcs[j].class_id) ==> e@.npcs[j].is_dead,
        decreases e@.npcs.len() - k,
    {
        if contains_id(ids, e.npcs[k].class_id) {
            seen = true;
            if !e.npcs[k].is_dead {
                all_dead = false;
            }
        }
        k = k + 1;
    }
    seen && all_dead
}

fn boss_encounter(e: &Encounter) -> (r: bool)
    ensures
        r == is_boss_encounter(e@),
{
    if e.boss_definitions.len() > 0 {
        return true;
    }
    let mut k: usize = 0;
    while k < e.npcs.len()
        invariant
            k <= e@.npcs.len(),
            forall|j: int| 0 <= j < k ==> !(#[trigger] e@.npcs[j]).is_boss,
        decreases e@.npcs.len() - k,
    {
        if e.npcs[k].is_boss {
            return true;
        }
        k = k + 1;
    }
    false
}

fn ignores_exit_combat(e: &Encounter) -> (r: bool)
    requires
        e@.wf(),
    ensures
        r == ignores_exit(e@),
{
    match e.active_boss_idx {
        Some(i) => e.boss_definitions[i].has_victory_trigger && !e.victory_triggered,
        None => false,
    }
}

/// Tracks effect applications and removals in the current encounter.
fn track_encounter_effects(ev: &CombatStateEvent, cache: &mut SessionCache)
    requires
        old(cache)@.wf(),
    ensures
        final(cache)@ == tracked_effects(old(cache)@, *ev),
        final(cache)@.wf(),
{
    let ghost c = cache@;
    if let Some(mut e) = cache.take_current() {
        if ev.effect_type_id == APPLY_EFFECT && ev.target_type != EntityType::Empty {
            e.apply_effect(ev.line_number);
        } else if ev.effect_type_id == REMOVE_EFFECT && ev.source_type != EntityType::Empty {
            e.remove_effect(ev.line_number);
        }
        cache.restore_current(e);
        proof {
            lemma_with_current_wf(c, e@);
            assert(c.encounters.drop_last().push(c.encounters.last()) =~= c.encounters);
        }
    }
}

/// Handles an event while no combat has started.
fn handle_not_started(ev: &CombatStateEvent, cache: &mut SessionCache) -> (res: (
    Vec<GameSignal>,
    bool,
))
    requires
        old(cache)@.wf(),
    ensures
        (final(cache)@, res.0@, res.1) == not_started_step(old(cache)@, *ev),
        final(cache)@.wf(),
{
    let ghost c = cache@;
    let mut signals: Vec<GameSignal> = Vec::new();
    let mut was_accumulated = false;
    if let Some(mut e) = cache.take_current() {
        if ev.effect_id == ENTER_COMBAT {
            e.state = EncounterState::InCombat;
            e.enter_combat_time = Some(ev.timestamp);
            e.track_event_entities(ev.line_number);
            e.accumulate_data(ev.line_number);
            e.track_event_line(ev.line_number);
            was_accumulated = true;
            signals.push(GameSignal::CombatStarted { timestamp: ev.timestamp, encounter_id: e.id });
        } else if ev.effect_id != DAMAGE {
            e.accumulate_data(ev.line_number);
            e.track_event_line(ev.line_number);
            was_accumulated = true;
        }
        cache.restore_current(e);
        proof {
            lemma_with_current_wf(c, e@);
            assert(c.encounters.drop_last().push(c.encounters.last()) =~= c.encounters);
            assert(signals@ =~= not_started_step(c, *ev).1);
        }
    }
    (signals, was_accumulated)
}

/// The current encounter of a well-formed session is well formed.
proof fn lemma_current_wf(c: SessionCacheView)
    requires
        c.wf(),
    ensures
        c.current() matches Some(e) ==> e.wf(),
{
    if c.encounters.len() > 0 {
        assert(c.encounters[c.encounters.len() - 1].wf());
    }
}

/// Ends combat in the current encounter at `t`.
fn end_current_at(cache: &mut SessionCache, t: i64)
    requires
        old(cache)@.wf(),
    ensures
        final(cache)@ == (match old(cache)@.current() {
            Some(e) => old(cache)@.with_current(ended_at(e, t)),
            None => old(cache)@,
        }),
        final(cache)@.wf(),
{
    let ghost c = cache@;
    proof {
        lemma_current_wf(c);
    }
    if let Some(mut e) = cache.take_current() {
        e.end_combat_at(t);
        cache.restore_current(e);
        proof {
            lemma_with_current_wf(c, e@);
        }
    }
}

/// Closes a pending combat exit and announces it.
fn finalize_pending_combat_exit(cache: &mut SessionCache) -> (signals: Vec<GameSignal>)
    ensures
        (final(cache)@, signals@) == finalized_exit(old(cache)@),
        old(cache)@.wf() ==> final(cache)@.wf(),
{
    match cache.last_exit() {
        Some(x) => {
            cache.set_last_combat_exit_time(None);
            let encounter_id = match cache.current_encounter() {
                Some(e) => e.id,
                None => 0,
            };
            let signals = vec![GameSignal::CombatEnded { timestamp: x, encounter_id }];
            proof {
                assert(signals@ =~= finalized_exit(old(cache)@).1);
            }
            signals
        },
        None => {
            let signals: Vec<GameSignal> = Vec::new();
            proof {
                assert(signals@ =~= finalized_exit(old(cache)@).1);
            }
            signals
        },
    }
}

/// Handles an event during combat.
fn handle_in_combat(ev: &CombatStateEvent, cache: &mut SessionCache) -> (res: (
    Vec<GameSignal>,
    bool,
))
    requires
        old(cache)@.wf(),
        old(cache)@.next_encounter_id < u64::MAX,
    ensures
        (final(cache)@, res.0@, res.1) == in_combat_step(old(cache)@, *ev),
        final(cache)@.wf(),
{
    let ghost c = cache@;
    let t = ev.timestamp;
    let l = ev.line_number;
    proof {
        lemma_current_wf(c);
    }
    // Combat timeout: no damage or healing for too long.
    let timeout: Option<(i64, u64)> = match cache.current_encounter() {
        Some(e) => match e.last_combat_activity_time {
            Some(last) => if whole_seconds_between(t, last) >= COMBAT_TIMEOUT_SECONDS as i128 {
                Some((last, e.id))
            } else {
                None
            },
            None => None,
        },
        None => None,
    };
    if let Some((last, id)) = timeout {
        end_current_at(cache, last);
        let mut signals = vec![GameSignal::CombatEnded { timestamp: last, encounter_id: id }];
        cache.push_new_encounter();
        track_encounter_effects(ev, cache);
        let (mut more, acc) = handle_not_started(ev, cache);
        let ghost s1 = signals@;
        let ghost s2 = more@;
        signals.append(&mut more);
        proof {
            assert(signals@ =~= s1 + s2);
        }
        return (signals, acc);
    }
    let (all_dead, ignore_exit, kill_dead, boss_enc, cur_id) = match cache.current_encounter() {
        Some(e) => (
            e.all_players_dead,
            ignores_exit_combat(e),
            all_kill_targets_dead(e),
            boss_encounter(e),
            e.id,
        ),
        None => (false, false, false, false, 0),
    };
    let (player_id, initialized) = cache.player_state();
    let revived = ev.effect_type_id == APPLY_EFFECT && ev.effect_id == RECENTLY_REVIVED
        && initialized && ev.source_log_id == player_id;
    let end_on_revive = revived && !boss_enc;
    if ev.effect_id != ENTER_COMBAT && ignore_exit && !all_dead {
        // A victory-trigger fight continues until the trigger or a wipe.
        if let Some(mut e) = cache.take_current() {
            e.track_event_entities(l);
            e.accumulate_data(l);
            e.track_event_line(l);
            cache.restore_current(e);
            proof {
                lemma_with_current_wf(c, e@);
            }
        }
        let signals: Vec<GameSignal> = Vec::new();
        proof {
            assert(signals@ =~= Seq::<GameSignal>::empty());
        }
        return (signals, true);
    }
    if all_dead || ev.effect_id == EXIT_COMBAT || kill_dead || end_on_revive {
        if is_within_grace_window(cache, t).is_some() {
            // The real exit after a fake re-entry: end now, at the first exit.
            let x = cache.last_exit().unwrap();
            end_current_at(cache, x);
            cache.set_last_combat_exit_time(None);
            cache.push_new_encounter();
            let signals = vec![GameSignal::CombatEnded { timestamp: x, encounter_id: cur_id }];
            proof {
                assert(signals@ =~= in_combat_step(c, *ev).1);
            }
            (signals, false)
        } else {
            // Open the grace window; the end is announced when it closes.
            cache.set_last_combat_exit_time(Some(t));
            end_current_at(cache, t);
            let signals: Vec<GameSignal> = Vec::new();
            proof {
                assert(signals@ =~= Seq::<GameSignal>::empty());
            }
            (signals, false)
        }
    } else if ev.effect_type_id == AREA_ENTERED {
        end_current_at(cache, t);
        cache.push_new_encounter();
        let signals = vec![GameSignal::CombatEnded { timestamp: t, encounter_id: cur_id }];
        proof {
            assert(signals@ =~= in_combat_step(c, *ev).1);
        }
        (signals, false)
    } else {
        let signals: Vec<GameSignal> = Vec::new();
        proof {
            assert(signals@ =~= Seq::<GameSignal>::empty());
        }
        if let Some(mut e) = cache.take_current() {
            e.track_event_entities(l);
            e.accumulate_data(l);
            e.track_event_line(l);
            if ev.effect_id == DAMAGE || ev.effect_id == HEAL {
                e.last_combat_activity_time = Some(t);
            }
            cache.restore_current(e);
            proof {
                lemma_with_current_wf(c, e@);
            }
            return (signals, true);
        }
        (signals, false)
    }
}

/// Handles an event after combat ended.
fn handle_post_combat(ev: &CombatStateEvent, cache: &mut SessionCache) -> (res: (
    Vec<GameSignal>,
    bool,
))
    requires
        old(cache)@.wf(),
        old(cache)@.next_encounter_id < u64::MAX,
    ensures
        (final(cache)@, res.0@, res.1) == post_combat_step(old(cache)@, *ev),
        final(cache)@.wf(),
{
    let ghost c = cache@;
    let t = ev.timestamp;
    let l = ev.line_number;
    proof {
        lemma_current_wf(c);
    }
    let in_grace = is_within_grace_window(cache, t).is_some();
    if ev.effect_id == ENTER_COMBAT {
        if in_grace {
            // The exit was fake: combat continues in the same encounter.
            if let Some(mut e) = cache.take_current() {
                e.state = EncounterState::InCombat;
                e.exit_combat_time = None;
                e.track_event_line(l);
                cache.restore_current(e);
                proof {
                    lemma_with_current_wf(c, e@);
                }
            }
            let signals: Vec<GameSignal> = Vec::new();
            proof {
                assert(signals@ =~= Seq::<GameSignal>::empty());
            }
            (signals, false)
        } else {
            let mut signals = finalize_pending_combat_exit(cache);
            let ghost c1 = cache@;
            let new_id = cache.push_new_encounter();
            let ghost c2 = cache@;
            proof {
                lemma_current_wf(c2);
            }
            let mut e = cache.take_current().unwrap();
            e.state = EncounterState::InCombat;
            e.enter_combat_time = Some(t);
            e.accumulate_data(l);
            e.track_event_line(l);
            cache.restore_current(e);
            proof {
                lemma_with_current_wf(c2, e@);
            }
            signals.push(GameSignal::CombatStarted { timestamp: t, encounter_id: new_id });
            (signals, true)
        }
    } else if in_grace {
        if let Some(mut e) = cache.take_current() {
            e.track_event_line(l);
            cache.restore_current(e);
            proof {
                lemma_with_current_wf(c, e@);
            }
        }
        let signals: Vec<GameSignal> = Vec::new();
        proof {
            assert(signals@ =~= Seq::<GameSignal>::empty());
        }
        (signals, false)
    } else if ev.effect_id == DAMAGE {
        // Trailing damage after the window is discarded.
        let signals = finalize_pending_combat_exit(cache);
        cache.push_new_encounter();
        (signals, false)
    } else {
        // Other events belong to the next encounter.
        let signals = finalize_pending_combat_exit(cache);
        cache.push_new_encounter();
        let ghost c2 = cache@;
        proof {
            lemma_current_wf(c2);
        }
        let mut e = cache.take_current().unwrap();
        e.accumulate_data(l);
        e.track_event_line(l);
        cache.restore_current(e);
        proof {
            lemma_with_current_wf(c2, e@);
        }
        (signals, true)
    }
}

/// Advances the combat state machine by one event: tracks effect
/// applications and removals, then handles the event by the current
/// encounter's state.  Returns the signals emitted and whether the event
/// was accumulated into an encounter.
pub fn advance_combat_state(ev: &CombatStateEvent, cache: &mut SessionCache) -> (res: (
    Vec<GameSignal>,
    bool,
))
    requires
        old(cache)@.wf(),
        old(cache)@.next_encounter_id < u64::MAX,
    ensures
        (final(cache)@, res.0@, res.1) == advance_step(old(cache)@, *ev),
        final(cache)@.wf(),
{
    track_encounter_effects(ev, cache);
    let state = match cache.current_encounter() {
        Some(e) => e.state,
        None => EncounterState::NotStarted,
    };
    match state {
        EncounterState::NotStarted => handle_not_started(ev, cache),
        EncounterState::InCombat => handle_in_combat(ev, cache),
        EncounterState::PostCombat { .. } => handle_post_combat(ev, cache),
    }
}

/// Advances the combat state machine by the clock alone, at time `now`:
/// closes an expired grace window (announcing the end if combat did not
/// resume) or times out combat without activity.
pub fn tick_combat_state_at(cache: &mut SessionCache, now: i64) -> (signals: Vec<GameSignal>)
    requires
        old(cache)@.wf(),
        old(cache)@.next_encounter_id < u64::MAX,
    ensures
        (final(cache)@, signals@) == tick_step(old(cache)@, now),
        final(cache)@.wf(),
{
    let ghost c = cache@;
    let state = match cache.current_encounter() {
        Some(e) => e.state,
        None => EncounterState::NotStarted,
    };
    let cur_id = match cache.current_encounter() {
        Some(e) => e.id,
        None => 0,
    };
    if let Some(x) = cache.last_exit() {
        if whole_seconds_between(now, x) > grace_window_secs(cache) as i128 {
            cache.set_last_combat_exit_time(None);
            if let EncounterState::PostCombat { .. } = state {
                cache.push_new_encounter();
                let signals = vec![GameSignal::CombatEnded { timestamp: x, encounter_id: cur_id }];
                proof {
                    assert(signals@ =~= tick_step(c, now).1);
                }
                return signals;
            }
            let signals: Vec<GameSignal> = Vec::new();
            proof {
                assert(signals@ =~= Seq::<GameSignal>::empty());
            }
            return signals;
        }
    }
    let empty: Vec<GameSignal> = Vec::new();
    proof {
        assert(empty@ =~= Seq::<GameSignal>::empty());
    }
    if state != EncounterState::InCombat {
        return empty;
    }
    let last = match cache.current_encounter() {
        Some(e) => e.last_combat_activity_time,
        None => None,
    };
    if let Some(last) = last {
        if whole_seconds_between(now, last) >= COMBAT_TIMEOUT_SECONDS as i128 {
            end_current_at(cache, last);
            cache.set_last_combat_exit_time(None);
            cache.push_new_encounter();
            let signals = vec![GameSignal::CombatEnded { timestamp: last, encounter_id: cur_id }];
            proof {
                assert(signals@ =~= tick_step(c, now).1);
            }
            return signals;
        }
    }
    empty
}

/// Calls `chrono::Local::now` and reads it as milliseconds of the naive
/// local time. Nothing is claimed of the value: it is whatever the clock
/// says.
#[verifier::external_body]
pub(crate) fn local_now_millis() -> (r: i64) {
    chrono::Local::now().naive_local().and_utc().timestamp_millis()
}

/// Advances the combat state machine by the wall clock.  The result holds
/// whatever time it is: it is `tick_step` at some time.
pub fn tick_combat_state(cache: &mut SessionCache) -> (signals: Vec<GameSignal>)
    requires
        old(cache)@.wf(),
        old(cache)@.next_encounter_id < u64::MAX,
    ensures
        exists|now: i64| (final(cache)@, signals@) == tick_step(old(cache)@, now),
        final(cache)@.wf(),
{
    let now = local_now_millis();
    tick_combat_state_at(cache, now)
}

/// The session and the signals, all in order, after feeding it the events one
/// by one.
pub open spec fn process_all(c: SessionCacheView, evs: Seq<CombatStateEvent>) -> (
    SessionCacheView,
    Seq<GameSignal>,
)
    decreases evs.len(),
{
    if evs.len() == 0 {
        (c, Seq::empty())
    } else {
        let (c1, s1) = process_all(c, evs.drop_last());
        let st = advance_step(c1, evs.last());
        (st.0, s1 + st.1)
    }
}

proof fn lemma_process_all_ids(c: SessionCacheView, evs: Seq<CombatStateEvent>)
    requires
        c.next_encounter_id + evs.len() < u64::MAX,
    ensures
        process_all(c, evs).0.next_encounter_id <= c.next_encounter_id + evs.len(),
    decreases evs.len(),
{
    if evs.len() > 0 {
        lemma_process_all_ids(c, evs.drop_last());
        lemma_next_id_step(process_all(c, evs.drop_last()).0, evs.last());
    }
}

/// Feeds the events to the session one by one and collects every signal, in
/// order, for the signal handlers.  Without a session nothing happens and no
/// signal comes.
pub fn process_events(cache: &mut Option<SessionCache>, events: &Vec<CombatStateEvent>) -> (signals:
    Vec<GameSignal>)
    requires
        *old(cache) matches Some(c) ==> c@.wf() && c@.next_encounter_id + events@.len() < u64::MAX,
    ensures
        match *old(cache) {
            None => *final(cache) is None && signals@.len() == 0,
            Some(c) => *final(cache) matches Some(c2) && c2@.wf() && (c2@, signals@) == process_all(
                c@,
                events@,
            ),
        },
{
    let mut all: Vec<GameSignal> = Vec::new();
    match cache {
        Some(c) => {
            let ghost c0 = c@;
            let mut i: usize = 0;
            while i < events.len()
                invariant
                    i <= events@.len(),
                    c0.next_encounter_id + events@.len() < u64::MAX,
                    c@.wf(),
                    (c@, all@) == process_all(c0, events@.take(i as int)),
                decreases events@.len() - i,
            {
                proof {
                    let t = events@.take(i as int + 1);
                    assert(t.drop_last() =~= events@.take(i as int));
                    assert(t.last() == events@[i as int]);
                    lemma_process_all_ids(c0, events@.take(i as int));
                }
                let (mut more, _) = advance_combat_state(&events[i], c);
                let ghost before = all@;
                let ghost step = more@;
                all.append(&mut more);
                proof {
                    assert(all@ =~= before + step);
                }
                i += 1;
            }
            proof {
                assert(events@.take(i as int) =~= events@);
            }
        },
        None => {},
    }
    all
}

} // verus!
