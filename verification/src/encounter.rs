//! Grouping of a stream of parsed combat events into encounters, driven by
//! the enter-combat and exit-combat events of the log.
use crate::event_models::{CombatEvent, Effect, Timestamp};
use crate::game_ids::{DAMAGE, ENTER_COMBAT, EXIT_COMBAT};
use vstd::prelude::*;

verus! {

/// How long after leaving combat damage events still belong to the
/// encounter that just ended.
pub const POST_COMBAT_THRESHOLD_MS: i128 = 5000;

/// Where the builder is in the combat cycle.
#[derive(Debug, Clone, Copy, PartialEq, Eq, Structural)]
pub enum CombatState {
    Idle,
    InCombat,
    PostCombat { exit_time: Timestamp },
}

impl Default for CombatState {
    fn default() -> (r: Self)
        ensures
            r == CombatState::Idle,
    {
        CombatState::Idle
    }
}

/// The events of one encounter.
#[derive(Debug, Clone)]
pub struct Encounter {
    pub events: Vec<CombatEvent>,
    pub enter_time: Option<u64>,
    pub exit_time: Option<u64>,
    pub combat_state: CombatState,
}

/// Mathematical model of an [`Encounter`].
pub struct EncounterRecord {
    pub events: Seq<CombatEvent>,
    pub enter_time: Option<u64>,
    pub exit_time: Option<u64>,
    pub combat_state: CombatState,
}

impl View for Encounter {
    type V = EncounterRecord;

    open spec fn view(&self) -> EncounterRecord {
        EncounterRecord {
            events: self.events@,
            enter_time: self.enter_time,
            exit_time: self.exit_time,
            combat_state: self.combat_state,
        }
    }
}

/// An encounter holding the given events and nothing else.
pub open spec fn record_of(events: Seq<CombatEvent>) -> EncounterRecord {
    EncounterRecord { events, enter_time: None, exit_time: None, combat_state: CombatState::Idle }
}

impl Default for Encounter {
    fn default() -> (r: Self)
        ensures
            r@ == record_of(Seq::empty()),
    {
        Encounter::new()
    }
}

impl Encounter {
    fn new() -> (r: Encounter)
        ensures
            r@ == record_of(Seq::empty()),
    {
        Encounter {
            events: Vec::new(),
            enter_time: None,
            exit_time: None,
            combat_state: CombatState::Idle,
        }
    }
}

/// Builds encounters out of a stream of events: events before combat are
/// buffered, an encounter runs from entering combat to leaving it, and damage
/// shortly after leaving combat still counts towards it.
#[derive(Debug)]
pub struct EncounterBuilder {
    state: CombatState,
    buffer: Vec<CombatEvent>,
    current: Option<Encounter>,
    completed: Vec<Encounter>,
    post_combat_threshold_ms: i128,
}

/// Mathematical model of an [`EncounterBuilder`].
pub struct BuilderView {
    pub state: CombatState,
    pub buffer: Seq<CombatEvent>,
    pub current: Option<EncounterRecord>,
    pub completed: Seq<EncounterRecord>,
    pub threshold_ms: i128,
}

impl View for EncounterBuilder {
    type V = BuilderView;

    closed spec fn view(&self) -> BuilderView {
        BuilderView {
            state: self.state,
            buffer: self.buffer@,
            current: match self.current {
                Some(e) => Some(e@),
                None => None,
            },
            completed: self.completed@.map_values(|e: Encounter| e@),
            threshold_ms: self.post_combat_threshold_ms,
        }
    }
}

impl BuilderView {
    /// An encounter is open exactly when the builder is not idle.
    pub open spec fn wf(self) -> bool {
        (self.state == CombatState::Idle) == (self.current is None)
    }

    /// The open encounter, if any, moved to the completed ones.
    pub open spec fn finalized(self) -> BuilderView {
        match self.current {
            Some(e) => BuilderView { completed: self.completed.push(e), current: None, ..self },
            None => self,
        }
    }

    /// The open encounter with `ev` added.
    pub open spec fn with_event(self, ev: CombatEvent) -> BuilderView {
        match self.current {
            Some(e) => BuilderView {
                current: Some(EncounterRecord { events: e.events.push(ev), ..e }),
                ..self
            },
            None => self,
        }
    }
}

/// The effect id an event carries: that of its standard effect; events with
/// other effects carry none that is ever compared against, written as 0.
pub open spec fn effect_id_of(ev: CombatEvent) -> i64 {
    match ev.effect {
        Effect::Standard { id, .. } => id,
        _ => 0,
    }
}

/// The builder after one event.  While idle, entering combat opens an
/// encounter with the buffered events; every other non-damage event is
/// buffered, and damage is dropped.
pub open spec fn processed(b: BuilderView, ev: CombatEvent) -> BuilderView {
    let id = effect_id_of(ev);
    match b.state {
        CombatState::Idle => {
            if id == ENTER_COMBAT {
                BuilderView {
                    current: Some(record_of(b.buffer.push(ev))),
                    buffer: Seq::empty(),
                    state: CombatState::InCombat,
                    ..b
                }
            } else if id != DAMAGE {
                BuilderView { buffer: b.buffer.push(ev), ..b }
            } else {
                b
            }
        },
        CombatState::InCombat => {
            if id == EXIT_COMBAT {
                BuilderView {
                    state: CombatState::PostCombat { exit_time: ev.timestamp },
                    ..b.with_event(ev)
                }
            } else {
                b.with_event(ev)
            }
        },
        CombatState::PostCombat { exit_time } => {
            if id == ENTER_COMBAT {
                BuilderView {
                    current: Some(record_of(seq![ev])),
                    state: CombatState::InCombat,
                    ..b.finalized()
                }
            } else if id == DAMAGE {
                if ev.timestamp.millis_of_day() - exit_time.millis_of_day() <= b.threshold_ms {
                    b.with_event(ev)
                } else {
                    BuilderView { state: CombatState::Idle, ..b.finalized() }
                }
            } else {
                BuilderView {
                    buffer: b.buffer.push(ev),
                    state: CombatState::Idle,
                    ..b.finalized()
                }
            }
        },
    }
}

/// The number of events in a sequence of encounters.
pub open spec fn events_in(encs: Seq<EncounterRecord>) -> nat
    decreases encs.len(),
{
    if encs.len() == 0 {
        0
    } else {
        events_in(encs.drop_last()) + encs.last().events.len()
    }
}

/// The number of events the builder holds: buffered, in the open encounter
/// and in the completed ones.
pub open spec fn events_held(b: BuilderView) -> nat {
    b.buffer.len() + match b.current {
        Some(e) => e.events.len(),
        None => 0,
    } + events_in(b.completed)
}

/// Damage that comes after the post-combat window has closed.
pub open spec fn is_late_damage(b: BuilderView, ev: CombatEvent) -> bool {
    &&& b.state is PostCombat
    &&& effect_id_of(ev) == DAMAGE
    &&& ev.timestamp.millis_of_day() - b.state->exit_time.millis_of_day() > b.threshold_ms
}

/// No event is dropped but damage outside combat: damage while idle, and
/// damage that comes after the post-combat window (which closes the
/// encounter). Every other event is held afterwards, in the buffer or in an
/// encounter.
pub proof fn lemma_no_event_lost(b: BuilderView, ev: CombatEvent)
    requires
        b.wf(),
    ensures
        events_held(processed(b, ev)) == events_held(b) + (if is_late_damage(b, ev) || (b.state
            == CombatState::Idle && effect_id_of(ev) == DAMAGE) {
            0int
        } else {
            1int
        }),
{
    if b.state != CombatState::Idle {
        let e = b.current->0;
        assert(b.completed.push(e).drop_last() =~= b.completed);
    }
}

/// The effect id of an event's standard effect, or 0.
fn effect_id(ev: &CombatEvent) -> (r: i64)
    ensures
        r == effect_id_of(*ev),
{
    match &ev.effect {
        Effect::Standard { id, .. } => *id,
        _ => 0,
    }
}

/// Milliseconds since midnight of a time of day.
fn timestamp_millis(t: &Timestamp) -> (r: i64)
    ensures
        r == t.millis_of_day(),
{
    ((t.hour as i64 * 60 + t.minute as i64) * 60 + t.second as i64) * 1000 + t.millis as i64
}

impl EncounterBuilder {
    /// An idle builder with nothing buffered or completed.
    pub fn new() -> (r: Self)
        ensures
            r@ == (BuilderView {
                state: CombatState::Idle,
                buffer: Seq::empty(),
                current: None,
                completed: Seq::empty(),
                threshold_ms: POST_COMBAT_THRESHOLD_MS,
            }),
            r@.wf(),
    {
        let r = EncounterBuilder {
            state: CombatState::Idle,
            buffer: Vec::new(),
            current: None,
            completed: Vec::new(),
            post_combat_threshold_ms: POST_COMBAT_THRESHOLD_MS,
        };
        proof {
            assert(r@.completed =~= Seq::<EncounterRecord>::empty());
        }
        r
    }

    /// Where the builder is in the combat cycle.
    pub fn state(&self) -> (r: CombatState)
        ensures
            r == self@.state,
    {
        self.state
    }

    /// The encounter in progress, if any.
    pub fn current(&self) -> (r: Option<&Encounter>)
        ensures
            (match r {
                Some(e) => Some(e@),
                None => None,
            }) == self@.current,
    {
        match &self.current {
            Some(e) => Some(e),
            None => None,
        }
    }

    /// The encounters completed so far, oldest first.
    pub fn completed(&self) -> (r: &Vec<Encounter>)
        ensures
            r@.map_values(|e: Encounter| e@) == self@.completed,
    {
        &self.completed
    }

    /// Feeds one event to the builder.
    pub fn process(&mut self, event: CombatEvent)
        requires
            old(self)@.wf(),
        ensures
            final(self)@ == processed(old(self)@, event),
            final(self)@.wf(),
    {
        let id = effect_id(&event);
        match self.state {
            // Idle: buffer non-damage, start encounter on CombatEnter
            CombatState::Idle => {
                if id == ENTER_COMBAT {
                    let mut enc = Encounter::new();
                    enc.events.append(&mut self.buffer);  // drain pre-combat
                    enc.events.push(event);
                    self.current = Some(enc);
                    self.state = CombatState::InCombat;
                } else if id != DAMAGE {
                    self.buffer.push(event);
                }
            },
            // InCombat: collect everything, transition on CombatExit
            CombatState::InCombat => {
                let exit_time = event.timestamp;
                self.push_current(event);
                if id == EXIT_COMBAT {
                    self.state = CombatState::PostCombat { exit_time };
                }
            },
            // PostCombat: collect damage within threshold, finalize on
            // CombatEnter or timeout
            CombatState::PostCombat { exit_time } => {
                if id == ENTER_COMBAT {
                    self.finalize_current();
                    // Start new encounter
                    let mut enc = Encounter::new();
                    enc.events.push(event);
                    self.current = Some(enc);
                    self.state = CombatState::InCombat;
                    proof {
                        assert(self@.current->0.events =~= seq![event]);
                    }
                } else if id == DAMAGE {
                    let since: i128 = timestamp_millis(&event.timestamp) as i128
                        - timestamp_millis(&exit_time) as i128;
                    if since <= self.post_combat_threshold_ms {
                        self.push_current(event);
                    } else {
                        self.finalize_current();
                        self.state = CombatState::Idle;
                    }
                } else {
                    // Non-damage after exit → buffer for next encounter
                    self.finalize_current();
                    self.buffer.push(event);
                    self.state = CombatState::Idle;
                }
            },
        }
    }

    fn push_current(&mut self, event: CombatEvent)
        ensures
            final(self)@ == old(self)@.with_event(event),
    {
        match &mut self.current {
            Some(enc) => {
                enc.events.push(event);
            },
            None => {},
        }
    }

    fn finalize_current(&mut self)
        ensures
            final(self)@ == old(self)@.finalized(),
    {
        if let Some(enc) = self.current.take() {
            self.completed.push(enc);
            proof {
                assert(self@.completed =~= old(self)@.completed.push(enc@));
            }
        }
    }
}

} // verus!
