//! Session state: the player, the current area and a window of the latest
//! encounters.
//!
//! Times are milliseconds on the log's (naive, local) clock.
use std::collections::{HashMap, VecDeque};
use vstd::prelude::*;

verus! {

broadcast use vstd::std_specs::vecdeque::axiom_spec_len;

/// How many encounters the session keeps; older ones are dropped.
pub const CACHE_DEFAULT_CAPACITY: usize = 3;

/// Where an encounter is in its combat lifecycle.
#[derive(Debug, Clone, Copy, PartialEq, Eq, Structural)]
pub enum EncounterState {
    NotStarted,
    InCombat,
    PostCombat { exit_time: i64 },
}

impl Default for EncounterState {
    fn default() -> (r: Self)
        ensures
            r == EncounterState::NotStarted,
    {
        EncounterState::NotStarted
    }
}

/// Per-entity totals accumulated over an encounter.  Threat is carried as
/// the bits of its `f64` value; nothing here computes with it.
#[derive(Debug, Clone, Copy, PartialEq, Eq, Structural)]
pub struct MetricAccumulator {
    pub damage_dealt: i64,
    pub damage_dealt_effective: i64,
    pub damage_received: i64,
    pub damage_absorbed: i64,
    pub healing_effective: i64,
    pub healing_done: i64,
    pub healing_received: i64,
    pub hit_count: u32,
    pub actions: u32,
    pub shielding_given: i64,
    pub threat_generated_bits: u64,
}

/// All totals zero.
pub open spec fn zero_metrics() -> MetricAccumulator {
    MetricAccumulator {
        damage_dealt: 0,
        damage_dealt_effective: 0,
        damage_received: 0,
        damage_absorbed: 0,
        healing_effective: 0,
        healing_done: 0,
        healing_received: 0,
        hit_count: 0,
        actions: 0,
        shielding_given: 0,
        threat_generated_bits: 0,
    }
}

impl Default for MetricAccumulator {
    fn default() -> (r: Self)
        ensures
            r == zero_metrics(),
    {
        MetricAccumulator {
            damage_dealt: 0,
            damage_dealt_effective: 0,
            damage_received: 0,
            damage_absorbed: 0,
            healing_effective: 0,
            healing_done: 0,
            healing_received: 0,
            hit_count: 0,
            actions: 0,
            shielding_given: 0,
            threat_generated_bits: 0,
        }
    }
}

/// An effect seen on an entity during the encounter.
#[derive(Debug, Clone, Copy, PartialEq, Eq, Structural)]
pub struct EffectInstance {
    pub effect_id: i64,
    pub source_id: i64,
    pub target_id: i64,
    pub applied_at: i64,
    pub removed_at: Option<i64>,
    pub is_shield: bool,
    /// The shield was used up: it absorbed a hit after being removed.
    pub has_absorbed: bool,
}

/// What the combat state machine reads of an NPC seen in the encounter.
#[derive(Debug, Clone, Copy, PartialEq, Eq, Structural)]
pub struct NpcInfo {
    pub class_id: i64,
    pub is_dead: bool,
    pub is_boss: bool,
}

/// What the combat state machine reads of a boss definition: the class ids
/// of all its kill targets, and whether it ends on a victory trigger.
#[derive(Debug)]
pub struct BossDefinition {
    pub kill_target_class_ids: Vec<i64>,
    pub has_victory_trigger: bool,
}

/// Mathematical model of a [`BossDefinition`].
pub struct BossDefinitionView {
    pub kill_target_class_ids: Seq<i64>,
    pub has_victory_trigger: bool,
}

impl View for BossDefinition {
    type V = BossDefinitionView;

    open spec fn view(&self) -> BossDefinitionView {
        BossDefinitionView {
            kill_target_class_ids: self.kill_target_class_ids@,
            has_victory_trigger: self.has_victory_trigger,
        }
    }
}

/// One encounter: its combat lifecycle fields, what decides when it ends,
/// and the record of the bookkeeping done for its events (line numbers).
#[derive(Debug)]
pub struct Encounter {
    pub id: u64,
    pub state: EncounterState,
    pub enter_combat_time: Option<i64>,
    pub exit_combat_time: Option<i64>,
    pub last_combat_activity_time: Option<i64>,
    pub all_players_dead: bool,
    pub npcs: Vec<NpcInfo>,
    pub boss_definitions: Vec<BossDefinition>,
    pub active_boss_idx: Option<usize>,
    pub victory_triggered: bool,
    /// The local player, when the session knew it as the encounter began.
    pub local_player: Option<i64>,
    /// Lines whose data was accumulated into the encounter's metrics.
    pub accumulated_lines: Vec<usize>,
    /// Lines that belong to the encounter.
    pub event_lines: Vec<usize>,
    /// Lines whose entities were tracked.
    pub entity_lines: Vec<usize>,
    /// Lines of effect applications tracked for shield attribution.
    pub applied_effect_lines: Vec<usize>,
    /// Lines of effect removals tracked for shield attribution.
    pub removed_effect_lines: Vec<usize>,
    /// Times at which the encounter's challenges were finalized.
    pub challenge_finalized_at: Vec<i64>,
    /// Effects on each entity, by the entity's id.
    pub effects: HashMap<i64, Vec<EffectInstance>>,
    /// Accumulated totals of each entity, by the entity's id.
    pub accumulated_data: HashMap<i64, MetricAccumulator>,
}

/// Mathematical model of an [`Encounter`].
pub struct EncounterView {
    pub id: u64,
    pub state: EncounterState,
    pub enter_combat_time: Option<i64>,
    pub exit_combat_time: Option<i64>,
    pub last_combat_activity_time: Option<i64>,
    pub all_players_dead: bool,
    pub npcs: Seq<NpcInfo>,
    pub boss_definitions: Seq<BossDefinitionView>,
    pub active_boss_idx: Option<usize>,
    pub victory_triggered: bool,
    pub local_player: Option<i64>,
    pub accumulated_lines: Seq<usize>,
    pub event_lines: Seq<usize>,
    pub entity_lines: Seq<usize>,
    pub applied_effect_lines: Seq<usize>,
    pub removed_effect_lines: Seq<usize>,
    pub challenge_finalized_at: Seq<i64>,
    pub effects: Map<i64, Seq<EffectInstance>>,
    pub accumulated_data: Map<i64, MetricAccumulator>,
}

impl View for Encounter {
    type V = EncounterView;

    open spec fn view(&self) -> EncounterView {
        EncounterView {
            id: self.id,
            state: self.state,
            enter_combat_time: self.enter_combat_time,
            exit_combat_time: self.exit_combat_time,
            last_combat_activity_time: self.last_combat_activity_time,
            all_players_dead: self.all_players_dead,
            npcs: self.npcs@,
            boss_definitions: self.boss_definitions@.map_values(|b: BossDefinition| b@),
            active_boss_idx: self.active_boss_idx,
            victory_triggered: self.victory_triggered,
            local_player: self.local_player,
            accumulated_lines: self.accumulated_lines@,
            event_lines: self.event_lines@,
            entity_lines: self.entity_lines@,
            applied_effect_lines: self.applied_effect_lines@,
            removed_effect_lines: self.removed_effect_lines@,
            challenge_finalized_at: self.challenge_finalized_at@,
            effects: effect_lists(self.effects@),
            accumulated_data: self.accumulated_data@,
        }
    }
}

/// A new encounter: not started, with nothing recorded.
pub open spec fn fresh_encounter(id: u64, local_player: Option<i64>) -> EncounterView {
    EncounterView {
        id,
        state: EncounterState::NotStarted,
        enter_combat_time: None,
        exit_combat_time: None,
        last_combat_activity_time: None,
        all_players_dead: false,
        npcs: Seq::empty(),
        boss_definitions: Seq::empty(),
        active_boss_idx: None,
        victory_triggered: false,
        local_player,
        accumulated_lines: Seq::empty(),
        event_lines: Seq::empty(),
        entity_lines: Seq::empty(),
        applied_effect_lines: Seq::empty(),
        removed_effect_lines: Seq::empty(),
        challenge_finalized_at: Seq::empty(),
        effects: Map::empty(),
        accumulated_data: Map::empty(),
    }
}

/// The effect lists of a map of vectors.
pub open spec fn effect_lists(m: Map<i64, Vec<EffectInstance>>) -> Map<i64, Seq<EffectInstance>> {
    Map::new(|k: i64| m.contains_key(k), |k: i64| m[k]@)
}

impl EncounterView {
    /// The active boss index points at a boss definition.
    pub open spec fn wf(self) -> bool {
        self.active_boss_idx matches Some(i) ==> i < self.boss_definitions.len()
    }
}

impl Encounter {
    /// A new encounter with the given id.
    pub fn new(id: u64) -> (r: Self)
        ensures
            r@ == fresh_encounter(id, None),
    {
        Self::create(id, None)
    }

    /// A new encounter with the given id that starts with the local player.
    pub fn with_player(id: u64, player_id: i64) -> (r: Self)
        ensures
            r@ == fresh_encounter(id, Some(player_id)),
    {
        Self::create(id, Some(player_id))
    }

    fn create(id: u64, local_player: Option<i64>) -> (r: Self)
        ensures
            r@ == fresh_encounter(id, local_player),
    {
        let r = Encounter {
            id,
            state: EncounterState::NotStarted,
            enter_combat_time: None,
            exit_combat_time: None,
            last_combat_activity_time: None,
            all_players_dead: false,
            npcs: Vec::new(),
            boss_definitions: Vec::new(),
            active_boss_idx: None,
            victory_triggered: false,
            local_player,
            accumulated_lines: Vec::new(),
            event_lines: Vec::new(),
            entity_lines: Vec::new(),
            applied_effect_lines: Vec::new(),
            removed_effect_lines: Vec::new(),
            challenge_finalized_at: Vec::new(),
            effects: HashMap::new(),
            accumulated_data: HashMap::new(),
        };
        proof {
            assert(r@.effects =~= Map::<i64, Seq<EffectInstance>>::empty());
            assert(r@.boss_definitions =~= Seq::<BossDefinitionView>::empty());
        }
        r
    }
}

impl Encounter {
    /// Records that the entities of the event on `line` were tracked.
    pub fn track_event_entities(&mut self, line: usize)
        ensures
            final(self)@ == (EncounterView {
                entity_lines: old(self)@.entity_lines.push(line),
                ..old(self)@
            }),
    {
        self.entity_lines.push(line);
    }

    /// Records that the data of the event on `line` was accumulated.
    pub fn accumulate_data(&mut self, line: usize)
        ensures
            final(self)@ == (EncounterView {
                accumulated_lines: old(self)@.accumulated_lines.push(line),
                ..old(self)@
            }),
    {
        self.accumulated_lines.push(line);
    }

    /// Records that `line` belongs to this encounter.
    pub fn track_event_line(&mut self, line: usize)
        ensures
            final(self)@ == (EncounterView { event_lines: old(self)@.event_lines.push(line), ..old(self)@ }),
    {
        self.event_lines.push(line);
    }

    /// Records the effect application on `line`.
    pub fn apply_effect(&mut self, line: usize)
        ensures
            final(self)@ == (EncounterView {
                applied_effect_lines: old(self)@.applied_effect_lines.push(line),
                ..old(self)@
            }),
    {
        self.applied_effect_lines.push(line);
    }

    /// Records the effect removal on `line`.
    pub fn remove_effect(&mut self, line: usize)
        ensures
            final(self)@ == (EncounterView {
                removed_effect_lines: old(self)@.removed_effect_lines.push(line),
                ..old(self)@
            }),
    {
        self.removed_effect_lines.push(line);
    }

    /// Ends combat at `t`: the exit time is set, the state becomes
    /// post-combat at `t`, and the challenges are finalized at `t`.
    pub fn end_combat_at(&mut self, t: i64)
        ensures
            final(self)@ == ended_at(old(self)@, t),
    {
        self.exit_combat_time = Some(t);
        self.state = EncounterState::PostCombat { exit_time: t };
        self.challenge_finalized_at.push(t);
    }
}

/// `e` with combat ended at `t`.
pub open spec fn ended_at(e: EncounterView, t: i64) -> EncounterView {
    EncounterView {
        exit_combat_time: Some(t),
        state: EncounterState::PostCombat { exit_time: t },
        challenge_finalized_at: e.challenge_finalized_at.push(t),
        ..e
    }
}

/// The local player.
#[derive(Debug, Clone, Copy, PartialEq, Eq, Structural)]
pub struct PlayerInfo {
    pub id: i64,
}

/// The area the player is in.
#[derive(Debug)]
pub struct AreaInfo {
    pub area_name: String,
    pub area_id: i64,
    pub entered_at: Option<i64>,
}

/// Session state: player, area, and a window of the latest encounters, the
/// last of which is the current one.
#[derive(Debug)]
pub struct SessionCache {
    pub player: PlayerInfo,
    pub player_initialized: bool,
    pub current_area: AreaInfo,
    pub(crate) encounters: VecDeque<Encounter>,
    pub(crate) next_encounter_id: u64,
    /// When combat last ended, while the grace window after it is open.
    pub last_combat_exit_time: Option<i64>,
}

/// Mathematical model of a [`SessionCache`].
pub struct SessionCacheView {
    pub player_id: i64,
    pub player_initialized: bool,
    pub area_name: Seq<char>,
    pub area_id: i64,
    pub area_entered_at: Option<i64>,
    pub encounters: Seq<EncounterView>,
    pub next_encounter_id: u64,
    pub last_combat_exit_time: Option<i64>,
}

impl View for SessionCache {
    type V = SessionCacheView;

    closed spec fn view(&self) -> SessionCacheView {
        SessionCacheView {
            player_id: self.player.id,
            player_initialized: self.player_initialized,
            area_name: self.current_area.area_name@,
            area_id: self.current_area.area_id,
            area_entered_at: self.current_area.entered_at,
            encounters: self.encounters@.map_values(|e: Encounter| e@),
            next_encounter_id: self.next_encounter_id,
            last_combat_exit_time: self.last_combat_exit_time,
        }
    }
}

impl SessionCacheView {
    /// At most the window's worth of encounters, each well formed, with ids
    /// increasing from oldest to newest and all below the next id to give.
    pub open spec fn wf(self) -> bool {
        &&& self.encounters.len() <= CACHE_DEFAULT_CAPACITY
        &&& forall|i: int| 0 <= i < self.encounters.len() ==> (#[trigger] self.encounters[i]).wf()
        &&& forall|i: int, j: int|
            0 <= i < j < self.encounters.len() ==> self.encounters[i].id < self.encounters[j].id
        &&& forall|i: int|
            0 <= i < self.encounters.len() ==> (#[trigger] self.encounters[i]).id
                < self.next_encounter_id
    }

    /// The current encounter: the newest one.
    pub open spec fn current(self) -> Option<EncounterView> {
        if self.encounters.len() == 0 {
            None
        } else {
            Some(self.encounters.last())
        }
    }

    /// The current encounter replaced by `e` (nothing changes when there is none).
    pub open spec fn with_current(self, e: EncounterView) -> Self {
        if self.encounters.len() == 0 {
            self
        } else {
            SessionCacheView { encounters: self.encounters.drop_last().push(e), ..self }
        }
    }

    /// The current encounter's id, or 0 when there is none.
    pub open spec fn current_id(self) -> u64 {
        match self.current() {
            Some(e) => e.id,
            None => 0,
        }
    }

    /// The session after `push_new_encounter`: a fresh encounter with the
    /// next id (carrying the local player once known) appended, the oldest
    /// dropped beyond the window.
    pub open spec fn pushed(self) -> Self {
        let e = fresh_encounter(
            self.next_encounter_id,
            if self.player_initialized {
                Some(self.player_id)
            } else {
                None
            },
        );
        let all = self.encounters.push(e);
        SessionCacheView {
            encounters: if all.len() > CACHE_DEFAULT_CAPACITY {
                all.subrange(all.len() - CACHE_DEFAULT_CAPACITY, all.len() as int)
            } else {
                all
            },
            next_encounter_id: (self.next_encounter_id + 1) as u64,
            ..self
        }
    }

    /// The newest encounter with the given id.
    pub open spec fn encounter_with_id(self, id: u64) -> Option<EncounterView> {
        if exists|i: int| 0 <= i < self.encounters.len() && self.encounters[i].id == id {
            Some(
                self.encounters[choose|i: int|
                    0 <= i < self.encounters.len() && self.encounters[i].id == id],
            )
        } else {
            None
        }
    }
}

/// Replacing the current encounter by one with the same id keeps the
/// session well formed.
pub proof fn lemma_with_current_wf(c: SessionCacheView, e: EncounterView)
    requires
        c.wf(),
        c.current() matches Some(cur) && cur.id == e.id,
        e.wf(),
    ensures
        c.with_current(e).wf(),
{
    let n = c.encounters.len();
    let d = c.with_current(e);
    assert forall|i: int| 0 <= i < n implies (#[trigger] d.encounters[i]).id == c.encounters[i].id
        && d.encounters[i].wf() by {
        if i < n - 1 {
            assert(d.encounters[i] == c.encounters[i]);
        }
    }
}

impl SessionCache {
    /// A session with nothing known and one fresh encounter, numbered 0.
    pub fn new() -> (r: Self)
        ensures
            r@.wf(),
            r@.player_initialized == false,
            r@.last_combat_exit_time is None,
            r@.next_encounter_id == 1,
            r@.encounters == seq![fresh_encounter(0, None)],
    {
        let mut cache = SessionCache {
            player: PlayerInfo { id: 0 },
            player_initialized: false,
            current_area: AreaInfo { area_name: String::new(), area_id: 0, entered_at: None },
            encounters: VecDeque::new(),
            next_encounter_id: 0,
            last_combat_exit_time: None,
        };
        proof {
            assert(cache@.encounters =~= Seq::<EncounterView>::empty());
        }
        cache.push_new_encounter();
        proof {
            assert(cache@.encounters =~= seq![fresh_encounter(0, None)]);
        }
        cache
    }

    /// Starts a new encounter with the next id and returns that id; only
    /// the latest encounters stay.
    pub fn push_new_encounter(&mut self) -> (id: u64)
        requires
            old(self)@.wf(),
            old(self)@.next_encounter_id < u64::MAX,
        ensures
            id == old(self)@.next_encounter_id,
            final(self)@ == old(self)@.pushed(),
            final(self)@.wf(),
    {
        let id = self.next_encounter_id;
        let encounter = if self.player_initialized {
            Encounter::with_player(id, self.player.id)
        } else {
            Encounter::new(id)
        };
        let ghost before = self@;
        let ghost ev = encounter@;
        self.next_encounter_id = self.next_encounter_id + 1;
        self.encounters.push_back(encounter);
        proof {
            assert(self@.encounters =~= before.encounters.push(ev));
        }
        self.trim_old_encounters();
        proof {
            let all = before.encounters.push(ev);
            if all.len() > CACHE_DEFAULT_CAPACITY {
                assert(self@.encounters =~= all.subrange(
                    all.len() - CACHE_DEFAULT_CAPACITY,
                    all.len() as int,
                ));
            }
            assert(self@ == before.pushed());
        }
        id
    }

    fn trim_old_encounters(&mut self)
        ensures
            final(self)@ == (SessionCacheView {
                encounters: if old(self)@.encounters.len() > CACHE_DEFAULT_CAPACITY {
                    old(self)@.encounters.subrange(
                        old(self)@.encounters.len() - CACHE_DEFAULT_CAPACITY,
                        old(self)@.encounters.len() as int,
                    )
                } else {
                    old(self)@.encounters
                },
                ..old(self)@
            }),
    {
        let ghost start = self.encounters@;
        while self.encounters.len() > CACHE_DEFAULT_CAPACITY
            invariant
                self@ == (SessionCacheView { encounters: self@.encounters, ..old(self)@ }),
                self@.encounters == self.encounters@.map_values(|e: Encounter| e@),
                start == old(self).encounters@,
                self.encounters@.len() <= start.len(),
                start.len() > CACHE_DEFAULT_CAPACITY ==> self.encounters@.len()
                    >= CACHE_DEFAULT_CAPACITY,
                start.len() <= CACHE_DEFAULT_CAPACITY ==> self.encounters@ == start,
                self.encounters@ == start.subrange(
                    start.len() - self.encounters@.len(),
                    start.len() as int,
                ),
            decreases self.encounters@.len(),
        {
            let ghost before = self.encounters@;
            let _ = self.encounters.pop_front();
            proof {
                assert(self.encounters@ =~= start.subrange(
                    start.len() - self.encounters@.len(),
                    start.len() as int,
                ));
            }
        }
        proof {
            if start.len() > CACHE_DEFAULT_CAPACITY {
                assert(self@.encounters =~= start.map_values(|e: Encounter| e@).subrange(
                    start.len() - CACHE_DEFAULT_CAPACITY,
                    start.len() as int,
                ));
            } else {
                assert(self.encounters@ =~= start);
            }
        }
    }

    /// The current (newest) encounter.
    pub fn current_encounter(&self) -> (r: Option<&Encounter>)
        ensures
            match r {
                Some(e) => self@.current() == Some(e@),
                None => self@.current() is None,
            },
    {
        let n = self.encounters.len();
        if n == 0 {
            None
        } else {
            Some(&self.encounters[n - 1])
        }
    }

    /// The encounters, oldest first.
    pub fn encounters(&self) -> (r: Vec<&Encounter>)
        ensures
            r@.len() == self@.encounters.len(),
            forall|i: int| 0 <= i < r@.len() ==> r@[i]@ == self@.encounters[i],
    {
        let mut r: Vec<&Encounter> = Vec::new();
        let mut i: usize = 0;
        while i < self.encounters.len()
            invariant
                i <= self@.encounters.len(),
                r@.len() == i,
                forall|j: int| 0 <= j < i ==> r@[j]@ == self@.encounters[j],
            decreases self@.encounters.len() - i,
        {
            r.push(&self.encounters[i]);
            i = i + 1;
        }
        r
    }

    /// The encounter with the given id, if it is still kept.
    pub fn encounter_by_id(&self, id: u64) -> (r: Option<&Encounter>)
        requires
            self@.wf(),
        ensures
            match r {
                Some(e) => self@.encounter_with_id(id) == Some(e@),
                None => self@.encounter_with_id(id) is None,
            },
    {
        let mut i: usize = 0;
        while i < self.encounters.len()
            invariant
                i <= self@.encounters.len(),
                self@.wf(),
                self@.encounters == self.encounters@.map_values(|e: Encounter| e@),
                forall|j: int| 0 <= j < i ==> self@.encounters[j].id != id,
            decreases self@.encounters.len() - i,
        {
            if self.encounters[i].id == id {
                proof {
                    assert(self@.encounters[i as int].id == id);
                    let k = choose|k: int|
                        0 <= k < self@.encounters.len() && self@.encounters[k].id == id;
                    if k < i {
                        assert(self@.encounters[k].id < self@.encounters[i as int].id);
                    } else if k > i {
                        assert(self@.encounters[i as int].id < self@.encounters[k].id);
                    }
                }
                return Some(&self.encounters[i]);
            }
            i = i + 1;
        }
        None
    }

    /// The newest encounter in which combat started.
    pub fn last_combat_encounter(&self) -> (r: Option<&Encounter>)
        ensures
            match r {
                Some(e) => exists|i: int|
                    0 <= i < self@.encounters.len() && self@.encounters[i] == e@ && e@.state
                        != EncounterState::NotStarted && forall|j: int|
                        i < j < self@.encounters.len() ==> self@.encounters[j].state
                            == EncounterState::NotStarted,
                None => forall|j: int|
                    0 <= j < self@.encounters.len() ==> self@.encounters[j].state
                        == EncounterState::NotStarted,
            },
    {
        let mut i = self.encounters.len();
        while i > 0
            invariant
                i <= self@.encounters.len(),
                self@.encounters == self.encounters@.map_values(|e: Encounter| e@),
                forall|j: int|
                    i <= j < self@.encounters.len() ==> self@.encounters[j].state
                        == EncounterState::NotStarted,
            decreases i,
        {
            if self.encounters[i - 1].state != EncounterState::NotStarted {
                proof {
                    assert(self@.encounters[i - 1] == self.encounters@[i - 1]@);
                }
                return Some(&self.encounters[i - 1]);
            }
            i = i - 1;
        }
        None
    }

    /// Removes the current encounter so that it can be changed.
    pub fn take_current(&mut self) -> (r: Option<Encounter>)
        ensures
            match r {
                Some(e) => {
                    &&& old(self)@.current() == Some(e@)
                    &&& final(self)@ == (SessionCacheView {
                        encounters: old(self)@.encounters.drop_last(),
                        ..old(self)@
                    })
                },
                None => old(self)@.current() is None && final(self)@ == old(self)@,
            },
    {
        let ghost before = self.encounters@;
        let r = self.encounters.pop_back();
        proof {
            if r is Some {
                assert(self.encounters@.map_values(|e: Encounter| e@) =~= before.map_values(
                    |e: Encounter| e@,
                ).drop_last());
            }
        }
        r
    }

    /// Puts back the current encounter taken by [`SessionCache::take_current`].
    pub fn restore_current(&mut self, e: Encounter)
        ensures
            final(self)@ == (SessionCacheView {
                encounters: old(self)@.encounters.push(e@),
                ..old(self)@
            }),
    {
        let ghost before = self.encounters@;
        let ghost ev = e@;
        self.encounters.push_back(e);
        proof {
            assert(self.encounters@.map_values(|e: Encounter| e@) =~= before.map_values(
                |e: Encounter| e@,
            ).push(ev));
        }
    }

    /// Sets when combat last ended (`None` closes the grace window).
    pub fn set_last_combat_exit_time(&mut self, t: Option<i64>)
        ensures
            final(self)@ == (SessionCacheView { last_combat_exit_time: t, ..old(self)@ }),
    {
        self.last_combat_exit_time = t;
    }

    /// The local player's id and whether it is known yet.
    pub fn player_state(&self) -> (r: (i64, bool))
        ensures
            r == (self@.player_id, self@.player_initialized),
    {
        (self.player.id, self.player_initialized)
    }

    /// When combat last ended, while the grace window is open.
    pub fn last_exit(&self) -> (r: Option<i64>)
        ensures
            r == self@.last_combat_exit_time,
    {
        self.last_combat_exit_time
    }

    /// The id the next encounter will get.
    pub fn next_id(&self) -> (r: u64)
        ensures
            r == self@.next_encounter_id,
    {
        self.next_encounter_id
    }

    /// How many encounters are kept.
    pub fn encounter_count(&self) -> (r: usize)
        ensures
            r == self@.encounters.len(),
    {
        self.encounters.len()
    }
}

} // verus!
