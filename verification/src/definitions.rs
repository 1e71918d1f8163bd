//! Effect and timer definitions: templates, loaded from config files, that
//! describe what effects and timers to track and how to show them; and the
//! combined set of them, keyed by id.
//!
//! Durations, thresholds and percentages are single-precision floats in the
//! config files; here they are carried as their IEEE-754 bits
//! (`f32::to_bits`), since nothing in this module computes with them.
use crate::text::str_eq;
use crate::tracking::{category_color, EffectCategory, EntityFilter};
use vstd::prelude::*;

verus! {

/// Definition of an effect to track (loaded from config).
///
/// This is the "template" that describes what game effect to watch for
/// and how to display it.
#[derive(Debug, Clone)]
pub struct EffectDefinition {
    /// Unique identifier for this definition (e.g., "kolto_probe")
    pub id: String,
    /// Display name shown in overlays
    pub name: String,
    /// Whether this definition is currently enabled
    pub enabled: bool,
    /// Game effect IDs that match this definition
    pub effect_ids: Vec<u64>,
    /// Ability IDs that can apply or refresh this effect
    pub refresh_abilities: Vec<u64>,
    /// Who must apply the effect for it to be tracked
    pub source: EntityFilter,
    /// Who must receive the effect for it to be tracked
    pub target: EntityFilter,
    /// Expected duration in seconds, as `f32` bits (None = indefinite/unknown)
    pub duration_secs_bits: Option<u32>,
    /// Can this effect be refreshed by reapplication?
    pub can_be_refreshed: bool,
    /// Effect category (determines default color)
    pub category: EffectCategory,
    /// Override color as RGBA (None = use category default)
    pub color: Option<[u8; 4]>,
    /// Maximum stacks to display (0 = don't show stacks)
    pub max_stacks: u8,
    /// Should this effect persist after target dies?
    pub persist_past_death: bool,
    /// Track this effect outside of combat?
    pub track_outside_combat: bool,
    /// Timer ID to start when this effect is applied
    pub on_apply_trigger_timer: Option<String>,
    /// Timer ID to start when this effect expires/is removed
    pub on_expire_trigger_timer: Option<String>,
    /// Only track in specific encounters (empty = all encounters)
    pub encounters: Vec<String>,
    /// Show visual warning when effect is about to expire
    pub alert_near_expiration: bool,
    /// Seconds before expiration to show warning, as `f32` bits
    pub alert_threshold_secs_bits: u32,
}

/// The colour an effect is shown in: its override, or its category's.
pub open spec fn effective_color_of(d: EffectDefinition) -> [u8; 4] {
    match d.color {
        Some(c) => c,
        None => category_color(d.category),
    }
}

impl EffectDefinition {
    /// Get the effective color (override or category default)
    pub fn effective_color(&self) -> (r: [u8; 4])
        ensures
            r == effective_color_of(*self),
    {
        match self.color {
            Some(c) => c,
            None => self.category.default_color(),
        }
    }

    /// Check if an effect ID matches this definition
    pub fn matches_effect(&self, effect_id: u64) -> (r: bool)
        ensures
            r == self.effect_ids@.contains(effect_id),
    {
        contains_id(&self.effect_ids, effect_id)
    }

    /// Check if an ability can refresh this effect
    pub fn can_refresh_with(&self, ability_id: u64) -> (r: bool)
        ensures
            r == self.refresh_abilities@.contains(ability_id),
    {
        contains_id(&self.refresh_abilities, ability_id)
    }
}

/// Whether `ids` holds `id`.
fn contains_id(ids: &Vec<u64>, id: u64) -> (r: bool)
    ensures
        r == ids@.contains(id),
{
    let mut i: usize = 0;
    while i < ids.len()
        invariant
            i <= ids@.len(),
            forall|j: int| 0 <= j < i ==> ids@[j] != id,
        decreases ids@.len() - i,
    {
        if ids[i] == id {
            return true;
        }
        i = i + 1;
    }
    false
}

/// What triggers a timer to start.
#[derive(Debug, Clone)]
pub enum TimerTrigger {
    /// Combat starts
    CombatStart,
    /// Specific ability is cast
    AbilityCast {
        /// Ability IDs that trigger this timer
        ability_ids: Vec<u64>,
    },
    /// Effect is applied to someone
    EffectApplied {
        /// Effect IDs that trigger this timer
        effect_ids: Vec<u64>,
    },
    /// Effect is removed from someone
    EffectRemoved {
        /// Effect IDs that trigger this timer
        effect_ids: Vec<u64>,
    },
    /// Another timer expires (chaining)
    TimerExpires {
        /// ID of the timer that triggers this one
        timer_id: String,
    },
    /// Boss HP reaches a threshold
    BossHpThreshold {
        /// HP percentage (0.0 - 100.0), as `f32` bits
        hp_percent_bits: u32,
    },
    /// Manually triggered (for testing/debug)
    Manual,
}

/// Definition of a timer (loaded from config).
#[derive(Debug, Clone)]
pub struct TimerDefinition {
    /// Unique identifier for this timer
    pub id: String,
    /// Display name shown in overlays
    pub name: String,
    /// Whether this timer is currently enabled
    pub enabled: bool,
    /// What causes this timer to start
    pub trigger: TimerTrigger,
    /// Source filter for trigger events
    pub source: EntityFilter,
    /// Target filter for trigger events
    pub target: EntityFilter,
    /// Timer duration in seconds, as `f32` bits
    pub duration_secs_bits: u32,
    /// If true, resets duration when triggered again
    pub can_be_refreshed: bool,
    /// Number of times this repeats after initial trigger (0 = no repeat)
    pub repeats: u8,
    /// Display color as RGBA
    pub color: [u8; 4],
    /// Show on raid frames instead of timer bar overlay?
    pub show_on_raid_frames: bool,
    /// Alert when this many seconds remain, as `f32` bits (None = no alert)
    pub alert_at_secs_bits: Option<u32>,
    /// Custom alert text (None = use timer name)
    pub alert_text: Option<String>,
    /// Audio file to play on alert
    pub audio_file: Option<String>,
    /// Timer ID to trigger when this one expires
    pub triggers_timer: Option<String>,
    /// Only active in specific encounters (empty = all)
    pub encounters: Vec<String>,
    /// Specific boss name (if applicable)
    pub boss: Option<String>,
    /// Active difficulties: "story", "veteran", "master"
    pub difficulties: Vec<String>,
}

/// Root structure for effect/timer config files.
#[derive(Debug, Clone)]
pub struct DefinitionConfig {
    /// Effect definitions in this file
    pub effects: Vec<EffectDefinition>,
    /// Timer definitions in this file
    pub timers: Vec<TimerDefinition>,
}

impl Default for DefinitionConfig {
    fn default() -> (r: Self)
        ensures
            r.effects@ == Seq::<EffectDefinition>::empty(),
            r.timers@ == Seq::<TimerDefinition>::empty(),
    {
        DefinitionConfig { effects: Vec::new(), timers: Vec::new() }
    }
}

// ───────────────────────── definitions keyed by id ─────────────────────────

/// A definition with a string id.
pub trait Identified {
    /// The id, as characters.
    spec fn ident(&self) -> Seq<char>;

    /// The id.
    fn id_str(&self) -> (r: &str)
        ensures
            r@ == self.ident(),
    ;
}

impl Identified for EffectDefinition {
    open spec fn ident(&self) -> Seq<char> {
        self.id@
    }

    fn id_str(&self) -> (r: &str) {
        self.id.as_str()
    }
}

impl Identified for TimerDefinition {
    open spec fn ident(&self) -> Seq<char> {
        self.id@
    }

    fn id_str(&self) -> (r: &str) {
        self.id.as_str()
    }
}

/// The items of `s` by id; of items with the same id, the last counts.
pub open spec fn by_id<T: Identified>(s: Seq<T>) -> Map<Seq<char>, T>
    decreases s.len(),
{
    if s.len() == 0 {
        Map::empty()
    } else {
        by_id(s.drop_last()).insert(s.last().ident(), s.last())
    }
}

/// No two items of `s` share an id.
pub open spec fn unique_ids<T: Identified>(s: Seq<T>) -> bool {
    forall|i: int, j: int|
        0 <= i < s.len() && 0 <= j < s.len() && i != j ==> s[i].ident() != s[j].ident()
}

/// `m` after adding the items of `es` in order, each replacing any earlier
/// item with its id.
pub open spec fn added<T: Identified>(m: Map<Seq<char>, T>, es: Seq<T>) -> Map<Seq<char>, T>
    decreases es.len(),
{
    if es.len() == 0 {
        m
    } else {
        added(m, es.drop_last()).insert(es.last().ident(), es.last())
    }
}

/// The ids of the items of `es` that replaced an item already there when
/// added to `m` in order, in the order they were added.
pub open spec fn replaced_ids<T: Identified>(m: Map<Seq<char>, T>, es: Seq<T>) -> Seq<Seq<char>>
    decreases es.len(),
{
    if es.len() == 0 {
        Seq::empty()
    } else {
        let before = added(m, es.drop_last());
        replaced_ids(m, es.drop_last()) + if before.contains_key(es.last().ident()) {
            seq![es.last().ident()]
        } else {
            Seq::empty()
        }
    }
}

/// Every id of `s` is a key of [`by_id`], and the item there is the one
/// with that id.
proof fn lemma_by_id_index<T: Identified>(s: Seq<T>, i: int)
    requires
        unique_ids(s),
        0 <= i < s.len(),
    ensures
        by_id(s).contains_key(s[i].ident()),
        by_id(s)[s[i].ident()] == s[i],
    decreases s.len(),
{
    if i < s.len() - 1 {
        let t = s.drop_last();
        assert(unique_ids(t)) by {
            assert forall|a: int, b: int|
                0 <= a < t.len() && 0 <= b < t.len() && a != b implies t[a].ident()
                != t[b].ident() by {
                assert(t[a] == s[a] && t[b] == s[b]);
            }
        }
        assert(t[i] == s[i]);
        lemma_by_id_index(t, i);
        assert(s.last().ident() != s[i].ident());
    }
}

/// The keys of [`by_id`] are exactly the ids of the items.
proof fn lemma_by_id_keys<T: Identified>(s: Seq<T>, k: Seq<char>)
    ensures
        by_id(s).contains_key(k) <==> exists|i: int| 0 <= i < s.len() && #[trigger] s[i].ident() == k,
    decreases s.len(),
{
    if s.len() > 0 {
        let t = s.drop_last();
        lemma_by_id_keys(t, k);
        if by_id(s).contains_key(k) {
            if k != s.last().ident() {
                let i = choose|i: int| 0 <= i < t.len() && #[trigger] t[i].ident() == k;
                assert(s[i] == t[i]);
            } else {
                assert(s[s.len() - 1].ident() == k);
            }
        }
        if exists|i: int| 0 <= i < s.len() && #[trigger] s[i].ident() == k {
            let i = choose|i: int| 0 <= i < s.len() && #[trigger] s[i].ident() == k;
            if i < s.len() - 1 {
                assert(t[i] == s[i]);
            }
        }
    }
}

/// Replacing an item by one with the same id replaces it in [`by_id`].
proof fn lemma_by_id_update<T: Identified>(s: Seq<T>, j: int, x: T)
    requires
        unique_ids(s),
        0 <= j < s.len(),
        s[j].ident() == x.ident(),
    ensures
        by_id(s.update(j, x)) == by_id(s).insert(x.ident(), x),
        unique_ids(s.update(j, x)),
    decreases s.len(),
{
    let u = s.update(j, x);
    assert(unique_ids(u)) by {
        assert forall|a: int, b: int|
            0 <= a < u.len() && 0 <= b < u.len() && a != b implies u[a].ident() != u[b].ident() by {
            assert(u[a].ident() == s[a].ident());
            assert(u[b].ident() == s[b].ident());
        }
    }
    let t = s.drop_last();
    if j == s.len() - 1 {
        assert(u.drop_last() =~= t);
        assert(by_id(u) =~= by_id(s).insert(x.ident(), x));
    } else {
        assert(unique_ids(t)) by {
            assert forall|a: int, b: int|
                0 <= a < t.len() && 0 <= b < t.len() && a != b implies t[a].ident()
                != t[b].ident() by {
                assert(t[a] == s[a] && t[b] == s[b]);
            }
        }
        lemma_by_id_update(t, j, x);
        assert(u.drop_last() =~= t.update(j, x));
        assert(s.last().ident() != x.ident());
        assert(by_id(u) =~= by_id(s).insert(x.ident(), x));
    }
}

/// Later definitions override earlier ones: after adding `es` to `m`, an id
/// that `es` holds maps to the last item of `es` with that id, and an id it
/// does not hold maps to what it mapped to in `m`, if anything.
pub proof fn lemma_last_definition_wins<T: Identified>(m: Map<Seq<char>, T>, es: Seq<T>, k: Seq<char>)
    ensures
        (forall|i: int| 0 <= i < es.len() ==> es[i].ident() != k) ==> {
            &&& added(m, es).contains_key(k) == m.contains_key(k)
            &&& m.contains_key(k) ==> added(m, es)[k] == m[k]
        },
        forall|i: int|
            0 <= i < es.len() && #[trigger] es[i].ident() == k && (forall|j: int|
                i < j < es.len() ==> es[j].ident() != k) ==> added(m, es).contains_key(k) && added(
                m,
                es,
            )[k] == es[i],
    decreases es.len(),
{
    if es.len() > 0 {
        let t = es.drop_last();
        lemma_last_definition_wins(m, t, k);
        assert forall|i: int|
            0 <= i < es.len() && #[trigger] es[i].ident() == k && (forall|j: int|
                i < j < es.len() ==> es[j].ident() != k) implies added(m, es).contains_key(k)
            && added(m, es)[k] == es[i] by {
            if i < es.len() - 1 {
                assert(es[es.len() - 1].ident() != k);
                assert(t[i] == es[i]);
                assert forall|j: int| i < j < t.len() implies t[j].ident() != k by {
                    assert(t[j] == es[j]);
                }
            }
        }
        if forall|i: int| 0 <= i < es.len() ==> es[i].ident() != k {
            assert forall|i: int| 0 <= i < t.len() implies t[i].ident() != k by {
                assert(t[i] == es[i]);
            }
            assert(es[es.len() - 1].ident() != k);
        }
    }
}

/// The index of the item with id `id`, if any.
fn find_by_id<T: Identified>(v: &Vec<T>, id: &str) -> (r: Option<usize>)
    ensures
        match r {
            Some(i) => i < v@.len() && v@[i as int].ident() == id@,
            None => forall|i: int| 0 <= i < v@.len() ==> v@[i].ident() != id@,
        },
{
    let mut i: usize = 0;
    while i < v.len()
        invariant
            i <= v@.len(),
            forall|j: int| 0 <= j < i ==> v@[j].ident() != id@,
        decreases v@.len() - i,
    {
        if str_eq(v[i].id_str(), id) {
            return Some(i);
        }
        i = i + 1;
    }
    None
}

/// Puts `item` in, replacing the item with its id if there is one; tells
/// whether there was.
fn upsert<T: Identified>(v: &mut Vec<T>, item: T) -> (existed: bool)
    requires
        unique_ids(old(v)@),
    ensures
        unique_ids(final(v)@),
        by_id(final(v)@) == by_id(old(v)@).insert(item.ident(), item),
        existed == by_id(old(v)@).contains_key(item.ident()),
{
    proof {
        lemma_by_id_keys(v@, item.ident());
    }
    match find_by_id(v, item.id_str()) {
        Some(j) => {
            proof {
                lemma_by_id_update(v@, j as int, item);
            }
            v.set(j, item);
            true
        },
        None => {
            let ghost before = v@;
            v.push(item);
            proof {
                assert(v@.drop_last() =~= before);
                assert forall|a: int, b: int|
                    0 <= a < v@.len() && 0 <= b < v@.len() && a != b implies v@[a].ident()
                    != v@[b].ident() by {
                    if a < before.len() {
                        assert(v@[a] == before[a]);
                    }
                    if b < before.len() {
                        assert(v@[b] == before[b]);
                    }
                }
            }
            false
        },
    }
}

/// Combined set of effect and timer definitions.
#[derive(Debug, Clone)]
pub struct DefinitionSet {
    effects: Vec<EffectDefinition>,
    timers: Vec<TimerDefinition>,
}

/// Mathematical model of a [`DefinitionSet`]: the definitions by id.
pub struct DefinitionSetView {
    pub effects: Map<Seq<char>, EffectDefinition>,
    pub timers: Map<Seq<char>, TimerDefinition>,
}

impl View for DefinitionSet {
    type V = DefinitionSetView;

    closed spec fn view(&self) -> DefinitionSetView {
        DefinitionSetView { effects: by_id(self.effects@), timers: by_id(self.timers@) }
    }
}

impl DefinitionSet {
    /// No definition shares its id with another of its kind.
    pub closed spec fn wf(&self) -> bool {
        unique_ids(self.effects@) && unique_ids(self.timers@)
    }

    /// Create an empty definition set
    pub fn new() -> (r: Self)
        ensures
            r.wf(),
            r@.effects == Map::<Seq<char>, EffectDefinition>::empty(),
            r@.timers == Map::<Seq<char>, TimerDefinition>::empty(),
    {
        DefinitionSet { effects: Vec::new(), timers: Vec::new() }
    }

    /// Add definitions from a config, returns IDs of any duplicates
    pub fn add_config(&mut self, config: DefinitionConfig) -> (duplicates: Vec<String>)
        requires
            old(self).wf(),
        ensures
            final(self).wf(),
            final(self)@.effects == added(old(self)@.effects, config.effects@),
            final(self)@.timers == added(old(self)@.timers, config.timers@),
            duplicates@.map_values(|s: String| s@) == replaced_ids(
                old(self)@.effects,
                config.effects@,
            ) + replaced_ids(old(self)@.timers, config.timers@),
    {
        let mut duplicates: Vec<String> = Vec::new();
        let ghost effects0 = by_id(self.effects@);
        let ghost timers0 = by_id(self.timers@);
        let ghost t_before = self.timers@;
        let ghost es = config.effects@;
        let ghost ts = config.timers@;
        let mut effects = config.effects;
        let mut timers = config.timers;
        // Take the items from the back, then put them back in order.
        let mut rev_effects: Vec<EffectDefinition> = Vec::new();
        while effects.len() > 0
            invariant
                effects@ + rev_effects@.reverse() == es,
                self.timers@ == t_before,
                unique_ids(t_before),
                unique_ids(self.effects@),
                by_id(self.effects@) == effects0,
                by_id(t_before) == timers0,
            decreases effects@.len(),
        {
            let e = effects.pop().unwrap();
            rev_effects.push(e);
            proof {
                assert(effects@ + rev_effects@.reverse() =~= es);
            }
        }
        let ghost mut done: Seq<EffectDefinition> = Seq::empty();
        proof {
            assert(rev_effects@.reverse() =~= es);
            assert(duplicates@.map_values(|s: String| s@) =~= replaced_ids(effects0, done));
        }
        while rev_effects.len() > 0
            invariant
                done + rev_effects@.reverse() == es,
                unique_ids(self.effects@),
                by_id(self.effects@) == added(effects0, done),
                duplicates@.map_values(|s: String| s@) == replaced_ids(effects0, done),
                self.timers@ == t_before,
                unique_ids(t_before),
                by_id(t_before) == timers0,
            decreases rev_effects@.len(),
        {
            let effect = rev_effects.pop().unwrap();
            let id = effect.id.clone();
            let ghost before = by_id(self.effects@);
            let existed = upsert(&mut self.effects, effect);
            proof {
                assert(done.push(effect).drop_last() =~= done);
            }
            if existed {
                let ghost d0 = duplicates@;
                duplicates.push(id);
                proof {
                    assert(duplicates@.map_values(|s: String| s@) =~= d0.map_values(
                        |s: String| s@,
                    ).push(effect.id@));
                }
            } else {
                proof {
                    assert(replaced_ids(effects0, done) + Seq::<Seq<char>>::empty() =~= replaced_ids(effects0, done));
                }
            }
            proof {
                done = done.push(effect);
                assert(done + rev_effects@.reverse() =~= es);
            }
        }
        proof {
            assert(done =~= es);
        }
        let ghost d_effects = duplicates@.map_values(|s: String| s@);
        let mut rev_timers: Vec<TimerDefinition> = Vec::new();
        while timers.len() > 0
            invariant
                timers@ + rev_timers@.reverse() == ts,
                self.timers@ == t_before,
                unique_ids(t_before),
                by_id(t_before) == timers0,
                unique_ids(self.effects@),
                by_id(self.effects@) == added(effects0, es),
                duplicates@.map_values(|s: String| s@) == d_effects,
            decreases timers@.len(),
        {
            let t = timers.pop().unwrap();
            rev_timers.push(t);
            proof {
                assert(timers@ + rev_timers@.reverse() =~= ts);
            }
        }
        let ghost mut tdone: Seq<TimerDefinition> = Seq::empty();
        proof {
            assert(rev_timers@.reverse() =~= ts);
            assert(duplicates@.map_values(|s: String| s@) =~= d_effects + replaced_ids(timers0, tdone));
        }
        while rev_timers.len() > 0
            invariant
                tdone + rev_timers@.reverse() == ts,
                unique_ids(self.timers@),
                unique_ids(self.effects@),
                by_id(self.timers@) == added(timers0, tdone),
                by_id(self.effects@) == added(effects0, es),
                duplicates@.map_values(|s: String| s@) == d_effects + replaced_ids(timers0, tdone),
            decreases rev_timers@.len(),
        {
            let timer = rev_timers.pop().unwrap();
            let id = timer.id.clone();
            let existed = upsert(&mut self.timers, timer);
            proof {
                assert(tdone.push(timer).drop_last() =~= tdone);
            }
            if existed {
                let ghost d0 = duplicates@;
                duplicates.push(id);
                proof {
                    assert(duplicates@.map_values(|s: String| s@) =~= d0.map_values(
                        |s: String| s@,
                    ).push(timer.id@));
                    assert(d_effects + replaced_ids(timers0, tdone.push(timer)) =~= (d_effects
                        + replaced_ids(timers0, tdone)).push(timer.id@));
                }
            } else {
                proof {
                    assert(d_effects + replaced_ids(timers0, tdone.push(timer)) =~= d_effects
                        + replaced_ids(timers0, tdone));
                }
            }
            proof {
                tdone = tdone.push(timer);
                assert(tdone + rev_timers@.reverse() =~= ts);
            }
        }
        proof {
            assert(tdone =~= ts);
        }
        duplicates
    }

    /// Get an effect definition by ID
    pub fn get_effect(&self, id: &str) -> (r: Option<&EffectDefinition>)
        requires
            self.wf(),
        ensures
            match r {
                Some(d) => self@.effects.contains_key(id@) && *d == self@.effects[id@],
                None => !self@.effects.contains_key(id@),
            },
    {
        proof {
            lemma_by_id_keys(self.effects@, id@);
        }
        match find_by_id(&self.effects, id) {
            Some(i) => {
                proof {
                    lemma_by_id_index(self.effects@, i as int);
                }
                Some(&self.effects[i])
            },
            None => None,
        }
    }

    /// Get a timer definition by ID
    pub fn get_timer(&self, id: &str) -> (r: Option<&TimerDefinition>)
        requires
            self.wf(),
        ensures
            match r {
                Some(d) => self@.timers.contains_key(id@) && *d == self@.timers[id@],
                None => !self@.timers.contains_key(id@),
            },
    {
        proof {
            lemma_by_id_keys(self.timers@, id@);
        }
        match find_by_id(&self.timers, id) {
            Some(i) => {
                proof {
                    lemma_by_id_index(self.timers@, i as int);
                }
                Some(&self.timers[i])
            },
            None => None,
        }
    }

    /// Find effect definitions that match a game effect ID: each enabled
    /// definition listing it, once.
    pub fn find_effects_by_game_id(&self, effect_id: u64) -> (r: Vec<&EffectDefinition>)
        requires
            self.wf(),
        ensures
            selects_effects(self@.effects, r@, |d: EffectDefinition| matches_game_id(d, effect_id)),
    {
        let mut out: Vec<&EffectDefinition> = Vec::new();
        let ghost mut idx: Seq<int> = Seq::empty();
        let mut i: usize = 0;
        while i < self.effects.len()
            invariant
                unique_ids(self.effects@),
                i <= self.effects@.len(),
                out@.len() == idx.len(),
                forall|a: int|
                    0 <= a < idx.len() ==> 0 <= #[trigger] idx[a] < i && *out@[a]
                        == self.effects@[idx[a]],
                forall|a: int, b: int| 0 <= a < b < idx.len() ==> idx[a] < idx[b],
                forall|j: int|
                    0 <= j < i && #[trigger] matches_game_id(self.effects@[j], effect_id) ==> exists|
                        a: int,
                    | 0 <= a < idx.len() && idx[a] == j,
                forall|a: int| 0 <= a < out@.len() ==> matches_game_id(*#[trigger] out@[a], effect_id),
            decreases self.effects@.len() - i,
        {
            let d = &self.effects[i];
            let ghost idx0 = idx;
            if d.enabled && d.matches_effect(effect_id) {
                out.push(d);
                proof {
                    idx = idx.push(i as int);
                    assert(idx[idx.len() - 1] == i);
                }
            }
            proof {
                assert forall|j: int| 0 <= j < i + 1 && #[trigger] matches_game_id(self.effects@[j], effect_id) implies exists|a: int|
                    0 <= a < idx.len() && idx[a] == j by {
                    if j < i {
                        let a = choose|a: int| 0 <= a < idx0.len() && idx0[a] == j;
                        assert(idx[a] == idx0[a]);
                    } else {
                        assert(idx[idx.len() - 1] == j);
                    }
                }
            }
            i = i + 1;
        }
        proof {
            lemma_selected(
                self.effects@,
                out@,
                idx,
                |d: EffectDefinition| matches_game_id(d, effect_id),
            );
        }
        out
    }

    /// All enabled effect definitions, each once.
    pub fn enabled_effects(&self) -> (r: Vec<&EffectDefinition>)
        requires
            self.wf(),
        ensures
            selects_effects(self@.effects, r@, |d: EffectDefinition| d.enabled),
    {
        let mut out: Vec<&EffectDefinition> = Vec::new();
        let ghost mut idx: Seq<int> = Seq::empty();
        let mut i: usize = 0;
        while i < self.effects.len()
            invariant
                unique_ids(self.effects@),
                i <= self.effects@.len(),
                out@.len() == idx.len(),
                forall|a: int|
                    0 <= a < idx.len() ==> 0 <= #[trigger] idx[a] < i && *out@[a]
                        == self.effects@[idx[a]],
                forall|a: int, b: int| 0 <= a < b < idx.len() ==> idx[a] < idx[b],
                forall|j: int|
                    0 <= j < i && #[trigger] self.effects@[j].enabled ==> exists|a: int|
                        0 <= a < idx.len() && idx[a] == j,
                forall|a: int| 0 <= a < out@.len() ==> (*#[trigger] out@[a]).enabled,
            decreases self.effects@.len() - i,
        {
            let d = &self.effects[i];
            let ghost idx0 = idx;
            if d.enabled {
                out.push(d);
                proof {
                    idx = idx.push(i as int);
                    assert(idx[idx.len() - 1] == i);
                }
            }
            proof {
                assert forall|j: int| 0 <= j < i + 1 && #[trigger] self.effects@[j].enabled implies exists|a: int|
                    0 <= a < idx.len() && idx[a] == j by {
                    if j < i {
                        let a = choose|a: int| 0 <= a < idx0.len() && idx0[a] == j;
                        assert(idx[a] == idx0[a]);
                    } else {
                        assert(idx[idx.len() - 1] == j);
                    }
                }
            }
            i = i + 1;
        }
        proof {
            lemma_selected(self.effects@, out@, idx, |d: EffectDefinition| d.enabled);
        }
        out
    }

    /// All enabled timer definitions, each once.
    pub fn enabled_timers(&self) -> (r: Vec<&TimerDefinition>)
        requires
            self.wf(),
        ensures
            selects_timers(self@.timers, r@),
    {
        let mut out: Vec<&TimerDefinition> = Vec::new();
        let ghost mut idx: Seq<int> = Seq::empty();
        let mut i: usize = 0;
        while i < self.timers.len()
            invariant
                unique_ids(self.timers@),
                i <= self.timers@.len(),
                out@.len() == idx.len(),
                forall|a: int|
                    0 <= a < idx.len() ==> 0 <= #[trigger] idx[a] < i && *out@[a]
                        == self.timers@[idx[a]],
                forall|a: int, b: int| 0 <= a < b < idx.len() ==> idx[a] < idx[b],
                forall|j: int|
                    0 <= j < i && #[trigger] self.timers@[j].enabled ==> exists|a: int|
                        0 <= a < idx.len() && idx[a] == j,
                forall|a: int| 0 <= a < out@.len() ==> (*#[trigger] out@[a]).enabled,
            decreases self.timers@.len() - i,
        {
            let d = &self.timers[i];
            let ghost idx0 = idx;
            if d.enabled {
                out.push(d);
                proof {
                    idx = idx.push(i as int);
                    assert(idx[idx.len() - 1] == i);
                }
            }
            proof {
                assert forall|j: int| 0 <= j < i + 1 && #[trigger] self.timers@[j].enabled implies exists|a: int|
                    0 <= a < idx.len() && idx[a] == j by {
                    if j < i {
                        let a = choose|a: int| 0 <= a < idx0.len() && idx0[a] == j;
                        assert(idx[a] == idx0[a]);
                    } else {
                        assert(idx[idx.len() - 1] == j);
                    }
                }
            }
            i = i + 1;
        }
        proof {
            let s = self.timers@;
            let m = by_id(s);
            assert forall|a: int| 0 <= a < out@.len() implies m.contains_key(out@[a].ident())
                && m[out@[a].ident()] == *out@[a] by {
                lemma_by_id_index(s, idx[a]);
            }
            assert forall|a: int, b: int| 0 <= a < b < out@.len() implies out@[a].ident()
                != out@[b].ident() by {
                assert(idx[a] < idx[b]);
            }
            assert forall|k: Seq<char>| m.contains_key(k) && (#[trigger] m[k]).enabled implies exists|
                a: int,
            | 0 <= a < out@.len() && out@[a].ident() == k by {
                lemma_by_id_keys(s, k);
                let j = choose|j: int| 0 <= j < s.len() && #[trigger] s[j].ident() == k;
                lemma_by_id_index(s, j);
                assert(s[j].enabled);
                let a = choose|a: int| 0 <= a < idx.len() && idx[a] == j;
                assert(out@[a].ident() == k);
            }
        }
        out
    }
}

/// An enabled definition that lists the game effect id.
pub open spec fn matches_game_id(d: EffectDefinition, effect_id: u64) -> bool {
    d.enabled && d.effect_ids@.contains(effect_id)
}

/// `r` holds each definition of `m` that `keep` selects, once, and no other.
pub open spec fn selects_effects(
    m: Map<Seq<char>, EffectDefinition>,
    r: Seq<&EffectDefinition>,
    keep: spec_fn(EffectDefinition) -> bool,
) -> bool {
    &&& forall|a: int|
        0 <= a < r.len() ==> m.contains_key(r[a].ident()) && m[r[a].ident()] == *r[a] && keep(
            *r[a],
        )
    &&& forall|a: int, b: int| 0 <= a < b < r.len() ==> r[a].ident() != r[b].ident()
    &&& forall|k: Seq<char>|
        m.contains_key(k) && #[trigger] keep(m[k]) ==> exists|a: int|
            0 <= a < r.len() && r[a].ident() == k
}

/// `r` holds each enabled timer of `m`, once, and no other.
pub open spec fn selects_timers(m: Map<Seq<char>, TimerDefinition>, r: Seq<&TimerDefinition>) -> bool {
    &&& forall|a: int|
        0 <= a < r.len() ==> m.contains_key(r[a].ident()) && m[r[a].ident()] == *r[a]
            && r[a].enabled
    &&& forall|a: int, b: int| 0 <= a < b < r.len() ==> r[a].ident() != r[b].ident()
    &&& forall|k: Seq<char>|
        m.contains_key(k) && (#[trigger] m[k]).enabled ==> exists|a: int|
            0 <= a < r.len() && r[a].ident() == k
}

proof fn lemma_selected(
    s: Seq<EffectDefinition>,
    r: Seq<&EffectDefinition>,
    idx: Seq<int>,
    keep: spec_fn(EffectDefinition) -> bool,
)
    requires
        unique_ids(s),
        r.len() == idx.len(),
        forall|a: int| 0 <= a < idx.len() ==> 0 <= #[trigger] idx[a] < s.len() && *r[a] == s[idx[a]],
        forall|a: int, b: int| 0 <= a < b < idx.len() ==> idx[a] < idx[b],
        forall|j: int|
            0 <= j < s.len() && #[trigger] keep(s[j]) ==> exists|a: int| 0 <= a < idx.len() && idx[a] == j,
        forall|a: int| 0 <= a < r.len() ==> keep(*#[trigger] r[a]),
    ensures
        selects_effects(by_id(s), r, keep),
{
    let m = by_id(s);
    assert forall|a: int| 0 <= a < r.len() implies m.contains_key(r[a].ident()) && m[r[a].ident()]
        == *r[a] && keep(*r[a]) by {
        lemma_by_id_index(s, idx[a]);
    }
    assert forall|a: int, b: int| 0 <= a < b < r.len() implies r[a].ident() != r[b].ident() by {
        assert(idx[a] < idx[b]);
    }
    assert forall|k: Seq<char>| m.contains_key(k) && #[trigger] keep(m[k]) implies exists|a: int|
        0 <= a < r.len() && r[a].ident() == k by {
        lemma_by_id_keys(s, k);
        let j = choose|j: int| 0 <= j < s.len() && #[trigger] s[j].ident() == k;
        lemma_by_id_index(s, j);
        let a = choose|a: int| 0 <= a < idx.len() && idx[a] == j;
        assert(r[a].ident() == k);
    }
}

} // verus!
