//! Types shown by the front end: metric and overlay kinds, session and
//! overlay status, log file listings, and editor items.
use crate::text::str_eq;
use vstd::prelude::*;
use vstd::string::*;

pub use crate::tracking::{EffectCategory, EntityFilter};

verus! {

/// Session information shown by the front end.
#[derive(Debug, Clone)]
pub struct SessionInfo {
    pub player_name: Option<String>,
    pub player_class: Option<String>,
    pub player_discipline: Option<String>,
    pub area_name: Option<String>,
    pub in_combat: bool,
    pub encounter_count: usize,
    pub session_start: Option<String>,
}

/// Which overlays run and which are enabled.
#[derive(Debug, Clone)]
pub struct OverlayStatus {
    pub running: Vec<String>,
    pub enabled: Vec<String>,
    pub personal_running: bool,
    pub personal_enabled: bool,
    pub raid_running: bool,
    pub raid_enabled: bool,
    pub boss_health_running: bool,
    pub boss_health_enabled: bool,
    pub timers_running: bool,
    pub timers_enabled: bool,
    pub effects_running: bool,
    pub effects_enabled: bool,
    pub overlays_visible: bool,
    pub move_mode: bool,
    pub rearrange_mode: bool,
}

/// A log file in the file browser.
#[derive(Debug, Clone)]
pub struct LogFileInfo {
    pub path: String,
    pub display_name: String,
    pub character_name: Option<String>,
    pub date: String,
    pub is_empty: bool,
    pub file_size: u64,
}

/// The metric overlays.
#[derive(Debug, Clone, Copy, PartialEq, Eq, Structural)]
pub enum MetricType {
    Dps,
    EDps,
    BossDps,
    Hps,
    EHps,
    Abs,
    Dtps,
    Tps,
}

/// The display label of a metric.
pub open spec fn metric_label(m: MetricType) -> Seq<char> {
    match m {
        MetricType::Dps => "Damage"@,
        MetricType::EDps => "Effective Damage"@,
        MetricType::BossDps => "Boss Damage"@,
        MetricType::Hps => "Healing"@,
        MetricType::EHps => "Effective Healing"@,
        MetricType::Tps => "Threat"@,
        MetricType::Dtps => "Damage Taken"@,
        MetricType::Abs => "Shielding Given"@,
    }
}

/// The key under which a metric's settings are saved.
pub open spec fn metric_config_key(m: MetricType) -> Seq<char> {
    match m {
        MetricType::Dps => "dps"@,
        MetricType::EDps => "edps"@,
        MetricType::BossDps => "bossdps"@,
        MetricType::Hps => "hps"@,
        MetricType::EHps => "ehps"@,
        MetricType::Tps => "tps"@,
        MetricType::Dtps => "dtps"@,
        MetricType::Abs => "abs"@,
    }
}

/// Every metric, in display order.
pub open spec fn all_metrics() -> Seq<MetricType> {
    seq![
        MetricType::Dps,
        MetricType::EDps,
        MetricType::BossDps,
        MetricType::Hps,
        MetricType::EHps,
        MetricType::Abs,
        MetricType::Dtps,
        MetricType::Tps,
    ]
}

impl MetricType {
    /// Human-readable label.
    pub fn label(&self) -> (r: &'static str)
        ensures
            r@ == metric_label(*self),
    {
        match self {
            MetricType::Dps => "Damage",
            MetricType::EDps => "Effective Damage",
            MetricType::BossDps => "Boss Damage",
            MetricType::Hps => "Healing",
            MetricType::EHps => "Effective Healing",
            MetricType::Tps => "Threat",
            MetricType::Dtps => "Damage Taken",
            MetricType::Abs => "Shielding Given",
        }
    }

    /// Key used to save the metric's settings.
    pub fn config_key(&self) -> (r: &'static str)
        ensures
            r@ == metric_config_key(*self),
    {
        match self {
            MetricType::Dps => "dps",
            MetricType::EDps => "edps",
            MetricType::BossDps => "bossdps",
            MetricType::Hps => "hps",
            MetricType::EHps => "ehps",
            MetricType::Tps => "tps",
            MetricType::Dtps => "dtps",
            MetricType::Abs => "abs",
        }
    }

    /// Every metric, in display order.
    pub fn all() -> (r: Vec<MetricType>)
        ensures
            r@ == all_metrics(),
    {
        let r = vec![
            MetricType::Dps,
            MetricType::EDps,
            MetricType::BossDps,
            MetricType::Hps,
            MetricType::EHps,
            MetricType::Abs,
            MetricType::Dtps,
            MetricType::Tps,
        ];
        proof {
            assert(r@ =~= all_metrics());
        }
        r
    }
}

/// The metric whose settings are saved under `k`, if any.
pub open spec fn metric_for_key(k: Seq<char>) -> Option<MetricType> {
    if k == "dps"@ {
        Some(MetricType::Dps)
    } else if k == "edps"@ {
        Some(MetricType::EDps)
    } else if k == "bossdps"@ {
        Some(MetricType::BossDps)
    } else if k == "hps"@ {
        Some(MetricType::Hps)
    } else if k == "ehps"@ {
        Some(MetricType::EHps)
    } else if k == "tps"@ {
        Some(MetricType::Tps)
    } else if k == "dtps"@ {
        Some(MetricType::Dtps)
    } else if k == "abs"@ {
        Some(MetricType::Abs)
    } else {
        None
    }
}

/// Reading a metric back from its settings key gives the metric: the keys
/// are distinct.
pub proof fn lemma_config_key_round_trip(m: MetricType)
    ensures
        metric_for_key(metric_config_key(m)) == Some(m),
{
    reveal_strlit("dps");
    reveal_strlit("edps");
    reveal_strlit("bossdps");
    reveal_strlit("hps");
    reveal_strlit("ehps");
    reveal_strlit("tps");
    reveal_strlit("dtps");
    reveal_strlit("abs");
    let k = metric_config_key(m);
    assert(k.len() == 3 ==> k[0] == 'd' || k[0] == 'h' || k[0] == 't' || k[0] == 'a');
    match m {
        MetricType::Dps => {},
        MetricType::EDps => {
            assert(k[0] != "dtps"@[0] || k[1] != "dtps"@[1]);
        },
        MetricType::BossDps => {},
        MetricType::Hps => {
            assert(k[0] != "dps"@[0]);
        },
        MetricType::EHps => {
            assert(k[1] != "edps"@[1]);
        },
        MetricType::Tps => {
            assert(k[0] != "dps"@[0] && k[0] != "hps"@[0]);
        },
        MetricType::Dtps => {
            assert(k[0] != "edps"@[0] && k[0] != "ehps"@[0]);
        },
        MetricType::Abs => {
            assert(k[0] != "dps"@[0] && k[0] != "hps"@[0] && k[0] != "tps"@[0]);
        },
    }
}

impl MetricType {
    /// The metric whose settings are saved under `key`, if any.
    pub fn from_config_key(key: &str) -> (r: Option<MetricType>)
        ensures
            r == metric_for_key(key@),
            r matches Some(m) ==> metric_config_key(m) == key@,
    {
        if str_eq(key, "dps") {
            Some(MetricType::Dps)
        } else if str_eq(key, "edps") {
            Some(MetricType::EDps)
        } else if str_eq(key, "bossdps") {
            Some(MetricType::BossDps)
        } else if str_eq(key, "hps") {
            Some(MetricType::Hps)
        } else if str_eq(key, "ehps") {
            Some(MetricType::EHps)
        } else if str_eq(key, "tps") {
            Some(MetricType::Tps)
        } else if str_eq(key, "dtps") {
            Some(MetricType::Dtps)
        } else if str_eq(key, "abs") {
            Some(MetricType::Abs)
        } else {
            None
        }
    }
}

/// Every overlay kind.
#[derive(Debug, Clone, Copy, PartialEq, Eq, Structural)]
pub enum OverlayType {
    Metric(MetricType),
    Personal,
    Raid,
    BossHealth,
    Timers,
    Effects,
}

/// A boss in the "new timer" list.
#[derive(Debug, Clone)]
pub struct BossListItem {
    pub id: String,
    pub name: String,
    pub area_name: String,
    pub category: String,
    pub file_path: String,
}


/// Position of an overlay window, as reported by its thread.
#[derive(Debug, Clone)]
pub struct PositionEvent {
    pub kind: OverlayType,
    /// Absolute X position (screen coordinates)
    pub x: i32,
    /// Absolute Y position (screen coordinates)
    pub y: i32,
    pub width: u32,
    pub height: u32,
    /// Monitor ID where the overlay is currently located
    pub monitor_id: Option<String>,
    /// Monitor's top-left X coordinate (for relative position calculation)
    pub monitor_x: i32,
    /// Monitor's top-left Y coordinate (for relative position calculation)
    pub monitor_y: i32,
}

/// Which overlays are running and enabled, and the overlay modes.
#[derive(Debug, Clone)]
pub struct OverlayStatusResponse {
    pub running: Vec<MetricType>,
    pub enabled: Vec<MetricType>,
    pub personal_running: bool,
    pub personal_enabled: bool,
    pub raid_running: bool,
    pub raid_enabled: bool,
    pub boss_health_running: bool,
    pub boss_health_enabled: bool,
    pub overlays_visible: bool,
    pub move_mode: bool,
    pub rearrange_mode: bool,
}

/// What starts a timer, as the timer editor shows it.  The HP percentage is
/// carried as `f32` bits.
#[derive(Debug)]
pub enum TimerTrigger {
    CombatStart,
    AbilityCast { ability_ids: Vec<u64> },
    EffectApplied { effect_ids: Vec<u64> },
    EffectRemoved { effect_ids: Vec<u64> },
    TimerExpires { timer_id: String },
    PhaseEntered { phase_id: String },
    BossHpBelow { hp_percent_bits: u32, npc_id: Option<i64>, boss_name: Option<String> },
    AllOf { conditions: Vec<TimerTrigger> },
    AnyOf { conditions: Vec<TimerTrigger> },
}

/// The display label of a trigger's kind.
pub open spec fn trigger_label(t: TimerTrigger) -> Seq<char> {
    match t {
        TimerTrigger::CombatStart => "Combat Start"@,
        TimerTrigger::AbilityCast { .. } => "Ability Cast"@,
        TimerTrigger::EffectApplied { .. } => "Effect Applied"@,
        TimerTrigger::EffectRemoved { .. } => "Effect Removed"@,
        TimerTrigger::TimerExpires { .. } => "Timer Expires"@,
        TimerTrigger::PhaseEntered { .. } => "Phase Entered"@,
        TimerTrigger::BossHpBelow { .. } => "Boss HP Below"@,
        TimerTrigger::AllOf { .. } => "All Of (AND)"@,
        TimerTrigger::AnyOf { .. } => "Any Of (OR)"@,
    }
}

/// The machine-readable name of a trigger's kind (its serialized tag).
pub open spec fn trigger_tag(t: TimerTrigger) -> Seq<char> {
    match t {
        TimerTrigger::CombatStart => "combat_start"@,
        TimerTrigger::AbilityCast { .. } => "ability_cast"@,
        TimerTrigger::EffectApplied { .. } => "effect_applied"@,
        TimerTrigger::EffectRemoved { .. } => "effect_removed"@,
        TimerTrigger::TimerExpires { .. } => "timer_expires"@,
        TimerTrigger::PhaseEntered { .. } => "phase_entered"@,
        TimerTrigger::BossHpBelow { .. } => "boss_hp_below"@,
        TimerTrigger::AllOf { .. } => "all_of"@,
        TimerTrigger::AnyOf { .. } => "any_of"@,
    }
}

impl TimerTrigger {
    /// Human-readable label for the trigger type
    pub fn label(&self) -> (r: &'static str)
        ensures
            r@ == trigger_label(*self),
    {
        match self {
            TimerTrigger::CombatStart => "Combat Start",
            TimerTrigger::AbilityCast { .. } => "Ability Cast",
            TimerTrigger::EffectApplied { .. } => "Effect Applied",
            TimerTrigger::EffectRemoved { .. } => "Effect Removed",
            TimerTrigger::TimerExpires { .. } => "Timer Expires",
            TimerTrigger::PhaseEntered { .. } => "Phase Entered",
            TimerTrigger::BossHpBelow { .. } => "Boss HP Below",
            TimerTrigger::AllOf { .. } => "All Of (AND)",
            TimerTrigger::AnyOf { .. } => "Any Of (OR)",
        }
    }

    /// Machine-readable type name for the trigger (matches serde tag)
    pub fn tag_name(&self) -> (r: &'static str)
        ensures
            r@ == trigger_tag(*self),
    {
        match self {
            TimerTrigger::CombatStart => "combat_start",
            TimerTrigger::AbilityCast { .. } => "ability_cast",
            TimerTrigger::EffectApplied { .. } => "effect_applied",
            TimerTrigger::EffectRemoved { .. } => "effect_removed",
            TimerTrigger::TimerExpires { .. } => "timer_expires",
            TimerTrigger::PhaseEntered { .. } => "phase_entered",
            TimerTrigger::BossHpBelow { .. } => "boss_hp_below",
            TimerTrigger::AllOf { .. } => "all_of",
            TimerTrigger::AnyOf { .. } => "any_of",
        }
    }
}

/// Flattened timer item for the timer editor list view.  Durations are
/// carried as `f32` bits.
#[derive(Debug)]
pub struct TimerListItem {
    pub timer_id: String,
    pub boss_id: String,
    pub boss_name: String,
    pub area_name: String,
    pub category: String,
    pub file_path: String,
    pub name: String,
    pub enabled: bool,
    pub duration_secs_bits: u32,
    pub color: [u8; 4],
    pub phases: Vec<String>,
    pub difficulties: Vec<String>,
    pub trigger: TimerTrigger,
    pub can_be_refreshed: bool,
    pub repeats: u8,
    pub chains_to: Option<String>,
    pub alert_at_secs_bits: Option<u32>,
    pub show_on_raid_frames: bool,
}

/// Effect item for the effect editor list view.  Durations and thresholds
/// are carried as `f32` bits.
#[derive(Debug, Clone)]
pub struct EffectListItem {
    pub id: String,
    pub name: String,
    pub file_path: String,
    pub enabled: bool,
    pub category: EffectCategory,
    pub effect_ids: Vec<u64>,
    pub refresh_abilities: Vec<u64>,
    pub source: EntityFilter,
    pub target: EntityFilter,
    pub duration_secs_bits: Option<u32>,
    pub can_be_refreshed: bool,
    pub max_stacks: u8,
    pub color: Option<[u8; 4]>,
    pub show_on_raid_frames: bool,
    pub show_on_effects_overlay: bool,
    pub persist_past_death: bool,
    pub track_outside_combat: bool,
    pub on_apply_trigger_timer: Option<String>,
    pub on_expire_trigger_timer: Option<String>,
    pub encounters: Vec<String>,
    pub alert_near_expiration: bool,
    pub alert_threshold_secs_bits: u32,
}

} // verus!
