//! Effect tracking: who an effect definition applies to, how effects are
//! categorized and coloured, and the tracker that follows them.
use vstd::prelude::*;

use crate::combat_state::GameSignal;

verus! {

/// Which entities a source or target filter matches.
#[derive(Debug, Clone, PartialEq, Eq)]
pub enum EntityFilter {
    /// The local player only
    LocalPlayer,
    /// Local player's companion
    LocalCompanion,
    /// Local player or their companion
    LocalPlayerOrCompanion,
    /// Other players (not local)
    OtherPlayers,
    /// Other players' companions
    OtherCompanions,
    /// Any player (including local)
    AnyPlayer,
    /// Any companion
    AnyCompanion,
    /// Any player or companion
    AnyPlayerOrCompanion,
    /// Players in the local player's group
    GroupMembers,
    /// Group members except the local player
    GroupMembersExceptLocal,
    /// Boss NPCs
    Boss,
    /// Non-boss NPCs
    NpcExceptBoss,
    /// Any NPC
    AnyNpc,
    /// A specific entity, by name
    Specific(String),
    /// Any entity
    Any,
}

impl Default for EntityFilter {
    fn default() -> (r: Self)
        ensures
            r is LocalPlayer,
    {
        EntityFilter::LocalPlayer
    }
}

/// The display label of a filter.
pub open spec fn filter_label(f: EntityFilter) -> Seq<char> {
    match f {
        EntityFilter::LocalPlayer => "Local Player"@,
        EntityFilter::LocalCompanion => "Local Companion"@,
        EntityFilter::LocalPlayerOrCompanion => "Local Player or Companion"@,
        EntityFilter::OtherPlayers => "Other Players"@,
        EntityFilter::OtherCompanions => "Other Companions"@,
        EntityFilter::AnyPlayer => "Any Player"@,
        EntityFilter::AnyCompanion => "Any Companion"@,
        EntityFilter::AnyPlayerOrCompanion => "Any Player or Companion"@,
        EntityFilter::GroupMembers => "Group Members"@,
        EntityFilter::GroupMembersExceptLocal => "Group (Except Local)"@,
        EntityFilter::Boss => "Boss"@,
        EntityFilter::NpcExceptBoss => "NPC (Non-Boss)"@,
        EntityFilter::AnyNpc => "Any NPC"@,
        EntityFilter::Specific(_) => "Specific"@,
        EntityFilter::Any => "Any"@,
    }
}

/// The common choices for a source filter, in menu order.
pub open spec fn source_filter_options() -> Seq<EntityFilter> {
    seq![
        EntityFilter::LocalPlayer,
        EntityFilter::OtherPlayers,
        EntityFilter::AnyPlayer,
        EntityFilter::Boss,
        EntityFilter::AnyNpc,
        EntityFilter::Any,
    ]
}

/// The common choices for a target filter, in menu order.
pub open spec fn target_filter_options() -> Seq<EntityFilter> {
    seq![
        EntityFilter::LocalPlayer,
        EntityFilter::GroupMembers,
        EntityFilter::GroupMembersExceptLocal,
        EntityFilter::AnyPlayer,
        EntityFilter::Boss,
        EntityFilter::AnyNpc,
        EntityFilter::Any,
    ]
}

impl EntityFilter {
    /// Human-readable label.
    pub fn label(&self) -> (r: &'static str)
        ensures
            r@ == filter_label(*self),
    {
        match self {
            EntityFilter::LocalPlayer => "Local Player",
            EntityFilter::LocalCompanion => "Local Companion",
            EntityFilter::LocalPlayerOrCompanion => "Local Player or Companion",
            EntityFilter::OtherPlayers => "Other Players",
            EntityFilter::OtherCompanions => "Other Companions",
            EntityFilter::AnyPlayer => "Any Player",
            EntityFilter::AnyCompanion => "Any Companion",
            EntityFilter::AnyPlayerOrCompanion => "Any Player or Companion",
            EntityFilter::GroupMembers => "Group Members",
            EntityFilter::GroupMembersExceptLocal => "Group (Except Local)",
            EntityFilter::Boss => "Boss",
            EntityFilter::NpcExceptBoss => "NPC (Non-Boss)",
            EntityFilter::AnyNpc => "Any NPC",
            EntityFilter::Specific(_) => "Specific",
            EntityFilter::Any => "Any",
        }
    }

    /// Common filters for the source field.
    pub fn source_options() -> (r: Vec<EntityFilter>)
        ensures
            r@ == source_filter_options(),
    {
        let r = vec![
            EntityFilter::LocalPlayer,
            EntityFilter::OtherPlayers,
            EntityFilter::AnyPlayer,
            EntityFilter::Boss,
            EntityFilter::AnyNpc,
            EntityFilter::Any,
        ];
        proof {
            assert(r@ =~= source_filter_options());
        }
        r
    }

    /// Common filters for the target field.
    pub fn target_options() -> (r: Vec<EntityFilter>)
        ensures
            r@ == target_filter_options(),
    {
        let r = vec![
            EntityFilter::LocalPlayer,
            EntityFilter::GroupMembers,
            EntityFilter::GroupMembersExceptLocal,
            EntityFilter::AnyPlayer,
            EntityFilter::Boss,
            EntityFilter::AnyNpc,
            EntityFilter::Any,
        ];
        proof {
            assert(r@ =~= target_filter_options());
        }
        r
    }
}

/// How an effect is categorized and coloured.
#[derive(Debug, Clone, Copy, PartialEq, Eq, Structural)]
pub enum EffectCategory {
    /// Heal over time (green)
    Hot,
    /// Absorb shield (gold)
    Shield,
    /// Beneficial buff (blue)
    Buff,
    /// Harmful debuff (red)
    Debuff,
    /// Dispellable effect (purple)
    Cleansable,
    /// Temporary proc (cyan)
    Proc,
    /// Boss mechanic on a player (orange)
    Mechanic,
}

impl Default for EffectCategory {
    fn default() -> (r: Self)
        ensures
            r == EffectCategory::Hot,
    {
        EffectCategory::Hot
    }
}

/// The default RGBA colour of a category.
pub open spec fn category_color(c: EffectCategory) -> [u8; 4] {
    match c {
        EffectCategory::Hot => [80, 200, 80, 255],
        EffectCategory::Shield => [220, 180, 50, 255],
        EffectCategory::Buff => [80, 140, 220, 255],
        EffectCategory::Debuff => [200, 60, 60, 255],
        EffectCategory::Cleansable => [180, 80, 200, 255],
        EffectCategory::Proc => [80, 200, 220, 255],
        EffectCategory::Mechanic => [255, 140, 60, 255],
    }
}

/// The display label of a category.
pub open spec fn category_label(c: EffectCategory) -> Seq<char> {
    match c {
        EffectCategory::Hot => "HoT"@,
        EffectCategory::Shield => "Shield"@,
        EffectCategory::Buff => "Buff"@,
        EffectCategory::Debuff => "Debuff"@,
        EffectCategory::Cleansable => "Cleansable"@,
        EffectCategory::Proc => "Proc"@,
        EffectCategory::Mechanic => "Mechanic"@,
    }
}

/// Every category, in display order.
pub open spec fn all_categories() -> Seq<EffectCategory> {
    seq![
        EffectCategory::Hot,
        EffectCategory::Shield,
        EffectCategory::Buff,
        EffectCategory::Debuff,
        EffectCategory::Cleansable,
        EffectCategory::Proc,
        EffectCategory::Mechanic,
    ]
}

impl EffectCategory {
    /// Default RGBA colour for this category.
    pub fn default_color(&self) -> (r: [u8; 4])
        ensures
            r == category_color(*self),
    {
        match self {
            EffectCategory::Hot => [80, 200, 80, 255],
            EffectCategory::Shield => [220, 180, 50, 255],
            EffectCategory::Buff => [80, 140, 220, 255],
            EffectCategory::Debuff => [200, 60, 60, 255],
            EffectCategory::Cleansable => [180, 80, 200, 255],
            EffectCategory::Proc => [80, 200, 220, 255],
            EffectCategory::Mechanic => [255, 140, 60, 255],
        }
    }

    /// Human-readable label.
    pub fn label(&self) -> (r: &'static str)
        ensures
            r@ == category_label(*self),
    {
        match self {
            EffectCategory::Hot => "HoT",
            EffectCategory::Shield => "Shield",
            EffectCategory::Buff => "Buff",
            EffectCategory::Debuff => "Debuff",
            EffectCategory::Cleansable => "Cleansable",
            EffectCategory::Proc => "Proc",
            EffectCategory::Mechanic => "Mechanic",
        }
    }

    /// Every category, in display order.
    pub fn all() -> (r: Vec<EffectCategory>)
        ensures
            r@ == all_categories(),
    {
        let r = vec![
            EffectCategory::Hot,
            EffectCategory::Shield,
            EffectCategory::Buff,
            EffectCategory::Debuff,
            EffectCategory::Cleansable,
            EffectCategory::Proc,
            EffectCategory::Mechanic,
        ];
        proof {
            assert(r@ =~= all_categories());
        }
        r
    }
}

/// The value of a definition flag left out of a config file.
pub fn default_true() -> (r: bool)
    ensures
        r,
{
    true
}

/// The colour of a timer whose definition gives none: light grey.
pub fn default_timer_color() -> (r: [u8; 4])
    ensures
        r == [200u8, 200u8, 200u8, 255u8],
{
    [200, 200, 200, 255]
}

/// Follows active effects for the overlays; it keeps nothing yet, and the
/// signals it receives change nothing.
#[derive(Debug, Default)]
pub struct EffectTracker {}

impl EffectTracker {
    /// A tracker following no effects.
    pub fn new() -> (r: Self) {
        EffectTracker {  }
    }

    /// Receives a signal; application, removal, death and combat end are
    /// where tracking will hook in.
    pub fn handle_signal(&mut self, signal: &GameSignal)
        ensures
            *final(self) == *old(self),
    {
        match signal {
            GameSignal::EffectApplied { .. } => {},
            GameSignal::EffectRemoved { .. } => {},
            GameSignal::EntityDeath { .. } => {},
            GameSignal::CombatEnded { .. } => {},
            _ => {},
        }
    }
}

} // verus!
