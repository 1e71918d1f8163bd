//! SWTOR combat logs: parsing log lines into events, grouping events into
//! encounters, the combat state machine of a session, shield attribution,
//! raid-frame slot bookkeeping, effect and timer definitions, rotation
//! cycles, encounter notes, and the small decisions of the desktop app
//! around them.
use vstd::prelude::*;

pub mod app_state;
pub mod boss_search;
pub mod color;
pub mod combat_state;
pub mod definitions;
pub mod encounter;
pub mod event_models;
pub mod game_ids;
pub mod id_list;
pub mod monitor;
pub mod notes;
pub mod overlay_control;
pub mod parsely;
pub mod parsing_session;
pub mod parser;
pub mod query;
pub mod raid_registry;
pub mod reader;
pub mod rotation;
pub mod session;
pub mod settings_edit;
pub mod shielding;
pub mod text;
pub mod timer_form;
pub mod timer_list;
pub mod tracking;
pub mod trigger_edit;
pub mod types;

verus! {

} // verus!
