//! Ids that the game writes into combat logs for the events and effect
//! types the combat state machine reacts to.
use vstd::prelude::*;

verus! {

/// Effect id of the local player entering combat.
pub const ENTER_COMBAT: i64 = 836045448945489;

/// Effect id of the local player leaving combat.
pub const EXIT_COMBAT: i64 = 836045448945490;

/// Effect id of a damage event.
pub const DAMAGE: i64 = 836045448945501;

/// Effect id of a heal event.
pub const HEAL: i64 = 836045448945500;

/// Effect id of the immunity buff given after a revive.
pub const RECENTLY_REVIVED: i64 = 973870949466372;

/// Effect type id of an effect being applied.
pub const APPLY_EFFECT: i64 = 836045448945477;

/// Effect type id of an effect being removed.
pub const REMOVE_EFFECT: i64 = 836045448945478;

/// Effect type id of entering an area.
pub const AREA_ENTERED: i64 = 836045448953664;

} // verus!
