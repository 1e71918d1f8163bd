//! Editing a timer's trigger tree in the timer editor: wrapping a trigger
//! into a composite, switching a composite between "all of" and "any of",
//! unwrapping a composite of one, and changing, removing and adding its
//! conditions.
use crate::types::TimerTrigger;
use vstd::prelude::*;

verus! {

/// The trigger is a composite: all of, or any of, its conditions.
pub open spec fn is_composite(t: TimerTrigger) -> bool {
    t is AllOf || t is AnyOf
}

/// The conditions of a composite trigger (none for a simple one).
pub open spec fn conditions_of(t: TimerTrigger) -> Seq<TimerTrigger> {
    match t {
        TimerTrigger::AllOf { conditions } => conditions@,
        TimerTrigger::AnyOf { conditions } => conditions@,
        _ => Seq::empty(),
    }
}

/// Wraps a trigger into a composite of itself alone: "all of" when `all`,
/// else "any of".
pub fn wrap_in_composite(trigger: TimerTrigger, all: bool) -> (r: TimerTrigger)
    ensures
        all ==> r is AllOf,
        !all ==> r is AnyOf,
        conditions_of(r) == seq![trigger],
{
    let mut conditions: Vec<TimerTrigger> = Vec::new();
    conditions.push(trigger);
    proof {
        assert(conditions@ =~= seq![trigger]);
    }
    if all {
        TimerTrigger::AllOf { conditions }
    } else {
        TimerTrigger::AnyOf { conditions }
    }
}

/// Switches a composite between "all of" and "any of", keeping its
/// conditions; a simple trigger is left as it is.
pub fn toggle_composite(trigger: TimerTrigger) -> (r: TimerTrigger)
    ensures
        trigger is AllOf ==> r is AnyOf,
        trigger is AnyOf ==> r is AllOf,
        conditions_of(r) == conditions_of(trigger),
        !is_composite(trigger) ==> r == trigger,
{
    match trigger {
        TimerTrigger::AllOf { conditions } => TimerTrigger::AnyOf { conditions },
        TimerTrigger::AnyOf { conditions } => TimerTrigger::AllOf { conditions },
        other => other,
    }
}

/// A composite of exactly one condition becomes that condition; any other
/// trigger is left as it is.
pub fn unwrap_single(trigger: TimerTrigger) -> (r: TimerTrigger)
    ensures
        is_composite(trigger) && conditions_of(trigger).len() == 1 ==> r == conditions_of(
            trigger,
        )[0],
        !(is_composite(trigger) && conditions_of(trigger).len() == 1) ==> r == trigger,
{
    match trigger {
        TimerTrigger::AllOf { mut conditions } => {
            if conditions.len() == 1 {
                conditions.pop().unwrap()
            } else {
                TimerTrigger::AllOf { conditions }
            }
        },
        TimerTrigger::AnyOf { mut conditions } => {
            if conditions.len() == 1 {
                conditions.pop().unwrap()
            } else {
                TimerTrigger::AnyOf { conditions }
            }
        },
        other => other,
    }
}

/// Replaces condition `idx` of a composite; a simple trigger is left as it is.
pub fn set_condition(trigger: TimerTrigger, idx: usize, condition: TimerTrigger) -> (r: TimerTrigger)
    requires
        is_composite(trigger) ==> idx < conditions_of(trigger).len(),
    ensures
        trigger is AllOf <==> r is AllOf,
        trigger is AnyOf <==> r is AnyOf,
        is_composite(trigger) ==> conditions_of(r) == conditions_of(trigger).update(
            idx as int,
            condition,
        ),
        !is_composite(trigger) ==> r == trigger,
{
    match trigger {
        TimerTrigger::AllOf { mut conditions } => {
            conditions.set(idx, condition);
            TimerTrigger::AllOf { conditions }
        },
        TimerTrigger::AnyOf { mut conditions } => {
            conditions.set(idx, condition);
            TimerTrigger::AnyOf { conditions }
        },
        other => other,
    }
}

/// Removes condition `idx` of a composite that has more than one; a
/// composite of one, or a simple trigger, is left as it is.
pub fn remove_condition(trigger: TimerTrigger, idx: usize) -> (r: TimerTrigger)
    requires
        is_composite(trigger) ==> idx < conditions_of(trigger).len(),
    ensures
        trigger is AllOf <==> r is AllOf,
        trigger is AnyOf <==> r is AnyOf,
        is_composite(trigger) && conditions_of(trigger).len() > 1 ==> conditions_of(r)
            == conditions_of(trigger).remove(idx as int),
        !(is_composite(trigger) && conditions_of(trigger).len() > 1) ==> r == trigger,
{
    match trigger {
        TimerTrigger::AllOf { mut conditions } => {
            if conditions.len() > 1 {
                conditions.remove(idx);
            }
            TimerTrigger::AllOf { conditions }
        },
        TimerTrigger::AnyOf { mut conditions } => {
            if conditions.len() > 1 {
                conditions.remove(idx);
            }
            TimerTrigger::AnyOf { conditions }
        },
        other => other,
    }
}

/// Adds a "combat start" condition to a composite; a simple trigger is
/// left as it is.
pub fn add_condition(trigger: TimerTrigger) -> (r: TimerTrigger)
    ensures
        trigger is AllOf <==> r is AllOf,
        trigger is AnyOf <==> r is AnyOf,
        is_composite(trigger) ==> conditions_of(r) == conditions_of(trigger).push(
            TimerTrigger::CombatStart,
        ),
        !is_composite(trigger) ==> r == trigger,
{
    match trigger {
        TimerTrigger::AllOf { mut conditions } => {
            conditions.push(TimerTrigger::CombatStart);
            TimerTrigger::AllOf { conditions }
        },
        TimerTrigger::AnyOf { mut conditions } => {
            conditions.push(TimerTrigger::CombatStart);
            TimerTrigger::AnyOf { conditions }
        },
        other => other,
    }
}

} // verus!
