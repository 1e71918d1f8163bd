//! Rotation analysis: ability activations grouped into GCD slots, and GCD
//! slots split into rotation cycles at each use of an anchor ability.
//!
//! Times and per-cycle totals are floating-point values; here they are
//! carried as their IEEE-754 bits (`to_bits`), since the splitting computes
//! nothing with them.
use vstd::prelude::*;

verus! {

/// One ability activation.
#[derive(Debug, Clone)]
pub struct RotationEvent {
    /// Seconds into combat, as `f32` bits
    pub time_secs_bits: u32,
    pub ability_id: i64,
    pub ability_name: String,
}

/// The abilities of one global cooldown: the on-GCD ability and the
/// off-GCD weaves before it.
#[derive(Debug, Clone)]
pub struct GcdSlot {
    pub gcd_ability: RotationEvent,
    pub off_gcd: Vec<RotationEvent>,
}

/// One rotation cycle and its totals.
#[derive(Debug, Clone)]
pub struct RotationCycle {
    pub slots: Vec<GcdSlot>,
    /// Duration in seconds, as `f32` bits
    pub duration_secs_bits: u32,
    /// Total damage, as `f64` bits
    pub total_damage_bits: u64,
    /// Total effective healing, as `f64` bits
    pub effective_heal_bits: u64,
    pub crit_count: i64,
    pub hit_count: i64,
}

/// The events of a slot in order: the off-GCD weaves, then the GCD ability.
pub open spec fn slot_events(s: GcdSlot) -> Seq<RotationEvent> {
    s.off_gcd@.push(s.gcd_ability)
}

/// The time of a slot's first event, as `f32` bits.
pub open spec fn slot_start(s: GcdSlot) -> u32 {
    slot_events(s)[0].time_secs_bits
}

/// The events of the slots, one slot after the other.
pub open spec fn slots_events(slots: Seq<GcdSlot>) -> Seq<RotationEvent>
    decreases slots.len(),
{
    if slots.len() == 0 {
        Seq::empty()
    } else {
        slots_events(slots.drop_last()) + slot_events(slots.last())
    }
}

/// Every event of a slot after its first was found within the window of the
/// slot's first event, by `within(start, time)`.
pub open spec fn windows_hold<F: Fn(u32, u32) -> bool>(slots: Seq<GcdSlot>, within: F) -> bool {
    forall|k: int, j: int|
        0 <= k < slots.len() && 1 <= j < slot_events(slots[k]).len() ==> call_ensures(
            within,
            (slot_start(slots[k]), #[trigger] slot_events(slots[k])[j].time_secs_bits),
            true,
        )
}

/// The first event of every slot but the first was found outside the window
/// of the previous slot's first event.
pub open spec fn windows_close<F: Fn(u32, u32) -> bool>(slots: Seq<GcdSlot>, within: F) -> bool {
    forall|k: int|
        0 <= k < slots.len() - 1 ==> call_ensures(
            within,
            (slot_start(#[trigger] slots[k]), slot_start(slots[k + 1])),
            false,
        )
}

fn copy_event(e: &RotationEvent) -> (r: RotationEvent)
    ensures
        r == *e,
{
    RotationEvent {
        time_secs_bits: e.time_secs_bits,
        ability_id: e.ability_id,
        ability_name: e.ability_name.clone(),
    }
}

/// Groups ability activations into GCD slots.  A slot begins with the first
/// event not yet grouped and takes each following event while
/// `within(start, time)` says that its time lies within the window of the
/// slot's first event (both times as `f32` bits).  The last event of a slot is
/// its GCD ability; those before it are off-GCD weaves.
pub fn group_into_gcd_slots<F: Fn(u32, u32) -> bool>(events: &Vec<RotationEvent>, within: F) -> (slots:
    Vec<GcdSlot>)
    requires
        forall|a: u32, b: u32| within.requires((a, b)),
    ensures
        slots_events(slots@) == events@,
        windows_hold(slots@, within),
        windows_close(slots@, within),
{
    let mut slots: Vec<GcdSlot> = Vec::new();
    let mut i: usize = 0;
    proof {
        assert(events@.take(0) =~= Seq::<RotationEvent>::empty());
    }
    while i < events.len()
        invariant
            i <= events.len(),
            forall|a: u32, b: u32| within.requires((a, b)),
            slots_events(slots@) == events@.take(i as int),
            windows_hold(slots@, within),
            windows_close(slots@, within),
            i < events.len() && slots@.len() > 0 ==> call_ensures(
                within,
                (slot_start(slots@.last()), events@[i as int].time_secs_bits),
                false,
            ),
        decreases events.len() - i,
    {
        let first = i;
        let start = events[i].time_secs_bits;
        let mut group: Vec<RotationEvent> = Vec::new();
        group.push(copy_event(&events[i]));
        i += 1;
        let mut open = true;
        while open && i < events.len()
            invariant
                first < i <= events.len(),
                forall|a: u32, b: u32| within.requires((a, b)),
                start == events@[first as int].time_secs_bits,
                group@ == events@.subrange(first as int, i as int),
                forall|j: int|
                    1 <= j < group@.len() ==> call_ensures(within, (start, #[trigger] group@[j].time_secs_bits), true),
                !open ==> i < events.len() && call_ensures(
                    within,
                    (start, events@[i as int].time_secs_bits),
                    false,
                ),
            decreases events.len() - i + (if open { 1int } else { 0int }),
        {
            if within(start, events[i].time_secs_bits) {
                group.push(copy_event(&events[i]));
                i += 1;
                proof {
                    assert(group@ =~= events@.subrange(first as int, i as int));
                }
            } else {
                open = false;
            }
        }
        let ghost members = group@;
        let gcd_ability = group.pop().unwrap();
        let slot = GcdSlot { gcd_ability, off_gcd: group };
        let ghost before = slots@;
        proof {
            assert(slot_events(slot) =~= members);
            assert(slot_start(slot) == start);
        }
        slots.push(slot);
        proof {
            assert(slots@.drop_last() =~= before);
            assert(events@.take(i as int) =~= events@.take(first as int) + events@.subrange(
                first as int,
                i as int,
            ));
            assert(slots_events(slots@) =~= events@.take(i as int));
            assert forall|k: int, j: int|
                0 <= k < slots@.len() && 1 <= j < slot_events(slots@[k]).len() implies call_ensures(
                within,
                (slot_start(slots@[k]), #[trigger] slot_events(slots@[k])[j].time_secs_bits),
                true,
            ) by {
                if k < before.len() {
                    assert(slots@[k] == before[k]);
                } else {
                    assert(slot_events(slots@[k])[j] == members[j]);
                }
            }
            assert forall|k: int| 0 <= k < slots@.len() - 1 implies call_ensures(
                within,
                (slot_start(#[trigger] slots@[k]), slot_start(slots@[k + 1])),
                false,
            ) by {
                assert(slots@[k] == before[k]);
                if k + 1 < before.len() {
                    assert(slots@[k + 1] == before[k + 1]);
                } else {
                    assert(before.last() == before[k]);
                }
            }
        }
    }
    proof {
        assert(events@.take(i as int) =~= events@);
    }
    slots
}

/// The slot uses the anchor ability, on or off the GCD.
pub open spec fn is_anchor_slot(slot: GcdSlot, anchor_id: i64) -> bool {
    slot.gcd_ability.ability_id == anchor_id || exists|k: int|
        0 <= k < slot.off_gcd@.len() && (#[trigger] slot.off_gcd@[k]).ability_id == anchor_id
}

/// The cycles closed so far and the slots of the open one, after the first
/// `n` slots.
pub open spec fn split_upto(slots: Seq<GcdSlot>, anchor_id: i64, n: int) -> (
    Seq<Seq<GcdSlot>>,
    Seq<GcdSlot>,
)
    decreases n,
{
    if n <= 0 {
        (Seq::empty(), Seq::empty())
    } else {
        let (cycles, current) = split_upto(slots, anchor_id, n - 1);
        let slot = slots[n - 1];
        if is_anchor_slot(slot, anchor_id) && current.len() > 0 {
            (cycles.push(current), seq![slot])
        } else {
            (cycles, current.push(slot))
        }
    }
}

/// The slots of each cycle: a new cycle begins at each anchor slot, except
/// at the very first slot.
pub open spec fn cycle_groups(slots: Seq<GcdSlot>, anchor_id: i64) -> Seq<Seq<GcdSlot>> {
    let (cycles, current) = split_upto(slots, anchor_id, slots.len() as int);
    if current.len() > 0 {
        cycles.push(current)
    } else {
        cycles
    }
}

/// The slots of each cycle.
pub open spec fn cycle_slots(cycles: Seq<RotationCycle>) -> Seq<Seq<GcdSlot>> {
    cycles.map_values(|c: RotationCycle| c.slots@)
}

/// A cycle with the given slots and all totals zero.
pub open spec fn fresh_cycle(c: RotationCycle) -> bool {
    &&& c.duration_secs_bits == 0
    &&& c.total_damage_bits == 0
    &&& c.effective_heal_bits == 0
    &&& c.crit_count == 0
    &&& c.hit_count == 0
}

/// The concatenation of a sequence of sequences.
pub open spec fn concat(s: Seq<Seq<GcdSlot>>) -> Seq<GcdSlot>
    decreases s.len(),
{
    if s.len() == 0 {
        Seq::empty()
    } else {
        concat(s.drop_last()) + s.last()
    }
}

fn slot_is_anchor(slot: &GcdSlot, anchor_id: i64) -> (r: bool)
    ensures
        r == is_anchor_slot(*slot, anchor_id),
{
    if slot.gcd_ability.ability_id == anchor_id {
        return true;
    }
    let mut k: usize = 0;
    while k < slot.off_gcd.len()
        invariant
            k <= slot.off_gcd@.len(),
            forall|j: int| 0 <= j < k ==> slot.off_gcd@[j].ability_id != anchor_id,
        decreases slot.off_gcd@.len() - k,
    {
        if slot.off_gcd[k].ability_id == anchor_id {
            return true;
        }
        k = k + 1;
    }
    false
}

/// A cycle holding `slots`, with all totals zero.
fn empty_cycle(slots: Vec<GcdSlot>) -> (r: RotationCycle)
    ensures
        r.slots@ == slots@,
        fresh_cycle(r),
{
    RotationCycle {
        slots,
        duration_secs_bits: 0,
        total_damage_bits: 0,
        effective_heal_bits: 0,
        crit_count: 0,
        hit_count: 0,
    }
}

/// Split GCD slots into rotation cycles at each anchor ability occurrence.
pub fn split_into_cycles(slots: Vec<GcdSlot>, anchor_id: i64) -> (r: Vec<RotationCycle>)
    ensures
        cycle_slots(r@) == cycle_groups(slots@, anchor_id),
        forall|i: int| 0 <= i < r@.len() ==> fresh_cycle(#[trigger] r@[i]),
{
    let ghost all = slots@;
    let mut rest = slots;
    let mut reversed: Vec<GcdSlot> = Vec::new();
    while rest.len() > 0
        invariant
            rest@.len() + reversed@.len() == all.len(),
            rest@ == all.take(rest@.len() as int),
            forall|i: int| 0 <= i < reversed@.len() ==> reversed@[i] == all[all.len() - 1 - i],
        decreases rest@.len(),
    {
        let s = rest.pop().unwrap();
        reversed.push(s);
        proof {
            assert(rest@ =~= all.take(rest@.len() as int));
        }
    }
    let mut cycles: Vec<RotationCycle> = Vec::new();
    let mut current_slots: Vec<GcdSlot> = Vec::new();
    let ghost mut n: int = 0;
    proof {
        assert(cycle_slots(cycles@) =~= Seq::<Seq<GcdSlot>>::empty());
        assert(current_slots@ =~= Seq::<GcdSlot>::empty());
    }
    while reversed.len() > 0
        invariant
            0 <= n <= all.len(),
            reversed@.len() == all.len() - n,
            forall|i: int| 0 <= i < reversed@.len() ==> reversed@[i] == all[all.len() - 1 - i],
            (cycle_slots(cycles@), current_slots@) == split_upto(all, anchor_id, n),
            forall|i: int| 0 <= i < cycles@.len() ==> fresh_cycle(#[trigger] cycles@[i]),
        decreases reversed@.len(),
    {
        let slot = reversed.pop().unwrap();
        proof {
            assert(slot == all[n]);
        }
        let is_anchor = slot_is_anchor(&slot, anchor_id);
        if is_anchor && current_slots.len() > 0 {
            let done = current_slots;
            current_slots = Vec::new();
            let ghost before = cycles@;
            cycles.push(empty_cycle(done));
            proof {
                assert(cycle_slots(cycles@) =~= cycle_slots(before).push(done@));
            }
        }
        current_slots.push(slot);
        proof {
            n = n + 1;
            assert(current_slots@ =~= split_upto(all, anchor_id, n).1);
        }
    }
    if current_slots.len() > 0 {
        let ghost before = cycles@;
        cycles.push(empty_cycle(current_slots));
        proof {
            assert(cycle_slots(cycles@) =~= cycle_slots(before).push(split_upto(all, anchor_id, n).1));
        }
    }
    cycles
}

/// What [`split_upto`] builds: closed cycles are never empty, every cycle
/// but the first begins with an anchor slot, no cycle has an anchor slot
/// after its first, and together with the open slots they are the slots in
/// order.
proof fn lemma_split_upto(slots: Seq<GcdSlot>, anchor_id: i64, n: int)
    requires
        0 <= n <= slots.len(),
    ensures
        ({
            let (cycles, current) = split_upto(slots, anchor_id, n);
            &&& concat(cycles) + current == slots.take(n)
            &&& forall|i: int| 0 <= i < cycles.len() ==> (#[trigger] cycles[i]).len() > 0
            &&& n > 0 ==> current.len() > 0
            &&& forall|i: int| 0 < i < cycles.len() ==> is_anchor_slot((#[trigger] cycles[i])[0], anchor_id)
            &&& cycles.len() > 0 ==> is_anchor_slot(current[0], anchor_id)
            &&& forall|i: int, k: int| 0 <= i < cycles.len() && 0 < k < cycles[i].len() ==> !is_anchor_slot(#[trigger] cycles[i][k], anchor_id)
            &&& forall|k: int| 0 < k < current.len() ==> !is_anchor_slot(#[trigger] current[k], anchor_id)
        }),
    decreases n,
{
    if n > 0 {
        lemma_split_upto(slots, anchor_id, n - 1);
        let (cycles, current) = split_upto(slots, anchor_id, n - 1);
        let slot = slots[n - 1];
        if is_anchor_slot(slot, anchor_id) && current.len() > 0 {
            let c2 = cycles.push(current);
            assert(c2.drop_last() =~= cycles);
            assert(slots.take(n) =~= slots.take(n - 1).push(slot));
            assert(concat(c2) + seq![slot] =~= slots.take(n));
        } else {
            assert(slots.take(n) =~= slots.take(n - 1).push(slot));
            assert(concat(cycles) + current.push(slot) =~= slots.take(n));
        }
    }
}

/// Splitting into cycles loses and reorders nothing: the cycles' slots, one
/// after the other, are the slots given. Every cycle is non-empty; every
/// cycle but the first begins with a use of the anchor ability, and no
/// cycle uses it after its first slot.
pub proof fn lemma_cycles_partition_slots(slots: Seq<GcdSlot>, anchor_id: i64)
    ensures
        ({
            let g = cycle_groups(slots, anchor_id);
            &&& concat(g) == slots
            &&& forall|i: int| 0 <= i < g.len() ==> (#[trigger] g[i]).len() > 0
            &&& forall|i: int| 0 < i < g.len() ==> is_anchor_slot((#[trigger] g[i])[0], anchor_id)
            &&& forall|i: int, k: int|
                0 <= i < g.len() && 0 < k < g[i].len() ==> !is_anchor_slot(#[trigger] g[i][k], anchor_id)
        }),
{
    lemma_split_upto(slots, anchor_id, slots.len() as int);
    let (cycles, current) = split_upto(slots, anchor_id, slots.len() as int);
    assert(slots.take(slots.len() as int) =~= slots);
    if current.len() > 0 {
        let g = cycles.push(current);
        assert(g.drop_last() =~= cycles);
    } else {
        assert(concat(cycles) + current =~= concat(cycles));
    }
}

/// The anchor ability is used in a slot: as its GCD ability or as any of
/// its off-GCD weaves.
pub open spec fn uses_ability(slot: GcdSlot, id: i64) -> bool {
    slot.gcd_ability.ability_id == id || exists|m: int|
        0 <= m < slot.off_gcd@.len() && (#[trigger] slot.off_gcd@[m]).ability_id == id
}

/// Every slot that uses the anchor ability, on the GCD or woven at any
/// place among its off-GCD abilities, begins a cycle (unless it is the
/// very first slot): within a cycle, no slot after the first uses the
/// anchor at all; and every cycle but the first begins with a slot that uses
/// it.
pub proof fn lemma_anchor_uses_begin_cycles(slots: Seq<GcdSlot>, anchor_id: i64)
    ensures
        ({
            let g = cycle_groups(slots, anchor_id);
            &&& concat(g) == slots
            &&& forall|i: int, k: int, m: int|
                0 <= i < g.len() && 0 < k < g[i].len() && 0 <= m < g[i][k].off_gcd@.len()
                    ==> (#[trigger] g[i][k].off_gcd@[m]).ability_id != anchor_id
            &&& forall|i: int, k: int|
                0 <= i < g.len() && 0 < k < g[i].len() ==> (#[trigger] g[i][k]).gcd_ability.ability_id
                    != anchor_id
            &&& forall|i: int| 0 < i < g.len() ==> uses_ability((#[trigger] g[i])[0], anchor_id)
        }),
{
    lemma_cycles_partition_slots(slots, anchor_id);
    let g = cycle_groups(slots, anchor_id);
    assert forall|i: int, k: int, m: int|
        0 <= i < g.len() && 0 < k < g[i].len() && 0 <= m < g[i][k].off_gcd@.len()
            implies (#[trigger] g[i][k].off_gcd@[m]).ability_id != anchor_id by {
        assert(!is_anchor_slot(g[i][k], anchor_id));
    }
    assert forall|i: int| 0 < i < g.len() implies uses_ability((#[trigger] g[i])[0], anchor_id) by {
        assert(is_anchor_slot(g[i][0], anchor_id));
    }
}

} // verus!
