//! Persistent player-to-slot assignments for the raid frames.
//!
//! Players are added when they first receive an effect from the local
//! player and keep their slot until the user moves or removes them.
use std::collections::HashMap;
use vstd::prelude::*;

verus! {

broadcast use vstd::std_specs::hash::group_hash_axioms;

/// A player registered in the raid frames.
#[derive(Debug, Clone)]
pub struct RegisteredPlayer {
    pub entity_id: i64,
    pub name: String,
    pub class_id: Option<i64>,
    pub discipline_id: Option<i64>,
}

/// Mathematical model of a [`RegisteredPlayer`].
pub struct RegisteredPlayerView {
    pub entity_id: i64,
    pub name: Seq<char>,
    pub class_id: Option<i64>,
    pub discipline_id: Option<i64>,
}

impl View for RegisteredPlayer {
    type V = RegisteredPlayerView;

    open spec fn view(&self) -> RegisteredPlayerView {
        RegisteredPlayerView {
            entity_id: self.entity_id,
            name: self.name@,
            class_id: self.class_id,
            discipline_id: self.discipline_id,
        }
    }
}

/// A newly registered player: no class or discipline known yet.
pub open spec fn new_player(entity_id: i64, name: Seq<char>) -> RegisteredPlayerView {
    RegisteredPlayerView { entity_id, name, class_id: None, discipline_id: None }
}

impl RegisteredPlayer {
    /// A player with the given id and name and no class or discipline yet.
    pub fn new(entity_id: i64, name: String) -> (r: Self)
        ensures
            r@ == new_player(entity_id, name@),
    {
        Self { entity_id, name, class_id: None, discipline_id: None }
    }
}

/// Slot assignments: each slot holds at most one player, each player sits in
/// at most one slot, and the reverse lookup from player to slot agrees.
#[derive(Debug)]
pub struct RaidSlotRegistry {
    slots: HashMap<u8, RegisteredPlayer>,
    entity_to_slot: HashMap<i64, u8>,
    max_slots: u8,
}

/// Mathematical model of a [`RaidSlotRegistry`].
pub struct RaidSlotRegistryView {
    pub slots: Map<u8, RegisteredPlayerView>,
    pub entity_to_slot: Map<i64, u8>,
    pub max_slots: u8,
}

/// The slot map as plain views.
pub open spec fn slot_views(m: Map<u8, RegisteredPlayer>) -> Map<u8, RegisteredPlayerView> {
    Map::new(|s: u8| m.contains_key(s), |s: u8| m[s]@)
}

impl View for RaidSlotRegistry {
    type V = RaidSlotRegistryView;

    closed spec fn view(&self) -> RaidSlotRegistryView {
        RaidSlotRegistryView {
            slots: slot_views(self.slots@),
            entity_to_slot: self.entity_to_slot@,
            max_slots: self.max_slots,
        }
    }
}

impl RaidSlotRegistryView {
    /// The slot map is finite and the reverse lookup is exactly its inverse.
    pub open spec fn wf(self) -> bool {
        &&& self.slots.dom().finite()
        &&& forall|s: u8|
            #[trigger] self.slots.contains_key(s) ==> self.entity_to_slot.contains_key(
                self.slots[s].entity_id,
            ) && self.entity_to_slot[self.slots[s].entity_id] == s
        &&& forall|e: i64|
            #[trigger] self.entity_to_slot.contains_key(e) ==> self.slots.contains_key(
                self.entity_to_slot[e],
            ) && self.slots[self.entity_to_slot[e]].entity_id == e
    }

    /// `s` is the lowest empty slot below the maximum.
    pub open spec fn is_first_free(self, s: u8) -> bool {
        &&& s < self.max_slots
        &&& !self.slots.contains_key(s)
        &&& forall|t: u8| t < s ==> #[trigger] self.slots.contains_key(t)
    }

    /// The lowest empty slot below the maximum, if any.
    pub open spec fn first_free_slot(self) -> Option<u8> {
        if exists|s: u8| self.is_first_free(s) {
            Some(choose|s: u8| self.is_first_free(s))
        } else {
            None
        }
    }

    /// `player` put in `slot`.
    pub open spec fn placed(self, slot: u8, player: RegisteredPlayerView) -> Self {
        RaidSlotRegistryView {
            slots: self.slots.insert(slot, player),
            entity_to_slot: self.entity_to_slot.insert(player.entity_id, slot),
            ..self
        }
    }

    /// The registry after swapping slots `a` and `b`: whoever sat in `a`
    /// moves to `b` and whoever sat in `b` moves to `a`.
    pub open spec fn swapped(self, a: u8, b: u8) -> Self {
        let m1 = self.slots.remove(a);
        let r1 = RaidSlotRegistryView {
            slots: m1.remove(b),
            ..self
        };
        let r2 = if self.slots.contains_key(a) {
            r1.placed(b, self.slots[a])
        } else {
            r1
        };
        if m1.contains_key(b) {
            r2.placed(a, m1[b])
        } else {
            r2
        }
    }

    /// The registry after emptying `slot`.
    pub open spec fn without_slot(self, slot: u8) -> Self {
        if self.slots.contains_key(slot) {
            RaidSlotRegistryView {
                slots: self.slots.remove(slot),
                entity_to_slot: self.entity_to_slot.remove(self.slots[slot].entity_id),
                ..self
            }
        } else {
            self
        }
    }

    /// `slot` holding `p`.
    pub open spec fn with_player_in(self, slot: u8, p: RegisteredPlayerView) -> Self {
        RaidSlotRegistryView { slots: self.slots.insert(slot, p), ..self }
    }

    /// Every occupied slot is below the maximum.
    pub open spec fn in_bounds(self) -> bool {
        forall|s: u8| #[trigger] self.slots.contains_key(s) ==> s < self.max_slots
    }

    /// The registry after registering a player: unchanged if the player is
    /// already registered or no slot is free, else the player is in the
    /// lowest free slot.
    pub open spec fn registered(self, entity_id: i64, name: Seq<char>) -> Self {
        if self.entity_to_slot.contains_key(entity_id) {
            self
        } else {
            match self.first_free_slot() {
                Some(s) => self.placed(s, new_player(entity_id, name)),
                None => self,
            }
        }
    }

    /// The registry after recording a player's class and discipline.
    pub open spec fn with_discipline(self, entity_id: i64, class_id: i64, discipline_id: i64) -> Self {
        match self.entity_to_slot.get(entity_id) {
            Some(s) => self.with_player_in(
                s,
                RegisteredPlayerView {
                    class_id: Some(class_id),
                    discipline_id: Some(discipline_id),
                    ..self.slots[s]
                },
            ),
            None => self,
        }
    }

    /// The registry after renaming a player.
    pub open spec fn with_name(self, entity_id: i64, name: Seq<char>) -> Self {
        match self.entity_to_slot.get(entity_id) {
            Some(s) => self.with_player_in(s, RegisteredPlayerView { name, ..self.slots[s] }),
            None => self,
        }
    }

    /// The registry with every slot empty.
    pub open spec fn cleared(self) -> Self {
        RaidSlotRegistryView { slots: Map::empty(), entity_to_slot: Map::empty(), ..self }
    }
}

/// A call that changes a registry.
pub enum RegistryCall {
    Register(i64, Seq<char>),
    UpdateDiscipline(i64, i64, i64),
    UpdateName(i64, Seq<char>),
    Swap(u8, u8),
    Remove(u8),
    Clear,
}

/// The registry after one call.
pub open spec fn after_call(r: RaidSlotRegistryView, c: RegistryCall) -> RaidSlotRegistryView {
    match c {
        RegistryCall::Register(e, n) => r.registered(e, n),
        RegistryCall::UpdateDiscipline(e, c, d) => r.with_discipline(e, c, d),
        RegistryCall::UpdateName(e, n) => r.with_name(e, n),
        RegistryCall::Swap(a, b) => r.swapped(a, b),
        RegistryCall::Remove(s) => r.without_slot(s),
        RegistryCall::Clear => r.cleared(),
    }
}

/// The registry after the calls, in order.
pub open spec fn after_calls(r: RaidSlotRegistryView, cs: Seq<RegistryCall>) -> RaidSlotRegistryView
    decreases cs.len(),
{
    if cs.len() == 0 {
        r
    } else {
        after_call(after_calls(r, cs.drop_last()), cs.last())
    }
}

/// Every swap among the calls is between slots below `max`.
pub open spec fn swaps_below(cs: Seq<RegistryCall>, max: u8) -> bool {
    forall|i: int|
        0 <= i < cs.len() ==> match #[trigger] cs[i] {
            RegistryCall::Swap(a, b) => a < max && b < max,
            _ => true,
        }
}

impl RaidSlotRegistry {
    /// An empty registry with the given number of slots.
    pub fn new(max_slots: u8) -> (r: Self)
        ensures
            r@.wf(),
            r@.slots == Map::<u8, RegisteredPlayerView>::empty(),
            r@.entity_to_slot == Map::<i64, u8>::empty(),
            r@.max_slots == max_slots,
            r@.in_bounds(),
    {
        let r = Self { slots: HashMap::new(), entity_to_slot: HashMap::new(), max_slots };
        proof {
            assert(r@.slots =~= Map::<u8, RegisteredPlayerView>::empty());
        }
        r
    }

    /// Registers a player in the lowest empty slot; `None` when the player
    /// is already registered or every slot is taken.
    pub fn try_register(&mut self, entity_id: i64, name: String) -> (res: Option<u8>)
        requires
            old(self)@.wf(),
        ensures
            final(self)@.wf(),
            old(self)@.entity_to_slot.contains_key(entity_id) ==> res is None && final(self)@
                == old(self)@,
            !old(self)@.entity_to_slot.contains_key(entity_id) ==> res == old(
                self,
            )@.first_free_slot() && match res {
                Some(s) => final(self)@ == old(self)@.placed(s, new_player(entity_id, name@)),
                None => final(self)@ == old(self)@,
            },
            final(self)@ == after_call(old(self)@, RegistryCall::Register(entity_id, name@)),
            res is Some ==> final(self)@.slots.len() == old(self)@.slots.len() + 1,
            old(self)@.in_bounds() ==> final(self)@.in_bounds(),
    {
        proof {
            lemma_call_keeps(old(self)@, RegistryCall::Register(entity_id, name@));
        }
        if self.entity_to_slot.contains_key(&entity_id) {
            return None;
        }
        let slot = match self.find_first_available_slot() {
            Some(s) => s,
            None => return None,
        };
        let player = RegisteredPlayer::new(entity_id, name);
        let ghost before = self@;
        let ghost pv = player@;
        self.slots.insert(slot, player);
        self.entity_to_slot.insert(entity_id, slot);
        proof {
            assert(self@.slots =~= before.slots.insert(slot, pv));
            assert(self@ == before.placed(slot, pv));
            assert forall|s: u8| #[trigger] self@.slots.contains_key(s) implies self@.entity_to_slot.contains_key(
                self@.slots[s].entity_id,
            ) && self@.entity_to_slot[self@.slots[s].entity_id] == s by {
                if s != slot {
                    assert(before.slots.contains_key(s));
                    assert(before.slots[s].entity_id != entity_id);
                }
            }
        }
        Some(slot)
    }

    /// Records the class and discipline of a registered player.
    pub fn update_discipline(&mut self, entity_id: i64, class_id: i64, discipline_id: i64)
        requires
            old(self)@.wf(),
        ensures
            final(self)@.wf(),
            (match old(self)@.entity_to_slot.get(entity_id) {
                Some(s) => final(self)@ == old(self)@.with_player_in(
                    s,
                    RegisteredPlayerView {
                        class_id: Some(class_id),
                        discipline_id: Some(discipline_id),
                        ..old(self)@.slots[s]
                    },
                ),
                None => final(self)@ == old(self)@,
            }),
            final(self)@ == after_call(
                old(self)@,
                RegistryCall::UpdateDiscipline(entity_id, class_id, discipline_id),
            ),
            final(self)@.slots.len() == old(self)@.slots.len(),
            old(self)@.in_bounds() ==> final(self)@.in_bounds(),
    {
        proof {
            lemma_call_keeps(old(self)@, RegistryCall::UpdateDiscipline(entity_id, class_id, discipline_id));
        }
        if let Some(slot_ref) = self.entity_to_slot.get(&entity_id) {
            let slot = *slot_ref;
            if let Some(mut player) = self.slots.remove(&slot) {
                player.class_id = Some(class_id);
                player.discipline_id = Some(discipline_id);
                let ghost before = self@;
                let ghost pv = player@;
                self.slots.insert(slot, player);
                proof {
                    assert(self@.slots =~= old(self)@.slots.insert(slot, pv));
                }
            }
        }
    }

    /// Changes the name of a registered player.
    pub fn update_name(&mut self, entity_id: i64, name: String)
        requires
            old(self)@.wf(),
        ensures
            final(self)@.wf(),
            (match old(self)@.entity_to_slot.get(entity_id) {
                Some(s) => final(self)@ == old(self)@.with_player_in(
                    s,
                    RegisteredPlayerView { name: name@, ..old(self)@.slots[s] },
                ),
                None => final(self)@ == old(self)@,
            }),
            final(self)@ == after_call(old(self)@, RegistryCall::UpdateName(entity_id, name@)),
            final(self)@.slots.len() == old(self)@.slots.len(),
            old(self)@.in_bounds() ==> final(self)@.in_bounds(),
    {
        proof {
            lemma_call_keeps(old(self)@, RegistryCall::UpdateName(entity_id, name@));
        }
        if let Some(slot_ref) = self.entity_to_slot.get(&entity_id) {
            let slot = *slot_ref;
            if let Some(mut player) = self.slots.remove(&slot) {
                player.name = name;
                let ghost pv = player@;
                self.slots.insert(slot, player);
                proof {
                    assert(self@.slots =~= old(self)@.slots.insert(slot, pv));
                }
            }
        }
    }

    /// The lowest empty slot below the maximum.
    fn find_first_available_slot(&self) -> (res: Option<u8>)
        ensures
            res == self@.first_free_slot(),
    {
        let mut slot: u8 = 0;
        while slot < self.max_slots
            invariant
                slot <= self.max_slots,
                forall|t: u8| t < slot ==> #[trigger] self@.slots.contains_key(t),
            decreases self.max_slots - slot,
        {
            if !self.slots.contains_key(&slot) {
                proof {
                    assert(self@.is_first_free(slot));
                    lemma_first_free_unique(self@, slot);
                }
                return Some(slot);
            }
            slot = slot + 1;
        }
        proof {
            assert forall|s: u8| !self@.is_first_free(s) by {
                if self@.is_first_free(s) {
                    assert(self@.slots.contains_key(s));
                }
            }
        }
        None
    }

    /// Swaps the players of two slots (either may be empty).
    pub fn swap_slots(&mut self, slot_a: u8, slot_b: u8)
        requires
            old(self)@.wf(),
        ensures
            final(self)@ == old(self)@.swapped(slot_a, slot_b),
            final(self)@ == after_call(old(self)@, RegistryCall::Swap(slot_a, slot_b)),
            final(self)@.wf(),
            final(self)@.slots.len() == old(self)@.slots.len(),
            old(self)@.in_bounds() && slot_a < old(self)@.max_slots && slot_b < old(self)@.max_slots
                ==> final(self)@.in_bounds(),
    {
        proof {
            lemma_call_keeps(old(self)@, RegistryCall::Swap(slot_a, slot_b));
        }
        let ghost r0 = self@;
        let player_a = self.slots.remove(&slot_a);
        let ghost m1 = self@.slots;
        let player_b = self.slots.remove(&slot_b);
        proof {
            assert(m1 =~= r0.slots.remove(slot_a));
            assert(self@.slots =~= m1.remove(slot_b));
            assert(player_a is Some <==> r0.slots.contains_key(slot_a));
            assert(player_a matches Some(p) ==> p@ == r0.slots[slot_a]);
            assert(player_b is Some <==> m1.contains_key(slot_b));
            assert(player_b matches Some(p) ==> p@ == m1[slot_b]);
        }
        if let Some(p) = player_a {
            let ghost pv = p@;
            let ghost before = self@;
            self.entity_to_slot.insert(p.entity_id, slot_b);
            self.slots.insert(slot_b, p);
            proof {
                assert(self@.slots =~= before.slots.insert(slot_b, pv));
            }
        }
        if let Some(p) = player_b {
            let ghost pv = p@;
            let ghost before = self@;
            self.entity_to_slot.insert(p.entity_id, slot_a);
            self.slots.insert(slot_a, p);
            proof {
                assert(self@.slots =~= before.slots.insert(slot_a, pv));
            }
        }
        proof {
            lemma_swapped_wf(r0, slot_a, slot_b);
        }
    }

    /// Empties a slot, forgetting its player.
    pub fn remove_slot(&mut self, slot: u8)
        requires
            old(self)@.wf(),
        ensures
            final(self)@ == old(self)@.without_slot(slot),
            final(self)@ == after_call(old(self)@, RegistryCall::Remove(slot)),
            final(self)@.wf(),
            old(self)@.slots.contains_key(slot) ==> final(self)@.slots.len() == old(self)@.slots.len() - 1,
            !old(self)@.slots.contains_key(slot) ==> final(self)@ == old(self)@,
            old(self)@.in_bounds() ==> final(self)@.in_bounds(),
    {
        proof {
            lemma_call_keeps(old(self)@, RegistryCall::Remove(slot));
        }
        let ghost r0 = self@;
        if let Some(player) = self.slots.remove(&slot) {
            self.entity_to_slot.remove(&player.entity_id);
            proof {
                assert(self@.slots =~= r0.slots.remove(slot));
            }
        } else {
            proof {
                assert(self@.slots =~= r0.slots);
            }
        }
    }

    /// The slot of a registered player.
    pub fn get_slot(&self, entity_id: i64) -> (res: Option<u8>)
        ensures
            res == self@.entity_to_slot.get(entity_id),
    {
        match self.entity_to_slot.get(&entity_id) {
            Some(s) => Some(*s),
            None => None,
        }
    }

    /// The player in a slot.
    pub fn get_player(&self, slot: u8) -> (res: Option<&RegisteredPlayer>)
        ensures
            match res {
                Some(p) => self@.slots.contains_key(slot) && self@.slots[slot] == p@,
                None => !self@.slots.contains_key(slot),
            },
    {
        self.slots.get(&slot)
    }

    /// Whether a player has a slot.
    pub fn is_registered(&self, entity_id: i64) -> (res: bool)
        ensures
            res == self@.entity_to_slot.contains_key(entity_id),
    {
        self.entity_to_slot.contains_key(&entity_id)
    }

    /// Empties every slot.
    pub fn clear(&mut self)
        ensures
            final(self)@.slots == Map::<u8, RegisteredPlayerView>::empty(),
            final(self)@.entity_to_slot == Map::<i64, u8>::empty(),
            final(self)@.max_slots == old(self)@.max_slots,
            final(self)@ == after_call(old(self)@, RegistryCall::Clear),
            final(self)@.wf(),
            final(self)@.in_bounds(),
    {
        self.slots.clear();
        self.entity_to_slot.clear();
        proof {
            assert(self@.slots =~= Map::<u8, RegisteredPlayerView>::empty());
        }
    }

    /// Every registered player with its slot, in increasing slot order.
    pub fn iter(&self) -> (res: Vec<(u8, &RegisteredPlayer)>)
        ensures
            forall|i: int|
                0 <= i < res@.len() ==> self@.slots.contains_key(#[trigger] res@[i].0)
                    && self@.slots[res@[i].0] == res@[i].1@,
            forall|s: u8| self@.slots.contains_key(s) ==> exists|i: int| 0 <= i < res@.len() && #[trigger] res@[i].0 == s,
            forall|i: int, j: int| 0 <= i < j < res@.len() ==> res@[i].0 < res@[j].0,
    {
        let mut res: Vec<(u8, &RegisteredPlayer)> = Vec::new();
        let mut s: u16 = 0;
        while s < 256
            invariant
                s <= 256,
                forall|i: int|
                    0 <= i < res@.len() ==> self@.slots.contains_key(#[trigger] res@[i].0)
                        && self@.slots[res@[i].0] == res@[i].1@ && res@[i].0 < s,
                forall|t: u8| t < s && self@.slots.contains_key(t) ==> exists|i: int| 0 <= i < res@.len() && #[trigger] res@[i].0 == t,
                forall|i: int, j: int| 0 <= i < j < res@.len() ==> res@[i].0 < res@[j].0,
            decreases 256 - s,
        {
            let slot = s as u8;
            let ghost old_res = res@;
            let found = self.slots.get(&slot);
            if let Some(p) = found {
                res.push((slot, p));
            }
            proof {
                assert forall|t: u8| t < s + 1 && self@.slots.contains_key(t) implies exists|i: int|
                    0 <= i < res@.len() && #[trigger] res@[i].0 == t by {
                    if t < s {
                        let i = choose|i: int| 0 <= i < old_res.len() && #[trigger] old_res[i].0 == t;
                        assert(res@[i] == old_res[i]);
                    } else {
                        assert(res@[res@.len() - 1].0 == slot);
                    }
                }
            }
            s = s + 1;
        }
        res
    }

    /// How many players are registered.
    pub fn len(&self) -> (res: usize)
        ensures
            res == self@.slots.len(),
    {
        proof {
            assert(self@.slots.dom() =~= self.slots@.dom());
        }
        self.slots.len()
    }

    /// Whether no player is registered.
    pub fn is_empty(&self) -> (res: bool)
        ensures
            res == (self@.slots.len() == 0),
    {
        self.len() == 0
    }

    /// The number of slots.
    pub fn max_slots(&self) -> (res: u8)
        ensures
            res == self@.max_slots,
    {
        self.max_slots
    }
}

/// There is only one lowest empty slot.
proof fn lemma_first_free_unique(r: RaidSlotRegistryView, s: u8)
    requires
        r.is_first_free(s),
    ensures
        r.first_free_slot() == Some(s),
{
    let c = choose|t: u8| r.is_first_free(t);
    if c < s {
        assert(r.slots.contains_key(c));
    } else if s < c {
        assert(r.slots.contains_key(s));
    }
}

/// Swapping slots keeps the reverse lookup the inverse of the slot map.
proof fn lemma_swapped_wf(r: RaidSlotRegistryView, a: u8, b: u8)
    requires
        r.wf(),
    ensures
        r.swapped(a, b).wf(),
{
    let n = r.swapped(a, b);
    assert forall|s: u8| #[trigger] n.slots.contains_key(s) implies n.entity_to_slot.contains_key(
        n.slots[s].entity_id,
    ) && n.entity_to_slot[n.slots[s].entity_id] == s by {
        if s != a && s != b {
            assert(r.slots.contains_key(s));
            if r.slots.contains_key(a) {
                assert(r.slots[a].entity_id != r.slots[s].entity_id);
            }
            if r.slots.contains_key(b) {
                assert(r.slots[b].entity_id != r.slots[s].entity_id);
            }
        }
    }
    assert forall|e: i64| #[trigger] n.entity_to_slot.contains_key(e) implies n.slots.contains_key(
        n.entity_to_slot[e],
    ) && n.slots[n.entity_to_slot[e]].entity_id == e by {
        let in_a = r.slots.contains_key(a) && r.slots[a].entity_id == e;
        let in_b = r.slots.contains_key(b) && r.slots[b].entity_id == e;
        if !in_a && !in_b {
            assert(r.entity_to_slot.contains_key(e));
            let s = r.entity_to_slot[e];
            assert(r.slots.contains_key(s));
        }
    }
}

/// Swapping slots keeps the number of players.
proof fn lemma_swapped_len(r: RaidSlotRegistryView, a: u8, b: u8)
    requires
        r.slots.dom().finite(),
    ensures
        r.swapped(a, b).slots.dom().finite(),
        r.swapped(a, b).slots.len() == r.slots.len(),
{
    let d = r.slots.dom();
    let m1 = r.slots.remove(a);
    let m2 = m1.remove(b);
    let n = r.swapped(a, b);
    if a == b {
        assert(n.slots.dom() =~= d);
    } else {
        assert(m1.dom() =~= d.remove(a));
        assert(m2.dom() =~= d.remove(a).remove(b));
        if d.contains(a) && d.contains(b) {
            assert(n.slots.dom() =~= d.remove(a).remove(b).insert(b).insert(a));
            assert(d.remove(a).remove(b).insert(b) =~= d.remove(a));
            assert(d.remove(a).insert(a) =~= d);
        } else if d.contains(a) {
            assert(n.slots.dom() =~= d.remove(a).remove(b).insert(b));
            assert(d.remove(a).remove(b) =~= d.remove(a));
        } else if d.contains(b) {
            assert(n.slots.dom() =~= d.remove(a).remove(b).insert(a));
            assert(d.remove(a) =~= d);
        } else {
            assert(n.slots.dom() =~= d);
        }
    }
}

/// Each call keeps the registry well formed and its number of slots, and
/// keeps every occupied slot below that number, provided a swap is between
/// slots below it.
proof fn lemma_call_keeps(r: RaidSlotRegistryView, c: RegistryCall)
    requires
        r.wf(),
    ensures
        after_call(r, c).wf(),
        after_call(r, c).max_slots == r.max_slots,
        r.in_bounds() && (match c {
            RegistryCall::Swap(a, b) => a < r.max_slots && b < r.max_slots,
            _ => true,
        }) ==> after_call(r, c).in_bounds(),
{
    match c {
        RegistryCall::Register(e, name) => {
            if !r.entity_to_slot.contains_key(e) {
                if let Some(s) = r.first_free_slot() {
                    assert(r.is_first_free(s));
                    let n = r.placed(s, new_player(e, name));
                    assert forall|t: u8| #[trigger] n.slots.contains_key(t) implies n.entity_to_slot.contains_key(
                        n.slots[t].entity_id,
                    ) && n.entity_to_slot[n.slots[t].entity_id] == t by {
                        if t != s {
                            assert(r.slots[t].entity_id != e);
                        }
                    }
                }
            }
        },
        RegistryCall::UpdateDiscipline(e, _, _) => {
            if let Some(s) = r.entity_to_slot.get(e) {
                assert(r.slots.contains_key(s));
                assert(r.slots.dom().insert(s) =~= r.slots.dom());
            }
        },
        RegistryCall::UpdateName(e, _) => {
            if let Some(s) = r.entity_to_slot.get(e) {
                assert(r.slots.contains_key(s));
                assert(r.slots.dom().insert(s) =~= r.slots.dom());
            }
        },
        RegistryCall::Swap(a, b) => {
            lemma_swapped_wf(r, a, b);
            lemma_swapped_len(r, a, b);
        },
        RegistryCall::Remove(s) => {
            if r.slots.contains_key(s) {
                lemma_removed_player_unregistered(r, s);
            }
        },
        RegistryCall::Clear => {
            assert(r.cleared().slots.dom() =~= Set::<u8>::empty());
        },
    }
}

/// The slots below `n`.
pub open spec fn below(n: u8) -> Set<u8> {
    Set::new(|s: u8| s < n)
}

proof fn lemma_below(n: u8)
    ensures
        below(n).finite(),
        below(n).len() == n,
    decreases n,
{
    if n == 0 {
        assert(below(0) =~= Set::<u8>::empty());
    } else {
        let m = (n - 1) as u8;
        lemma_below(m);
        assert(below(n) =~= below(m).insert(m));
    }
}

/// A registry whose occupied slots are all below the maximum holds no more
/// players than it has slots.
pub proof fn lemma_len_within_slots(r: RaidSlotRegistryView)
    requires
        r.wf(),
        r.in_bounds(),
    ensures
        r.slots.len() <= r.max_slots,
{
    lemma_below(r.max_slots);
    assert(r.slots.dom().subset_of(below(r.max_slots)));
    vstd::set_lib::lemma_len_subset(r.slots.dom(), below(r.max_slots));
}

/// No call changes the number of slots a registry was made with.
pub proof fn lemma_max_slots_fixed(r: RaidSlotRegistryView, cs: Seq<RegistryCall>)
    requires
        r.wf(),
    ensures
        after_calls(r, cs).max_slots == r.max_slots,
        after_calls(r, cs).wf(),
    decreases cs.len(),
{
    if cs.len() > 0 {
        lemma_max_slots_fixed(r, cs.drop_last());
        lemma_call_keeps(after_calls(r, cs.drop_last()), cs.last());
    }
}

/// A registry made with `n` slots, changed by any calls whose swaps are all
/// between slots below `n`, keeps every player in a slot below `n` and so
/// holds at most `n` players; it stays well formed throughout.
pub proof fn lemma_players_within_slots(r: RaidSlotRegistryView, cs: Seq<RegistryCall>)
    requires
        r.wf(),
        r.in_bounds(),
        swaps_below(cs, r.max_slots),
    ensures
        after_calls(r, cs).wf(),
        after_calls(r, cs).in_bounds(),
        after_calls(r, cs).slots.len() <= r.max_slots,
    decreases cs.len(),
{
    if cs.len() > 0 {
        let pre = cs.drop_last();
        assert forall|i: int| 0 <= i < pre.len() implies match #[trigger] pre[i] {
            RegistryCall::Swap(a, b) => a < r.max_slots && b < r.max_slots,
            _ => true,
        } by {
            assert(pre[i] == cs[i]);
        }
        lemma_players_within_slots(r, pre);
        lemma_max_slots_fixed(r, pre);
        let m = after_calls(r, pre);
        assert(match cs[cs.len() - 1] {
            RegistryCall::Swap(a, b) => a < r.max_slots && b < r.max_slots,
            _ => true,
        });
        lemma_call_keeps(m, cs.last());
    }
    lemma_max_slots_fixed(r, cs);
    lemma_len_within_slots(after_calls(r, cs));
}

/// Swapping the same two slots twice puts every player back where it was.
pub proof fn lemma_swap_twice_restores(r: RaidSlotRegistryView, a: u8, b: u8)
    requires
        r.wf(),
    ensures
        r.swapped(a, b).swapped(a, b) == r,
{
    let n = r.swapped(a, b).swapped(a, b);
    assert(n.slots =~= r.slots);
    assert forall|e: i64| #![auto] n.entity_to_slot.contains_key(e) == r.entity_to_slot.contains_key(e)
        && (r.entity_to_slot.contains_key(e) ==> n.entity_to_slot[e] == r.entity_to_slot[e]) by {
        if r.slots.contains_key(a) && r.slots[a].entity_id == e {
            assert(r.entity_to_slot[e] == a);
        }
        if r.slots.contains_key(b) && r.slots[b].entity_id == e {
            assert(r.entity_to_slot[e] == b);
        }
    }
    assert(n.entity_to_slot =~= r.entity_to_slot);
}

/// A player registered in a slot is found there: its slot is looked up,
/// and the slot holds it.
pub proof fn lemma_registered_player_found(
    r: RaidSlotRegistryView,
    entity_id: i64,
    name: Seq<char>,
    s: u8,
)
    requires
        r.wf(),
        !r.entity_to_slot.contains_key(entity_id),
        r.first_free_slot() == Some(s),
    ensures
        r.placed(s, new_player(entity_id, name)).entity_to_slot.get(entity_id) == Some(s),
        r.placed(s, new_player(entity_id, name)).slots[s] == new_player(entity_id, name),
        !r.slots.contains_key(s),
{
    assert(r.is_first_free(s));
}

/// Emptying a slot unregisters its player and leaves everyone else alone.
pub proof fn lemma_removed_player_unregistered(r: RaidSlotRegistryView, slot: u8)
    requires
        r.wf(),
        r.slots.contains_key(slot),
    ensures
        !r.without_slot(slot).entity_to_slot.contains_key(r.slots[slot].entity_id),
        !r.without_slot(slot).slots.contains_key(slot),
        forall|s: u8|
            s != slot && r.slots.contains_key(s) ==> #[trigger] r.without_slot(slot).slots.get(s)
                == r.slots.get(s),
        r.without_slot(slot).wf(),
{
    let n = r.without_slot(slot);
    let e0 = r.slots[slot].entity_id;
    assert forall|s: u8| #[trigger] n.slots.contains_key(s) implies n.entity_to_slot.contains_key(
        n.slots[s].entity_id,
    ) && n.entity_to_slot[n.slots[s].entity_id] == s by {
        assert(r.slots[s].entity_id != e0);
    }
}


/// Players keep their slots until the user moves or removes them:
/// registering someone new puts them in an empty slot and changes no one
/// else's slot, and updating a player's details changes no slot.
pub proof fn lemma_players_keep_slots(
    r: RaidSlotRegistryView,
    entity_id: i64,
    name: Seq<char>,
    s: u8,
    other: i64,
)
    requires
        r.wf(),
        !r.entity_to_slot.contains_key(entity_id),
        r.first_free_slot() == Some(s),
        r.entity_to_slot.contains_key(other),
    ensures
        r.placed(s, new_player(entity_id, name)).entity_to_slot.get(other) == r.entity_to_slot.get(
            other,
        ),
        r.placed(s, new_player(entity_id, name)).slots.get(r.entity_to_slot[other]) == r.slots.get(
            r.entity_to_slot[other],
        ),
        r.placed(s, new_player(entity_id, name)).wf(),
        forall|p: RegisteredPlayerView|
            p.entity_id == other ==> #[trigger] r.with_player_in(r.entity_to_slot[other], p).entity_to_slot
                == r.entity_to_slot,
{
    assert(r.is_first_free(s));
    let n = r.placed(s, new_player(entity_id, name));
    assert(other != entity_id);
    assert(r.entity_to_slot[other] != s);
    assert forall|t: u8| #[trigger] n.slots.contains_key(t) implies n.entity_to_slot.contains_key(
        n.slots[t].entity_id,
    ) && n.entity_to_slot[n.slots[t].entity_id] == t by {
        if t != s {
            assert(r.slots[t].entity_id != entity_id);
        }
    }
}

/// A rearrangement the user makes on the raid frames.
#[derive(Debug, Clone, Copy, PartialEq, Eq, Structural)]
pub enum RaidRegistryAction {
    /// Swap the players of two slots.
    SwapSlots(u8, u8),
    /// Empty a slot.
    ClearSlot(u8),
}

/// The registry after one action.
pub open spec fn after_action(r: RaidSlotRegistryView, a: RaidRegistryAction) -> RaidSlotRegistryView {
    match a {
        RaidRegistryAction::SwapSlots(x, y) => r.swapped(x, y),
        RaidRegistryAction::ClearSlot(s) => r.without_slot(s),
    }
}

/// The registry after the actions, in order.
pub open spec fn after_actions(r: RaidSlotRegistryView, acts: Seq<RaidRegistryAction>) -> RaidSlotRegistryView
    decreases acts.len(),
{
    if acts.len() == 0 {
        r
    } else {
        after_action(after_actions(r, acts.drop_last()), acts.last())
    }
}

impl RaidSlotRegistry {
    /// Applies the rearrangements the raid frames sent, in order.
    pub fn apply_registry_actions(&mut self, actions: &[RaidRegistryAction])
        requires
            old(self)@.wf(),
        ensures
            final(self)@ == after_actions(old(self)@, actions@),
            final(self)@.wf(),
    {
        let mut i: usize = 0;
        proof {
            assert(actions@.take(0) =~= Seq::<RaidRegistryAction>::empty());
        }
        while i < actions.len()
            invariant
                i <= actions@.len(),
                self@.wf(),
                self@ == after_actions(old(self)@, actions@.take(i as int)),
            decreases actions@.len() - i,
        {
            match actions[i] {
                RaidRegistryAction::SwapSlots(a, b) => self.swap_slots(a, b),
                RaidRegistryAction::ClearSlot(s) => self.remove_slot(s),
            }
            proof {
                assert(actions@.take(i + 1).drop_last() =~= actions@.take(i as int));
            }
            i = i + 1;
        }
        proof {
            assert(actions@.take(actions@.len() as int) =~= actions@);
        }
    }
}

} // verus!
