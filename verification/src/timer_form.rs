//! The timer editor's forms: switching a difficulty on or off, picking the
//! boss of a new timer, and building the new timer from the form.
use crate::text::str_eq;
use crate::types::{BossListItem, TimerListItem, TimerTrigger};
use vstd::prelude::*;
use vstd::string::*;

verus! {

/// The difficulties as text.
pub open spec fn views(ds: Seq<String>) -> Seq<Seq<char>> {
    ds.map_values(|s: String| s@)
}

/// `ds` without every entry equal to `d`, the others in order.
pub open spec fn drop_all(ds: Seq<Seq<char>>, d: Seq<char>) -> Seq<Seq<char>>
    decreases ds.len(),
{
    if ds.len() == 0 {
        Seq::empty()
    } else {
        let prev = drop_all(ds.drop_last(), d);
        if ds.last() == d {
            prev
        } else {
            prev.push(ds.last())
        }
    }
}

/// Switching difficulty `d`: removed (every copy) if listed, else appended.
pub open spec fn toggled(ds: Seq<Seq<char>>, d: Seq<char>) -> Seq<Seq<char>> {
    if ds.contains(d) {
        drop_all(ds, d)
    } else {
        ds.push(d)
    }
}

/// The difficulties a new timer starts with.
pub open spec fn all_difficulties() -> Seq<Seq<char>> {
    seq!["story"@, "veteran"@, "master"@]
}

proof fn lemma_drop_all_contains(ds: Seq<Seq<char>>, d: Seq<char>, x: Seq<char>)
    ensures
        drop_all(ds, d).contains(x) == (ds.contains(x) && x != d),
    decreases ds.len(),
{
    if ds.len() > 0 {
        let pre = ds.drop_last();
        lemma_drop_all_contains(pre, d, x);
        let prev = drop_all(pre, d);
        if ds.contains(x) && x != d {
            let w = choose|w: int| 0 <= w < ds.len() && ds[w] == x;
            if w < ds.len() - 1 {
                assert(pre[w] == x);
                let v = choose|v: int| 0 <= v < prev.len() && prev[v] == x;
                if ds.last() != d {
                    assert(drop_all(ds, d)[v] == x);
                }
            } else {
                assert(drop_all(ds, d)[prev.len() as int] == x);
            }
        }
        if drop_all(ds, d).contains(x) {
            let w = choose|w: int| 0 <= w < drop_all(ds, d).len() && drop_all(ds, d)[w] == x;
            if w < prev.len() {
                assert(prev[w] == x);
                let v = choose|v: int| 0 <= v < pre.len() && pre[v] == x;
                assert(ds[v] == x);
            } else {
                assert(ds[ds.len() - 1] == x);
            }
        }
    }
}

/// Switching a difficulty flips whether it is listed, and switching it twice
/// lists the same difficulties as before (perhaps in another order).
pub proof fn lemma_toggle_difficulty_twice(ds: Seq<Seq<char>>, d: Seq<char>)
    ensures
        toggled(ds, d).contains(d) == !ds.contains(d),
        toggled(toggled(ds, d), d).to_set() == ds.to_set(),
{
    let once = toggled(ds, d);
    let twice = toggled(once, d);
    if ds.contains(d) {
        lemma_drop_all_contains(ds, d, d);
    } else {
        assert(once.contains(d)) by {
            assert(once[ds.len() as int] == d);
        }
    }
    assert forall|x: Seq<char>| twice.contains(x) == ds.contains(x) by {
        if ds.contains(d) {
            lemma_drop_all_contains(ds, d, x);
            if x == d {
                assert(twice[once.len() as int] == x);
            } else if once.contains(x) {
                let w = choose|w: int| 0 <= w < once.len() && once[w] == x;
                assert(twice[w] == x);
            }
            if twice.contains(x) && x != d {
                let w = choose|w: int| 0 <= w < twice.len() && twice[w] == x;
                assert(once[w] == x);
            }
        } else {
            lemma_drop_all_contains(once, d, x);
            if ds.contains(x) {
                let w = choose|w: int| 0 <= w < ds.len() && ds[w] == x;
                assert(once[w] == x);
            }
            if once.contains(x) && x != d {
                let w = choose|w: int| 0 <= w < once.len() && once[w] == x;
                assert(ds[w] == x);
            }
        }
    }
    assert(twice.to_set() =~= ds.to_set());
}

fn lists_difficulty(ds: &Vec<String>, d: &str) -> (r: bool)
    ensures
        r == views(ds@).contains(d@),
{
    let mut i: usize = 0;
    while i < ds.len()
        invariant
            i <= ds.len(),
            forall|j: int| 0 <= j < i ==> ds@[j]@ != d@,
        decreases ds.len() - i,
    {
        if str_eq(ds[i].as_str(), d) {
            proof {
                assert(views(ds@)[i as int] == d@);
            }
            return true;
        }
        i += 1;
    }
    proof {
        if views(ds@).contains(d@) {
            let w = choose|w: int| 0 <= w < views(ds@).len() && views(ds@)[w] == d@;
            assert(ds@[w]@ == d@);
        }
    }
    false
}

/// Switches difficulty `diff` on the timer being edited: if listed it is
/// removed, every copy of it; otherwise it is appended.
pub fn toggle_difficulty(difficulties: &mut Vec<String>, diff: &str)
    ensures
        views(final(difficulties)@) == toggled(views(old(difficulties)@), diff@),
{
    if lists_difficulty(difficulties, diff) {
        let mut kept: Vec<String> = Vec::new();
        let mut i: usize = 0;
        while i < difficulties.len()
            invariant
                i <= difficulties.len(),
                views(kept@) == drop_all(views(difficulties@).take(i as int), diff@),
            decreases difficulties.len() - i,
        {
            proof {
                let t = views(difficulties@).take(i as int + 1);
                assert(t.drop_last() =~= views(difficulties@).take(i as int));
                assert(t.last() == difficulties@[i as int]@);
            }
            if !str_eq(difficulties[i].as_str(), diff) {
                kept.push(difficulties[i].clone());
                proof {
                    assert(views(kept@) =~= drop_all(views(difficulties@).take(i as int), diff@).push(
                        difficulties@[i as int]@,
                    ));
                }
            }
            i += 1;
        }
        proof {
            assert(views(difficulties@).take(i as int) =~= views(difficulties@));
        }
        *difficulties = kept;
    } else {
        difficulties.push(diff.to_owned());
        proof {
            assert(views(final(difficulties)@) =~= views(old(difficulties)@).push(diff@));
        }
    }
}

/// The difficulties a new timer starts with: story, veteran and master.
pub fn default_difficulties() -> (r: Vec<String>)
    ensures
        views(r@) == all_difficulties(),
{
    let r = vec![String::from_str("story"), String::from_str("veteran"), String::from_str("master")];
    proof {
        assert(views(r@) =~= all_difficulties());
    }
    r
}

/// The first boss with the given id.
pub open spec fn boss_with_id(bosses: Seq<BossListItem>, id: Seq<char>) -> Option<int>
    decreases bosses.len(),
{
    if bosses.len() == 0 {
        None
    } else {
        match boss_with_id(bosses.drop_last(), id) {
            Some(i) => Some(i),
            None => if bosses.last().id@ == id {
                Some(bosses.len() - 1)
            } else {
                None
            },
        }
    }
}

/// The boss picked for a new timer: the first one with the selected id.
pub fn find_boss<'a>(bosses: &'a Vec<BossListItem>, id: &str) -> (r: Option<&'a BossListItem>)
    ensures
        match boss_with_id(bosses@, id@) {
            Some(i) => r == Some(&bosses@[i]),
            None => r is None,
        },
{
    let mut i: usize = 0;
    while i < bosses.len()
        invariant
            i <= bosses.len(),
            boss_with_id(bosses@.take(i as int), id@) is None,
        decreases bosses.len() - i,
    {
        proof {
            let t = bosses@.take(i as int + 1);
            assert(t.drop_last() =~= bosses@.take(i as int));
            assert(t.last() == bosses@[i as int]);
        }
        if str_eq(bosses[i].id.as_str(), id) {
            proof {
                lemma_boss_with_id_prefix(bosses@, id@, i as int + 1);
            }
            return Some(&bosses[i]);
        }
        i += 1;
    }
    proof {
        assert(bosses@.take(i as int) =~= bosses@);
    }
    None
}

proof fn lemma_boss_with_id_prefix(bosses: Seq<BossListItem>, id: Seq<char>, n: int)
    requires
        0 <= n <= bosses.len(),
        boss_with_id(bosses.take(n), id) is Some,
    ensures
        boss_with_id(bosses, id) == boss_with_id(bosses.take(n), id),
    decreases bosses.len(),
{
    if n < bosses.len() {
        let pre = bosses.drop_last();
        assert(pre.take(n) =~= bosses.take(n));
        lemma_boss_with_id_prefix(pre, id, n);
    } else {
        assert(bosses.take(n) =~= bosses);
    }
}

/// The timer the "new timer" form creates for `boss`, or nothing while the
/// name is empty: enabled, with no id yet, no phases, no chain, no alert, not
/// refreshable, not repeating and not on the raid frames.
pub fn new_timer_item(
    boss: &BossListItem,
    name: String,
    duration_secs_bits: u32,
    color: [u8; 4],
    difficulties: Vec<String>,
    trigger: TimerTrigger,
) -> (r: Option<TimerListItem>)
    ensures
        r is None <==> name@.len() == 0,
        r matches Some(t) ==> {
            &&& t.timer_id@ == Seq::<char>::empty()
            &&& t.boss_id == boss.id
            &&& t.boss_name == boss.name
            &&& t.area_name == boss.area_name
            &&& t.category == boss.category
            &&& t.file_path == boss.file_path
            &&& t.name == name
            &&& t.enabled
            &&& t.duration_secs_bits == duration_secs_bits
            &&& t.color == color
            &&& t.phases@.len() == 0
            &&& t.difficulties == difficulties
            &&& t.trigger == trigger
            &&& !t.can_be_refreshed
            &&& t.repeats == 0
            &&& t.chains_to is None
            &&& t.alert_at_secs_bits is None
            &&& !t.show_on_raid_frames
        },
{
    if name.as_str().is_empty() {
        return None;
    }
    Some(
        TimerListItem {
            timer_id: String::new(),
            boss_id: boss.id.clone(),
            boss_name: boss.name.clone(),
            area_name: boss.area_name.clone(),
            category: boss.category.clone(),
            file_path: boss.file_path.clone(),
            name,
            enabled: true,
            duration_secs_bits,
            color,
            phases: Vec::new(),
            difficulties,
            trigger,
            can_be_refreshed: false,
            repeats: 0,
            chains_to: None,
            alert_at_secs_bits: None,
            show_on_raid_frames: false,
        },
    )
}

// ───────────────────────── unsaved changes ─────────────────────────

/// `a` is a NaN, read as `f32` bits.
pub open spec fn f32_is_nan(a: u32) -> bool {
    (a & 0x7f80_0000u32) == 0x7f80_0000u32 && (a & 0x007f_ffffu32) != 0
}

/// `==` of two `f32` values given as bits: no NaN equals anything, the two
/// zeros are equal, and otherwise the bits must agree.
pub open spec fn f32_bits_eq(a: u32, b: u32) -> bool {
    !f32_is_nan(a) && !f32_is_nan(b) && (a == b || ((a & 0x7fff_ffffu32) == 0 && (b
        & 0x7fff_ffffu32) == 0))
}

/// `==` of two `f32` values given as bits.
pub fn f32_bits_equal(a: u32, b: u32) -> (r: bool)
    ensures
        r == f32_bits_eq(a, b),
{
    let a_nan = (a & 0x7f80_0000u32) == 0x7f80_0000u32 && (a & 0x007f_ffffu32) != 0;
    let b_nan = (b & 0x7f80_0000u32) == 0x7f80_0000u32 && (b & 0x007f_ffffu32) != 0;
    !a_nan && !b_nan && (a == b || ((a & 0x7fff_ffffu32) == 0 && (b & 0x7fff_ffffu32) == 0))
}

/// `==` of two optional texts.
pub open spec fn opt_text_eq(a: Option<String>, b: Option<String>) -> bool {
    match (a, b) {
        (None, None) => true,
        (Some(x), Some(y)) => x@ == y@,
        _ => false,
    }
}

/// `==` of two triggers, as the derived comparison does it: same kind and
/// equal fields, the HP threshold compared as `f32`.
pub open spec fn trigger_eq(a: TimerTrigger, b: TimerTrigger) -> bool
    decreases a, 1nat,
{
    match (a, b) {
        (TimerTrigger::CombatStart, TimerTrigger::CombatStart) => true,
        (TimerTrigger::AbilityCast { ability_ids: x }, TimerTrigger::AbilityCast { ability_ids: y }) => x@
            == y@,
        (TimerTrigger::EffectApplied { effect_ids: x }, TimerTrigger::EffectApplied { effect_ids: y }) => x@
            == y@,
        (TimerTrigger::EffectRemoved { effect_ids: x }, TimerTrigger::EffectRemoved { effect_ids: y }) => x@
            == y@,
        (TimerTrigger::TimerExpires { timer_id: x }, TimerTrigger::TimerExpires { timer_id: y }) => x@
            == y@,
        (TimerTrigger::PhaseEntered { phase_id: x }, TimerTrigger::PhaseEntered { phase_id: y }) => x@
            == y@,
        (
            TimerTrigger::BossHpBelow { hp_percent_bits: h1, npc_id: n1, boss_name: b1 },
            TimerTrigger::BossHpBelow { hp_percent_bits: h2, npc_id: n2, boss_name: b2 },
        ) => f32_bits_eq(h1, h2) && n1 == n2 && opt_text_eq(b1, b2),
        (TimerTrigger::AllOf { conditions: x }, TimerTrigger::AllOf { conditions: y }) => triggers_eq(
            x@,
            y@,
        ),
        (TimerTrigger::AnyOf { conditions: x }, TimerTrigger::AnyOf { conditions: y }) => triggers_eq(
            x@,
            y@,
        ),
        _ => false,
    }
}

/// `==` of two lists of triggers: as long as each other, and equal one by one.
pub open spec fn triggers_eq(xs: Seq<TimerTrigger>, ys: Seq<TimerTrigger>) -> bool
    decreases xs, 0nat,
{
    if xs.len() != ys.len() {
        false
    } else if xs.len() == 0 {
        true
    } else {
        triggers_eq(xs.drop_last(), ys.drop_last()) && trigger_eq(xs.last(), ys.last())
    }
}

fn ids_equal(a: &Vec<u64>, b: &Vec<u64>) -> (r: bool)
    ensures
        r == (a@ == b@),
{
    if a.len() != b.len() {
        return false;
    }
    let mut i: usize = 0;
    while i < a.len()
        invariant
            i <= a@.len(),
            a@.len() == b@.len(),
            forall|j: int| 0 <= j < i ==> a@[j] == b@[j],
        decreases a@.len() - i,
    {
        if a[i] != b[i] {
            return false;
        }
        i += 1;
    }
    proof {
        assert(a@ =~= b@);
    }
    true
}

fn opt_text_equal(a: &Option<String>, b: &Option<String>) -> (r: bool)
    ensures
        r == opt_text_eq(*a, *b),
{
    match (a, b) {
        (None, None) => true,
        (Some(x), Some(y)) => str_eq(x.as_str(), y.as_str()),
        _ => false,
    }
}

proof fn lemma_triggers_eq_prefix(xs: Seq<TimerTrigger>, ys: Seq<TimerTrigger>, n: int)
    requires
        0 <= n <= xs.len(),
        xs.len() == ys.len(),
        triggers_eq(xs, ys),
    ensures
        triggers_eq(xs.take(n), ys.take(n)),
    decreases xs.len(),
{
    if n < xs.len() {
        assert(xs.drop_last().take(n) =~= xs.take(n));
        assert(ys.drop_last().take(n) =~= ys.take(n));
        lemma_triggers_eq_prefix(xs.drop_last(), ys.drop_last(), n);
    } else {
        assert(xs.take(n) =~= xs);
        assert(ys.take(n) =~= ys);
    }
}

fn conditions_equal(x: &Vec<TimerTrigger>, y: &Vec<TimerTrigger>) -> (r: bool)
    ensures
        r == triggers_eq(x@, y@),
    decreases x@, 1nat,
{
    if x.len() != y.len() {
        return false;
    }
    let mut i: usize = 0;
    while i < x.len()
        invariant
            i <= x@.len(),
            x@.len() == y@.len(),
            triggers_eq(x@.take(i as int), y@.take(i as int)),
        decreases x@.len() - i,
    {
        proof {
            assert(decreases_to!(x@ => x@[i as int]));
            assert(x@.take(i as int + 1).drop_last() =~= x@.take(i as int));
            assert(y@.take(i as int + 1).drop_last() =~= y@.take(i as int));
            assert(x@.take(i as int + 1).last() == x@[i as int]);
            assert(y@.take(i as int + 1).last() == y@[i as int]);
        }
        if !trigger_equal(&x[i], &y[i]) {
            proof {
                if triggers_eq(x@, y@) {
                    lemma_triggers_eq_prefix(x@, y@, i as int + 1);
                }
            }
            return false;
        }
        i += 1;
    }
    proof {
        assert(x@.take(i as int) =~= x@);
        assert(y@.take(i as int) =~= y@);
    }
    true
}

/// `==` of two triggers.
pub fn trigger_equal(a: &TimerTrigger, b: &TimerTrigger) -> (r: bool)
    ensures
        r == trigger_eq(*a, *b),
    decreases *a, 0nat,
{
    match (a, b) {
        (TimerTrigger::CombatStart, TimerTrigger::CombatStart) => true,
        (TimerTrigger::AbilityCast { ability_ids: x }, TimerTrigger::AbilityCast { ability_ids: y }) => ids_equal(x, y),
        (TimerTrigger::EffectApplied { effect_ids: x }, TimerTrigger::EffectApplied { effect_ids: y }) => ids_equal(x, y),
        (TimerTrigger::EffectRemoved { effect_ids: x }, TimerTrigger::EffectRemoved { effect_ids: y }) => ids_equal(x, y),
        (TimerTrigger::TimerExpires { timer_id: x }, TimerTrigger::TimerExpires { timer_id: y }) => str_eq(x.as_str(), y.as_str()),
        (TimerTrigger::PhaseEntered { phase_id: x }, TimerTrigger::PhaseEntered { phase_id: y }) => str_eq(x.as_str(), y.as_str()),
        (
            TimerTrigger::BossHpBelow { hp_percent_bits: h1, npc_id: n1, boss_name: b1 },
            TimerTrigger::BossHpBelow { hp_percent_bits: h2, npc_id: n2, boss_name: b2 },
        ) => f32_bits_equal(*h1, *h2) && *n1 == *n2 && opt_text_equal(b1, b2),
        (TimerTrigger::AllOf { conditions: x }, TimerTrigger::AllOf { conditions: y }) => conditions_equal(x, y),
        (TimerTrigger::AnyOf { conditions: x }, TimerTrigger::AnyOf { conditions: y }) => conditions_equal(x, y),
        _ => false,
    }
}

/// Whether the timer being edited differs from the saved one in what the
/// form edits: name, enabled, duration (compared as `f32`), colour,
/// difficulties or trigger.
pub open spec fn has_unsaved_changes(draft: TimerListItem, saved: TimerListItem) -> bool {
    ||| draft.name@ != saved.name@
    ||| draft.enabled != saved.enabled
    ||| !f32_bits_eq(draft.duration_secs_bits, saved.duration_secs_bits)
    ||| draft.color@ != saved.color@
    ||| views(draft.difficulties@) != views(saved.difficulties@)
    ||| !trigger_eq(draft.trigger, saved.trigger)
}

/// Changing the difficulties of the edited timer, in any way (adding,
/// removing or reordering), is a change to save; so is renaming it or
/// switching it on or off.
pub proof fn lemma_edits_are_changes(draft: TimerListItem, saved: TimerListItem)
    ensures
        (draft.difficulties@.len() != saved.difficulties@.len() || exists|i: int|
            0 <= i < draft.difficulties@.len() && #[trigger] draft.difficulties@[i]@
                != saved.difficulties@[i]@) ==> has_unsaved_changes(draft, saved),
        draft.name@ != saved.name@ ==> has_unsaved_changes(draft, saved),
        draft.enabled != saved.enabled ==> has_unsaved_changes(draft, saved),
{
    if draft.difficulties@.len() != saved.difficulties@.len() {
        assert(views(draft.difficulties@).len() != views(saved.difficulties@).len());
    }
    if exists|i: int|
        0 <= i < draft.difficulties@.len() && #[trigger] draft.difficulties@[i]@
            != saved.difficulties@[i]@ {
        let i = choose|i: int|
            0 <= i < draft.difficulties@.len() && #[trigger] draft.difficulties@[i]@
                != saved.difficulties@[i]@;
        if draft.difficulties@.len() == saved.difficulties@.len() {
            assert(views(draft.difficulties@)[i] != views(saved.difficulties@)[i]);
        }
    }
}

fn strings_equal(a: &Vec<String>, b: &Vec<String>) -> (r: bool)
    ensures
        r == (views(a@) == views(b@)),
{
    if a.len() != b.len() {
        proof {
            assert(views(a@).len() != views(b@).len());
        }
        return false;
    }
    let mut i: usize = 0;
    while i < a.len()
        invariant
            i <= a@.len(),
            a@.len() == b@.len(),
            forall|j: int| 0 <= j < i ==> a@[j]@ == b@[j]@,
        decreases a@.len() - i,
    {
        if !str_eq(a[i].as_str(), b[i].as_str()) {
            proof {
                assert(views(a@)[i as int] != views(b@)[i as int]);
            }
            return false;
        }
        i += 1;
    }
    proof {
        assert(views(a@) =~= views(b@));
    }
    true
}

fn colors_equal(a: [u8; 4], b: [u8; 4]) -> (r: bool)
    ensures
        r == (a@ == b@),
{
    let r = a[0] == b[0] && a[1] == b[1] && a[2] == b[2] && a[3] == b[3];
    proof {
        if r {
            assert(a@ =~= b@);
        } else if a@ == b@ {
            assert(a@[0] == b@[0] && a@[1] == b@[1] && a@[2] == b@[2] && a@[3] == b@[3]);
        }
    }
    r
}

/// Whether the edit form holds changes to save.
pub fn timer_has_changes(draft: &TimerListItem, saved: &TimerListItem) -> (r: bool)
    ensures
        r == has_unsaved_changes(*draft, *saved),
{
    !str_eq(draft.name.as_str(), saved.name.as_str()) || draft.enabled != saved.enabled
        || !f32_bits_equal(draft.duration_secs_bits, saved.duration_secs_bits) || !colors_equal(
        draft.color,
        saved.color,
    ) || !strings_equal(&draft.difficulties, &saved.difficulties)
        || !trigger_equal(&draft.trigger, &saved.trigger)
}

} // verus!
