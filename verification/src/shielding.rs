//! Attribution of absorbed damage to the shields that absorbed it.
//!
//! Times are milliseconds on the log's clock.
use crate::session::{EffectInstance, Encounter, EncounterView, MetricAccumulator, zero_metrics};
use std::collections::HashMap;
use vstd::prelude::*;

verus! {

broadcast use vstd::std_specs::hash::group_hash_axioms;

/// Grace period (in ms) after a shield is removed during which it can still
/// receive credit for absorption. Accounts for log timing discrepancies.
pub const SHIELD_GRACE_PERIOD_MS: i64 = 2000;

/// What shield attribution reads of a damage event: whom it hit, when, and
/// how much was dealt, got through and was absorbed.
#[derive(Debug, Clone, Copy, PartialEq, Eq, Structural)]
pub struct ShieldedHit {
    pub target_id: i64,
    pub timestamp: i64,
    pub dmg_amount: i32,
    pub dmg_effective: i32,
    pub dmg_absorbed: i32,
}

/// A shield is active at `t` if it is still up, or was removed at or after
/// `t`, or was removed within the grace period of `t`.
pub open spec fn shield_active_at(e: EffectInstance, t: i64) -> bool {
    match e.removed_at {
        None => true,
        Some(r) => r >= t || (if r >= t { r - t } else { t - r }) <= SHIELD_GRACE_PERIOD_MS,
    }
}

/// A shield that can take credit for a hit at `t`: applied before `t`, not
/// yet used up, and active at `t`.
pub open spec fn absorbs_at(e: EffectInstance, t: i64) -> bool {
    &&& e.is_shield
    &&& !e.has_absorbed
    &&& e.applied_at < t
    &&& shield_active_at(e, t)
}

/// Among the first `n` effects, leaving out index `skip`, the shield that can
/// absorb at `t` with the earliest application time; of equally old ones,
/// the one listed first.
pub open spec fn oldest_absorber(effs: Seq<EffectInstance>, t: i64, skip: int, n: int) -> Option<int>
    decreases n,
{
    if n <= 0 {
        None
    } else {
        let prev = oldest_absorber(effs, t, skip, n - 1);
        let i = n - 1;
        if i != skip && absorbs_at(effs[i], t) && (prev matches Some(p) ==> effs[i].applied_at
            < effs[p].applied_at) {
            Some(i)
        } else {
            prev
        }
    }
}

/// The oldest shield that absorbs a hit at `t`.
pub open spec fn first_absorber(effs: Seq<EffectInstance>, t: i64) -> Option<int> {
    oldest_absorber(effs, t, -1, effs.len() as int)
}

/// The next oldest shield after the first that absorbs a hit at `t`.
pub open spec fn second_absorber(effs: Seq<EffectInstance>, t: i64) -> Option<int> {
    match first_absorber(effs, t) {
        None => None,
        Some(f) => oldest_absorber(effs, t, f, effs.len() as int),
    }
}

/// A shield that was removed is used up once damage gets through it.
pub open spec fn used_up(e: EffectInstance, hit: ShieldedHit) -> EffectInstance {
    if e.removed_at is Some && hit.dmg_effective > 0 {
        EffectInstance { has_absorbed: true, ..e }
    } else {
        e
    }
}

/// The shielding credited so far to `src`.
pub open spec fn shielding_of(m: Map<i64, MetricAccumulator>, src: i64) -> int {
    if m.contains_key(src) {
        m[src].shielding_given as int
    } else {
        0
    }
}

/// `m` with `amt` more shielding credited to `src` (whose totals start at
/// zero if it had none).
pub open spec fn credited(m: Map<i64, MetricAccumulator>, src: i64, amt: int) -> Map<
    i64,
    MetricAccumulator,
> {
    let cur = if m.contains_key(src) {
        m[src]
    } else {
        zero_metrics()
    };
    m.insert(src, MetricAccumulator { shielding_given: (cur.shielding_given + amt) as i64, ..cur })
}

/// How a hit absorbed by two shields is split: if the absorbed amount covers
/// the whole hit the first shield took it all; otherwise the first gets what
/// went past the logged absorption and the second the logged absorption.
pub open spec fn split_portions(absorbed: int, total: int) -> (int, int) {
    if absorbed >= total {
        (absorbed, 0)
    } else {
        (total - absorbed, absorbed)
    }
}

/// Adding `amt` to the shielding of `src` in `m` stays within `i64`.
pub open spec fn credit_fits(m: Map<i64, MetricAccumulator>, src: i64, amt: int) -> bool {
    i64::MIN <= shielding_of(m, src) + amt <= i64::MAX
}

/// The credits of a hit absorbed by two shields fit in the totals.
pub open spec fn split_credits_fit(
    m: Map<i64, MetricAccumulator>,
    first_src: i64,
    second_src: i64,
    hit: ShieldedHit,
) -> bool {
    let (fp, sp) = split_portions(hit.dmg_absorbed as int, hit.dmg_amount as int);
    let m1 = if fp > 0 {
        credited(m, first_src, fp)
    } else {
        m
    };
    &&& fp > 0 ==> credit_fits(m, first_src, fp)
    &&& sp > 0 ==> credit_fits(m1, second_src, sp)
}

/// Crediting the hit's absorption keeps every total within `i64`.
pub open spec fn shield_hit_fits(e: EncounterView, hit: ShieldedHit) -> bool {
    e.effects.contains_key(hit.target_id) ==> {
        let effs = e.effects[hit.target_id];
        match (first_absorber(effs, hit.timestamp), second_absorber(effs, hit.timestamp)) {
            (Some(f), None) => credit_fits(
                e.accumulated_data,
                effs[f].source_id,
                hit.dmg_absorbed as int,
            ),
            (Some(f), Some(s)) => split_credits_fit(
                e.accumulated_data,
                effs[f].source_id,
                effs[s].source_id,
                hit,
            ),
            _ => true,
        }
    }
}

/// The encounter after the hit's absorption has been attributed.
pub open spec fn after_shield_hit(e: EncounterView, hit: ShieldedHit) -> EncounterView {
    if !e.effects.contains_key(hit.target_id) {
        e
    } else {
        let effs = e.effects[hit.target_id];
        let acc = e.accumulated_data;
        match (first_absorber(effs, hit.timestamp), second_absorber(effs, hit.timestamp)) {
            (Some(f), None) => EncounterView {
                effects: e.effects.insert(hit.target_id, effs.update(f, used_up(effs[f], hit))),
                accumulated_data: credited(acc, effs[f].source_id, hit.dmg_absorbed as int),
                ..e
            },
            (Some(f), Some(s)) => {
                let (fp, sp) = split_portions(hit.dmg_absorbed as int, hit.dmg_amount as int);
                let effs1 = effs.update(f, used_up(effs[f], hit));
                let effs2 = if sp > 0 {
                    effs1.update(s, used_up(effs1[s], hit))
                } else {
                    effs1
                };
                let acc1 = if fp > 0 {
                    credited(acc, effs[f].source_id, fp)
                } else {
                    acc
                };
                let acc2 = if sp > 0 {
                    credited(acc1, effs[s].source_id, sp)
                } else {
                    acc1
                };
                EncounterView {
                    effects: e.effects.insert(hit.target_id, effs2),
                    accumulated_data: acc2,
                    ..e
                }
            },
            _ => e,
        }
    }
}

/// Checks whether a shield effect is active at the given time.
pub fn is_shield_active_at(effect: &EffectInstance, timestamp: i64) -> (r: bool)
    ensures
        r == shield_active_at(*effect, timestamp),
{
    match effect.removed_at {
        None => true,
        Some(removed) => {
            // Distances are taken in i128 so that no pair of times overflows.
            let d: i128 = removed as i128 - timestamp as i128;
            let dist: i128 = if d >= 0 { d } else { -d };
            removed >= timestamp || dist <= SHIELD_GRACE_PERIOD_MS as i128
        },
    }
}

fn absorbs(e: &EffectInstance, t: i64) -> (r: bool)
    ensures
        r == absorbs_at(*e, t),
{
    e.is_shield && !e.has_absorbed && e.applied_at < t && is_shield_active_at(e, t)
}

/// Index of [`oldest_absorber`] over the whole list.
fn find_oldest_absorber(effs: &Vec<EffectInstance>, t: i64, skip: Option<usize>) -> (r: Option<
    usize,
>)
    ensures
        (match r {
            Some(i) => Some(i as int),
            None => None,
        }) == oldest_absorber(
            effs@,
            t,
            match skip {
                Some(s) => s as int,
                None => -1,
            },
            effs@.len() as int,
        ),
{
    let ghost sk: int = match skip {
        Some(s) => s as int,
        None => -1,
    };
    let mut best: Option<usize> = None;
    let n = effs.len();
    let mut i: usize = 0;
    while i < n
        invariant
            n == effs@.len(),
            0 <= i <= n,
            sk == (match skip {
                Some(s) => s as int,
                None => -1,
            }),
            (match best {
                Some(b) => Some(b as int),
                None => None,
            }) == oldest_absorber(effs@, t, sk, i as int),
            best matches Some(b) ==> b < i,
        decreases n - i,
    {
        let not_skipped = match skip {
            Some(s) => s != i,
            None => true,
        };
        if not_skipped && absorbs(&effs[i], t) {
            let older = match best {
                None => true,
                Some(b) => effs[i].applied_at < effs[b].applied_at,
            };
            if older {
                best = Some(i);
            }
        }
        i = i + 1;
    }
    best
}

/// The oldest absorber really is the oldest: it absorbs, is not the skipped
/// index, and every other absorber was applied later, or at the same time
/// and listed later.  When there is none, no effect absorbs.
pub proof fn lemma_oldest_absorber(effs: Seq<EffectInstance>, t: i64, skip: int, n: int)
    requires
        0 <= n <= effs.len(),
    ensures
        match oldest_absorber(effs, t, skip, n) {
            Some(i) => {
                &&& 0 <= i < n
                &&& i != skip
                &&& absorbs_at(effs[i], t)
                &&& forall|j: int|
                    0 <= j < n && j != skip && absorbs_at(#[trigger] effs[j], t) ==> effs[i].applied_at
                        < effs[j].applied_at || (effs[i].applied_at == effs[j].applied_at && i <= j)
            },
            None => forall|j: int| 0 <= j < n && j != skip ==> !absorbs_at(#[trigger] effs[j], t),
        },
    decreases n,
{
    if n > 0 {
        lemma_oldest_absorber(effs, t, skip, n - 1);
    }
}

/// A hit on a target with a single active shield credits that shield's
/// source with the whole absorbed amount, and no one else's shielding changes.
pub proof fn lemma_single_shield_full_credit(e: EncounterView, hit: ShieldedHit, who: i64)
    requires
        e.effects.contains_key(hit.target_id),
        first_absorber(e.effects[hit.target_id], hit.timestamp) is Some,
        second_absorber(e.effects[hit.target_id], hit.timestamp) is None,
        shield_hit_fits(e, hit),
    ensures
        ({
            let effs = e.effects[hit.target_id];
            let src = effs[first_absorber(effs, hit.timestamp)->0].source_id;
            let after = after_shield_hit(e, hit).accumulated_data;
            shielding_of(after, who) == shielding_of(e.accumulated_data, who) + (if who == src {
                hit.dmg_absorbed as int
            } else {
                0
            })
        }),
{
}

/// A hit on a target with two or more active shields: when the logged
/// absorption is less than the hit, the oldest shield is credited with the
/// part of the hit beyond the absorption and the next oldest with the
/// absorption; otherwise the oldest takes all of the absorption.  Nobody
/// else's shielding changes.
pub proof fn lemma_two_shields_split(e: EncounterView, hit: ShieldedHit, who: i64)
    requires
        e.effects.contains_key(hit.target_id),
        first_absorber(e.effects[hit.target_id], hit.timestamp) is Some,
        second_absorber(e.effects[hit.target_id], hit.timestamp) is Some,
        hit.dmg_absorbed >= 0,
        shield_hit_fits(e, hit),
    ensures
        ({
            let effs = e.effects[hit.target_id];
            let f = effs[first_absorber(effs, hit.timestamp)->0].source_id;
            let s = effs[second_absorber(effs, hit.timestamp)->0].source_id;
            let absorbed = hit.dmg_absorbed as int;
            let total = hit.dmg_amount as int;
            let to_first = if absorbed >= total { absorbed } else { total - absorbed };
            let to_second = if absorbed >= total { 0 } else { absorbed };
            let after = after_shield_hit(e, hit).accumulated_data;
            shielding_of(after, who) == shielding_of(e.accumulated_data, who) + (if who == f {
                to_first
            } else {
                0
            }) + (if who == s {
                to_second
            } else {
                0
            })
        }),
{
}

/// Adds `amt` to the shielding credited to `src`, creating its totals if
/// needed.
fn credit_shielding(acc: &mut HashMap<i64, MetricAccumulator>, src: i64, amt: i64)
    requires
        credit_fits(old(acc)@, src, amt as int),
    ensures
        final(acc)@ == credited(old(acc)@, src, amt as int),
{
    let cur = match acc.get(&src) {
        Some(a) => *a,
        None => MetricAccumulator::default(),
    };
    let updated = MetricAccumulator { shielding_given: cur.shielding_given + amt, ..cur };
    acc.insert(src, updated);
}

/// Marks the shield at `i` used up if it was removed and the hit got through.
fn mark_used_up(effs: &mut Vec<EffectInstance>, i: usize, hit: &ShieldedHit)
    requires
        i < old(effs)@.len(),
    ensures
        final(effs)@ == old(effs)@.update(i as int, used_up(old(effs)@[i as int], *hit)),
{
    let e = effs[i];
    if e.removed_at.is_some() && hit.dmg_effective > 0 {
        effs.set(i, EffectInstance { has_absorbed: true, ..e });
    } else {
        proof {
            assert(effs@ =~= old(effs)@.update(i as int, used_up(old(effs)@[i as int], *hit)));
        }
    }
}

impl Encounter {
    /// Attributes absorbed damage to the appropriate shield source(s).
    ///
    /// When multiple shields are active on a target, absorption is split:
    /// - Single shield: receives full absorption credit
    /// - Two+ shields: first (oldest) shield receives primary credit,
    ///   second shield receives remainder if applicable
    ///
    /// A shield is considered "active" if:
    /// - It was applied before the damage event
    /// - It hasn't been marked as consumed (`has_absorbed`)
    /// - It's either still active OR was removed within the grace period
    pub fn attribute_shield_absorption(&mut self, event: &ShieldedHit)
        requires
            shield_hit_fits(old(self)@, *event),
        ensures
            final(self)@ == after_shield_hit(old(self)@, *event),
    {
        let ghost e0 = self@;
        let target = event.target_id;
        let t = event.timestamp;
        let mut effects = match self.effects.remove(&target) {
            None => {
                proof {
                    assert(self@.effects =~= e0.effects);
                }
                return;
            },
            Some(v) => v,
        };
        let ghost effs = effects@;
        proof {
            assert(effs == e0.effects[target]);
        }
        let first = find_oldest_absorber(&effects, t, None);
        match first {
            None => {
                self.effects.insert(target, effects);
                proof {
                    assert(self@.effects =~= e0.effects);
                }
            },
            Some(f) => {
                let second = find_oldest_absorber(&effects, t, Some(f));
                proof {
                    lemma_oldest_absorber(effs, t, -1, effs.len() as int);
                    lemma_oldest_absorber(effs, t, f as int, effs.len() as int);
                }
                let absorbed = event.dmg_absorbed as i64;
                let total_dmg = event.dmg_amount as i64;
                let first_source = effects[f].source_id;
                match second {
                    None => {
                        // Single shield: gets all absorption credit
                        mark_used_up(&mut effects, f, event);
                        credit_shielding(&mut self.accumulated_data, first_source, absorbed);
                        self.effects.insert(target, effects);
                        proof {
                            assert(self@.effects =~= e0.effects.insert(
                                target,
                                effs.update(f as int, used_up(effs[f as int], *event)),
                            ));
                        }
                    },
                    Some(s) => {
                        let second_source = effects[s].source_id;
                        // Both amounts come from i32 values, so their
                        // difference cannot overflow.
                        let (first_portion, second_portion) = if absorbed >= total_dmg {
                            (absorbed, 0i64)
                        } else {
                            (total_dmg - absorbed, absorbed)
                        };
                        let ghost acc0 = self.accumulated_data@;
                        mark_used_up(&mut effects, f, event);
                        if first_portion > 0 {
                            credit_shielding(
                                &mut self.accumulated_data,
                                first_source,
                                first_portion,
                            );
                        }
                        if second_portion > 0 {
                            mark_used_up(&mut effects, s, event);
                            credit_shielding(
                                &mut self.accumulated_data,
                                second_source,
                                second_portion,
                            );
                        }
                        self.effects.insert(target, effects);
                        proof {
                            let effs1 = effs.update(f as int, used_up(effs[f as int], *event));
                            let effs2 = if second_portion > 0 {
                                effs1.update(s as int, used_up(effs1[s as int], *event))
                            } else {
                                effs1
                            };
                            assert(self@.effects =~= e0.effects.insert(target, effs2));
                        }
                    },
                }
            },
        }
    }
}

} // verus!
