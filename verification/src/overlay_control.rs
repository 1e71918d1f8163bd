//! What the overlay commands decide: which overlay windows to start and stop
//! when all overlays are shown or the settings are refreshed, how the move and
//! rearrange modes switch, and what the status report says.  Starting a
//! window, sending it commands and saving its position is the caller's part.
//!
//! The enabled overlays are given as the settings keys whose flag is set; the
//! running overlays as the kinds whose windows are up.
use crate::text::str_eq;
use crate::types::{
    all_metrics, metric_config_key, metric_for_key, MetricType, OverlayStatusResponse, OverlayType,
};
use vstd::prelude::*;
use vstd::string::*;

verus! {

/// The overlay whose settings are saved under `k`, among those the commands
/// start: personal, raid, boss health and the metrics.
pub open spec fn kind_for_key(k: Seq<char>) -> Option<OverlayType> {
    if k == "personal"@ {
        Some(OverlayType::Personal)
    } else if k == "raid"@ {
        Some(OverlayType::Raid)
    } else if k == "boss_health"@ {
        Some(OverlayType::BossHealth)
    } else {
        match metric_for_key(k) {
            Some(m) => Some(OverlayType::Metric(m)),
            None => None,
        }
    }
}

/// Whether `k` is among the enabled settings keys.
pub open spec fn key_enabled(enabled: Seq<String>, k: Seq<char>) -> bool {
    exists|i: int| 0 <= i < enabled.len() && #[trigger] enabled[i]@ == k
}

/// The overlay whose settings are saved under `key`, if the commands start
/// one for it.
pub fn overlay_kind_for_key(key: &str) -> (r: Option<OverlayType>)
    ensures
        r == kind_for_key(key@),
{
    if str_eq(key, "personal") {
        Some(OverlayType::Personal)
    } else if str_eq(key, "raid") {
        Some(OverlayType::Raid)
    } else if str_eq(key, "boss_health") {
        Some(OverlayType::BossHealth)
    } else {
        match MetricType::from_config_key(key) {
            Some(m) => Some(OverlayType::Metric(m)),
            None => None,
        }
    }
}

fn contains_kind(v: &Vec<OverlayType>, k: OverlayType) -> (r: bool)
    ensures
        r == v@.contains(k),
{
    let mut i: usize = 0;
    while i < v.len()
        invariant
            i <= v.len(),
            forall|j: int| 0 <= j < i ==> v@[j] != k,
        decreases v.len() - i,
    {
        if v[i] == k {
            return true;
        }
        i += 1;
    }
    false
}

fn is_key_enabled(enabled: &Vec<String>, key: &str) -> (r: bool)
    ensures
        r == key_enabled(enabled@, key@),
{
    let mut i: usize = 0;
    while i < enabled.len()
        invariant
            i <= enabled.len(),
            forall|j: int| 0 <= j < i ==> enabled@[j]@ != key@,
        decreases enabled.len() - i,
    {
        if str_eq(enabled[i].as_str(), key) {
            return true;
        }
        i += 1;
    }
    false
}

// ---------------------------------------------------------------------------
// Showing all overlays
// ---------------------------------------------------------------------------

/// What showing all enabled overlays does: the windows to start, in order,
/// and the metric overlays reported as shown.
pub struct ShowAllPlan {
    /// Overlays are shown from now on (saved in the settings too).
    pub overlays_visible: bool,
    pub spawn: Vec<OverlayType>,
    /// The keys of the started windows whose saved position names no
    /// monitor: their position is read back and saved once placed.
    pub save_monitor: Vec<String>,
    pub shown_metrics: Vec<MetricType>,
}

/// The keys of the windows started for the enabled keys, in order, whose
/// saved position names no monitor (`with_monitor` lists those that do).
pub open spec fn show_all_monitor_saves(
    keys: Seq<String>,
    running: Seq<OverlayType>,
    with_monitor: Seq<String>,
) -> Seq<Seq<char>>
    decreases keys.len(),
{
    if keys.len() == 0 {
        Seq::empty()
    } else {
        let prev = show_all_monitor_saves(keys.drop_last(), running, with_monitor);
        let spawned = show_all_spawns(keys.drop_last(), running);
        let k = keys.last()@;
        match kind_for_key(k) {
            Some(kind) => if running.contains(kind) || spawned.contains(kind) || key_enabled(
                with_monitor,
                k,
            ) {
                prev
            } else {
                prev.push(k)
            },
            None => prev,
        }
    }
}

/// The windows started for the enabled keys, in order: each key's overlay
/// unless it runs already or was started for an earlier key.
pub open spec fn show_all_spawns(keys: Seq<String>, running: Seq<OverlayType>) -> Seq<OverlayType>
    decreases keys.len(),
{
    if keys.len() == 0 {
        Seq::empty()
    } else {
        let prev = show_all_spawns(keys.drop_last(), running);
        match kind_for_key(keys.last()@) {
            Some(k) => if running.contains(k) || prev.contains(k) {
                prev
            } else {
                prev.push(k)
            },
            None => prev,
        }
    }
}

/// The metric overlays among the enabled keys, one entry per key.
pub open spec fn shown_metric_types(keys: Seq<String>) -> Seq<MetricType>
    decreases keys.len(),
{
    if keys.len() == 0 {
        Seq::empty()
    } else {
        let prev = shown_metric_types(keys.drop_last());
        match kind_for_key(keys.last()@) {
            Some(OverlayType::Metric(m)) => prev.push(m),
            _ => prev,
        }
    }
}

/// After all overlays are shown, the window of every enabled key's overlay is
/// up: it ran already or is started.  No window is started twice, none that
/// ran already, and none for which no key is enabled.
pub proof fn lemma_show_all_covers_enabled(keys: Seq<String>, running: Seq<OverlayType>)
    ensures
        forall|i: int|
            0 <= i < keys.len() ==> match #[trigger] kind_for_key(keys[i]@) {
                Some(k) => running.contains(k) || show_all_spawns(keys, running).contains(k),
                None => true,
            },
        show_all_spawns(keys, running).no_duplicates(),
        forall|j: int|
            0 <= j < show_all_spawns(keys, running).len() ==> !running.contains(
                #[trigger] show_all_spawns(keys, running)[j],
            ) && exists|i: int|
                0 <= i < keys.len() && kind_for_key(keys[i]@) == Some(
                    show_all_spawns(keys, running)[j],
                ),
    decreases keys.len(),
{
    if keys.len() > 0 {
        let pre = keys.drop_last();
        lemma_show_all_covers_enabled(pre, running);
        let prev = show_all_spawns(pre, running);
        let cur = show_all_spawns(keys, running);
        assert forall|i: int| 0 <= i < keys.len() implies match #[trigger] kind_for_key(keys[i]@) {
            Some(k) => running.contains(k) || cur.contains(k),
            None => true,
        } by {
            if i < keys.len() - 1 {
                assert(keys[i] == pre[i]);
                if let Some(k) = kind_for_key(keys[i]@) {
                    if prev.contains(k) {
                        let w = choose|w: int| 0 <= w < prev.len() && prev[w] == k;
                        if cur != prev {
                            assert(cur[w] == k);
                        }
                    }
                }
            } else {
                if let Some(k) = kind_for_key(keys[i]@) {
                    if prev.contains(k) && !running.contains(k) {
                        assert(cur == prev);
                    }
                    if !prev.contains(k) && !running.contains(k) {
                        assert(cur[cur.len() - 1] == k);
                    }
                }
            }
        }
        assert forall|j: int| 0 <= j < cur.len() implies !running.contains(#[trigger] cur[j])
            && exists|i: int| 0 <= i < keys.len() && kind_for_key(keys[i]@) == Some(cur[j]) by {
            if j < prev.len() {
                assert(cur[j] == prev[j]);
                let i = choose|i: int| 0 <= i < pre.len() && kind_for_key(pre[i]@) == Some(prev[j]);
                assert(keys[i] == pre[i]);
            } else {
                assert(kind_for_key(keys[keys.len() - 1]@) == Some(cur[j]));
            }
        }
    }
}

/// Decides what showing all overlays does: for each enabled key in turn, its
/// overlay is started unless its window is up already, and every metric key
/// is reported as shown.
pub fn show_all_overlays(
    enabled_keys: &Vec<String>,
    running: &Vec<OverlayType>,
    keys_with_monitor: &Vec<String>,
) -> (plan: ShowAllPlan)
    ensures
        plan.overlays_visible,
        plan.spawn@ == show_all_spawns(enabled_keys@, running@),
        plan.save_monitor@.map_values(|k: String| k@) == show_all_monitor_saves(
            enabled_keys@,
            running@,
            keys_with_monitor@,
        ),
        plan.shown_metrics@ == shown_metric_types(enabled_keys@),
{
    let mut save: Vec<String> = Vec::new();
    let mut spawn: Vec<OverlayType> = Vec::new();
    let mut shown: Vec<MetricType> = Vec::new();
    let mut i: usize = 0;
    while i < enabled_keys.len()
        invariant
            i <= enabled_keys.len(),
            spawn@ == show_all_spawns(enabled_keys@.take(i as int), running@),
            save@.map_values(|k: String| k@) == show_all_monitor_saves(
                enabled_keys@.take(i as int),
                running@,
                keys_with_monitor@,
            ),
            shown@ == shown_metric_types(enabled_keys@.take(i as int)),
        decreases enabled_keys.len() - i,
    {
        proof {
            let t = enabled_keys@.take(i as int + 1);
            assert(t.drop_last() =~= enabled_keys@.take(i as int));
            assert(t.last() == enabled_keys@[i as int]);
        }
        let kind = overlay_kind_for_key(enabled_keys[i].as_str());
        match kind {
            Some(k) => {
                if !contains_kind(running, k) && !contains_kind(&spawn, k) {
                    spawn.push(k);
                    if !is_key_enabled(keys_with_monitor, enabled_keys[i].as_str()) {
                        let ghost before = save@;
                        save.push(enabled_keys[i].clone());
                        proof {
                            assert(save@.map_values(|k: String| k@) =~= before.map_values(
                                |k: String| k@,
                            ).push(enabled_keys@[i as int]@));
                        }
                    }
                }
                match k {
                    OverlayType::Metric(m) => shown.push(m),
                    _ => {},
                }
            },
            None => {},
        }
        i += 1;
    }
    proof {
        assert(enabled_keys@.take(i as int) =~= enabled_keys@);
    }
    ShowAllPlan { overlays_visible: true, spawn, save_monitor: save, shown_metrics: shown }
}

// ---------------------------------------------------------------------------
// Refreshing the settings
// ---------------------------------------------------------------------------

/// One change to the set of overlay windows.
#[derive(Debug, Clone, Copy, PartialEq, Eq, Structural)]
pub enum OverlayStep {
    Stop(OverlayType),
    Start(OverlayType),
}

/// Bringing one overlay in line with its flag: stop it if it runs and is not
/// enabled, start it if it is enabled and does not run.
pub open spec fn toggle_steps(kind: OverlayType, enabled: bool, running: bool) -> Seq<OverlayStep> {
    if running && !enabled {
        seq![OverlayStep::Stop(kind)]
    } else if !running && enabled {
        seq![OverlayStep::Start(kind)]
    } else {
        Seq::empty()
    }
}

/// The toggles of the metric overlays `ms`, in order.
pub open spec fn metric_steps(
    ms: Seq<MetricType>,
    enabled: Seq<String>,
    running: Seq<OverlayType>,
) -> Seq<OverlayStep>
    decreases ms.len(),
{
    if ms.len() == 0 {
        Seq::empty()
    } else {
        let m = ms.last();
        metric_steps(ms.drop_last(), enabled, running) + toggle_steps(
            OverlayType::Metric(m),
            key_enabled(enabled, metric_config_key(m)),
            running.contains(OverlayType::Metric(m)),
        )
    }
}

/// The raid overlay is always started afresh, so that a changed grid takes
/// effect: stopped if it runs, then started if it ran or is enabled.
pub open spec fn raid_steps(enabled: bool, running: bool) -> Seq<OverlayStep> {
    (if running {
        seq![OverlayStep::Stop(OverlayType::Raid)]
    } else {
        Seq::empty()
    }) + (if running || enabled {
        seq![OverlayStep::Start(OverlayType::Raid)]
    } else {
        Seq::empty()
    })
}

/// The changes a settings refresh makes: the personal overlay, the metric
/// overlays in display order, the raid overlay, then the boss health overlay.
pub open spec fn refresh_steps(enabled: Seq<String>, running: Seq<OverlayType>) -> Seq<OverlayStep> {
    toggle_steps(
        OverlayType::Personal,
        key_enabled(enabled, "personal"@),
        running.contains(OverlayType::Personal),
    ) + metric_steps(all_metrics(), enabled, running) + raid_steps(
        key_enabled(enabled, "raid"@),
        running.contains(OverlayType::Raid),
    ) + toggle_steps(
        OverlayType::BossHealth,
        key_enabled(enabled, "boss_health"@),
        running.contains(OverlayType::BossHealth),
    )
}

/// The running overlays after one step.
pub open spec fn step_result(r: Set<OverlayType>, s: OverlayStep) -> Set<OverlayType> {
    match s {
        OverlayStep::Stop(k) => r.remove(k),
        OverlayStep::Start(k) => r.insert(k),
    }
}

/// The running overlays after the steps, in order.
pub open spec fn apply_steps(r: Set<OverlayType>, steps: Seq<OverlayStep>) -> Set<OverlayType>
    decreases steps.len(),
{
    if steps.len() == 0 {
        r
    } else {
        step_result(apply_steps(r, steps.drop_last()), steps.last())
    }
}

proof fn lemma_apply_concat(r: Set<OverlayType>, a: Seq<OverlayStep>, b: Seq<OverlayStep>)
    ensures
        apply_steps(r, a + b) == apply_steps(apply_steps(r, a), b),
    decreases b.len(),
{
    if b.len() == 0 {
        assert(a + b =~= a);
    } else {
        assert((a + b).drop_last() =~= a + b.drop_last());
        assert((a + b).last() == b.last());
        lemma_apply_concat(r, a, b.drop_last());
    }
}

proof fn lemma_apply_one(r: Set<OverlayType>, s: OverlayStep)
    ensures
        apply_steps(r, seq![s]) == step_result(r, s),
        apply_steps(r, Seq::empty()) == r,
{
    let one = seq![s];
    assert(one.drop_last() =~= Seq::<OverlayStep>::empty());
    assert(one.last() == s);
    assert(apply_steps(r, one.drop_last()) == r);
}

proof fn lemma_toggle(r: Set<OverlayType>, kind: OverlayType, enabled: bool, running: bool)
    requires
        r.contains(kind) == running,
    ensures
        apply_steps(r, toggle_steps(kind, enabled, running)).contains(kind) == enabled,
        forall|k: OverlayType|
            k != kind ==> apply_steps(r, toggle_steps(kind, enabled, running)).contains(k)
                == r.contains(k),
{
    lemma_apply_one(r, OverlayStep::Stop(kind));
    lemma_apply_one(r, OverlayStep::Start(kind));
}

/// Whether `k` is one of the metric overlays `ms`.
pub open spec fn in_metrics(k: OverlayType, ms: Seq<MetricType>) -> bool {
    match k {
        OverlayType::Metric(m) => ms.contains(m),
        _ => false,
    }
}

proof fn lemma_metric_steps(
    r: Set<OverlayType>,
    ms: Seq<MetricType>,
    enabled: Seq<String>,
    running: Seq<OverlayType>,
)
    requires
        ms.no_duplicates(),
        forall|m: MetricType|
            ms.contains(m) ==> r.contains(OverlayType::Metric(m)) == running.contains(
                OverlayType::Metric(m),
            ),
    ensures
        forall|m: MetricType|
            ms.contains(m) ==> apply_steps(r, metric_steps(ms, enabled, running)).contains(
                OverlayType::Metric(m),
            ) == key_enabled(enabled, metric_config_key(m)),
        forall|k: OverlayType|
            !in_metrics(k, ms) ==> apply_steps(r, metric_steps(ms, enabled, running)).contains(k)
                == r.contains(k),
    decreases ms.len(),
{
    if ms.len() == 0 {
        lemma_apply_one(r, OverlayStep::Start(OverlayType::Personal));
    } else {
        let pre = ms.drop_last();
        let m0 = ms.last();
        assert forall|i: int, j: int| 0 <= i < pre.len() && 0 <= j < pre.len() && i != j implies pre[i]
            != pre[j] by {
            assert(pre[i] == ms[i] && pre[j] == ms[j]);
        }
        assert forall|m: MetricType| pre.contains(m) implies ms.contains(m) by {
            let w = choose|w: int| 0 <= w < pre.len() && pre[w] == m;
            assert(ms[w] == m);
        }
        assert(!pre.contains(m0)) by {
            if pre.contains(m0) {
                let w = choose|w: int| 0 <= w < pre.len() && pre[w] == m0;
                assert(ms[w] == ms[ms.len() - 1]);
            }
        }
        lemma_metric_steps(r, pre, enabled, running);
        let head = metric_steps(pre, enabled, running);
        let r1 = apply_steps(r, head);
        let kind = OverlayType::Metric(m0);
        let en = key_enabled(enabled, metric_config_key(m0));
        let up = running.contains(kind);
        assert(ms.contains(m0)) by {
            assert(ms[ms.len() - 1] == m0);
        }
        assert(!in_metrics(kind, pre));
        assert(metric_steps(ms, enabled, running) == head + toggle_steps(kind, en, up));
        lemma_apply_concat(r, head, toggle_steps(kind, en, up));
        lemma_toggle(r1, kind, en, up);
        assert forall|m: MetricType| ms.contains(m) implies apply_steps(
            r,
            metric_steps(ms, enabled, running),
        ).contains(OverlayType::Metric(m)) == key_enabled(enabled, metric_config_key(m)) by {
            if m != m0 {
                let w = choose|w: int| 0 <= w < ms.len() && ms[w] == m;
                assert(pre[w] == m);
                assert(pre.contains(m));
                assert(OverlayType::Metric(m) != kind);
            }
        }
        assert forall|k: OverlayType| !in_metrics(k, ms) implies apply_steps(
            r,
            metric_steps(ms, enabled, running),
        ).contains(k) == r.contains(k) by {
            if let OverlayType::Metric(m) = k {
                assert(!ms.contains(m));
                assert(!pre.contains(m));
            }
        }
    }
}

proof fn lemma_raid(r: Set<OverlayType>, enabled: bool, running: bool)
    requires
        r.contains(OverlayType::Raid) == running,
    ensures
        apply_steps(r, raid_steps(enabled, running)).contains(OverlayType::Raid) == (running
            || enabled),
        forall|k: OverlayType|
            k != OverlayType::Raid ==> apply_steps(r, raid_steps(enabled, running)).contains(k)
                == r.contains(k),
{
    let stop_part: Seq<OverlayStep> = if running {
        seq![OverlayStep::Stop(OverlayType::Raid)]
    } else {
        Seq::empty()
    };
    let start_part: Seq<OverlayStep> = if running || enabled {
        seq![OverlayStep::Start(OverlayType::Raid)]
    } else {
        Seq::empty()
    };
    assert(raid_steps(enabled, running) == stop_part + start_part);
    lemma_apply_concat(r, stop_part, start_part);
    lemma_apply_one(r, OverlayStep::Stop(OverlayType::Raid));
    let mid = apply_steps(r, stop_part);
    lemma_apply_one(mid, OverlayStep::Start(OverlayType::Raid));
}

proof fn lemma_all_metrics_listed()
    ensures
        all_metrics().no_duplicates(),
        forall|m: MetricType| #[trigger] all_metrics().contains(m),
{
    let all = all_metrics();
    assert forall|i: int, j: int| 0 <= i < all.len() && 0 <= j < all.len() && i != j implies all[i]
        != all[j] by {}
    assert forall|m: MetricType| #[trigger] all.contains(m) by {
        match m {
            MetricType::Dps => assert(all[0] == m),
            MetricType::EDps => assert(all[1] == m),
            MetricType::BossDps => assert(all[2] == m),
            MetricType::Hps => assert(all[3] == m),
            MetricType::EHps => assert(all[4] == m),
            MetricType::Abs => assert(all[5] == m),
            MetricType::Dtps => assert(all[6] == m),
            MetricType::Tps => assert(all[7] == m),
        }
    }
}

/// After a settings refresh, the personal, metric and boss health overlays run
/// exactly when their flags are set, the raid overlay runs when it ran before
/// or its flag is set, and no other overlay starts or stops.
pub proof fn lemma_refresh_matches_flags(enabled: Seq<String>, running: Seq<OverlayType>)
    ensures
        ({
            let after = apply_steps(running.to_set(), refresh_steps(enabled, running));
            &&& after.contains(OverlayType::Personal) == key_enabled(enabled, "personal"@)
            &&& forall|m: MetricType|
                #[trigger] after.contains(OverlayType::Metric(m)) == key_enabled(
                    enabled,
                    metric_config_key(m),
                )
            &&& after.contains(OverlayType::Raid) == (running.contains(OverlayType::Raid)
                || key_enabled(enabled, "raid"@))
            &&& after.contains(OverlayType::BossHealth) == key_enabled(enabled, "boss_health"@)
            &&& after.contains(OverlayType::Timers) == running.contains(OverlayType::Timers)
            &&& after.contains(OverlayType::Effects) == running.contains(OverlayType::Effects)
        }),
{
    let r0 = running.to_set();
    let p_en = key_enabled(enabled, "personal"@);
    let raid_en = key_enabled(enabled, "raid"@);
    let b_en = key_enabled(enabled, "boss_health"@);
    let t1 = toggle_steps(OverlayType::Personal, p_en, running.contains(OverlayType::Personal));
    let ms = metric_steps(all_metrics(), enabled, running);
    let rs = raid_steps(raid_en, running.contains(OverlayType::Raid));
    let t2 = toggle_steps(OverlayType::BossHealth, b_en, running.contains(OverlayType::BossHealth));
    assert(refresh_steps(enabled, running) == t1 + ms + rs + t2);
    lemma_apply_concat(r0, t1 + ms + rs, t2);
    lemma_apply_concat(r0, t1 + ms, rs);
    lemma_apply_concat(r0, t1, ms);
    let r1 = apply_steps(r0, t1);
    let r2 = apply_steps(r1, ms);
    let r3 = apply_steps(r2, rs);
    let after = apply_steps(r3, t2);

    assert forall|k: OverlayType| r0.contains(k) == running.contains(k) by {}
    lemma_toggle(r0, OverlayType::Personal, p_en, running.contains(OverlayType::Personal));
    lemma_all_metrics_listed();
    lemma_metric_steps(r1, all_metrics(), enabled, running);
    assert(!in_metrics(OverlayType::Personal, all_metrics()));
    assert(!in_metrics(OverlayType::Raid, all_metrics()));
    assert(!in_metrics(OverlayType::BossHealth, all_metrics()));
    assert(!in_metrics(OverlayType::Timers, all_metrics()));
    assert(!in_metrics(OverlayType::Effects, all_metrics()));
    assert(r2.contains(OverlayType::Raid) == running.contains(OverlayType::Raid));
    lemma_raid(r2, raid_en, running.contains(OverlayType::Raid));
    assert(r3.contains(OverlayType::BossHealth) == running.contains(OverlayType::BossHealth));
    lemma_toggle(r3, OverlayType::BossHealth, b_en, running.contains(OverlayType::BossHealth));
    assert forall|m: MetricType|
        #[trigger] after.contains(OverlayType::Metric(m)) == key_enabled(enabled, metric_config_key(m)) by {
        assert(all_metrics().contains(m));
        assert(r3.contains(OverlayType::Metric(m)) == r2.contains(OverlayType::Metric(m)));
    }
}

fn push_toggle(steps: &mut Vec<OverlayStep>, kind: OverlayType, enabled: bool, running: bool)
    ensures
        final(steps)@ == old(steps)@ + toggle_steps(kind, enabled, running),
{
    if running && !enabled {
        steps.push(OverlayStep::Stop(kind));
    } else if !running && enabled {
        steps.push(OverlayStep::Start(kind));
    }
    proof {
        assert(final(steps)@ =~= old(steps)@ + toggle_steps(kind, enabled, running));
    }
}

/// Decides what refreshing the overlay settings does to the windows: the
/// personal, metric and boss health overlays are started or stopped to match
/// their flags, and the raid overlay is restarted if it ran or is enabled.
/// The caller then sends the new settings to every running window.
pub fn refresh_overlay_settings(enabled_keys: &Vec<String>, running: &Vec<OverlayType>) -> (steps:
    Vec<OverlayStep>)
    ensures
        steps@ == refresh_steps(enabled_keys@, running@),
{
    let mut steps: Vec<OverlayStep> = Vec::new();
    let personal_enabled = is_key_enabled(enabled_keys, "personal");
    let personal_running = contains_kind(running, OverlayType::Personal);
    push_toggle(&mut steps, OverlayType::Personal, personal_enabled, personal_running);
    let ghost head = steps@;

    let metrics = MetricType::all();
    let mut i: usize = 0;
    while i < metrics.len()
        invariant
            i <= metrics.len(),
            metrics@ == all_metrics(),
            steps@ == head + metric_steps(metrics@.take(i as int), enabled_keys@, running@),
        decreases metrics.len() - i,
    {
        proof {
            let t = metrics@.take(i as int + 1);
            assert(t.drop_last() =~= metrics@.take(i as int));
            assert(t.last() == metrics@[i as int]);
        }
        let m = metrics[i];
        let on = is_key_enabled(enabled_keys, m.config_key());
        let up = contains_kind(running, OverlayType::Metric(m));
        push_toggle(&mut steps, OverlayType::Metric(m), on, up);
        proof {
            assert(steps@ =~= head + metric_steps(metrics@.take(i as int + 1), enabled_keys@, running@));
        }
        i += 1;
    }
    proof {
        assert(metrics@.take(i as int) =~= all_metrics());
    }

    let raid_enabled = is_key_enabled(enabled_keys, "raid");
    let raid_running = contains_kind(running, OverlayType::Raid);
    if raid_running {
        steps.push(OverlayStep::Stop(OverlayType::Raid));
    }
    if raid_running || raid_enabled {
        steps.push(OverlayStep::Start(OverlayType::Raid));
    }
    let ghost mid = steps@;
    proof {
        assert(mid =~= head + metric_steps(all_metrics(), enabled_keys@, running@) + raid_steps(
            raid_enabled,
            raid_running,
        ));
    }
    let boss_enabled = is_key_enabled(enabled_keys, "boss_health");
    let boss_running = contains_kind(running, OverlayType::BossHealth);
    push_toggle(&mut steps, OverlayType::BossHealth, boss_enabled, boss_running);
    steps
}

/// The settings key of an overlay the commands handle.
pub open spec fn overlay_key(kind: OverlayType) -> Option<Seq<char>> {
    match kind {
        OverlayType::Metric(m) => Some(metric_config_key(m)),
        OverlayType::Personal => Some("personal"@),
        OverlayType::Raid => Some("raid"@),
        OverlayType::BossHealth => Some("boss_health"@),
        _ => None,
    }
}

/// A running window that is sent its new settings after a refresh.
#[derive(Debug)]
pub struct ConfigTarget {
    pub kind: OverlayType,
    /// The key its settings are saved under.
    pub key: String,
    /// Whether a position is saved under that key, which is sent first.
    pub send_position: bool,
}

/// The view of a target.
pub open spec fn target_view(t: ConfigTarget) -> (OverlayType, Seq<char>, bool) {
    (t.kind, t.key@, t.send_position)
}

/// The windows sent new settings, in the order given: every running overlay
/// of the kinds the commands handle, with its key and whether a position is
/// saved under it.
pub open spec fn config_targets(running: Seq<OverlayType>, saved: Seq<String>) -> Seq<
    (OverlayType, Seq<char>, bool),
>
    decreases running.len(),
{
    if running.len() == 0 {
        Seq::empty()
    } else {
        let prev = config_targets(running.drop_last(), saved);
        let kind = running.last();
        match overlay_key(kind) {
            Some(k) => prev.push((kind, k, key_enabled(saved, k))),
            None => prev,
        }
    }
}

fn overlay_key_exec(kind: OverlayType) -> (r: Option<&'static str>)
    ensures
        match r {
            Some(k) => overlay_key(kind) == Some(k@),
            None => overlay_key(kind) is None,
        },
{
    match kind {
        OverlayType::Metric(m) => Some(m.config_key()),
        OverlayType::Personal => Some("personal"),
        OverlayType::Raid => Some("raid"),
        OverlayType::BossHealth => Some("boss_health"),
        _ => None,
    }
}

/// The last step of a settings refresh: every running window (`running`,
/// after the starts and stops) is sent its new settings, and first its saved
/// position if one is saved (`saved_positions` lists the keys that have one).
pub fn refresh_config_targets(running: &Vec<OverlayType>, saved_positions: &Vec<String>) -> (r: Vec<
    ConfigTarget,
>)
    ensures
        r@.map_values(|t: ConfigTarget| target_view(t)) == config_targets(running@, saved_positions@),
{
    let mut r: Vec<ConfigTarget> = Vec::new();
    let mut i: usize = 0;
    while i < running.len()
        invariant
            i <= running.len(),
            r@.map_values(|t: ConfigTarget| target_view(t)) == config_targets(
                running@.take(i as int),
                saved_positions@,
            ),
        decreases running.len() - i,
    {
        proof {
            let t = running@.take(i as int + 1);
            assert(t.drop_last() =~= running@.take(i as int));
            assert(t.last() == running@[i as int]);
        }
        let kind = running[i];
        match overlay_key_exec(kind) {
            Some(k) => {
                let send_position = is_key_enabled(saved_positions, k);
                let ghost before = r@;
                r.push(ConfigTarget { kind, key: k.to_owned(), send_position });
                proof {
                    assert(r@.map_values(|t: ConfigTarget| target_view(t)) =~= before.map_values(
                        |t: ConfigTarget| target_view(t),
                    ).push((kind, k@, send_position)));
                }
            },
            None => {},
        }
        i += 1;
    }
    proof {
        assert(running@.take(i as int) =~= running@);
    }
    r
}

// ---------------------------------------------------------------------------
// Move and rearrange modes
// ---------------------------------------------------------------------------

/// The move and rearrange modes of the overlay windows.
#[derive(Debug, Clone, Copy, PartialEq, Eq, Structural)]
pub struct OverlayModes {
    pub move_mode: bool,
    pub rearrange_mode: bool,
}

/// What switching move mode does.
#[derive(Debug, Clone, Copy)]
pub struct MoveModeChange {
    /// The modes afterwards.
    pub modes: OverlayModes,
    /// Whether the raid overlay is first told to leave rearrange mode.
    pub end_rearrange: bool,
    /// Whether the windows' positions are read back and saved.
    pub save_positions: bool,
}

/// Decides what switching move mode does.  With no window up it is refused.
/// Otherwise move mode flips; turning it on ends rearrange mode (and tells the
/// raid overlay if it was rearranging), and turning it off saves the windows'
/// positions.
pub fn toggle_move_mode(modes: OverlayModes, any_running: bool) -> (r: Result<MoveModeChange, String>)
    ensures
        match r {
            Ok(c) => {
                &&& any_running
                &&& c.modes.move_mode == !modes.move_mode
                &&& c.modes.rearrange_mode == (modes.rearrange_mode && modes.move_mode)
                &&& c.end_rearrange == (modes.rearrange_mode && !modes.move_mode)
                &&& c.save_positions == modes.move_mode
            },
            Err(e) => !any_running && e@ == "No overlays running"@,
        },
{
    if !any_running {
        return Err(String::from_str("No overlays running"));
    }
    let move_mode = !modes.move_mode;
    let was_rearranging = modes.rearrange_mode;
    let rearrange_mode = if move_mode {
        false
    } else {
        modes.rearrange_mode
    };
    Ok(
        MoveModeChange {
            modes: OverlayModes { move_mode, rearrange_mode },
            end_rearrange: was_rearranging && move_mode,
            save_positions: !move_mode,
        },
    )
}

/// Decides what switching the raid overlay's rearrange mode does: nothing if
/// the raid overlay is not up (reported as off), else rearrange mode flips and
/// its new value is reported.
pub fn toggle_raid_rearrange(modes: OverlayModes, raid_running: bool) -> (r: (OverlayModes, bool))
    ensures
        !raid_running ==> r == (modes, false),
        raid_running ==> r.0 == (OverlayModes {
            move_mode: modes.move_mode,
            rearrange_mode: !modes.rearrange_mode,
        }) && r.1 == !modes.rearrange_mode,
{
    if !raid_running {
        return (modes, false);
    }
    let rearrange_mode = !modes.rearrange_mode;
    (OverlayModes { move_mode: modes.move_mode, rearrange_mode }, rearrange_mode)
}

// ---------------------------------------------------------------------------
// Status
// ---------------------------------------------------------------------------

/// The metric overlays among the running kinds, in order.
pub open spec fn metrics_of(kinds: Seq<OverlayType>) -> Seq<MetricType>
    decreases kinds.len(),
{
    if kinds.len() == 0 {
        Seq::empty()
    } else {
        let prev = metrics_of(kinds.drop_last());
        match kinds.last() {
            OverlayType::Metric(m) => prev.push(m),
            _ => prev,
        }
    }
}

/// The metrics named by the enabled keys, in order.
pub open spec fn key_metrics(keys: Seq<String>) -> Seq<MetricType>
    decreases keys.len(),
{
    if keys.len() == 0 {
        Seq::empty()
    } else {
        let prev = key_metrics(keys.drop_last());
        match metric_for_key(keys.last()@) {
            Some(m) => prev.push(m),
            None => prev,
        }
    }
}

/// The metric overlays among the running kinds.
pub fn running_metric_types(running: &Vec<OverlayType>) -> (r: Vec<MetricType>)
    ensures
        r@ == metrics_of(running@),
{
    let mut r: Vec<MetricType> = Vec::new();
    let mut i: usize = 0;
    while i < running.len()
        invariant
            i <= running.len(),
            r@ == metrics_of(running@.take(i as int)),
        decreases running.len() - i,
    {
        proof {
            let t = running@.take(i as int + 1);
            assert(t.drop_last() =~= running@.take(i as int));
            assert(t.last() == running@[i as int]);
        }
        match running[i] {
            OverlayType::Metric(m) => r.push(m),
            _ => {},
        }
        i += 1;
    }
    proof {
        assert(running@.take(i as int) =~= running@);
    }
    r
}

fn enabled_metric_types(enabled_keys: &Vec<String>) -> (r: Vec<MetricType>)
    ensures
        r@ == key_metrics(enabled_keys@),
{
    let mut r: Vec<MetricType> = Vec::new();
    let mut i: usize = 0;
    while i < enabled_keys.len()
        invariant
            i <= enabled_keys.len(),
            r@ == key_metrics(enabled_keys@.take(i as int)),
        decreases enabled_keys.len() - i,
    {
        proof {
            let t = enabled_keys@.take(i as int + 1);
            assert(t.drop_last() =~= enabled_keys@.take(i as int));
            assert(t.last() == enabled_keys@[i as int]);
        }
        match MetricType::from_config_key(enabled_keys[i].as_str()) {
            Some(m) => r.push(m),
            None => {},
        }
        i += 1;
    }
    proof {
        assert(enabled_keys@.take(i as int) =~= enabled_keys@);
    }
    r
}

/// The overlay status report: which overlays run, which are enabled, whether
/// overlays are shown at all, and the modes.
pub fn get_overlay_status(
    running: &Vec<OverlayType>,
    enabled_keys: &Vec<String>,
    overlays_visible: bool,
    modes: OverlayModes,
) -> (r: OverlayStatusResponse)
    ensures
        r.running@ == metrics_of(running@),
        r.enabled@ == key_metrics(enabled_keys@),
        r.personal_running == running@.contains(OverlayType::Personal),
        r.personal_enabled == key_enabled(enabled_keys@, "personal"@),
        r.raid_running == running@.contains(OverlayType::Raid),
        r.raid_enabled == key_enabled(enabled_keys@, "raid"@),
        r.boss_health_running == running@.contains(OverlayType::BossHealth),
        r.boss_health_enabled == key_enabled(enabled_keys@, "boss_health"@),
        r.overlays_visible == overlays_visible,
        r.move_mode == modes.move_mode,
        r.rearrange_mode == modes.rearrange_mode,
{
    OverlayStatusResponse {
        running: running_metric_types(running),
        enabled: enabled_metric_types(enabled_keys),
        personal_running: contains_kind(running, OverlayType::Personal),
        personal_enabled: is_key_enabled(enabled_keys, "personal"),
        raid_running: contains_kind(running, OverlayType::Raid),
        raid_enabled: is_key_enabled(enabled_keys, "raid"),
        boss_health_running: contains_kind(running, OverlayType::BossHealth),
        boss_health_enabled: is_key_enabled(enabled_keys, "boss_health"),
        overlays_visible,
        move_mode: modes.move_mode,
        rearrange_mode: modes.rearrange_mode,
    }
}

} // verus!
