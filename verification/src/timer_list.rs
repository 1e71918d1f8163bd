//! The timer editor's list: searching the timers, grouping them by boss in
//! order of boss name, and the edits shown before the backend confirms them.
use crate::parsely::{find_bytes, find_subslice};
use crate::text::{chars_of_str, str_eq};
use crate::types::TimerListItem;
use vstd::prelude::*;
use vstd::string::*;
use vstd::utf8::*;

verus! {

broadcast use vstd::seq_lib::group_seq_properties;

// ───────────────────────── searching ─────────────────────────

/// The lowercase form of a text as `str::to_lowercase` maps it (the full
/// Unicode lowercase mapping).
pub uninterp spec fn lower_case(s: Seq<char>) -> Seq<char>;

/// Calls `str::to_lowercase`. Claimed: the result is [`lower_case`] of the
/// text, a function of the text alone.
#[verifier::external_body]
pub(crate) fn lowercase(s: &str) -> (r: String)
    ensures
        r@ == lower_case(s@),
{
    s.to_lowercase()
}

/// `needle` occurs in `hay` (`str::contains`), compared as UTF-8 bytes.
pub open spec fn text_contains(hay: Seq<char>, needle: Seq<char>) -> bool {
    find_bytes(encode_utf8(hay), encode_utf8(needle)) is Some
}

/// The timer's name, boss or area contains the query `q`, once lowercased.
pub open spec fn timer_matches(t: TimerListItem, q: Seq<char>) -> bool {
    ||| text_contains(lower_case(t.name@), q)
    ||| text_contains(lower_case(t.boss_name@), q)
    ||| text_contains(lower_case(t.area_name@), q)
}

/// The timers a search shows, in order: all of them when the lowercased
/// query is empty, else those matching it.
pub open spec fn searched(ts: Seq<TimerListItem>, query: Seq<char>) -> Seq<TimerListItem> {
    let q = lower_case(query);
    if q.len() == 0 {
        ts
    } else {
        ts.filter(|t: TimerListItem| timer_matches(t, q))
    }
}

/// The items a sequence of references points to.
pub open spec fn pointed(s: Seq<&TimerListItem>) -> Seq<TimerListItem> {
    s.map_values(|t: &TimerListItem| *t)
}

/// Whether `hay`, lowercased, contains `q`.
fn lower_contains(hay: &String, q: &String) -> (r: bool)
    ensures
        r == text_contains(lower_case(hay@), q@),
{
    let lower = lowercase(hay.as_str());
    find_subslice(lower.as_str().as_bytes(), q.as_str().as_bytes()).is_some()
}

/// Filter timers based on a search query.
pub fn filter_timers<'a>(timers: &'a Vec<TimerListItem>, query: &str) -> (r: Vec<&'a TimerListItem>)
    ensures
        pointed(r@) == searched(timers@, query@),
{
    let q = lowercase(query);
    let ghost f = |t: TimerListItem| timer_matches(t, q@);
    let show_all = q.as_str().is_empty();
    let mut out: Vec<&'a TimerListItem> = Vec::new();
    let mut i: usize = 0;
    proof {
        assert(timers@.take(0) =~= Seq::<TimerListItem>::empty());
        reveal_with_fuel(Seq::filter, 1);
        assert(pointed(out@) =~= Seq::<TimerListItem>::empty());
    }
    while i < timers.len()
        invariant
            i <= timers@.len(),
            show_all == (q@.len() == 0),
            f == (|t: TimerListItem| timer_matches(t, q@)),
            q@ == lower_case(query@),
            pointed(out@) == if show_all {
                timers@.take(i as int)
            } else {
                timers@.take(i as int).filter(f)
            },
        decreases timers@.len() - i,
    {
        let t = &timers[i];
        let keep = show_all || lower_contains(&t.name, &q) || lower_contains(&t.boss_name, &q)
            || lower_contains(&t.area_name, &q);
        let ghost before = out@;
        if keep {
            out.push(t);
        }
        proof {
            let s = timers@.take(i + 1);
            assert(s.drop_last() =~= timers@.take(i as int));
            reveal_with_fuel(Seq::filter, 1);
            if keep {
                assert(pointed(out@) =~= pointed(before).push(*t));
            } else {
                assert(pointed(out@) =~= pointed(before));
            }
        }
        i = i + 1;
    }
    proof {
        assert(timers@.take(timers@.len() as int) =~= timers@);
    }
    out
}

// ───────────────────────── grouping by boss ─────────────────────────

/// A boss's timers in the editor list.
#[derive(Debug)]
pub struct TimerGroup<'a> {
    /// The boss's category and id joined by `_`.
    pub key: String,
    pub boss_name: String,
    pub timers: Vec<&'a TimerListItem>,
}

/// Mathematical model of a [`TimerGroup`].
pub struct TimerGroupView {
    pub key: Seq<char>,
    pub boss_name: Seq<char>,
    pub timers: Seq<TimerListItem>,
}

impl<'a> View for TimerGroup<'a> {
    type V = TimerGroupView;

    open spec fn view(&self) -> TimerGroupView {
        TimerGroupView { key: self.key@, boss_name: self.boss_name@, timers: pointed(self.timers@) }
    }
}

/// The views of a sequence of groups.
pub open spec fn group_views(gs: Seq<TimerGroup>) -> Seq<TimerGroupView> {
    gs.map_values(|g: TimerGroup| g@)
}

/// The key a timer is grouped under: its category, `_`, its boss id.
pub open spec fn boss_key(t: TimerListItem) -> Seq<char> {
    t.category@ + seq!['_'] + t.boss_id@
}

/// The first group with key `k`, if any.
pub open spec fn find_group(gs: Seq<TimerGroupView>, k: Seq<char>) -> Option<int>
    decreases gs.len(),
{
    if gs.len() == 0 {
        None
    } else if gs[0].key == k {
        Some(0)
    } else {
        match find_group(gs.drop_first(), k) {
            Some(i) => Some(i + 1),
            None => None,
        }
    }
}

proof fn lemma_find_group(gs: Seq<TimerGroupView>, k: Seq<char>)
    ensures
        match find_group(gs, k) {
            Some(i) => 0 <= i < gs.len() && gs[i].key == k && forall|j: int|
                0 <= j < i ==> gs[j].key != k,
            None => forall|j: int| 0 <= j < gs.len() ==> gs[j].key != k,
        },
    decreases gs.len(),
{
    if gs.len() > 0 && gs[0].key != k {
        let t = gs.drop_first();
        lemma_find_group(t, k);
        assert forall|j: int| 0 < j < gs.len() implies gs[j] == t[j - 1] by {}
    }
}

/// The timers grouped by boss key, groups in order of their first timer,
/// timers in order within each group.
pub open spec fn grouped(ts: Seq<TimerListItem>) -> Seq<TimerGroupView>
    decreases ts.len(),
{
    if ts.len() == 0 {
        Seq::empty()
    } else {
        let gs = grouped(ts.drop_last());
        let t = ts.last();
        match find_group(gs, boss_key(t)) {
            Some(i) => gs.update(i, TimerGroupView { timers: gs[i].timers.push(t), ..gs[i] }),
            None => gs.push(
                TimerGroupView { key: boss_key(t), boss_name: t.boss_name@, timers: seq![t] },
            ),
        }
    }
}

/// `a` comes before `b` in the order of strings, from position `i` on:
/// the first differing character decides, and a proper prefix comes first.
pub open spec fn lex_lt_from(a: Seq<char>, b: Seq<char>, i: int) -> bool
    decreases a.len() - i,
{
    if i < 0 || i >= b.len() {
        false
    } else if i >= a.len() {
        true
    } else if a[i] != b[i] {
        (a[i] as u32) < (b[i] as u32)
    } else {
        lex_lt_from(a, b, i + 1)
    }
}

/// `a` comes before `b` in the order of strings (`String`'s `Ord`).
pub open spec fn lex_lt(a: Seq<char>, b: Seq<char>) -> bool {
    lex_lt_from(a, b, 0)
}

/// Where a group goes among groups sorted by boss name so that the order
/// stays sorted and equal names keep their order: before the first group
/// whose name comes after its own.
pub open spec fn insert_pos(r: Seq<TimerGroupView>, g: TimerGroupView) -> int
    decreases r.len(),
{
    if r.len() == 0 {
        0
    } else if lex_lt(g.boss_name, r[0].boss_name) {
        0
    } else {
        1 + insert_pos(r.drop_first(), g)
    }
}

/// The groups stably sorted by boss name.
pub open spec fn sorted_by_boss(s: Seq<TimerGroupView>) -> Seq<TimerGroupView>
    decreases s.len(),
{
    if s.len() == 0 {
        s
    } else {
        let r = sorted_by_boss(s.drop_last());
        r.insert(insert_pos(r, s.last()), s.last())
    }
}

/// The timer list's groups: the timers grouped by boss, sorted by boss name.
pub open spec fn timer_groups(ts: Seq<TimerListItem>) -> Seq<TimerGroupView> {
    sorted_by_boss(grouped(ts))
}

proof fn lemma_insert_pos(r: Seq<TimerGroupView>, g: TimerGroupView)
    ensures
        0 <= insert_pos(r, g) <= r.len(),
        forall|j: int| 0 <= j < insert_pos(r, g) ==> !lex_lt(g.boss_name, #[trigger] r[j].boss_name),
        insert_pos(r, g) < r.len() ==> lex_lt(g.boss_name, r[insert_pos(r, g)].boss_name),
    decreases r.len(),
{
    if r.len() > 0 && !lex_lt(g.boss_name, r[0].boss_name) {
        let t = r.drop_first();
        lemma_insert_pos(t, g);
        assert forall|j: int| 0 < j < r.len() implies r[j] == t[j - 1] by {}
    }
}

proof fn lemma_insert_pos_at(r: Seq<TimerGroupView>, g: TimerGroupView, p: int)
    requires
        0 <= p <= r.len(),
        forall|j: int| 0 <= j < p ==> !lex_lt(g.boss_name, #[trigger] r[j].boss_name),
        p < r.len() ==> lex_lt(g.boss_name, r[p].boss_name),
    ensures
        insert_pos(r, g) == p,
    decreases r.len(),
{
    if r.len() > 0 && p > 0 {
        let t = r.drop_first();
        assert forall|j: int| 0 <= j < p - 1 implies !lex_lt(g.boss_name, #[trigger] t[j].boss_name) by {
            assert(t[j] == r[j + 1]);
        }
        if p < r.len() {
            assert(t[p - 1] == r[p]);
        }
        assert(!lex_lt(g.boss_name, r[0].boss_name));
        lemma_insert_pos_at(t, g, p - 1);
    }
}

/// Whether `a` comes before `b` in the order of strings.
pub(crate) fn string_less(a: &String, b: &String) -> (r: bool)
    ensures
        r == lex_lt(a@, b@),
{
    let x = chars_of_str(a.as_str());
    let y = chars_of_str(b.as_str());
    let mut i: usize = 0;
    while i < x.len() && i < y.len() && x[i] == y[i]
        invariant
            x@ == a@,
            y@ == b@,
            i <= x@.len(),
            i <= y@.len(),
            lex_lt(a@, b@) == lex_lt_from(a@, b@, i as int),
        decreases x@.len() - i,
    {
        i = i + 1;
    }
    if i >= y.len() {
        false
    } else if i >= x.len() {
        true
    } else {
        (x[i] as u32) < (y[i] as u32)
    }
}

/// Groups timers by boss, in order of first appearance.
fn group_in_order<'a>(timers: &Vec<&'a TimerListItem>) -> (r: Vec<TimerGroup<'a>>)
    ensures
        group_views(r@) == grouped(pointed(timers@)),
{
    let ghost ts = pointed(timers@);
    let mut groups: Vec<TimerGroup<'a>> = Vec::new();
    let mut i: usize = 0;
    proof {
        assert(ts.take(0) =~= Seq::<TimerListItem>::empty());
        assert(group_views(groups@) =~= Seq::<TimerGroupView>::empty());
    }
    while i < timers.len()
        invariant
            i <= timers@.len(),
            ts == pointed(timers@),
            group_views(groups@) == grouped(ts.take(i as int)),
        decreases timers@.len() - i,
    {
        let t: &'a TimerListItem = timers[i];
        let mut key = t.category.clone();
        key.append("_");
        key.append(t.boss_id.as_str());
        proof {
            reveal_strlit("_");
            assert(key@ =~= boss_key(*t));
        }
        let ghost gv = group_views(groups@);
        proof {
            lemma_find_group(gv, key@);
            assert(ts.take(i + 1).drop_last() =~= ts.take(i as int));
            assert(ts.take(i + 1).last() == *t);
        }
        let mut j: usize = 0;
        while j < groups.len() && !str_eq(groups[j].key.as_str(), key.as_str())
            invariant
                j <= groups@.len(),
                gv == group_views(groups@),
                forall|k: int| 0 <= k < j ==> gv[k].key != key@,
            decreases groups@.len() - j,
        {
            j = j + 1;
        }
        let found = j < groups.len();
        if found {
            proof {
                assert(gv[j as int] == groups@[j as int]@);
            }
        }
        if found && str_eq(groups[j].key.as_str(), key.as_str()) {
            proof {
                assert(gv[j as int].key == key@);
                assert(find_group(gv, key@) == Some(j as int));
            }
            let ghost before = groups@;
            let mut g = groups.remove(j);
            let ghost g0 = g@;
            g.timers.push(t);
            proof {
                assert(pointed(g.timers@) =~= g0.timers.push(*t));
            }
            groups.insert(j, g);
            proof {
                assert(groups@ =~= before.update(j as int, groups@[j as int]));
                assert(group_views(groups@) =~= gv.update(
                    j as int,
                    TimerGroupView { timers: gv[j as int].timers.push(*t), ..gv[j as int] },
                ));
            }
        } else {
            proof {
                assert(find_group(gv, key@) is None);
            }
            let mut ts_of_group: Vec<&'a TimerListItem> = Vec::new();
            ts_of_group.push(t);
            let g = TimerGroup { key, boss_name: t.boss_name.clone(), timers: ts_of_group };
            let ghost before = groups@;
            groups.push(g);
            proof {
                assert(pointed(ts_of_group@) =~= seq![*t]);
                assert(group_views(groups@) =~= gv.push(
                    TimerGroupView { key: boss_key(*t), boss_name: t.boss_name@, timers: seq![*t] },
                ));
            }
        }
        i = i + 1;
    }
    proof {
        assert(ts.take(ts.len() as int) =~= ts);
    }
    groups
}


/// Sorts groups by boss name, keeping groups with equal names in order.
fn sort_by_boss_name<'a>(groups: Vec<TimerGroup<'a>>) -> (r: Vec<TimerGroup<'a>>)
    ensures
        group_views(r@) == sorted_by_boss(group_views(groups@)),
{
    let ghost s = group_views(groups@);
    let ghost n = s.len();
    let mut rest = groups;
    let mut reversed: Vec<TimerGroup<'a>> = Vec::new();
    while rest.len() > 0
        invariant
            n == s.len(),
            rest@.len() + reversed@.len() == n,
            group_views(rest@) == s.take(rest@.len() as int),
            forall|i: int| 0 <= i < reversed@.len() ==> reversed@[i]@ == s[n - 1 - i],
        decreases rest@.len(),
    {
        let ghost before = rest@;
        let g = rest.pop().unwrap();
        proof {
            assert(group_views(before)[before.len() - 1] == g@);
            assert(s.take(before.len() as int)[before.len() - 1] == s[before.len() - 1]);
        }
        reversed.push(g);
        proof {
            assert(group_views(rest@) =~= s.take(rest@.len() as int)) by {
                assert forall|i: int| 0 <= i < rest@.len() implies group_views(rest@)[i] == s.take(
                    rest@.len() as int,
                )[i] by {
                    assert(rest@[i] == before[i]);
                    assert(group_views(before)[i] == s.take(before.len() as int)[i]);
                }
            }
        }
    }
    let mut out: Vec<TimerGroup<'a>> = Vec::new();
    let ghost mut k: int = 0;
    proof {
        assert(s.take(0) =~= Seq::<TimerGroupView>::empty());
        assert(group_views(out@) =~= Seq::<TimerGroupView>::empty());
    }
    while reversed.len() > 0
        invariant
            n == s.len(),
            0 <= k <= n,
            reversed@.len() == n - k,
            forall|i: int| 0 <= i < reversed@.len() ==> reversed@[i]@ == s[n - 1 - i],
            group_views(out@) == sorted_by_boss(s.take(k)),
        decreases reversed@.len(),
    {
        let g = reversed.pop().unwrap();
        let ghost ov = group_views(out@);
        let mut p: usize = 0;
        while p < out.len() && !string_less(&g.boss_name, &out[p].boss_name)
            invariant
                p <= out@.len(),
                ov == group_views(out@),
                forall|j: int| 0 <= j < p ==> !lex_lt(g@.boss_name, #[trigger] ov[j].boss_name),
            decreases out@.len() - p,
        {
            proof {
                assert(ov[p as int] == out@[p as int]@);
            }
            p = p + 1;
        }
        if p < out.len() {
            proof {
                assert(ov[p as int] == out@[p as int]@);
            }
        }
        proof {
            lemma_insert_pos_at(ov, g@, p as int);
            assert(s.take(k + 1).drop_last() =~= s.take(k));
            assert(s.take(k + 1).last() == g@);
        }
        out.insert(p, g);
        proof {
            assert(group_views(out@) =~= ov.insert(p as int, g@));
            k = k + 1;
        }
    }
    proof {
        assert(s.take(n as int) =~= s);
    }
    out
}

/// Group filtered timers by boss, sorted by boss name.
pub fn group_timers<'a>(timers: &Vec<&'a TimerListItem>) -> (r: Vec<TimerGroup<'a>>)
    ensures
        group_views(r@) == timer_groups(pointed(timers@)),
{
    let groups = group_in_order(timers);
    sort_by_boss_name(groups)
}


// ───────────────────────── edits shown before confirmation ─────────────────────────

/// `t` is the timer `timer_id` of boss `boss_id`.
pub open spec fn same_timer(t: TimerListItem, timer_id: Seq<char>, boss_id: Seq<char>) -> bool {
    t.timer_id@ == timer_id && t.boss_id@ == boss_id
}

/// The first position of the timer `timer_id` of boss `boss_id`, if any.
pub open spec fn find_timer(ts: Seq<TimerListItem>, timer_id: Seq<char>, boss_id: Seq<char>) -> Option<int>
    decreases ts.len(),
{
    if ts.len() == 0 {
        None
    } else if same_timer(ts[0], timer_id, boss_id) {
        Some(0)
    } else {
        match find_timer(ts.drop_first(), timer_id, boss_id) {
            Some(i) => Some(i + 1),
            None => None,
        }
    }
}

proof fn lemma_find_timer(ts: Seq<TimerListItem>, timer_id: Seq<char>, boss_id: Seq<char>)
    ensures
        match find_timer(ts, timer_id, boss_id) {
            Some(i) => 0 <= i < ts.len() && same_timer(ts[i], timer_id, boss_id) && forall|j: int|
                0 <= j < i ==> !same_timer(ts[j], timer_id, boss_id),
            None => forall|j: int| 0 <= j < ts.len() ==> !same_timer(ts[j], timer_id, boss_id),
        },
    decreases ts.len(),
{
    if ts.len() > 0 && !same_timer(ts[0], timer_id, boss_id) {
        let t = ts.drop_first();
        lemma_find_timer(t, timer_id, boss_id);
        assert forall|j: int| 0 < j < ts.len() implies ts[j] == t[j - 1] by {}
    }
}

/// After saving an edited timer, the list shows it in place of the timer
/// with its ids (the first one); a timer not in the list is not added.
pub fn replace_timer(timers: &mut Vec<TimerListItem>, updated: TimerListItem)
    ensures
        final(timers)@ == match find_timer(old(timers)@, updated.timer_id@, updated.boss_id@) {
            Some(i) => old(timers)@.update(i, updated),
            None => old(timers)@,
        },
{
    proof {
        lemma_find_timer(timers@, updated.timer_id@, updated.boss_id@);
    }
    let mut i: usize = 0;
    while i < timers.len()
        invariant
            timers@ == old(timers)@,
            i <= timers@.len(),
            forall|j: int| 0 <= j < i ==> !same_timer(timers@[j], updated.timer_id@, updated.boss_id@),
        decreases timers@.len() - i,
    {
        if timers[i].timer_id == updated.timer_id && timers[i].boss_id == updated.boss_id {
            proof {
                lemma_find_timer(timers@, updated.timer_id@, updated.boss_id@);
                assert(find_timer(timers@, updated.timer_id@, updated.boss_id@) == Some(i as int));
            }
            timers.set(i, updated);
            return;
        }
        i = i + 1;
    }
}

/// After deleting a timer, the list no longer shows any timer with its ids.
pub fn remove_timer(timers: Vec<TimerListItem>, timer_id: &str, boss_id: &str) -> (r: Vec<TimerListItem>)
    ensures
        r@ == timers@.filter(|t: TimerListItem| !same_timer(t, timer_id@, boss_id@)),
{
    let ghost s = timers@;
    let ghost n = s.len();
    let ghost f = |t: TimerListItem| !same_timer(t, timer_id@, boss_id@);
    let mut rest = timers;
    let mut reversed: Vec<TimerListItem> = Vec::new();
    while rest.len() > 0
        invariant
            n == s.len(),
            rest@.len() + reversed@.len() == n,
            rest@ == s.take(rest@.len() as int),
            forall|i: int| 0 <= i < reversed@.len() ==> reversed@[i] == s[n - 1 - i],
        decreases rest@.len(),
    {
        let t = rest.pop().unwrap();
        reversed.push(t);
        proof {
            assert(rest@ =~= s.take(rest@.len() as int));
        }
    }
    let mut out: Vec<TimerListItem> = Vec::new();
    let ghost mut k: int = 0;
    proof {
        assert(s.take(0) =~= Seq::<TimerListItem>::empty());
        reveal_with_fuel(Seq::filter, 1);
    }
    while reversed.len() > 0
        invariant
            n == s.len(),
            0 <= k <= n,
            reversed@.len() == n - k,
            forall|i: int| 0 <= i < reversed@.len() ==> reversed@[i] == s[n - 1 - i],
            f == (|t: TimerListItem| !same_timer(t, timer_id@, boss_id@)),
            out@ == s.take(k).filter(f),
        decreases reversed@.len(),
    {
        let t = reversed.pop().unwrap();
        let drop = str_eq(t.timer_id.as_str(), timer_id) && str_eq(t.boss_id.as_str(), boss_id);
        let ghost before = out@;
        if !drop {
            out.push(t);
        }
        proof {
            assert(s.take(k + 1).drop_last() =~= s.take(k));
            assert(s.take(k + 1).last() == t);
            reveal_with_fuel(Seq::filter, 1);
            k = k + 1;
        }
    }
    proof {
        assert(s.take(n as int) =~= s);
    }
    out
}


/// The order of strings is transitive.
pub proof fn lemma_lex_trans(a: Seq<char>, b: Seq<char>, c: Seq<char>, i: int)
    requires
        0 <= i,
        lex_lt_from(a, b, i),
        lex_lt_from(b, c, i),
    ensures
        lex_lt_from(a, c, i),
    decreases a.len() - i,
{
    if i < a.len() && a[i] == b[i] && b[i] == c[i] {
        lemma_lex_trans(a, b, c, i + 1);
    }
}

/// No string comes before itself.
pub proof fn lemma_lex_irreflexive(a: Seq<char>, i: int)
    requires
        0 <= i,
    ensures
        !lex_lt_from(a, a, i),
    decreases a.len() - i,
{
    if i < a.len() {
        lemma_lex_irreflexive(a, i + 1);
    }
}

/// Of two strings, at most one comes before the other.
pub proof fn lemma_lex_asymmetric(a: Seq<char>, b: Seq<char>, i: int)
    requires
        0 <= i,
        lex_lt_from(a, b, i),
    ensures
        !lex_lt_from(b, a, i),
    decreases a.len() - i,
{
    if i < a.len() && i < b.len() && a[i] == b[i] {
        lemma_lex_asymmetric(a, b, i + 1);
    }
}

/// Groups in order of boss name: no group's name comes before that of a
/// group listed earlier.
pub open spec fn sorted_by_name(r: Seq<TimerGroupView>) -> bool {
    forall|i: int, j: int| 0 <= i < j < r.len() ==> !lex_lt(r[j].boss_name, r[i].boss_name)
}

/// Sorting by boss name sorts: the groups come in order of boss name, and
/// they are the same groups as before, each as often.
pub proof fn lemma_sorted_by_boss(s: Seq<TimerGroupView>)
    ensures
        sorted_by_name(sorted_by_boss(s)),
        sorted_by_boss(s).to_multiset() == s.to_multiset(),
    decreases s.len(),
{
    broadcast use vstd::seq_lib::to_multiset_insert, vstd::seq_lib::to_multiset_build;

    if s.len() > 0 {
        let t = s.drop_last();
        let g = s.last();
        lemma_sorted_by_boss(t);
        let r = sorted_by_boss(t);
        let p = insert_pos(r, g);
        lemma_insert_pos(r, g);
        let n = r.insert(p, g);
        assert(s =~= t.push(g));
        assert forall|i: int, j: int| 0 <= i < j < n.len() implies !lex_lt(
            n[j].boss_name,
            n[i].boss_name,
        ) by {
            if j < p {
                assert(n[i] == r[i] && n[j] == r[j]);
            } else if j == p {
                assert(n[j] == g && n[i] == r[i]);
            } else if i < p {
                assert(n[i] == r[i] && n[j] == r[j - 1]);
            } else if i == p {
                // g comes before r[p]; r[p] is not after r[j - 1].
                assert(n[i] == g && n[j] == r[j - 1]);
                if lex_lt(r[j - 1].boss_name, g.boss_name) {
                    if j - 1 > p {
                        assert(!lex_lt(r[j - 1].boss_name, r[p].boss_name));
                    }
                    lemma_lex_trans(r[j - 1].boss_name, g.boss_name, r[p].boss_name, 0);
                    if j - 1 == p {
                        lemma_lex_irreflexive(r[p].boss_name, 0);
                    }
                }
            } else {
                assert(n[i] == r[i - 1] && n[j] == r[j - 1]);
            }
        }
    }
}


/// The groups of `s` named `k`, in order.
pub open spec fn named(s: Seq<TimerGroupView>, k: Seq<char>) -> Seq<TimerGroupView> {
    s.filter(|g: TimerGroupView| g.boss_name == k)
}

proof fn lemma_named_none(s: Seq<TimerGroupView>, k: Seq<char>)
    requires
        forall|i: int| 0 <= i < s.len() ==> s[i].boss_name != k,
    ensures
        named(s, k) == Seq::<TimerGroupView>::empty(),
    decreases s.len(),
{
    reveal_with_fuel(Seq::filter, 1);
    if s.len() > 0 {
        lemma_named_none(s.drop_last(), k);
    }
}

/// Sorting by boss name is stable: the groups with any one name come in the
/// same order as before.
pub proof fn lemma_sorted_by_boss_stable(s: Seq<TimerGroupView>, k: Seq<char>)
    ensures
        named(sorted_by_boss(s), k) == named(s, k),
    decreases s.len(),
{
    broadcast use Seq::filter_distributes_over_add;

    if s.len() > 0 {
        let t = s.drop_last();
        let g = s.last();
        lemma_sorted_by_boss_stable(t, k);
        lemma_sorted_by_boss(t);
        let r = sorted_by_boss(t);
        let p = insert_pos(r, g);
        lemma_insert_pos(r, g);
        let pred = |x: TimerGroupView| x.boss_name == k;
        let head = r.take(p);
        let tail = r.skip(p);
        assert(r.insert(p, g) =~= head + seq![g] + tail);
        assert(r =~= head + tail);
        assert(s =~= t.push(g));
        reveal_with_fuel(Seq::filter, 2);
        assert(seq![g].drop_last() =~= Seq::<TimerGroupView>::empty());
        assert(t.push(g).drop_last() =~= t);
        if g.boss_name == k {
            // Every group from the insertion point on is named after g, so
            // none of them is named k.
            assert forall|i: int| 0 <= i < tail.len() implies tail[i].boss_name != k by {
                assert(tail[i] == r[p + i]);
                if p + i > p {
                    assert(!lex_lt(r[p + i].boss_name, r[p].boss_name));
                }
                if r[p + i].boss_name == g.boss_name {
                    if p + i > p {
                        // g < r[p] and r[p + i] == g would put r[p + i] before r[p].
                        assert(lex_lt(r[p + i].boss_name, r[p].boss_name));
                    } else {
                        lemma_lex_irreflexive(g.boss_name, 0);
                    }
                }
            }
            lemma_named_none(tail, k);
            assert(named(r.insert(p, g), k) =~= named(head, k).push(g));
            assert(named(r, k) =~= named(head, k));
        } else {
            assert(named(r.insert(p, g), k) =~= named(head, k) + named(tail, k));
        }
    }
}

} // verus!
