//! The boss picker of the timer editor: the bosses a search shows, most
//! relevant first.
use crate::parsely::find_subslice;
use crate::text::{has_prefix, starts_with_bytes, str_eq};
use crate::timer_list::{
    lemma_lex_asymmetric, lemma_lex_irreflexive, lemma_lex_trans, lex_lt, lower_case, lowercase,
    string_less, text_contains,
};
use crate::types::BossListItem;
use vstd::prelude::*;
use vstd::string::*;
use vstd::utf8::*;

verus! {

/// The boss's name, area or category contains the lowercase query `q`,
/// once lowercased; every boss matches an empty query.
pub open spec fn boss_matches(b: BossListItem, q: Seq<char>) -> bool {
    ||| q.len() == 0
    ||| text_contains(lower_case(b.name@), q)
    ||| text_contains(lower_case(b.area_name@), q)
    ||| text_contains(lower_case(b.category@), q)
}

/// The boss's lowercase name is the query.
pub open spec fn exact_match(b: BossListItem, q: Seq<char>) -> bool {
    lower_case(b.name@) == q
}

/// The boss's lowercase name starts with the query (`str::starts_with`).
pub open spec fn prefix_match(b: BossListItem, q: Seq<char>) -> bool {
    has_prefix(encode_utf8(lower_case(b.name@)), encode_utf8(q))
}

/// `a` is more relevant to the query `q` than `b`: an exact name match
/// first, then a name that starts with the query, then by area and by name.
pub open spec fn ranks_before(a: BossListItem, b: BossListItem, q: Seq<char>) -> bool {
    if exact_match(a, q) != exact_match(b, q) {
        exact_match(a, q)
    } else if prefix_match(a, q) != prefix_match(b, q) {
        prefix_match(a, q)
    } else if a.area_name@ != b.area_name@ {
        lex_lt(a.area_name@, b.area_name@)
    } else {
        lex_lt(a.name@, b.name@)
    }
}

/// Where a boss goes among bosses in order of relevance, keeping equally
/// relevant ones in order: before the first one it ranks before.
pub open spec fn rank_pos(r: Seq<BossListItem>, b: BossListItem, q: Seq<char>) -> int
    decreases r.len(),
{
    if r.len() == 0 {
        0
    } else if ranks_before(b, r[0], q) {
        0
    } else {
        1 + rank_pos(r.drop_first(), b, q)
    }
}

/// The bosses stably sorted by relevance to `q`.
pub open spec fn by_relevance(s: Seq<BossListItem>, q: Seq<char>) -> Seq<BossListItem>
    decreases s.len(),
{
    if s.len() == 0 {
        s
    } else {
        let r = by_relevance(s.drop_last(), q);
        r.insert(rank_pos(r, s.last(), q), s.last())
    }
}

/// The bosses a search for `query` shows, most relevant first.
pub open spec fn boss_search(bosses: Seq<BossListItem>, query: Seq<char>) -> Seq<BossListItem> {
    let q = lower_case(query);
    by_relevance(bosses.filter(|b: BossListItem| boss_matches(b, q)), q)
}

/// The items a sequence of references points to.
pub open spec fn pointed_bosses(s: Seq<&BossListItem>) -> Seq<BossListItem> {
    s.map_values(|b: &BossListItem| *b)
}

proof fn lemma_rank_pos(r: Seq<BossListItem>, b: BossListItem, q: Seq<char>)
    ensures
        0 <= rank_pos(r, b, q) <= r.len(),
        forall|j: int| 0 <= j < rank_pos(r, b, q) ==> !ranks_before(b, #[trigger] r[j], q),
        rank_pos(r, b, q) < r.len() ==> ranks_before(b, r[rank_pos(r, b, q)], q),
    decreases r.len(),
{
    if r.len() > 0 && !ranks_before(b, r[0], q) {
        let t = r.drop_first();
        lemma_rank_pos(t, b, q);
        assert forall|j: int| 0 < j < r.len() implies r[j] == t[j - 1] by {}
    }
}

proof fn lemma_rank_pos_at(r: Seq<BossListItem>, b: BossListItem, q: Seq<char>, p: int)
    requires
        0 <= p <= r.len(),
        forall|j: int| 0 <= j < p ==> !ranks_before(b, #[trigger] r[j], q),
        p < r.len() ==> ranks_before(b, r[p], q),
    ensures
        rank_pos(r, b, q) == p,
    decreases r.len(),
{
    if r.len() > 0 && p > 0 {
        let t = r.drop_first();
        assert forall|j: int| 0 <= j < p - 1 implies !ranks_before(b, #[trigger] t[j], q) by {
            assert(t[j] == r[j + 1]);
        }
        if p < r.len() {
            assert(t[p - 1] == r[p]);
        }
        assert(!ranks_before(b, r[0], q));
        lemma_rank_pos_at(t, b, q, p - 1);
    }
}

/// Relevance is a strict order: no boss ranks before itself, and it is
/// transitive.
proof fn lemma_ranks_order(a: BossListItem, b: BossListItem, c: BossListItem, q: Seq<char>)
    ensures
        !ranks_before(a, a, q),
        ranks_before(a, b, q) ==> !ranks_before(b, a, q),
        ranks_before(a, b, q) && ranks_before(b, c, q) ==> ranks_before(a, c, q),
{
    lemma_lex_irreflexive(a.name@, 0);
    if lex_lt(a.area_name@, b.area_name@) {
        lemma_lex_asymmetric(a.area_name@, b.area_name@, 0);
    }
    if lex_lt(a.name@, b.name@) {
        lemma_lex_asymmetric(a.name@, b.name@, 0);
    }
    if ranks_before(a, b, q) && ranks_before(b, c, q) {
        if lex_lt(a.area_name@, b.area_name@) && lex_lt(b.area_name@, c.area_name@) {
            lemma_lex_trans(a.area_name@, b.area_name@, c.area_name@, 0);
            if a.area_name@ == c.area_name@ {
                lemma_lex_asymmetric(a.area_name@, b.area_name@, 0);
            }
        }
        if lex_lt(a.name@, b.name@) && lex_lt(b.name@, c.name@) {
            lemma_lex_trans(a.name@, b.name@, c.name@, 0);
        }
        if a.area_name@ == b.area_name@ && b.area_name@ != c.area_name@ {
            assert(a.area_name@ != c.area_name@);
        }
        if a.area_name@ != b.area_name@ && b.area_name@ == c.area_name@ {
            assert(a.area_name@ != c.area_name@);
        }
    }
}

/// Bosses in order of relevance: none ranks before one listed earlier.
pub open spec fn ranked(r: Seq<BossListItem>, q: Seq<char>) -> bool {
    forall|i: int, j: int| 0 <= i < j < r.len() ==> !ranks_before(r[j], r[i], q)
}

/// Sorting by relevance sorts: the bosses come in order of relevance, and
/// they are the same bosses as before, each as often.
pub proof fn lemma_by_relevance(s: Seq<BossListItem>, q: Seq<char>)
    ensures
        ranked(by_relevance(s, q), q),
        by_relevance(s, q).to_multiset() == s.to_multiset(),
    decreases s.len(),
{
    broadcast use vstd::seq_lib::to_multiset_insert, vstd::seq_lib::to_multiset_build;

    if s.len() > 0 {
        let t = s.drop_last();
        let g = s.last();
        lemma_by_relevance(t, q);
        let r = by_relevance(t, q);
        let p = rank_pos(r, g, q);
        lemma_rank_pos(r, g, q);
        let n = r.insert(p, g);
        assert(s =~= t.push(g));
        assert forall|i: int, j: int| 0 <= i < j < n.len() implies !ranks_before(n[j], n[i], q) by {
            if j < p {
                assert(n[i] == r[i] && n[j] == r[j]);
            } else if j == p {
                assert(n[j] == g && n[i] == r[i]);
            } else if i < p {
                assert(n[i] == r[i] && n[j] == r[j - 1]);
            } else if i == p {
                assert(n[i] == g && n[j] == r[j - 1]);
                lemma_ranks_order(r[j - 1], g, r[p], q);
                lemma_ranks_order(g, r[p], r[j - 1], q);
                if j - 1 > p {
                    assert(!ranks_before(r[j - 1], r[p], q));
                }
            } else {
                assert(n[i] == r[i - 1] && n[j] == r[j - 1]);
            }
        }
    }
}

/// `a` and `b` are equally relevant to `q`: same kind of name match, same
/// area, same name.
pub open spec fn same_rank(a: BossListItem, b: BossListItem, q: Seq<char>) -> bool {
    &&& exact_match(a, q) == exact_match(b, q)
    &&& prefix_match(a, q) == prefix_match(b, q)
    &&& a.area_name@ == b.area_name@
    &&& a.name@ == b.name@
}

/// The bosses of `s` as relevant as `x`, in order.
pub open spec fn ranked_like(s: Seq<BossListItem>, x: BossListItem, q: Seq<char>) -> Seq<BossListItem> {
    s.filter(|b: BossListItem| same_rank(b, x, q))
}

proof fn lemma_ranked_like_none(s: Seq<BossListItem>, x: BossListItem, q: Seq<char>)
    requires
        forall|i: int| 0 <= i < s.len() ==> !same_rank(s[i], x, q),
    ensures
        ranked_like(s, x, q) == Seq::<BossListItem>::empty(),
    decreases s.len(),
{
    reveal_with_fuel(Seq::filter, 1);
    if s.len() > 0 {
        lemma_ranked_like_none(s.drop_last(), x, q);
    }
}

/// Sorting by relevance is stable: equally relevant bosses come in the
/// same order as before.
pub proof fn lemma_by_relevance_stable(s: Seq<BossListItem>, x: BossListItem, q: Seq<char>)
    ensures
        ranked_like(by_relevance(s, q), x, q) == ranked_like(s, x, q),
    decreases s.len(),
{
    broadcast use Seq::filter_distributes_over_add;

    if s.len() > 0 {
        let t = s.drop_last();
        let g = s.last();
        lemma_by_relevance_stable(t, x, q);
        lemma_by_relevance(t, q);
        let r = by_relevance(t, q);
        let p = rank_pos(r, g, q);
        lemma_rank_pos(r, g, q);
        let head = r.take(p);
        let tail = r.skip(p);
        assert(r.insert(p, g) =~= head + seq![g] + tail);
        assert(r =~= head + tail);
        assert(s =~= t.push(g));
        reveal_with_fuel(Seq::filter, 2);
        assert(seq![g].drop_last() =~= Seq::<BossListItem>::empty());
        assert(t.push(g).drop_last() =~= t);
        if same_rank(g, x, q) {
            assert forall|i: int| 0 <= i < tail.len() implies !same_rank(tail[i], x, q) by {
                assert(tail[i] == r[p + i]);
                lemma_ranks_order(g, r[p], r[p], q);
                if same_rank(r[p + i], x, q) {
                    // r[p + i] is as relevant as g, which ranks before r[p].
                    assert(ranks_before(r[p + i], r[p], q) == ranks_before(g, r[p], q));
                    if i > 0 {
                        assert(!ranks_before(r[p + i], r[p], q));
                    }
                }
            }
            lemma_ranked_like_none(tail, x, q);
            assert(ranked_like(r.insert(p, g), x, q) =~= ranked_like(head, x, q).push(g));
            assert(ranked_like(r, x, q) =~= ranked_like(head, x, q));
        } else {
            assert(ranked_like(r.insert(p, g), x, q) =~= ranked_like(head, x, q) + ranked_like(
                tail,
                x,
                q,
            ));
        }
    }
}

/// Whether `hay`, lowercased, contains `q`.
/// `needle` occurs somewhere in `hay`, compared as UTF-8 bytes.
pub open spec fn occurs_in(hay: Seq<char>, needle: Seq<char>) -> bool {
    exists|i: int| crate::parsely::occurs_at(encode_utf8(hay), encode_utf8(needle), i)
}

/// What a search finds: every boss whose lowercased name, area or category
/// contains the lowercased query anywhere (not only at the start) is shown,
/// and every boss shown is one of the bosses given that does so (any boss, for
/// an empty query).
pub proof fn lemma_search_finds_contained(bosses: Seq<BossListItem>, query: Seq<char>, j: int)
    requires
        0 <= j < bosses.len(),
    ensures
        ({
            let q = lower_case(query);
            let b = bosses[j];
            occurs_in(lower_case(b.name@), q) || occurs_in(lower_case(b.area_name@), q)
                || occurs_in(lower_case(b.category@), q) ==> boss_search(bosses, query).contains(b)
        }),
        forall|x: BossListItem|
            #[trigger] boss_search(bosses, query).contains(x) ==> bosses.contains(x) && (
            lower_case(query).len() == 0 || occurs_in(lower_case(x.name@), lower_case(query))
                || occurs_in(lower_case(x.area_name@), lower_case(query)) || occurs_in(
                lower_case(x.category@),
                lower_case(query),
            )),
{
    broadcast use vstd::seq_lib::group_to_multiset_ensures;

    let q = lower_case(query);
    let f = |b: BossListItem| boss_matches(b, q);
    let filtered = bosses.filter(f);
    lemma_by_relevance(filtered, q);
    let b = bosses[j];
    assert forall|h: Seq<char>| occurs_in(h, q) <==> text_contains(h, q) by {
        crate::parsely::lemma_find_from(encode_utf8(h), encode_utf8(q), 0);
        if occurs_in(h, q) {
            let i = choose|i: int| crate::parsely::occurs_at(encode_utf8(h), encode_utf8(q), i);
            assert(0 <= i);
        }
    }
    if occurs_in(lower_case(b.name@), q) || occurs_in(lower_case(b.area_name@), q) || occurs_in(
        lower_case(b.category@),
        q,
    ) {
        bosses.lemma_filter_contains(f, j);
        assert(filtered.to_multiset().count(b) > 0);
    }
    assert forall|x: BossListItem| #[trigger] boss_search(bosses, query).contains(x) implies bosses.contains(x)
        && (q.len() == 0 || occurs_in(lower_case(x.name@), q) || occurs_in(lower_case(x.area_name@), q)
        || occurs_in(lower_case(x.category@), q)) by {
        assert(filtered.to_multiset().count(x) > 0);
        bosses.lemma_filter_contains_rev(f, x);
        let k = choose|k: int| 0 <= k < filtered.len() && filtered[k] == x;
        bosses.lemma_filter_pred(f, k);
    }
}

fn lower_has(hay: &String, q: &String) -> (r: bool)
    ensures
        r == text_contains(lower_case(hay@), q@),
{
    let lower = lowercase(hay.as_str());
    find_subslice(lower.as_str().as_bytes(), q.as_str().as_bytes()).is_some()
}

/// Whether `a` ranks before `b` for the lowercase query `q`.
fn rank_less(a: &BossListItem, b: &BossListItem, q: &String) -> (r: bool)
    ensures
        r == ranks_before(*a, *b, q@),
{
    let a_name = lowercase(a.name.as_str());
    let b_name = lowercase(b.name.as_str());
    // Exact match gets priority
    let a_exact = a_name == *q;
    let b_exact = b_name == *q;
    if a_exact != b_exact {
        return a_exact;
    }
    // Name starts with query gets next priority
    let a_starts = starts_with_bytes(a_name.as_str().as_bytes(), q.as_str().as_bytes());
    let b_starts = starts_with_bytes(b_name.as_str().as_bytes(), q.as_str().as_bytes());
    if a_starts != b_starts {
        return a_starts;
    }
    // Then sort alphabetically by area, then name
    if a.area_name != b.area_name {
        string_less(&a.area_name, &b.area_name)
    } else {
        string_less(&a.name, &b.name)
    }
}

/// Filter and sort bosses for a search query: the bosses whose name, area
/// or category contains it (all of them for an empty query), exact name
/// matches first, then names starting with it, then by area and name;
/// equally relevant bosses keep their order.
pub fn search_bosses<'a>(bosses: &'a Vec<BossListItem>, query: &str) -> (r: Vec<&'a BossListItem>)
    ensures
        pointed_bosses(r@) == boss_search(bosses@, query@),
{
    let q = lowercase(query);
    let ghost f = |b: BossListItem| boss_matches(b, q@);
    let ghost s = bosses@.filter(f);
    let show_all = q.as_str().is_empty();
    let mut out: Vec<&'a BossListItem> = Vec::new();
    let mut i: usize = 0;
    proof {
        assert(bosses@.take(0) =~= Seq::<BossListItem>::empty());
        reveal_with_fuel(Seq::filter, 1);
        assert(pointed_bosses(out@) =~= by_relevance(bosses@.take(0).filter(f), q@));
    }
    while i < bosses.len()
        invariant
            i <= bosses@.len(),
            show_all == (q@.len() == 0),
            f == (|b: BossListItem| boss_matches(b, q@)),
            pointed_bosses(out@) == by_relevance(bosses@.take(i as int).filter(f), q@),
        decreases bosses@.len() - i,
    {
        let b: &'a BossListItem = &bosses[i];
        let keep = show_all || lower_has(&b.name, &q) || lower_has(&b.area_name, &q)
            || lower_has(&b.category, &q);
        proof {
            let pre = bosses@.take(i + 1);
            assert(pre.drop_last() =~= bosses@.take(i as int));
            assert(pre.last() == *b);
            reveal_with_fuel(Seq::filter, 1);
        }
        if keep {
            let ghost ov = pointed_bosses(out@);
            let mut p: usize = 0;
            while p < out.len() && !rank_less(b, out[p], &q)
                invariant
                    p <= out@.len(),
                    ov == pointed_bosses(out@),
                    forall|j: int| 0 <= j < p ==> !ranks_before(*b, #[trigger] ov[j], q@),
                decreases out@.len() - p,
            {
                proof {
                    assert(ov[p as int] == *out@[p as int]);
                }
                p = p + 1;
            }
            if p < out.len() {
                proof {
                    assert(ov[p as int] == *out@[p as int]);
                }
            }
            proof {
                lemma_rank_pos_at(ov, *b, q@, p as int);
                let x = bosses@.take(i as int).filter(f);
                assert(bosses@.take(i + 1).filter(f) =~= x.push(*b));
                assert(x.push(*b).drop_last() =~= x);
                assert(x.push(*b).last() == *b);
            }
            out.insert(p, b);
            proof {
                assert(pointed_bosses(out@) =~= ov.insert(p as int, *b));
            }
        } else {
            proof {
                assert(bosses@.take(i + 1).filter(f) =~= bosses@.take(i as int).filter(f));
            }
        }
        i = i + 1;
    }
    proof {
        assert(bosses@.take(bosses@.len() as int) =~= bosses@);
    }
    out
}

/// Whether the result at `i` is shown under a new area header: its area
/// differs from the previous result's (for the first, from no area at all).
pub open spec fn shows_area_header(s: Seq<BossListItem>, i: int) -> bool {
    if i == 0 {
        s[0].area_name@.len() != 0
    } else {
        s[i].area_name@ != s[i - 1].area_name@
    }
}

/// For each result in order, whether an area header is shown above it.
pub fn area_headers(results: &Vec<&BossListItem>) -> (r: Vec<bool>)
    ensures
        r@.len() == results@.len(),
        forall|i: int| 0 <= i < r@.len() ==> r@[i] == shows_area_header(pointed_bosses(results@), i),
{
    let mut r: Vec<bool> = Vec::new();
    let mut i: usize = 0;
    while i < results.len()
        invariant
            i <= results@.len(),
            r@.len() == i,
            forall|j: int| 0 <= j < i ==> r@[j] == shows_area_header(pointed_bosses(results@), j),
        decreases results@.len() - i,
    {
        let show = if i == 0 {
            !results[0].area_name.as_str().is_empty()
        } else {
            !str_eq(results[i].area_name.as_str(), results[i - 1].area_name.as_str())
        };
        proof {
            let pb = pointed_bosses(results@);
            assert(pb[i as int] == *results@[i as int]);
            if i > 0 {
                assert(pb[i - 1] == *results@[i - 1]);
            }
            assert(show == shows_area_header(pb, i as int));
        }
        r.push(show);
        i += 1;
    }
    r
}

/// The highlighted result after an arrow key: down moves to the next result
/// unless on the last (or there is none), up moves to the previous unless on
/// the first.
pub fn move_highlight(index: usize, results_len: usize, down: bool) -> (r: usize)
    ensures
        down && index + 1 < results_len ==> r == index + 1,
        down && index + 1 >= results_len ==> r == index,
        !down && index > 0 ==> r == index - 1,
        !down && index == 0 ==> r == 0,
{
    if down {
        let last = if results_len > 0 { results_len - 1 } else { 0 };
        if index < last {
            index + 1
        } else {
            index
        }
    } else if index > 0 {
        index - 1
    } else {
        index
    }
}

} // verus!
