//! Splitting a whole combat log into lines and parsing every line.
use vstd::prelude::*;
use vstd::string::StringSliceAdditionalSpecFns;

use crate::event_models::{CombatEvent, CombatEventView};
use crate::parser::{line_outcome, parse_line_checked};
use crate::text::{
    all_byte_positions, char_start, lemma_after_ascii, lemma_positions_of, lemma_str_valid,
    positions_of, sub_str,
};

verus! {

/// The non-empty lines between the first `k` newline positions `nl`, and the
/// offset where the next line starts.
pub open spec fn ranges_upto(nl: Seq<int>, k: int) -> (Seq<(int, int)>, int)
    decreases k,
{
    if k <= 0 {
        (seq![], 0)
    } else {
        let (r, start) = ranges_upto(nl, k - 1);
        let end = nl[k - 1];
        (
            if end > start {
                r.push((start, end))
            } else {
                r
            },
            end + 1,
        )
    }
}

/// The byte ranges of the non-empty lines of `s`, newlines excluded, in order;
/// the text after the last newline is a line of its own when not empty.
pub open spec fn line_ranges_of(s: Seq<u8>) -> Seq<(int, int)> {
    let nl = positions_of(s, 10u8);
    let (r, start) = ranges_upto(nl, nl.len() as int);
    if start < s.len() {
        r.push((start, s.len() as int))
    } else {
        r
    }
}

/// The ranges of [`line_ranges`] as exact byte offsets.
pub open spec fn ranges_view(r: Seq<(usize, usize)>) -> Seq<(int, int)> {
    r.map_values(|p: (usize, usize)| (p.0 as int, p.1 as int))
}

/// Every range lies within `s` and both its ends fall on character boundaries.
pub open spec fn ranges_cut_cleanly(s: Seq<u8>, r: Seq<(usize, usize)>) -> bool {
    forall|i: int|
        0 <= i < r.len() ==> {
            &&& #[trigger] r[i].0 <= r[i].1 <= s.len()
            &&& char_start(s, r[i].0 as int)
            &&& char_start(s, r[i].1 as int)
        }
}

/// The byte ranges `(start, end)` of the non-empty lines of `bytes`, newline
/// bytes excluded, in order of appearance.
pub fn line_ranges(bytes: &[u8]) -> (res: Vec<(usize, usize)>)
    requires
        vstd::utf8::valid_utf8(bytes@),
    ensures
        ranges_view(res@) == line_ranges_of(bytes@),
        ranges_cut_cleanly(bytes@, res@),
{
    let nl = all_byte_positions(10u8, bytes);
    let ghost pnl = positions_of(bytes@, 10u8);
    proof {
        lemma_positions_of(bytes@, 10u8);
    }
    let mut ranges: Vec<(usize, usize)> = Vec::new();
    let mut start: usize = 0;
    let mut k: usize = 0;
    while k < nl.len()
        invariant
            k <= nl@.len() == pnl.len(),
            pnl == positions_of(bytes@, 10u8),
            forall|j: int| 0 <= j < nl@.len() ==> nl@[j] as int == pnl[j],
            forall|j: int| 0 <= j < nl@.len() ==> nl@[j] < bytes.len(),
            forall|j: int| 0 <= j < pnl.len() ==> bytes@[pnl[j]] == 10u8,
            forall|j1: int, j2: int| 0 <= j1 < j2 < pnl.len() ==> pnl[j1] < pnl[j2],
            (ranges_view(ranges@), start as int) == ranges_upto(pnl, k as int),
            start <= bytes@.len(),
            char_start(bytes@, start as int),
            k > 0 ==> start == pnl[k - 1] + 1,
            ranges_cut_cleanly(bytes@, ranges@),
            vstd::utf8::valid_utf8(bytes@),
        decreases nl@.len() - k,
    {
        let end = nl[k];
        proof {
            assert(bytes@[pnl[k as int]] == 10u8);
            lemma_after_ascii(bytes@, end as int);
            if k > 0 {
                assert(pnl[k - 1] < pnl[k as int]);
            }
        }
        if end > start {
            ranges.push((start, end));
            proof {
                assert(ranges_view(ranges@) =~= ranges_upto(pnl, k as int).0.push(
                    (start as int, end as int),
                ));
            }
        }
        start = end + 1;
        k = k + 1;
    }
    let n = bytes.len();
    if start < n {
        ranges.push((start, n));
        proof {
            assert(ranges_view(ranges@) =~= ranges_upto(pnl, pnl.len() as int).0.push(
                (start as int, n as int),
            ));
        }
    }
    ranges
}

/// Model of parsing every line of a log: the events of the lines `0..k` of
/// `ranges`, the `i`-th line numbered `i + 1`; `None` when one of those
/// lines is malformed.
pub open spec fn events_upto(s: Seq<u8>, ranges: Seq<(int, int)>, k: int) -> Option<
    Seq<CombatEventView>,
>
    decreases k,
{
    if k <= 0 {
        Some(seq![])
    } else {
        match events_upto(s, ranges, k - 1) {
            None => None,
            Some(evs) => match line_outcome(
                k as usize,
                s.subrange(ranges[k - 1].0, ranges[k - 1].1),
            ) {
                None => None,
                Some(None) => Some(evs),
                Some(Some(e)) => Some(evs.push(e)),
            },
        }
    }
}

/// Once a line is malformed, so is every longer prefix of the log.
proof fn lemma_events_none_stays(s: Seq<u8>, ranges: Seq<(int, int)>, k: int, n: int)
    requires
        0 <= k <= n,
        events_upto(s, ranges, k) is None,
    ensures
        events_upto(s, ranges, n) is None,
    decreases n - k,
{
    if k < n {
        lemma_events_none_stays(s, ranges, k, n - 1);
    }
}

/// Model of parsing a whole log text.
pub open spec fn log_outcome(s: Seq<u8>) -> Option<Seq<CombatEventView>> {
    events_upto(s, line_ranges_of(s), line_ranges_of(s).len() as int)
}

/// Parses every non-empty line of a log text, in order, numbering the lines
/// from 1 among the non-empty ones and keeping the lines that parse to an
/// event; `None` when a line is malformed.
pub fn parse_log_text_checked(text: &str) -> (res: Option<Vec<CombatEvent>>)
    ensures
        match (res, log_outcome(text.spec_bytes())) {
            (None, None) => true,
            (Some(v), Some(m)) => v@.map_values(|e: CombatEvent| e@) == m,
            _ => false,
        },
{
    let bytes = text.as_bytes();
    proof {
        lemma_str_valid(text);
    }
    let ranges = line_ranges(bytes);
    let ghost rv = ranges_view(ranges@);
    let mut events: Vec<CombatEvent> = Vec::new();
    let mut i: usize = 0;
    while i < ranges.len()
        invariant
            i <= ranges@.len(),
            rv == ranges_view(ranges@),
            rv == line_ranges_of(bytes@),
            bytes@ == text.spec_bytes(),
            ranges_cut_cleanly(bytes@, ranges@),
            events_upto(bytes@, rv, i as int) == Some(events@.map_values(|e: CombatEvent| e@)),
        decreases ranges@.len() - i,
    {
        let (a, b) = ranges[i];
        proof {
            assert(ranges@[i as int].0 <= ranges@[i as int].1);
        }
        let line = sub_str(text, a, b);
        match parse_line_checked(i + 1, line) {
            None => {
                proof {
                    lemma_events_none_stays(bytes@, rv, i as int + 1, rv.len() as int);
                }
                return None;
            },
            Some(None) => {},
            Some(Some(e)) => {
                let ghost before = events@;
                let ghost ev = e@;
                events.push(e);
                proof {
                    assert(events@.map_values(|e: CombatEvent| e@) =~= before.map_values(
                        |e: CombatEvent| e@,
                    ).push(ev));
                }
            },
        }
        i = i + 1;
    }
    Some(events)
}

} // verus!
