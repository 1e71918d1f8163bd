//! The overlay settings panel's own rules: which new profile name is taken,
//! the ranges of its whole-number settings, and reordering the personal
//! overlay's stats.
use crate::text::{trim_str, trim_ws};
use vstd::prelude::*;

verus! {

/// The name a new profile gets from the text typed: the text trimmed of
/// white space, unless that is empty or `max_profiles` profiles exist
/// already, in which case none is created.
pub fn profile_name_to_create(input: &str, profile_count: usize, max_profiles: usize) -> (r: Option<
    String,
>)
    ensures
        r is Some <==> trim_ws(input@).len() != 0 && profile_count < max_profiles,
        r matches Some(n) ==> n@ == trim_ws(input@),
{
    let name = trim_str(input);
    if name.is_empty() || profile_count >= max_profiles {
        None
    } else {
        Some(name.to_owned())
    }
}

/// A whole-number setting of the panel, kept within its range.
#[derive(Debug, Clone, Copy, PartialEq, Eq, Structural)]
pub enum IntSetting {
    /// Columns of the raid grid: 1 to 4.
    GridColumns,
    /// Rows of the raid grid: 1 to 8.
    GridRows,
    /// Effects shown per raid frame: 1 to 8.
    MaxEffectsPerFrame,
    /// Entries shown by a metric overlay: 1 to 16.
    MaxEntries,
}

/// The lowest and highest value of a setting.
pub open spec fn setting_range(s: IntSetting) -> (u8, u8) {
    match s {
        IntSetting::GridColumns => (1, 4),
        IntSetting::GridRows => (1, 8),
        IntSetting::MaxEffectsPerFrame => (1, 8),
        IntSetting::MaxEntries => (1, 16),
    }
}

/// `v` brought into `[lo, hi]`.
pub open spec fn clamped(v: u8, lo: u8, hi: u8) -> u8 {
    if v < lo {
        lo
    } else if v > hi {
        hi
    } else {
        v
    }
}

impl IntSetting {
    /// The value kept for a typed value: brought into the setting's range.
    pub fn accept(self, value: u8) -> (r: u8)
        ensures
            r == clamped(value, setting_range(self).0, setting_range(self).1),
    {
        let (lo, hi): (u8, u8) = match self {
            IntSetting::GridColumns => (1, 4),
            IntSetting::GridRows => (1, 8),
            IntSetting::MaxEffectsPerFrame => (1, 8),
            IntSetting::MaxEntries => (1, 16),
        };
        if value < lo {
            lo
        } else if value > hi {
            hi
        } else {
            value
        }
    }
}

/// `s` with the entries at `i` and `j` exchanged.
pub open spec fn swapped_at<T>(s: Seq<T>, i: int, j: int) -> Seq<T> {
    s.update(i, s[j]).update(j, s[i])
}

fn swap_neighbours<T>(v: &mut Vec<T>, i: usize)
    requires
        i + 1 < old(v)@.len(),
    ensures
        final(v)@ == swapped_at(old(v)@, i as int, i + 1),
{
    let n = v.len();
    assert(i + 1 < n);
    let x = v.remove(i + 1);
    v.insert(i, x);
    proof {
        assert(final(v)@ =~= swapped_at(old(v)@, i as int, i + 1));
    }
}

/// Moves the stat at `index` one place up (towards the start); the first
/// stays where it is.
pub fn move_stat_up<T>(stats: &mut Vec<T>, index: usize)
    requires
        index < old(stats)@.len(),
    ensures
        index > 0 ==> final(stats)@ == swapped_at(old(stats)@, index - 1, index as int),
        index == 0 ==> final(stats)@ == old(stats)@,
{
    if index > 0 {
        swap_neighbours(stats, index - 1);
    }
}

/// Moves the stat at `index` one place down (towards the end); the last
/// stays where it is.
pub fn move_stat_down<T>(stats: &mut Vec<T>, index: usize)
    requires
        old(stats)@.len() > 0,
    ensures
        index + 1 < old(stats)@.len() ==> final(stats)@ == swapped_at(old(stats)@, index as int, index + 1),
        index + 1 >= old(stats)@.len() ==> final(stats)@ == old(stats)@,
{
    if index < stats.len() - 1 {
        swap_neighbours(stats, index);
    }
}

/// Moving a stat down and then back up puts the list back as it was.
pub proof fn lemma_move_down_up<T>(s: Seq<T>, i: int)
    requires
        0 <= i,
        i + 1 < s.len(),
    ensures
        swapped_at(swapped_at(s, i, i + 1), i, i + 1) == s,
{
    assert(swapped_at(swapped_at(s, i, i + 1), i, i + 1) =~= s);
}

} // verus!
