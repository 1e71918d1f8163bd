//! The id lists of the timer editor: ids typed in are added once each, and
//! ids can be taken out again.
use crate::text::{
    all_digits, digits_value, is_digit, lemma_digits_value_nonneg, lemma_digits_value_prefix_mono,
};
use vstd::prelude::*;
use vstd::string::*;

verus! {

/// The number `str::parse::<u64>` reads from `s` before checking that it
/// fits: an optional `+`, then one or more decimal digits.
pub open spec fn unsigned_value(s: Seq<u8>) -> Option<int> {
    let ds = if s.len() > 0 && s[0] == 43u8 {
        s.drop_first()
    } else {
        s
    };
    if ds.len() == 0 || !all_digits(ds) {
        None
    } else {
        Some(digits_value(ds))
    }
}

/// What `str::parse::<u64>` gives: the number when it fits in a `u64`.
pub open spec fn parsed_u64(s: Seq<u8>) -> Option<u64> {
    match unsigned_value(s) {
        Some(v) => if v <= u64::MAX {
            Some(v as u64)
        } else {
            None
        },
        None => None,
    }
}

/// Reads an id typed in the editor (`str::parse::<u64>`).
pub fn parse_id(input: &str) -> (r: Option<u64>)
    ensures
        r == parsed_u64(input.spec_bytes()),
{
    let s = input.as_bytes();
    let n = s.len();
    let start: usize = if n > 0 && s[0] == 43u8 {
        1
    } else {
        0
    };
    let ghost ds = s@.subrange(start as int, n as int);
    proof {
        if start == 1 {
            assert(ds =~= s@.drop_first());
        } else {
            assert(ds =~= s@);
        }
    }
    if start == n {
        return None;
    }
    let max: u128 = 0xffff_ffff_ffff_ffff;
    let mut value: u128 = 0;
    let mut i = start;
    while i < n
        invariant
            start <= i <= n,
            n == s@.len(),
            s@ == input.spec_bytes(),
            start < n,
            ds == s@.subrange(start as int, n as int),
            ds == (if s@.len() > 0 && s@[0] == 43u8 {
                s@.drop_first()
            } else {
                s@
            }),
            forall|j: int| 0 <= j < i - start ==> is_digit(#[trigger] ds[j]),
            value as int == digits_value(ds.subrange(0, i - start)),
            value <= max,
            max == 0xffff_ffff_ffff_ffffu128,
        decreases n - i,
    {
        let c = s[i];
        if !(48 <= c && c <= 57) {
            proof {
                assert(!is_digit(ds[i - start]));
            }
            return None;
        }
        let d = (c - 48) as u128;
        proof {
            let p = ds.subrange(0, i + 1 - start);
            assert(p.drop_last() =~= ds.subrange(0, i - start));
            assert(p.last() == c);
        }
        if value > (max - d) / 10 {
            // Already past every u64; more digits only make it larger.
            proof {
                let k = i + 1 - start;
                assert(value * 10 + d > max) by (nonlinear_arith)
                    requires
                        value > (max - d) / 10,
                        d <= 9,
                        max == 0xffff_ffff_ffff_ffffu128,
                ;
                if all_digits(ds) {
                    lemma_digits_value_prefix_mono(ds, k, ds.len() as int);
                    assert(ds.subrange(0, ds.len() as int) =~= ds);
                }
            }
            return None;
        }
        value = value * 10 + d;
        i = i + 1;
    }
    proof {
        assert(ds.subrange(0, n - start) =~= ds);
        assert(all_digits(ds));
        lemma_digits_value_nonneg(ds);
    }
    Some(value as u64)
}

/// The id list after typing `input` and adding it: the list with the id
/// appended, or nothing when the input is not an id or the id is listed.
pub open spec fn with_typed_id(ids: Seq<u64>, input: Seq<u8>) -> Option<Seq<u64>> {
    match parsed_u64(input) {
        Some(id) => if ids.contains(id) {
            None
        } else {
            Some(ids.push(id))
        },
        None => None,
    }
}

/// Adds the id typed in `input` to the list, unless it is not an id or is
/// already listed; returns the new list when it changed.
pub fn add_typed_id(ids: &Vec<u64>, input: &str) -> (r: Option<Vec<u64>>)
    ensures
        match r {
            Some(v) => with_typed_id(ids@, input.spec_bytes()) == Some(v@),
            None => with_typed_id(ids@, input.spec_bytes()) is None,
        },
{
    let id = match parse_id(input) {
        Some(id) => id,
        None => return None,
    };
    if lists_id(ids, id) {
        return None;
    }
    let mut new_ids = ids.clone();
    new_ids.push(id);
    Some(new_ids)
}

/// Whether `ids` lists `id`.
fn lists_id(ids: &Vec<u64>, id: u64) -> (r: bool)
    ensures
        r == ids@.contains(id),
{
    let mut i: usize = 0;
    while i < ids.len()
        invariant
            i <= ids@.len(),
            forall|j: int| 0 <= j < i ==> ids@[j] != id,
        decreases ids@.len() - i,
    {
        if ids[i] == id {
            return true;
        }
        i = i + 1;
    }
    false
}

/// Takes the id at `idx` out of the list.
pub fn remove_id(ids: Vec<u64>, idx: usize) -> (r: Vec<u64>)
    requires
        idx < ids@.len(),
    ensures
        r@ == ids@.remove(idx as int),
{
    let mut new_ids = ids;
    new_ids.remove(idx);
    new_ids
}

} // verus!
