//! Colours written as hex strings in the editors (`#rrggbb`).
use crate::text::char_start;
use vstd::prelude::*;
use vstd::string::*;

verus! {

/// The value of an ASCII hex digit, upper or lower case.
pub open spec fn hex_digit(b: u8) -> Option<int> {
    if 0x30 <= b <= 0x39 {
        Some(b - 0x30)
    } else if 0x61 <= b <= 0x66 {
        Some(b - 0x61 + 10)
    } else if 0x41 <= b <= 0x46 {
        Some(b - 0x41 + 10)
    } else {
        None
    }
}

/// `u8::from_str_radix(.., 16)` on two bytes: an optional `+` then hex
/// digits.
pub open spec fn hex_pair(b0: u8, b1: u8) -> Option<u8> {
    if b0 == 0x2b {
        match hex_digit(b1) {
            Some(d) => Some(d as u8),
            None => None,
        }
    } else {
        match (hex_digit(b0), hex_digit(b1)) {
            (Some(h), Some(l)) => Some((h * 16 + l) as u8),
            _ => None,
        }
    }
}

/// The number of leading `#` bytes.
pub open spec fn leading_hashes(b: Seq<u8>) -> int
    decreases b.len(),
{
    if b.len() > 0 && b[0] == 0x23 {
        1 + leading_hashes(b.drop_first())
    } else {
        0
    }
}

/// The hex colour that a string denotes: after any leading `#`s, the first
/// six bytes as three hex pairs, fully opaque.
pub open spec fn hex_color(b: Seq<u8>) -> Option<[u8; 4]> {
    let h = b.skip(leading_hashes(b));
    if h.len() < 6 {
        None
    } else {
        match (hex_pair(h[0], h[1]), hex_pair(h[2], h[3]), hex_pair(h[4], h[5])) {
            (Some(r), Some(g), Some(bl)) => Some([r, g, bl, 255u8]),
            _ => None,
        }
    }
}

/// Each two-byte piece that is cut out of the string is cut at character
/// boundaries (cutting anywhere else panics); a piece is only cut once the
/// ones before it were read as hex.
pub open spec fn hex_cuts_ok(b: Seq<u8>) -> bool {
    let h = b.skip(leading_hashes(b));
    h.len() >= 6 ==> {
        &&& char_start(h, 2)
        &&& hex_pair(h[0], h[1]) is Some ==> char_start(h, 4)
        &&& hex_pair(h[0], h[1]) is Some && hex_pair(h[2], h[3]) is Some ==> char_start(h, 6)
    }
}

fn hex_digit_exec(b: u8) -> (r: Option<u8>)
    ensures
        match r {
            Some(d) => hex_digit(b) == Some(d as int),
            None => hex_digit(b) is None,
        },
{
    if 0x30 <= b && b <= 0x39 {
        Some(b - 0x30)
    } else if 0x61 <= b && b <= 0x66 {
        Some(b - 0x61 + 10)
    } else if 0x41 <= b && b <= 0x46 {
        Some(b - 0x41 + 10)
    } else {
        None
    }
}

fn hex_pair_exec(b0: u8, b1: u8) -> (r: Option<u8>)
    ensures
        r == hex_pair(b0, b1),
{
    if b0 == 0x2b {
        match hex_digit_exec(b1) {
            Some(d) => Some(d),
            None => None,
        }
    } else {
        match (hex_digit_exec(b0), hex_digit_exec(b1)) {
            (Some(h), Some(l)) => Some(h * 16 + l),
            _ => None,
        }
    }
}

proof fn lemma_leading_hashes(b: Seq<u8>, k: int)
    requires
        0 <= k <= b.len(),
        forall|j: int| 0 <= j < k ==> b[j] == 0x23,
        k == b.len() || b[k] != 0x23,
    ensures
        leading_hashes(b) == k,
    decreases k,
{
    if k > 0 {
        let t = b.drop_first();
        assert forall|j: int| 0 <= j < k - 1 implies t[j] == 0x23 by {
            assert(t[j] == b[j + 1]);
        }
        lemma_leading_hashes(t, k - 1);
    }
}

/// Parses a colour written `#rrggbb` (any number of leading `#`, optional
/// `+` before a single digit of a pair) into opaque RGBA.
pub fn parse_hex_color(hex: &str) -> (r: Option<[u8; 4]>)
    requires
        hex_cuts_ok(hex.spec_bytes()),
    ensures
        r == hex_color(hex.spec_bytes()),
{
    let b = hex.as_bytes();
    let n = b.len();
    let mut k: usize = 0;
    while k < n && b[k] == 0x23
        invariant
            k <= n == b@.len(),
            forall|j: int| 0 <= j < k ==> b@[j] == 0x23,
        decreases n - k,
    {
        k = k + 1;
    }
    proof {
        lemma_leading_hashes(b@, k as int);
    }
    if n - k >= 6 {
        let r = match hex_pair_exec(b[k], b[k + 1]) {
            Some(v) => v,
            None => return None,
        };
        let g = match hex_pair_exec(b[k + 2], b[k + 3]) {
            Some(v) => v,
            None => return None,
        };
        let bl = match hex_pair_exec(b[k + 4], b[k + 5]) {
            Some(v) => v,
            None => return None,
        };
        Some([r, g, bl, 255])
    } else {
        None
    }
}

} // verus!
