//! Byte- and character-level helpers shared by the log parser.
//!
//! A combat log line is a `&str`; its model is the sequence of its UTF-8
//! bytes (`spec_bytes`).  Positions found here are byte offsets, as in the
//! log format itself, and every substring cut at such an offset must fall
//! on a character boundary.
use vstd::prelude::*;
use vstd::string::*;
use vstd::utf8::*;
use vstd::std_specs::iter::IteratorSpec;

verus! {

broadcast use vstd::utf8::group_utf8_lib;

// ───────────────────────── searching for a byte ─────────────────────────

/// The index of the first occurrence of `b` in `s`, if any.
pub open spec fn first_pos(s: Seq<u8>, b: u8) -> Option<int>
    decreases s.len(),
{
    if s.len() == 0 {
        None
    } else if s[0] == b {
        Some(0)
    } else {
        match first_pos(s.drop_first(), b) {
            Some(i) => Some(i + 1),
            None => None,
        }
    }
}

/// `first_pos` finds the earliest occurrence, and finds nothing only when there is none.
pub broadcast proof fn lemma_first_pos(s: Seq<u8>, b: u8)
    ensures
        #[trigger] first_pos(s, b) matches Some(i) ==> {
            &&& 0 <= i < s.len()
            &&& s[i] == b
            &&& forall|j: int| 0 <= j < i ==> s[j] != b
        },
        first_pos(s, b) is None ==> forall|j: int| 0 <= j < s.len() ==> s[j] != b,
    decreases s.len(),
{
    if s.len() > 0 && s[0] != b {
        lemma_first_pos(s.drop_first(), b);
        assert forall|j: int| 0 < j < s.len() implies s[j] == s.drop_first()[j - 1] by {}
    }
}

/// The indices of all occurrences of `b` in `s`, in increasing order.
pub open spec fn positions_of(s: Seq<u8>, b: u8) -> Seq<int>
    decreases s.len(),
{
    if s.len() == 0 {
        seq![]
    } else {
        let rest = positions_of(s.drop_last(), b);
        if s.last() == b {
            rest.push(s.len() - 1)
        } else {
            rest
        }
    }
}

/// Every listed position holds `b`, and the positions strictly increase.
pub proof fn lemma_positions_of(s: Seq<u8>, b: u8)
    ensures
        forall|k: int|
            0 <= k < #[trigger] positions_of(s, b).len() ==> {
                &&& 0 <= positions_of(s, b)[k] < s.len()
                &&& s[positions_of(s, b)[k]] == b
            },
        forall|k1: int, k2: int|
            0 <= k1 < k2 < positions_of(s, b).len() ==> positions_of(s, b)[k1] < positions_of(
                s,
                b,
            )[k2],
    decreases s.len(),
{
    if s.len() > 0 {
        lemma_positions_of(s.drop_last(), b);
        let rest = positions_of(s.drop_last(), b);
        assert forall|k: int| 0 <= k < rest.len() implies s[rest[k]] == b by {
            assert(s.drop_last()[rest[k]] == b);
        }
    }
}

/// `Option<usize>` read as an optional mathematical index.
pub open spec fn opt_index(o: Option<usize>) -> Option<int> {
    match o {
        Some(i) => Some(i as int),
        None => None,
    }
}

/// Calls `memchr::memchr`. Claimed: it returns the index of the first
/// occurrence of `needle` in `haystack`, or `None` when there is none.
#[verifier::external_body]
pub(crate) fn find_byte(needle: u8, haystack: &[u8]) -> (res: Option<usize>)
    ensures
        opt_index(res) == first_pos(haystack@, needle),
        res matches Some(i) ==> i < haystack.len(),
{
    memchr::memchr(needle, haystack)
}

/// Calls `memchr::memchr_iter` and collects it. Claimed: the iterator yields
/// every index at which `needle` occurs in `haystack`, in increasing order.
#[verifier::external_body]
pub(crate) fn all_byte_positions(needle: u8, haystack: &[u8]) -> (res: Vec<usize>)
    ensures
        res@.len() == positions_of(haystack@, needle).len(),
        forall|k: int| 0 <= k < res@.len() ==> res@[k] < haystack.len(),
        forall|k: int| 0 <= k < res@.len() ==> res@[k] as int == positions_of(haystack@, needle)[k],
{
    memchr::memchr_iter(needle, haystack).collect()
}

// ───────────────────────── character boundaries ─────────────────────────

/// Whether cutting the byte sequence `s` at `k` falls on a character
/// boundary: `k` is the end, or the byte at `k` is not a UTF-8 continuation byte.
/// Slicing a `str` anywhere else panics.
pub open spec fn char_start(s: Seq<u8>, k: int) -> bool {
    k == s.len() || (0 <= k < s.len() && !is_continuation_byte(s[k]))
}

/// Executable check of [`char_start`].
pub fn is_char_start(s: &[u8], k: usize) -> (res: bool)
    ensures
        res == char_start(s@, k as int),
{
    if k == s.len() {
        true
    } else if k < s.len() {
        !(0x80 <= s[k] && s[k] <= 0xbf)
    } else {
        false
    }
}

proof fn lemma_char_start_boundary(s: Seq<u8>, k: int)
    requires
        valid_utf8(s),
        char_start(s, k),
    ensures
        is_char_boundary(s, k),
{
    if k == s.len() {
        is_char_boundary_start_end_of_seq(s);
    } else {
        is_char_boundary_iff_not_is_continuation_byte(s, k);
    }
}

/// In UTF-8, the byte after an ASCII byte starts a character (or is the end).
pub proof fn lemma_after_ascii(s: Seq<u8>, k: int)
    requires
        valid_utf8(s),
        0 <= k < s.len(),
        s[k] < 0x80,
    ensures
        char_start(s, k + 1),
{
    if k + 1 < s.len() {
        is_char_boundary_iff_not_is_continuation_byte(s, k);
        valid_utf8_split(s, k);
        let t = s.subrange(k, s.len() as int);
        assert(valid_utf8(t));
        let u = pop_first_scalar(t);
        assert(u =~= s.subrange(k + 1, s.len() as int));
        assert(valid_utf8(u));
        assert(valid_first_scalar(u));
        assert(u[0] == s[k + 1]);
    }
}

/// The bytes of a string slice form valid UTF-8.
pub proof fn lemma_str_valid(s: &str)
    ensures
        valid_utf8(s.spec_bytes()),
{
    encode_utf8_valid_utf8(s@);
}

/// The characters of a string whose UTF-8 encoding is the given bytes.
pub open spec fn chars_of(b: Seq<u8>) -> Seq<char> {
    decode_utf8(b)
}

/// `&s[a..b]`, where `a` and `b` are byte offsets on character boundaries.
pub fn sub_str<'a>(s: &'a str, a: usize, b: usize) -> (r: &'a str)
    requires
        a <= b <= s.spec_bytes().len(),
        char_start(s.spec_bytes(), a as int),
        char_start(s.spec_bytes(), b as int),
    ensures
        r.spec_bytes() == s.spec_bytes().subrange(a as int, b as int),
        r@ == chars_of(s.spec_bytes().subrange(a as int, b as int)),
{
    let ghost sb = s.spec_bytes();
    proof {
        lemma_char_start_boundary(sb, b as int);
    }
    let (left, _) = s.split_at(b);
    let ghost lb = left.spec_bytes();
    proof {
        assert(lb =~= sb.subrange(0, b as int));
        assert(char_start(lb, a as int));
        lemma_char_start_boundary(lb, a as int);
    }
    let (_, mid) = left.split_at(a);
    proof {
        assert(mid.spec_bytes() =~= sb.subrange(a as int, b as int));
        encode_utf8_decode_utf8(mid@);
    }
    mid
}

/// `&s[k..]`, where `k` is a byte offset on a character boundary.
pub fn suffix_str<'a>(s: &'a str, k: usize) -> (r: &'a str)
    requires
        k <= s.spec_bytes().len(),
        char_start(s.spec_bytes(), k as int),
    ensures
        r.spec_bytes() == s.spec_bytes().subrange(k as int, s.spec_bytes().len() as int),
        r@ == chars_of(s.spec_bytes().subrange(k as int, s.spec_bytes().len() as int)),
{
    let n = s.as_bytes().len();
    sub_str(s, k, n)
}

// ───────────────────────── whitespace trimming ─────────────────────────

/// Unicode `White_Space`, the set that `str::trim` removes.
pub open spec fn is_unicode_whitespace(c: char) -> bool {
    ||| ('\u{9}' <= c && c <= '\u{d}')
    ||| c == ' '
    ||| c == '\u{85}'
    ||| c == '\u{a0}'
    ||| c == '\u{1680}'
    ||| ('\u{2000}' <= c && c <= '\u{200a}')
    ||| c == '\u{2028}'
    ||| c == '\u{2029}'
    ||| c == '\u{202f}'
    ||| c == '\u{205f}'
    ||| c == '\u{3000}'
}

/// `s` without its leading whitespace.
pub open spec fn trim_start_ws(s: Seq<char>) -> Seq<char>
    decreases s.len(),
{
    if s.len() > 0 && is_unicode_whitespace(s[0]) {
        trim_start_ws(s.drop_first())
    } else {
        s
    }
}

/// `s` without its trailing whitespace.
pub open spec fn trim_end_ws(s: Seq<char>) -> Seq<char>
    decreases s.len(),
{
    if s.len() > 0 && is_unicode_whitespace(s.last()) {
        trim_end_ws(s.drop_last())
    } else {
        s
    }
}

/// `s` without leading and trailing whitespace.
pub open spec fn trim_ws(s: Seq<char>) -> Seq<char> {
    trim_end_ws(trim_start_ws(s))
}

/// Calls `str::trim`. Claimed: the result is the string slice without its
/// leading and trailing characters of the Unicode `White_Space` property.
#[verifier::external_body]
pub(crate) fn trim_str(s: &str) -> (r: &str)
    ensures
        r@ == trim_ws(s@),
{
    s.trim()
}

/// The trimmed copy of `&s[a..b]`.
pub fn trimmed_sub_string(s: &str, a: usize, b: usize) -> (r: String)
    requires
        a <= b <= s.spec_bytes().len(),
        char_start(s.spec_bytes(), a as int),
        char_start(s.spec_bytes(), b as int),
    ensures
        r@ == trim_ws(chars_of(s.spec_bytes().subrange(a as int, b as int))),
{
    let part = sub_str(s, a, b);
    trim_str(part).to_owned()
}

/// The copy of `&s[a..b]`.
pub fn sub_string(s: &str, a: usize, b: usize) -> (r: String)
    requires
        a <= b <= s.spec_bytes().len(),
        char_start(s.spec_bytes(), a as int),
        char_start(s.spec_bytes(), b as int),
    ensures
        r@ == chars_of(s.spec_bytes().subrange(a as int, b as int)),
{
    sub_str(s, a, b).to_owned()
}

// ───────────────────────── decimal integers ─────────────────────────

/// An ASCII decimal digit.
pub open spec fn is_digit(c: u8) -> bool {
    48 <= c <= 57
}

/// Every byte of `s` is a decimal digit.
pub open spec fn all_digits(s: Seq<u8>) -> bool {
    forall|i: int| 0 <= i < s.len() ==> is_digit(#[trigger] s[i])
}

/// The number that the decimal digits `s` spell.
pub open spec fn digits_value(s: Seq<u8>) -> int
    decreases s.len(),
{
    if s.len() == 0 {
        0
    } else {
        digits_value(s.drop_last()) * 10 + (s.last() - 48)
    }
}

/// The integer that `str::parse` reads from `s` for a signed integer type
/// of unbounded width: an optional `+` or `-`, then one or more decimal digits.
pub open spec fn decimal_value(s: Seq<u8>) -> Option<int> {
    if s.len() == 0 {
        None
    } else {
        let neg = s[0] == 45u8;
        let ds = if s[0] == 45u8 || s[0] == 43u8 {
            s.drop_first()
        } else {
            s
        };
        if ds.len() == 0 || !all_digits(ds) {
            None
        } else if neg {
            Some(-digits_value(ds))
        } else {
            Some(digits_value(ds))
        }
    }
}

/// `s.parse::<i64>().unwrap_or_default()`.
pub open spec fn i64_or_zero(s: Seq<u8>) -> i64 {
    match decimal_value(s) {
        Some(v) => if i64::MIN <= v <= i64::MAX {
            v as i64
        } else {
            0
        },
        None => 0,
    }
}

/// `s.parse::<i32>().unwrap_or_default()`.
pub open spec fn i32_or_zero(s: Seq<u8>) -> i32 {
    match decimal_value(s) {
        Some(v) => if i32::MIN <= v <= i32::MAX {
            v as i32
        } else {
            0
        },
        None => 0,
    }
}

pub(crate) proof fn lemma_digits_value_nonneg(s: Seq<u8>)
    requires
        all_digits(s),
    ensures
        digits_value(s) >= 0,
    decreases s.len(),
{
    if s.len() > 0 {
        lemma_digits_value_nonneg(s.drop_last());
    }
}

/// A longer prefix of a digit string never spells a smaller number.
pub(crate) proof fn lemma_digits_value_prefix_mono(s: Seq<u8>, k: int, m: int)
    requires
        all_digits(s),
        0 <= k <= m <= s.len(),
    ensures
        digits_value(s.subrange(0, k)) <= digits_value(s.subrange(0, m)),
    decreases m - k,
{
    if k < m {
        lemma_digits_value_prefix_mono(s, k, m - 1);
        let p = s.subrange(0, m);
        assert(p.drop_last() =~= s.subrange(0, m - 1));
        lemma_digits_value_nonneg(s.subrange(0, m - 1));
    }
}

/// The signed decimal integer in `s`, or `None` when `s` is not one or it
/// does not fit in an `i64` (what `str::parse::<i64>` accepts).
#[verifier::rlimit(40)]
pub fn parse_decimal_i64(s: &[u8]) -> (r: Option<i64>)
    ensures
        r == (match decimal_value(s@) {
            Some(v) => if i64::MIN <= v <= i64::MAX {
                Some(v as i64)
            } else {
                None
            },
            None => None,
        }),
{
    let n = s.len();
    if n == 0 {
        return None;
    }
    let neg = s[0] == 45u8;
    let start: usize = if s[0] == 45u8 || s[0] == 43u8 {
        1
    } else {
        0
    };
    let ghost ds = s@.subrange(start as int, n as int);
    proof {
        if start == 1 {
            assert(ds =~= s@.drop_first());
        } else {
            assert(ds =~= s@);
        }
    }
    if start == n {
        return None;
    }
    let limit: u64 = 0x8000_0000_0000_0000;
    let mut mag: u64 = 0;
    let mut i = start;
    while i < n
        invariant
            start <= i <= n,
            n == s@.len(),
            0 < n,
            ds == s@.subrange(start as int, n as int),
            forall|j: int| 0 <= j < i - start ==> is_digit(#[trigger] ds[j]),
            mag as int == digits_value(ds.subrange(0, i - start)),
            mag <= limit,
            limit == 0x8000_0000_0000_0000u64,
            neg == (s@[0] == 45u8),
            ds == (if s@[0] == 45u8 || s@[0] == 43u8 {
                s@.drop_first()
            } else {
                s@
            }),
            ds.len() > 0,
        decreases n - i,
    {
        let c = s[i];
        if !(48 <= c && c <= 57) {
            proof {
                assert(!is_digit(ds[i - start]));
            }
            return None;
        }
        let d = (c - 48) as u64;
        proof {
            let p = ds.subrange(0, i + 1 - start);
            assert(p.drop_last() =~= ds.subrange(0, i - start));
            assert(p.last() == c);
        }
        if mag > (limit - d) / 10 {
            // The digits read so far already exceed every i64 magnitude;
            // more digits only make the number larger.
            proof {
                let k = i + 1 - start;
                assert(mag * 10 + d > limit) by (nonlinear_arith)
                    requires
                        mag > (limit - d) / 10,
                        d <= 9,
                        limit == 0x8000_0000_0000_0000u64,
                ;
                if all_digits(ds) {
                    lemma_digits_value_prefix_mono(ds, k, ds.len() as int);
                    assert(ds.subrange(0, ds.len() as int) =~= ds);
                }
            }
            return None;
        }
        mag = mag * 10 + d;
        i = i + 1;
    }
    proof {
        assert(ds.subrange(0, n - start) =~= ds);
        assert(all_digits(ds));
    }
    if neg {
        if mag == limit {
            Some(i64::MIN)
        } else {
            Some(-(mag as i64))
        }
    } else {
        if mag == limit {
            None
        } else {
            Some(mag as i64)
        }
    }
}

/// `s.parse::<i64>().unwrap_or_default()`.
pub fn parse_i64_or_zero(s: &str) -> (r: i64)
    ensures
        r == i64_or_zero(s.spec_bytes()),
{
    match parse_decimal_i64(s.as_bytes()) {
        Some(v) => v,
        None => 0,
    }
}

/// `s.parse::<i32>().unwrap_or_default()`.
pub fn parse_i32_or_zero(s: &str) -> (r: i32)
    ensures
        r == i32_or_zero(s.spec_bytes()),
{
    match parse_decimal_i64(s.as_bytes()) {
        Some(v) => if -2147483648 <= v && v <= 2147483647 {
            v as i32
        } else {
            0
        },
        None => 0,
    }
}

// ───────────────────────── prefixes ─────────────────────────

/// `s` begins with the bytes `p`.
pub open spec fn has_prefix(s: Seq<u8>, p: Seq<u8>) -> bool {
    p.len() <= s.len() && s.subrange(0, p.len() as int) == p
}

/// `str::starts_with` on bytes.
pub fn starts_with_bytes(s: &[u8], p: &[u8]) -> (res: bool)
    ensures
        res == has_prefix(s@, p@),
{
    if p.len() > s.len() {
        return false;
    }
    let mut i: usize = 0;
    while i < p.len()
        invariant
            i <= p@.len() <= s@.len(),
            forall|j: int| 0 <= j < i ==> s@[j] == p@[j],
        decreases p@.len() - i,
    {
        if s[i] != p[i] {
            proof {
                assert(s@.subrange(0, p@.len() as int)[i as int] != p@[i as int]);
            }
            return false;
        }
        i = i + 1;
    }
    proof {
        assert(s@.subrange(0, p@.len() as int) =~= p@);
    }
    true
}


// ───────────────────────── character sequences ─────────────────────────

/// The characters of a string slice, in order.
pub fn chars_of_str(s: &str) -> (r: Vec<char>)
    ensures
        r@ == s@,
{
    broadcast use vstd::string::group_string_axioms;

    let mut it = s.chars();
    let mut out: Vec<char> = Vec::new();
    loop
        invariant
            out@ + it.remaining() == s@,
            it.obeys_prophetic_iter_laws(),
            it.decrease() is Some,
        decreases it.decrease()->0,
    {
        let ghost before = it.remaining();
        match it.next() {
            Some(c) => {
                out.push(c);
                proof {
                    assert(out@ + it.remaining() =~= s@) by {
                        assert(before =~= seq![c] + it.remaining());
                    }
                }
            },
            None => {
                proof {
                    assert(out@ =~= s@);
                }
                return out;
            },
        }
    }
}

/// Calls `String::push`. Claimed: the character is appended to the end of
/// the string.
#[verifier::external_body]
pub(crate) fn push_char(s: &mut String, c: char)
    ensures
        final(s)@ == old(s)@.push(c),
{
    s.push(c);
}

/// The string made of the characters `cs[a..b]`.
pub fn string_of_chars(cs: &[char], a: usize, b: usize) -> (r: String)
    requires
        a <= b <= cs@.len(),
    ensures
        r@ == cs@.subrange(a as int, b as int),
{
    let mut out = String::new();
    let mut i = a;
    while i < b
        invariant
            a <= i <= b <= cs@.len(),
            out@ == cs@.subrange(a as int, i as int),
        decreases b - i,
    {
        push_char(&mut out, cs[i]);
        i = i + 1;
        proof {
            assert(out@ =~= cs@.subrange(a as int, i as int));
        }
    }
    out
}

/// The characters `cs[a..b]` as a vector.
pub fn chars_between(cs: &[char], a: usize, b: usize) -> (r: Vec<char>)
    requires
        a <= b <= cs@.len(),
    ensures
        r@ == cs@.subrange(a as int, b as int),
{
    let mut out: Vec<char> = Vec::new();
    let mut i = a;
    while i < b
        invariant
            a <= i <= b <= cs@.len(),
            out@ == cs@.subrange(a as int, i as int),
        decreases b - i,
    {
        out.push(cs[i]);
        i = i + 1;
        proof {
            assert(out@ =~= cs@.subrange(a as int, i as int));
        }
    }
    out
}

/// Executable check of [`is_unicode_whitespace`].
pub fn is_whitespace_char(c: char) -> (r: bool)
    ensures
        r == is_unicode_whitespace(c),
{
    ('\u{9}' <= c && c <= '\u{d}') || c == ' ' || c == '\u{85}' || c == '\u{a0}' || c == '\u{1680}'
        || ('\u{2000}' <= c && c <= '\u{200a}') || c == '\u{2028}' || c == '\u{2029}' || c
        == '\u{202f}' || c == '\u{205f}' || c == '\u{3000}'
}

/// Leading whitespace up to `a` and none at `a`: trimming the start drops
/// exactly the first `a` characters.
pub proof fn lemma_trim_start_at(s: Seq<char>, a: int)
    requires
        0 <= a <= s.len(),
        forall|k: int| 0 <= k < a ==> is_unicode_whitespace(#[trigger] s[k]),
        a == s.len() || !is_unicode_whitespace(s[a]),
    ensures
        trim_start_ws(s) == s.subrange(a, s.len() as int),
    decreases a,
{
    if a == 0 {
        assert(s.subrange(0, s.len() as int) =~= s);
    } else {
        let t = s.drop_first();
        assert forall|k: int| 0 <= k < a - 1 implies is_unicode_whitespace(#[trigger] t[k]) by {
            assert(t[k] == s[k + 1]);
        }
        lemma_trim_start_at(t, a - 1);
        assert(t.subrange(a - 1, t.len() as int) =~= s.subrange(a, s.len() as int));
    }
}

/// Trailing whitespace from `b` on and none just before `b`: trimming the
/// end keeps exactly the first `b` characters.
pub proof fn lemma_trim_end_at(s: Seq<char>, b: int)
    requires
        0 <= b <= s.len(),
        forall|k: int| b <= k < s.len() ==> is_unicode_whitespace(#[trigger] s[k]),
        b == 0 || !is_unicode_whitespace(s[b - 1]),
    ensures
        trim_end_ws(s) == s.subrange(0, b),
    decreases s.len() - b,
{
    if b == s.len() {
        assert(s.subrange(0, b) =~= s);
    } else {
        let t = s.drop_last();
        assert forall|k: int| b <= k < t.len() implies is_unicode_whitespace(#[trigger] t[k]) by {
            assert(t[k] == s[k]);
        }
        lemma_trim_end_at(t, b);
        assert(t.subrange(0, b) =~= s.subrange(0, b));
    }
}

/// The characters of `cs` without leading and trailing whitespace.
pub fn trim_chars(cs: &[char]) -> (r: Vec<char>)
    ensures
        r@ == trim_ws(cs@),
{
    let n = cs.len();
    let mut a: usize = 0;
    while a < n && is_whitespace_char(cs[a])
        invariant
            a <= n == cs@.len(),
            forall|k: int| 0 <= k < a ==> is_unicode_whitespace(#[trigger] cs@[k]),
        decreases n - a,
    {
        a = a + 1;
    }
    let mut b: usize = n;
    while b > a && is_whitespace_char(cs[b - 1])
        invariant
            a <= b <= n == cs@.len(),
            forall|k: int| b <= k < n ==> is_unicode_whitespace(#[trigger] cs@[k]),
        decreases b,
    {
        b = b - 1;
    }
    proof {
        lemma_trim_start_at(cs@, a as int);
        let t = cs@.subrange(a as int, n as int);
        assert forall|k: int| b - a <= k < t.len() implies is_unicode_whitespace(#[trigger] t[k]) by {
            assert(t[k] == cs@[k + a]);
        }
        if b > a {
            assert(t[b - a - 1] == cs@[b - 1]);
        }
        lemma_trim_end_at(t, b - a);
        assert(t.subrange(0, b - a) =~= cs@.subrange(a as int, b as int));
    }
    chars_between(cs, a, b)
}


/// Whether two byte slices hold the same bytes.
pub fn bytes_eq(a: &[u8], b: &[u8]) -> (r: bool)
    ensures
        r == (a@ == b@),
{
    if a.len() != b.len() {
        return false;
    }
    let mut i: usize = 0;
    while i < a.len()
        invariant
            i <= a@.len() == b@.len(),
            forall|j: int| 0 <= j < i ==> a@[j] == b@[j],
        decreases a@.len() - i,
    {
        if a[i] != b[i] {
            return false;
        }
        i = i + 1;
    }
    proof {
        assert(a@ =~= b@);
    }
    true
}

/// `==` on string slices: the same characters.
pub fn str_eq(a: &str, b: &str) -> (r: bool)
    ensures
        r == (a@ == b@),
{
    let r = bytes_eq(a.as_bytes(), b.as_bytes());
    proof {
        encode_utf8_decode_utf8(a@);
        encode_utf8_decode_utf8(b@);
    }
    r
}

} // verus!
