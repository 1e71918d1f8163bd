//! Parsing of one combat log line.
//!
//! A line reads
//! `[hh:mm:ss.mmm] [source] [target] [action] [effect] ...`.
//! Each segment parser takes the rest of the line and returns what it read
//! together with the rest after its segment.
//!
//! The model of each parser is a spec function over the line's UTF-8 bytes
//! with three outcomes: `Some(Some(..))` when the segment is read,
//! `Some(None)` when the line is rejected, and `None` when the segment is so
//! malformed that the reading would cut the line out of bounds or inside a
//! character (a panic of `str` slicing).  The public parsers require that the
//! third outcome does not occur; the `*_checked` parsers report it instead.
use vstd::prelude::*;
use vstd::string::StringSliceAdditionalSpecFns;

use crate::event_models::{
    blank_entity, empty_action, parsed_event, Action, ActionView, CombatEvent, CombatEventView,
    Effect, EffectView, Entity, EntityType, EntityView, Timestamp,
};
use crate::text::{
    all_byte_positions, char_start, chars_of, find_byte, first_pos, i32_or_zero, i64_or_zero,
    is_char_start, lemma_after_ascii, lemma_first_pos, lemma_positions_of, lemma_str_valid,
    parse_i32_or_zero, parse_i64_or_zero, positions_of, sub_str, suffix_str, trim_str,
    trim_ws, trimmed_sub_string, sub_string, has_prefix, starts_with_bytes,
};

verus! {

broadcast use vstd::utf8::group_utf8_lib, lemma_first_pos;

// ───────────────────────── timestamp ─────────────────────────

/// The time fields of a well-shaped timestamp fit their types: each digit
/// position holds a byte not below `'0'`, and each two-digit field is at
/// most 255.
pub open spec fn timestamp_digits_fit(s: Seq<u8>) -> bool {
    &&& s[1] >= 48 && s[2] >= 48 && s[4] >= 48 && s[5] >= 48 && s[7] >= 48 && s[8] >= 48
    &&& s[10] >= 48 && s[11] >= 48 && s[12] >= 48
    &&& (s[1] - 48) * 10 + (s[2] - 48) <= 255
    &&& (s[4] - 48) * 10 + (s[5] - 48) <= 255
    &&& (s[7] - 48) * 10 + (s[8] - 48) <= 255
}

/// `[hh:mm:ss.mmm]`: the brackets, colons and dot at fixed positions.
pub open spec fn timestamp_shaped(s: Seq<u8>) -> bool {
    s.len() >= 14 && s[0] == 91u8 && s[3] == 58u8 && s[6] == 58u8 && s[9] == 46u8 && s[13]
        == 93u8
}

/// Model of `parse_timestamp`.
pub open spec fn timestamp_outcome(s: Seq<u8>) -> Option<Option<(int, Timestamp)>> {
    if !timestamp_shaped(s) {
        Some(None)
    } else if !timestamp_digits_fit(s) {
        None
    } else {
        Some(
            Some(
                (
                    14,
                    Timestamp {
                        hour: ((s[1] - 48) * 10 + (s[2] - 48)) as u8,
                        minute: ((s[4] - 48) * 10 + (s[5] - 48)) as u8,
                        second: ((s[7] - 48) * 10 + (s[8] - 48)) as u8,
                        millis: ((s[10] - 48) * 100 + (s[11] - 48) * 10 + (s[12] - 48)) as u16,
                    },
                ),
            ),
        )
    }
}

fn timestamp_bytes(b: &[u8]) -> (res: Option<Option<Timestamp>>)
    ensures
        match (res, timestamp_outcome(b@)) {
            (None, None) => true,
            (Some(None), Some(None)) => true,
            (Some(Some(t)), Some(Some((k, u)))) => k == 14 && t == u,
            _ => false,
        },
{
    if b.len() < 14 || b[0] != 91u8 || b[3] != 58u8 || b[6] != 58u8 || b[9] != 46u8 || b[13]
        != 93u8 {
        return Some(None);
    }
    if !(b[1] >= 48 && b[2] >= 48 && b[4] >= 48 && b[5] >= 48 && b[7] >= 48 && b[8] >= 48
        && b[10] >= 48 && b[11] >= 48 && b[12] >= 48) {
        return None;
    }
    let (h1, h2, m1, m2, s1, s2) = (b[1] - 48, b[2] - 48, b[4] - 48, b[5] - 48, b[7] - 48, b[8]
        - 48);
    if h1 as u16 * 10 + h2 as u16 > 255 || m1 as u16 * 10 + m2 as u16 > 255 || s1 as u16 * 10
        + s2 as u16 > 255 {
        return None;
    }
    let millis = (b[10] - 48) as u16 * 100 + (b[11] - 48) as u16 * 10 + (b[12] - 48) as u16;
    Some(Some(Timestamp { hour: h1 * 10 + h2, minute: m1 * 10 + m2, second: s1 * 10 + s2, millis }))
}

/// Reads the `[hh:mm:ss.mmm]` timestamp at the start of `input`.
///
/// Returns `None` unless the first fourteen bytes have the timestamp's
/// shape; the rest of the line starts after the closing bracket.
pub fn parse_timestamp(input: &str) -> (res: Option<(&str, Timestamp)>)
    requires
        timestamp_outcome(input.spec_bytes()) is Some,
    ensures
        match (res, timestamp_outcome(input.spec_bytes())) {
            (None, Some(None)) => true,
            (Some((rest, t)), Some(Some((k, u)))) => {
                &&& t == u
                &&& rest.spec_bytes() == input.spec_bytes().subrange(
                    k,
                    input.spec_bytes().len() as int,
                )
            },
            _ => false,
        },
{
    match timestamp_bytes(input.as_bytes()) {
        Some(Some(t)) => {
            proof {
                lemma_str_valid(input);
                lemma_after_ascii(input.spec_bytes(), 13);
            }
            Some((suffix_str(input, 14), t))
        },
        _ => None,
    }
}

// ───────────────────────── entity health ─────────────────────────

/// Model of `parse_entity_health` on the bytes of a `(current/max)` segment.
pub open spec fn health_outcome(h: Seq<u8>) -> Option<Option<(i32, i32)>> {
    match (first_pos(h, 40u8), first_pos(h, 47u8)) {
        (Some(o), Some(d)) => if o + 1 > d {
            None
        } else {
            match first_pos(h, 41u8) {
                None => Some(None),
                Some(c) => if d + 1 > c {
                    None
                } else {
                    Some(
                        Some(
                            (
                                i32_or_zero(h.subrange(o + 1, d)),
                                i32_or_zero(h.subrange(d + 1, c)),
                            ),
                        ),
                    )
                },
            }
        },
        _ => Some(None),
    }
}

/// Reads `(current/max)` health, each number defaulting to 0 when it does not
/// parse; `None` when a parenthesis or the slash is missing.
pub fn parse_entity_health_checked(input: &str) -> (res: Option<Option<(i32, i32)>>)
    ensures
        res == health_outcome(input.spec_bytes()),
{
    let b = input.as_bytes();
    proof {
        lemma_str_valid(input);
    }
    let o = match find_byte(40u8, b) {
        Some(p) => p,
        None => return Some(None),
    };
    let d = match find_byte(47u8, b) {
        Some(p) => p,
        None => return Some(None),
    };
    if o + 1 > d {
        return None;
    }
    proof {
        lemma_after_ascii(b@, o as int);
    }
    let current = parse_i32_or_zero(sub_str(input, o + 1, d));
    let c = match find_byte(41u8, b) {
        Some(p) => p,
        None => return Some(None),
    };
    if d + 1 > c {
        return None;
    }
    proof {
        lemma_after_ascii(b@, d as int);
    }
    let max = parse_i32_or_zero(sub_str(input, d + 1, c));
    Some(Some((current, max)))
}

/// Reads `(current/max)` health; see [`parse_entity_health_checked`].
pub fn parse_entity_health(input: &str) -> (res: Option<(i32, i32)>)
    requires
        health_outcome(input.spec_bytes()) is Some,
    ensures
        res == health_outcome(input.spec_bytes())->0,
{
    match parse_entity_health_checked(input) {
        Some(r) => r,
        None => None,
    }
}

// ───────────────────────── entity name and ids ─────────────────────────

/// Model of `parse_entity_name_id` on the bytes of a name segment:
/// `@Player#id`, `@Player#id/Companion {class}:id` or `Npc {class}:id`.
pub open spec fn name_id_outcome(t: Seq<u8>) -> Option<Option<(Seq<char>, i64, i64, EntityType)>> {
    let end_b = first_pos(t, 125u8);
    let start_b = first_pos(t, 123u8);
    match first_pos(t, 35u8) {
        Some(h) => if 1 > h || !char_start(t, 1) {
            None
        } else {
            let player_name = chars_of(t.subrange(1, h));
            match first_pos(t, 47u8) {
                None => Some(
                    Some(
                        (
                            player_name,
                            0i64,
                            i64_or_zero(t.subrange(h + 1, t.len() as int)),
                            EntityType::Player,
                        ),
                    ),
                ),
                Some(sl) => match start_b {
                    None => Some(None),
                    Some(sb) => if sb == 0 || sl + 1 > sb - 1 || !char_start(t, sb - 1) {
                        None
                    } else {
                        match end_b {
                            None => Some(None),
                            Some(eb) => if sb + 1 > eb || eb + 2 > t.len() || !char_start(
                                t,
                                eb + 2,
                            ) {
                                None
                            } else {
                                Some(
                                    Some(
                                        (
                                            chars_of(t.subrange(sl + 1, sb - 1)),
                                            i64_or_zero(t.subrange(sb + 1, eb)),
                                            i64_or_zero(t.subrange(eb + 2, t.len() as int)),
                                            EntityType::Companion,
                                        ),
                                    ),
                                )
                            },
                        }
                    },
                },
            }
        },
        None => match (start_b, end_b) {
            (Some(sb), Some(eb)) => if sb + 1 > eb || eb + 2 > t.len() || !char_start(t, eb + 2) {
                None
            } else {
                Some(
                    Some(
                        (
                            trim_ws(chars_of(t.subrange(0, sb))),
                            i64_or_zero(t.subrange(sb + 1, eb)),
                            i64_or_zero(t.subrange(eb + 2, t.len() as int)),
                            EntityType::Npc,
                        ),
                    ),
                )
            },
            _ => Some(None),
        },
    }
}

/// The outcome of an executable name reader agrees with its model.
pub open spec fn name_id_agrees(
    res: Option<Option<(&str, i64, i64, EntityType)>>,
    model: Option<Option<(Seq<char>, i64, i64, EntityType)>>,
) -> bool {
    match (res, model) {
        (None, None) => true,
        (Some(None), Some(None)) => true,
        (Some(Some((n, c, l, e))), Some(Some((n2, c2, l2, e2)))) => n@ == n2 && c == c2 && l == l2
            && e == e2,
        _ => false,
    }
}

/// Reads the name, class id, log id and kind of an entity from its name
/// segment; `None` when the delimiters it needs are missing,
/// and the outer `None` when the segment is malformed.
pub fn parse_entity_name_id_checked(input: &str) -> (res: Option<
    Option<(&str, i64, i64, EntityType)>,
>)
    ensures
        name_id_agrees(res, name_id_outcome(input.spec_bytes())),
{
    let b = input.as_bytes();
    let n = b.len();
    proof {
        lemma_str_valid(input);
    }
    let end_b = find_byte(125u8, b);
    let start_b = find_byte(123u8, b);
    let hash = find_byte(35u8, b);
    let slash = find_byte(47u8, b);
    match hash {
        Some(h) => {
            if 1 > h || !is_char_start(b, 1) {
                return None;
            }
            let player_name = sub_str(input, 1, h);
            match slash {
                None => {
                    proof {
                        lemma_after_ascii(b@, h as int);
                    }
                    let id = parse_i64_or_zero(suffix_str(input, h + 1));
                    Some(Some((player_name, 0, id, EntityType::Player)))
                },
                Some(sl) => {
                    let sb = match start_b {
                        Some(p) => p,
                        None => return Some(None),
                    };
                    if sb == 0 || sl + 1 > sb - 1 || !is_char_start(b, sb - 1) {
                        return None;
                    }
                    proof {
                        lemma_after_ascii(b@, sl as int);
                    }
                    let companion_name = sub_str(input, sl + 1, sb - 1);
                    let eb = match end_b {
                        Some(p) => p,
                        None => return Some(None),
                    };
                    if sb + 1 > eb || eb + 1 >= n || !is_char_start(b, eb + 2) {
                        return None;
                    }
                    proof {
                        lemma_after_ascii(b@, sb as int);
                    }
                    let class_id = parse_i64_or_zero(sub_str(input, sb + 1, eb));
                    let log_id = parse_i64_or_zero(suffix_str(input, eb + 2));
                    Some(Some((companion_name, class_id, log_id, EntityType::Companion)))
                },
            }
        },
        None => {
            let (sb, eb) = match (start_b, end_b) {
                (Some(p), Some(q)) => (p, q),
                _ => return Some(None),
            };
            if sb + 1 > eb || eb + 1 >= n || !is_char_start(b, eb + 2) {
                return None;
            }
            proof {
                lemma_after_ascii(b@, sb as int);
            }
            let npc_name = trim_str(sub_str(input, 0, sb));
            let class_id = parse_i64_or_zero(sub_str(input, sb + 1, eb));
            let log_id = parse_i64_or_zero(suffix_str(input, eb + 2));
            Some(Some((npc_name, class_id, log_id, EntityType::Npc)))
        },
    }
}

/// Reads the name, class id, log id and kind of an entity from its name
/// segment; see [`parse_entity_name_id_checked`].
pub fn parse_entity_name_id(input: &str) -> (res: Option<(&str, i64, i64, EntityType)>)
    requires
        name_id_outcome(input.spec_bytes()) is Some,
    ensures
        name_id_agrees(Some(res), name_id_outcome(input.spec_bytes())),
{
    match parse_entity_name_id_checked(input) {
        Some(r) => r,
        None => None,
    }
}

// ───────────────────────── entity segment ─────────────────────────

/// The outcome of an executable segment reader agrees with its model.
pub open spec fn entity_agrees(
    res: Option<Option<(usize, Entity)>>,
    model: Option<Option<(int, EntityView)>>,
) -> bool {
    match (res, model) {
        (None, None) => true,
        (Some(None), Some(None)) => true,
        (Some(Some((k, e))), Some(Some((k2, v)))) => k == k2 && e@ == v,
        _ => false,
    }
}

/// Model of `parse_entity`: the first `[...]` segment of `s`, which is empty
/// (`[]`), a self reference (`[=]`), or `[name|coordinates|(health)]`.
pub open spec fn entity_outcome(s: Seq<u8>) -> Option<Option<(int, EntityView)>> {
    match (first_pos(s, 91u8), first_pos(s, 93u8)) {
        (Some(start), Some(end)) => if end <= 2 {
            Some(Some((end + 1, blank_entity(EntityType::Empty))))
        } else if first_pos(s, 61u8) == Some(2int) {
            Some(Some((end + 1, blank_entity(EntityType::SelfReference))))
        } else {
            let pipes = positions_of(s, 124u8);
            if pipes.len() < 2 || start + 1 > pipes[0] || pipes[1] > end {
                None
            } else {
                match name_id_outcome(s.subrange(start + 1, pipes[0])) {
                    None => None,
                    Some(None) => Some(None),
                    Some(Some((name, class_id, log_id, entity_type))) => match health_outcome(
                        s.subrange(pipes[1], end),
                    ) {
                        None => None,
                        Some(None) => Some(None),
                        Some(Some(health)) => Some(
                            Some(
                                (
                                    end + 1,
                                    EntityView { name, class_id, log_id, entity_type, health },
                                ),
                            ),
                        ),
                    },
                }
            }
        },
        _ => Some(None),
    }
}

fn entity_checked(input: &str) -> (res: Option<Option<(usize, Entity)>>)
    ensures
        entity_agrees(res, entity_outcome(input.spec_bytes())),
        res matches Some(Some((k, _))) ==> k <= input.spec_bytes().len() && char_start(
            input.spec_bytes(),
            k as int,
        ),
{
    let b = input.as_bytes();
    proof {
        lemma_str_valid(input);
    }
    let start = match find_byte(91u8, b) {
        Some(p) => p,
        None => return Some(None),
    };
    let end = match find_byte(93u8, b) {
        Some(p) => p,
        None => return Some(None),
    };
    let eq = find_byte(61u8, b);
    proof {
        lemma_after_ascii(b@, end as int);
    }
    if end <= 2 {
        return Some(Some((end + 1, Entity::blank(EntityType::Empty))));
    }
    if let Some(p) = eq {
        if p == 2 {
            return Some(Some((end + 1, Entity::blank(EntityType::SelfReference))));
        }
    }
    let pipes = all_byte_positions(124u8, b);
    proof {
        lemma_positions_of(b@, 124u8);
    }
    if pipes.len() < 2 {
        return None;
    }
    let p0 = pipes[0];
    let p1 = pipes[1];
    if start + 1 > p0 || p1 > end {
        return None;
    }
    proof {
        lemma_after_ascii(b@, start as int);
    }
    let name_seg = sub_str(input, start + 1, p0);
    let health_seg = sub_str(input, p1, end);
    match parse_entity_name_id_checked(name_seg) {
        None => None,
        Some(None) => Some(None),
        Some(Some((name, class_id, log_id, entity_type))) => match parse_entity_health_checked(
            health_seg,
        ) {
            None => None,
            Some(None) => Some(None),
            Some(Some(health)) => Some(
                Some(
                    (
                        end + 1,
                        Entity { name: name.to_owned(), class_id, log_id, entity_type, health },
                    ),
                ),
            ),
        },
    }
}

/// Reads the first `[...]` entity segment of `input`, or reports the segment
/// malformed with the outer `None`.
pub fn parse_entity_checked(input: &str) -> (res: Option<Option<(&str, Entity)>>)
    ensures
        match (res, entity_outcome(input.spec_bytes())) {
            (None, None) => true,
            (Some(None), Some(None)) => true,
            (Some(Some((rest, e))), Some(Some((k, v)))) => {
                &&& e@ == v
                &&& rest.spec_bytes() == input.spec_bytes().subrange(
                    k,
                    input.spec_bytes().len() as int,
                )
            },
            _ => false,
        },
{
    match entity_checked(input) {
        None => None,
        Some(None) => Some(None),
        Some(Some((k, e))) => Some(Some((suffix_str(input, k), e))),
    }
}

/// Reads the first `[...]` entity segment of `input` and returns the rest of
/// the line after it: an empty entity for `[]`, a self reference for `[=]`,
/// otherwise the name, ids and health; `None` when a delimiter is missing.
pub fn parse_entity(input: &str) -> (res: Option<(&str, Entity)>)
    requires
        entity_outcome(input.spec_bytes()) is Some,
    ensures
        match (res, entity_outcome(input.spec_bytes())) {
            (None, Some(None)) => true,
            (Some((rest, e)), Some(Some((k, v)))) => {
                &&& e@ == v
                &&& rest.spec_bytes() == input.spec_bytes().subrange(
                    k,
                    input.spec_bytes().len() as int,
                )
            },
            _ => false,
        },
{
    match parse_entity_checked(input) {
        Some(r) => r,
        None => None,
    }
}

// ───────────────────────── action segment ─────────────────────────

/// Model of `parse_action`: the first `[...]` segment of `s`, empty or
/// `[name {id}]`.
pub open spec fn action_outcome(s: Seq<u8>) -> Option<Option<(int, ActionView)>> {
    match (first_pos(s, 91u8), first_pos(s, 93u8)) {
        (Some(start), Some(end)) => if end <= 2 {
            Some(Some((end + 1, empty_action())))
        } else {
            match first_pos(s, 123u8) {
                None => Some(None),
                Some(ob) => if start + 1 > ob {
                    None
                } else {
                    match first_pos(s, 125u8) {
                        None => Some(None),
                        Some(cb) => if ob + 1 > cb {
                            None
                        } else {
                            Some(
                                Some(
                                    (
                                        end + 1,
                                        ActionView {
                                            name: trim_ws(chars_of(s.subrange(start + 1, ob))),
                                            action_id: i64_or_zero(s.subrange(ob + 1, cb)),
                                        },
                                    ),
                                ),
                            )
                        },
                    }
                },
            }
        },
        _ => Some(None),
    }
}

fn action_checked(input: &str) -> (res: Option<Option<(usize, Action)>>)
    ensures
        match (res, action_outcome(input.spec_bytes())) {
            (None, None) => true,
            (Some(None), Some(None)) => true,
            (Some(Some((k, a))), Some(Some((k2, v)))) => k == k2 && a@ == v,
            _ => false,
        },
        res matches Some(Some((k, _))) ==> k <= input.spec_bytes().len() && char_start(
            input.spec_bytes(),
            k as int,
        ),
{
    let b = input.as_bytes();
    proof {
        lemma_str_valid(input);
    }
    let start = match find_byte(91u8, b) {
        Some(p) => p,
        None => return Some(None),
    };
    let end = match find_byte(93u8, b) {
        Some(p) => p,
        None => return Some(None),
    };
    let close_b = find_byte(125u8, b);
    let open_b = find_byte(123u8, b);
    proof {
        lemma_after_ascii(b@, end as int);
    }
    if end <= 2 {
        return Some(Some((end + 1, Action::default())));
    }
    let ob = match open_b {
        Some(p) => p,
        None => return Some(None),
    };
    if start + 1 > ob {
        return None;
    }
    proof {
        lemma_after_ascii(b@, start as int);
    }
    let name = trimmed_sub_string(input, start + 1, ob);
    let cb = match close_b {
        Some(p) => p,
        None => return Some(None),
    };
    if ob + 1 > cb {
        return None;
    }
    proof {
        lemma_after_ascii(b@, ob as int);
    }
    let action_id = parse_i64_or_zero(sub_str(input, ob + 1, cb));
    Some(Some((end + 1, Action { name, action_id })))
}

/// Reads the first `[...]` action segment of `input`, or reports the segment
/// malformed with the outer `None`.
pub fn parse_action_checked(input: &str) -> (res: Option<Option<(&str, Action)>>)
    ensures
        match (res, action_outcome(input.spec_bytes())) {
            (None, None) => true,
            (Some(None), Some(None)) => true,
            (Some(Some((rest, a))), Some(Some((k, v)))) => {
                &&& a@ == v
                &&& rest.spec_bytes() == input.spec_bytes().subrange(
                    k,
                    input.spec_bytes().len() as int,
                )
            },
            _ => false,
        },
{
    match action_checked(input) {
        None => None,
        Some(None) => Some(None),
        Some(Some((k, a))) => Some(Some((suffix_str(input, k), a))),
    }
}

/// Reads the first `[...]` action segment of `input` and returns the rest
/// of the line after it: an empty action for `[]`, otherwise the trimmed
/// name before `{` and the id between the braces; `None` when a brace is
/// missing.
pub fn parse_action(input: &str) -> (res: Option<(&str, Action)>)
    requires
        action_outcome(input.spec_bytes()) is Some,
    ensures
        match (res, action_outcome(input.spec_bytes())) {
            (None, Some(None)) => true,
            (Some((rest, a)), Some(Some((k, v)))) => {
                &&& a@ == v
                &&& rest.spec_bytes() == input.spec_bytes().subrange(
                    k,
                    input.spec_bytes().len() as int,
                )
            },
            _ => false,
        },
{
    match parse_action_checked(input) {
        Some(r) => r,
        None => None,
    }
}

// ───────────────────────── effect segment ─────────────────────────

/// The bytes of `DisciplineChanged`.
pub open spec fn discipline_changed_word() -> Seq<u8> {
    seq![68u8, 105u8, 115u8, 99u8, 105u8, 112u8, 108u8, 105u8, 110u8, 101u8, 67u8, 104u8, 97u8, 110u8, 103u8, 101u8, 100u8]
}

/// The bytes of `AreaEntered`.
pub open spec fn area_entered_word() -> Seq<u8> {
    seq![65u8, 114u8, 101u8, 97u8, 69u8, 110u8, 116u8, 101u8, 114u8, 101u8, 100u8]
}

/// The integer between byte offsets `a` and `b`, or 0.
pub open spec fn id_between(g: Seq<u8>, a: int, b: int) -> i64 {
    i64_or_zero(g.subrange(a, b))
}

/// The trimmed text between byte offsets `a` and `b`.
pub open spec fn text_between(g: Seq<u8>, a: int, b: int) -> Seq<char> {
    trim_ws(chars_of(g.subrange(a, b)))
}

/// The two `{id}` groups and the name between them read well: `{type} name {id}`
/// with a separator byte after the first `}` and before the second `{`.
pub open spec fn two_groups_fit(g: Seq<u8>, br: Seq<int>, eb: Seq<int>) -> bool {
    &&& br[0] + 1 <= eb[0]
    &&& eb[0] + 2 <= br[1] - 1
    &&& char_start(g, eb[0] + 2)
    &&& char_start(g, br[1] - 1)
    &&& br[1] + 1 <= eb[1]
}

/// Model of `parse_discipline_changed` on the segment between the brackets:
/// `DisciplineChanged {type}: Class {class}/Discipline {discipline}`.
pub open spec fn discipline_changed_outcome(g: Seq<u8>) -> Option<Option<EffectView>> {
    let br = positions_of(g, 123u8);
    let eb = positions_of(g, 125u8);
    match first_pos(g, 47u8) {
        None => Some(None),
        Some(sl) => if br.len() < 3 || eb.len() < 3 || !two_groups_fit(g, br, eb) || sl + 1 > br[2]
            - 1 || !char_start(g, br[2] - 1) || br[2] + 1 > eb[2] {
            None
        } else {
            Some(
                Some(
                    EffectView::DisciplineChanged {
                        type_id: id_between(g, br[0] + 1, eb[0]),
                        class_name: text_between(g, eb[0] + 2, br[1] - 1),
                        class_id: id_between(g, br[1] + 1, eb[1]),
                        discipline_name: text_between(g, sl + 1, br[2] - 1),
                        discipline_id: id_between(g, br[2] + 1, eb[2]),
                    },
                ),
            )
        },
    }
}

/// Model of `parse_area_entered`: `AreaEntered {type}: Area {area} Difficulty {difficulty}`,
/// the difficulty group optional; an empty effect when fewer than two groups appear.
pub open spec fn area_entered_outcome(g: Seq<u8>) -> Option<Option<EffectView>> {
    let br = positions_of(g, 123u8);
    let eb = positions_of(g, 125u8);
    if br.len() < 2 || eb.len() < 2 {
        Some(Some(EffectView::Empty))
    } else if !two_groups_fit(g, br, eb) {
        None
    } else if br.len() >= 3 && eb.len() >= 3 {
        if eb[1] + 1 > br[2] - 1 || !char_start(g, br[2] - 1) || br[2] + 1 > eb[2] {
            None
        } else {
            Some(
                Some(
                    EffectView::AreaEntered {
                        type_id: id_between(g, br[0] + 1, eb[0]),
                        area_name: text_between(g, eb[0] + 2, br[1] - 1),
                        area_id: id_between(g, br[1] + 1, eb[1]),
                        difficulty: Some(text_between(g, eb[1] + 1, br[2] - 1)),
                        difficulty_id: Some(id_between(g, br[2] + 1, eb[2])),
                    },
                ),
            )
        }
    } else {
        Some(
            Some(
                EffectView::AreaEntered {
                    type_id: id_between(g, br[0] + 1, eb[0]),
                    area_name: text_between(g, eb[0] + 2, br[1] - 1),
                    area_id: id_between(g, br[1] + 1, eb[1]),
                    difficulty: None,
                    difficulty_id: None,
                },
            ),
        )
    }
}

/// Model of `parse_standard_effect`: `Type {type}: Name {id}`; an empty effect
/// when fewer than two `{` appear.
pub open spec fn standard_effect_outcome(g: Seq<u8>) -> Option<Option<EffectView>> {
    let br = positions_of(g, 123u8);
    let eb = positions_of(g, 125u8);
    if br.len() < 2 {
        Some(Some(EffectView::Empty))
    } else if eb.len() < 2 || !two_groups_fit(g, br, eb) {
        None
    } else {
        Some(
            Some(
                EffectView::Standard {
                    effect_type_name: text_between(g, 0, br[0]),
                    type_id: id_between(g, br[0] + 1, eb[0]),
                    name: text_between(g, eb[0] + 2, br[1] - 1),
                    id: id_between(g, br[1] + 1, eb[1]),
                },
            ),
        )
    }
}

/// Model of `parse_effect`: the first `[...]` segment of `s`, read as a
/// discipline change, an area entry or a standard effect by its first word.
pub open spec fn effect_outcome(s: Seq<u8>) -> Option<Option<(int, EffectView)>> {
    match (first_pos(s, 91u8), first_pos(s, 93u8)) {
        (Some(start), Some(end)) => if start + 1 > end {
            None
        } else {
            let g = s.subrange(start + 1, end);
            let inner = if has_prefix(g, discipline_changed_word()) {
                discipline_changed_outcome(g)
            } else if has_prefix(g, area_entered_word()) {
                area_entered_outcome(g)
            } else {
                standard_effect_outcome(g)
            };
            match inner {
                None => None,
                Some(None) => Some(None),
                Some(Some(e)) => Some(Some((end + 1, e))),
            }
        },
        _ => Some(None),
    }
}

/// The outcome of an executable effect reader agrees with its model.
pub open spec fn effect_agrees(res: Option<Option<Effect>>, model: Option<Option<EffectView>>) -> bool {
    match (res, model) {
        (None, None) => true,
        (Some(None), Some(None)) => true,
        (Some(Some(e)), Some(Some(v))) => e@ == v,
        _ => false,
    }
}

/// Reads the two leading `{id}` groups' positions and checks that the
/// name between them can be cut out.
fn two_groups_fit_exec(b: &[u8], br: &Vec<usize>, eb: &Vec<usize>) -> (res: bool)
    requires
        br@.len() >= 2,
        eb@.len() >= 2,
        forall|k: int| 0 <= k < br@.len() ==> br@[k] < b.len(),
        forall|k: int| 0 <= k < eb@.len() ==> eb@[k] < b.len(),
        br@[0] < br@[1],
    ensures
        res == two_groups_fit(
            b@,
            br@.map_values(|i: usize| i as int),
            eb@.map_values(|i: usize| i as int),
        ),
{
    br[0] + 1 <= eb[0] && eb[0] < br[1] && br[1] - eb[0] >= 3 && is_char_start(b, eb[0] + 2)
        && is_char_start(
        b,
        br[1] - 1,
    ) && br[1] + 1 <= eb[1]
}

/// The `{` and `}` positions of a segment, with what the effect readers
/// need to know of them.
fn group_positions(seg: &str) -> (res: (Vec<usize>, Vec<usize>))
    ensures
        res.0@.map_values(|i: usize| i as int) == positions_of(seg.spec_bytes(), 123u8),
        res.1@.map_values(|i: usize| i as int) == positions_of(seg.spec_bytes(), 125u8),
        forall|k: int|
            0 <= k < res.0@.len() ==> res.0@[k] < seg.spec_bytes().len() && seg.spec_bytes()[res.0@[k] as int] == 123u8,
        forall|k: int|
            0 <= k < res.1@.len() ==> res.1@[k] < seg.spec_bytes().len() && seg.spec_bytes()[res.1@[k] as int] == 125u8,
        forall|k1: int, k2: int| 0 <= k1 < k2 < res.0@.len() ==> res.0@[k1] < res.0@[k2],
        forall|k1: int, k2: int| 0 <= k1 < k2 < res.1@.len() ==> res.1@[k1] < res.1@[k2],
        seg.spec_bytes().len() <= usize::MAX,
{
    let b = seg.as_bytes();
    let _n = b.len();
    let br = all_byte_positions(123u8, b);
    let eb = all_byte_positions(125u8, b);
    proof {
        lemma_positions_of(b@, 123u8);
        lemma_positions_of(b@, 125u8);
        assert(br@.map_values(|i: usize| i as int) =~= positions_of(b@, 123u8));
        assert(eb@.map_values(|i: usize| i as int) =~= positions_of(b@, 125u8));
        assert forall|k1: int, k2: int| 0 <= k1 < k2 < br@.len() implies br@[k1] < br@[k2] by {
            assert(positions_of(b@, 123u8)[k1] < positions_of(b@, 123u8)[k2]);
        }
        assert forall|k1: int, k2: int| 0 <= k1 < k2 < eb@.len() implies eb@[k1] < eb@[k2] by {
            assert(positions_of(b@, 125u8)[k1] < positions_of(b@, 125u8)[k2]);
        }
        assert forall|k: int| 0 <= k < br@.len() implies b@[br@[k] as int] == 123u8 by {
            assert(b@[positions_of(b@, 123u8)[k]] == 123u8);
        }
        assert forall|k: int| 0 <= k < eb@.len() implies b@[eb@[k] as int] == 125u8 by {
            assert(b@[positions_of(b@, 125u8)[k]] == 125u8);
        }
    }
    (br, eb)
}

fn discipline_changed_checked(seg: &str) -> (res: Option<Option<Effect>>)
    ensures
        effect_agrees(res, discipline_changed_outcome(seg.spec_bytes())),
{
    let b = seg.as_bytes();
    proof {
        lemma_str_valid(seg);
    }
    let (br, eb) = group_positions(seg);
    let ghost g = b@;
    let ghost pbr = positions_of(g, 123u8);
    let ghost peb = positions_of(g, 125u8);
    proof {
        assert(pbr.len() == br@.len());
        assert(peb.len() == eb@.len());
    }
    let sl = match find_byte(47u8, b) {
        Some(p) => p,
        None => return Some(None),
    };
    if br.len() < 3 || eb.len() < 3 {
        return None;
    }
    proof {
        assert(pbr[0] == br@[0] as int && pbr[1] == br@[1] as int && pbr[2] == br@[2] as int);
        assert(peb[0] == eb@[0] as int && peb[1] == eb@[1] as int && peb[2] == eb@[2] as int);
    }
    if !two_groups_fit_exec(b, &br, &eb) {
        return None;
    }
    if sl + 1 > br[2] - 1 || !is_char_start(b, br[2] - 1) || br[2] + 1 > eb[2] {
        return None;
    }
    proof {
        lemma_after_ascii(g, br@[0] as int);
        lemma_after_ascii(g, br@[1] as int);
        lemma_after_ascii(g, br@[2] as int);
        lemma_after_ascii(g, sl as int);
    }
    let type_id = parse_i64_or_zero(sub_str(seg, br[0] + 1, eb[0]));
    let class_name = trimmed_sub_string(seg, eb[0] + 2, br[1] - 1);
    let class_id = parse_i64_or_zero(sub_str(seg, br[1] + 1, eb[1]));
    let discipline_name = trimmed_sub_string(seg, sl + 1, br[2] - 1);
    let discipline_id = parse_i64_or_zero(sub_str(seg, br[2] + 1, eb[2]));
    Some(
        Some(
            Effect::DisciplineChanged {
                type_id,
                class_name,
                class_id,
                discipline_name,
                discipline_id,
            },
        ),
    )
}

fn area_entered_checked(seg: &str) -> (res: Option<Option<Effect>>)
    ensures
        effect_agrees(res, area_entered_outcome(seg.spec_bytes())),
{
    let b = seg.as_bytes();
    proof {
        lemma_str_valid(seg);
    }
    let (br, eb) = group_positions(seg);
    let ghost g = b@;
    let ghost pbr = positions_of(g, 123u8);
    let ghost peb = positions_of(g, 125u8);
    proof {
        assert(pbr.len() == br@.len());
        assert(peb.len() == eb@.len());
    }
    if br.len() < 2 || eb.len() < 2 {
        return Some(Some(Effect::Empty));
    }
    proof {
        assert(pbr[0] == br@[0] as int && pbr[1] == br@[1] as int);
        assert(peb[0] == eb@[0] as int && peb[1] == eb@[1] as int);
    }
    if !two_groups_fit_exec(b, &br, &eb) {
        return None;
    }
    proof {
        lemma_after_ascii(g, br@[0] as int);
        lemma_after_ascii(g, br@[1] as int);
    }
    let type_id = parse_i64_or_zero(sub_str(seg, br[0] + 1, eb[0]));
    let area_name = trimmed_sub_string(seg, eb[0] + 2, br[1] - 1);
    let area_id = parse_i64_or_zero(sub_str(seg, br[1] + 1, eb[1]));
    if br.len() >= 3 && eb.len() >= 3 {
        proof {
            assert(pbr[2] == br@[2] as int);
            assert(peb[2] == eb@[2] as int);
        }
        if eb[1] + 1 > br[2] - 1 || !is_char_start(b, br[2] - 1) || br[2] + 1 > eb[2] {
            return None;
        }
        proof {
            lemma_after_ascii(g, eb@[1] as int);
            lemma_after_ascii(g, br@[2] as int);
        }
        let difficulty = trimmed_sub_string(seg, eb[1] + 1, br[2] - 1);
        let difficulty_id = parse_i64_or_zero(sub_str(seg, br[2] + 1, eb[2]));
        Some(
            Some(
                Effect::AreaEntered {
                    type_id,
                    area_name,
                    area_id,
                    difficulty: Some(difficulty),
                    difficulty_id: Some(difficulty_id),
                },
            ),
        )
    } else {
        Some(
            Some(
                Effect::AreaEntered {
                    type_id,
                    area_name,
                    area_id,
                    difficulty: None,
                    difficulty_id: None,
                },
            ),
        )
    }
}

fn standard_effect_checked(seg: &str) -> (res: Option<Option<Effect>>)
    ensures
        effect_agrees(res, standard_effect_outcome(seg.spec_bytes())),
{
    let b = seg.as_bytes();
    proof {
        lemma_str_valid(seg);
    }
    let (br, eb) = group_positions(seg);
    let ghost g = b@;
    let ghost pbr = positions_of(g, 123u8);
    let ghost peb = positions_of(g, 125u8);
    proof {
        assert(pbr.len() == br@.len());
        assert(peb.len() == eb@.len());
    }
    if br.len() < 2 {
        return Some(Some(Effect::Empty));
    }
    if eb.len() < 2 {
        return None;
    }
    proof {
        assert(pbr[0] == br@[0] as int && pbr[1] == br@[1] as int);
        assert(peb[0] == eb@[0] as int && peb[1] == eb@[1] as int);
    }
    if !two_groups_fit_exec(b, &br, &eb) {
        return None;
    }
    proof {
        lemma_after_ascii(g, br@[0] as int);
        lemma_after_ascii(g, br@[1] as int);
    }
    let effect_type_name = trimmed_sub_string(seg, 0, br[0]);
    let type_id = parse_i64_or_zero(sub_str(seg, br[0] + 1, eb[0]));
    let name = trimmed_sub_string(seg, eb[0] + 2, br[1] - 1);
    let id = parse_i64_or_zero(sub_str(seg, br[1] + 1, eb[1]));
    Some(Some(Effect::Standard { effect_type_name, type_id, name, id }))
}

fn effect_checked(input: &str) -> (res: Option<Option<(usize, Effect)>>)
    ensures
        match (res, effect_outcome(input.spec_bytes())) {
            (None, None) => true,
            (Some(None), Some(None)) => true,
            (Some(Some((k, e))), Some(Some((k2, v)))) => k == k2 && e@ == v,
            _ => false,
        },
        res matches Some(Some((k, _))) ==> k <= input.spec_bytes().len() && char_start(
            input.spec_bytes(),
            k as int,
        ),
{
    let b = input.as_bytes();
    proof {
        lemma_str_valid(input);
    }
    let start = match find_byte(91u8, b) {
        Some(p) => p,
        None => return Some(None),
    };
    let end = match find_byte(93u8, b) {
        Some(p) => p,
        None => return Some(None),
    };
    if start + 1 > end {
        return None;
    }
    proof {
        lemma_after_ascii(b@, start as int);
        lemma_after_ascii(b@, end as int);
    }
    let seg = sub_str(input, start + 1, end);
    let sb = seg.as_bytes();
    let dc: [u8; 17] = [68u8, 105u8, 115u8, 99u8, 105u8, 112u8, 108u8, 105u8, 110u8, 101u8, 67u8, 104u8, 97u8, 110u8, 103u8, 101u8, 100u8];
    let ae: [u8; 11] = [65u8, 114u8, 101u8, 97u8, 69u8, 110u8, 116u8, 101u8, 114u8, 101u8, 100u8];
    proof {
        assert(dc@ =~= discipline_changed_word());
        assert(ae@ =~= area_entered_word());
    }
    let inner = if starts_with_bytes(sb, dc.as_slice()) {
        discipline_changed_checked(seg)
    } else if starts_with_bytes(sb, ae.as_slice()) {
        area_entered_checked(seg)
    } else {
        standard_effect_checked(seg)
    };
    match inner {
        None => None,
        Some(None) => Some(None),
        Some(Some(e)) => Some(Some((end + 1, e))),
    }
}

/// Reads the first `[...]` effect segment of `input`, or reports the segment
/// malformed with the outer `None`.
pub fn parse_effect_checked(input: &str) -> (res: Option<Option<(&str, Effect)>>)
    ensures
        match (res, effect_outcome(input.spec_bytes())) {
            (None, None) => true,
            (Some(None), Some(None)) => true,
            (Some(Some((rest, e))), Some(Some((k, v)))) => {
                &&& e@ == v
                &&& rest.spec_bytes() == input.spec_bytes().subrange(
                    k,
                    input.spec_bytes().len() as int,
                )
            },
            _ => false,
        },
{
    match effect_checked(input) {
        None => None,
        Some(None) => Some(None),
        Some(Some((k, e))) => Some(Some((suffix_str(input, k), e))),
    }
}

/// Reads the first `[...]` effect segment of `input` and returns the rest of
/// the line after it: a discipline change, an area entry, or a standard
/// `Type {id}: Name {id}` effect; `None` when a required delimiter is missing.
pub fn parse_effect(input: &str) -> (res: Option<(&str, Effect)>)
    requires
        effect_outcome(input.spec_bytes()) is Some,
    ensures
        match (res, effect_outcome(input.spec_bytes())) {
            (None, Some(None)) => true,
            (Some((rest, e)), Some(Some((k, v)))) => {
                &&& e@ == v
                &&& rest.spec_bytes() == input.spec_bytes().subrange(
                    k,
                    input.spec_bytes().len() as int,
                )
            },
            _ => false,
        },
{
    match parse_effect_checked(input) {
        Some(r) => r,
        None => None,
    }
}

// ───────────────────────── whole line ─────────────────────────

/// The bytes of `s` from offset `k` on.
pub open spec fn rest_from(s: Seq<u8>, k: int) -> Seq<u8> {
    s.subrange(k, s.len() as int)
}

/// Model of `parse_line`: timestamp, source, target, action and effect in
/// turn, each read from the rest of the line after the one before.  A target
/// written as a self reference (`[=]`) stands for the source.
pub closed spec fn line_outcome(line_number: usize, s: Seq<u8>) -> Option<Option<CombatEventView>> {
    match timestamp_outcome(s) {
        None => None,
        Some(None) => Some(None),
        Some(Some((k1, ts))) => {
            let r1 = rest_from(s, k1);
            match entity_outcome(r1) {
                None => None,
                Some(None) => Some(None),
                Some(Some((k2, source))) => {
                    let r2 = rest_from(r1, k2);
                    match entity_outcome(r2) {
                        None => None,
                        Some(None) => Some(None),
                        Some(Some((k3, target))) => {
                            let r3 = rest_from(r2, k3);
                            match action_outcome(r3) {
                                None => None,
                                Some(None) => Some(None),
                                Some(Some((k4, action))) => {
                                    let r4 = rest_from(r3, k4);
                                    let target = if target.entity_type
                                        == EntityType::SelfReference {
                                        source
                                    } else {
                                        target
                                    };
                                    match effect_outcome(r4) {
                                        None => None,
                                        Some(None) => Some(None),
                                        Some(Some((_, effect))) => Some(
                                            Some(
                                                parsed_event(
                                                    line_number,
                                                    ts,
                                                    source,
                                                    target,
                                                    action,
                                                    effect,
                                                ),
                                            ),
                                        ),
                                    }
                                },
                            }
                        },
                    }
                },
            }
        },
    }
}

/// The event built from its five parsed segments.
fn build_event(
    line_number: usize,
    timestamp: Timestamp,
    source_entity: Entity,
    target_entity: Entity,
    action: Action,
    effect: Effect,
) -> (r: CombatEvent)
    ensures
        r@ == parsed_event(
            line_number,
            timestamp,
            source_entity@,
            target_entity@,
            action@,
            effect@,
        ),
{
    CombatEvent {
        line_number,
        timestamp,
        source_entity,
        target_entity,
        action,
        effect,
        charges: None,
        damage: None,
        effective_damage: None,
        damage_type_id: None,
        is_critical: None,
        is_reflected: None,
        reduction_class_id: None,
        damage_reduced: None,
        reduction_type_id: None,
        heal: None,
        effective_heal: None,
    }
}

/// The outcome of reading a whole line agrees with its model.
pub open spec fn line_agrees(res: Option<Option<CombatEvent>>, model: Option<Option<CombatEventView>>) -> bool {
    match (res, model) {
        (None, None) => true,
        (Some(None), Some(None)) => true,
        (Some(Some(e)), Some(Some(v))) => e@ == v,
        _ => false,
    }
}

/// Parses one log line into an event numbered `line_number`; `Some(None)`
/// when the line is not an event line, `None` when it is malformed.
pub fn parse_line_checked(line_number: usize, line: &str) -> (res: Option<Option<CombatEvent>>)
    ensures
        line_agrees(res, line_outcome(line_number, line.spec_bytes())),
{
    let (rest, timestamp) = match timestamp_bytes(line.as_bytes()) {
        None => return None,
        Some(None) => return Some(None),
        Some(Some(t)) => {
            proof {
                lemma_str_valid(line);
                lemma_after_ascii(line.spec_bytes(), 13);
            }
            (suffix_str(line, 14), t)
        },
    };
    let (rest, source_entity) = match parse_entity_checked(rest) {
        None => return None,
        Some(None) => return Some(None),
        Some(Some(r)) => r,
    };
    let (rest, target_entity) = match parse_entity_checked(rest) {
        None => return None,
        Some(None) => return Some(None),
        Some(Some(r)) => r,
    };
    let (rest, action) = match parse_action_checked(rest) {
        None => return None,
        Some(None) => return Some(None),
        Some(Some(r)) => r,
    };
    let target_entity = if target_entity.entity_type == EntityType::SelfReference {
        source_entity.duplicate()
    } else {
        target_entity
    };
    let (_rest, effect) = match parse_effect_checked(rest) {
        None => return None,
        Some(None) => return Some(None),
        Some(Some(r)) => r,
    };
    Some(Some(build_event(line_number, timestamp, source_entity, target_entity, action, effect)))
}

/// Parses one log line into an event numbered `line_number`: its timestamp,
/// source, target (the source again when the target is `[=]`), action and
/// effect; `None` when any of them is missing.
pub fn parse_line(line_number: usize, line: &str) -> (res: Option<CombatEvent>)
    requires
        line_outcome(line_number, line.spec_bytes()) is Some,
    ensures
        line_agrees(Some(res), line_outcome(line_number, line.spec_bytes())),
{
    match parse_line_checked(line_number, line) {
        Some(r) => r,
        None => None,
    }
}

} // verus!
