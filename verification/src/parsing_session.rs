//! A parsing session: the log file followed, the date its name gives, the
//! session cache, and the signal handlers that receive what the events
//! produce.  Handlers are registered by id; the caller holds the handlers and
//! hands each the signals addressed to its id.
use crate::combat_state::{process_all, process_events, CombatStateEvent, GameSignal};
use crate::session::SessionCache;
use vstd::prelude::*;

verus! {

/// The last component of the path written as `p`, without its extension, if
/// it has one (the platform's path rules).
pub uninterp spec fn file_stem_of(p: Seq<char>) -> Option<Seq<char>>;

/// The date and time that `s` gives under the `strftime` format `fmt`, as
/// milliseconds since 1970 of that local wall-clock time, if `s` matches.
pub uninterp spec fn naive_datetime_millis(s: Seq<char>, fmt: Seq<char>) -> Option<i64>;

/// Calls `Path::file_stem` on the path written as `p` and reads it as text.
/// Claimed: the result is [`file_stem_of`] of `p`, a function of `p` alone.
#[verifier::external_body]
fn path_file_stem(p: &str) -> (r: Option<String>)
    ensures
        match r {
            Some(s) => file_stem_of(p@) == Some(s@),
            None => file_stem_of(p@) is None,
        },
{
    std::path::Path::new(p).file_stem().and_then(|s| s.to_str()).map(|s| s.to_string())
}

/// Calls `chrono::NaiveDateTime::parse_from_str` and reads a parsed time as
/// milliseconds since 1970 (`and_utc().timestamp_millis()`). Claimed: the
/// result is [`naive_datetime_millis`] of the text and format, a function of
/// them alone.
#[verifier::external_body]
fn parse_naive_datetime_millis(s: &str, fmt: &str) -> (r: Option<i64>)
    ensures
        r == naive_datetime_millis(s@, fmt@),
{
    chrono::NaiveDateTime::parse_from_str(s, fmt).ok().map(|d| d.and_utc().timestamp_millis())
}

/// The format of the date in a log file's name.
pub open spec fn log_stamp_format() -> Seq<char> {
    "%Y-%m-%d_%H_%M_%S_%f"@
}

/// The prefix of a log file's name.
pub open spec fn combat_prefix() -> Seq<char> {
    seq!['c', 'o', 'm', 'b', 'a', 't', '_']
}

/// `s` without every leading `combat_`.
pub open spec fn without_combat_prefix(s: Seq<char>) -> Seq<char>
    decreases s.len(),
{
    if 7 <= s.len() && s.take(7) == combat_prefix() {
        without_combat_prefix(s.skip(7))
    } else {
        s
    }
}

fn strip_combat_prefix(s: &str) -> (r: String)
    ensures
        r@ == without_combat_prefix(s@),
{
    let cs = crate::text::chars_of_str(s);
    let n = cs.len();
    let mut k: usize = 0;
    proof {
        assert(s@.skip(0) =~= s@);
    }
    loop
        invariant
            cs@ == s@,
            n == cs@.len(),
            k <= n,
            without_combat_prefix(s@) == without_combat_prefix(s@.skip(k as int)),
        decreases n - k,
    {
        let ghost rest = s@.skip(k as int);
        let found = n - k >= 7 && cs[k] == 'c' && cs[k + 1] == 'o' && cs[k + 2] == 'm' && cs[k + 3]
            == 'b' && cs[k + 4] == 'a' && cs[k + 5] == 't' && cs[k + 6] == '_';
        proof {
            if n - k >= 7 {
                assert(rest.take(7) =~= seq![cs@[k as int], cs@[k + 1], cs@[k + 2], cs@[k + 3], cs@[k + 4], cs@[k + 5], cs@[k + 6]]);
            }
        }
        if !found {
            let r = crate::text::string_of_chars(cs.as_slice(), k, n);
            proof {
                assert(cs@.subrange(k as int, n as int) =~= rest);
                if 7 <= rest.len() && rest.take(7) == combat_prefix() {
                    assert(rest.take(7)[0] == 'c');
                    assert(rest.take(7)[1] == 'o');
                    assert(rest.take(7)[2] == 'm');
                    assert(rest.take(7)[3] == 'b');
                    assert(rest.take(7)[4] == 'a');
                    assert(rest.take(7)[5] == 't');
                    assert(rest.take(7)[6] == '_');
                }
            }
            return r;
        }
        proof {
            assert(rest.take(7) =~= combat_prefix());
            assert(rest.skip(7) =~= s@.skip(k + 7));
        }
        k = k + 7;
    }
}

/// The date a log file's stem gives: every leading `combat_` is dropped and
/// the rest read as `%Y-%m-%d_%H_%M_%S_%f`.
pub fn log_session_start(file_stem: &str) -> (r: Option<i64>)
    ensures
        r == naive_datetime_millis(without_combat_prefix(file_stem@), log_stamp_format()),
{
    let stem = strip_combat_prefix(file_stem);
    let fmt = "%Y-%m-%d_%H_%M_%S_%f";
    proof {
        reveal_strlit("%Y-%m-%d_%H_%M_%S_%f");
    }
    parse_naive_datetime_millis(stem.as_str(), fmt)
}

/// The date a log file's name gives, read from the file's stem.
pub fn parse_log_timestamp(path: &str) -> (r: Option<i64>)
    ensures
        match file_stem_of(path@) {
            Some(stem) => r == naive_datetime_millis(without_combat_prefix(stem), log_stamp_format()),
            None => r is None,
        },
{
    match path_file_stem(path) {
        Some(stem) => log_session_start(stem.as_str()),
        None => None,
    }
}

/// The session that follows one log file.
pub struct ParsingSession {
    pub current_byte: Option<u64>,
    pub active_file: Option<String>,
    /// The date the file's name gives, in milliseconds.
    pub game_session_date: Option<i64>,
    pub session_cache: Option<SessionCache>,
    pub signal_handlers: Vec<u64>,
}

/// The signals each handler receives, in registration order: every handler
/// gets the whole list.
pub open spec fn dispatched(handlers: Seq<u64>, signals: Seq<GameSignal>) -> Seq<(u64, Seq<GameSignal>)> {
    handlers.map_values(|h: u64| (h, signals))
}

/// The views of a dispatch.
pub open spec fn dispatch_views(d: Seq<(u64, Vec<GameSignal>)>) -> Seq<(u64, Seq<GameSignal>)> {
    d.map_values(|x: (u64, Vec<GameSignal>)| (x.0, x.1@))
}

fn copy_signals(s: &Vec<GameSignal>) -> (r: Vec<GameSignal>)
    ensures
        r@ == s@,
{
    let mut r: Vec<GameSignal> = Vec::new();
    let mut i: usize = 0;
    while i < s.len()
        invariant
            i <= s@.len(),
            r@ == s@.take(i as int),
        decreases s@.len() - i,
    {
        r.push(s[i]);
        i += 1;
        proof {
            assert(r@ =~= s@.take(i as int));
        }
    }
    proof {
        assert(s@.take(i as int) =~= s@);
    }
    r
}

impl ParsingSession {
    /// A session following the log file at `path`: nothing read yet, the
    /// date its name gives, a fresh session cache, and no handlers.
    pub fn new(path: String) -> (r: Self)
        ensures
            r.current_byte is None,
            r.active_file matches Some(p) && p@ == path@,
            match file_stem_of(path@) {
                Some(stem) => r.game_session_date == naive_datetime_millis(
                    without_combat_prefix(stem),
                    log_stamp_format(),
                ),
                None => r.game_session_date is None,
            },
            r.session_cache matches Some(c) && c@.wf() && c@.next_encounter_id == 1
                && c@.encounters.len() == 1,
            r.signal_handlers@.len() == 0,
    {
        let date = parse_log_timestamp(path.as_str());
        ParsingSession {
            current_byte: None,
            active_file: Some(path),
            game_session_date: date,
            session_cache: Some(SessionCache::new()),
            signal_handlers: Vec::new(),
        }
    }

    /// The registered handlers, in order.
    pub fn handlers(&self) -> (r: &Vec<u64>)
        ensures
            r@ == self.signal_handlers@,
    {
        &self.signal_handlers
    }

    /// Registers a handler to receive game signals, after those already
    /// registered.
    pub fn add_signal_handler(&mut self, handler: u64)
        ensures
            final(self).signal_handlers@ == old(self).signal_handlers@.push(handler),
            final(self).current_byte == old(self).current_byte,
            final(self).active_file == old(self).active_file,
            final(self).game_session_date == old(self).game_session_date,
            final(self).session_cache == old(self).session_cache,
    {
        self.signal_handlers.push(handler);
    }

    fn dispatch_signals(&self, signals: &Vec<GameSignal>) -> (r: Vec<(u64, Vec<GameSignal>)>)
        ensures
            dispatch_views(r@) == dispatched(self.signal_handlers@, signals@),
    {
        let mut r: Vec<(u64, Vec<GameSignal>)> = Vec::new();
        let mut i: usize = 0;
        while i < self.signal_handlers.len()
            invariant
                i <= self.signal_handlers@.len(),
                dispatch_views(r@) == dispatched(self.signal_handlers@.take(i as int), signals@),
            decreases self.signal_handlers@.len() - i,
        {
            let ghost before = r@;
            let h = self.signal_handlers[i];
            let copy = copy_signals(signals);
            r.push((h, copy));
            proof {
                let hs = self.signal_handlers@;
                assert(hs.take(i as int + 1) =~= hs.take(i as int).push(h));
                assert(dispatched(hs.take(i as int + 1), signals@) =~= dispatched(hs.take(i as int), signals@).push((h, signals@)));
                assert(dispatch_views(r@) =~= dispatch_views(before).push((h, signals@)));
            }
            i += 1;
        }
        proof {
            assert(self.signal_handlers@.take(i as int) =~= self.signal_handlers@);
        }
        r
    }

    /// Feeds the events, in order, to the session cache and hands every
    /// handler, in registration order, one list: all the signals the events
    /// produced, in order.  Without a session cache nothing is processed and
    /// every handler gets an empty list.
    pub fn process_events(&mut self, events: &Vec<CombatStateEvent>) -> (r: Vec<(u64, Vec<GameSignal>)>)
        requires
            old(self).session_cache matches Some(c) ==> c@.wf() && c@.next_encounter_id
                + events@.len() < u64::MAX,
        ensures
            final(self).signal_handlers@ == old(self).signal_handlers@,
            final(self).current_byte == old(self).current_byte,
            final(self).active_file == old(self).active_file,
            final(self).game_session_date == old(self).game_session_date,
            match old(self).session_cache {
                None => final(self).session_cache is None && dispatch_views(r@) == dispatched(
                    old(self).signal_handlers@,
                    Seq::empty(),
                ),
                Some(c) => final(self).session_cache matches Some(c2) && c2@.wf() && c2@ == process_all(
                    c@,
                    events@,
                ).0 && dispatch_views(r@) == dispatched(
                    old(self).signal_handlers@,
                    process_all(c@, events@).1,
                ),
            },
    {
        let signals = process_events(&mut self.session_cache, events);
        proof {
            if old(self).session_cache is None {
                assert(signals@ =~= Seq::<GameSignal>::empty());
            }
        }
        self.dispatch_signals(&signals)
    }
}

} // verus!
