//! Notes overlay: encounter notes written in a small Markdown subset,
//! parsed into styled lines ready to be drawn.
//!
//! Supported: blank lines, dividers (`---`, `***`, `___`), `##` headers,
//! numbered items (`1. text`), bullets (`- text`, `* text`) and inline
//! `**bold**` and `*italic*` spans.
use crate::text::{
    chars_between, chars_of_str, is_unicode_whitespace, string_of_chars, trim_chars, trim_end_ws,
    trim_start_ws, trim_ws,
};
use vstd::prelude::*;

verus! {

/// Configuration for the notes overlay.
#[derive(Debug, Clone, Copy)]
pub struct NotesConfig {
    /// Font size for notes text
    pub font_size: u8,
    /// Font color for notes text (RGBA)
    pub font_color: [u8; 4],
    pub dynamic_background: bool,
}

impl Default for NotesConfig {
    fn default() -> (r: Self)
        ensures
            r.font_size == 14,
            r.font_color@ == seq![255u8, 255u8, 255u8, 255u8],
            !r.dynamic_background,
    {
        let r = Self { font_size: 14, font_color: [255, 255, 255, 255], dynamic_background: false };
        proof {
            assert(r.font_color@ =~= seq![255u8, 255u8, 255u8, 255u8]);
        }
        r
    }
}

/// Data sent to the notes overlay.
#[derive(Debug, Clone)]
pub struct NotesData {
    /// The notes text (Markdown format)
    pub text: String,
    /// Boss/encounter name for the header
    pub boss_name: String,
}

impl Default for NotesData {
    fn default() -> (r: Self)
        ensures
            r.text@ == Seq::<char>::empty(),
            r.boss_name@ == Seq::<char>::empty(),
    {
        NotesData { text: String::new(), boss_name: String::new() }
    }
}

/// A text span with styling.
#[derive(Debug, Clone)]
pub struct TextSpan {
    pub text: String,
    pub bold: bool,
    pub italic: bool,
}

/// Mathematical model of a [`TextSpan`].
pub struct SpanView {
    pub text: Seq<char>,
    pub bold: bool,
    pub italic: bool,
}

impl View for TextSpan {
    type V = SpanView;

    open spec fn view(&self) -> SpanView {
        SpanView { text: self.text@, bold: self.bold, italic: self.italic }
    }
}

/// A processed line of notes text with styling.
#[derive(Debug, Clone)]
pub struct NotesLine {
    /// The styled text spans to display
    pub spans: Vec<TextSpan>,
    /// Whether this is a header line
    pub is_header: bool,
    /// Whether this is a horizontal divider
    pub is_divider: bool,
    /// Indent level (for bullet points/numbered lists)
    pub indent: u8,
}

/// Mathematical model of a [`NotesLine`].
pub struct NotesLineView {
    pub spans: Seq<SpanView>,
    pub is_header: bool,
    pub is_divider: bool,
    pub indent: u8,
}

/// The views of a sequence of spans.
pub open spec fn span_views(s: Seq<TextSpan>) -> Seq<SpanView> {
    s.map_values(|t: TextSpan| t@)
}

/// The views of a sequence of lines.
pub open spec fn line_views(s: Seq<NotesLine>) -> Seq<NotesLineView> {
    s.map_values(|l: NotesLine| l@)
}

impl View for NotesLine {
    type V = NotesLineView;

    open spec fn view(&self) -> NotesLineView {
        NotesLineView {
            spans: span_views(self.spans@),
            is_header: self.is_header,
            is_divider: self.is_divider,
            indent: self.indent,
        }
    }
}

// ───────────────────────── the model ─────────────────────────

/// The index of the first `c` in `s`, if any.
pub open spec fn index_of_char(s: Seq<char>, c: char) -> Option<int>
    decreases s.len(),
{
    if s.len() == 0 {
        None
    } else if s[0] == c {
        Some(0)
    } else {
        match index_of_char(s.drop_first(), c) {
            Some(i) => Some(i + 1),
            None => None,
        }
    }
}

/// [`index_of_char`] finds the first occurrence, and only that.
pub proof fn lemma_index_of_char(s: Seq<char>, c: char)
    ensures
        match index_of_char(s, c) {
            Some(i) => 0 <= i < s.len() && s[i] == c && forall|j: int| 0 <= j < i ==> s[j] != c,
            None => forall|j: int| 0 <= j < s.len() ==> s[j] != c,
        },
    decreases s.len(),
{
    if s.len() > 0 && s[0] != c {
        lemma_index_of_char(s.drop_first(), c);
        let t = s.drop_first();
        assert forall|j: int| 0 < j < s.len() implies s[j] == t[j - 1] by {}
    }
}

proof fn lemma_index_of_char_at(s: Seq<char>, c: char, i: int)
    requires
        0 <= i < s.len(),
        s[i] == c,
        forall|j: int| 0 <= j < i ==> s[j] != c,
    ensures
        index_of_char(s, c) == Some(i),
{
    lemma_index_of_char(s, c);
}

/// A line without the carriage return of a `\r\n` ending.
pub open spec fn strip_cr(l: Seq<char>) -> Seq<char> {
    if l.len() > 0 && l.last() == '\r' {
        l.drop_last()
    } else {
        l
    }
}

/// `str::lines`: the text split at `\n`, each piece without a `\r` just
/// before the `\n`; a final line ending adds no empty line.
pub open spec fn text_lines(s: Seq<char>) -> Seq<Seq<char>>
    decreases s.len(),
{
    if s.len() == 0 {
        seq![]
    } else {
        match index_of_char(s, '\n') {
            None => seq![s],
            Some(i) => {
                proof {
                    lemma_index_of_char(s, '\n');
                }
                seq![strip_cr(s.take(i))] + text_lines(s.skip(i + 1))
            },
        }
    }
}

/// `s` begins with `p`.
pub open spec fn starts_with(s: Seq<char>, p: Seq<char>) -> bool {
    p.len() <= s.len() && s.take(p.len() as int) == p
}

/// `s` without its leading `c`s.
pub open spec fn strip_leading(s: Seq<char>, c: char) -> Seq<char>
    decreases s.len(),
{
    if s.len() > 0 && s[0] == c {
        strip_leading(s.drop_first(), c)
    } else {
        s
    }
}

/// Every character is an ASCII digit.
pub open spec fn all_ascii_digits(s: Seq<char>) -> bool {
    forall|k: int| 0 <= k < s.len() ==> '0' <= #[trigger] s[k] && s[k] <= '9'
}

/// A numbered list item `N. text`: the digits before the first dot and the
/// trimmed text after the space that follows it.
pub open spec fn numbered_item(t: Seq<char>) -> Option<(Seq<char>, Seq<char>)> {
    match index_of_char(t, '.') {
        None => None,
        Some(d) => if d > 0 && all_ascii_digits(t.take(d)) && d + 1 < t.len() && t[d + 1] == ' ' {
            Some((t.take(d), trim_ws(t.skip(d + 2))))
        } else {
            None
        },
    }
}

/// State of the inline scan: spans so far, the text of the span being
/// built, and whether bold and italic are on.
pub struct SpanScan {
    pub spans: Seq<SpanView>,
    pub current: Seq<char>,
    pub bold: bool,
    pub italic: bool,
}

/// The scan with the text being built closed off as a span, if any.
pub open spec fn flushed(st: SpanScan) -> SpanScan {
    if st.current.len() == 0 {
        st
    } else {
        SpanScan {
            spans: st.spans.push(SpanView { text: st.current, bold: st.bold, italic: st.italic }),
            current: Seq::empty(),
            ..st
        }
    }
}

/// The scan over `rest`: `**` toggles bold, a single `*` toggles italic,
/// and each toggle closes the span before it.
pub open spec fn scan_spans(rest: Seq<char>, st: SpanScan) -> SpanScan
    decreases rest.len(),
{
    if rest.len() == 0 {
        st
    } else if rest.len() >= 2 && rest[0] == '*' && rest[1] == '*' {
        scan_spans(rest.skip(2), SpanScan { bold: !st.bold, ..flushed(st) })
    } else if rest[0] == '*' {
        scan_spans(rest.skip(1), SpanScan { italic: !st.italic, ..flushed(st) })
    } else {
        scan_spans(rest.skip(1), SpanScan { current: st.current.push(rest[0]), ..st })
    }
}

/// The scan at its start.
pub open spec fn scan_start() -> SpanScan {
    SpanScan { spans: Seq::empty(), current: Seq::empty(), bold: false, italic: false }
}

/// A plain span: neither bold nor italic.
pub open spec fn plain(text: Seq<char>) -> SpanView {
    SpanView { text, bold: false, italic: false }
}

/// The styled spans of a line of text; a text without any gives one empty
/// plain span.
pub open spec fn inline_spans(text: Seq<char>) -> Seq<SpanView> {
    let fin = flushed(scan_spans(text, scan_start()));
    if fin.spans.len() == 0 {
        seq![plain(Seq::empty())]
    } else {
        fin.spans
    }
}

/// A line of the given spans and kind.
pub open spec fn line_of(spans: Seq<SpanView>, is_header: bool, is_divider: bool, indent: u8) -> NotesLineView {
    NotesLineView { spans, is_header, is_divider, indent }
}

/// A bullet-like line: its prefix as a plain span, then the content's spans.
pub open spec fn item_line(prefix: Seq<char>, content: Seq<char>, indent: u8) -> NotesLineView {
    line_of(seq![plain(prefix)] + inline_spans(content), false, false, indent)
}

/// The bullet character.
pub open spec fn bullet_prefix(indent_spaces: Seq<char>) -> Seq<char> {
    indent_spaces + seq!['\u{2022}', ' ']
}

/// The line that a trimmed line of notes text becomes (a nested bullet is
/// told apart before trimming: see [`line_to_note`]).
pub open spec fn note_line(t: Seq<char>) -> NotesLineView {
    if t.len() == 0 {
        line_of(Seq::empty(), false, false, 0)
    } else if t == seq!['-', '-', '-'] || t == seq!['*', '*', '*'] || t == seq!['_', '_', '_'] {
        line_of(Seq::empty(), false, true, 0)
    } else if starts_with(t, seq!['#', '#']) {
        line_of(
            seq![SpanView { text: trim_ws(strip_leading(t, '#')), bold: true, italic: false }],
            true,
            false,
            0,
        )
    } else if numbered_item(t) is Some {
        let (num, content) = numbered_item(t)->0;
        item_line(seq![' ', ' '] + num + seq!['.', ' '], content, 1)
    } else if starts_with(t, seq!['-', ' ']) || (starts_with(t, seq!['*', ' ']) && !starts_with(
        t,
        seq!['*', '*'],
    )) {
        item_line(bullet_prefix(seq![' ', ' ']), trim_ws(t.skip(2)), 1)
    } else {
        line_of(inline_spans(t), false, false, 0)
    }
}

/// The line is a nested bullet: two spaces, then `- ` or `* `.
pub open spec fn nested_bullet(l: Seq<char>) -> bool {
    starts_with(l, seq![' ', ' ', '-', ' ']) || starts_with(l, seq![' ', ' ', '*', ' '])
}

/// The line that a line of notes text becomes: a nested bullet (at indent
/// 2) if it is one as written, else what it is once trimmed.
pub open spec fn line_to_note(l: Seq<char>) -> NotesLineView {
    if nested_bullet(l) {
        item_line(bullet_prefix(seq![' ', ' ', ' ', ' ']), trim_ws(l.skip(4)), 2)
    } else {
        note_line(trim_ws(l))
    }
}

/// The lines that notes text becomes: one per line of the text.
pub open spec fn notes_lines(text: Seq<char>) -> Seq<NotesLineView> {
    text_lines(text).map_values(|l: Seq<char>| line_to_note(l))
}

/// A bullet's content is styled as it would be on a line of its own: for a
/// text `c` that is an ordinary line by itself (not a header, divider or
/// list item, with no white space at either end), the line `- c` is a bullet
/// at indent 1 whose spans are the bullet prefix followed by exactly the
/// spans of the line `c`; so `**bold**` and `*italic*` in a bullet are
/// rendered as they are anywhere else.
pub proof fn lemma_bullet_content_styled_like_a_line(c: Seq<char>)
    requires
        c.len() > 0,
        !is_unicode_whitespace(c[0]),
        !is_unicode_whitespace(c.last()),
        !note_line(c).is_header,
        !note_line(c).is_divider,
        note_line(c).indent == 0,
    ensures
        note_line(seq!['-', ' '] + c).indent == 1,
        note_line(seq!['-', ' '] + c).spans == seq![plain(bullet_prefix(seq![' ', ' ']))] + note_line(
            c,
        ).spans,
        line_to_note(seq![' ', ' ', '-', ' '] + c).indent == 2,
        line_to_note(seq![' ', ' ', '-', ' '] + c).spans == seq![
            plain(bullet_prefix(seq![' ', ' ', ' ', ' '])),
        ] + note_line(c).spans,
{
    let l = seq![' ', ' ', '-', ' '] + c;
    assert(l.take(4) =~= seq![' ', ' ', '-', ' ']);
    assert(l.skip(4) =~= c);
    let t = seq!['-', ' '] + c;
    assert(t[0] == '-');
    assert(trim_start_ws(t) == t);
    assert(t.last() == c.last());
    assert(trim_end_ws(t) == t);
    assert(trim_start_ws(c) == c);
    assert(trim_end_ws(c) == c);
    assert(t.skip(2) =~= c);
    assert(t != seq!['-', '-', '-']) by {
        assert(t[1] == ' ');
    }
    assert(t.take(2) =~= seq!['-', ' ']);
    assert(starts_with(t, seq!['-', ' ']));
    assert(!starts_with(t, seq!['#', '#'])) by {
        if starts_with(t, seq!['#', '#']) {
            assert(t.take(2)[0] == '#');
        }
    }
    if let Some(d) = index_of_char(t, '.') {
        lemma_index_of_char(t, '.');
        assert(d > 0);
        assert(t.take(d)[0] == '-');
        assert(!all_ascii_digits(t.take(d)));
    }
    assert(numbered_item(t) is None);
}

/// A numbered item's content is styled as it would be on a line of its own:
/// for digits `n` and a text `c` that is an ordinary line by itself, the
/// line `n. c` is an item at indent 1 whose spans are its number prefix
/// followed by exactly the spans of the line `c`.
pub proof fn lemma_numbered_content_styled_like_a_line(n: Seq<char>, c: Seq<char>)
    requires
        n.len() > 0,
        all_ascii_digits(n),
        c.len() > 0,
        !is_unicode_whitespace(c[0]),
        !is_unicode_whitespace(c.last()),
        !note_line(c).is_header,
        !note_line(c).is_divider,
        note_line(c).indent == 0,
    ensures
        note_line(n + seq!['.', ' '] + c).indent == 1,
        note_line(n + seq!['.', ' '] + c).spans == seq![plain(seq![' ', ' '] + n + seq!['.', ' '])]
            + note_line(c).spans,
{
    let t = n + seq!['.', ' '] + c;
    let d = n.len() as int;
    assert(t[0] == n[0]);
    assert('0' <= n[0] && n[0] <= '9');
    assert(trim_start_ws(t) == t);
    assert(t.last() == c.last());
    assert(trim_end_ws(t) == t);
    assert(trim_start_ws(c) == c);
    assert(trim_end_ws(c) == c);
    assert(t != seq!['-', '-', '-'] && t != seq!['*', '*', '*'] && t != seq!['_', '_', '_']) by {
        if t.len() == 3 {
            assert(t[0] == n[0]);
        }
    }
    assert(!starts_with(t, seq!['#', '#'])) by {
        if starts_with(t, seq!['#', '#']) {
            assert(t.take(2)[0] == t[0]);
        }
    }
    lemma_index_of_char(t, '.');
    assert(t[d] == '.');
    assert forall|j: int| 0 <= j < d implies t[j] != '.' by {
        assert(t[j] == n[j]);
        assert('0' <= n[j] && n[j] <= '9');
    }
    assert(index_of_char(t, '.') == Some(d)) by {
        match index_of_char(t, '.') {
            Some(i) => {
                if i < d {
                    assert(t[i] != '.');
                } else if i > d {
                    assert(t[d] != '.');
                }
            },
            None => {
                assert(t[d] != '.');
            },
        }
    }
    assert(t.take(d) =~= n);
    assert(t[d + 1] == ' ');
    assert(t.skip(d + 2) =~= c);
}

// ───────────────────────── the overlay ─────────────────────────

/// Data sent to an overlay window.  Only the notes overlay's data is held
/// here; the other kinds carry data of the overlay crate, which the notes
/// overlay ignores.
#[derive(Debug)]
pub enum OverlayData {
    Metrics,
    Personal,
    Raid,
    Notes(NotesData),
}

/// Notes text overlay: its configuration, the notes shown, and the notes
/// parsed into lines for drawing.
#[derive(Debug)]
pub struct NotesOverlay {
    config: NotesConfig,
    data: NotesData,
    lines: Vec<NotesLine>,
    european_number_format: bool,
    background_alpha: u8,
}

/// Mathematical model of a [`NotesOverlay`].
pub struct NotesOverlayView {
    pub config: NotesConfig,
    pub text: Seq<char>,
    pub boss_name: Seq<char>,
    pub lines: Seq<NotesLineView>,
    pub european_number_format: bool,
    pub background_alpha: u8,
}

impl View for NotesOverlay {
    type V = NotesOverlayView;

    closed spec fn view(&self) -> NotesOverlayView {
        NotesOverlayView {
            config: self.config,
            text: self.data.text@,
            boss_name: self.data.boss_name@,
            lines: line_views(self.lines@),
            european_number_format: self.european_number_format,
            background_alpha: self.background_alpha,
        }
    }
}

impl NotesOverlayView {
    /// The parsed lines are those of the current text.
    pub open spec fn wf(self) -> bool {
        self.lines == notes_lines(self.text)
    }
}

impl NotesOverlay {
    /// Create a new notes overlay, with no notes.
    pub fn new(config: NotesConfig, background_alpha: u8) -> (r: Self)
        ensures
            r@ == (NotesOverlayView {
                config,
                text: Seq::empty(),
                boss_name: Seq::empty(),
                lines: Seq::empty(),
                european_number_format: false,
                background_alpha,
            }),
            r@.wf(),
    {
        let r = Self {
            config,
            data: NotesData::default(),
            lines: Vec::new(),
            european_number_format: false,
            background_alpha,
        };
        proof {
            assert(r@.lines =~= Seq::<NotesLineView>::empty());
            assert(notes_lines(Seq::empty()) =~= Seq::<NotesLineView>::empty());
        }
        r
    }

    /// Update the config
    pub fn set_config(&mut self, config: NotesConfig)
        ensures
            final(self)@ == (NotesOverlayView { config, ..old(self)@ }),
    {
        self.config = config;
    }

    /// Update background alpha
    pub fn set_background_alpha(&mut self, alpha: u8)
        ensures
            final(self)@ == (NotesOverlayView { background_alpha: alpha, ..old(self)@ }),
    {
        self.background_alpha = alpha;
    }

    /// Set the notes data and parse it for rendering
    pub fn set_data(&mut self, data: NotesData)
        ensures
            final(self)@ == (NotesOverlayView {
                text: data.text@,
                boss_name: data.boss_name@,
                lines: notes_lines(data.text@),
                ..old(self)@
            }),
            final(self)@.wf(),
    {
        self.data = data;
        self.parse_lines();
    }

    /// Clear the notes
    pub fn clear(&mut self)
        ensures
            final(self)@ == (NotesOverlayView {
                text: Seq::empty(),
                boss_name: Seq::empty(),
                lines: Seq::empty(),
                ..old(self)@
            }),
            final(self)@.wf(),
    {
        self.data = NotesData::default();
        self.lines.clear();
        proof {
            assert(self@.lines =~= Seq::<NotesLineView>::empty());
            assert(notes_lines(Seq::empty()) =~= Seq::<NotesLineView>::empty());
        }
    }

    /// The configuration.
    pub fn config(&self) -> (r: NotesConfig)
        ensures
            r == self@.config,
    {
        self.config
    }

    /// The background alpha.
    pub fn background_alpha(&self) -> (r: u8)
        ensures
            r == self@.background_alpha,
    {
        self.background_alpha
    }

    /// The notes shown.
    pub fn data(&self) -> (r: &NotesData)
        ensures
            r.text@ == self@.text,
            r.boss_name@ == self@.boss_name,
    {
        &self.data
    }

    /// The notes parsed into lines, in order.
    pub fn lines(&self) -> (r: &Vec<NotesLine>)
        ensures
            line_views(r@) == self@.lines,
    {
        &self.lines
    }

    /// Takes the data sent to an overlay; tells whether what is shown
    /// changed.  Data for another kind of overlay changes nothing and is
    /// answered `false`.  New notes replace the old when the text or boss
    /// name differ; the answer is then `true`, and otherwise whether the text
    /// went from empty to non-empty or back.
    pub fn update_data(&mut self, data: OverlayData) -> (r: bool)
        ensures
            match data {
                OverlayData::Notes(nd) => {
                    let changed = old(self)@.text != nd.text@ || old(self)@.boss_name
                        != nd.boss_name@;
                    &&& r == (changed || ((old(self)@.text.len() == 0) != (nd.text@.len() == 0)))
                    &&& changed ==> final(self)@ == (NotesOverlayView {
                        text: nd.text@,
                        boss_name: nd.boss_name@,
                        lines: notes_lines(nd.text@),
                        ..old(self)@
                    })
                    &&& !changed ==> final(self)@ == old(self)@
                },
                _ => !r && final(self)@ == old(self)@,
            },
    {
        match data {
            OverlayData::Notes(data) => {
                let was_empty = self.data.text.as_str().is_empty();
                let is_empty = data.text.as_str().is_empty();
                let changed = self.data.text != data.text || self.data.boss_name != data.boss_name;
                if changed {
                    self.set_data(data);
                    true
                } else {
                    was_empty != is_empty
                }
            },
            _ => false,
        }
    }

    /// Takes a new configuration, background alpha and number format.
    pub fn update_config(&mut self, config: NotesConfig, alpha: u8, european: bool)
        ensures
            final(self)@ == (NotesOverlayView {
                config,
                background_alpha: alpha,
                european_number_format: european,
                ..old(self)@
            }),
    {
        self.set_config(config);
        self.set_background_alpha(alpha);
        self.european_number_format = european;
    }

    /// Parse the markdown text into renderable lines
    pub fn parse_lines(&mut self)
        ensures
            final(self)@ == (NotesOverlayView {
                lines: notes_lines(old(self)@.text),
                ..old(self)@
            }),
    {
        let text = chars_of_str(self.data.text.as_str());
        let ghost s = text@;
        let n = text.len();
        let mut lines: Vec<NotesLine> = Vec::new();
        let ghost mut raw: Seq<Seq<char>> = Seq::empty();
        let mut st: usize = 0;
        let mut i: usize = 0;
        proof {
            assert(s.skip(0) =~= s);
            assert(raw + text_lines(s) =~= text_lines(s));
            assert(line_views(lines@) =~= raw.map_values(|l: Seq<char>| line_to_note(l)));
        }
        while i < n
            invariant
                n == s.len(),
                text@ == s,
                0 <= st <= i <= n,
                forall|j: int| st <= j < i ==> s[j] != '\n',
                raw + text_lines(s.skip(st as int)) == text_lines(s),
                line_views(lines@) == raw.map_values(|l: Seq<char>| line_to_note(l)),
            decreases n - i,
        {
            if text[i] == '\n' {
                let mut en = i;
                if en > st && text[en - 1] == '\r' {
                    en = en - 1;
                }
                let piece = chars_between(text.as_slice(), st, en);
                let line = self.line_to_note_of(piece.as_slice());
                proof {
                    let rest = s.skip(st as int);
                    assert forall|j: int| 0 <= j < i - st implies rest[j] != '\n' by {
                        assert(rest[j] == s[j + st]);
                    }
                    lemma_index_of_char_at(rest, '\n', i - st);
                    assert(rest.take(i - st) =~= s.subrange(st as int, i as int));
                    assert(rest.skip(i - st + 1) =~= s.skip(i + 1));
                    assert(piece@ == strip_cr(rest.take(i - st))) by {
                        if i > st && s[i - 1] == '\r' {
                            assert(rest.take(i - st).drop_last() =~= s.subrange(st as int, i - 1));
                        }
                    }
                    let f = |l: Seq<char>| line_to_note(l);
                    assert(raw.push(piece@).map_values(f) =~= raw.map_values(f).push(f(piece@)));
                    assert(raw.push(piece@) + text_lines(s.skip(i + 1)) =~= raw + text_lines(rest));
                    raw = raw.push(piece@);
                }
                let ghost prev = lines@;
                lines.push(line);
                proof {
                    assert(line_views(lines@) =~= line_views(prev).push(line@));
                }
                st = i + 1;
            }
            i = i + 1;
        }
        let ghost rest = s.skip(st as int);
        proof {
            let f = |l: Seq<char>| line_to_note(l);
            lemma_index_of_char(rest, '\n');
            assert(index_of_char(rest, '\n') is None) by {
                if index_of_char(rest, '\n') is Some {
                    let j = index_of_char(rest, '\n')->0;
                    assert(rest[j] == s[j + st]);
                }
            }
            if st == n {
                assert(rest.len() == 0);
                assert(raw + text_lines(rest) =~= raw);
            }
        }
        if st < n {
            let piece = chars_between(text.as_slice(), st, n);
            let line = self.line_to_note_of(piece.as_slice());
            let ghost prev = lines@;
            lines.push(line);
            proof {
                let f = |l: Seq<char>| line_to_note(l);
                assert(piece@ =~= rest);
                assert(line_views(lines@) =~= line_views(prev).push(line@));
                assert(raw.push(rest).map_values(f) =~= raw.map_values(f).push(f(rest)));
                assert(raw + text_lines(rest) =~= raw.push(rest));
            }
        }
        self.lines = lines;
    }

    /// The line that a trimmed line of notes text becomes.
    /// The line that a line of notes text becomes.
    pub fn line_to_note_of(&self, l: &[char]) -> (r: NotesLine)
        ensures
            r@ == line_to_note(l@),
    {
        let n = l.len();
        let nested = n >= 4 && l[0] == ' ' && l[1] == ' ' && (l[2] == '-' || l[2] == '*') && l[3] == ' ';
        proof {
            if n >= 4 {
                assert(l@.take(4) =~= seq![l@[0], l@[1], l@[2], l@[3]]);
            }
            if nested_bullet(l@) {
                assert(l@.take(4)[0] == l@[0]);
                assert(l@.take(4)[1] == l@[1]);
                assert(l@.take(4)[2] == l@[2]);
                assert(l@.take(4)[3] == l@[3]);
            }
        }
        if nested {
            let after = chars_between(l, 4, n);
            let content = trim_chars(after.as_slice());
            let mut prefix: Vec<char> = Vec::new();
            prefix.push(' ');
            prefix.push(' ');
            prefix.push(' ');
            prefix.push(' ');
            prefix.push('\u{2022}');
            prefix.push(' ');
            proof {
                assert(after@ =~= l@.skip(4));
                assert(prefix@ =~= bullet_prefix(seq![' ', ' ', ' ', ' ']));
            }
            return self.item_line_of(&prefix, content.as_slice(), 2);
        }
        let trimmed = trim_chars(l);
        self.note_line_of(trimmed.as_slice())
    }

    pub fn note_line_of(&self, t: &[char]) -> (r: NotesLine)
        ensures
            r@ == note_line(t@),
    {
        let n = t.len();
        if n == 0 {
            // Keep empty lines for spacing
            let r = NotesLine { spans: Vec::new(), is_header: false, is_divider: false, indent: 0 };
            proof {
                assert(r@.spans =~= Seq::<SpanView>::empty());
            }
            return r;
        }
        // Check for horizontal divider (---, ***, ___)

        if is_divider_text(t) {
            let r = NotesLine { spans: Vec::new(), is_header: false, is_divider: true, indent: 0 };
            proof {
                assert(r@.spans =~= Seq::<SpanView>::empty());
            }
            return r;
        }
        // Check for headers (## Header)

        if starts_with_pair(t, '#', '#') {
            let mut k: usize = 0;
            while k < n && t[k] == '#'
                invariant
                    k <= n == t@.len(),
                    forall|j: int| 0 <= j < k ==> t@[j] == '#',
                decreases n - k,
            {
                k = k + 1;
            }
            proof {
                lemma_strip_leading_at(t@, '#', k as int);
            }
            let after = chars_between(t, k, n);
            let text = trim_chars(after.as_slice());
            let mut spans: Vec<TextSpan> = Vec::new();
            spans.push(TextSpan { text: string_of_chars(text.as_slice(), 0, text.len()), bold: true, italic: false });
            let r = NotesLine { spans, is_header: true, is_divider: false, indent: 0 };
            proof {
                assert(text@.subrange(0, text@.len() as int) =~= text@);
                assert(r@.spans =~= seq![SpanView { text: trim_ws(strip_leading(t@, '#')), bold: true, italic: false }]);
            }
            return r;
        }
        // Check for numbered lists (1. item, 2. item, etc.)

        if let Some((num, content)) = self.parse_numbered_list(t) {
            let mut prefix: Vec<char> = Vec::new();
            prefix.push(' ');
            prefix.push(' ');
            let mut i: usize = 0;
            while i < num.len()
                invariant
                    i <= num@.len(),
                    prefix@ == seq![' ', ' '] + num@.take(i as int),
                decreases num@.len() - i,
            {
                prefix.push(num[i]);
                i = i + 1;
                proof {
                    assert(prefix@ =~= seq![' ', ' '] + num@.take(i as int));
                }
            }
            prefix.push('.');
            prefix.push(' ');
            proof {
                assert(num@.take(num@.len() as int) =~= num@);
                assert(prefix@ =~= seq![' ', ' '] + num@ + seq!['.', ' ']);
            }
            return self.item_line_of(&prefix, content.as_slice(), 1);
        }
        // Check for bullet points (- item or * item, but not ** which is bold)

        if starts_with_pair(t, '-', ' ') || (starts_with_pair(t, '*', ' ') && !starts_with_pair(t, '*', '*')) {
            let after = chars_between(t, 2, n);
            let content = trim_chars(after.as_slice());
            let mut prefix: Vec<char> = Vec::new();
            prefix.push(' ');
            prefix.push(' ');
            prefix.push('\u{2022}');
            prefix.push(' ');
            proof {
                assert(after@ =~= t@.skip(2));
                assert(prefix@ =~= bullet_prefix(seq![' ', ' ']));
            }
            return self.item_line_of(&prefix, content.as_slice(), 1);
        }
        // Regular text - parse inline spans

        let spans = self.parse_inline_spans(t);
        NotesLine { spans, is_header: false, is_divider: false, indent: 0 }
    }

    /// A list line: its prefix as a plain span, then the content's spans.
    fn item_line_of(&self, prefix: &Vec<char>, content: &[char], indent: u8) -> (r: NotesLine)
        ensures
            r@ == item_line(prefix@, content@, indent),
    {
        let mut spans: Vec<TextSpan> = Vec::new();
        spans.push(TextSpan { text: string_of_chars(prefix.as_slice(), 0, prefix.len()), bold: false, italic: false });
        let mut rest = self.parse_inline_spans(content);
        let ghost rest0 = rest@;
        let ghost first = spans@;
        spans.append(&mut rest);
        proof {
            assert(prefix@.subrange(0, prefix@.len() as int) =~= prefix@);
            assert(spans@ =~= first + rest0);
            assert(span_views(spans@) =~= seq![plain(prefix@)] + span_views(rest0));
        }
        NotesLine { spans, is_header: false, is_divider: false, indent }
    }

    /// Parse inline formatting into styled spans
    pub fn parse_inline_spans(&self, text: &[char]) -> (r: Vec<TextSpan>)
        ensures
            span_views(r@) == inline_spans(text@),
    {
        let mut spans: Vec<TextSpan> = Vec::new();
        let mut current: Vec<char> = Vec::new();
        let mut in_bold = false;
        let mut in_italic = false;
        let n = text.len();
        let mut i: usize = 0;
        proof {
            assert(text@.skip(0) =~= text@);
            assert(span_views(spans@) =~= Seq::<SpanView>::empty());
            assert(current@ =~= Seq::<char>::empty());
        }
        while i < n
            invariant
                i <= n == text@.len(),
                scan_spans(text@.skip(i as int), scan_of(spans@, current@, in_bold, in_italic))
                    == scan_spans(text@, scan_start()),
            decreases n - i,
        {
            let ghost rest = text@.skip(i as int);
            // Check for ** (bold toggle)
            if i + 1 < n && text[i] == '*' && text[i + 1] == '*' {
                flush_span(&mut spans, &mut current, in_bold, in_italic);
                in_bold = !in_bold;
                i = i + 2;
                proof {
                    assert(rest[0] == text@[i - 2] && rest[1] == text@[i - 1]);
                    assert(rest.skip(2) =~= text@.skip(i as int));
                }
            } else if text[i] == '*' {
                // Check for single * (italic toggle) - but only if not part of **
                flush_span(&mut spans, &mut current, in_bold, in_italic);
                in_italic = !in_italic;
                i = i + 1;
                proof {
                    assert(rest[0] == text@[i - 1]);
                    if rest.len() >= 2 {
                        assert(rest[1] == text@[i as int]);
                    }
                    assert(rest.skip(1) =~= text@.skip(i as int));
                }
            } else {
                let c = text[i];
                current.push(c);
                i = i + 1;
                proof {
                    assert(rest[0] == c);
                    assert(rest.skip(1) =~= text@.skip(i as int));
                }
            }
        }
        proof {
            assert(text@.skip(n as int) =~= Seq::<char>::empty());
        }
        // Add remaining text
        flush_span(&mut spans, &mut current, in_bold, in_italic);
        // If no spans were created, return a single empty span
        if spans.len() == 0 {
            spans.push(TextSpan { text: String::new(), bold: false, italic: false });
            proof {
                assert(span_views(spans@) =~= seq![plain(Seq::empty())]);
            }
        }
        spans
    }

    /// Try to parse a numbered list item (e.g., "1. text"): the digits and
    /// the trimmed text after them.
    pub fn parse_numbered_list(&self, text: &[char]) -> (r: Option<(Vec<char>, Vec<char>)>)
        ensures
            match r {
                Some((num, content)) => numbered_item(text@) == Some((num@, content@)),
                None => numbered_item(text@) is None,
            },
    {
        let n = text.len();
        // Find the first dot
        let mut d: usize = 0;
        while d < n && text[d] != '.'
            invariant
                d <= n == text@.len(),
                forall|j: int| 0 <= j < d ==> text@[j] != '.',
            decreases n - d,
        {
            d = d + 1;
        }
        proof {
            lemma_index_of_char(text@, '.');
            if d < n {
                lemma_index_of_char_at(text@, '.', d as int);
            }
        }
        if d == n {
            return None;
        }
        // Check if everything before the dot is digits
        if d == 0 {
            return None;
        }
        let mut k: usize = 0;
        while k < d
            invariant
                k <= d < n == text@.len(),
                index_of_char(text@, '.') == Some(d as int),
                forall|j: int| 0 <= j < k ==> '0' <= #[trigger] text@[j] && text@[j] <= '9',
            decreases d - k,
        {
            if !('0' <= text[k] && text[k] <= '9') {
                proof {
                    assert(text@.take(d as int)[k as int] == text@[k as int]);
                }
                return None;
            }
            k = k + 1;
        }
        proof {
            assert forall|j: int| 0 <= j < d implies '0' <= #[trigger] text@.take(d as int)[j] && text@.take(d as int)[j] <= '9' by {
                assert(text@.take(d as int)[j] == text@[j]);
            }
        }
        // Check if there's a space after the dot
        if d + 1 >= n || text[d + 1] != ' ' {
            return None;
        }
        let num = chars_between(text, 0, d);
        let after = chars_between(text, d + 2, n);
        let content = trim_chars(after.as_slice());
        proof {
            assert(num@ =~= text@.take(d as int));
            assert(after@ =~= text@.skip(d + 2));
        }
        Some((num, content))
    }
}

/// The scan state of the executable inline parser.
pub open spec fn scan_of(spans: Seq<TextSpan>, current: Seq<char>, bold: bool, italic: bool) -> SpanScan {
    SpanScan { spans: span_views(spans), current, bold, italic }
}

/// Closes off the span being built, if it has any text.
fn flush_span(spans: &mut Vec<TextSpan>, current: &mut Vec<char>, bold: bool, italic: bool)
    ensures
        scan_of(final(spans)@, final(current)@, bold, italic) == flushed(
            scan_of(old(spans)@, old(current)@, bold, italic),
        ),
{
    if current.len() > 0 {
        let text = string_of_chars(current.as_slice(), 0, current.len());
        let ghost prev = spans@;
        spans.push(TextSpan { text, bold, italic });
        current.clear();
        proof {
            assert(old(current)@.subrange(0, old(current)@.len() as int) =~= old(current)@);
            assert(span_views(spans@) =~= span_views(prev).push(
                SpanView { text: old(current)@, bold, italic },
            ));
        }
    }
}

/// `t` is `---`, `***` or `___`.
fn is_divider_text(t: &[char]) -> (r: bool)
    ensures
        r == (t@ == seq!['-', '-', '-'] || t@ == seq!['*', '*', '*'] || t@ == seq!['_', '_', '_']),
{
    if t.len() != 3 {
        proof {
            assert(seq!['-', '-', '-'].len() == 3);
            assert(seq!['*', '*', '*'].len() == 3);
            assert(seq!['_', '_', '_'].len() == 3);
        }
        return false;
    }
    proof {
        assert(t@ =~= seq![t@[0], t@[1], t@[2]]);
    }
    (t[0] == '-' && t[1] == '-' && t[2] == '-') || (t[0] == '*' && t[1] == '*' && t[2] == '*') || (
    t[0] == '_' && t[1] == '_' && t[2] == '_')
}

/// `t` begins with the characters `a` then `b`.
fn starts_with_pair(t: &[char], a: char, b: char) -> (r: bool)
    ensures
        r == starts_with(t@, seq![a, b]),
{
    if t.len() < 2 {
        return false;
    }
    proof {
        assert(t@.take(2) =~= seq![t@[0], t@[1]]);
    }
    t[0] == a && t[1] == b
}

/// Leading `c`s up to `k` and none at `k`: stripping them drops exactly the
/// first `k` characters.
proof fn lemma_strip_leading_at(s: Seq<char>, c: char, k: int)
    requires
        0 <= k <= s.len(),
        forall|j: int| 0 <= j < k ==> s[j] == c,
        k == s.len() || s[k] != c,
    ensures
        strip_leading(s, c) == s.subrange(k, s.len() as int),
    decreases k,
{
    if k == 0 {
        assert(s.subrange(0, s.len() as int) =~= s);
    } else {
        let t = s.drop_first();
        assert forall|j: int| 0 <= j < k - 1 implies t[j] == c by {
            assert(t[j] == s[j + 1]);
        }
        lemma_strip_leading_at(t, c, k - 1);
        assert(t.subrange(k - 1, t.len() as int) =~= s.subrange(k, s.len() as int));
    }
}


// ───────────────────────── drawing ─────────────────────────

/// How large a piece of text is drawn, relative to the configured font size.
#[derive(Debug, Clone, Copy, PartialEq, Eq, Structural)]
pub enum TextSize {
    /// The configured size.
    Normal,
    /// The boss name above the notes, a little larger.
    BossHeader,
    /// A section header line, slightly larger.
    SectionHeader,
    /// The dashes of a divider, smaller.
    Divider,
}

/// A span as drawn: its text and whether it is bold or italic.
#[derive(Debug, Clone)]
pub struct StyledSpan {
    pub text: String,
    pub bold: bool,
    pub italic: bool,
}

/// One thing drawn by the notes overlay, top to bottom.
#[derive(Debug)]
pub enum NotesDrawItem {
    /// Text drawn with a glow: the placeholder, the boss name or a divider.
    Glowed { text: String, size: TextSize, color: [u8; 4] },
    /// Half a line of space, for an empty line.
    Gap,
    /// A line of spans drawn left to right, each after the previous one.
    Line { spans: Vec<StyledSpan>, size: TextSize, color: [u8; 4] },
}

/// Mathematical model of a [`NotesDrawItem`].
pub enum DrawView {
    Glowed { text: Seq<char>, size: TextSize, color: [u8; 4] },
    Gap,
    Line { spans: Seq<SpanView>, size: TextSize, color: [u8; 4] },
}

/// The view of a drawn span.
pub open spec fn styled_view(s: StyledSpan) -> SpanView {
    SpanView { text: s.text@, bold: s.bold, italic: s.italic }
}

/// The view of a drawn item.
pub open spec fn draw_view(d: NotesDrawItem) -> DrawView {
    match d {
        NotesDrawItem::Glowed { text, size, color } => DrawView::Glowed { text: text@, size, color },
        NotesDrawItem::Gap => DrawView::Gap,
        NotesDrawItem::Line { spans, size, color } => DrawView::Line {
            spans: spans@.map_values(|s: StyledSpan| styled_view(s)),
            size,
            color,
        },
    }
}

/// The views of the drawn items.
pub open spec fn draw_views(ds: Seq<NotesDrawItem>) -> Seq<DrawView> {
    ds.map_values(|d: NotesDrawItem| draw_view(d))
}

/// The text of a divider.
pub open spec fn divider_text() -> Seq<char> {
    "────────────────────────────"@
}

/// The colour of the placeholder shown when there are no notes.
pub open spec fn placeholder_color() -> [u8; 4] {
    [128, 128, 128, 128]
}

/// The colour of the boss name.
pub open spec fn boss_name_color() -> [u8; 4] {
    [255, 220, 100, 255]
}

/// The colour of a divider.
pub open spec fn divider_color() -> [u8; 4] {
    [100, 100, 100, 200]
}

/// The colour of a section header line.
pub open spec fn section_header_color() -> [u8; 4] {
    [200, 200, 255, 255]
}

/// Whether every span of a line is empty (so is a line with no span).
pub open spec fn all_spans_empty(spans: Seq<SpanView>) -> bool {
    forall|i: int| 0 <= i < spans.len() ==> (#[trigger] spans[i]).text.len() == 0
}

/// The spans of a line as drawn: the empty ones left out, and all of them
/// bold on a header line.
pub open spec fn drawn_spans(spans: Seq<SpanView>, header: bool) -> Seq<SpanView>
    decreases spans.len(),
{
    if spans.len() == 0 {
        Seq::empty()
    } else {
        let prev = drawn_spans(spans.drop_last(), header);
        let s = spans.last();
        if s.text.len() == 0 {
            prev
        } else {
            prev.push(SpanView { text: s.text, bold: s.bold || header, italic: s.italic })
        }
    }
}

/// How a parsed line is drawn.
pub open spec fn line_drawing(l: NotesLineView, font_color: [u8; 4]) -> DrawView {
    if l.is_divider {
        DrawView::Glowed { text: divider_text(), size: TextSize::Divider, color: divider_color() }
    } else if all_spans_empty(l.spans) {
        DrawView::Gap
    } else {
        DrawView::Line {
            spans: drawn_spans(l.spans, l.is_header),
            size: if l.is_header {
                TextSize::SectionHeader
            } else {
                TextSize::Normal
            },
            color: if l.is_header {
                section_header_color()
            } else {
                font_color
            },
        }
    }
}

/// What the overlay draws: a grey "No notes" when there is neither text nor
/// boss name; else the boss name, if any, then each parsed line.
pub open spec fn drawing(v: NotesOverlayView) -> Seq<DrawView> {
    if v.text.len() == 0 && v.boss_name.len() == 0 {
        seq![DrawView::Glowed { text: "No notes"@, size: TextSize::Normal, color: placeholder_color() }]
    } else {
        (if v.boss_name.len() == 0 {
            Seq::empty()
        } else {
            seq![DrawView::Glowed { text: v.boss_name, size: TextSize::BossHeader, color: boss_name_color() }]
        }) + v.lines.map_values(|l: NotesLineView| line_drawing(l, v.config.font_color))
    }
}

fn draw_line(line: &NotesLine, font_color: [u8; 4]) -> (r: NotesDrawItem)
    ensures
        draw_view(r) == line_drawing(line@, font_color),
{
    if line.is_divider {
        return NotesDrawItem::Glowed {
            text: String::from_str("────────────────────────────"),
            size: TextSize::Divider,
            color: [100, 100, 100, 200],
        };
    }
    let mut spans: Vec<StyledSpan> = Vec::new();
    let mut i: usize = 0;
    let ghost sv = line@.spans;
    while i < line.spans.len()
        invariant
            i <= line.spans.len(),
            sv == span_views(line.spans@),
            spans@.map_values(|s: StyledSpan| styled_view(s)) == drawn_spans(
                sv.take(i as int),
                line.is_header,
            ),
        decreases line.spans.len() - i,
    {
        proof {
            let t = sv.take(i as int + 1);
            assert(t.drop_last() =~= sv.take(i as int));
            assert(t.last() == line.spans@[i as int]@);
        }
        let span = &line.spans[i];
        if !span.text.as_str().is_empty() {
            spans.push(
                StyledSpan {
                    text: span.text.clone(),
                    bold: span.bold || line.is_header,
                    italic: span.italic,
                },
            );
            proof {
                assert(spans@.map_values(|s: StyledSpan| styled_view(s)) =~= drawn_spans(
                    sv.take(i as int),
                    line.is_header,
                ).push(SpanView { text: span.text@, bold: span.bold || line.is_header, italic: span.italic }));
            }
        }
        i += 1;
    }
    proof {
        assert(sv.take(i as int) =~= sv);
    }
    if spans.len() == 0 {
        proof {
            lemma_no_drawn_spans(sv, line.is_header);
        }
        return NotesDrawItem::Gap;
    }
    proof {
        if all_spans_empty(sv) {
            lemma_no_drawn_spans(sv, line.is_header);
        }
    }
    if line.is_header {
        NotesDrawItem::Line { spans, size: TextSize::SectionHeader, color: [200, 200, 255, 255] }
    } else {
        NotesDrawItem::Line { spans, size: TextSize::Normal, color: font_color }
    }
}

proof fn lemma_no_drawn_spans(spans: Seq<SpanView>, header: bool)
    ensures
        (drawn_spans(spans, header).len() == 0) == all_spans_empty(spans),
    decreases spans.len(),
{
    if spans.len() > 0 {
        let pre = spans.drop_last();
        lemma_no_drawn_spans(pre, header);
        if all_spans_empty(spans) {
            assert forall|i: int| 0 <= i < pre.len() implies (#[trigger] pre[i]).text.len() == 0 by {
                assert(pre[i] == spans[i]);
            }
        }
        if drawn_spans(spans, header).len() == 0 {
            assert forall|i: int| 0 <= i < spans.len() implies (#[trigger] spans[i]).text.len() == 0 by {
                if i < spans.len() - 1 {
                    assert(spans[i] == pre[i]);
                }
            }
        }
    }
}

impl NotesOverlay {
    /// What the overlay draws, top to bottom.  Placing the items, and leaving
    /// out those below the window's bottom edge, is the drawer's part.
    pub fn render(&self) -> (r: Vec<NotesDrawItem>)
        ensures
            draw_views(r@) == drawing(self@),
    {
        let mut r: Vec<NotesDrawItem> = Vec::new();
        if self.data.text.as_str().is_empty() && self.data.boss_name.as_str().is_empty() {
            r.push(
                NotesDrawItem::Glowed {
                    text: String::from_str("No notes"),
                    size: TextSize::Normal,
                    color: [128, 128, 128, 128],
                },
            );
            proof {
                assert(draw_views(r@) =~= drawing(self@));
            }
            return r;
        }
        if !self.data.boss_name.as_str().is_empty() {
            r.push(
                NotesDrawItem::Glowed {
                    text: self.data.boss_name.clone(),
                    size: TextSize::BossHeader,
                    color: [255, 220, 100, 255],
                },
            );
        }
        let ghost head = draw_views(r@);
        let ghost lv = self@.lines;
        let font_color = self.config.font_color;
        let mut i: usize = 0;
        while i < self.lines.len()
            invariant
                i <= self.lines.len(),
                lv == line_views(self.lines@),
                font_color == self@.config.font_color,
                draw_views(r@) == head + lv.take(i as int).map_values(
                    |l: NotesLineView| line_drawing(l, font_color),
                ),
            decreases self.lines.len() - i,
        {
            let item = draw_line(&self.lines[i], font_color);
            let ghost before = r@;
            let ghost drawn = draw_view(item);
            r.push(item);
            proof {
                assert(lv[i as int] == self.lines@[i as int]@);
                assert(draw_views(r@) =~= draw_views(before).push(drawn));
                assert(lv.take(i as int + 1).map_values(|l: NotesLineView| line_drawing(l, font_color))
                    =~= lv.take(i as int).map_values(|l: NotesLineView| line_drawing(l, font_color)).push(
                    line_drawing(lv[i as int], font_color),
                ));
                assert(draw_views(r@) =~= head + lv.take(i as int + 1).map_values(
                    |l: NotesLineView| line_drawing(l, font_color),
                ));
            }
            i += 1;
        }
        proof {
            assert(lv.take(i as int) =~= lv);
            assert(draw_views(r@) =~= drawing(self@));
        }
        r
    }
}

/// The notes an editor saves for an encounter: none when the text is blank
/// (only whitespace), else the text as written.
pub fn notes_to_save(text: String) -> (r: Option<String>)
    ensures
        trim_ws(text@).len() == 0 ==> r is None,
        trim_ws(text@).len() != 0 ==> (r matches Some(t) && t@ == text@),
{
    let chars = chars_of_str(text.as_str());
    let trimmed = trim_chars(chars.as_slice());
    if trimmed.len() == 0 {
        None
    } else {
        Some(text)
    }
}

} // verus!
