//! WebVTT subtitle tracks.
//!
//! A track is read into cues, each with its timing and text.

use crate::scan;
use crate::text;
use vstd::prelude::*;

pub mod laws;

verus! {

/// A single cue with timing and text.
#[derive(Debug, Clone)]
pub struct WebVttCue {
    pub id: Option<String>,
    pub start_ms: u64,
    pub end_ms: u64,
    pub text: String,
    pub settings: Option<String>,
}

/// A parsed track.
#[derive(Debug, Clone)]
pub struct WebVttDocument {
    pub cues: Vec<WebVttCue>,
}

impl Default for WebVttDocument {
    fn default() -> (doc: Self)
        ensures
            doc.cues@ == Seq::<WebVttCue>::empty(),
    {
        WebVttDocument { cues: Vec::new() }
    }
}

#[derive(Debug)]
pub enum WebVttError {
    InvalidTimestamp(String),
    MissingTimestamps,
    InvalidFormat(String),
}

impl WebVttError {
    /// What the error says.
    pub fn message(&self) -> (r: String)
        ensures
            r@ == match self {
                WebVttError::InvalidTimestamp(s) => "invalid timestamp: "@ + s@,
                WebVttError::MissingTimestamps => "missing timestamps in cue"@,
                WebVttError::InvalidFormat(s) => "invalid WebVTT format: "@ + s@,
            },
    {
        match self {
            WebVttError::InvalidTimestamp(s) => "invalid timestamp: ".to_string().concat(
                s.as_str(),
            ),
            WebVttError::MissingTimestamps => "missing timestamps in cue".to_string(),
            WebVttError::InvalidFormat(s) => "invalid WebVTT format: ".to_string().concat(
                s.as_str(),
            ),
        }
    }
}

/// What a timestamp says.
pub enum Moment {
    /// It is no timestamp.
    Invalid,
    /// It is a timestamp that has no reading: its milliseconds exceed 64 bits, or
    /// the third byte of its fraction ends inside a character.
    Unreadable,
    /// Milliseconds from the start.
    At(u64),
}

/// The number of bytes that `c` takes in UTF-8.
pub open spec fn utf8_len(c: char) -> nat {
    if (c as u32) < 0x80 {
        1
    } else if (c as u32) < 0x800 {
        2
    } else if (c as u32) < 0x10000 {
        3
    } else {
        4
    }
}

/// `s` with zeros behind it up to three characters.
pub open spec fn zero_padded(s: Seq<char>) -> Seq<char> {
    if s.len() >= 3 {
        s
    } else if s.len() == 2 {
        s.push('0')
    } else if s.len() == 1 {
        s.push('0').push('0')
    } else {
        seq!['0', '0', '0']
    }
}

/// The first characters of `s` that take three bytes together, where there are
/// such.
pub open spec fn three_bytes(s: Seq<char>) -> Option<Seq<char>>
    recommends
        s.len() >= 3,
{
    if utf8_len(s[0]) == 3 {
        Some(s.take(1))
    } else if utf8_len(s[0]) + utf8_len(s[1]) == 3 {
        Some(s.take(2))
    } else if utf8_len(s[0]) + utf8_len(s[1]) + utf8_len(s[2]) == 3 {
        Some(s.take(3))
    } else {
        None
    }
}

/// The milliseconds that a fraction of a second writes: its first three bytes as
/// a number, zero where they write none. `None` where those bytes end inside a
/// character.
pub open spec fn fraction_millis(f: Seq<char>) -> Option<u64> {
    match three_bytes(zero_padded(f)) {
        Some(d) => match text::unsigned_value(d) {
            Some(v) => Some(v),
            None => Some(0),
        },
        None => None,
    }
}

/// The seconds of a timestamp, in milliseconds: whole seconds, and a fraction
/// behind a full stop.
pub open spec fn seconds_moment(minutes_ms: int, s: Seq<char>) -> Moment {
    let parts = text::split(s, '.');
    match text::unsigned_value(parts[0]) {
        Some(secs) => {
            let millis = if parts.len() > 1 {
                fraction_millis(parts[1])
            } else {
                Some(0)
            };
            match millis {
                Some(ms) => if minutes_ms + secs * 1000 + ms <= u64::MAX {
                    Moment::At((minutes_ms + secs * 1000 + ms) as u64)
                } else {
                    Moment::Unreadable
                },
                None => Moment::Unreadable,
            }
        },
        None => Moment::Invalid,
    }
}

/// What the timestamp `ts` says: hours, minutes and seconds, or minutes and
/// seconds, with colons between them.
pub open spec fn moment(ts: Seq<char>) -> Moment {
    let parts = text::split(text::trim(ts), ':');
    if parts.len() == 3 {
        match (text::unsigned_value(parts[0]), text::unsigned_value(parts[1])) {
            (Some(hours), Some(mins)) => seconds_moment(
                hours * 3600000 + mins * 60000,
                parts[2],
            ),
            _ => Moment::Invalid,
        }
    } else if parts.len() == 2 {
        match text::unsigned_value(parts[0]) {
            Some(mins) => seconds_moment(mins * 60000, parts[1]),
            None => Moment::Invalid,
        }
    } else {
        Moment::Invalid
    }
}

fn byte_len(c: char) -> (n: usize)
    ensures
        n == utf8_len(c),
{
    let code = c as u32;
    if code < 0x80 {
        1
    } else if code < 0x800 {
        2
    } else if code < 0x10000 {
        3
    } else {
        4
    }
}

fn read_fraction(f: &Vec<char>) -> (r: Option<u64>)
    ensures
        r == fraction_millis(f@),
{
    let mut p = scan::slice_of(f, 0, f.len());
    assert(p@ =~= f@ + Seq::new(0, |j: int| '0'));
    while p.len() < 3
        invariant
            p@.len() >= f@.len(),
            p@ == f@ + Seq::new((p@.len() - f@.len()) as nat, |j: int| '0'),
            p@.len() > f@.len() ==> p@.len() <= 3,
        decreases 3 - p.len(),
    {
        p.push('0');
        assert(p@ =~= f@ + Seq::new((p@.len() - f@.len()) as nat, |j: int| '0'));
    }
    proof {
        assert(p@ =~= zero_padded(f@));
    }
    let a = byte_len(p[0]);
    let b = byte_len(p[1]);
    let c = byte_len(p[2]);
    let n: usize = if a == 3 {
        1
    } else if a + b == 3 {
        2
    } else if a + b + c == 3 {
        3
    } else {
        return None;
    };
    let d = scan::slice_of(&p, 0, n);
    assert(d@ =~= p@.take(n as int));
    match scan::read_unsigned(&d) {
        Some(v) => Some(v),
        None => Some(0),
    }
}

/// Adds the seconds `s` to `minutes_ms` milliseconds, which are `None` where they
/// exceed 64 bits.
fn read_seconds(minutes_ms: Option<u64>, Ghost(exact): Ghost<int>, s: &Vec<char>) -> (r: Moment)
    requires
        0 <= exact,
        match minutes_ms {
            Some(m) => m == exact,
            None => exact > u64::MAX,
        },
    ensures
        r == seconds_moment(exact, s@),
{
    let parts = scan::split_at(s, '.');
    proof {
        text::lemma_split_nonempty(s@, '.');
        assert(scan::spelled(parts@)[0] == parts@[0]@);
        if parts@.len() > 1 {
            assert(scan::spelled(parts@)[1] == parts@[1]@);
        }
    }
    let secs = match scan::read_unsigned(&parts[0]) {
        Some(v) => v,
        None => {
            return Moment::Invalid;
        },
    };
    let millis: Option<u64> = if parts.len() > 1 {
        read_fraction(&parts[1])
    } else {
        Some(0)
    };
    let ms = match millis {
        Some(v) => v,
        None => {
            return Moment::Unreadable;
        },
    };
    let base = match minutes_ms {
        Some(m) => m,
        None => {
            return Moment::Unreadable;
        },
    };
    match secs.checked_mul(1000) {
        Some(a) => match base.checked_add(a) {
            Some(b) => match b.checked_add(ms) {
                Some(total) => Moment::At(total),
                None => Moment::Unreadable,
            },
            None => Moment::Unreadable,
        },
        None => Moment::Unreadable,
    }
}

/// Reads a timestamp, whatever it holds.
pub fn read_timestamp(ts: &str) -> (r: Moment)
    ensures
        r == moment(ts@),
{
    let chars = scan::chars_of(ts);
    let t = scan::trimmed(&chars);
    let parts = scan::split_at(&t, ':');
    proof {
        assert forall|i: int| 0 <= i < parts@.len() implies #[trigger] parts@[i]@
            == scan::spelled(parts@)[i] by {}
    }
    if parts.len() == 3 {
        let hours = match scan::read_unsigned(&parts[0]) {
            Some(v) => v,
            None => {
                return Moment::Invalid;
            },
        };
        let mins = match scan::read_unsigned(&parts[1]) {
            Some(v) => v,
            None => {
                return Moment::Invalid;
            },
        };
        let base: Option<u64> = match (hours.checked_mul(3600000), mins.checked_mul(60000)) {
            (Some(a), Some(b)) => a.checked_add(b),
            _ => None,
        };
        read_seconds(base, Ghost(hours * 3600000 + mins * 60000), &parts[2])
    } else if parts.len() == 2 {
        let mins = match scan::read_unsigned(&parts[0]) {
            Some(v) => v,
            None => {
                return Moment::Invalid;
            },
        };
        read_seconds(mins.checked_mul(60000), Ghost(mins * 60000), &parts[1])
    } else {
        Moment::Invalid
    }
}

/// Parses a timestamp (`HH:MM:SS.mmm` or `MM:SS.mmm`) into milliseconds.
pub fn parse_timestamp(ts: &str) -> (r: Result<u64, WebVttError>)
    requires
        moment(ts@) !is Unreadable,
    ensures
        match moment(ts@) {
            Moment::At(ms) => r == Ok::<u64, WebVttError>(ms),
            _ => r matches Err(WebVttError::InvalidTimestamp(s)) && s@ == text::trim(ts@),
        },
{
    match read_timestamp(ts) {
        Moment::At(ms) => Ok(ms),
        _ => {
            let chars = scan::chars_of(ts);
            let t = scan::trimmed(&chars);
            Err(WebVttError::InvalidTimestamp(scan::string_of(&t)))
        },
    }
}

/// The outcome of reading a part of a track.
pub enum Reading<T, E> {
    Done(T),
    Failed(E),
    /// A timestamp has no reading.
    Unreadable,
}

/// What a cue says.
pub struct CueView {
    pub id: Option<Seq<char>>,
    pub start_ms: u64,
    pub end_ms: u64,
    pub text: Seq<char>,
    pub settings: Option<Seq<char>>,
}

/// What an error says.
pub enum ErrorView {
    InvalidTimestamp(Seq<char>),
    MissingTimestamps,
    InvalidFormat(Seq<char>),
}

impl View for WebVttCue {
    type V = CueView;

    open spec fn view(&self) -> CueView {
        CueView {
            id: text::optional(self.id),
            start_ms: self.start_ms,
            end_ms: self.end_ms,
            text: self.text@,
            settings: text::optional(self.settings),
        }
    }
}

impl View for WebVttError {
    type V = ErrorView;

    open spec fn view(&self) -> ErrorView {
        match self {
            WebVttError::InvalidTimestamp(s) => ErrorView::InvalidTimestamp(s@),
            WebVttError::MissingTimestamps => ErrorView::MissingTimestamps,
            WebVttError::InvalidFormat(s) => ErrorView::InvalidFormat(s@),
        }
    }
}

impl View for WebVttDocument {
    type V = Seq<CueView>;

    open spec fn view(&self) -> Seq<CueView> {
        self.cues@.map_values(|c: WebVttCue| c@)
    }
}

/// What a timestamp contributes to a cue.
pub open spec fn timestamp_reading(ts: Seq<char>) -> Reading<u64, ErrorView> {
    match moment(ts) {
        Moment::At(ms) => Reading::Done(ms),
        Moment::Invalid => Reading::Failed(ErrorView::InvalidTimestamp(text::trim(ts))),
        Moment::Unreadable => Reading::Unreadable,
    }
}

/// Whether a line holds an arrow.
pub open spec fn has_arrow(line: Seq<char>) -> bool {
    text::find(line, "-->"@) is Some
}

/// What stands before the first arrow of a timing line.
pub open spec fn start_part(line: Seq<char>) -> Seq<char> {
    line.take(text::find(line, "-->"@)->0)
}

/// The first word between the first arrow of a timing line and the next one.
pub open spec fn end_part(line: Seq<char>) -> Seq<char> {
    let rest = line.skip(text::find(line, "-->"@)->0 + 3);
    match text::find(rest, "-->"@) {
        Some(j) => text::first_word(rest.take(j)),
        None => text::first_word(rest),
    }
}

/// The cue with the given timing line.
pub open spec fn cue_reading(
    id: Option<Seq<char>>,
    settings: Option<Seq<char>>,
    timing: Seq<char>,
    cue_text: Seq<char>,
) -> Reading<CueView, ErrorView> {
    if !has_arrow(timing) {
        Reading::Failed(ErrorView::MissingTimestamps)
    } else {
        match timestamp_reading(start_part(timing)) {
            Reading::Done(start_ms) => match timestamp_reading(end_part(timing)) {
                Reading::Done(end_ms) => Reading::Done(
                    CueView { id, start_ms, end_ms, text: cue_text, settings },
                ),
                Reading::Failed(e) => Reading::Failed(e),
                Reading::Unreadable => Reading::Unreadable,
            },
            Reading::Failed(e) => Reading::Failed(e),
            Reading::Unreadable => Reading::Unreadable,
        }
    }
}

fn timestamp_of(ts: &Vec<char>) -> (r: Reading<u64, WebVttError>)
    ensures
        match r {
            Reading::Done(ms) => timestamp_reading(ts@) == Reading::<u64, ErrorView>::Done(ms),
            Reading::Failed(e) => timestamp_reading(ts@) == Reading::<u64, ErrorView>::Failed(e@),
            Reading::Unreadable => timestamp_reading(ts@) is Unreadable,
        },
{
    let s = scan::string_of(ts);
    match read_timestamp(s.as_str()) {
        Moment::At(ms) => Reading::Done(ms),
        Moment::Unreadable => Reading::Unreadable,
        Moment::Invalid => {
            let t = scan::trimmed(ts);
            Reading::Failed(WebVttError::InvalidTimestamp(scan::string_of(&t)))
        },
    }
}

/// The outcome that `r` stands for.
pub open spec fn cue_outcome(r: Reading<WebVttCue, WebVttError>) -> Reading<CueView, ErrorView> {
    match r {
        Reading::Done(c) => Reading::Done(c@),
        Reading::Failed(e) => Reading::Failed(e@),
        Reading::Unreadable => Reading::Unreadable,
    }
}

/// Reads a cue, whatever its timestamps hold.
fn read_cue(
    id: Option<String>,
    settings: Option<String>,
    timing: &Vec<char>,
    cue_text: String,
) -> (r: Reading<WebVttCue, WebVttError>)
    ensures
        cue_outcome(r) == cue_reading(
            text::optional(id),
            text::optional(settings),
            timing@,
            cue_text@,
        ),
{
    proof {
        reveal_strlit("-->");
        assert("-->"@.len() == 3);
    }
    let at = match scan::find_text(timing, "-->") {
        Some(i) => i,
        None => {
            return Reading::Failed(WebVttError::MissingTimestamps);
        },
    };
    assert(at + 3 <= timing.len());
    let first = scan::slice_of(timing, 0, at);
    let rest = scan::slice_of(timing, at + 3, timing.len());
    proof {
        assert(first@ =~= start_part(timing@));
        assert(rest@ =~= timing@.skip(at + 3));
    }
    let start_ms = match timestamp_of(&first) {
        Reading::Done(ms) => ms,
        Reading::Failed(e) => {
            return Reading::Failed(e);
        },
        Reading::Unreadable => {
            return Reading::Unreadable;
        },
    };
    let last = match scan::find_text(&rest, "-->") {
        Some(j) => {
            let piece = scan::slice_of(&rest, 0, j);
            assert(piece@ =~= rest@.take(j as int));
            scan::leading_word(&piece)
        },
        None => scan::leading_word(&rest),
    };
    match timestamp_of(&last) {
        Reading::Done(end_ms) => Reading::Done(
            WebVttCue { id, start_ms, end_ms, text: cue_text, settings },
        ),
        Reading::Failed(e) => Reading::Failed(e),
        Reading::Unreadable => Reading::Unreadable,
    }
}

/// What `parse_cue` reads: the cue that the first of the timestamp lines times.
pub open spec fn lines_reading(
    id: Option<Seq<char>>,
    settings: Option<Seq<char>>,
    timestamp_lines: Seq<Seq<char>>,
    text_lines: Seq<Seq<char>>,
) -> Reading<CueView, ErrorView> {
    if timestamp_lines.len() == 0 {
        Reading::Failed(ErrorView::MissingTimestamps)
    } else {
        cue_reading(id, settings, timestamp_lines[0], text::join_lines(text_lines))
    }
}

/// Parses a cue out of its timestamp lines, of which the first counts, and its
/// lines of text.
pub fn parse_cue(
    id: Option<String>,
    settings: Option<String>,
    timestamp_lines: &[String],
    text_lines: &[String],
) -> (r: Result<Option<WebVttCue>, WebVttError>)
    requires
        lines_reading(
            text::optional(id),
            text::optional(settings),
            text::texts(timestamp_lines@),
            text::texts(text_lines@),
        ) !is Unreadable,
    ensures
        match lines_reading(
            text::optional(id),
            text::optional(settings),
            text::texts(timestamp_lines@),
            text::texts(text_lines@),
        ) {
            Reading::Done(c) => r matches Ok(Some(cue)) && cue@ == c,
            Reading::Failed(e) => r matches Err(f) && f@ == e,
            Reading::Unreadable => false,
        },
{
    if timestamp_lines.len() == 0 {
        return Err(WebVttError::MissingTimestamps);
    }
    let timing = scan::chars_of(timestamp_lines[0].as_str());
    let mut pieces: Vec<Vec<char>> = Vec::new();
    let mut i: usize = 0;
    while i < text_lines.len()
        invariant
            i <= text_lines.len(),
            scan::spelled(pieces@) == text::texts(text_lines@).take(i as int),
        decreases text_lines.len() - i,
    {
        let ghost before = pieces@;
        pieces.push(scan::chars_of(text_lines[i].as_str()));
        i += 1;
        assert(scan::spelled(pieces@) =~= scan::spelled(before).push(text_lines@[i - 1]@));
        assert(text::texts(text_lines@).take(i as int) =~= text::texts(text_lines@).take(
            i - 1,
        ).push(text_lines@[i - 1]@));
    }
    assert(text::texts(text_lines@).take(i as int) =~= text::texts(text_lines@));
    let joined = scan::joined_lines(&pieces);
    let cue_text = scan::string_of(&joined);
    assert(text::texts(timestamp_lines@)[0] == timing@);
    match read_cue(id, settings, &timing, cue_text) {
        Reading::Done(cue) => Ok(Some(cue)),
        Reading::Failed(e) => Err(e),
        Reading::Unreadable => Err(WebVttError::MissingTimestamps),
    }
}

/// Whether a line of a cue gives settings: what precedes its first colon names
/// one.
pub open spec fn is_setting(line: Seq<char>) -> bool {
    match text::position(line, ':') {
        Some(i) => {
            let name = text::trim(line.take(i));
            name == "position"@ || name == "line"@ || name == "align"@ || name == "size"@
        },
        None => false,
    }
}

/// `ls` from the first line on that is no note.
pub open spec fn drop_notes(ls: Seq<Seq<char>>) -> Seq<Seq<char>>
    decreases ls.len(),
{
    if ls.len() > 0 && text::starts_with(ls[0], "NOTE"@) {
        drop_notes(ls.drop_first())
    } else {
        ls
    }
}

/// The first line from `i` on that holds an arrow.
pub open spec fn timing_from(block: Seq<Seq<char>>, i: int) -> Option<int>
    decreases block.len() - i,
{
    if i >= block.len() {
        None
    } else if has_arrow(block[i]) {
        Some(i)
    } else {
        timing_from(block, i + 1)
    }
}

/// The lines behind the timing line that hold no arrow.
pub open spec fn cue_lines(after: Seq<Seq<char>>) -> Seq<Seq<char>> {
    after.filter(|l: Seq<char>| !has_arrow(l))
}

/// The settings of a cue: its last line that gives settings.
pub open spec fn cue_settings(after: Seq<Seq<char>>) -> Option<Seq<char>> {
    let given = cue_lines(after).filter(|l: Seq<char>| is_setting(l));
    if given.len() > 0 {
        Some(given.last())
    } else {
        None
    }
}

/// The text of a cue: its other lines, without notes in front of them.
pub open spec fn cue_text_lines(after: Seq<Seq<char>>) -> Seq<Seq<char>> {
    drop_notes(cue_lines(after).filter(|l: Seq<char>| !is_setting(l)))
}

/// The cue of a block of lines: its first line with an arrow gives the timing, the
/// line before that one the name. A block without an arrow has none.
pub open spec fn block_reading(block: Seq<Seq<char>>) -> Option<Reading<CueView, ErrorView>> {
    match timing_from(block, 0) {
        Some(k) => Some(
            cue_reading(
                if k > 0 {
                    Some(block[k - 1])
                } else {
                    None
                },
                cue_settings(block.skip(k + 1)),
                block[k],
                text::join_lines(cue_text_lines(block.skip(k + 1))),
            ),
        ),
        None => None,
    }
}

/// One line more behind the others: it is dropped only where all were and it is a
/// note too.
proof fn lemma_drop_notes_push(ls: Seq<Seq<char>>, l: Seq<char>)
    ensures
        drop_notes(ls.push(l)) == if drop_notes(ls).len() == 0 && text::starts_with(l, "NOTE"@) {
            Seq::empty()
        } else {
            drop_notes(ls).push(l)
        },
    decreases ls.len(),
{
    if ls.len() == 0 {
        assert(ls.push(l).drop_first() =~= Seq::empty());
        assert(ls =~= Seq::empty());
        assert(ls.push(l) =~= Seq::<Seq<char>>::empty().push(l));
    } else if text::starts_with(ls[0], "NOTE"@) {
        assert(ls.push(l).drop_first() =~= ls.drop_first().push(l));
        lemma_drop_notes_push(ls.drop_first(), l);
    }
}

/// How one line more changes the parts of a cue.
proof fn lemma_cue_line(after: Seq<Seq<char>>, l: Seq<char>)
    ensures
        has_arrow(l) ==> cue_settings(after.push(l)) == cue_settings(after) && cue_text_lines(
            after.push(l),
        ) == cue_text_lines(after),
        !has_arrow(l) && is_setting(l) ==> cue_settings(after.push(l)) == Some(l)
            && cue_text_lines(after.push(l)) == cue_text_lines(after),
        !has_arrow(l) && !is_setting(l) ==> cue_settings(after.push(l)) == cue_settings(after)
            && cue_text_lines(after.push(l)) == if cue_text_lines(after).len() == 0
            && text::starts_with(l, "NOTE"@) {
            Seq::empty()
        } else {
            cue_text_lines(after).push(l)
        },
{
    reveal(Seq::filter);
    assert(after.push(l).drop_last() =~= after);
    let kept = cue_lines(after);
    if !has_arrow(l) {
        assert(cue_lines(after.push(l)) == kept.push(l));
        assert(kept.push(l).drop_last() =~= kept);
        if !is_setting(l) {
            lemma_drop_notes_push(kept.filter(|x: Seq<char>| !is_setting(x)), l);
        }
    }
}

/// Whether `line` gives settings.
fn gives_settings(line: &Vec<char>) -> (r: bool)
    ensures
        r == is_setting(line@),
{
    match scan::position_of(line, ':') {
        Some(i) => {
            let before = scan::slice_of(line, 0, i);
            assert(before@ =~= line@.take(i as int));
            let name = scan::trimmed(&before);
            scan::equals_str(&name, "position") || scan::equals_str(&name, "line")
                || scan::equals_str(&name, "align") || scan::equals_str(&name, "size")
        },
        None => false,
    }
}

/// The outcome that `r` stands for.
pub open spec fn block_outcome(
    r: Option<Reading<WebVttCue, WebVttError>>,
) -> Option<Reading<CueView, ErrorView>> {
    match r {
        Some(c) => Some(cue_outcome(c)),
        None => None,
    }
}

/// Reads the cue of the lines from `from` up to `to`.
fn read_block(body: &Vec<Vec<char>>, from: usize, to: usize) -> (r: Option<
    Reading<WebVttCue, WebVttError>,
>)
    requires
        from <= to <= body.len(),
    ensures
        block_outcome(r) == block_reading(
            scan::spelled(body@).subrange(from as int, to as int),
        ),
{
    let ghost block = scan::spelled(body@).subrange(from as int, to as int);
    let mut k: usize = from;
    while k < to && scan::find_text(&body[k], "-->").is_none()
        invariant
            from <= k <= to <= body.len(),
            block == scan::spelled(body@).subrange(from as int, to as int),
            timing_from(block, 0) == timing_from(block, k - from),
        decreases to - k,
    {
        k += 1;
    }
    if k == to {
        return None;
    }
    assert(block[k - from] == body@[k as int]@);
    let id: Option<String> = if k > from {
        assert(block[k - from - 1] == body@[k - 1]@);
        Some(scan::string_of(&body[k - 1]))
    } else {
        None
    };
    let ghost after = block.skip(k - from + 1);
    let mut settings: Option<String> = None;
    let mut lines: Vec<Vec<char>> = Vec::new();
    let mut j: usize = k + 1;
    proof {
        reveal(Seq::filter);
        assert(after.take(0) =~= Seq::empty());
        assert(scan::spelled(lines@) =~= Seq::empty());
    }
    while j < to
        invariant
            from <= k < j <= to <= body.len(),
            block == scan::spelled(body@).subrange(from as int, to as int),
            after == block.skip(k - from + 1),
            text::optional(settings) == cue_settings(after.take(j - k - 1)),
            scan::spelled(lines@) == cue_text_lines(after.take(j - k - 1)),
        decreases to - j,
    {
        let ghost seen = after.take(j - k - 1);
        let ghost before = lines@;
        let line = &body[j];
        proof {
            assert(after[j - k - 1] == line@);
            assert(after.take(j - k) =~= seen.push(line@));
            lemma_cue_line(seen, line@);
        }
        if scan::find_text(line, "-->").is_none() {
            if lines.len() == 0 && scan::begins_with(line, "NOTE") {
                proof {
                    lemma_note_is_no_setting(line@);
                }
            } else if gives_settings(line) {
                settings = Some(scan::string_of(line));
            } else {
                lines.push(scan::slice_of(line, 0, line.len()));
                proof {
                    assert(line@.subrange(0, line@.len() as int) =~= line@);
                    assert(scan::spelled(lines@) =~= scan::spelled(before).push(line@));
                }
            }
        }
        j += 1;
    }
    assert(after.take(j - k - 1) =~= after);
    let joined = scan::joined_lines(&lines);
    let cue_text = scan::string_of(&joined);
    Some(read_cue(id, settings, &body[k], cue_text))
}

/// A note gives no settings: what precedes its colon begins with `NOTE`.
proof fn lemma_note_is_no_setting(l: Seq<char>)
    requires
        text::starts_with(l, "NOTE"@),
    ensures
        !is_setting(l),
{
    reveal_strlit("NOTE");
    reveal_strlit("position");
    reveal_strlit("line");
    reveal_strlit("align");
    reveal_strlit("size");
    assert(l.subrange(0, 4)[0] == 'N');
    if let Some(i) = text::position(l, ':') {
        text::lemma_position(l, ':');
        let name = l.take(i);
        text::lemma_trim_start(name);
        text::lemma_trim_end(text::trim_start(name));
        if i > 0 {
            assert(name[0] == 'N');
            assert(text::trim_start(name) == name);
            assert(text::trim(name).len() > 0 ==> text::trim(name)[0] == 'N');
        }
    }
}

/// The lines behind the first blank one.
pub open spec fn after_header(ls: Seq<Seq<char>>) -> Seq<Seq<char>>
    decreases ls.len(),
{
    if ls.len() == 0 {
        ls
    } else if text::is_blank(ls[0]) {
        ls.drop_first()
    } else {
        after_header(ls.drop_first())
    }
}

/// The first blank line from `i` on.
pub open spec fn blank_from(ls: Seq<Seq<char>>, i: int) -> Option<int>
    decreases ls.len() - i,
{
    if i >= ls.len() {
        None
    } else if text::is_blank(ls[i]) {
        Some(i)
    } else {
        blank_from(ls, i + 1)
    }
}

/// The runs of lines between the blank ones.
pub open spec fn blocks(ls: Seq<Seq<char>>) -> Seq<Seq<Seq<char>>>
    decreases ls.len(),
{
    match blank_from(ls, 0) {
        Some(k) => if 0 <= k < ls.len() {
            seq![ls.take(k)] + blocks(ls.skip(k + 1))
        } else {
            seq![ls]
        },
        None => seq![ls],
    }
}

/// The cues of the blocks in order, or the first failure among them.
pub open spec fn blocks_reading(bs: Seq<Seq<Seq<char>>>) -> Reading<Seq<CueView>, ErrorView>
    decreases bs.len(),
{
    if bs.len() == 0 {
        Reading::Done(Seq::empty())
    } else {
        match block_reading(bs[0]) {
            None => blocks_reading(bs.drop_first()),
            Some(Reading::Done(c)) => with_cues(seq![c], blocks_reading(bs.drop_first())),
            Some(Reading::Failed(e)) => Reading::Failed(e),
            Some(Reading::Unreadable) => Reading::Unreadable,
        }
    }
}

/// `cues` in front of what was read.
pub open spec fn with_cues(
    cues: Seq<CueView>,
    r: Reading<Seq<CueView>, ErrorView>,
) -> Reading<Seq<CueView>, ErrorView> {
    match r {
        Reading::Done(cs) => Reading::Done(cues + cs),
        _ => r,
    }
}

/// A track without the byte order mark that it may begin with.
pub open spec fn unmarked(input: Seq<char>) -> Seq<char> {
    if input.len() > 0 && input[0] == '\u{feff}' {
        input.drop_first()
    } else {
        input
    }
}

/// The lines of a track from its header line on.
pub open spec fn header_lines(input: Seq<char>) -> Seq<Seq<char>> {
    text::lines(unmarked(input))
}

/// The lines without white space at their ends.
pub open spec fn trimmed(ls: Seq<Seq<char>>) -> Seq<Seq<char>> {
    ls.map_values(|l: Seq<char>| text::trim_end(l))
}

/// The lines of the cues, without white space at their ends.
pub open spec fn body_lines(input: Seq<char>) -> Seq<Seq<char>> {
    trimmed(after_header(header_lines(input).drop_first()))
}

/// What the track `input` says.
pub open spec fn document(input: Seq<char>) -> Reading<Seq<CueView>, ErrorView> {
    let ls = header_lines(input);
    if ls.len() == 0 {
        Reading::Done(Seq::empty())
    } else if !text::starts_with(text::trim_start(ls[0]), "WEBVTT"@) {
        Reading::Failed(ErrorView::InvalidFormat("missing WEBVTT header"@))
    } else {
        blocks_reading(blocks(body_lines(input)))
    }
}

/// The outcome that `r` stands for.
pub open spec fn document_outcome(r: Reading<WebVttDocument, WebVttError>) -> Reading<
    Seq<CueView>,
    ErrorView,
> {
    match r {
        Reading::Done(d) => Reading::Done(d@),
        Reading::Failed(e) => Reading::Failed(e@),
        Reading::Unreadable => Reading::Unreadable,
    }
}

/// Reads the cues of `body`, the lines behind the header.
fn read_body(body: &Vec<Vec<char>>) -> (r: Reading<WebVttDocument, WebVttError>)
    ensures
        document_outcome(r) == blocks_reading(blocks(scan::spelled(body@))),
{
    let ghost ls = scan::spelled(body@);
    let mut doc = WebVttDocument { cues: Vec::new() };
    let mut start: usize = 0;
    proof {
        assert(ls.skip(0) =~= ls);
        assert(doc@ =~= Seq::empty());
        lemma_with_no_cues(blocks_reading(blocks(ls)));
    }
    loop
        invariant
            start <= body.len(),
            ls == scan::spelled(body@),
            blocks_reading(blocks(ls)) == with_cues(
                doc@,
                blocks_reading(blocks(ls.skip(start as int))),
            ),
        decreases body.len() - start,
    {
        let ghost rest = ls.skip(start as int);
        let mut k: usize = start;
        while k < body.len() && !scan::blank(&body[k])
            invariant
                start <= k <= body.len(),
                ls == scan::spelled(body@),
                rest == ls.skip(start as int),
                blank_from(rest, 0) == blank_from(rest, k - start),
            decreases body.len() - k,
        {
            assert(rest[k - start] == body@[k as int]@);
            k += 1;
        }
        let ghost bs = blocks(rest);
        proof {
            if k < body.len() {
                assert(rest[k - start] == body@[k as int]@);
                assert(bs.drop_first() =~= blocks(rest.skip(k - start + 1)));
                assert(rest.skip(k - start + 1) =~= ls.skip(k + 1));
            } else {
                assert(bs.drop_first() =~= Seq::empty());
                assert(rest.take(k - start) =~= rest);
            }
            assert(ls.subrange(start as int, k as int) =~= rest.take(k - start));
            assert(bs[0] == rest.take(k - start));
        }
        let ghost cues = doc@;
        match read_block(body, start, k) {
            Some(Reading::Done(cue)) => {
                doc.cues.push(cue);
                proof {
                    assert(doc@ =~= cues + seq![cue@]);
                    lemma_with_cues_twice(cues, seq![cue@], blocks_reading(bs.drop_first()));
                }
            },
            Some(Reading::Failed(e)) => {
                return Reading::Failed(e);
            },
            Some(Reading::Unreadable) => {
                return Reading::Unreadable;
            },
            None => {},
        }
        if k >= body.len() {
            assert(doc@ + Seq::<CueView>::empty() =~= doc@);
            return Reading::Done(doc);
        }
        start = k + 1;
    }
}

proof fn lemma_with_no_cues(r: Reading<Seq<CueView>, ErrorView>)
    ensures
        with_cues(Seq::empty(), r) == r,
{
    if let Reading::Done(cs) = r {
        assert(Seq::<CueView>::empty() + cs =~= cs);
    }
}

proof fn lemma_with_cues_twice(
    a: Seq<CueView>,
    b: Seq<CueView>,
    r: Reading<Seq<CueView>, ErrorView>,
)
    ensures
        with_cues(a, with_cues(b, r)) == with_cues(a + b, r),
{
    if let Reading::Done(cs) = r {
        assert(a + (b + cs) =~= a + b + cs);
    }
}

/// Whether a cue is shown at the given time.
pub open spec fn is_active(cue: WebVttCue, time_ms: u64) -> bool {
    cue.start_ms <= time_ms <= cue.end_ms
}

impl WebVttDocument {
    /// Reads a track, whatever its timestamps hold.
    pub fn read(input: &str) -> (r: Reading<WebVttDocument, WebVttError>)
        ensures
            document_outcome(r) == document(input@),
    {
        let chars = scan::chars_of(input);
        let from: usize = if chars.len() > 0 && chars[0] == '\u{feff}' {
            1
        } else {
            0
        };
        let track = scan::slice_of(&chars, from, chars.len());
        assert(track@ =~= unmarked(input@));
        let all = scan::lines_of(&track);
        let ghost ls = scan::spelled(all@);
        if all.len() == 0 {
            let doc = WebVttDocument { cues: Vec::new() };
            assert(doc@ =~= Seq::empty());
            return Reading::Done(doc);
        }
        let head = scan::trimmed_start(&all[0]);
        assert(ls[0] == all@[0]@);
        if !scan::begins_with(&head, "WEBVTT") {
            return Reading::Failed(
                WebVttError::InvalidFormat("missing WEBVTT header".to_string()),
            );
        }
        let mut i: usize = 1;
        let ghost rest = ls.drop_first();
        assert(rest =~= ls.skip(i as int));
        while i < all.len() && !scan::blank(&all[i])
            invariant
                0 < i <= all.len(),
                ls == scan::spelled(all@),
                after_header(rest) == after_header(ls.skip(i as int)),
            decreases all.len() - i,
        {
            assert(ls.skip(i as int)[0] == all@[i as int]@);
            assert(ls.skip(i as int).drop_first() =~= ls.skip(i + 1));
            i += 1;
        }
        if i < all.len() {
            assert(ls.skip(i as int)[0] == all@[i as int]@);
            assert(ls.skip(i as int).drop_first() =~= ls.skip(i + 1));
            i += 1;
        }
        let ghost raw = ls.skip(i as int);
        assert(after_header(rest) =~= raw);
        let mut body: Vec<Vec<char>> = Vec::new();
        let ghost start = i;
        while i < all.len()
            invariant
                start <= i <= all.len(),
                ls == scan::spelled(all@),
                raw == ls.skip(start as int),
                scan::spelled(body@) == trimmed(raw.take(i - start)),
            decreases all.len() - i,
        {
            let ghost before = body@;
            body.push(scan::trimmed_end(&all[i]));
            proof {
                assert(raw[i - start] == all@[i as int]@);
                assert(scan::spelled(body@) =~= scan::spelled(before).push(
                    text::trim_end(all@[i as int]@),
                ));
                assert(raw.take(i + 1 - start) =~= raw.take(i - start).push(all@[i as int]@));
                assert(trimmed(raw.take(i + 1 - start)) =~= trimmed(raw.take(i - start)).push(
                    text::trim_end(all@[i as int]@),
                ));
            }
            i += 1;
        }
        assert(raw.take(i - start) =~= raw);
        assert(scan::spelled(body@) =~= body_lines(input@));
        read_body(&body)
    }

    /// Parses a track.
    pub fn parse(input: &str) -> (r: Result<Self, WebVttError>)
        requires
            document(input@) !is Unreadable,
        ensures
            match document(input@) {
                Reading::Done(cues) => r matches Ok(doc) && doc@ == cues,
                Reading::Failed(e) => r matches Err(f) && f@ == e,
                Reading::Unreadable => false,
            },
    {
        match WebVttDocument::read(input) {
            Reading::Done(doc) => Ok(doc),
            Reading::Failed(e) => Err(e),
            Reading::Unreadable => Err(WebVttError::MissingTimestamps),
        }
    }

    /// The cues that are active at a given time in milliseconds, in the order of
    /// the track.
    pub fn cues_at_time(&self, time_ms: u64) -> (r: Vec<&WebVttCue>)
        ensures
            r@.map_values(|c: &WebVttCue| *c) == self.cues@.filter(
                |c: WebVttCue| is_active(c, time_ms),
            ),
    {
        let mut out: Vec<&WebVttCue> = Vec::new();
        let mut i: usize = 0;
        proof {
            reveal(Seq::filter);
            assert(out@.map_values(|c: &WebVttCue| *c) =~= Seq::empty());
            assert(self.cues@.take(0) =~= Seq::empty());
        }
        while i < self.cues.len()
            invariant
                i <= self.cues.len(),
                out@.map_values(|c: &WebVttCue| *c) == self.cues@.take(i as int).filter(
                    |c: WebVttCue| is_active(c, time_ms),
                ),
            decreases self.cues.len() - i,
        {
            let cue = &self.cues[i];
            let ghost before = out@;
            if cue.start_ms <= time_ms && time_ms <= cue.end_ms {
                out.push(cue);
                assert(out@.map_values(|c: &WebVttCue| *c) =~= before.map_values(
                    |c: &WebVttCue| *c,
                ).push(*cue));
            }
            proof {
                reveal(Seq::filter);
                assert(self.cues@.take(i + 1).drop_last() =~= self.cues@.take(i as int));
            }
            i += 1;
        }
        assert(self.cues@.take(i as int) =~= self.cues@);
        out
    }
}

/// Whether `s` writes a number with nothing but digits.
pub open spec fn is_number(s: Seq<char>) -> bool {
    s.len() > 0 && text::all_digits(s)
}

/// The seconds `s` and the three digits `f` behind a full stop, after `minutes_ms`
/// milliseconds.
proof fn lemma_seconds(minutes_ms: int, s: Seq<char>, f: Seq<char>)
    requires
        0 <= minutes_ms,
        is_number(s),
        is_number(f),
        f.len() == 3,
        minutes_ms + text::decimal_value(s) * 1000 + text::decimal_value(f) <= u64::MAX,
    ensures
        seconds_moment(minutes_ms, s.push('.') + f) == Moment::At(
            (minutes_ms + text::decimal_value(s) * 1000 + text::decimal_value(f)) as u64,
        ),
{
    text::lemma_split_first(s, '.', f);
    text::lemma_split_single(f, '.');
    text::lemma_decimal_value(s);
    text::lemma_decimal_value(f);
    let parts = text::split(s.push('.') + f, '.');
    assert(parts =~= seq![s, f]);
    assert(text::is_digit(s[0]));
    assert(text::is_digit(f[0]) && text::is_digit(f[1]) && text::is_digit(f[2]));
    assert(f.take(3) =~= f);
    assert(zero_padded(f) == f);
}

/// `HH:MM:SS.mmm` says hours, minutes, seconds and milliseconds.
pub proof fn law_timestamp_with_hours(h: Seq<char>, m: Seq<char>, s: Seq<char>, f: Seq<char>)
    requires
        is_number(h),
        is_number(m),
        is_number(s),
        is_number(f),
        f.len() == 3,
        text::decimal_value(h) * 3600000 + text::decimal_value(m) * 60000 + text::decimal_value(s)
            * 1000 + text::decimal_value(f) <= u64::MAX,
    ensures
        moment(h.push(':') + (m.push(':') + (s.push('.') + f))) == Moment::At(
            (text::decimal_value(h) * 3600000 + text::decimal_value(m) * 60000
                + text::decimal_value(s) * 1000 + text::decimal_value(f)) as u64,
        ),
{
    let seconds = s.push('.') + f;
    let minutes = m.push(':') + seconds;
    let ts = h.push(':') + minutes;
    assert(ts[0] == h[0] && text::is_digit(h[0]));
    assert(ts.last() == f.last() && text::is_digit(f[2]));
    text::lemma_trimmed(ts);
    text::lemma_split_first(h, ':', minutes);
    text::lemma_split_first(m, ':', seconds);
    lemma_no_colon(s, f);
    assert(text::split(ts, ':') =~= seq![h, m, seconds]);
    text::lemma_decimal_value(h);
    text::lemma_decimal_value(m);
    text::lemma_decimal_value(s);
    text::lemma_decimal_value(f);
    assert(text::is_digit(m[0]));
    lemma_seconds(text::decimal_value(h) * 3600000 + text::decimal_value(m) * 60000, s, f);
}

/// Seconds and milliseconds are one piece between colons.
proof fn lemma_no_colon(s: Seq<char>, f: Seq<char>)
    requires
        is_number(s),
        is_number(f),
    ensures
        text::split(s.push('.') + f, ':') == seq![s.push('.') + f],
{
    let seconds = s.push('.') + f;
    assert forall|i: int| 0 <= i < seconds.len() implies #[trigger] seconds[i] != ':' by {
        if i > s.len() {
            assert(seconds[i] == f[i - s.len() - 1]);
            assert(text::is_digit(f[i - s.len() - 1]));
        } else if i < s.len() {
            assert(seconds[i] == s[i]);
            assert(text::is_digit(s[i]));
        }
    }
    text::lemma_split_single(seconds, ':');
}

/// `MM:SS.mmm` says minutes, seconds and milliseconds.
pub proof fn law_timestamp_without_hours(m: Seq<char>, s: Seq<char>, f: Seq<char>)
    requires
        is_number(m),
        is_number(s),
        is_number(f),
        f.len() == 3,
        text::decimal_value(m) * 60000 + text::decimal_value(s) * 1000 + text::decimal_value(f)
            <= u64::MAX,
    ensures
        moment(m.push(':') + (s.push('.') + f)) == Moment::At(
            (text::decimal_value(m) * 60000 + text::decimal_value(s) * 1000 + text::decimal_value(
                f,
            )) as u64,
        ),
{
    let seconds = s.push('.') + f;
    let ts = m.push(':') + seconds;
    assert(ts[0] == m[0] && text::is_digit(m[0]));
    assert(ts.last() == f.last() && text::is_digit(f[2]));
    text::lemma_trimmed(ts);
    text::lemma_split_first(m, ':', seconds);
    lemma_no_colon(s, f);
    assert(text::split(ts, ':') =~= seq![m, seconds]);
    text::lemma_decimal_value(m);
    text::lemma_decimal_value(s);
    text::lemma_decimal_value(f);
    lemma_seconds(text::decimal_value(m) * 60000, s, f);
}

/// The blocks of two runs of lines with a blank line between them are those of the
/// one, then those of the other.
proof fn lemma_blocks_apart(a: Seq<Seq<char>>, sep: Seq<char>, b: Seq<Seq<char>>)
    requires
        text::is_blank(sep),
    ensures
        blocks(a.push(sep) + b) == blocks(a) + blocks(b),
    decreases a.len(),
{
    let ls = a.push(sep) + b;
    lemma_blank_from(a, 0);
    lemma_blank_from(ls, 0);
    match blank_from(a, 0) {
        Some(k) => {
            let j = blank_from(ls, 0)->0;
            assert(ls[k] == a[k]);
            if j < k {
                assert(ls[j] == a[j]);
            }
            assert(ls.take(k) =~= a.take(k));
            assert(ls.skip(k + 1) =~= a.skip(k + 1).push(sep) + b);
            lemma_blocks_apart(a.skip(k + 1), sep, b);
            assert(blocks(ls) =~= blocks(a) + blocks(b));
        },
        None => {
            let j = blank_from(ls, 0)->0;
            assert(ls[a.len() as int] == sep);
            if j < a.len() {
                assert(ls[j] == a[j]);
            }
            assert(ls.take(j) =~= a);
            assert(ls.skip(j + 1) =~= b);
        },
    }
}

proof fn lemma_blank_from(ls: Seq<Seq<char>>, i: int)
    requires
        0 <= i,
    ensures
        match blank_from(ls, i) {
            Some(k) => i <= k < ls.len() && text::is_blank(ls[k]) && forall|j: int|
                i <= j < k ==> !text::is_blank(#[trigger] ls[j]),
            None => forall|j: int| i <= j < ls.len() ==> !text::is_blank(#[trigger] ls[j]),
        },
    decreases ls.len() - i,
{
    if i < ls.len() && !text::is_blank(ls[i]) {
        lemma_blank_from(ls, i + 1);
    }
}

/// Lines that a blank line parts are read one part after the other: the cues of
/// the first part come first, and a part that fails hides what follows it.
pub proof fn law_parts_in_order(a: Seq<Seq<char>>, sep: Seq<char>, b: Seq<Seq<char>>)
    requires
        text::is_blank(sep),
    ensures
        blocks_reading(blocks(a.push(sep) + b)) == match blocks_reading(blocks(a)) {
            Reading::Done(cues) => with_cues(cues, blocks_reading(blocks(b))),
            failure => failure,
        },
{
    lemma_blocks_apart(a, sep, b);
    lemma_blocks_reading_add(blocks(a), blocks(b));
}

proof fn lemma_blocks_reading_add(x: Seq<Seq<Seq<char>>>, y: Seq<Seq<Seq<char>>>)
    ensures
        blocks_reading(x + y) == match blocks_reading(x) {
            Reading::Done(cues) => with_cues(cues, blocks_reading(y)),
            failure => failure,
        },
    decreases x.len(),
{
    if x.len() == 0 {
        assert(x + y =~= y);
        lemma_with_no_cues(blocks_reading(y));
    } else {
        assert((x + y).drop_first() =~= x.drop_first() + y);
        lemma_blocks_reading_add(x.drop_first(), y);
        if let Some(Reading::Done(c)) = block_reading(x[0]) {
            if let Reading::Done(cues) = blocks_reading(x.drop_first()) {
                lemma_with_cues_twice(seq![c], cues, blocks_reading(y));
            }
        }
    }
}

/// The lines of a text that ends with a line feed come before those of what follows.
proof fn lemma_lines_join(a: Seq<char>, b: Seq<char>)
    requires
        a.len() > 0,
        a.last() == '\n',
    ensures
        text::lines(a + b) == text::lines(a) + text::lines(b),
        text::lines(a).len() > 0,
    decreases a.len(),
{
    text::lemma_position(a, '\n');
    text::lemma_position(a + b, '\n');
    assert(a[a.len() - 1] == '\n');
    let i = text::position(a, '\n')->0;
    let k = text::position(a + b, '\n')->0;
    assert((a + b)[i] == '\n');
    if k < i {
        assert((a + b)[k] == a[k]);
    }
    assert(k == i);
    let rest = a.skip(i + 1);
    assert((a + b).take(i) =~= a.take(i));
    assert((a + b).skip(i + 1) =~= rest + b);
    if rest.len() == 0 {
        assert(rest + b =~= b);
        assert(text::lines(rest) == Seq::<Seq<char>>::empty());
        assert(text::lines(a + b) =~= text::lines(a) + text::lines(b));
    } else {
        lemma_lines_join(rest, b);
        assert(text::lines(a + b) =~= text::lines(a) + text::lines(b));
    }
}

/// An empty line in front.
proof fn lemma_lines_feed(b: Seq<char>)
    ensures
        text::lines(seq!['\n'] + b) == seq![Seq::<char>::empty()] + text::lines(b),
{
    let feed = seq!['\n'];
    lemma_lines_join(feed, b);
    text::lemma_position(feed, '\n');
    let i = text::position(feed, '\n')->0;
    assert(feed.take(i) =~= Seq::<char>::empty());
    assert(feed.skip(i + 1) =~= Seq::<char>::empty());
    assert(text::lines(feed.skip(i + 1)) == Seq::<Seq<char>>::empty());
    assert(text::lines(feed) =~= seq![Seq::<char>::empty()]);
}

/// What stands behind a header that an empty line follows, at the latest.
proof fn lemma_after_header(h: Seq<Seq<char>>, b: Seq<Seq<char>>)
    ensures
        after_header(h.push(Seq::empty()) + b) == after_header(h).push(Seq::empty()) + b || (
        after_header(h).len() == 0 && after_header(h.push(Seq::empty()) + b) == b),
    decreases h.len(),
{
    let all = h.push(Seq::empty()) + b;
    if h.len() == 0 {
        assert(all[0] == Seq::<char>::empty());
        assert(text::is_blank(all[0]));
        assert(all.drop_first() =~= b);
    } else {
        assert(all[0] == h[0]);
        assert(all.drop_first() =~= h.drop_first().push(Seq::empty()) + b);
        if !text::is_blank(h[0]) {
            lemma_after_header(h.drop_first(), b);
        }
    }
}

/// A track that holds nothing behind its header.
proof fn lemma_bare_track(b: Seq<char>)
    ensures
        document("WEBVTT\n\n"@ + b) == blocks_reading(blocks(trimmed(text::lines(b)))),
{
    reveal_strlit("WEBVTT\n\n");
    reveal_strlit("WEBVTT");
    let head = "WEBVTT\n"@;
    reveal_strlit("WEBVTT\n");
    let input = "WEBVTT\n\n"@ + b;
    assert(input =~= head + (seq!['\n'] + b));
    assert(unmarked(input) == input);
    lemma_lines_join(head, seq!['\n'] + b);
    lemma_lines_feed(b);
    text::lemma_position(head, '\n');
    let i = text::position(head, '\n')->0;
    assert(head[6] == '\n');
    assert(i == 6);
    assert(head.take(i) =~= "WEBVTT"@);
    assert(head.skip(i + 1) =~= Seq::<char>::empty());
    assert(text::lines(head.skip(i + 1)) == Seq::<Seq<char>>::empty());
    assert(text::lines(head) =~= seq!["WEBVTT"@]);
    let ls = header_lines(input);
    assert(ls =~= seq!["WEBVTT"@, Seq::<char>::empty()] + text::lines(b));
    assert("WEBVTT"@.subrange(0, 6) =~= "WEBVTT"@);
    assert(ls.drop_first()[0] == Seq::<char>::empty());
    assert(text::is_blank(ls.drop_first()[0]));
    assert(ls.drop_first().drop_first() =~= text::lines(b));
}

/// The lines of two texts with an empty line between them.
proof fn lemma_header_lines_join(a: Seq<char>, b: Seq<char>)
    requires
        a.len() > 0,
        a.last() == '\n',
    ensures
        header_lines(a).len() > 0,
        header_lines(a + seq!['\n'] + b) == header_lines(a).push(Seq::empty()) + text::lines(b),
{
    let whole = a + seq!['\n'] + b;
    let first = unmarked(a);
    assert(first.last() == '\n');
    assert(unmarked(whole) =~= first + (seq!['\n'] + b));
    lemma_lines_join(first, seq!['\n'] + b);
    lemma_lines_feed(b);
    assert(header_lines(whole) =~= header_lines(a).push(Seq::empty()) + text::lines(b));
}

/// What is read from the lines behind a header and from those behind an empty line.
proof fn lemma_bodies_join(h: Seq<Seq<char>>, b: Seq<Seq<char>>)
    ensures
        blocks_reading(blocks(trimmed(after_header(h.push(Seq::empty()) + b))))
            == match blocks_reading(blocks(trimmed(after_header(h)))) {
            Reading::Done(cues) => with_cues(cues, blocks_reading(blocks(trimmed(b)))),
            failure => failure,
        },
{
    lemma_after_header(h, b);
    let body = after_header(h);
    let joined = after_header(h.push(Seq::empty()) + b);
    if joined == body.push(Seq::empty()) + b {
        assert(text::trim_end(Seq::<char>::empty()) =~= Seq::<char>::empty());
        assert(trimmed(joined) =~= trimmed(body).push(Seq::empty()) + trimmed(b));
        law_parts_in_order(trimmed(body), Seq::empty(), trimmed(b));
    } else {
        let none = Seq::<Seq<char>>::empty();
        assert(trimmed(body) =~= none);
        assert(blocks(none) =~= seq![none]);
        assert(block_reading(none) is None);
        assert(seq![none].drop_first() =~= Seq::<Seq<Seq<char>>>::empty());
        assert(blocks_reading(Seq::empty()) == Reading::<Seq<CueView>, ErrorView>::Done(
            Seq::empty(),
        ));
        lemma_with_no_cues(blocks_reading(blocks(trimmed(b))));
    }
}

/// Two texts with an empty line between them are read one after the other: the cues
/// of the first come first, then those that the second has as a track of its own, and a
/// first text that fails hides the second.
pub proof fn law_texts_in_order(a: Seq<char>, b: Seq<char>)
    requires
        a.len() > 0,
        a.last() == '\n',
    ensures
        document(a + seq!['\n'] + b) == match document(a) {
            Reading::Done(cues) => with_cues(cues, document("WEBVTT\n\n"@ + b)),
            failure => failure,
        },
{
    let whole = a + seq!['\n'] + b;
    let ls = header_lines(a);
    let lb = text::lines(b);
    lemma_header_lines_join(a, b);
    lemma_bare_track(b);
    lemma_bodies_join(ls.drop_first(), lb);
    assert(header_lines(whole)[0] == ls[0]);
    assert(header_lines(whole).drop_first() =~= ls.drop_first().push(Seq::empty()) + lb);
}

} // verus!
