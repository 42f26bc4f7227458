//! What holds of every track, block, cue and timestamp.

use crate::dom::webvtt;
use crate::dom::webvtt::{
    CueView, ErrorView, Moment, Reading, WebVttCue, WebVttDocument, WebVttError,
};
use crate::text;
use vstd::prelude::*;

verus! {

/// Whether two dashes and a greater-than sign stand in a line, one behind the other.
pub open spec fn shows_arrow(line: Seq<char>) -> bool {
    exists|i: int|
        0 <= i < line.len() - 2 && #[trigger] line[i] == '-' && line[i + 1] == '-' && line[i + 2]
            == '>'
}

/// A line holds an arrow where two dashes and a greater-than sign stand in it.
pub proof fn law_arrow(line: Seq<char>)
    ensures
        webvtt::has_arrow(line) <==> shows_arrow(line),
{
    reveal_strlit("-->");
    text::law_find(line, "-->"@);
    if webvtt::has_arrow(line) {
        let i = text::find(line, "-->"@)->0;
        let here = line.subrange(i, i + 3);
        assert(here[0] == '-' && here[1] == '-' && here[2] == '>');
        assert(line[i] == '-' && line[i + 1] == '-' && line[i + 2] == '>');
    }
    if shows_arrow(line) {
        let i = choose|i: int|
            0 <= i < line.len() - 2 && #[trigger] line[i] == '-' && line[i + 1] == '-' && line[i
                + 2] == '>';
        assert(line.subrange(i, i + 3) =~= "-->"@);
        assert(line.subrange(i, i + "-->"@.len()) == "-->"@);
    }
}

/// The first arrow of a line stands behind what has none.
proof fn lemma_first_arrow(a: Seq<char>, rest: Seq<char>)
    requires
        !shows_arrow(a),
    ensures
        text::find(a + "-->"@ + rest, "-->"@) == Some(a.len() as int),
{
    reveal_strlit("-->");
    let line = a + "-->"@ + rest;
    text::law_find(line, "-->"@);
    let n = a.len() as int;
    assert(line.subrange(n, n + 3) =~= "-->"@);
    assert(line.subrange(n, n + "-->"@.len()) == "-->"@);
    let i = text::find(line, "-->"@)->0;
    if i < a.len() {
        let here = line.subrange(i, i + 3);
        assert(here[0] == '-' && here[1] == '-' && here[2] == '>');
        assert(line[i + 2] == '>');
        assert(line[n] == '-' && line[n + 1] == '-');
        assert(i + 2 < a.len());
        assert(a[i] == line[i] && a[i + 1] == line[i + 1] && a[i + 2] == line[i + 2]);
    }
}

/// Of a timing line, what stands before the first arrow is the start, and the first word
/// behind it the end. What follows that word does not matter.
pub proof fn law_timing_line(
    start: Seq<char>,
    gap: Seq<char>,
    end: Seq<char>,
    rest: Seq<char>,
)
    requires
        !shows_arrow(start),
        forall|i: int| 0 <= i < gap.len() ==> text::is_white_space(#[trigger] gap[i]),
        forall|i: int| 0 <= i < end.len() ==> !text::is_white_space(#[trigger] end[i]),
        end.len() > 0,
        !shows_arrow(end),
        rest.len() > 0 ==> text::is_white_space(rest[0]),
    ensures
        webvtt::has_arrow(start + "-->"@ + (gap + end + rest)),
        webvtt::start_part(start + "-->"@ + (gap + end + rest)) == start,
        webvtt::end_part(start + "-->"@ + (gap + end + rest)) == end,
{
    reveal_strlit("-->");
    let tail = gap + end + rest;
    let line = start + "-->"@ + tail;
    lemma_first_arrow(start, tail);
    assert(line.take(start.len() as int) =~= start);
    assert(line.skip((start.len() + 3) as int) =~= tail);
    text::law_words(gap, end, rest);
    text::law_find(tail, "-->"@);
    if let Some(j) = text::find(tail, "-->"@) {
        let here = tail.subrange(j, j + 3);
        assert(here[0] == '-' && here[1] == '-' && here[2] == '>');
        assert(tail[j] == '-' && tail[j + 1] == '-' && tail[j + 2] == '>');
        text::law_white_space('-');
        text::law_white_space('>');
        lemma_arrow_behind(gap, end, rest, j);
        let less = rest.take(j - gap.len() - end.len());
        assert(tail.take(j) =~= gap + end + less);
        assert(less.len() > 0 ==> less[0] == rest[0]);
        text::law_words(gap, end, less);
    }
}

/// A second arrow ends a timing line: the end is the first word between the two, and
/// nothing where there is none. The same holds of a line with nothing behind its arrow.
pub proof fn law_second_arrow_ends_the_line(
    start: Seq<char>,
    gap: Seq<char>,
    end: Seq<char>,
    rest: Seq<char>,
)
    requires
        !shows_arrow(start),
        forall|i: int| 0 <= i < gap.len() ==> text::is_white_space(#[trigger] gap[i]),
        forall|i: int| 0 <= i < end.len() ==> !text::is_white_space(#[trigger] end[i]),
        !shows_arrow(end),
    ensures
        webvtt::start_part(start + "-->"@ + (gap + end + "-->"@ + rest)) == start,
        webvtt::end_part(start + "-->"@ + (gap + end + "-->"@ + rest)) == end,
        webvtt::end_part(start + "-->"@ + gap) == Seq::<char>::empty(),
{
    reveal_strlit("-->");
    text::law_white_space('-');
    let word = gap + end;
    let tail = word + "-->"@ + rest;
    let line = start + "-->"@ + tail;
    if shows_arrow(word) {
        let j = choose|j: int|
            0 <= j < word.len() - 2 && #[trigger] word[j] == '-' && word[j + 1] == '-' && word[j
                + 2] == '>';
        if j < gap.len() {
            assert(word[j] == gap[j]);
        } else {
            let k = j - gap.len();
            assert(end[k] == word[j] && end[k + 1] == word[j + 1] && end[k + 2] == word[j + 2]);
            assert(shows_arrow(end));
        }
    }
    lemma_first_arrow(start, tail);
    lemma_first_arrow(word, rest);
    assert(line.take(start.len() as int) =~= start);
    assert(line.skip((start.len() + 3) as int) =~= tail);
    assert(tail.take(word.len() as int) =~= word);
    if end.len() > 0 {
        text::law_words(gap, end, Seq::empty());
        assert(gap + end + Seq::<char>::empty() =~= word);
    } else {
        text::law_words(gap, seq!['-'], Seq::empty());
        assert(word =~= gap);
        assert(end =~= Seq::<char>::empty());
    }
    text::law_words(gap, seq!['-'], Seq::empty());
    let bare = start + "-->"@ + gap;
    lemma_first_arrow(start, gap);
    assert(bare.skip((start.len() + 3) as int) =~= gap);
    text::law_find(gap, "-->"@);
    if let Some(j) = text::find(gap, "-->"@) {
        assert(gap.subrange(j, j + 3)[0] == '-');
        assert(gap[j] == '-');
    }
}

/// An arrow behind the first word stands behind all of it.
proof fn lemma_arrow_behind(gap: Seq<char>, end: Seq<char>, rest: Seq<char>, j: int)
    requires
        forall|i: int| 0 <= i < gap.len() ==> text::is_white_space(#[trigger] gap[i]),
        !shows_arrow(end),
        rest.len() > 0 ==> text::is_white_space(rest[0]),
        0 <= j < (gap + end + rest).len() - 2,
        (gap + end + rest)[j] == '-',
        (gap + end + rest)[j + 1] == '-',
        (gap + end + rest)[j + 2] == '>',
        !text::is_white_space('-'),
        !text::is_white_space('>'),
    ensures
        gap.len() + end.len() <= j,
{
    let tail = gap + end + rest;
    let k = gap.len();
    let m = gap.len() + end.len();
    if j < k {
        assert(tail[j] == gap[j]);
    } else if j < m {
        assert(tail[j] == end[j - k]);
        if j + 2 < m {
            assert(tail[j + 1] == end[j - k + 1] && tail[j + 2] == end[j - k + 2]);
            assert(end[j - k] == '-');
            assert(shows_arrow(end));
        } else if j + 1 < m {
            assert(tail[j + 2] == rest[0]);
        } else {
            assert(tail[j + 1] == rest[0]);
        }
    }
}

/// A cue lasts from the start to the end that its timing line gives, and keeps its name,
/// its settings and its text. A timestamp that is none is told, without white space around
/// it, the start before the end.
pub proof fn law_cue_is_read(
    id: Option<Seq<char>>,
    settings: Option<Seq<char>>,
    start: Seq<char>,
    gap: Seq<char>,
    end: Seq<char>,
    rest: Seq<char>,
    cue_text: Seq<char>,
)
    requires
        !shows_arrow(start),
        forall|i: int| 0 <= i < gap.len() ==> text::is_white_space(#[trigger] gap[i]),
        forall|i: int| 0 <= i < end.len() ==> !text::is_white_space(#[trigger] end[i]),
        end.len() > 0,
        !shows_arrow(end),
        rest.len() > 0 ==> text::is_white_space(rest[0]),
    ensures
        webvtt::cue_reading(id, settings, start + "-->"@ + (gap + end + rest), cue_text) == match (
            webvtt::moment(start),
            webvtt::moment(end),
        ) {
            (Moment::At(from), Moment::At(to)) => Reading::Done(
                CueView { id, start_ms: from, end_ms: to, text: cue_text, settings },
            ),
            (Moment::At(_), Moment::Invalid) => Reading::Failed(ErrorView::InvalidTimestamp(end)),
            (Moment::At(_), Moment::Unreadable) => Reading::Unreadable,
            (Moment::Invalid, _) => Reading::Failed(
                ErrorView::InvalidTimestamp(text::trim(start)),
            ),
            (Moment::Unreadable, _) => Reading::Unreadable,
        },
{
    law_timing_line(start, gap, end, rest);
    assert(!text::is_white_space(end[0]) && !text::is_white_space(end[end.len() - 1]));
    text::lemma_trimmed(end);
}

/// A line without an arrow times no cue.
pub proof fn law_no_cue_without_arrow(
    id: Option<Seq<char>>,
    settings: Option<Seq<char>>,
    line: Seq<char>,
    cue_text: Seq<char>,
)
    requires
        !shows_arrow(line),
    ensures
        webvtt::cue_reading(id, settings, line, cue_text) == Reading::<CueView, ErrorView>::Failed(
            ErrorView::MissingTimestamps,
        ),
{
    law_arrow(line);
}

/// Of several timestamp lines the first times the cue, and without one it has no time.
/// The lines of its text are joined.
pub proof fn law_first_timestamp_line_counts(
    id: Option<Seq<char>>,
    settings: Option<Seq<char>>,
    line: Seq<char>,
    more: Seq<Seq<char>>,
    text_lines: Seq<Seq<char>>,
)
    ensures
        webvtt::lines_reading(id, settings, seq![line] + more, text_lines) == webvtt::cue_reading(
            id,
            settings,
            line,
            text::join_lines(text_lines),
        ),
        webvtt::lines_reading(id, settings, Seq::empty(), text_lines) == Reading::<
            CueView,
            ErrorView,
        >::Failed(ErrorView::MissingTimestamps),
{
    assert((seq![line] + more)[0] == line);
}

/// What the search for the timing line finds.
proof fn lemma_timing_from(block: Seq<Seq<char>>, i: int)
    requires
        0 <= i,
    ensures
        match webvtt::timing_from(block, i) {
            Some(k) => i <= k < block.len() && shows_arrow(block[k]) && forall|j: int|
                i <= j < k ==> !shows_arrow(#[trigger] block[j]),
            None => forall|j: int| i <= j < block.len() ==> !shows_arrow(#[trigger] block[j]),
        },
    decreases block.len() - i,
{
    if i < block.len() {
        law_arrow(block[i]);
        if !webvtt::has_arrow(block[i]) {
            lemma_timing_from(block, i + 1);
        }
    }
}

/// A block has a cue where one of its lines holds an arrow, and only there.
pub proof fn law_blocks_with_an_arrow_have_a_cue(block: Seq<Seq<char>>)
    ensures
        webvtt::block_reading(block) is Some <==> exists|i: int|
            0 <= i < block.len() && shows_arrow(#[trigger] block[i]),
{
    lemma_timing_from(block, 0);
    if let Some(k) = webvtt::timing_from(block, 0) {
        assert(shows_arrow(block[k]));
    }
}

/// A block begins with lines without an arrow, and then its timing line. The last of those
/// lines, whatever it says, is the name of the cue; without such a line it has none. As
/// yet the cue has neither text nor settings.
pub proof fn law_block_begins(before: Seq<Seq<char>>, timing: Seq<char>)
    requires
        forall|i: int| 0 <= i < before.len() ==> !shows_arrow(#[trigger] before[i]),
        shows_arrow(timing),
    ensures
        webvtt::block_reading(before.push(timing)) == Some(
            webvtt::cue_reading(
                if before.len() > 0 {
                    Some(before[before.len() - 1])
                } else {
                    None
                },
                None,
                timing,
                Seq::empty(),
            ),
        ),
{
    let block = before.push(timing);
    lemma_timing_from(block, 0);
    let n = before.len() as int;
    assert(block[n] == timing);
    let k = webvtt::timing_from(block, 0)->0;
    if k < n {
        assert(block[k] == before[k]);
    }
    let after = block.skip(n + 1);
    assert(after =~= Seq::<Seq<char>>::empty());
    reveal(Seq::filter);
    assert(webvtt::cue_lines(after) =~= Seq::<Seq<char>>::empty());
}

/// A line more behind the timing line of a block: one with an arrow is passed over, one
/// with settings replaces the settings, a note in front of all text is passed over, and
/// any other is the next line of the text. The name and the times stay, and so does a
/// failure.
pub proof fn law_block_goes_on(block: Seq<Seq<char>>, line: Seq<char>)
    requires
        forall|i: int| 0 <= i < block.len() ==> (#[trigger] block[i]).len() > 0,
        webvtt::block_reading(block) is Some,
    ensures
        match webvtt::block_reading(block)->0 {
            Reading::Done(c) => webvtt::block_reading(block.push(line)) == Some(
                Reading::<CueView, ErrorView>::Done(
                    CueView {
                        id: c.id,
                        start_ms: c.start_ms,
                        end_ms: c.end_ms,
                        text: if shows_arrow(line) || webvtt::is_setting(line) || (c.text.len()
                            == 0 && text::starts_with(line, "NOTE"@)) {
                            c.text
                        } else if c.text.len() == 0 {
                            line
                        } else {
                            c.text + seq!['\n'] + line
                        },
                        settings: if !shows_arrow(line) && webvtt::is_setting(line) {
                            Some(line)
                        } else {
                            c.settings
                        },
                    },
                ),
            ),
            failure => webvtt::block_reading(block.push(line)) == Some(failure),
        },
{
    let more = block.push(line);
    lemma_timing_from(block, 0);
    lemma_timing_from(more, 0);
    let k = webvtt::timing_from(block, 0)->0;
    assert(more[k] == block[k]);
    let m = webvtt::timing_from(more, 0)->0;
    if m < k {
        assert(more[m] == block[m]);
    }
    assert(m == k);
    let after = block.skip(k + 1);
    assert(more.skip(k + 1) =~= after.push(line));
    if k > 0 {
        assert(more[k - 1] == block[k - 1]);
    }
    law_arrow(line);
    webvtt::lemma_cue_line(after, line);
    let ls = webvtt::cue_text_lines(after);
    assert forall|i: int| 0 <= i < ls.len() implies (#[trigger] ls[i]).len() > 0 by {
        lemma_text_line_of_block(after, i);
        let j = choose|j: int| 0 <= j < after.len() && after[j] == ls[i];
        assert(after[j] == block[k + 1 + j]);
    }
    lemma_join_not_empty(ls);
    if ls.len() == 0 {
        assert(ls.push(line) =~= seq![line]);
        assert(ls =~= Seq::<Seq<char>>::empty());
    }
    text::law_join_lines(ls, line);
}

/// The lines of the text are lines of the block.
proof fn lemma_text_line_of_block(after: Seq<Seq<char>>, i: int)
    requires
        0 <= i < webvtt::cue_text_lines(after).len(),
    ensures
        after.contains(webvtt::cue_text_lines(after)[i]),
{
    let plain = |l: Seq<char>| !webvtt::has_arrow(l);
    let other = |l: Seq<char>| !webvtt::is_setting(l);
    let ls = webvtt::cue_lines(after);
    let said = ls.filter(other);
    lemma_behind_notes(said);
    let x = webvtt::cue_text_lines(after)[i];
    assert(said.contains(x));
    ls.lemma_filter_contains_rev(other, x);
    after.lemma_filter_contains_rev(plain, x);
}

/// What stands behind the notes is the end of the list.
proof fn lemma_behind_notes(ls: Seq<Seq<char>>)
    ensures
        webvtt::drop_notes(ls).len() <= ls.len(),
        webvtt::drop_notes(ls) == ls.skip(ls.len() - webvtt::drop_notes(ls).len()),
        forall|i: int|
            0 <= i < webvtt::drop_notes(ls).len() ==> ls.contains(
                #[trigger] webvtt::drop_notes(ls)[i],
            ),
    decreases ls.len(),
{
    let d = webvtt::drop_notes(ls);
    if ls.len() > 0 && text::starts_with(ls[0], "NOTE"@) {
        lemma_behind_notes(ls.drop_first());
    }
    assert(d =~= ls.skip(ls.len() - d.len()));
    assert forall|i: int| 0 <= i < d.len() implies ls.contains(#[trigger] d[i]) by {
        assert(d[i] == ls[i + ls.len() - d.len()]);
    }
}

/// Lines that are not empty make a text that is not.
proof fn lemma_join_not_empty(ls: Seq<Seq<char>>)
    requires
        forall|i: int| 0 <= i < ls.len() ==> (#[trigger] ls[i]).len() > 0,
    ensures
        text::join_lines(ls).len() == 0 <==> ls.len() == 0,
{
}

/// A line gives settings where `position`, `line`, `align` or `size` stands before its
/// first colon, with or without white space around the word. Any other word gives none.
pub proof fn law_setting_lines(
    before: Seq<char>,
    name: Seq<char>,
    after: Seq<char>,
    rest: Seq<char>,
)
    requires
        forall|i: int| 0 <= i < before.len() ==> text::is_white_space(#[trigger] before[i]),
        forall|i: int| 0 <= i < after.len() ==> text::is_white_space(#[trigger] after[i]),
        forall|i: int| 0 <= i < name.len() ==> #[trigger] name[i] != ':',
        name.len() > 0 ==> !text::is_white_space(name[0]) && !text::is_white_space(
            name[name.len() - 1],
        ),
    ensures
        webvtt::is_setting(before + name + after + seq![':'] + rest) <==> name == "position"@
            || name == "line"@ || name == "align"@ || name == "size"@,
{
    let head = before + name + after;
    let line = head + seq![':'] + rest;
    text::law_white_space(':');
    text::law_position(line, ':');
    let n = head.len() as int;
    assert(line[n] == ':');
    let i = text::position(line, ':')->0;
    if i < n {
        assert(line[i] == head[i]);
        if i < before.len() {
            assert(head[i] == before[i]);
        } else if i < before.len() + name.len() {
            assert(head[i] == name[i - before.len()]);
        } else {
            assert(head[i] == after[i - before.len() - name.len()]);
        }
    }
    assert(line.take(n) =~= head);
    text::law_trim(before, name, after);
}

/// A line without a colon gives no settings.
pub proof fn law_no_settings_without_colon(line: Seq<char>)
    requires
        forall|i: int| 0 <= i < line.len() ==> #[trigger] line[i] != ':',
    ensures
        !webvtt::is_setting(line),
{
    text::law_position(line, ':');
}

/// The lines of a text without arrows, settings or notes behind a timing line are all of
/// the text, in their order, with a line feed between two of them. The cue has no
/// settings.
pub proof fn law_block_of_a_cue(before: Seq<Seq<char>>, timing: Seq<char>, said: Seq<Seq<char>>)
    requires
        forall|i: int|
            0 <= i < before.len() ==> !shows_arrow(#[trigger] before[i]) && before[i].len() > 0,
        shows_arrow(timing),
        forall|i: int|
            0 <= i < said.len() ==> (#[trigger] said[i]).len() > 0 && !shows_arrow(said[i])
                && !webvtt::is_setting(said[i]),
        said.len() > 0 ==> !text::starts_with(said[0], "NOTE"@),
    ensures
        webvtt::block_reading(before.push(timing) + said) == Some(
            webvtt::cue_reading(
                if before.len() > 0 {
                    Some(before[before.len() - 1])
                } else {
                    None
                },
                None,
                timing,
                text::join_lines(said),
            ),
        ),
    decreases said.len(),
{
    let head = before.push(timing);
    law_block_begins(before, timing);
    if said.len() == 0 {
        assert(head + said =~= head);
        assert(said =~= Seq::<Seq<char>>::empty());
    } else {
        let less = said.drop_last();
        let last = said.last();
        assert forall|i: int| 0 <= i < less.len() implies (#[trigger] less[i]).len() > 0
            && !shows_arrow(less[i]) && !webvtt::is_setting(less[i]) by {
            assert(less[i] == said[i]);
        }
        law_block_of_a_cue(before, timing, less);
        let block = head + less;
        assert(head + said =~= block.push(last));
        assert forall|i: int| 0 <= i < block.len() implies (#[trigger] block[i]).len() > 0 by {
            if i < before.len() {
                assert(block[i] == before[i]);
            } else if i > before.len() {
                assert(block[i] == less[i - before.len() - 1]);
            }
        }
        assert(last == said[said.len() - 1]);
        law_block_goes_on(block, last);
        lemma_join_not_empty(less);
        if less.len() == 0 {
            assert(said =~= seq![last]);
            assert(said[0] == last);
            assert(less =~= Seq::<Seq<char>>::empty());
        } else {
            assert(said =~= less.push(last));
        }
        text::law_join_lines(less, last);
    }
}

/// The lines of the cues stand without white space at their ends, in their order.
pub proof fn law_lines_lose_white_space_at_their_ends(ls: Seq<Seq<char>>, i: int)
    requires
        0 <= i < ls.len(),
    ensures
        webvtt::trimmed(ls).len() == ls.len(),
        webvtt::trimmed(ls)[i] == text::trim_end(ls[i]),
{
}

/// The first line of a text, with its carriage return taken off.
proof fn lemma_first_line(line: Seq<char>, rest: Seq<char>)
    requires
        forall|i: int| 0 <= i < line.len() ==> #[trigger] line[i] != '\n',
    ensures
        text::lines(line + seq!['\n'] + rest) == seq![text::strip_cr(line)] + text::lines(rest),
{
    if line.len() > 0 && line.last() == '\r' {
        let bare = line.drop_last();
        assert forall|i: int| 0 <= i < bare.len() implies #[trigger] bare[i] != '\n' by {
            assert(bare[i] == line[i]);
        }
        text::law_lines(bare, rest);
        assert(line + seq!['\n'] + rest =~= bare + seq!['\r', '\n'] + rest);
    } else {
        text::law_lines(line, rest);
    }
}

/// White space behind a text is gone without one carriage return as well.
proof fn lemma_line_end(s: Seq<char>, blanks: Seq<char>)
    requires
        s.len() > 0,
        !text::is_white_space(s[s.len() - 1]),
        forall|i: int| 0 <= i < blanks.len() ==> text::is_white_space(#[trigger] blanks[i]),
    ensures
        text::trim_end(text::strip_cr(s + blanks)) == s,
{
    text::law_white_space('\r');
    let all = s + blanks;
    if blanks.len() > 0 && all.last() == '\r' {
        let less = blanks.drop_last();
        assert forall|i: int| 0 <= i < less.len() implies text::is_white_space(
            #[trigger] less[i],
        ) by {
            assert(less[i] == blanks[i]);
        }
        assert(all.drop_last() =~= s + less);
        text::law_trim_end(s, less);
    } else {
        if blanks.len() == 0 {
            assert(all.last() == s[s.len() - 1]);
        }
        text::law_trim_end(s, blanks);
    }
}

/// Lines of which none is blank are one block.
proof fn lemma_one_block(ls: Seq<Seq<char>>)
    requires
        forall|i: int| 0 <= i < ls.len() ==> !text::is_blank(#[trigger] ls[i]),
    ensures
        webvtt::blocks(ls) == seq![ls],
{
    webvtt::lemma_blank_from(ls, 0);
}

/// What is read of one block.
proof fn lemma_one_block_reading(block: Seq<Seq<char>>)
    ensures
        webvtt::blocks_reading(seq![block]) == match webvtt::block_reading(block) {
            None => Reading::<Seq<CueView>, ErrorView>::Done(Seq::empty()),
            Some(Reading::Done(c)) => Reading::Done(seq![c]),
            Some(Reading::Failed(e)) => Reading::Failed(e),
            Some(Reading::Unreadable) => Reading::Unreadable,
        },
{
    assert(seq![block].drop_first() =~= Seq::<Seq<Seq<char>>>::empty());
    assert(webvtt::blocks_reading(Seq::empty()) == Reading::<Seq<CueView>, ErrorView>::Done(
        Seq::empty(),
    ));
    if let Some(Reading::Done(c)) = webvtt::block_reading(block) {
        assert(seq![c] + Seq::<CueView>::empty() =~= seq![c]);
    }
}

/// A track of one block of lines, none of which is blank.
proof fn lemma_track_of_one_block(body: Seq<char>)
    requires
        forall|i: int|
            0 <= i < text::lines(body).len() ==> !text::is_blank(
                #[trigger] webvtt::trimmed(text::lines(body))[i],
            ),
    ensures
        webvtt::document("WEBVTT\n\n"@ + body) == match webvtt::block_reading(
            webvtt::trimmed(text::lines(body)),
        ) {
            None => Reading::<Seq<CueView>, ErrorView>::Done(Seq::empty()),
            Some(Reading::Done(c)) => Reading::Done(seq![c]),
            Some(Reading::Failed(e)) => Reading::Failed(e),
            Some(Reading::Unreadable) => Reading::Unreadable,
        },
{
    let ls = webvtt::trimmed(text::lines(body));
    webvtt::lemma_bare_track(body);
    assert(ls.len() == text::lines(body).len());
    lemma_one_block(ls);
    lemma_one_block_reading(ls);
}

/// Whether a line can be one of the text of a cue: it holds something, ends with it, and
/// is neither a timing line nor one with settings.
pub open spec fn is_text_line(line: Seq<char>) -> bool {
    &&& line.len() > 0
    &&& !text::is_white_space(line[line.len() - 1])
    &&& forall|i: int| 0 <= i < line.len() ==> #[trigger] line[i] != '\n'
    &&& !shows_arrow(line)
    &&& !webvtt::is_setting(line)
}

/// The lines behind the name: the timing line and the text.
proof fn lemma_lines_of_cue(start: Seq<char>, end: Seq<char>, said: Seq<Seq<char>>)
    requires
        forall|i: int| 0 <= i < start.len() ==> #[trigger] start[i] != '\n',
        forall|i: int| 0 <= i < end.len() ==> !text::is_white_space(#[trigger] end[i]),
        end.len() > 0,
        forall|i: int| 0 <= i < said.len() ==> is_text_line(#[trigger] said[i]),
    ensures
        text::lines(
            start + "-->"@ + (seq![' '] + end) + seq!['\n'] + text::join_lines(said),
        ) == seq![start + "-->"@ + (seq![' '] + end)] + said,
        webvtt::trimmed(seq![start + "-->"@ + (seq![' '] + end)] + said) == seq![
            start + "-->"@ + (seq![' '] + end),
        ] + said,
        !text::is_blank(start + "-->"@ + (seq![' '] + end)),
{
    reveal_strlit("-->");
    text::law_white_space('\n');
    text::law_white_space('\r');
    text::law_white_space('-');
    let timing = start + "-->"@ + (seq![' '] + end);
    assert(timing[timing.len() - 1] == end[end.len() - 1]);
    assert forall|i: int| 0 <= i < timing.len() implies #[trigger] timing[i] != '\n' by {
        if i < start.len() {
            assert(timing[i] == start[i]);
        } else if i >= start.len() + 4 {
            assert(timing[i] == end[i - start.len() - 4]);
        } else if i < start.len() + 3 {
            assert(timing[i] == "-->"@[i - start.len()]);
        } else {
            assert(timing[i] == ' ');
        }
    }
    text::law_lines(timing, text::join_lines(said));
    if said.len() > 0 {
        assert forall|i: int, k: int|
            0 <= i < said.len() && 0 <= k < said[i].len() implies #[trigger] said[i][k]
            != '\n' by {
            assert(is_text_line(said[i]));
        }
        assert forall|i: int| 0 <= i < said.len() && (#[trigger] said[i]).len() > 0 implies said[i].last()
            != '\r' by {
            assert(is_text_line(said[i]));
        }
        assert(is_text_line(said[said.len() - 1]));
        text::law_joined_lines_come_apart(said);
    } else {
        text::law_lines(Seq::empty(), Seq::empty());
        assert(said =~= Seq::<Seq<char>>::empty());
    }
    let ls = seq![timing] + said;
    assert forall|i: int| 0 <= i < ls.len() implies text::trim_end(#[trigger] ls[i]) == ls[i] by {
        if i > 0 {
            assert(ls[i] == said[i - 1]);
            assert(is_text_line(said[i - 1]));
        }
        text::law_trim_end(ls[i], Seq::empty());
        assert(ls[i] + Seq::<char>::empty() =~= ls[i]);
    }
    assert(webvtt::trimmed(ls) =~= ls);
    assert(timing[start.len() as int] == '-');
}

/// What a track comes to whose only block is timed by these timestamps.
pub open spec fn timed(
    id: Option<Seq<char>>,
    start: Seq<char>,
    end: Seq<char>,
    cue_text: Seq<char>,
) -> Reading<Seq<CueView>, ErrorView> {
    match (webvtt::moment(start), webvtt::moment(end)) {
        (Moment::At(from), Moment::At(to)) => Reading::Done(
            seq![CueView { id, start_ms: from, end_ms: to, text: cue_text, settings: None }],
        ),
        (Moment::At(_), Moment::Invalid) => Reading::Failed(ErrorView::InvalidTimestamp(end)),
        (Moment::At(_), Moment::Unreadable) => Reading::Unreadable,
        (Moment::Invalid, _) => Reading::Failed(ErrorView::InvalidTimestamp(text::trim(start))),
        (Moment::Unreadable, _) => Reading::Unreadable,
    }
}

/// A track of a line without an arrow, a timing line and lines of text has one cue: its
/// name is the first line, whatever it says, without white space at its end, its times
/// are those of the timing line, and its text the other lines, joined.
pub proof fn law_track_of_a_named_cue(
    name: Seq<char>,
    blanks: Seq<char>,
    start: Seq<char>,
    end: Seq<char>,
    said: Seq<Seq<char>>,
)
    requires
        name.len() > 0,
        !text::is_white_space(name[name.len() - 1]),
        forall|i: int| 0 <= i < name.len() ==> #[trigger] name[i] != '\n',
        !shows_arrow(name),
        forall|i: int|
            0 <= i < blanks.len() ==> text::is_white_space(#[trigger] blanks[i]) && blanks[i]
                != '\n',
        forall|i: int| 0 <= i < start.len() ==> #[trigger] start[i] != '\n',
        !shows_arrow(start),
        forall|i: int| 0 <= i < end.len() ==> !text::is_white_space(#[trigger] end[i]),
        end.len() > 0,
        !shows_arrow(end),
        forall|i: int| 0 <= i < said.len() ==> is_text_line(#[trigger] said[i]),
        said.len() > 0 ==> !text::starts_with(said[0], "NOTE"@),
    ensures
        webvtt::document(
            "WEBVTT\n\n"@ + (name + blanks + seq!['\n'] + (start + "-->"@ + (seq![' '] + end)
                + seq!['\n'] + text::join_lines(said))),
        ) == timed(Some(name), start, end, text::join_lines(said)),
{
    let timing = start + "-->"@ + (seq![' '] + end);
    let rest = timing + seq!['\n'] + text::join_lines(said);
    let first = name + blanks;
    let body = first + seq!['\n'] + rest;
    assert forall|i: int| 0 <= i < first.len() implies #[trigger] first[i] != '\n' by {
        if i < name.len() {
            assert(first[i] == name[i]);
        } else {
            assert(first[i] == blanks[i - name.len()]);
        }
    }
    lemma_first_line(first, rest);
    lemma_line_end(name, blanks);
    lemma_lines_of_cue(start, end, said);
    let tail = seq![timing] + said;
    let raw = seq![text::strip_cr(first)] + tail;
    assert(text::lines(body) == raw);
    let block = seq![name] + tail;
    assert forall|i: int| 0 <= i < raw.len() implies text::trim_end(#[trigger] raw[i])
        == block[i] by {
        if i > 0 {
            assert(raw[i] == tail[i - 1]);
            assert(webvtt::trimmed(tail)[i - 1] == text::trim_end(tail[i - 1]));
        }
    }
    assert(webvtt::trimmed(raw) =~= block);
    assert forall|i: int| 0 <= i < block.len() implies !text::is_blank(#[trigger] block[i]) by {
        if i == 0 {
            assert(!text::is_white_space(name[name.len() - 1]));
        } else if i > 1 {
            assert(block[i] == said[i - 2]);
            assert(is_text_line(said[i - 2]));
            assert(!text::is_white_space(block[i][block[i].len() - 1]));
        }
    }
    lemma_track_of_one_block(body);
    law_timing_line(start, seq![' '], end, Seq::empty());
    assert(seq![' '] + end + Seq::<char>::empty() =~= seq![' '] + end);
    law_arrow(timing);
    assert forall|i: int| 0 <= i < said.len() implies (#[trigger] said[i]).len() > 0
        && !shows_arrow(said[i]) && !webvtt::is_setting(said[i]) by {
        assert(is_text_line(said[i]));
    }
    law_block_of_a_cue(seq![name], timing, said);
    assert(seq![name].push(timing) + said =~= block);
    law_cue_is_read(
        Some(name),
        None,
        start,
        seq![' '],
        end,
        Seq::empty(),
        text::join_lines(said),
    );
}

/// A track of a timing line and lines of text has one cue, without a name.
pub proof fn law_track_of_a_cue(start: Seq<char>, end: Seq<char>, said: Seq<Seq<char>>)
    requires
        forall|i: int| 0 <= i < start.len() ==> #[trigger] start[i] != '\n',
        !shows_arrow(start),
        forall|i: int| 0 <= i < end.len() ==> !text::is_white_space(#[trigger] end[i]),
        end.len() > 0,
        !shows_arrow(end),
        forall|i: int| 0 <= i < said.len() ==> is_text_line(#[trigger] said[i]),
        said.len() > 0 ==> !text::starts_with(said[0], "NOTE"@),
    ensures
        webvtt::document(
            "WEBVTT\n\n"@ + (start + "-->"@ + (seq![' '] + end) + seq!['\n'] + text::join_lines(
                said,
            )),
        ) == timed(None, start, end, text::join_lines(said)),
{
    let timing = start + "-->"@ + (seq![' '] + end);
    let body = timing + seq!['\n'] + text::join_lines(said);
    lemma_lines_of_cue(start, end, said);
    let block = seq![timing] + said;
    assert forall|i: int| 0 <= i < block.len() implies !text::is_blank(#[trigger] block[i]) by {
        if i > 0 {
            assert(block[i] == said[i - 1]);
            assert(is_text_line(said[i - 1]));
            assert(!text::is_white_space(block[i][block[i].len() - 1]));
        }
    }
    lemma_track_of_one_block(body);
    law_timing_line(start, seq![' '], end, Seq::empty());
    assert(seq![' '] + end + Seq::<char>::empty() =~= seq![' '] + end);
    law_arrow(timing);
    assert forall|i: int| 0 <= i < said.len() implies (#[trigger] said[i]).len() > 0
        && !shows_arrow(said[i]) && !webvtt::is_setting(said[i]) by {
        assert(is_text_line(said[i]));
    }
    law_block_of_a_cue(Seq::empty(), timing, said);
    assert(Seq::<Seq<char>>::empty().push(timing) + said =~= block);
    law_cue_is_read(None, None, start, seq![' '], end, Seq::empty(), text::join_lines(said));
}

/// A byte order mark in front of a track does not matter, and an empty track has no cues.
pub proof fn law_mark_does_not_matter(input: Seq<char>)
    requires
        input.len() == 0 || input[0] != '\u{feff}',
    ensures
        webvtt::document(seq!['\u{feff}'] + input) == webvtt::document(input),
        input.len() == 0 ==> webvtt::document(input) == Reading::<Seq<CueView>, ErrorView>::Done(
            Seq::empty(),
        ),
{
    assert((seq!['\u{feff}'] + input).drop_first() =~= input);
    if input.len() == 0 {
        assert(input =~= Seq::<char>::empty());
        text::law_lines(Seq::empty(), Seq::empty());
    }
}

/// A track whose first line does not begin with `WEBVTT`, white space in front aside, has
/// no header and fails.
pub proof fn law_track_needs_its_header(first: Seq<char>, rest: Seq<char>)
    requires
        forall|i: int| 0 <= i < first.len() ==> #[trigger] first[i] != '\n',
        first.len() > 0,
        first[0] != '\u{feff}',
        !text::starts_with(text::trim_start(first), "WEBVTT"@),
    ensures
        webvtt::document(first) == Reading::<Seq<CueView>, ErrorView>::Failed(
            ErrorView::InvalidFormat("missing WEBVTT header"@),
        ),
        first[first.len() - 1] != '\r' ==> webvtt::document(first + seq!['\n'] + rest)
            == Reading::<Seq<CueView>, ErrorView>::Failed(
            ErrorView::InvalidFormat("missing WEBVTT header"@),
        ),
{
    text::law_lines(first, rest);
    let whole = first + seq!['\n'] + rest;
    assert(whole[0] == first[0]);
    assert((seq![first] + text::lines(rest))[0] == first);
}

/// What stands behind `WEBVTT` in the first line does not matter, nor do further lines up
/// to the first blank one: a header alone has no cues.
pub proof fn law_header_has_no_cues(behind: Seq<char>, more: Seq<Seq<char>>)
    requires
        is_header_line("WEBVTT"@ + behind),
        forall|i: int| 0 <= i < more.len() ==> is_header_line(#[trigger] more[i]),
    ensures
        webvtt::document(text::join_lines(seq!["WEBVTT"@ + behind] + more)) == Reading::<
            Seq<CueView>,
            ErrorView,
        >::Done(Seq::empty()),
{
    reveal_strlit("WEBVTT");
    let first = "WEBVTT"@ + behind;
    let ls = seq![first] + more;
    let input = text::join_lines(ls);
    text::law_white_space('\r');
    text::law_white_space('W');
    assert forall|i: int| 0 <= i < ls.len() implies is_header_line(#[trigger] ls[i]) by {
        if i > 0 {
            assert(ls[i] == more[i - 1]);
        }
    }
    assert forall|i: int, k: int| 0 <= i < ls.len() && 0 <= k < ls[i].len() implies #[trigger] ls[i][k]
        != '\n' by {
        assert(is_header_line(ls[i]));
    }
    assert forall|i: int| 0 <= i < ls.len() && (#[trigger] ls[i]).len() > 0 implies ls[i].last()
        != '\r' by {
        assert(is_header_line(ls[i]));
    }
    assert(is_header_line(ls[ls.len() - 1]));
    text::law_joined_lines_come_apart(ls);
    assert(first[0] == 'W');
    if more.len() == 0 {
        assert(ls =~= seq![first]);
    } else {
        text::lemma_join_first(first, more);
        assert(input[0] == first[0]);
    }
    assert(webvtt::unmarked(input) == input);
    assert(text::trim_start(first) == first);
    text::law_starts_with(first, "WEBVTT"@, behind);
    assert(ls.drop_first() =~= more);
    lemma_no_blank_line(more);
    let none = Seq::<Seq<char>>::empty();
    assert(webvtt::trimmed(none) =~= none);
    assert(webvtt::blocks(none) =~= seq![none]);
    lemma_one_block_reading(none);
}

/// Whether a line can be one of a header: it holds something and ends with it.
pub open spec fn is_header_line(line: Seq<char>) -> bool {
    &&& line.len() > 0
    &&& !text::is_white_space(line[line.len() - 1])
    &&& forall|i: int| 0 <= i < line.len() ==> #[trigger] line[i] != '\n'
}

/// Nothing stands behind a header without a blank line.
proof fn lemma_no_blank_line(ls: Seq<Seq<char>>)
    requires
        forall|i: int| 0 <= i < ls.len() ==> is_header_line(#[trigger] ls[i]),
    ensures
        webvtt::after_header(ls) == Seq::<Seq<char>>::empty(),
    decreases ls.len(),
{
    if ls.len() > 0 {
        assert(is_header_line(ls[0]));
        assert(!text::is_white_space(ls[0][ls[0].len() - 1]));
        let rest = ls.drop_first();
        assert forall|i: int| 0 <= i < rest.len() implies is_header_line(#[trigger] rest[i]) by {
            assert(rest[i] == ls[i + 1]);
        }
        lemma_no_blank_line(rest);
    } else {
        assert(ls =~= Seq::<Seq<char>>::empty());
    }
}

/// What is read in front of something comes first, and a failure stays.
pub proof fn law_cues_come_first(cues: Seq<CueView>, more: Seq<CueView>, e: ErrorView)
    ensures
        webvtt::with_cues(cues, Reading::Done(more)) == Reading::<Seq<CueView>, ErrorView>::Done(
            cues + more,
        ),
        webvtt::with_cues(cues, Reading::Failed(e)) == Reading::<Seq<CueView>, ErrorView>::Failed(
            e,
        ),
        webvtt::with_cues(cues, Reading::Unreadable) == Reading::<
            Seq<CueView>,
            ErrorView,
        >::Unreadable,
{
}

/// A cue is shown from its start to its end, both of them included.
pub proof fn law_cue_is_shown_from_start_to_end(cue: WebVttCue, time_ms: u64)
    ensures
        webvtt::is_active(cue, time_ms) <==> !(time_ms < cue.start_ms) && !(time_ms > cue.end_ms),
        cue.start_ms <= cue.end_ms ==> webvtt::is_active(cue, cue.start_ms) && webvtt::is_active(
            cue,
            cue.end_ms,
        ),
{
}

/// What a cue, an error and an outcome say is what they hold.
pub proof fn law_cues_say_what_they_hold(
    cue: WebVttCue,
    doc: WebVttDocument,
    s: String,
    i: int,
)
    ensures
        cue@.start_ms == cue.start_ms,
        cue@.end_ms == cue.end_ms,
        cue@.text == cue.text@,
        cue.id is None <==> cue@.id is None,
        cue.id is Some ==> cue@.id == Some((cue.id->0)@),
        cue.settings is None <==> cue@.settings is None,
        cue.settings is Some ==> cue@.settings == Some((cue.settings->0)@),
        doc@.len() == doc.cues@.len(),
        0 <= i < doc.cues@.len() ==> doc@[i] == doc.cues@[i]@,
        WebVttError::InvalidTimestamp(s)@ == ErrorView::InvalidTimestamp(s@),
        WebVttError::MissingTimestamps@ == ErrorView::MissingTimestamps,
        WebVttError::InvalidFormat(s)@ == ErrorView::InvalidFormat(s@),
        webvtt::cue_outcome(Reading::Done(cue)) == Reading::<CueView, ErrorView>::Done(cue@),
        webvtt::cue_outcome(Reading::Failed(WebVttError::InvalidTimestamp(s))) == Reading::<
            CueView,
            ErrorView,
        >::Failed(ErrorView::InvalidTimestamp(s@)),
        webvtt::cue_outcome(Reading::Failed(WebVttError::MissingTimestamps)) == Reading::<
            CueView,
            ErrorView,
        >::Failed(ErrorView::MissingTimestamps),
        webvtt::document_outcome(Reading::Done(doc)) == Reading::<Seq<CueView>, ErrorView>::Done(
            doc@,
        ),
        webvtt::document_outcome(Reading::Failed(WebVttError::InvalidTimestamp(s))) == Reading::<
            Seq<CueView>,
            ErrorView,
        >::Failed(ErrorView::InvalidTimestamp(s@)),
        webvtt::document_outcome(Reading::Failed(WebVttError::InvalidFormat(s))) == Reading::<
            Seq<CueView>,
            ErrorView,
        >::Failed(ErrorView::InvalidFormat(s@)),
        webvtt::document_outcome(Reading::Unreadable) == Reading::<
            Seq<CueView>,
            ErrorView,
        >::Unreadable,
{
}

/// Joined lines with a line feed behind the last one come apart into the same lines.
proof fn lemma_ended_lines(ls: Seq<Seq<char>>)
    requires
        ls.len() > 0,
        forall|i: int| 0 <= i < ls.len() ==> is_header_line(#[trigger] ls[i]),
    ensures
        text::lines(text::join_lines(ls) + seq!['\n']) == ls,
    decreases ls.len(),
{
    text::law_white_space('\r');
    let head = ls[0];
    let rest = ls.drop_first();
    assert(is_header_line(head));
    assert forall|i: int| 0 <= i < rest.len() implies is_header_line(#[trigger] rest[i]) by {
        assert(rest[i] == ls[i + 1]);
    }
    if rest.len() == 0 {
        assert(ls =~= seq![head]);
        text::law_lines(head, Seq::empty());
        assert(text::join_lines(ls) + seq!['\n'] =~= head + seq!['\n'] + Seq::<char>::empty());
    } else {
        lemma_ended_lines(rest);
        text::lemma_join_first(head, rest);
        assert(ls =~= seq![head] + rest);
        assert(text::join_lines(ls) + seq!['\n'] =~= head + seq!['\n'] + (text::join_lines(rest)
            + seq!['\n']));
        text::law_lines(head, text::join_lines(rest) + seq!['\n']);
    }
}

/// The cues of a track are those behind its header, whatever stands behind `WEBVTT` and in
/// the lines up to the first empty one.
pub proof fn law_header_does_not_matter(
    behind: Seq<char>,
    more: Seq<Seq<char>>,
    body: Seq<char>,
)
    requires
        is_header_line("WEBVTT"@ + behind),
        forall|i: int| 0 <= i < more.len() ==> is_header_line(#[trigger] more[i]),
    ensures
        webvtt::document(
            text::join_lines(seq!["WEBVTT"@ + behind] + more) + seq!['\n'] + seq!['\n'] + body,
        ) == webvtt::document("WEBVTT\n\n"@ + body),
{
    reveal_strlit("WEBVTT");
    let first = "WEBVTT"@ + behind;
    let ls = seq![first] + more;
    let a = text::join_lines(ls) + seq!['\n'];
    text::law_white_space('W');
    assert forall|i: int| 0 <= i < ls.len() implies is_header_line(#[trigger] ls[i]) by {
        if i > 0 {
            assert(ls[i] == more[i - 1]);
        }
    }
    lemma_ended_lines(ls);
    assert(first[0] == 'W');
    if more.len() == 0 {
        assert(ls =~= seq![first]);
        assert(a[0] == first[0]);
    } else {
        text::lemma_join_first(first, more);
        assert(a[0] == first[0]);
    }
    assert(webvtt::unmarked(a) == a);
    assert(text::trim_start(first) == first);
    text::law_starts_with(first, "WEBVTT"@, behind);
    assert(ls.drop_first() =~= more);
    lemma_no_blank_line(more);
    let none = Seq::<Seq<char>>::empty();
    assert(webvtt::trimmed(none) =~= none);
    assert(webvtt::blocks(none) =~= seq![none]);
    lemma_one_block_reading(none);
    webvtt::law_texts_in_order(a, body);
    webvtt::lemma_with_no_cues(webvtt::document("WEBVTT\n\n"@ + body));
}

/// A line of white space ends the header as an empty one does.
pub proof fn law_white_space_ends_the_header(blanks: Seq<char>, body: Seq<char>)
    requires
        forall|i: int|
            0 <= i < blanks.len() ==> text::is_white_space(#[trigger] blanks[i]) && blanks[i]
                != '\n',
    ensures
        webvtt::document("WEBVTT\n"@ + (blanks + seq!['\n'] + body)) == webvtt::document(
            "WEBVTT\n\n"@ + body,
        ),
{
    reveal_strlit("WEBVTT\n");
    reveal_strlit("WEBVTT");
    let rest = blanks + seq!['\n'] + body;
    let input = "WEBVTT\n"@ + rest;
    assert("WEBVTT\n"@ =~= "WEBVTT"@ + seq!['\n']);
    text::law_lines("WEBVTT"@, rest);
    assert(input =~= "WEBVTT"@ + seq!['\n'] + rest);
    lemma_first_line(blanks, body);
    let ls = seq!["WEBVTT"@] + (seq![text::strip_cr(blanks)] + text::lines(body));
    assert(webvtt::header_lines(input) =~= ls);
    assert(text::is_blank(text::strip_cr(blanks)));
    assert(ls.drop_first()[0] == text::strip_cr(blanks));
    assert(ls.drop_first().drop_first() =~= text::lines(body));
    text::law_white_space('W');
    assert(text::trim_start("WEBVTT"@) == "WEBVTT"@);
    text::law_starts_with("WEBVTT"@, "WEBVTT"@, Seq::empty());
    assert("WEBVTT"@ + Seq::<char>::empty() =~= "WEBVTT"@);
    webvtt::lemma_bare_track(body);
}

/// White space around a timestamp does not matter.
pub proof fn law_white_space_around_timestamps(
    before: Seq<char>,
    ts: Seq<char>,
    after: Seq<char>,
)
    requires
        forall|i: int| 0 <= i < before.len() ==> text::is_white_space(#[trigger] before[i]),
        forall|i: int| 0 <= i < after.len() ==> text::is_white_space(#[trigger] after[i]),
        ts.len() > 0 ==> !text::is_white_space(ts[0]) && !text::is_white_space(ts[ts.len() - 1]),
    ensures
        webvtt::moment(before + ts + after) == webvtt::moment(ts),
{
    text::law_trim(before, ts, after);
    text::law_trim(Seq::empty(), ts, Seq::empty());
    assert(Seq::<char>::empty() + ts + Seq::<char>::empty() =~= ts);
}

/// What hours, minutes and seconds come to: the hours and the minutes must be numbers, and
/// count 3600000 and 60000 milliseconds.
pub proof fn law_timestamp_of_three_parts(h: Seq<char>, m: Seq<char>, s: Seq<char>)
    requires
        text::lacks(h, ':') && text::lacks(m, ':') && text::lacks(s, ':'),
        (h + seq![':'] + m + seq![':'] + s).len() > 0,
        !text::is_white_space((h + seq![':'] + m + seq![':'] + s)[0]),
        !text::is_white_space((h + seq![':'] + m + seq![':'] + s).last()),
    ensures
        webvtt::moment(h + seq![':'] + m + seq![':'] + s) == match (
            text::unsigned_value(h),
            text::unsigned_value(m),
        ) {
            (Some(hours), Some(mins)) => webvtt::seconds_moment(
                3600000 * hours + 60000 * mins,
                s,
            ),
            _ => Moment::Invalid,
        },
{
    let ts = h + seq![':'] + m + seq![':'] + s;
    text::lemma_trimmed(ts);
    let rest = m + seq![':'] + s;
    assert(ts =~= h + seq![':'] + rest);
    text::law_split(h, ':', rest);
    text::law_split(m, ':', s);
    text::law_split(s, ':', Seq::empty());
    assert(text::split(ts, ':') =~= seq![h, m, s]);
}

/// What minutes and seconds come to: the minutes must be a number, and count 60000
/// milliseconds.
pub proof fn law_timestamp_of_two_parts(m: Seq<char>, s: Seq<char>)
    requires
        text::lacks(m, ':') && text::lacks(s, ':'),
        !text::is_white_space((m + seq![':'] + s)[0]),
        !text::is_white_space((m + seq![':'] + s).last()),
    ensures
        webvtt::moment(m + seq![':'] + s) == match text::unsigned_value(m) {
            Some(mins) => webvtt::seconds_moment(60000 * mins, s),
            None => Moment::Invalid,
        },
{
    let ts = m + seq![':'] + s;
    text::lemma_trimmed(ts);
    text::law_split(m, ':', s);
    text::law_split(s, ':', Seq::empty());
    assert(text::split(ts, ':') =~= seq![m, s]);
}

/// A text without a colon, or with three or more, is no timestamp.
pub proof fn law_other_parts_are_no_timestamp(
    a: Seq<char>,
    b: Seq<char>,
    c: Seq<char>,
    rest: Seq<char>,
)
    requires
        text::lacks(a, ':') && text::lacks(b, ':') && text::lacks(c, ':'),
        !text::is_white_space((a + seq![':'] + b + seq![':'] + c + seq![':'] + rest)[0]),
        !text::is_white_space((a + seq![':'] + b + seq![':'] + c + seq![':'] + rest).last()),
    ensures
        webvtt::moment(a + seq![':'] + b + seq![':'] + c + seq![':'] + rest) == Moment::Invalid,
        webvtt::moment(a) == Moment::Invalid,
{
    let ts = a + seq![':'] + b + seq![':'] + c + seq![':'] + rest;
    text::lemma_trimmed(ts);
    let x = c + seq![':'] + rest;
    let y = b + seq![':'] + x;
    assert(ts =~= a + seq![':'] + y);
    text::law_split(a, ':', y);
    text::law_split(b, ':', x);
    text::law_split(c, ':', rest);
    text::lemma_split_nonempty(rest, ':');
    assert(text::split(ts, ':').len() == 3 + text::split(rest, ':').len());
    lemma_trim_within(a);
    let t = text::trim(a);
    assert forall|i: int| 0 <= i < t.len() implies #[trigger] t[i] != ':' by {
        assert(a.contains(t[i]));
    }
    text::law_split(t, ':', Seq::empty());
}

/// A trimmed text holds nothing that the text does not.
proof fn lemma_trim_within(s: Seq<char>)
    ensures
        forall|i: int| 0 <= i < text::trim(s).len() ==> s.contains(#[trigger] text::trim(s)[i]),
{
    let a = text::trim_start(s);
    let t = text::trim(s);
    text::lemma_trim_start(s);
    text::lemma_trim_end(a);
    assert forall|i: int| 0 <= i < t.len() implies s.contains(#[trigger] t[i]) by {
        assert(t[i] == a[i]);
        assert(a[i] == s[i + s.len() - a.len()]);
    }
}

/// Seconds count 1000 milliseconds, and their fraction, between the first full stop and
/// the next, its own. What is no number is no timestamp, and what exceeds 64 bits or has
/// no fraction that can be read has no reading.
pub proof fn law_seconds_and_fraction(
    before: nat,
    s: Seq<char>,
    f: Seq<char>,
    rest: Seq<char>,
)
    requires
        text::lacks(s, '.') && text::lacks(f, '.'),
        rest.len() > 0 ==> rest[0] == '.',
    ensures
        webvtt::seconds_moment(before as int, s) == match text::unsigned_value(s) {
            Some(n) => if before + 1000 * n <= u64::MAX {
                Moment::At((before + 1000 * n) as u64)
            } else {
                Moment::Unreadable
            },
            None => Moment::Invalid,
        },
        webvtt::seconds_moment(before as int, s + seq!['.'] + (f + rest))
            == match text::unsigned_value(s) {
            Some(n) => match webvtt::fraction_millis(f) {
                Some(ms) => if before + 1000 * n + ms <= u64::MAX {
                    Moment::At((before + 1000 * n + ms) as u64)
                } else {
                    Moment::Unreadable
                },
                None => Moment::Unreadable,
            },
            None => Moment::Invalid,
        },
{
    text::law_split(s, '.', f + rest);
    text::law_split(f, '.', Seq::empty());
    if rest.len() > 0 {
        let more = rest.drop_first();
        assert(f + rest =~= f + seq!['.'] + more);
        text::law_split(f, '.', more);
    } else {
        assert(f + rest =~= f);
    }
    assert(text::split(f + rest, '.')[0] == f);
    let parts = text::split(s + seq!['.'] + (f + rest), '.');
    assert(parts[0] == s && parts[1] == f && parts.len() > 1);
}

/// A fraction counts tenths, hundredths and thousandths of a second: one digit counts 100
/// milliseconds each, a second one 10 and a third one 1, and further digits nothing. An
/// empty fraction is none.
pub proof fn law_fraction_of_digits(f: Seq<char>)
    requires
        forall|i: int| 0 <= i < f.len() ==> '0' <= #[trigger] f[i] <= '9',
    ensures
        f.len() == 0 ==> webvtt::fraction_millis(f) == Some(0u64),
        f.len() == 1 ==> webvtt::fraction_millis(f) == Some((100 * (f[0] as u32 - 48)) as u64),
        f.len() == 2 ==> webvtt::fraction_millis(f) == Some(
            (100 * (f[0] as u32 - 48) + 10 * (f[1] as u32 - 48)) as u64,
        ),
        f.len() >= 3 ==> webvtt::fraction_millis(f) == Some(
            (100 * (f[0] as u32 - 48) + 10 * (f[1] as u32 - 48) + (f[2] as u32 - 48)) as u64,
        ),
{
    let p = webvtt::zero_padded(f);
    assert(p.len() >= 3);
    assert('0' <= p[0] <= '9' && '0' <= p[1] <= '9' && '0' <= p[2] <= '9');
    let d = p.take(3);
    assert(webvtt::three_bytes(p) == Some(d));
    lemma_three_digits(d);
    if f.len() == 0 {
        assert(p[0] == '0' && p[1] == '0' && p[2] == '0');
    } else if f.len() == 1 {
        assert(p[0] == f[0] && p[1] == '0' && p[2] == '0');
    } else if f.len() == 2 {
        assert(p[0] == f[0] && p[1] == f[1] && p[2] == '0');
    } else {
        assert(p == f);
    }
}

/// Three digits as a number.
proof fn lemma_three_digits(d: Seq<char>)
    requires
        d.len() == 3,
        '0' <= d[0] <= '9',
        '0' <= d[1] <= '9',
        '0' <= d[2] <= '9',
    ensures
        text::unsigned_value(d) == Some(
            (100 * (d[0] as u32 - 48) + 10 * (d[1] as u32 - 48) + (d[2] as u32 - 48)) as u64,
        ),
{
    let a = seq![d[0]];
    let b = a.push(d[1]);
    assert(d =~= b.push(d[2]));
    text::law_unsigned(Seq::empty(), d[0]);
    assert(a[0] == d[0] && seq!['+'][0] == '+');
    text::law_unsigned(a, d[1]);
    assert(b[0] == d[0]);
    text::law_unsigned(b, d[2]);
}

/// A fraction whose first three characters are ASCII and no number counts nothing; shorter
/// ones are filled up with zeros first.
pub proof fn law_fraction_that_is_no_number(f: Seq<char>, filled: Seq<char>)
    requires
        filled == f + seq!['0', '0', '0'],
        (filled[0] as u32) < 0x80 && (filled[1] as u32) < 0x80 && (filled[2] as u32) < 0x80,
    ensures
        webvtt::fraction_millis(f) == match text::unsigned_value(filled.take(3)) {
            Some(n) => Some(n),
            None => Some(0u64),
        },
{
    let p = webvtt::zero_padded(f);
    assert(p.take(3) =~= filled.take(3));
    assert(p[0] == filled[0] && p[1] == filled[1] && p[2] == filled[2]);
}

/// Of a fraction with other characters three bytes count: where they end with a character
/// they are no number and count nothing, and where they end inside of one the fraction has
/// no reading.
pub proof fn law_fraction_of_other_characters(f: Seq<char>, filled: Seq<char>)
    requires
        filled == f + seq!['0', '0', '0'],
    ensures
        0x80 <= (filled[0] as u32) < 0x800 && (filled[1] as u32) < 0x80 ==> webvtt::fraction_millis(
            f,
        ) == Some(0u64),
        0x80 <= (filled[0] as u32) < 0x800 && (filled[1] as u32) >= 0x80
            ==> webvtt::fraction_millis(f) is None,
        0x800 <= (filled[0] as u32) < 0x10000 ==> webvtt::fraction_millis(f) == Some(0u64),
        0x10000 <= filled[0] as u32 ==> webvtt::fraction_millis(f) is None,
        (filled[0] as u32) < 0x80 && 0x80 <= (filled[1] as u32) < 0x800 ==> webvtt::fraction_millis(
            f,
        ) == Some(0u64),
        (filled[0] as u32) < 0x80 && 0x800 <= filled[1] as u32 ==> webvtt::fraction_millis(f)
            is None,
        (filled[0] as u32) < 0x80 && (filled[1] as u32) < 0x80 && 0x80 <= filled[2] as u32
            ==> webvtt::fraction_millis(f) is None,
{
    let p = webvtt::zero_padded(f);
    assert(p.len() >= 3);
    assert(p[0] == filled[0] && p[1] == filled[1] && p[2] == filled[2]);
    lemma_no_number(p.take(1), 0);
    lemma_no_number(p.take(2), 0);
    lemma_no_number(p.take(2), 1);
    assert(p.take(1)[0] == p[0] && p.take(2)[0] == p[0] && p.take(2)[1] == p[1]);
}

/// A text with a character that is neither digit nor sign is no number.
proof fn lemma_no_number(s: Seq<char>, k: int)
    requires
        0 <= k < s.len(),
    ensures
        s[k] as u32 >= 0x80 ==> text::unsigned_value(s) is None,
{
    if s[k] as u32 >= 0x80 {
        let d = text::unsigned_digits(s);
        if s[0] == '+' {
            assert(d[k - 1] == s[k]);
            assert(!text::is_digit(d[k - 1]));
        } else {
            assert(d[k] == s[k]);
            assert(!text::is_digit(d[k]));
        }
    }
}

/// What a timestamp gives a cue: its milliseconds, or the error with the timestamp, without
/// white space around it.
pub proof fn law_timestamps_are_told(ts: Seq<char>)
    ensures
        match webvtt::moment(ts) {
            Moment::At(ms) => webvtt::timestamp_reading(ts) == Reading::<u64, ErrorView>::Done(ms),
            Moment::Invalid => webvtt::timestamp_reading(ts) == Reading::<u64, ErrorView>::Failed(
                ErrorView::InvalidTimestamp(text::trim(ts)),
            ),
            Moment::Unreadable => webvtt::timestamp_reading(ts) is Unreadable,
        },
{
}

/// White space in front of the header does not matter.
pub proof fn law_white_space_before_the_header(blanks: Seq<char>, input: Seq<char>)
    requires
        forall|i: int|
            0 <= i < blanks.len() ==> text::is_white_space(#[trigger] blanks[i]) && blanks[i]
                != '\n',
        text::starts_with(input, "WEBVTT"@),
    ensures
        webvtt::document(blanks + input) == webvtt::document(input),
        !(webvtt::document(input) matches Reading::Failed(ErrorView::InvalidFormat(_))),
{
    reveal_strlit("WEBVTT");
    text::law_starts_with(input, "WEBVTT"@, Seq::empty());
    assert(input.take(6)[0] == 'W');
    text::law_white_space('W');
    text::law_white_space('\u{feff}');
    let all = blanks + input;
    if blanks.len() > 0 {
        assert(all[0] == blanks[0]);
    } else {
        assert(all[0] == input[0]);
    }
    assert(webvtt::unmarked(all) == all && webvtt::unmarked(input) == input);
    let (first, rest) = lemma_cut_first_line(input);
    assert(first.len() >= 6 && first.take(6) == "WEBVTT"@) by {
        if first.len() < 6 {
            assert(first.len() < input.len());
            assert(input[first.len() as int] == '\n' || input[first.len() as int] == '\r');
            assert(input.take(6)[first.len() as int] == "WEBVTT"@[first.len() as int]);
        } else {
            assert(first.take(6) =~= input.take(6));
        }
    }
    assert(first[0] == 'W') by {
        assert(first.take(6)[0] == 'W');
    }
    text::law_trim_start(blanks, first);
    assert(text::trim_start(first) == first);
    text::law_starts_with(first, "WEBVTT"@, Seq::empty());
    lemma_lines_behind_blanks(blanks, input, first, rest);
    let ls = text::lines(input);
    let more = text::lines(all);
    assert(ls[0] == first && more[0] == blanks + first);
    assert(ls.drop_first() =~= rest);
    assert(more.drop_first() =~= rest);
    lemma_no_format_error(webvtt::blocks(webvtt::body_lines(input)));
}

/// Reading blocks never finds a header missing.
proof fn lemma_no_format_error(bs: Seq<Seq<Seq<char>>>)
    ensures
        !(webvtt::blocks_reading(bs) matches Reading::Failed(ErrorView::InvalidFormat(_))),
    decreases bs.len(),
{
    if bs.len() > 0 {
        lemma_no_format_error(bs.drop_first());
    }
}

/// The first line of a text that is not empty, and the lines behind it.
proof fn lemma_cut_first_line(input: Seq<char>) -> (r: (Seq<char>, Seq<Seq<char>>))
    requires
        input.len() > 0,
    ensures
        text::lines(input) == seq![r.0] + r.1,
        r.0.len() <= input.len(),
        r.0 == input.take(r.0.len() as int),
        r.0.len() < input.len() ==> input[r.0.len() as int] == '\n' || input[r.0.len() as int]
            == '\r',
        forall|i: int| 0 <= i < r.0.len() ==> #[trigger] r.0[i] != '\n',
{
    text::law_position(input, '\n');
    match text::position(input, '\n') {
        Some(i) => {
            let line = input.take(i);
            let first = text::strip_cr(line);
            assert(first =~= input.take(first.len() as int));
            assert(text::lines(input) == seq![first] + text::lines(input.skip(i + 1)));
            (first, text::lines(input.skip(i + 1)))
        },
        None => {
            assert(input.take(input.len() as int) =~= input);
            assert(text::lines(input) =~= seq![input] + Seq::<Seq<char>>::empty());
            (input, Seq::<Seq<char>>::empty())
        },
    }
}

/// White space in front of a text stands in front of its first line.
proof fn lemma_lines_behind_blanks(
    blanks: Seq<char>,
    input: Seq<char>,
    first: Seq<char>,
    rest: Seq<Seq<char>>,
)
    requires
        forall|i: int| 0 <= i < blanks.len() ==> #[trigger] blanks[i] != '\n',
        input.len() > 0,
        text::lines(input) == seq![first] + rest,
        first.len() > 0,
    ensures
        text::lines(blanks + input) == seq![blanks + first] + rest,
{
    let all = blanks + input;
    let n = blanks.len() as int;
    text::law_position(input, '\n');
    text::law_position(all, '\n');
    assert(text::lines(input)[0] == first);
    match text::position(input, '\n') {
        Some(i) => {
            assert(all[n + i] == '\n');
            let k = text::position(all, '\n')->0;
            if k < n {
                assert(all[k] == blanks[k]);
            } else if k < n + i {
                assert(all[k] == input[k - n]);
            }
            assert(k == n + i);
            let line = input.take(i);
            assert(all.take(k) =~= blanks + line);
            assert(all.skip(k + 1) =~= input.skip(i + 1));
            assert(first == text::strip_cr(line));
            assert((blanks + line).last() == line.last());
            assert(text::strip_cr(blanks + line) =~= blanks + first);
            assert(rest =~= text::lines(input).drop_first());
            assert(text::lines(input.skip(i + 1)) =~= text::lines(input).drop_first());
        },
        None => {
            assert forall|j: int| 0 <= j < all.len() implies all[j] != '\n' by {
                if j >= n {
                    assert(all[j] == input[j - n]);
                } else {
                    assert(all[j] == blanks[j]);
                }
            }
            assert(first == input);
            assert(rest =~= text::lines(input).drop_first());
            assert(rest =~= Seq::<Seq<char>>::empty());
            assert(text::lines(all) =~= seq![blanks + first] + rest);
        },
    }
}

} // verus!
