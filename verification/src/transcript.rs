//! Transcripts: the times in them, where a time stands, and the speakers.
use crate::clock::{clock_time, parse_time_to_us, ClockTime};
use crate::pattern::{
    compile, first_captures, group_of, regex_compiled, regex_first_captures, text_of_group,
};
use crate::text::{lines, split_lines, views};
use regex::Regex;
use vstd::prelude::*;
use vstd::string::*;

verus! {

/// A pair of clock times with a dash or an arrow between them.
pub const RANGE_PATTERN: &'static str = r"(?P<a>\d{1,2}:\d{2}:\d{2}(?:[.,]\d{1,3})?)\s*(?:-->|-)\s*(?P<b>\d{1,2}:\d{2}:\d{2}(?:[.,]\d{1,3})?)";

/// A pair of clock times in brackets.
pub const BRACKET_PATTERN: &'static str = r"\[(?P<a>\d{1,2}:\d{2}:\d{2}(?:[.,]\d{1,3})?)\s*-\s*(?P<b>\d{1,2}:\d{2}:\d{2}(?:[.,]\d{1,3})?)\]";

/// The tag of a speaker.
pub const SPEAKER_PATTERN: &'static str = r"(?i)\bSPEAKER[_ ]?(\d{1,3})\b";

/// A line of a transcript that says when it was spoken. Times are in microseconds from the start
/// of the recording.
#[derive(Debug, Clone, Copy, PartialEq, Eq, Structural)]
pub struct TranscriptCue {
    pub line_index: usize,
    pub start_us: u64,
    pub end_us: u64,
}

/// The first two groups of the first match of `pattern` in `line`.
pub open spec fn first_pair(pattern: Seq<char>, line: Seq<char>) -> Option<(Seq<char>, Seq<char>)> {
    match regex_compiled(pattern) {
        Some(re) => match regex_first_captures(re, line) {
            Some(groups) => Some((group_of(line, groups, 1), group_of(line, groups, 2))),
            None => None,
        },
        None => None,
    }
}

/// The two clock times that a line of a transcript holds, as they are written.
pub open spec fn line_times(line: Seq<char>) -> Option<(Seq<char>, Seq<char>)> {
    match first_pair(RANGE_PATTERN@, line) {
        Some(pair) => Some(pair),
        None => first_pair(BRACKET_PATTERN@, line),
    }
}

/// The contents of a pair of texts.
pub open spec fn pair_view(pair: Option<(String, String)>) -> Option<(Seq<char>, Seq<char>)> {
    match pair {
        Some((a, b)) => Some((a@, b@)),
        None => None,
    }
}

/// The first two groups of the first match of a compiled pattern in `line`.
fn find_first_pair(re: &Option<Regex>, pattern: &str, line: &str) -> (r: Option<(String, String)>)
    requires
        *re == regex_compiled(pattern@),
    ensures
        pair_view(r) == first_pair(pattern@, line@),
{
    match re {
        Some(compiled) => match first_captures(compiled, line) {
            Some(groups) => Some(
                (
                    text_of_group(line, &groups, 1).to_owned(),
                    text_of_group(line, &groups, 2).to_owned(),
                ),
            ),
            None => None,
        },
        None => None,
    }
}

/// The cues of the first lines of a transcript, given the times that stand in each: a line whose
/// two times can be read and counted gives one.
pub open spec fn cues_of(times: Seq<Option<(Seq<char>, Seq<char>)>>) -> Seq<TranscriptCue>
    decreases times.len(),
{
    if times.len() == 0 {
        Seq::empty()
    } else {
        let before = cues_of(times.drop_last());
        match times.last() {
            Some((a, b)) => match (clock_time(a), clock_time(b)) {
                (ClockTime::At(start_us), ClockTime::At(end_us)) => before.push(
                    TranscriptCue { line_index: (times.len() - 1) as usize, start_us, end_us },
                ),
                _ => before,
            },
            None => before,
        }
    }
}

/// The contents of a list of pairs of texts.
pub open spec fn pair_views(times: Seq<Option<(String, String)>>) -> Seq<
    Option<(Seq<char>, Seq<char>)>,
> {
    Seq::new(times.len(), |i: int| pair_view(times[i]))
}

/// The cues of a transcript, given the times that stand in each of its lines.
pub fn cues_from_times(times: &Vec<Option<(String, String)>>) -> (r: Vec<TranscriptCue>)
    ensures
        r@ == cues_of(pair_views(times@)),
{
    let ghost all = pair_views(times@);
    let mut cues: Vec<TranscriptCue> = Vec::new();
    let mut i: usize = 0;
    while i < times.len()
        invariant
            i <= times@.len(),
            all == pair_views(times@),
            cues@ == cues_of(all.take(i as int)),
        decreases times@.len() - i,
    {
        assert(all.take(i + 1).drop_last() =~= all.take(i as int));
        assert(all.take(i + 1).last() == pair_view(times@[i as int]));
        if let Some((a, b)) = &times[i] {
            if let (ClockTime::At(start_us), ClockTime::At(end_us)) = (
                parse_time_to_us(a.as_str()),
                parse_time_to_us(b.as_str()),
            ) {
                cues.push(TranscriptCue { line_index: i, start_us, end_us });
            }
        }
        i += 1;
    }
    assert(all.take(i as int) =~= all);
    cues
}

/// The times that stand in each line of `text`.
pub open spec fn times_in(text: Seq<char>) -> Seq<Option<(Seq<char>, Seq<char>)>> {
    Seq::new(lines(text).len(), |i: int| line_times(lines(text)[i]))
}

/// The cues of a transcript.
#[verifier::opaque]
pub open spec fn cues_in(text: Seq<char>) -> Seq<TranscriptCue> {
    cues_of(times_in(text))
}

/// The cues of a transcript.
pub fn parse_transcript(text: &str) -> (r: Vec<TranscriptCue>)
    ensures
        r@ == cues_in(text@),
{
    reveal(cues_in);
    let range_re: Option<Regex> = compile(RANGE_PATTERN);
    let bracket_re: Option<Regex> = compile(BRACKET_PATTERN);
    let ls: Vec<String> = split_lines(text);
    let mut times: Vec<Option<(String, String)>> = Vec::new();
    let mut i: usize = 0;
    while i < ls.len()
        invariant
            i <= ls@.len(),
            views(ls@) == lines(text@),
            range_re == regex_compiled(RANGE_PATTERN@),
            bracket_re == regex_compiled(BRACKET_PATTERN@),
            times@.len() == i,
            forall|k: int| 0 <= k < i ==> pair_view(#[trigger] times@[k]) == times_in(text@)[k],
        decreases ls@.len() - i,
    {
        let line: &str = ls[i].as_str();
        assert(views(ls@)[i as int] == ls@[i as int]@);
        let pair: Option<(String, String)> = match find_first_pair(&range_re, RANGE_PATTERN, line) {
            Some(pair) => Some(pair),
            None => find_first_pair(&bracket_re, BRACKET_PATTERN, line),
        };
        times.push(pair);
        i += 1;
    }
    assert(views(ls@).len() == ls@.len());
    assert(pair_views(times@) =~= times_in(text@));
    cues_from_times(&times)
}

/// Whether a cue is being spoken at `t`.
pub open spec fn covers(cue: TranscriptCue, t: u64) -> bool {
    cue.start_us <= t && t <= cue.end_us
}

/// The first cue that is being spoken at `t`; the number of cues where there is none.
pub open spec fn first_covering(cues: Seq<TranscriptCue>, t: u64) -> nat
    decreases cues.len(),
{
    if cues.len() == 0 || covers(cues[0], t) {
        0
    } else {
        1 + first_covering(cues.drop_first(), t)
    }
}

/// The last cue that has begun at `t`.
pub open spec fn last_begun(cues: Seq<TranscriptCue>, t: u64) -> Option<nat>
    decreases cues.len(),
{
    if cues.len() == 0 {
        None
    } else if cues.last().start_us <= t {
        Some((cues.len() - 1) as nat)
    } else {
        last_begun(cues.drop_last(), t)
    }
}

/// The cue that belongs to the time `t`: the first that is being spoken, else the last that has
/// begun.
pub open spec fn active_cue(cues: Seq<TranscriptCue>, t: u64) -> Option<nat> {
    if first_covering(cues, t) < cues.len() {
        Some(first_covering(cues, t))
    } else {
        last_begun(cues, t)
    }
}

/// Where the first cue that is being spoken stands: nowhere, or at the first index that is.
pub proof fn lemma_first_covering(cues: Seq<TranscriptCue>, t: u64)
    ensures
        first_covering(cues, t) <= cues.len(),
        forall|k: int| 0 <= k < first_covering(cues, t) ==> !covers(#[trigger] cues[k], t),
        first_covering(cues, t) < cues.len() ==> covers(cues[first_covering(cues, t) as int], t),
    decreases cues.len(),
{
    if cues.len() > 0 && !covers(cues[0], t) {
        let rest = cues.drop_first();
        lemma_first_covering(rest, t);
        assert forall|k: int| 0 <= k < first_covering(cues, t) implies !covers(
            #[trigger] cues[k],
            t,
        ) by {
            if k > 0 {
                assert(cues[k] == rest[k - 1]);
            }
        }
    }
}

/// The cue that belongs to the time `t`.
fn find_active_cue(cues: &[TranscriptCue], t: u64) -> (r: Option<usize>)
    ensures
        match r {
            Some(i) => active_cue(cues@, t) == Some(i as nat) && i < cues@.len(),
            None => active_cue(cues@, t) is None,
        },
{
    proof {
        lemma_first_covering(cues@, t);
    }
    let mut i: usize = 0;
    while i < cues.len()
        invariant
            i <= first_covering(cues@, t) <= cues@.len(),
            first_covering(cues@, t) < cues@.len() ==> covers(
                cues@[first_covering(cues@, t) as int],
                t,
            ),
            forall|k: int| 0 <= k < first_covering(cues@, t) ==> !covers(#[trigger] cues@[k], t),
        decreases cues@.len() - i,
    {
        let cue: TranscriptCue = cues[i];
        if t >= cue.start_us && t <= cue.end_us {
            assert(covers(cues@[i as int], t));
            return Some(i);
        }
        i += 1;
    }
    let mut n: usize = cues.len();
    assert(cues@.take(n as int) =~= cues@);
    while n > 0
        invariant
            n <= cues@.len(),
            first_covering(cues@, t) == cues@.len(),
            last_begun(cues@, t) == last_begun(cues@.take(n as int), t),
        decreases n,
    {
        assert(cues@.take(n as int).drop_last() =~= cues@.take(n - 1));
        if t >= cues[n - 1].start_us {
            return Some(n - 1);
        }
        n -= 1;
    }
    None
}

/// The line that belongs to the time `t`.
pub fn cue_index_at_time(cues: &[TranscriptCue], t: u64) -> (r: Option<usize>)
    ensures
        r == match active_cue(cues@, t) {
            Some(i) => Some(cues@[i as int].line_index),
            None => None,
        },
{
    match find_active_cue(cues, t) {
        Some(i) => Some(cues[i].line_index),
        None => None,
    }
}

/// The last cue at or before a line.
pub open spec fn last_upto_line(cues: Seq<TranscriptCue>, line: usize) -> Option<nat>
    decreases cues.len(),
{
    if cues.len() == 0 {
        None
    } else if cues.last().line_index <= line {
        Some((cues.len() - 1) as nat)
    } else {
        last_upto_line(cues.drop_last(), line)
    }
}

/// When a line is spoken: the start of the last cue at or before it, or, where there is none, of the
/// first cue of all.
pub open spec fn line_start_time(cues: Seq<TranscriptCue>, line: usize) -> Option<u64> {
    match last_upto_line(cues, line) {
        Some(i) => Some(cues[i as int].start_us),
        None => if cues.len() > 0 {
            Some(cues[0].start_us)
        } else {
            None
        },
    }
}

/// When a line is spoken.
pub fn cue_start_for_line(cues: &[TranscriptCue], line_idx: usize) -> (r: Option<u64>)
    ensures
        r == line_start_time(cues@, line_idx),
{
    let mut n: usize = cues.len();
    assert(cues@.take(n as int) =~= cues@);
    while n > 0
        invariant
            n <= cues@.len(),
            last_upto_line(cues@, line_idx) == last_upto_line(cues@.take(n as int), line_idx),
        decreases n,
    {
        assert(cues@.take(n as int).drop_last() =~= cues@.take(n - 1));
        if cues[n - 1].line_index <= line_idx {
            return Some(cues[n - 1].start_us);
        }
        n -= 1;
    }
    if cues.len() > 0 {
        Some(cues[0].start_us)
    } else {
        None
    }
}

/// The lines that belong to the time `t`, from the line of its cue to that of the next, in a text
/// of `total` lines. Before the first cue it is the first that counts.
pub open spec fn lines_at(cues: Seq<TranscriptCue>, t: u64, total: usize) -> Option<
    (usize, usize),
> {
    if cues.len() == 0 || total == 0 {
        None
    } else {
        let pos = match active_cue(cues, t) {
            Some(i) => i as int,
            None => 0,
        };
        let line = cues[pos].line_index;
        let start = if line < total {
            line
        } else {
            (total - 1) as usize
        };
        let next = if pos + 1 < cues.len() && cues[pos + 1].line_index < total {
            cues[pos + 1].line_index
        } else {
            total
        };
        Some(
            (
                start,
                if next > start {
                    next
                } else {
                    (start + 1) as usize
                },
            ),
        )
    }
}

/// The lines that belong to the time `t`. They are lines of the text, and at least one.
pub fn cue_line_range_at_time(cues: &[TranscriptCue], t: u64, total_lines: usize) -> (r: Option<
    (usize, usize),
>)
    ensures
        r == lines_at(cues@, t, total_lines),
        r matches Some((start, end)) ==> start < end <= total_lines,
        r is Some <==> cues@.len() > 0 && total_lines > 0,
{
    if cues.len() == 0 || total_lines == 0 {
        return None;
    }
    let pos: usize = match find_active_cue(cues, t) {
        Some(i) => i,
        None => 0,
    };
    let line: usize = cues[pos].line_index;
    let start: usize = if line < total_lines {
        line
    } else {
        total_lines - 1
    };
    let next: usize = if pos + 1 < cues.len() && cues[pos + 1].line_index < total_lines {
        cues[pos + 1].line_index
    } else {
        total_lines
    };
    let end: usize = if next > start {
        next
    } else {
        start + 1
    };
    Some((start, end))
}

/// When a line is spoken, told by the cues alone: where some cue stands at or before the line, it is
/// the start of one of these behind which only later lines have cues; where every cue stands behind
/// the line, it is the start of the first of all; and there is none only where there are no cues.
pub proof fn lemma_line_start_time(cues: Seq<TranscriptCue>, line: usize)
    ensures
        line_start_time(cues, line) is None <==> cues.len() == 0,
        (exists|i: int| 0 <= i < cues.len() && (#[trigger] cues[i]).line_index <= line) ==> exists|
            k: int,
        |
            0 <= k < cues.len() && (#[trigger] cues[k]).line_index <= line && (forall|j: int|
                k < j < cues.len() ==> (#[trigger] cues[j]).line_index > line)
                && line_start_time(cues, line) == Some(cues[k].start_us),
        cues.len() > 0 && (forall|i: int|
            0 <= i < cues.len() ==> (#[trigger] cues[i]).line_index > line) ==> line_start_time(
            cues,
            line,
        ) == Some(cues[0].start_us),
{
    lemma_last_upto_line(cues, line);
    match last_upto_line(cues, line) {
        Some(n) => {
            let k = n as int;
            assert(cues[k].line_index <= line);
        },
        None => {},
    }
}

/// Where the last cue at or before a line stands.
proof fn lemma_last_upto_line(cues: Seq<TranscriptCue>, line: usize)
    ensures
        match last_upto_line(cues, line) {
            Some(n) => n < cues.len() && cues[n as int].line_index <= line && (forall|j: int|
                n < j < cues.len() ==> (#[trigger] cues[j]).line_index > line),
            None => forall|j: int| 0 <= j < cues.len() ==> (#[trigger] cues[j]).line_index > line,
        },
    decreases cues.len(),
{
    if cues.len() > 0 && cues.last().line_index > line {
        let rest = cues.drop_last();
        lemma_last_upto_line(rest, line);
        assert forall|j: int|
            0 <= j < cues.len() && (last_upto_line(cues, line) matches Some(n) ==> n
                < j) implies (#[trigger] cues[j]).line_index > line by {
            if j < rest.len() {
                assert(rest[j] == cues[j]);
            }
        }
    }
}

/// Where the last cue that has begun stands.
proof fn lemma_last_begun(cues: Seq<TranscriptCue>, t: u64)
    ensures
        match last_begun(cues, t) {
            Some(n) => n < cues.len() && cues[n as int].start_us <= t && (forall|j: int|
                n < j < cues.len() ==> (#[trigger] cues[j]).start_us > t),
            None => forall|j: int| 0 <= j < cues.len() ==> (#[trigger] cues[j]).start_us > t,
        },
    decreases cues.len(),
{
    if cues.len() > 0 && cues.last().start_us > t {
        let rest = cues.drop_last();
        lemma_last_begun(rest, t);
        assert forall|j: int|
            0 <= j < cues.len() && (last_begun(cues, t) matches Some(n) ==> n
                < j) implies (#[trigger] cues[j]).start_us > t by {
            if j < rest.len() {
                assert(rest[j] == cues[j]);
            }
        }
    }
}

/// Which cue belongs to a time, told by the cues alone: where the time lies between the start and
/// the end of some cue, both included, it is the first such cue; else it is the last of those that
/// have begun; and it is none only where none has begun.
pub proof fn lemma_active_cue(cues: Seq<TranscriptCue>, t: u64)
    ensures
        match active_cue(cues, t) {
            Some(n) => {
                let cue = cues[n as int];
                &&& n < cues.len()
                &&& cue.start_us <= t
                &&& t <= cue.end_us ==> forall|j: int|
                    0 <= j < n ==> t < (#[trigger] cues[j]).start_us || t > cues[j].end_us
                &&& t > cue.end_us ==> forall|j: int|
                    0 <= j < cues.len() ==> (t < (#[trigger] cues[j]).start_us || t
                        > cues[j].end_us) && (j > n ==> t < cues[j].start_us)
            },
            None => forall|j: int| 0 <= j < cues.len() ==> t < (#[trigger] cues[j]).start_us,
        },
{
    lemma_first_covering(cues, t);
    lemma_last_begun(cues, t);
    assert forall|j: int| 0 <= j < first_covering(cues, t) implies t < (
    #[trigger] cues[j]).start_us || t > cues[j].end_us by {
        assert(!covers(cues[j], t));
    }
}

/// Which lines belong to a time: they begin with the line of its cue, that of the first cue of all
/// where none has begun, and end before the line of the next cue; the last cue has all that follow.
/// Cues that point behind the text or back in it still give one line of the text.
pub proof fn lemma_lines_at(cues: Seq<TranscriptCue>, t: u64, total: usize)
    requires
        cues.len() > 0,
        total > 0,
    ensures
        ({
            let pos = match active_cue(cues, t) {
                Some(n) => n as int,
                None => 0,
            };
            lines_at(cues, t, total) matches Some((start, end)) && {
                &&& start < end <= total
                &&& cues[pos].line_index < total ==> start == cues[pos].line_index
                &&& cues[pos].line_index >= total ==> start == total - 1 && end == total
                &&& pos == cues.len() - 1 ==> end == total
                &&& pos + 1 < cues.len() && start < cues[pos + 1].line_index < total ==> end
                    == cues[pos + 1].line_index
                &&& pos + 1 < cues.len() && cues[pos + 1].line_index >= total ==> end == total
                &&& pos + 1 < cues.len() && cues[pos + 1].line_index <= start ==> end == start + 1
            }
        }),
{
    lemma_active_cue(cues, t);
}

/// Which cues a transcript has: each line whose two times can be read gives one, with the number of
/// the line and these times, and the cues stand in the order of their lines.
pub proof fn lemma_cues_of(times: Seq<Option<(Seq<char>, Seq<char>)>>)
    requires
        times.len() <= usize::MAX,
    ensures
        forall|c: int|
            0 <= c < cues_of(times).len() ==> {
                let cue = #[trigger] cues_of(times)[c];
                &&& cue.line_index < times.len()
                &&& times[cue.line_index as int] matches Some((a, b)) && clock_time(a)
                    == ClockTime::At(cue.start_us) && clock_time(b) == ClockTime::At(cue.end_us)
            },
        forall|c: int, d: int|
            0 <= c < d < cues_of(times).len() ==> (#[trigger] cues_of(times)[c]).line_index < (
            #[trigger] cues_of(times)[d]).line_index,
        forall|i: int|
            0 <= i < times.len() ==> (#[trigger] times[i] matches Some((a, b)) ==> clock_time(
                a,
            ) is At && clock_time(b) is At ==> exists|c: int|
                0 <= c < cues_of(times).len() && (#[trigger] cues_of(times)[c]).line_index == i),
    decreases times.len(),
{
    if times.len() > 0 {
        let rest = times.drop_last();
        lemma_cues_of(rest);
        let before = cues_of(rest);
        let all = cues_of(times);
        assert forall|c: int| 0 <= c < all.len() implies {
            let cue = #[trigger] all[c];
            &&& cue.line_index < times.len()
            &&& times[cue.line_index as int] matches Some((a, b)) && clock_time(a)
                == ClockTime::At(cue.start_us) && clock_time(b) == ClockTime::At(cue.end_us)
        } by {
            if c < before.len() {
                assert(all[c] == before[c]);
                assert(rest[before[c].line_index as int] == times[before[c].line_index as int]);
            }
        }
        assert forall|c: int, d: int| 0 <= c < d < all.len() implies (#[trigger] all[c]).line_index
            < (#[trigger] all[d]).line_index by {
            assert(all[c] == before[c]);
            if d < before.len() {
                assert(all[d] == before[d]);
            }
        }
        assert forall|i: int| 0 <= i < times.len() implies (#[trigger] times[i] matches Some(
            (a, b),
        ) ==> clock_time(a) is At && clock_time(b) is At ==> exists|c: int|
            0 <= c < all.len() && (#[trigger] all[c]).line_index == i) by {
            if times[i] matches Some((a, b)) && clock_time(a) is At && clock_time(b) is At {
                if i < rest.len() {
                    assert(rest[i] == times[i]);
                    let c = choose|c: int|
                        0 <= c < before.len() && (#[trigger] before[c]).line_index == i;
                    assert(all[c] == before[c]);
                } else {
                    assert(all[before.len() as int].line_index == i);
                }
            }
        }
    }
}

/// Where the cues of a transcript come from: each has the number of a line and the two times of that
/// line, which are those of the first pair of clock times with a dash or an arrow between them, or else
/// of the first pair in brackets.
pub proof fn lemma_cues_in(text: Seq<char>, c: int)
    requires
        lines(text).len() <= usize::MAX,
        0 <= c < cues_in(text).len(),
    ensures
        ({
            let cue = cues_in(text)[c];
            let line = lines(text)[cue.line_index as int];
            let found = if first_pair(RANGE_PATTERN@, line) is Some {
                first_pair(RANGE_PATTERN@, line)
            } else {
                first_pair(BRACKET_PATTERN@, line)
            };
            &&& cue.line_index < lines(text).len()
            &&& found matches Some((a, b)) && clock_time(a) == ClockTime::At(cue.start_us)
                && clock_time(b) == ClockTime::At(cue.end_us)
        }),
{
    reveal(cues_in);
    lemma_cues_of(times_in(text));
    let cue = cues_of(times_in(text))[c];
    assert(times_in(text)[cue.line_index as int] == line_times(
        lines(text)[cue.line_index as int],
    ));
}

} // verus!
