//! Where lines begin, and which parts of a transcript are set off on screen.
use crate::anonymise::replace::OMITTED_PATTERN;
use crate::hits::{overlaps, overlaps_any, overlaps_one_of};
use crate::pattern::{compile, find_spans, matches_of, ordered_spans, regex_compiled, spans_of};
use crate::text::{
    byte_len, char_range, chars_of, first_pos, lemma_char_range_shift, lemma_first_pos,
    lemma_utf8_concat, text_of_range, utf8_len,
};
use regex::Regex;
use vstd::prelude::*;
use vstd::string::*;
use vstd::utf8::*;

verus! {

/// A pair of clock times in brackets.
pub const TIMING_PATTERN: &'static str = r"\[\d{1,2}:\d{2}:\d{2}(?:[.,]\d{1,3})?\s*-\s*\d{1,2}:\d{2}:\d{2}(?:[.,]\d{1,3})?\]";

/// How many line feeds `s` holds.
pub open spec fn newline_count(s: Seq<char>) -> nat
    decreases s.len(),
{
    if s.len() == 0 {
        0
    } else {
        newline_count(s.drop_first()) + if s[0] == '\n' {
            1nat
        } else {
            0nat
        }
    }
}

/// The position behind the first `n` line feeds of `s`; the end where there are fewer.
pub open spec fn line_start(s: Seq<char>, n: nat) -> nat
    decreases s.len(),
{
    if n == 0 || s.len() == 0 {
        0
    } else if s[0] == '\n' {
        1 + line_start(s.drop_first(), (n - 1) as nat)
    } else {
        1 + line_start(s.drop_first(), n)
    }
}

/// The character at which a line begins; the end of the text where it has no such line.
pub fn line_start_char_index(text: &str, line_index: usize) -> (r: usize)
    ensures
        r == line_start(text@, line_index as nat),
{
    let v: Vec<char> = chars_of(text);
    let mut left: usize = line_index;
    let mut i: usize = 0;
    assert(v@.skip(0) =~= v@);
    while left > 0 && i < v.len()
        invariant
            i <= v@.len(),
            line_start(v@, line_index as nat) == i + line_start(v@.skip(i as int), left as nat),
        decreases v@.len() - i,
    {
        assert(v@.skip(i as int).drop_first() =~= v@.skip(i + 1));
        if v[i] == '\n' {
            left -= 1;
        }
        i += 1;
    }
    i
}

/// The line on which a character stands: how many line feeds stand before it.
pub open spec fn line_of(s: Seq<char>, char_index: nat) -> nat {
    newline_count(
        if char_index < s.len() {
            s.take(char_index as int)
        } else {
            s
        },
    )
}

/// The line on which a character stands.
pub fn char_index_to_line_index(text: &str, char_index: usize) -> (r: usize)
    ensures
        r == line_of(text@, char_index as nat),
{
    let v: Vec<char> = chars_of(text);
    let end: usize = if char_index < v.len() {
        char_index
    } else {
        v.len()
    };
    let ghost part = if char_index < v@.len() {
        v@.take(char_index as int)
    } else {
        v@
    };
    let mut line: usize = 0;
    let mut i: usize = 0;
    assert(part.skip(0) =~= part);
    while i < end
        invariant
            i <= end <= v@.len(),
            part.len() == end,
            forall|k: int| 0 <= k < end ==> part[k] == v@[k],
            line <= i,
            newline_count(part) == line + newline_count(part.skip(i as int)),
        decreases end - i,
    {
        assert(part.skip(i as int).drop_first() =~= part.skip(i + 1));
        if v[i] == '\n' {
            line += 1;
        }
        i += 1;
    }
    line
}

/// The beginning of a line stands on that line, for every line that the text has.
pub proof fn lemma_line_start_is_on_line(s: Seq<char>, n: nat)
    requires
        n <= newline_count(s),
    ensures
        line_start(s, n) <= s.len(),
        line_of(s, line_start(s, n)) == n,
    decreases s.len(),
{
    if n == 0 {
        assert(s.len() > 0 ==> s.take(0).len() == 0);
    } else if s.len() > 0 {
        let rest = s.drop_first();
        let m = if s[0] == '\n' {
            (n - 1) as nat
        } else {
            n
        };
        lemma_line_start_is_on_line(rest, m);
        let p = line_start(rest, m);
        let part = if p < rest.len() {
            rest.take(p as int)
        } else {
            rest
        };
        let whole = if p + 1 < s.len() {
            s.take((p + 1) as int)
        } else {
            s
        };
        assert(whole.drop_first() =~= part);
        assert(whole[0] == s[0]);
    }
}

/// How a part of a transcript is shown.
#[derive(Debug, Clone, Copy, PartialEq, Eq, Structural)]
pub enum SpanStyle {
    Normal,
    /// A placeholder for what was removed.
    Omitted,
    /// The times of the line that is being played.
    Timing,
}

/// A byte range of a transcript and how it is shown.
#[derive(Debug, Clone, Copy, PartialEq, Eq, Structural)]
pub struct StyledSpan {
    pub start: usize,
    pub end: usize,
    pub style: SpanStyle,
}

/// Whether a byte range begins or ends at `p`.
pub open spec fn is_edge(spans: Seq<(usize, usize)>, p: usize) -> bool {
    exists|i: int| 0 <= i < spans.len() && ((#[trigger] spans[i]).0 == p || spans[i].1 == p)
}

/// Whether the way in which a text of `len` bytes is shown may change at `p`.
pub open spec fn is_cut(
    len: usize,
    omitted: Seq<(usize, usize)>,
    timing: Seq<(usize, usize)>,
    p: usize,
) -> bool {
    p == 0 || p == len || is_edge(omitted, p) || is_edge(timing, p)
}

/// Whether byte ranges lie within `len` bytes.
pub open spec fn spans_within(len: usize, spans: Seq<(usize, usize)>) -> bool {
    forall|i: int| 0 <= i < spans.len() ==> (#[trigger] spans[i]).0 <= spans[i].1 <= len
}

/// How a byte range is shown: a placeholder goes before a time.
pub open spec fn style_of(
    omitted: Seq<(usize, usize)>,
    timing: Seq<(usize, usize)>,
    span: (usize, usize),
) -> SpanStyle {
    if overlaps_any(omitted, span) {
        SpanStyle::Omitted
    } else if overlaps_any(timing, span) {
        SpanStyle::Timing
    } else {
        SpanStyle::Normal
    }
}

/// Whether `points` go up strictly.
pub open spec fn ascending(points: Seq<usize>) -> bool {
    forall|i: int, j: int| 0 <= i < j < points.len() ==> points[i] < points[j]
}

/// Puts `p` among `points`, unless it is there.
fn insert_point(points: &mut Vec<usize>, p: usize)
    requires
        ascending(old(points)@),
    ensures
        ascending(final(points)@),
        forall|x: usize|
            #[trigger] final(points)@.contains(x) <==> (old(points)@.contains(x) || x == p),
{
    let ghost before = points@;
    let mut at: usize = points.len();
    while at > 0 && points[at - 1] > p
        invariant
            at <= points@.len(),
            points@ == before,
            ascending(before),
            forall|k: int| at <= k < before.len() ==> before[k] > p,
        decreases at,
    {
        at -= 1;
    }
    if at > 0 && points[at - 1] == p {
        assert(before[at - 1] == p);
        return ;
    }
    points.insert(at, p);
    proof {
        assert forall|i: int, j: int| 0 <= i < j < points@.len() implies points@[i] < points@[j] by {
            if i < at && at > 0 {
                assert(before[i] <= before[at - 1]);
            }
        }
        assert forall|x: usize| #[trigger] points@.contains(x) <==> (before.contains(x) || x == p) by {
            if before.contains(x) {
                let k = choose|k: int| 0 <= k < before.len() && before[k] == x;
                if k < at {
                    assert(points@[k] == x);
                } else {
                    assert(points@[k + 1] == x);
                }
            }
            assert(points@[at as int] == p);
            if points@.contains(x) && x != p {
                let k = choose|k: int| 0 <= k < points@.len() && points@[k] == x;
                if k < at {
                    assert(before[k] == x);
                } else {
                    assert(before[k - 1] == x);
                }
            }
        }
    }
}

/// Puts the edges of `spans` among `points`.
fn insert_edges(points: &mut Vec<usize>, spans: &Vec<(usize, usize)>)
    requires
        ascending(old(points)@),
    ensures
        ascending(final(points)@),
        forall|x: usize|
            #[trigger] final(points)@.contains(x) <==> (old(points)@.contains(x) || is_edge(
                spans@,
                x,
            )),
{
    let ghost before = points@;
    let mut i: usize = 0;
    while i < spans.len()
        invariant
            i <= spans@.len(),
            ascending(points@),
            forall|x: usize|
                #[trigger] points@.contains(x) <==> (before.contains(x) || is_edge(
                    spans@.take(i as int),
                    x,
                )),
        decreases spans@.len() - i,
    {
        let ghost mid = points@;
        insert_point(points, spans[i].0);
        insert_point(points, spans[i].1);
        proof {
            let upto = spans@.take(i as int);
            let next = spans@.take(i + 1);
            assert forall|x: usize|
                #[trigger] points@.contains(x) <==> (before.contains(x) || is_edge(next, x)) by {
                assert(points@.contains(x) <==> mid.contains(x) || x == spans@[i as int].0 || x
                    == spans@[i as int].1);
                if is_edge(upto, x) {
                    let k = choose|k: int|
                        0 <= k < upto.len() && ((#[trigger] upto[k]).0 == x || upto[k].1 == x);
                    assert(next[k] == upto[k]);
                }
                assert(next[i as int] == spans@[i as int]);
                if is_edge(next, x) {
                    let k = choose|k: int|
                        0 <= k < next.len() && ((#[trigger] next[k]).0 == x || next[k].1 == x);
                    if k < i {
                        assert(upto[k] == next[k]);
                    }
                }
            }
        }
        i += 1;
    }
    assert(spans@.take(i as int) =~= spans@);
}

/// Whether the parts cover `len` bytes without gap or overlap, none of them empty.
pub open spec fn tiles(parts: Seq<StyledSpan>, len: usize) -> bool {
    &&& parts.len() == 0 <==> len == 0
    &&& parts.len() > 0 ==> parts[0].start == 0 && parts.last().end == len
    &&& forall|i: int| 0 <= i < parts.len() ==> (#[trigger] parts[i]).start < parts[i].end
    &&& forall|i: int, j: int|
        0 <= i && j == i + 1 && j < parts.len() ==> (#[trigger] parts[i]).end == (
        #[trigger] parts[j]).start
}

/// Whether one of the parts begins at `p`.
pub open spec fn begins_at(parts: Seq<StyledSpan>, p: usize) -> bool {
    exists|i: int| 0 <= i < parts.len() && (#[trigger] parts[i]).start == p
}

/// Whether the parts are those of a text of `len` bytes that are shown alike: they cover the text,
/// they begin and end at every place where the way of showing may change and nowhere else, and each
/// is shown as its range asks.
pub open spec fn shown_as(
    parts: Seq<StyledSpan>,
    len: usize,
    omitted: Seq<(usize, usize)>,
    timing: Seq<(usize, usize)>,
) -> bool {
    &&& tiles(parts, len)
    &&& forall|i: int|
        0 <= i < parts.len() ==> is_cut(len, omitted, timing, (#[trigger] parts[i]).start)
    &&& forall|p: usize|
        p < len && #[trigger] is_cut(len, omitted, timing, p) ==> begins_at(parts, p)
    &&& forall|i: int|
        0 <= i < parts.len() ==> (#[trigger] parts[i]).style == style_of(
            omitted,
            timing,
            (parts[i].start, parts[i].end),
        )
}

/// The parts of a text of `len` bytes that are shown alike: they cover the text, they begin and end
/// at every place where the way of showing may change and nowhere else, and each is shown as its
/// range asks.
pub fn highlight_parts(
    len: usize,
    omitted: &Vec<(usize, usize)>,
    timing: &Vec<(usize, usize)>,
) -> (r: Vec<StyledSpan>)
    requires
        spans_within(len, omitted@),
        spans_within(len, timing@),
    ensures
        shown_as(r@, len, omitted@, timing@),
{
    let mut points: Vec<usize> = Vec::new();
    insert_point(&mut points, 0);
    insert_point(&mut points, len);
    insert_edges(&mut points, omitted);
    insert_edges(&mut points, timing);
    let ghost all = points@;
    proof {
        assert forall|x: usize| #[trigger] all.contains(x) <==> is_cut(len, omitted@, timing@, x) by {}
        assert(all.contains(0usize));
        assert(all.contains(len));
        assert forall|i: int| 0 <= i < all.len() implies all[i] <= len by {
            assert(all.contains(all[i]));
            let x = all[i];
            if is_edge(omitted@, x) {
                let k = choose|k: int|
                    0 <= k < omitted@.len() && ((#[trigger] omitted@[k]).0 == x || omitted@[k].1
                        == x);
                assert(omitted@[k].0 <= omitted@[k].1 <= len);
            }
            if is_edge(timing@, x) {
                let k = choose|k: int|
                    0 <= k < timing@.len() && ((#[trigger] timing@[k]).0 == x || timing@[k].1 == x);
                assert(timing@[k].0 <= timing@[k].1 <= len);
            }
        }
        let zero = choose|k: int| 0 <= k < all.len() && all[k] == 0usize;
        assert(zero == 0) by {
            if zero > 0 {
                assert(all[0] < all[zero]);
            }
        }
        let end = choose|k: int| 0 <= k < all.len() && all[k] == len;
        assert(end == all.len() - 1) by {
            if end < all.len() - 1 {
                assert(all[end] < all[all.len() - 1]);
            }
        }
    }
    let mut out: Vec<StyledSpan> = Vec::new();
    let mut i: usize = 0;
    while i < points.len() - 1
        invariant
            points@ == all,
            all.len() > 0,
            i <= all.len() - 1,
            ascending(all),
            out@.len() == i,
            forall|k: int|
                0 <= k < i ==> (#[trigger] out@[k]).start == all[k] && out@[k].end == all[k + 1]
                    && out@[k].style == style_of(omitted@, timing@, (all[k], all[k + 1])),
        decreases all.len() - i,
    {
        let start: usize = points[i];
        let end: usize = points[i + 1];
        let style: SpanStyle = if overlaps_one_of(omitted, (start, end)) {
            SpanStyle::Omitted
        } else if overlaps_one_of(timing, (start, end)) {
            SpanStyle::Timing
        } else {
            SpanStyle::Normal
        };
        out.push(StyledSpan { start, end, style });
        i += 1;
    }
    proof {
        assert(len > 0 ==> all.len() >= 2);
        assert(len == 0 ==> all.len() == 1) by {
            if len == 0 && all.len() > 1 {
                assert(all[0] < all[1]);
            }
        }
        assert forall|p: usize|
            p < len && #[trigger] is_cut(len, omitted@, timing@, p) implies begins_at(out@, p) by {
            assert(all.contains(p));
            let k = choose|k: int| 0 <= k < all.len() && all[k] == p;
            assert(k < all.len() - 1);
            assert(out@[k].start == p);
        }
        assert forall|k: int| 0 <= k < out@.len() implies is_cut(
            len,
            omitted@,
            timing@,
            (#[trigger] out@[k]).start,
        ) by {
            assert(all.contains(all[k]));
        }
        assert forall|k: int, j: int| 0 <= k && j == k + 1 && j < out@.len() implies (
        #[trigger] out@[k]).end == (#[trigger] out@[j]).start by {}
    }
    out
}

/// How many characters the first line of `s` has, with its line feed.
pub open spec fn first_line_len(s: Seq<char>) -> nat {
    let n = first_pos(s, '\n');
    if n < s.len() {
        n + 1
    } else {
        s.len()
    }
}

/// Byte ranges further on by `offset`.
pub open spec fn shifted(spans: Seq<(usize, usize)>, offset: nat) -> Seq<(usize, usize)> {
    Seq::new(
        spans.len(),
        |i: int| ((spans[i].0 + offset) as usize, (spans[i].1 + offset) as usize),
    )
}

/// The byte ranges of the times on the lines `active.0..active.1`, where `s` begins on the line
/// `line` and `offset` bytes into the text.
pub open spec fn timing_spans(
    s: Seq<char>,
    line: nat,
    offset: nat,
    active: (usize, usize),
) -> Seq<(usize, usize)>
    decreases s.len(),
{
    if s.len() == 0 {
        Seq::empty()
    } else {
        proof {
            lemma_first_pos(s, '\n');
        }
        let n = first_line_len(s);
        let own = s.take(n as int);
        let here = if active.0 <= line && line < active.1 {
            shifted(matches_of(TIMING_PATTERN@, own), offset)
        } else {
            Seq::empty()
        };
        here + timing_spans(s.skip(n as int), line + 1, offset + utf8_len(own), active)
    }
}

/// The byte ranges of the times on the lines `active.0..active.1` of `text`.
pub fn find_timing_spans(text: &str, active: (usize, usize)) -> (r: Vec<(usize, usize)>)
    ensures
        r@ == timing_spans(text@, 0, 0, active),
        forall|i: int|
            0 <= i < r@.len() ==> char_range(
                text@,
                (#[trigger] r@[i]).0 as int,
                r@[i].1 as int,
            ),
{
    let re: Option<Regex> = compile(TIMING_PATTERN);
    let v: Vec<char> = chars_of(text);
    let total: usize = byte_len(text);
    let mut out: Vec<(usize, usize)> = Vec::new();
    let mut at: usize = 0;
    let mut line: usize = 0;
    let mut offset: usize = 0;
    proof {
        assert(v@.skip(0) =~= v@);
        assert(out@ + timing_spans(v@, 0, 0, active) =~= timing_spans(v@, 0, 0, active));
        assert(v@.take(0) =~= Seq::empty());
    }
    while at < v.len()
        invariant
            at <= v@.len(),
            v@ == text@,
            total == utf8_len(text@),
            re == regex_compiled(TIMING_PATTERN@),
            line <= at,
            offset == utf8_len(v@.take(at as int)),
            timing_spans(v@, 0, 0, active) == out@ + timing_spans(
                v@.skip(at as int),
                line as nat,
                offset as nat,
                active,
            ),
            forall|i: int|
                0 <= i < out@.len() ==> char_range(
                    text@,
                    (#[trigger] out@[i]).0 as int,
                    out@[i].1 as int,
                ),
        decreases v@.len() - at,
    {
        let ghost rest = v@.skip(at as int);
        proof {
            lemma_first_pos(rest, '\n');
        }
        let mut end: usize = at;
        while end < v.len() && v[end] != '\n'
            invariant
                at <= end <= v@.len(),
                rest == v@.skip(at as int),
                end - at <= first_pos(rest, '\n') <= rest.len(),
                first_pos(rest, '\n') < rest.len() ==> rest[first_pos(rest, '\n') as int] == '\n',
            decreases v@.len() - end,
        {
            assert(rest[end - at] == v@[end as int]);
            end += 1;
        }
        assert(end < v@.len() ==> rest[end - at] == v@[end as int]);
        let next: usize = if end < v.len() {
            end + 1
        } else {
            end
        };
        let ghost n = first_line_len(rest);
        assert(next - at == n);
        let own: String = text_of_range(&v, at, next);
        let ghost pre = v@.take(at as int);
        let ghost post = v@.skip(next as int);
        let own_len: usize = byte_len(own.as_str());
        proof {
            assert(own@ =~= rest.take(n as int));
            assert(pre + own@ + post =~= v@);
            assert(rest.skip(n as int) =~= post);
            lemma_utf8_concat(pre + own@, post);
            lemma_utf8_concat(pre, own@);
            assert(v@.take(next as int) =~= pre + own@);
        }
        let ghost before = out@;
        if active.0 <= line && line < active.1 {
            let found: Vec<(usize, usize)> = match &re {
                Some(compiled) => find_spans(compiled, own.as_str()),
                None => Vec::new(),
            };
            assert(found@ == matches_of(TIMING_PATTERN@, own@));
            let mut k: usize = 0;
            assert(before + shifted(found@, offset as nat).take(0) =~= before);
            while k < found.len()
                invariant
                    k <= found@.len(),
                    ordered_spans(own@, found@),
                    v@ == text@,
                    pre + own@ + post == v@,
                    offset == utf8_len(pre),
                    total == utf8_len(text@),
                    out@ == before + shifted(found@, offset as nat).take(k as int),
                    forall|i: int|
                        0 <= i < out@.len() ==> char_range(
                            text@,
                            (#[trigger] out@[i]).0 as int,
                            out@[i].1 as int,
                        ),
                decreases found@.len() - k,
            {
                proof {
                    let span = found@[k as int];
                    assert(char_range(own@, span.0 as int, span.1 as int));
                    lemma_char_range_shift(pre, own@, post, span.0 as int, span.1 as int);
                }
                out.push((found[k].0 + offset, found[k].1 + offset));
                k += 1;
                assert(out@ =~= before + shifted(found@, offset as nat).take(k as int));
            }
            assert(shifted(found@, offset as nat).take(k as int) =~= shifted(
                found@,
                offset as nat,
            ));
        } else {
            assert(before + Seq::empty() =~= before);
        }
        proof {
            let here = if active.0 <= line && line < active.1 {
                shifted(matches_of(TIMING_PATTERN@, own@), offset as nat)
            } else {
                Seq::empty()
            };
            let tail = timing_spans(
                post,
                (line + 1) as nat,
                (offset + utf8_len(own@)) as nat,
                active,
            );
            assert(timing_spans(rest, line as nat, offset as nat, active) == here + tail);
            assert(before + (here + tail) =~= (before + here) + tail);
            assert(out@ =~= before + here);
        }
        at = next;
        line += 1;
        offset = offset + own_len;
    }
    proof {
        assert(v@.skip(at as int) =~= Seq::empty());
        assert(out@ + Seq::empty() =~= out@);
    }
    out
}

/// Byte ranges of whole characters of `text`.
pub open spec fn char_spans(text: Seq<char>, spans: Seq<(usize, usize)>) -> bool {
    forall|i: int|
        0 <= i < spans.len() ==> char_range(
            text,
            (#[trigger] spans[i]).0 as int,
            spans[i].1 as int,
        )
}

/// The placeholders and the times in a transcript that are set off on screen: every placeholder,
/// and the times on the lines that are being played.
pub open spec fn marked_spans(text: Seq<char>, active: Option<(usize, usize)>) -> (
    Seq<(usize, usize)>,
    Seq<(usize, usize)>,
) {
    (
        matches_of(OMITTED_PATTERN@, text),
        match active {
            Some(range) => timing_spans(text, 0, 0, range),
            None => Seq::empty(),
        },
    )
}

/// The parts of a transcript as they are shown: `highlight_parts` of its placeholders and of the
/// times on the lines that are being played. Each begins and ends between two characters.
pub fn transcript_parts(text: &str, active: Option<(usize, usize)>) -> (r: Vec<StyledSpan>)
    ensures
        utf8_len(text@) <= usize::MAX,
        shown_as(
            r@,
            utf8_len(text@) as usize,
            marked_spans(text@, active).0,
            marked_spans(text@, active).1,
        ),
        forall|i: int|
            0 <= i < r@.len() ==> char_range(
                text@,
                (#[trigger] r@[i]).start as int,
                r@[i].end as int,
            ),
{
    let omitted: Vec<(usize, usize)> = spans_of(OMITTED_PATTERN, text);
    let timing: Vec<(usize, usize)> = match active {
        Some(range) => find_timing_spans(text, range),
        None => Vec::new(),
    };
    let len: usize = byte_len(text);
    proof {
        assert(char_spans(text@, omitted@));
        assert(char_spans(text@, timing@));
        assert forall|i: int| 0 <= i < omitted@.len() implies (#[trigger] omitted@[i]).0
            <= omitted@[i].1 <= len by {
            assert(char_range(text@, omitted@[i].0 as int, omitted@[i].1 as int));
        }
        assert forall|i: int| 0 <= i < timing@.len() implies (#[trigger] timing@[i]).0
            <= timing@[i].1 <= len by {
            assert(char_range(text@, timing@[i].0 as int, timing@[i].1 as int));
        }
    }
    let parts: Vec<StyledSpan> = highlight_parts(len, &omitted, &timing);
    proof {
        let bytes = encode_utf8(text@);
        encode_utf8_valid_utf8(text@);
        is_char_boundary_start_end_of_seq(bytes);
        assert forall|i: int| 0 <= i < parts@.len() implies is_char_boundary(
            bytes,
            (#[trigger] parts@[i]).start as int,
        ) by {
            let p = parts@[i].start;
            assert(is_cut(len, omitted@, timing@, p));
            if is_edge(omitted@, p) {
                let k = choose|k: int|
                    0 <= k < omitted@.len() && ((#[trigger] omitted@[k]).0 == p || omitted@[k].1
                        == p);
                assert(char_range(text@, omitted@[k].0 as int, omitted@[k].1 as int));
            }
            if is_edge(timing@, p) {
                let k = choose|k: int|
                    0 <= k < timing@.len() && ((#[trigger] timing@[k]).0 == p || timing@[k].1 == p);
                assert(char_range(text@, timing@[k].0 as int, timing@[k].1 as int));
            }
        }
        assert forall|i: int| 0 <= i < parts@.len() implies char_range(
            text@,
            (#[trigger] parts@[i]).start as int,
            parts@[i].end as int,
        ) by {
            if i + 1 < parts@.len() {
                assert(parts@[i].end == parts@[i + 1].start);
                lemma_parts_ascend(parts@, len, i + 1);
            } else {
                assert(parts@[i] == parts@.last());
            }
        }
    }
    parts
}

/// Every part of a tiling begins before the end.
proof fn lemma_parts_ascend(parts: Seq<StyledSpan>, len: usize, i: int)
    requires
        tiles(parts, len),
        0 <= i < parts.len(),
    ensures
        parts[i].start < parts[i].end <= len,
    decreases parts.len() - i,
{
    assert(parts[i].start < parts[i].end);
    if i + 1 < parts.len() {
        lemma_parts_ascend(parts, len, i + 1);
        assert(parts[i].end == parts[i + 1].start);
    } else {
        assert(parts[i] == parts.last());
    }
}

/// The part of a text between two places, counted in characters; none where nothing is selected.
pub fn selected_text_from_cursor_range(text: &str, range: Option<(usize, usize)>) -> (r: Option<
    String,
>)
    ensures
        match range {
            Some((start, end)) => if start == end {
                r is None
            } else {
                r matches Some(t) && t@ == text@.skip(at_most(start as int, text@.len() as int)).take(
                    at_most(
                        if start < end {
                            end - start
                        } else {
                            0
                        },
                        text@.len() - at_most(start as int, text@.len() as int),
                    ),
                )
            },
            None => r is None,
        },
{
    let (start, end): (usize, usize) = match range {
        Some(places) => places,
        None => {
            return None;
        },
    };
    if start == end {
        return None;
    }
    let v: Vec<char> = chars_of(text);
    let from: usize = if start < v.len() {
        start
    } else {
        v.len()
    };
    let count: usize = if start < end {
        end - start
    } else {
        0
    };
    let to: usize = if count < v.len() - from {
        from + count
    } else {
        v.len()
    };
    let r: String = text_of_range(&v, from, to);
    assert(r@ =~= text@.skip(from as int).take(to - from));
    Some(r)
}

/// The smaller of two numbers.
pub open spec fn at_most(a: int, b: int) -> int {
    if a < b {
        a
    } else {
        b
    }
}

/// The line feeds of two texts add up.
pub proof fn lemma_newlines_in_turn(a: Seq<char>, b: Seq<char>)
    ensures
        newline_count(a + b) == newline_count(a) + newline_count(b),
    decreases a.len(),
{
    if a.len() == 0 {
        assert(a + b =~= b);
    } else {
        assert((a + b).drop_first() =~= a.drop_first() + b);
        lemma_newlines_in_turn(a.drop_first(), b);
    }
}

/// Which line a character stands on: as many as there are line feeds before it; a place behind the end
/// is on the last line.
pub proof fn lemma_line_of(before: Seq<char>, behind: Seq<char>)
    ensures
        line_of(before + behind, before.len()) == newline_count(before),
        forall|far: nat|
            far >= before.len() ==> #[trigger] line_of(before, far) == newline_count(before),
        newline_count(seq!['\n']) == 1,
{
    let s = before + behind;
    if before.len() < s.len() {
        assert(s.take(before.len() as int) =~= before);
    } else {
        assert(s =~= before);
    }
    assert forall|far: nat| far >= before.len() implies #[trigger] line_of(before, far)
        == newline_count(before) by {}
    assert(seq!['\n'].drop_first() =~= Seq::<char>::empty());
    assert(newline_count(seq!['\n'].drop_first()) == 0);
}

/// Where a line begins: the first at the start of the text, each of the others behind the line feed
/// that ends the one before it, and one that the text does not have at its end.
pub proof fn lemma_line_start_in_turn(line: Seq<char>, rest: Seq<char>, n: nat)
    requires
        !line.contains('\n'),
    ensures
        line_start(line.push('\n') + rest, 0) == 0,
        line_start(line.push('\n') + rest, n + 1) == line.len() + 1 + line_start(rest, n),
        line_start(line, n + 1) == line.len(),
    decreases line.len(),
{
    if line.len() == 0 {
        assert((line.push('\n') + rest)[0] == '\n');
        assert((line.push('\n') + rest).drop_first() =~= rest);
    } else {
        let fewer = line.drop_first();
        assert(line.contains(line[0]));
        assert forall|c: char| #[trigger] fewer.contains(c) implies line.contains(c) by {
            let i = choose|i: int| 0 <= i < fewer.len() && fewer[i] == c;
            assert(line[i + 1] == c);
        }
        lemma_line_start_in_turn(fewer, rest, n);
        assert((line.push('\n') + rest)[0] == line[0]);
        assert((line.push('\n') + rest).drop_first() =~= fewer.push('\n') + rest);
    }
}

/// Which times are set off: those of a line within the range and of no other, each where it stands in
/// the text.
pub proof fn lemma_timing_in_turn(
    line: Seq<char>,
    rest: Seq<char>,
    number: nat,
    offset: nat,
    active: (usize, usize),
)
    requires
        !line.contains('\n'),
    ensures
        ({
            let own = line.push('\n');
            let behind = timing_spans(rest, number + 1, offset + utf8_len(own), active);
            let all = timing_spans(own + rest, number, offset, active);
            &&& active.0 <= number < active.1 ==> all == shifted(
                matches_of(TIMING_PATTERN@, own),
                offset,
            ) + behind
            &&& number < active.0 || number >= active.1 ==> all == behind
        }),
        forall|s: Seq<char>| s.len() == 0 ==> (#[trigger] timing_spans(s, number, offset, active)).len()
            == 0,
{
    let own = line.push('\n');
    let s = own + rest;
    lemma_first_pos(s, '\n');
    let n = first_pos(s, '\n') as int;
    assert(s[line.len() as int] == '\n');
    if n < line.len() {
        assert(line[n] == s[n]);
        assert(line.contains(line[n]));
    }
    assert(s.take(n + 1) =~= own);
    assert(s.skip(n + 1) =~= rest);
    assert(first_line_len(s) == own.len());
    let behind = timing_spans(rest, number + 1, offset + utf8_len(own), active);
    assert(Seq::<(usize, usize)>::empty() + behind =~= behind);
}

/// How a part is shown: what touches a placeholder as one, even where it touches a time; what touches a
/// time and no placeholder as a time; everything else as it is.
pub proof fn lemma_style_of(
    omitted: Seq<(usize, usize)>,
    timing: Seq<(usize, usize)>,
    span: (usize, usize),
)
    ensures
        (exists|i: int|
            0 <= i < omitted.len() && span.0 < (#[trigger] omitted[i]).1 && omitted[i].0 < span.1)
            <==> style_of(omitted, timing, span) == SpanStyle::Omitted,
        style_of(omitted, timing, span) == SpanStyle::Timing ==> exists|i: int|
            0 <= i < timing.len() && span.0 < (#[trigger] timing[i]).1 && timing[i].0 < span.1,
        style_of(omitted, timing, span) == SpanStyle::Normal ==> forall|i: int|
            0 <= i < timing.len() ==> span.0 >= (#[trigger] timing[i]).1 || timing[i].0 >= span.1,
{
    if exists|i: int|
        0 <= i < omitted.len() && span.0 < (#[trigger] omitted[i]).1 && omitted[i].0 < span.1 {
        let i = choose|i: int|
            0 <= i < omitted.len() && span.0 < (#[trigger] omitted[i]).1 && omitted[i].0 < span.1;
        assert(overlaps(span, omitted[i]));
    }
    if overlaps_any(omitted, span) {
        let i = choose|i: int| 0 <= i < omitted.len() && overlaps(span, #[trigger] omitted[i]);
        assert(span.0 < omitted[i].1 && omitted[i].0 < span.1);
    }
    if overlaps_any(timing, span) {
        let i = choose|i: int| 0 <= i < timing.len() && overlaps(span, #[trigger] timing[i]);
        assert(span.0 < timing[i].1 && timing[i].0 < span.1);
    }
    assert forall|i: int| 0 <= i < timing.len() && !overlaps_any(timing, span) implies span.0 >= (
    #[trigger] timing[i]).1 || timing[i].0 >= span.1 by {
        assert(!overlaps(span, timing[i]));
    }
}

} // verus!
