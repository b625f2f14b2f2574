//! Putting placeholders in the place of entities.
use crate::anonymise::candidate::{
    build_replacement_candidates, distinct_candidates, longest_first, match_views, AnonymiseMatch,
};
use crate::anonymise::kind::AnonymiseEntityKind;
use crate::hits::{
    chosen, hits_in, is_hit, lemma_chosen, lemma_passed_over, overlaps, overlaps_any, overlaps_one_of,
    replace_hits, Hit,
};
use crate::pattern::{
    compile, escape, escaped, find_spans, fits, is_token, lowered_matches, matched_texts, matches_of,
    matches_words, ordered_spans, regex_compiled, regex_replaced, replace_all, spans_of, spliced, spliced_upto,
    TOKEN_PATTERN,
};
use crate::similarity::{edit_distance, jaro_winkler, jaro_winkler_bits, levenshtein};
use crate::text::{
    byte_len, byte_range, cat2, cat3, char_range, chars_of, join, joined, lemma_utf8_concat, lowered,
    remove_class, slice_bytes, stripped, to_ascii_lowercase, trim, unicode_alphanumeric, utf8_len, views,
    without, CharClass,
};
use regex::Regex;
use vstd::prelude::*;
use vstd::string::*;
use vstd::utf8::*;

verus! {

/// A placeholder that stands where an entity was removed.
pub const OMITTED_PATTERN: &'static str = r"(?i)\[[a-z ]+ omitted\]";

/// Whether `c` is part of a word.
pub open spec fn is_word_char(c: char) -> bool {
    unicode_alphanumeric(c) || c == '_'
}

/// The pattern that finds `phrase` in any case: as a whole word where it begins and ends with a
/// word character.
pub open spec fn exact_pattern(phrase: Seq<char>) -> Seq<char> {
    let core = escaped(stripped(phrase));
    if phrase.len() > 0 && is_word_char(phrase[0]) && is_word_char(phrase.last()) {
        r"(?i)\b"@ + core + r"\b"@
    } else {
        "(?i)"@ + core
    }
}

/// The pattern that finds `phrase` in any case.
pub fn build_exact_match_pattern(phrase: &str) -> (r: String)
    ensures
        r@ == exact_pattern(phrase@),
{
    let core: String = escape(trim(phrase));
    let v: Vec<char> = chars_of(phrase);
    let n: usize = v.len();
    let whole: bool = n > 0 && (v[0].is_alphanumeric() || v[0] == '_') && (v[n - 1].is_alphanumeric()
        || v[n - 1] == '_');
    if whole {
        cat3(r"(?i)\b", core.as_str(), r"\b")
    } else {
        cat2("(?i)", core.as_str())
    }
}

/// Where `phrase` stands in `text`, in any case.
pub open spec fn exact_spans(text: Seq<char>, phrase: Seq<char>) -> Seq<(usize, usize)> {
    if text.len() == 0 || stripped(phrase).len() == 0 {
        Seq::empty()
    } else {
        matches_of(exact_pattern(phrase), text)
    }
}

/// `text` with each occurrence of `phrase` replaced, whatever its case, and how many there were.
/// A `$` in the replacement refers to a group of the match.
pub fn replace_exact_case_insensitive(text: &str, phrase: &str, replacement: &str) -> (r: (
    String,
    usize,
))
    ensures
        r.1 == exact_spans(text@, phrase@).len(),
        r.1 == 0 ==> r.0@ == text@,
        r.1 > 0 ==> r.0@ == regex_replaced(
            regex_compiled(exact_pattern(phrase@))->0,
            text@,
            replacement@,
        ),
        r.1 > 0 && !replacement@.contains('$') ==> r.0@ == spliced(
            text@,
            exact_spans(text@, phrase@),
            replacement@,
        ),
{
    if text.is_empty() || trim(phrase).is_empty() {
        return (text.to_owned(), 0);
    }
    let pattern: String = build_exact_match_pattern(phrase);
    match compile(pattern.as_str()) {
        None => (text.to_owned(), 0),
        Some(re) => {
            let count: usize = find_spans(&re, text).len();
            if count == 0 {
                return (text.to_owned(), 0);
            }
            (replace_all(&re, text, replacement), count)
        },
    }
}

/// The byte ranges of the tokens of `text`.
pub open spec fn token_spans(text: Seq<char>) -> Seq<(usize, usize)> {
    matches_of(TOKEN_PATTERN@, text)
}

/// The parts of `text` at `spans`, in lower case.
pub open spec fn lowered_parts(text: Seq<char>, spans: Seq<(usize, usize)>) -> Seq<Seq<char>> {
    Seq::new(
        spans.len(),
        |i: int| lowered(byte_range(text, spans[i].0 as int, spans[i].1 as int)),
    )
}

/// The tokens of `text` in lower case, one space apart.
pub open spec fn normalized(text: Seq<char>) -> Seq<char> {
    joined(lowered_parts(text, token_spans(text)), " "@)
}

/// The parts of `text` at `spans`, in lower case and one space apart.
pub fn join_lowered(text: &str, spans: &Vec<(usize, usize)>) -> (r: String)
    requires
        ordered_spans(text@, spans@),
    ensures
        r@ == joined(lowered_parts(text@, spans@), " "@),
{
    let mut parts: Vec<String> = Vec::new();
    let mut i: usize = 0;
    while i < spans.len()
        invariant
            i <= spans@.len(),
            ordered_spans(text@, spans@),
            parts@.len() == i,
            forall|k: int| 0 <= k < i ==> (#[trigger] parts@[k])@ == lowered_parts(text@, spans@)[k],
        decreases spans@.len() - i,
    {
        assert(char_range(text@, spans@[i as int].0 as int, spans@[i as int].1 as int));
        parts.push(to_ascii_lowercase(slice_bytes(text, spans[i].0, spans[i].1)));
        i += 1;
    }
    assert(views(parts@) =~= lowered_parts(text@, spans@));
    join(&parts, " ")
}

/// Texts that are each matched whole are found again where they stand one space apart.
proof fn lemma_words_again(re: Regex, parts: Seq<Seq<char>>)
    requires
        matches_words(re),
        fits(joined(parts, " "@)),
        forall|i: int|
            0 <= i < parts.len() ==> matched_texts(re, #[trigger] parts[i]) == seq![parts[i]],
    ensures
        matched_texts(re, joined(parts, " "@)) == parts,
    decreases parts.len(),
{
    if parts.len() == 0 {
        assert(parts =~= Seq::empty());
    } else if parts.len() == 1 {
        assert(parts =~= seq![parts[0]]);
    } else {
        let head = parts.drop_last();
        let before = joined(head, " "@);
        lemma_utf8_concat(before + " "@, parts.last());
        lemma_utf8_concat(before, " "@);
        assert forall|i: int| 0 <= i < head.len() implies matched_texts(re, #[trigger] head[i])
            == seq![head[i]] by {
            assert(head[i] == parts[i]);
        }
        lemma_words_again(re, head);
        assert(matched_texts(re, parts[parts.len() - 1]) == seq![parts.last()]);
        assert(matched_texts(re, before + " "@ + parts.last()) == head + seq![parts.last()]);
        assert(head + seq![parts.last()] =~= parts);
    }
}

/// Each of the parts that stand one space apart in a text that memory can hold is itself such a text.
proof fn lemma_part_fits(parts: Seq<Seq<char>>, i: int)
    requires
        fits(joined(parts, " "@)),
        0 <= i < parts.len(),
    ensures
        fits(parts[i]),
    decreases parts.len(),
{
    if parts.len() > 1 {
        let before = joined(parts.drop_last(), " "@);
        lemma_utf8_concat(before + " "@, parts.last());
        lemma_utf8_concat(before, " "@);
        if i < parts.len() - 1 {
            lemma_part_fits(parts.drop_last(), i);
        }
    }
}

/// The tokens of a text in lower case, one space apart, are the tokens of what they make up.
proof fn lemma_normalized_again(re: Regex, text: Seq<char>)
    requires
        regex_compiled(TOKEN_PATTERN@) == Some(re),
        matches_words(re),
        fits(text),
        fits(normalized(text)),
    ensures
        normalized(normalized(text)) == normalized(text),
{
    let found = matched_texts(re, text);
    let parts = lowered_parts(text, token_spans(text));
    assert(parts =~= lowered_matches(re, text));
    assert forall|i: int| 0 <= i < parts.len() implies matched_texts(re, #[trigger] parts[i])
        == seq![parts[i]] && lowered(parts[i]) == parts[i] by {
        lemma_part_fits(parts, i);
        assert(parts[i] == lowered(found[i]));
        assert(matched_texts(re, found[i]) == seq![found[i]]);
        assert(lowered_matches(re, found[i]) =~= seq![parts[i]]);
        assert(lowered(parts[i]) =~= parts[i]);
    }
    lemma_words_again(re, parts);
    let again = normalized(text);
    assert(lowered_parts(again, token_spans(again)) =~= lowered_matches(re, again));
    assert(lowered_matches(re, again) =~= parts);
}

/// The tokens of `text` in lower case, one space apart. Doing it again changes nothing.
pub fn normalize_for_fuzzy(text: &str) -> (r: String)
    ensures
        r@ == normalized(text@),
        normalized(r@) == r@,
{
    let spans: Vec<(usize, usize)> = spans_of(TOKEN_PATTERN, text);
    let r: String = join_lowered(text, &spans);
    // What is known of the matcher holds of texts whose length can be counted.
    byte_len(text);
    byte_len(r.as_str());
    proof {
        match regex_compiled(TOKEN_PATTERN@) {
            Some(re) => lemma_normalized_again(re, text@),
            None => assert(lowered_parts(r@, token_spans(r@)) =~= lowered_parts(
                text@,
                token_spans(text@),
            )),
        }
    }
    r
}

/// The byte ranges of the tokens of `text`.
pub fn fuzzy_token_spans(text: &str) -> (r: Vec<(usize, usize)>)
    ensures
        r@ == token_spans(text@),
        ordered_spans(text@, r@),
        forall|i: int|
            0 <= i < r@.len() ==> is_token(
                byte_range(text@, (#[trigger] r@[i]).0 as int, r@[i].1 as int),
            ),
{
    let spans: Vec<(usize, usize)> = spans_of(TOKEN_PATTERN, text);
    // What is known of the matcher holds of texts whose length can be counted.
    byte_len(text);
    proof {
        if let Some(re) = regex_compiled(TOKEN_PATTERN@) {
            assert forall|i: int| 0 <= i < spans@.len() implies is_token(
                byte_range(text@, (#[trigger] spans@[i]).0 as int, spans@[i].1 as int),
            ) by {
                assert(is_token(matched_texts(re, text@)[i]));
            }
        }
    }
    spans
}

/// A stretch of a text, with its tokens in lower case.
pub struct Segment {
    pub start: usize,
    pub end: usize,
    pub norm: String,
}

impl View for Segment {
    type V = (usize, usize, Seq<char>);

    open spec fn view(&self) -> (usize, usize, Seq<char>) {
        (self.start, self.end, self.norm@)
    }
}

/// The contents of a list of segments.
pub open spec fn segment_views(segments: Seq<Segment>) -> Seq<(usize, usize, Seq<char>)> {
    Seq::new(segments.len(), |i: int| segments[i]@)
}

/// Each stretch of `window` neighbouring tokens of `text`, from left to right.
pub open spec fn windows_of(text: Seq<char>, spans: Seq<(usize, usize)>, window: int) -> Seq<
    (usize, usize, Seq<char>),
> {
    if window < 1 || window > spans.len() {
        Seq::empty()
    } else {
        Seq::new(
            (spans.len() - window + 1) as nat,
            |i: int|
                (
                    spans[i].0,
                    spans[i + window - 1].1,
                    normalized(
                        byte_range(text, spans[i].0 as int, spans[i + window - 1].1 as int),
                    ),
                ),
        )
    }
}

/// Whether every segment is a byte range of whole characters of `text`.
pub open spec fn segments_in(text: Seq<char>, segments: Seq<(usize, usize, Seq<char>)>) -> bool {
    forall|i: int|
        0 <= i < segments.len() ==> char_range(
            text,
            (#[trigger] segments[i]).0 as int,
            segments[i].1 as int,
        )
}

/// Adds each stretch of `window` neighbouring tokens of `text` to `out`.
fn add_windows(
    token_re: &Option<Regex>,
    text: &str,
    spans: &Vec<(usize, usize)>,
    window: usize,
    out: &mut Vec<Segment>,
)
    requires
        *token_re == regex_compiled(TOKEN_PATTERN@),
        ordered_spans(text@, spans@),
        segments_in(text@, segment_views(old(out)@)),
    ensures
        segment_views(final(out)@) == segment_views(old(out)@) + windows_of(
            text@,
            spans@,
            window as int,
        ),
        segments_in(text@, segment_views(final(out)@)),
{
    let ghost start = segment_views(out@);
    if window < 1 || window > spans.len() {
        assert(start + windows_of(text@, spans@, window as int) =~= start);
        return ;
    }
    let ghost all = windows_of(text@, spans@, window as int);
    let mut i: usize = 0;
    assert(start + all.take(0) =~= start);
    while i < spans.len() - window + 1
        invariant
            1 <= window <= spans@.len(),
            i <= spans@.len() - window + 1,
            all == windows_of(text@, spans@, window as int),
            *token_re == regex_compiled(TOKEN_PATTERN@),
            ordered_spans(text@, spans@),
            segment_views(out@) == start + all.take(i as int),
            segments_in(text@, segment_views(out@)),
        decreases spans@.len() - window + 1 - i,
    {
        let first: usize = spans[i].0;
        let last: usize = spans[i + (window - 1)].1;
        assert(char_range(text@, spans@[i as int].0 as int, spans@[i as int].1 as int));
        assert(char_range(
            text@,
            spans@[i + window - 1].0 as int,
            spans@[i + window - 1].1 as int,
        ));
        let part: &str = slice_bytes(text, first, last);
        let tokens: Vec<(usize, usize)> = match token_re {
            Some(re) => find_spans(re, part),
            None => Vec::new(),
        };
        assert(tokens@ == token_spans(part@));
        let norm: String = join_lowered(part, &tokens);
        let ghost before = out@;
        out.push(Segment { start: first, end: last, norm });
        assert(all.take(i + 1) =~= all.take(i as int).push(all[i as int]));
        assert(segment_views(out@) =~= segment_views(before).push(all[i as int]));
        assert(segment_views(out@) =~= start + all.take(i + 1));
        i += 1;
    }
    assert(all.take(i as int) =~= all);
}

/// Whether a segment is `compact` but for a slip or two: the tokens without the spaces between
/// them differ by at most one character, or by two where the longer of them has twelve bytes.
pub open spec fn nearly(norm: Seq<char>, compact: Seq<char>) -> bool {
    let own = without(norm, CharClass::Space);
    let longer = if utf8_len(compact) >= utf8_len(own) {
        utf8_len(compact)
    } else {
        utf8_len(own)
    };
    let dist = edit_distance(own, compact);
    own.len() > 0 && longer >= 4 && (dist <= 1 || (dist == 2 && longer >= 12))
}

/// The segments that are `compact` but for a slip and touch no placeholder. The further right one
/// stands, the earlier it is considered.
pub open spec fn near_hits(
    segments: Seq<(usize, usize, Seq<char>)>,
    omitted: Seq<(usize, usize)>,
    compact: Seq<char>,
) -> Seq<Hit>
    decreases segments.len(),
{
    if segments.len() == 0 {
        Seq::empty()
    } else {
        let before = near_hits(segments.drop_last(), omitted, compact);
        let (start, end, norm) = segments.last();
        if !overlaps_any(omitted, (start, end)) && nearly(norm, compact) {
            before.push(Hit { rank: (u64::MAX - start) as u64, start, end })
        } else {
            before
        }
    }
}

/// The segments that are `compact` but for a slip and touch no placeholder.
pub fn near_exact_hits(
    segments: &Vec<Segment>,
    omitted: &Vec<(usize, usize)>,
    compact: &str,
) -> (r: Vec<Hit>)
    ensures
        r@ == near_hits(segment_views(segments@), omitted@, compact@),
{
    let ghost all = segment_views(segments@);
    let mut hits: Vec<Hit> = Vec::new();
    let mut i: usize = 0;
    while i < segments.len()
        invariant
            i <= segments@.len(),
            all == segment_views(segments@),
            hits@ == near_hits(all.take(i as int), omitted@, compact@),
        decreases segments@.len() - i,
    {
        let seg: &Segment = &segments[i];
        assert(all.take(i + 1).drop_last() =~= all.take(i as int));
        assert(all.take(i + 1).last() == seg@);
        if !overlaps_one_of(omitted, (seg.start, seg.end)) {
            let own: String = remove_class(seg.norm.as_str(), CharClass::Space);
            if !own.as_str().is_empty() {
                let a: usize = byte_len(compact);
                let b: usize = byte_len(own.as_str());
                let longer: usize = if a >= b {
                    a
                } else {
                    b
                };
                let dist: usize = levenshtein(own.as_str(), compact);
                if longer >= 4 && (dist <= 1 || (dist == 2 && longer >= 12)) {
                    hits.push(
                        Hit { rank: u64::MAX - (seg.start as u64), start: seg.start, end: seg.end },
                    );
                }
            }
        }
        i += 1;
    }
    assert(all.take(i as int) =~= all);
    hits
}

/// Every hit is the range of a segment.
pub proof fn lemma_near_hits_in(
    text: Seq<char>,
    segments: Seq<(usize, usize, Seq<char>)>,
    omitted: Seq<(usize, usize)>,
    compact: Seq<char>,
)
    requires
        segments_in(text, segments),
    ensures
        hits_in(text, near_hits(segments, omitted, compact)),
    decreases segments.len(),
{
    if segments.len() > 0 {
        let rest = segments.drop_last();
        assert(segments_in(text, rest)) by {
            assert forall|i: int| 0 <= i < rest.len() implies char_range(
                text,
                (#[trigger] rest[i]).0 as int,
                rest[i].1 as int,
            ) by {
                assert(rest[i] == segments[i]);
            }
        }
        lemma_near_hits_in(text, rest, omitted, compact);
        assert(segments.last() == segments[segments.len() - 1]);
        let before = near_hits(rest, omitted, compact);
        let hits = near_hits(segments, omitted, compact);
        assert forall|k: int| 0 <= k < hits.len() implies char_range(
            text,
            (#[trigger] hits[k]).start as int,
            hits[k].end as int,
        ) by {
            if k < before.len() {
                assert(hits[k] == before[k]);
            }
        }
    }
}

/// Whether none of `spans` touches one of `omitted`.
pub open spec fn spares(spans: Seq<(usize, usize)>, omitted: Seq<(usize, usize)>) -> bool {
    forall|i: int| 0 <= i < spans.len() ==> !overlaps_any(omitted, #[trigger] spans[i])
}

/// Whether none of `hits` touches one of `omitted`.
spec fn hits_spare(hits: Seq<Hit>, omitted: Seq<(usize, usize)>) -> bool {
    forall|k: int|
        0 <= k < hits.len() ==> !overlaps_any(
            omitted,
            ((#[trigger] hits[k]).start, hits[k].end),
        )
}

/// What is chosen of hits that touch no placeholder touches none.
proof fn lemma_chosen_spare(text: Seq<char>, hits: Seq<Hit>, omitted: Seq<(usize, usize)>)
    requires
        hits_in(text, hits),
        hits_spare(hits, omitted),
    ensures
        spares(chosen(hits), omitted),
{
    lemma_chosen(hits);
    assert forall|i: int| 0 <= i < chosen(hits).len() implies !overlaps_any(
        omitted,
        #[trigger] chosen(hits)[i],
    ) by {
        assert(is_hit(hits, chosen(hits)[i]));
    }
}

/// No stretch that is nearly the phrase touches a placeholder.
proof fn lemma_near_hits_spare(
    segments: Seq<(usize, usize, Seq<char>)>,
    omitted: Seq<(usize, usize)>,
    compact: Seq<char>,
)
    ensures
        hits_spare(near_hits(segments, omitted, compact), omitted),
    decreases segments.len(),
{
    if segments.len() > 0 {
        lemma_near_hits_spare(segments.drop_last(), omitted, compact);
    }
}

/// No stretch that is similar to the phrase touches a placeholder.
proof fn lemma_scored_hits_spare(
    segments: Seq<(usize, usize, Seq<char>)>,
    scores: Seq<u64>,
    omitted: Seq<(usize, usize)>,
    phrase_len: nat,
    threshold: u64,
)
    ensures
        hits_spare(scored_hits(segments, scores, omitted, phrase_len, threshold), omitted),
    decreases segments.len(),
{
    if segments.len() > 0 {
        lemma_scored_hits_spare(segments.drop_last(), scores, omitted, phrase_len, threshold);
    }
}

/// Where a slightly different spelling of `phrase` stands in `text`.
pub open spec fn near_spans(text: Seq<char>, phrase: Seq<char>) -> Seq<(usize, usize)> {
    let compact = without(normalized(phrase), CharClass::Space);
    let window = token_spans(phrase).len() as int;
    if text.len() == 0 || stripped(phrase).len() == 0 || utf8_len(compact) < 4 || window < 1
        || window > 8 {
        Seq::empty()
    } else {
        chosen(
            near_hits(
                windows_of(text, token_spans(text), window),
                matches_of(OMITTED_PATTERN@, text),
                compact,
            ),
        )
    }
}

/// Nothing is replaced where there is nothing to replace.
pub proof fn lemma_spliced_nothing(text: Seq<char>, replacement: Seq<char>)
    ensures
        spliced(text, Seq::empty(), replacement) == text,
{
    let bytes = encode_utf8(text);
    assert(bytes.subrange(0, bytes.len() as int) =~= bytes);
    encode_utf8_decode_utf8(text);
    assert(spliced(text, Seq::empty(), replacement) =~= text);
}

/// `text` with each stretch that spells `phrase` but for a slip replaced, and how many there were. No
/// placeholder that stands in `text` is touched.
pub fn replace_near_exact_phrase(text: &str, phrase: &str, replacement: &str) -> (r: (
    String,
    usize,
))
    ensures
        r.0@ == spliced(text@, near_spans(text@, phrase@), replacement@),
        r.1 == near_spans(text@, phrase@).len(),
        spares(near_spans(text@, phrase@), matches_of(OMITTED_PATTERN@, text@)),
{
    proof {
        lemma_spliced_nothing(text@, replacement@);
    }
    if text.is_empty() || trim(phrase).is_empty() {
        return (text.to_owned(), 0);
    }
    let phrase_norm: String = normalize_for_fuzzy(phrase);
    let compact: String = remove_class(phrase_norm.as_str(), CharClass::Space);
    let window: usize = fuzzy_token_spans(phrase).len();
    if byte_len(compact.as_str()) < 4 || window < 1 || window > 8 {
        return (text.to_owned(), 0);
    }
    let spans: Vec<(usize, usize)> = fuzzy_token_spans(text);
    let omitted: Vec<(usize, usize)> = spans_of(OMITTED_PATTERN, text);
    let token_re: Option<Regex> = compile(TOKEN_PATTERN);
    let mut segments: Vec<Segment> = Vec::new();
    add_windows(&token_re, text, &spans, window, &mut segments);
    assert(segment_views(segments@) =~= windows_of(text@, spans@, window as int));
    let hits: Vec<Hit> = near_exact_hits(&segments, &omitted, compact.as_str());
    proof {
        lemma_near_hits_in(text@, segment_views(segments@), omitted@, compact@);
        lemma_near_hits_spare(segment_views(segments@), omitted@, compact@);
        lemma_chosen_spare(text@, hits@, omitted@);
    }
    replace_hits(text, &hits, replacement)
}

/// The bits of the score from which on a stretch counts as a spelling of a phrase of `tokens`
/// tokens: 0.97 for one token, 0.94 for two or three, 0.91 for more.
#[verifier::allow_in_spec]
pub fn fuzzy_similarity_threshold(tokens: usize) -> u64
    returns
        if tokens <= 1 {
            0x3fef_0a3d_70a3_d70au64
        } else if tokens <= 3 {
            0x3fee_147a_e147_ae14u64
        } else {
            0x3fed_1eb8_51eb_851fu64
        },
{
    if tokens <= 1 {
        0x3fef_0a3d_70a3_d70a
    } else if tokens <= 3 {
        0x3fee_147a_e147_ae14
    } else {
        0x3fed_1eb8_51eb_851f
    }
}

/// Whether a stretch of `own` bytes may spell a phrase of `phrase` bytes: the ratio of the lengths
/// is at least 0.7 and at most 1.4.
pub open spec fn comparable_lengths(own: nat, phrase: nat) -> bool {
    7 * phrase <= 10 * own && 5 * own <= 7 * phrase
}

/// The segments that score high enough and touch no placeholder. The higher the score, the earlier
/// a segment is considered.
pub open spec fn scored_hits(
    segments: Seq<(usize, usize, Seq<char>)>,
    scores: Seq<u64>,
    omitted: Seq<(usize, usize)>,
    phrase_len: nat,
    threshold: u64,
) -> Seq<Hit>
    decreases segments.len(),
{
    if segments.len() == 0 {
        Seq::empty()
    } else {
        let n = segments.len() - 1;
        let before = scored_hits(segments.drop_last(), scores, omitted, phrase_len, threshold);
        let (start, end, norm) = segments[n];
        if !overlaps_any(omitted, (start, end)) && norm.len() > 0 && comparable_lengths(
            utf8_len(norm),
            phrase_len,
        ) && scores[n] >= threshold {
            before.push(Hit { rank: (u64::MAX - scores[n]) as u64, start, end })
        } else {
            before
        }
    }
}

/// The segments that score high enough and touch no placeholder. `scores` holds the bits of the
/// score of each segment.
pub fn fuzzy_hits(
    segments: &Vec<Segment>,
    scores: &Vec<u64>,
    omitted: &Vec<(usize, usize)>,
    phrase_len: usize,
    threshold: u64,
) -> (r: Vec<Hit>)
    requires
        scores@.len() == segments@.len(),
    ensures
        r@ == scored_hits(
            segment_views(segments@),
            scores@,
            omitted@,
            phrase_len as nat,
            threshold,
        ),
{
    let ghost all = segment_views(segments@);
    let mut hits: Vec<Hit> = Vec::new();
    let mut i: usize = 0;
    while i < segments.len()
        invariant
            i <= segments@.len(),
            scores@.len() == segments@.len(),
            all == segment_views(segments@),
            hits@ == scored_hits(
                all.take(i as int),
                scores@,
                omitted@,
                phrase_len as nat,
                threshold,
            ),
        decreases segments@.len() - i,
    {
        let seg: &Segment = &segments[i];
        assert(all.take(i + 1).drop_last() =~= all.take(i as int));
        assert(all.take(i + 1)[i as int] == seg@);
        if !overlaps_one_of(omitted, (seg.start, seg.end)) && !seg.norm.as_str().is_empty() {
            let own: u128 = byte_len(seg.norm.as_str()) as u128;
            let len: u128 = phrase_len as u128;
            if 7 * len <= 10 * own && 5 * own <= 7 * len && scores[i] >= threshold {
                hits.push(
                    Hit { rank: u64::MAX - scores[i], start: seg.start, end: seg.end },
                );
            }
        }
        i += 1;
    }
    assert(all.take(i as int) =~= all);
    hits
}

/// Every hit is the range of a segment.
pub proof fn lemma_scored_hits_in(
    text: Seq<char>,
    segments: Seq<(usize, usize, Seq<char>)>,
    scores: Seq<u64>,
    omitted: Seq<(usize, usize)>,
    phrase_len: nat,
    threshold: u64,
)
    requires
        segments_in(text, segments),
    ensures
        hits_in(text, scored_hits(segments, scores, omitted, phrase_len, threshold)),
    decreases segments.len(),
{
    if segments.len() > 0 {
        let rest = segments.drop_last();
        assert(segments_in(text, rest)) by {
            assert forall|i: int| 0 <= i < rest.len() implies char_range(
                text,
                (#[trigger] rest[i]).0 as int,
                rest[i].1 as int,
            ) by {
                assert(rest[i] == segments[i]);
            }
        }
        lemma_scored_hits_in(text, rest, scores, omitted, phrase_len, threshold);
        let n = segments.len() - 1;
        assert(char_range(text, segments[n].0 as int, segments[n].1 as int));
        let before = scored_hits(rest, scores, omitted, phrase_len, threshold);
        let hits = scored_hits(segments, scores, omitted, phrase_len, threshold);
        assert forall|k: int| 0 <= k < hits.len() implies char_range(
            text,
            (#[trigger] hits[k]).start as int,
            hits[k].end as int,
        ) by {
            if k < before.len() {
                assert(hits[k] == before[k]);
            }
        }
    }
}

/// The stretches of `text` that are compared with a phrase of `tokens` tokens: those of one token
/// less, of as many, and of one more, the shorter first.
pub open spec fn fuzzy_windows(text: Seq<char>, tokens: int) -> Seq<(usize, usize, Seq<char>)> {
    let spans = token_spans(text);
    let shorter = if tokens >= 2 {
        windows_of(text, spans, tokens - 1)
    } else {
        Seq::empty()
    };
    shorter + windows_of(text, spans, tokens) + windows_of(text, spans, tokens + 1)
}

/// The bits of the score of each segment against `phrase`.
pub open spec fn scores_of(segments: Seq<(usize, usize, Seq<char>)>, phrase: Seq<char>) -> Seq<
    u64,
> {
    Seq::new(segments.len(), |i: int| jaro_winkler_bits(segments[i].2, phrase))
}

/// Where a similar spelling of `phrase` stands in `text`.
pub open spec fn fuzzy_spans(text: Seq<char>, phrase: Seq<char>) -> Seq<(usize, usize)> {
    let norm = normalized(phrase);
    let tokens = token_spans(phrase).len() as int;
    if text.len() == 0 || stripped(phrase).len() == 0 || utf8_len(norm) < 5 || tokens < 1 || tokens
        > 8 {
        Seq::empty()
    } else {
        let segments = fuzzy_windows(text, tokens);
        chosen(
            scored_hits(
                segments,
                scores_of(segments, norm),
                matches_of(OMITTED_PATTERN@, text),
                utf8_len(norm),
                fuzzy_similarity_threshold(tokens as usize),
            ),
        )
    }
}

/// `text` with each stretch that is similar to `phrase` replaced, and how many there were. No
/// placeholder that stands in `text` is touched.
pub fn replace_fuzzy_phrase(text: &str, phrase: &str, replacement: &str) -> (r: (String, usize))
    ensures
        r.0@ == spliced(text@, fuzzy_spans(text@, phrase@), replacement@),
        r.1 == fuzzy_spans(text@, phrase@).len(),
        spares(fuzzy_spans(text@, phrase@), matches_of(OMITTED_PATTERN@, text@)),
{
    proof {
        lemma_spliced_nothing(text@, replacement@);
    }
    if text.is_empty() || trim(phrase).is_empty() {
        return (text.to_owned(), 0);
    }
    let norm: String = normalize_for_fuzzy(phrase);
    let tokens: usize = fuzzy_token_spans(phrase).len();
    if byte_len(norm.as_str()) < 5 || tokens < 1 || tokens > 8 {
        return (text.to_owned(), 0);
    }
    let spans: Vec<(usize, usize)> = fuzzy_token_spans(text);
    let omitted: Vec<(usize, usize)> = spans_of(OMITTED_PATTERN, text);
    let token_re: Option<Regex> = compile(TOKEN_PATTERN);
    let mut segments: Vec<Segment> = Vec::new();
    assert(segment_views(segments@) =~= Seq::empty());
    if tokens >= 2 {
        add_windows(&token_re, text, &spans, tokens - 1, &mut segments);
    }
    add_windows(&token_re, text, &spans, tokens, &mut segments);
    add_windows(&token_re, text, &spans, tokens + 1, &mut segments);
    assert(segment_views(segments@) =~= fuzzy_windows(text@, tokens as int));
    let mut scores: Vec<u64> = Vec::new();
    let mut i: usize = 0;
    while i < segments.len()
        invariant
            i <= segments@.len(),
            scores@.len() == i,
            forall|k: int|
                0 <= k < i ==> #[trigger] scores@[k] == jaro_winkler_bits(
                    segments@[k].norm@,
                    norm@,
                ),
        decreases segments@.len() - i,
    {
        scores.push(jaro_winkler(segments[i].norm.as_str(), norm.as_str()));
        i += 1;
    }
    assert(scores@ =~= scores_of(segment_views(segments@), norm@));
    let phrase_len: usize = byte_len(norm.as_str());
    let hits: Vec<Hit> = fuzzy_hits(
        &segments,
        &scores,
        &omitted,
        phrase_len,
        fuzzy_similarity_threshold(tokens),
    );
    proof {
        lemma_scored_hits_in(
            text@,
            segment_views(segments@),
            scores@,
            omitted@,
            phrase_len as nat,
            fuzzy_similarity_threshold(tokens),
        );
        lemma_scored_hits_spare(
            segment_views(segments@),
            scores@,
            omitted@,
            phrase_len as nat,
            fuzzy_similarity_threshold(tokens),
        );
        lemma_chosen_spare(text@, hits@, omitted@);
    }
    replace_hits(text, &hits, replacement)
}

/// A text with what was found of one candidate replaced, and how often each way of looking found
/// something.
pub struct Redaction {
    pub text: Seq<char>,
    pub exact: nat,
    pub fuzzy: nat,
}

/// Replaces what is found of one candidate: first where it stands as reported, then, where the
/// kind allows it, where it stands with a slip, then where something similar stands.
pub open spec fn redacted_once(
    text: Seq<char>,
    kind: AnonymiseEntityKind,
    value: Seq<char>,
) -> Redaction {
    let mark = kind.placeholder()@;
    let exact = exact_spans(text, value);
    let after_exact = if exact.len() == 0 {
        text
    } else {
        spliced(text, exact, mark)
    };
    if kind.supports_fuzzy() {
        let near = near_spans(after_exact, value);
        let after_near = spliced(after_exact, near, mark);
        let fuzzy = fuzzy_spans(after_near, value);
        Redaction {
            text: spliced(after_near, fuzzy, mark),
            exact: exact.len(),
            fuzzy: near.len() + fuzzy.len(),
        }
    } else {
        Redaction { text: after_exact, exact: exact.len(), fuzzy: 0 }
    }
}

/// Replaces what is found of each candidate in turn.
pub open spec fn redacted(
    text: Seq<char>,
    candidates: Seq<(AnonymiseEntityKind, Seq<char>)>,
) -> Redaction
    decreases candidates.len(),
{
    if candidates.len() == 0 {
        Redaction { text, exact: 0, fuzzy: 0 }
    } else {
        let before = redacted(text, candidates.drop_last());
        let step = redacted_once(before.text, candidates.last().0, candidates.last().1);
        Redaction {
            text: step.text,
            exact: before.exact + step.exact,
            fuzzy: before.fuzzy + step.fuzzy,
        }
    }
}

/// No placeholder refers to a group of a match.
pub proof fn lemma_placeholder_is_literal(kind: AnonymiseEntityKind)
    ensures
        !kind.placeholder()@.contains('$'),
{
    reveal_strlit("[name omitted]");
    reveal_strlit("[location omitted]");
    reveal_strlit("[address omitted]");
    reveal_strlit("[number omitted]");
    reveal_strlit("[email omitted]");
    reveal_strlit("[organisation omitted]");
    reveal_strlit("[identifier omitted]");
}

/// A count, or the largest number that a `usize` holds where it is more.
pub open spec fn capped(n: nat) -> usize {
    if n > usize::MAX {
        usize::MAX
    } else {
        n as usize
    }
}

/// `text` with a placeholder in the place of each candidate found in it, how many were found as
/// they were reported, and how many in another spelling. The candidates are taken in turn.
pub fn apply_anonymise_to_text_with_candidates(text: &str, candidates: &[AnonymiseMatch]) -> (r: (
    String,
    usize,
    usize,
))
    ensures
        r.0@ == redacted(text@, match_views(candidates@)).text,
        r.1 == capped(redacted(text@, match_views(candidates@)).exact),
        r.2 == capped(redacted(text@, match_views(candidates@)).fuzzy),
{
    let ghost all = match_views(candidates@);
    let mut rewritten: String = text.to_owned();
    let mut exact_total: usize = 0;
    let mut fuzzy_total: usize = 0;
    let mut i: usize = 0;
    while i < candidates.len()
        invariant
            i <= candidates@.len(),
            all == match_views(candidates@),
            rewritten@ == redacted(text@, all.take(i as int)).text,
            exact_total == capped(redacted(text@, all.take(i as int)).exact),
            fuzzy_total == capped(redacted(text@, all.take(i as int)).fuzzy),
        decreases candidates@.len() - i,
    {
        let candidate: &AnonymiseMatch = &candidates[i];
        let value: &str = candidate.value.as_str();
        let mark: &str = candidate.kind.placeholder();
        assert(all.take(i + 1).drop_last() =~= all.take(i as int));
        assert(all.take(i + 1).last() == candidate@);
        proof {
            lemma_placeholder_is_literal(candidate.kind);
        }
        let exact: (String, usize) = replace_exact_case_insensitive(
            rewritten.as_str(),
            value,
            mark,
        );
        rewritten = exact.0;
        exact_total = exact_total.saturating_add(exact.1);
        if candidate.kind.supports_fuzzy() {
            let near: (String, usize) = replace_near_exact_phrase(rewritten.as_str(), value, mark);
            rewritten = near.0;
            fuzzy_total = fuzzy_total.saturating_add(near.1);
            let fuzzy: (String, usize) = replace_fuzzy_phrase(rewritten.as_str(), value, mark);
            rewritten = fuzzy.0;
            fuzzy_total = fuzzy_total.saturating_add(fuzzy.1);
        }
        i += 1;
    }
    assert(all.take(i as int) =~= all);
    (rewritten, exact_total, fuzzy_total)
}

/// `text` with a placeholder in the place of each entity reported, how many were found as they
/// were reported, and how many in another spelling.
pub fn apply_anonymise_to_text(text: &str, matches: &[AnonymiseMatch]) -> (r: (
    String,
    usize,
    usize,
))
    ensures
        r.0@ == redacted(
            text@,
            longest_first(distinct_candidates(match_views(matches@))),
        ).text,
        r.1 == capped(
            redacted(text@, longest_first(distinct_candidates(match_views(matches@)))).exact,
        ),
        r.2 == capped(
            redacted(text@, longest_first(distinct_candidates(match_views(matches@)))).fuzzy,
        ),
{
    let candidates: Vec<AnonymiseMatch> = build_replacement_candidates(matches);
    apply_anonymise_to_text_with_candidates(text, candidates.as_slice())
}

/// Candidates that are taken in two goes: the second go works on the text that the first has left,
/// and what was found adds up.
pub proof fn lemma_redacted_in_turn(
    text: Seq<char>,
    first: Seq<(AnonymiseEntityKind, Seq<char>)>,
    later: Seq<(AnonymiseEntityKind, Seq<char>)>,
)
    ensures
        redacted(text, first + later).text == redacted(redacted(text, first).text, later).text,
        redacted(text, first + later).exact == redacted(text, first).exact + redacted(
            redacted(text, first).text,
            later,
        ).exact,
        redacted(text, first + later).fuzzy == redacted(text, first).fuzzy + redacted(
            redacted(text, first).text,
            later,
        ).fuzzy,
    decreases later.len(),
{
    if later.len() == 0 {
        assert(first + later =~= first);
    } else {
        lemma_redacted_in_turn(text, first, later.drop_last());
        assert((first + later).drop_last() =~= first + later.drop_last());
        assert((first + later).last() == later.last());
    }
}

/// What a single candidate does, of whatever kind: wherever its value stands the placeholder of the
/// kind is put, and each such place is counted. For a phone number, an email address, a number and
/// an identifier that is all. A name, a location, an address and an organisation are looked for once
/// more in what is left: first where they are spelled with a slip, then where something similar
/// stands; each of these is replaced by the same placeholder and counted apart.
pub proof fn lemma_one_candidate(text: Seq<char>, kind: AnonymiseEntityKind, value: Seq<char>)
    ensures
        ({
            let mark = kind.placeholder()@;
            let found = exact_spans(text, value);
            let left = spliced(text, found, mark);
            let r = redacted(text, seq![(kind, value)]);
            &&& r.exact == found.len()
            &&& kind is Phone || kind is Email || kind is Number || kind is Identifier ==> r.text
                == left && r.fuzzy == 0
            &&& kind is Name || kind is Location || kind is Address || kind is Organisation ==> {
                let slips = near_spans(left, value);
                let rest = spliced(left, slips, mark);
                let similar = fuzzy_spans(rest, value);
                &&& r.text == spliced(rest, similar, mark)
                &&& r.fuzzy == slips.len() + similar.len()
            }
        }),
{
    let one = seq![(kind, value)];
    assert(one.drop_last() =~= Seq::empty());
    assert(one.last() == (kind, value));
    assert(redacted(text, one.drop_last()) == (Redaction { text, exact: 0, fuzzy: 0 }));
    lemma_spliced_nothing(text, kind.placeholder()@);
    if exact_spans(text, value).len() == 0 {
        assert(exact_spans(text, value) =~= Seq::empty());
    }
}

/// A text in which nothing of the candidates is found stays as it is, and nothing is counted.
pub proof fn lemma_nothing_to_remove(
    text: Seq<char>,
    candidates: Seq<(AnonymiseEntityKind, Seq<char>)>,
)
    requires
        forall|i: int|
            0 <= i < candidates.len() ==> exact_spans(text, (#[trigger] candidates[i]).1).len() == 0
                && near_spans(text, candidates[i].1).len() == 0 && fuzzy_spans(
                text,
                candidates[i].1,
            ).len() == 0,
    ensures
        redacted(text, candidates) == (Redaction { text, exact: 0, fuzzy: 0 }),
    decreases candidates.len(),
{
    if candidates.len() > 0 {
        let rest = candidates.drop_last();
        assert forall|i: int| 0 <= i < rest.len() implies exact_spans(
            text,
            (#[trigger] rest[i]).1,
        ).len() == 0 && near_spans(text, rest[i].1).len() == 0 && fuzzy_spans(
            text,
            rest[i].1,
        ).len() == 0 by {
            assert(rest[i] == candidates[i]);
        }
        lemma_nothing_to_remove(text, rest);
        let (kind, value) = candidates[candidates.len() - 1];
        assert(near_spans(text, value) =~= Seq::empty());
        assert(fuzzy_spans(text, value) =~= Seq::empty());
        lemma_spliced_nothing(text, kind.placeholder()@);
    }
}

/// How a phrase is looked for: in any case, with what has a meaning of its own in a pattern taken
/// literally; as a whole word exactly where it begins and ends with a letter, a digit or an
/// underscore.
pub proof fn lemma_exact_pattern(phrase: Seq<char>)
    ensures
        ({
            let core = escaped(stripped(phrase));
            let whole = phrase.len() > 0 && (unicode_alphanumeric(phrase[0]) || phrase[0] == '_')
                && (unicode_alphanumeric(phrase.last()) || phrase.last() == '_');
            &&& whole ==> exact_pattern(phrase) == "(?i)"@ + r"\b"@ + core + r"\b"@
            &&& !whole ==> exact_pattern(phrase) == "(?i)"@ + core
        }),
{
    reveal_strlit("(?i)");
    reveal_strlit(r"\b");
    reveal_strlit(r"(?i)\b");
    assert(r"(?i)\b"@ =~= "(?i)"@ + r"\b"@);
}

/// Each stretch that spells the phrase but for one slip, or for two where it is long, is a hit unless
/// it touches a placeholder.
proof fn lemma_near_hit(
    segments: Seq<(usize, usize, Seq<char>)>,
    omitted: Seq<(usize, usize)>,
    compact: Seq<char>,
    i: int,
)
    requires
        0 <= i < segments.len(),
        !overlaps_any(omitted, (segments[i].0, segments[i].1)),
        without(segments[i].2, CharClass::Space).len() > 0,
        ({
            let own = without(segments[i].2, CharClass::Space);
            let long = utf8_len(compact) >= 12 || utf8_len(own) >= 12;
            let some = utf8_len(compact) >= 4 || utf8_len(own) >= 4;
            some && (edit_distance(own, compact) <= 1 || (edit_distance(own, compact) == 2 && long))
        }),
    ensures
        is_hit(near_hits(segments, omitted, compact), (segments[i].0, segments[i].1)),
    decreases segments.len(),
{
    let rest = segments.drop_last();
    let before = near_hits(rest, omitted, compact);
    let all = near_hits(segments, omitted, compact);
    if i < rest.len() {
        lemma_near_hit(rest, omitted, compact, i);
        let k = choose|k: int|
            0 <= k < before.len() && (#[trigger] before[k]).start == segments[i].0 && before[k].end
                == segments[i].1;
        assert(all[k] == before[k]);
    } else {
        assert(segments.last() == segments[i]);
        assert(all[before.len() as int].start == segments[i].0);
    }
}

/// Each hit is such a stretch.
proof fn lemma_only_near_hits(
    segments: Seq<(usize, usize, Seq<char>)>,
    omitted: Seq<(usize, usize)>,
    compact: Seq<char>,
    k: int,
) -> (i: int)
    requires
        0 <= k < near_hits(segments, omitted, compact).len(),
    ensures
        0 <= i < segments.len(),
        near_hits(segments, omitted, compact)[k].start == segments[i].0,
        near_hits(segments, omitted, compact)[k].end == segments[i].1,
        without(segments[i].2, CharClass::Space).len() > 0,
        edit_distance(without(segments[i].2, CharClass::Space), compact) <= 2,
        edit_distance(without(segments[i].2, CharClass::Space), compact) == 2 ==> utf8_len(compact)
            >= 12 || utf8_len(without(segments[i].2, CharClass::Space)) >= 12,
    decreases segments.len(),
{
    if segments.len() > 0 {
        let before = near_hits(segments.drop_last(), omitted, compact);
        if k < before.len() {
            lemma_only_near_hits(segments.drop_last(), omitted, compact, k)
        } else {
            segments.len() - 1
        }
    } else {
        0
    }
}

/// What a slip does not save: of a phrase of one to eight tokens and at least four bytes, each stretch
/// of as many tokens that differs from it by one character, or by two where twelve bytes are compared,
/// is replaced, unless it touches a placeholder or overlaps one that is replaced.
pub proof fn lemma_slip_is_found(text: Seq<char>, phrase: Seq<char>, i: int)
    requires
        ({
            let spans = token_spans(text);
            let n = token_spans(phrase).len();
            let compact = without(normalized(phrase), CharClass::Space);
            &&& text.len() > 0
            &&& stripped(phrase).len() > 0
            &&& 1 <= n <= 8
            &&& utf8_len(compact) >= 4
            &&& 0 <= i
            &&& i + n <= spans.len()
            &&& !overlaps_any(matches_of(OMITTED_PATTERN@, text), (spans[i].0, spans[i + n - 1].1))
            &&& {
                let part = byte_range(text, spans[i].0 as int, spans[i + n - 1].1 as int);
                let own = without(normalized(part), CharClass::Space);
                &&& own.len() > 0
                &&& edit_distance(own, compact) <= 1 || (edit_distance(own, compact) == 2
                    && utf8_len(compact) >= 12)
            }
        }),
    ensures
        ({
            let span = (
                token_spans(text)[i].0,
                token_spans(text)[i + token_spans(phrase).len() - 1].1,
            );
            near_spans(text, phrase).contains(span) || overlaps_any(near_spans(text, phrase), span)
        }),
{
    let spans = token_spans(text);
    let n = token_spans(phrase).len() as int;
    let compact = without(normalized(phrase), CharClass::Space);
    let segments = windows_of(text, spans, n);
    let omitted = matches_of(OMITTED_PATTERN@, text);
    let hits = near_hits(segments, omitted, compact);
    let span = (spans[i].0, spans[i + n - 1].1);
    lemma_near_hit(segments, omitted, compact, i);
    lemma_hit_wins(hits, span);
}

/// A hit is among the chosen ranges or overlaps one of them.
proof fn lemma_hit_wins(hits: Seq<Hit>, span: (usize, usize))
    requires
        is_hit(hits, span),
    ensures
        chosen(hits).contains(span) || overlaps_any(chosen(hits), span),
{
    let k = choose|k: int|
        0 <= k < hits.len() && (#[trigger] hits[k]).start == span.0 && hits[k].end == span.1;
    lemma_passed_over(hits, k);
    if !chosen(hits).contains(span) {
        let j = choose|j: int|
            0 <= j < hits.len() && overlaps(span, (#[trigger] hits[j].start, hits[j].end))
                && chosen(hits).contains((hits[j].start, hits[j].end));
        let m = choose|m: int|
            0 <= m < chosen(hits).len() && chosen(hits)[m] == (hits[j].start, hits[j].end);
        assert(overlaps(span, chosen(hits)[m]));
    }
}

/// What is replaced for a slip: only stretches of as many tokens as the phrase has, which differ from
/// it by two characters at most; and nothing for a phrase of fewer than four bytes, of no token, or of
/// more than eight.
pub proof fn lemma_only_slips(text: Seq<char>, phrase: Seq<char>, m: int)
    requires
        0 <= m < near_spans(text, phrase).len(),
        ordered_spans(text, token_spans(text)),
    ensures
        1 <= token_spans(phrase).len() <= 8,
        utf8_len(without(normalized(phrase), CharClass::Space)) >= 4,
        exists|i: int|
            0 <= i && i + token_spans(phrase).len() <= token_spans(text).len() && near_spans(
                text,
                phrase,
            )[m].0 == (#[trigger] token_spans(text)[i]).0 && edit_distance(
                without(
                    normalized(
                        byte_range(
                            text,
                            near_spans(text, phrase)[m].0 as int,
                            near_spans(text, phrase)[m].1 as int,
                        ),
                    ),
                    CharClass::Space,
                ),
                without(normalized(phrase), CharClass::Space),
            ) <= 2,
{
    let spans = token_spans(text);
    let n = token_spans(phrase).len() as int;
    let compact = without(normalized(phrase), CharClass::Space);
    let segments = windows_of(text, spans, n);
    let omitted = matches_of(OMITTED_PATTERN@, text);
    let hits = near_hits(segments, omitted, compact);
    assert(near_spans(text, phrase) == chosen(hits));
    assert forall|k: int| 0 <= k < hits.len() implies (#[trigger] hits[k]).start <= hits[k].end by {
        let i = lemma_only_near_hits(segments, omitted, compact, k);
        assert(char_range(text, spans[i].0 as int, spans[i].1 as int));
        assert(char_range(text, spans[i + n - 1].0 as int, spans[i + n - 1].1 as int));
    }
    lemma_chosen(hits);
    assert(is_hit(hits, chosen(hits)[m]));
    let k = choose|k: int|
        0 <= k < hits.len() && (#[trigger] hits[k]).start == chosen(hits)[m].0 && hits[k].end
            == chosen(hits)[m].1;
    let i = lemma_only_near_hits(segments, omitted, compact, k);
    assert(spans[i].0 == near_spans(text, phrase)[m].0);
}

/// Each stretch that scores high enough and is of a fitting length is a hit unless it touches a
/// placeholder.
proof fn lemma_scored_hit(
    segments: Seq<(usize, usize, Seq<char>)>,
    scores: Seq<u64>,
    omitted: Seq<(usize, usize)>,
    phrase_len: nat,
    threshold: u64,
    i: int,
)
    requires
        0 <= i < segments.len(),
        !overlaps_any(omitted, (segments[i].0, segments[i].1)),
        segments[i].2.len() > 0,
        7 * phrase_len <= 10 * utf8_len(segments[i].2),
        5 * utf8_len(segments[i].2) <= 7 * phrase_len,
        scores[i] >= threshold,
    ensures
        is_hit(
            scored_hits(segments, scores, omitted, phrase_len, threshold),
            (segments[i].0, segments[i].1),
        ),
    decreases segments.len(),
{
    let rest = segments.drop_last();
    let before = scored_hits(rest, scores, omitted, phrase_len, threshold);
    let all = scored_hits(segments, scores, omitted, phrase_len, threshold);
    if i < rest.len() {
        lemma_scored_hit(rest, scores, omitted, phrase_len, threshold, i);
        let k = choose|k: int|
            0 <= k < before.len() && (#[trigger] before[k]).start == segments[i].0 && before[k].end
                == segments[i].1;
        assert(all[k] == before[k]);
    } else {
        assert(all[before.len() as int].start == segments[i].0);
    }
}

/// What a similar spelling does not save: of a phrase of one to eight tokens and at least five bytes,
/// each stretch of as many tokens, of one less or of one more, whose length is between 0.7 and 1.4
/// times that of the phrase and whose score reaches 0.97 for one token, 0.94 for two or three and 0.91
/// for more, is replaced, unless it touches a placeholder or overlaps one that is replaced.
pub proof fn lemma_similar_is_found(text: Seq<char>, phrase: Seq<char>, window: int, i: int)
    requires
        ({
            let spans = token_spans(text);
            let n = token_spans(phrase).len();
            let norm = normalized(phrase);
            &&& text.len() > 0
            &&& stripped(phrase).len() > 0
            &&& 1 <= n <= 8
            &&& utf8_len(norm) >= 5
            &&& 1 <= window
            &&& n - 1 <= window <= n + 1
            &&& 0 <= i
            &&& i + window <= spans.len()
            &&& !overlaps_any(
                matches_of(OMITTED_PATTERN@, text),
                (spans[i].0, spans[i + window - 1].1),
            )
            &&& {
                let part = normalized(
                    byte_range(text, spans[i].0 as int, spans[i + window - 1].1 as int),
                );
                &&& part.len() > 0
                &&& 7 * utf8_len(norm) <= 10 * utf8_len(part)
                &&& 5 * utf8_len(part) <= 7 * utf8_len(norm)
                &&& jaro_winkler_bits(part, norm) >= if n == 1 {
                    0x3fef_0a3d_70a3_d70au64
                } else if n <= 3 {
                    0x3fee_147a_e147_ae14u64
                } else {
                    0x3fed_1eb8_51eb_851fu64
                }
            }
        }),
    ensures
        ({
            let span = (token_spans(text)[i].0, token_spans(text)[i + window - 1].1);
            fuzzy_spans(text, phrase).contains(span) || overlaps_any(
                fuzzy_spans(text, phrase),
                span,
            )
        }),
{
    let spans = token_spans(text);
    let n = token_spans(phrase).len() as int;
    let norm = normalized(phrase);
    let segments = fuzzy_windows(text, n);
    let omitted = matches_of(OMITTED_PATTERN@, text);
    let shorter = if n >= 2 {
        windows_of(text, spans, n - 1)
    } else {
        Seq::empty()
    };
    let same = windows_of(text, spans, n);
    let at = if window == n - 1 {
        i
    } else if window == n {
        shorter.len() + i
    } else {
        shorter.len() + same.len() + i
    };
    assert(segments[at] == windows_of(text, spans, window)[i]);
    assert(scores_of(segments, norm)[at] == jaro_winkler_bits(segments[at].2, norm));
    lemma_scored_hit(
        segments,
        scores_of(segments, norm),
        omitted,
        utf8_len(norm),
        fuzzy_similarity_threshold(n as usize),
        at,
    );
    lemma_hit_wins(
        scored_hits(
            segments,
            scores_of(segments, norm),
            omitted,
            utf8_len(norm),
            fuzzy_similarity_threshold(n as usize),
        ),
        (spans[i].0, spans[i + window - 1].1),
    );
}

/// Nothing similar is looked for where a phrase has fewer than five bytes, no token, or more than
/// eight.
pub proof fn lemma_too_short_or_long(text: Seq<char>, phrase: Seq<char>)
    ensures
        utf8_len(normalized(phrase)) < 5 || token_spans(phrase).len() < 1 || token_spans(
            phrase,
        ).len() > 8 ==> fuzzy_spans(text, phrase).len() == 0,
        utf8_len(without(normalized(phrase), CharClass::Space)) < 4 || token_spans(phrase).len() < 1
            || token_spans(phrase).len() > 8 ==> near_spans(text, phrase).len() == 0,
        stripped(phrase).len() == 0 ==> exact_spans(text, phrase).len() == 0 && near_spans(
            text,
            phrase,
        ).len() == 0 && fuzzy_spans(text, phrase).len() == 0,
        text.len() > 0 && stripped(phrase).len() > 0 ==> exact_spans(text, phrase) == matches_of(
            exact_pattern(phrase),
            text,
        ),
{
}

/// What putting a replacement in leaves of a text: before the first range everything stays, and what
/// stands behind a range is what stood there.
pub proof fn lemma_one_place(text: Seq<char>, a: usize, b: usize, replacement: Seq<char>)
    ensures
        spliced(text, seq![(a, b)], replacement) == byte_range(text, 0, a as int) + replacement
            + byte_range(text, b as int, utf8_len(text) as int),
{
    let one = seq![(a, b)];
    assert(one.drop_last() =~= Seq::empty());
    assert(one.last() == (a, b));
    assert(spliced_upto(text, one.drop_last(), replacement) =~= Seq::empty());
    assert(spliced(text, one, replacement) =~= byte_range(text, 0, a as int) + replacement
        + byte_range(text, b as int, utf8_len(text) as int));
}

} // verus!
