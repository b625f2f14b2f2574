//! From what the language model reported to what is looked for in the transcript.
use crate::anonymise::kind::AnonymiseEntityKind;
use crate::hits::{lemma_same_elements, lemma_twice};
use crate::text::{
    byte_len, chars_of, contains_char, contains_text, count_digits, digit_count, has_letter,
    holds_letter, is_white, is_word, join, joined, lemma_trimmed, lemma_words, lemma_words_joined, lowered,
    occurs_in, same_text, split_whitespace, stripped, to_ascii_lowercase, trim, trim_by,
    trim_end_by, trimmed, trimmed_end, trimmed_start, utf8_len, words, CharClass,
};
use vstd::prelude::*;
use vstd::seq_lib::*;
use vstd::string::*;

verus! {

/// An entity of a kind, as it is written in the transcript.
#[derive(Debug, Clone)]
pub struct AnonymiseMatch {
    pub kind: AnonymiseEntityKind,
    pub value: String,
}

impl View for AnonymiseMatch {
    type V = (AnonymiseEntityKind, Seq<char>);

    open spec fn view(&self) -> (AnonymiseEntityKind, Seq<char>) {
        (self.kind, self.value@)
    }
}

/// The kinds and texts of a list of matches.
pub open spec fn match_views(matches: Seq<AnonymiseMatch>) -> Seq<
    (AnonymiseEntityKind, Seq<char>),
> {
    Seq::new(matches.len(), |i: int| matches[i]@)
}

/// What is trimmed off the end of a text is not added to it.
pub proof fn lemma_trimmed_end_len(s: Seq<char>, class: CharClass)
    ensures
        trimmed_end(s, class).len() <= s.len(),
    decreases s.len(),
{
    if s.len() > 0 && class.has(s.last()) {
        lemma_trimmed_end_len(s.drop_last(), class);
    }
}

/// `s` without the marks and the white space that end it, as long as a mark stands last.
pub open spec fn without_final_marks(s: Seq<char>) -> Seq<char>
    decreases s.len(),
{
    if s.len() > 0 && CharClass::SentenceEnd.has(s.last()) {
        proof {
            lemma_trimmed_end_len(s.drop_last(), CharClass::White);
        }
        without_final_marks(trimmed_end(s.drop_last(), CharClass::White))
    } else {
        s
    }
}

/// A reported text without surrounding white space, the quotes around it and the marks that end it.
pub open spec fn sanitized(raw: Seq<char>) -> Seq<char> {
    without_final_marks(stripped(trimmed(stripped(raw), CharClass::Quote)))
}

/// A reported text without surrounding white space, the quotes around it and the marks that end it.
pub fn sanitize_candidate_value(raw: &str) -> (r: String)
    ensures
        r@ == sanitized(raw@),
{
    let mut out: &str = trim(trim_by(trim(raw), CharClass::Quote));
    let ghost start = out@;
    loop
        invariant
            without_final_marks(out@) == without_final_marks(start),
        ensures
            out@ == without_final_marks(start),
        decreases out@.len(),
    {
        let v: Vec<char> = chars_of(out);
        let n: usize = v.len();
        if n == 0 || !CharClass::SentenceEnd.has(v[n - 1]) {
            break;
        }
        assert(out@.subrange(0, n - 1) =~= out@.drop_last());
        proof {
            lemma_trimmed_end_len(out@.drop_last(), CharClass::White);
        }
        out = trim_end_by(out.substring_char(0, n - 1), CharClass::White);
    }
    out.to_owned()
}

/// What two texts share that count as the same candidate: the words in lower case, one space apart.
pub open spec fn dedupe_key(text: Seq<char>) -> Seq<char> {
    lowered(joined(words(text), " "@))
}

/// What two texts share that count as the same candidate: the words in lower case, one space apart.
pub fn candidate_key_for_dedupe(text: &str) -> (r: String)
    ensures
        r@ == dedupe_key(text@),
{
    let parts: Vec<String> = split_whitespace(text);
    let line: String = join(&parts, " ");
    to_ascii_lowercase(line.as_str())
}

/// Texts in lower case.
pub open spec fn lowered_all(parts: Seq<Seq<char>>) -> Seq<Seq<char>> {
    Seq::new(parts.len(), |i: int| lowered(parts[i]))
}

/// Putting texts one space apart and in lower case can be done in either order.
proof fn lemma_lowered_joined(parts: Seq<Seq<char>>)
    ensures
        lowered(joined(parts, " "@)) == joined(lowered_all(parts), " "@),
    decreases parts.len(),
{
    reveal_strlit(" ");
    if parts.len() > 1 {
        lemma_lowered_joined(parts.drop_last());
        assert(lowered_all(parts).drop_last() =~= lowered_all(parts.drop_last()));
        assert(lowered(joined(parts, " "@)) =~= lowered(joined(parts.drop_last(), " "@)) + " "@
            + lowered(parts.last()));
    } else {
        assert(lowered(joined(parts, " "@)) =~= joined(lowered_all(parts), " "@));
    }
}

/// Two texts count as the same candidate exactly where their words agree but for case, whatever
/// white space stands between them.
pub proof fn lemma_same_candidate(a: Seq<char>, b: Seq<char>)
    ensures
        dedupe_key(a) == dedupe_key(b) <==> lowered_all(words(a)) == lowered_all(words(b)),
        words(dedupe_key(a)) == lowered_all(words(a)),
{
    lemma_key_words(a);
    lemma_key_words(b);
    lemma_lowered_joined(words(a));
    lemma_lowered_joined(words(b));
}

/// The words of the key are those of the text in lower case.
proof fn lemma_key_words(text: Seq<char>)
    ensures
        words(dedupe_key(text)) == lowered_all(words(text)),
{
    let parts = lowered_all(words(text));
    lemma_words(text);
    lemma_lowered_joined(words(text));
    assert forall|i: int| 0 <= i < parts.len() implies is_word(#[trigger] parts[i]) by {
        let w = words(text)[i];
        assert(is_word(w));
        assert forall|k: int| 0 <= k < parts[i].len() implies !is_white(#[trigger] parts[i][k]) by {
            assert(!is_white(w[k]));
        }
    }
    lemma_words_joined(parts);
}

/// Whether a text can be an entity of the kind: it is neither empty nor long, is not copied from
/// the prompt, and has letters or digits enough.
pub open spec fn plausible(kind: AnonymiseEntityKind, value: Seq<char>) -> bool {
    let t = stripped(value);
    let lower = lowered(t);
    let digits = digit_count(t);
    &&& 0 < t.len()
    &&& utf8_len(t) <= 160
    &&& !t.contains('<')
    &&& !t.contains('>')
    &&& !occurs_in("from_transcript"@, lower)
    &&& !occurs_in("placeholder"@, lower)
    &&& !occurs_in("example"@, lower)
    &&& !(t[0] == '[' && occurs_in(" omitted]"@, lower))
    &&& match kind {
        AnonymiseEntityKind::Phone
        | AnonymiseEntityKind::Number
        | AnonymiseEntityKind::Identifier => digits >= 2 || utf8_len(t) >= 4,
        _ => has_letter(t) || digits >= 3,
    }
}

/// Whether a text can be an entity of the kind.
pub fn is_candidate_plausible(kind: AnonymiseEntityKind, value: &str) -> (r: bool)
    ensures
        r == plausible(kind, value@),
{
    let trimmed_value: &str = trim(value);
    let v: Vec<char> = chars_of(trimmed_value);
    if v.len() == 0 || byte_len(trimmed_value) > 160 {
        return false;
    }
    if contains_char(trimmed_value, '<') || contains_char(trimmed_value, '>') {
        return false;
    }
    let lower: String = to_ascii_lowercase(trimmed_value);
    if contains_text(lower.as_str(), "from_transcript") || contains_text(
        lower.as_str(),
        "placeholder",
    ) || contains_text(lower.as_str(), "example") {
        return false;
    }
    if v[0] == '[' && contains_text(lower.as_str(), " omitted]") {
        return false;
    }
    let digits: usize = count_digits(trimmed_value);
    match kind {
        AnonymiseEntityKind::Phone
        | AnonymiseEntityKind::Number
        | AnonymiseEntityKind::Identifier => digits >= 2 || byte_len(trimmed_value) >= 4,
        _ => holds_letter(trimmed_value) || digits >= 3,
    }
}

/// Whether a candidate of the kind with the same key is among `list`.
pub open spec fn key_taken(
    list: Seq<(AnonymiseEntityKind, Seq<char>)>,
    kind: AnonymiseEntityKind,
    key: Seq<char>,
) -> bool {
    exists|i: int| 0 <= i < list.len() && (#[trigger] list[i]).0 == kind && dedupe_key(list[i].1) == key
}

/// The plausible matches, cleaned, the first of each that count as the same, in the order in which
/// they were reported.
pub open spec fn distinct_candidates(matches: Seq<(AnonymiseEntityKind, Seq<char>)>) -> Seq<
    (AnonymiseEntityKind, Seq<char>),
>
    decreases matches.len(),
{
    if matches.len() == 0 {
        Seq::empty()
    } else {
        let before = distinct_candidates(matches.drop_last());
        let (kind, raw) = matches.last();
        let cleaned = sanitized(raw);
        if plausible(kind, cleaned) && !key_taken(before, kind, dedupe_key(cleaned)) {
            before.push((kind, cleaned))
        } else {
            before
        }
    }
}

/// `list`, which goes from long to short, with `x` put behind all that are no shorter.
pub open spec fn placed_by_length(
    list: Seq<(AnonymiseEntityKind, Seq<char>)>,
    x: (AnonymiseEntityKind, Seq<char>),
) -> Seq<(AnonymiseEntityKind, Seq<char>)>
    decreases list.len(),
{
    if list.len() == 0 || utf8_len(list.last().1) >= utf8_len(x.1) {
        list.push(x)
    } else {
        placed_by_length(list.drop_last(), x).push(list.last())
    }
}

/// The candidates from the longest to the shortest; those of one length keep their order.
pub open spec fn longest_first(list: Seq<(AnonymiseEntityKind, Seq<char>)>) -> Seq<
    (AnonymiseEntityKind, Seq<char>),
>
    decreases list.len(),
{
    if list.len() == 0 {
        list
    } else {
        placed_by_length(longest_first(list.drop_last()), list.last())
    }
}

/// Puts `x` behind all of `list` that are no shorter.
fn place_by_length(list: &mut Vec<AnonymiseMatch>, x: AnonymiseMatch)
    ensures
        match_views(final(list)@) == placed_by_length(match_views(old(list)@), x@),
{
    let ghost start = list@;
    let len: usize = byte_len(x.value.as_str());
    let mut at: usize = list.len();
    let ghost mut tail: Seq<(AnonymiseEntityKind, Seq<char>)> = Seq::empty();
    assert(match_views(start).take(at as int) + tail =~= match_views(start));
    assert(placed_by_length(match_views(start).take(at as int), x@) + tail =~= placed_by_length(
        match_views(start),
        x@,
    )) by {
        assert(match_views(start).take(at as int) =~= match_views(start));
    }
    while at > 0 && byte_len(list[at - 1].value.as_str()) < len
        invariant
            list@ == start,
            len == utf8_len(x@.1),
            at <= start.len(),
            tail == match_views(start).skip(at as int),
            placed_by_length(match_views(start), x@) == placed_by_length(
                match_views(start).take(at as int),
                x@,
            ) + tail,
        decreases at,
    {
        proof {
            let here = match_views(start).take(at as int);
            assert(here.drop_last() =~= match_views(start).take(at - 1));
            assert(here.last() == start[at - 1]@);
            tail = match_views(start).skip(at - 1);
            assert(placed_by_length(here.drop_last(), x@).push(here.last()) + match_views(
                start,
            ).skip(at as int) =~= placed_by_length(here.drop_last(), x@) + tail);
        }
        at -= 1;
    }
    proof {
        let here = match_views(start).take(at as int);
        if at > 0 {
            assert(here.last() == start[at - 1]@);
        }
        assert(placed_by_length(here, x@) == here.push(x@));
    }
    list.insert(at, x);
    assert(match_views(list@) =~= match_views(start).take(at as int).push(x@) + tail);
}

/// What is looked for in a transcript, given what was reported: each plausible entity once, the
/// longest first.
pub fn build_replacement_candidates(matches: &[AnonymiseMatch]) -> (r: Vec<AnonymiseMatch>)
    ensures
        match_views(r@) == longest_first(distinct_candidates(match_views(matches@))),
{
    let mut out: Vec<AnonymiseMatch> = Vec::new();
    let mut keys: Vec<String> = Vec::new();
    let ghost all = match_views(matches@);
    let mut i: usize = 0;
    while i < matches.len()
        invariant
            i <= matches@.len(),
            all == match_views(matches@),
            match_views(out@) == distinct_candidates(all.take(i as int)),
            keys@.len() == out@.len(),
            forall|k: int| 0 <= k < keys@.len() ==> (#[trigger] keys@[k])@ == dedupe_key(out@[k].value@),
        decreases matches@.len() - i,
    {
        let entry: &AnonymiseMatch = &matches[i];
        assert(all.take(i + 1).drop_last() =~= all.take(i as int));
        assert(all.take(i + 1).last() == entry@);
        let cleaned: String = sanitize_candidate_value(entry.value.as_str());
        if is_candidate_plausible(entry.kind, cleaned.as_str()) {
            let key: String = candidate_key_for_dedupe(cleaned.as_str());
            let mut taken: bool = false;
            let mut k: usize = 0;
            while k < out.len()
                invariant
                    k <= out@.len() == keys@.len(),
                    key@ == dedupe_key(cleaned@),
                    forall|m: int|
                        0 <= m < keys@.len() ==> (#[trigger] keys@[m])@ == dedupe_key(
                            out@[m].value@,
                        ),
                    taken == key_taken(match_views(out@).take(k as int), entry.kind, key@),
                decreases out@.len() - k,
            {
                let ghost upto = match_views(out@).take(k as int);
                let ghost next = match_views(out@).take(k + 1);
                assert(keys@[k as int]@ == dedupe_key(out@[k as int].value@));
                assert(next[k as int] == out@[k as int]@);
                assert(forall|m: int| 0 <= m < k ==> next[m] == #[trigger] upto[m]);
                if out[k].kind == entry.kind && same_text(keys[k].as_str(), key.as_str()) {
                    taken = true;
                    assert(key_taken(next, entry.kind, key@));
                } else {
                    assert(key_taken(upto, entry.kind, key@) ==> key_taken(next, entry.kind, key@))
                        by {
                        if key_taken(upto, entry.kind, key@) {
                            let m = choose|m: int|
                                0 <= m < upto.len() && (#[trigger] upto[m]).0 == entry.kind
                                    && dedupe_key(upto[m].1) == key@;
                            assert(next[m] == upto[m]);
                        }
                    }
                    assert(key_taken(next, entry.kind, key@) ==> key_taken(upto, entry.kind, key@))
                        by {
                        if key_taken(next, entry.kind, key@) {
                            let m = choose|m: int|
                                0 <= m < next.len() && (#[trigger] next[m]).0 == entry.kind
                                    && dedupe_key(next[m].1) == key@;
                            assert(m < k);
                            assert(next[m] == upto[m]);
                        }
                    }
                }
                k += 1;
            }
            assert(match_views(out@).take(k as int) =~= match_views(out@));
            if !taken {
                let ghost before = out@;
                let ghost text = cleaned@;
                out.push(AnonymiseMatch { kind: entry.kind, value: cleaned });
                keys.push(key);
                assert(match_views(out@) =~= match_views(before).push((entry.kind, text)));
            }
        }
        i += 1;
    }
    assert(all.take(i as int) =~= all);
    let mut sorted: Vec<AnonymiseMatch> = Vec::new();
    let ghost list = match_views(out@);
    let mut j: usize = 0;
    assert(match_views(sorted@) =~= longest_first(list.take(0)));
    while j < out.len()
        invariant
            j <= out@.len(),
            list == match_views(out@),
            match_views(sorted@) == longest_first(list.take(j as int)),
        decreases out@.len() - j,
    {
        assert(list.take(j + 1).drop_last() =~= list.take(j as int));
        let x: AnonymiseMatch = AnonymiseMatch { kind: out[j].kind, value: out[j].value.clone() };
        assert(list.take(j + 1).last() == x@);
        place_by_length(&mut sorted, x);
        j += 1;
    }
    assert(list.take(j as int) =~= list);
    sorted
}

/// What is trimmed at the end is what stands at the end: the rest is a beginning of the text, and
/// does not end with a character of the class.
proof fn lemma_trimmed_end(s: Seq<char>, class: CharClass)
    ensures
        trimmed_end(s, class).len() <= s.len(),
        trimmed_end(s, class) == s.take(trimmed_end(s, class).len() as int),
        trimmed_end(s, class).len() > 0 ==> !class.has(trimmed_end(s, class).last()),
    decreases s.len(),
{
    if s.len() > 0 && class.has(s.last()) {
        lemma_trimmed_end(s.drop_last(), class);
        let n = trimmed_end(s, class).len() as int;
        assert(s.drop_last().take(n) =~= s.take(n));
    } else {
        assert(s.take(s.len() as int) =~= s);
    }
}

/// What is trimmed at the start leaves a text that does not begin with a character of the class.
proof fn lemma_trimmed_start(s: Seq<char>, class: CharClass)
    ensures
        trimmed_start(s, class).len() > 0 ==> !class.has(trimmed_start(s, class)[0]),
    decreases s.len(),
{
    if s.len() > 0 && class.has(s[0]) {
        lemma_trimmed_start(s.drop_first(), class);
    }
}

/// Taking the final marks off leaves a beginning of the text that ends with no mark, and with no
/// white space where the text did not.
proof fn lemma_without_final_marks(s: Seq<char>)
    ensures
        without_final_marks(s).len() <= s.len(),
        without_final_marks(s) == s.take(without_final_marks(s).len() as int),
        without_final_marks(s).len() > 0 ==> !CharClass::SentenceEnd.has(
            without_final_marks(s).last(),
        ),
        without_final_marks(s).len() > 0 && !CharClass::White.has(s.last())
            ==> !CharClass::White.has(without_final_marks(s).last()),
    decreases s.len(),
{
    if s.len() > 0 && CharClass::SentenceEnd.has(s.last()) {
        let rest = trimmed_end(s.drop_last(), CharClass::White);
        lemma_trimmed_end(s.drop_last(), CharClass::White);
        lemma_without_final_marks(rest);
        let n = without_final_marks(s).len() as int;
        assert(rest.take(n) =~= s.take(n));
    } else {
        assert(s.take(s.len() as int) =~= s);
    }
}

/// A cleaned text has no white space around it and ends with no mark of a sentence.
pub proof fn lemma_sanitized(raw: Seq<char>)
    ensures
        stripped(sanitized(raw)) == sanitized(raw),
        sanitized(raw).len() > 0 ==> !CharClass::SentenceEnd.has(sanitized(raw).last()),
{
    let inner = trimmed(stripped(raw), CharClass::Quote);
    let s = stripped(inner);
    lemma_trimmed_start(inner, CharClass::White);
    lemma_trimmed_end(trimmed_start(inner, CharClass::White), CharClass::White);
    lemma_without_final_marks(s);
    let r = sanitized(raw);
    if r.len() > 0 {
        assert(r[0] == s[0]);
        assert(s[0] == trimmed_start(inner, CharClass::White)[0]);
        assert(!CharClass::White.has(r[0]));
        assert(!CharClass::White.has(r.last()));
    }
}

/// Whether no two candidates of a kind count as the same.
pub open spec fn distinct_keys(list: Seq<(AnonymiseEntityKind, Seq<char>)>) -> bool {
    forall|i: int, j: int|
        0 <= i < j < list.len() ==> (#[trigger] list[i]).0 != (#[trigger] list[j]).0 || dedupe_key(
            list[i].1,
        ) != dedupe_key(list[j].1)
}

/// Whether a candidate is a plausible match, cleaned.
pub open spec fn from_match(
    matches: Seq<(AnonymiseEntityKind, Seq<char>)>,
    x: (AnonymiseEntityKind, Seq<char>),
) -> bool {
    plausible(x.0, x.1) && exists|k: int|
        0 <= k < matches.len() && (#[trigger] matches[k]).0 == x.0 && sanitized(matches[k].1) == x.1
}

/// Whether the candidates go from the longest to the shortest.
pub open spec fn descending_lengths(list: Seq<(AnonymiseEntityKind, Seq<char>)>) -> bool {
    forall|i: int, j: int|
        0 <= i < j < list.len() ==> utf8_len((#[trigger] list[i]).1) >= utf8_len(
            (#[trigger] list[j]).1,
        )
}

/// The candidates, before they are put in order, are plausible matches, each once, and every
/// plausible match is among them.
proof fn lemma_distinct_candidates(matches: Seq<(AnonymiseEntityKind, Seq<char>)>)
    ensures
        distinct_keys(distinct_candidates(matches)),
        forall|i: int|
            0 <= i < distinct_candidates(matches).len() ==> from_match(
                matches,
                #[trigger] distinct_candidates(matches)[i],
            ),
        forall|k: int|
            0 <= k < matches.len() && plausible(
                (#[trigger] matches[k]).0,
                sanitized(matches[k].1),
            ) ==> key_taken(
                distinct_candidates(matches),
                matches[k].0,
                dedupe_key(sanitized(matches[k].1)),
            ),
    decreases matches.len(),
{
    if matches.len() > 0 {
        let rest = matches.drop_last();
        lemma_distinct_candidates(rest);
        let before = distinct_candidates(rest);
        let all = distinct_candidates(matches);
        let (kind, raw) = matches.last();
        let cleaned = sanitized(raw);
        assert(matches[matches.len() - 1] == (kind, raw));
        assert forall|i: int| 0 <= i < all.len() implies from_match(matches, #[trigger] all[i]) by {
            if i < before.len() {
                assert(all[i] == before[i]);
                assert(from_match(rest, before[i]));
                let k = choose|k: int|
                    0 <= k < rest.len() && (#[trigger] rest[k]).0 == before[i].0 && sanitized(
                        rest[k].1,
                    ) == before[i].1;
                assert(matches[k] == rest[k]);
            } else {
                assert(all[i] == (kind, cleaned));
            }
        }
        assert(distinct_keys(all)) by {
            assert forall|i: int, j: int| 0 <= i < j < all.len() implies (#[trigger] all[i]).0 != (
            #[trigger] all[j]).0 || dedupe_key(all[i].1) != dedupe_key(all[j].1) by {
                assert(all[i] == before[i]);
                if j < before.len() {
                    assert(all[j] == before[j]);
                }
            }
        }
        assert forall|k: int|
            0 <= k < matches.len() && plausible(
                (#[trigger] matches[k]).0,
                sanitized(matches[k].1),
            ) implies key_taken(all, matches[k].0, dedupe_key(sanitized(matches[k].1))) by {
            let key = dedupe_key(sanitized(matches[k].1));
            if k < rest.len() {
                assert(rest[k] == matches[k]);
                assert(key_taken(before, rest[k].0, key));
                let m = choose|m: int|
                    0 <= m < before.len() && (#[trigger] before[m]).0 == rest[k].0 && dedupe_key(
                        before[m].1,
                    ) == key;
                assert(all[m] == before[m]);
            } else if key_taken(before, kind, key) {
                assert(all == before);
            } else {
                assert(all[before.len() as int] == (kind, cleaned));
            }
        }
    }
}

/// Putting a candidate in its place keeps the order and adds nothing else.
proof fn lemma_placed_by_length(
    list: Seq<(AnonymiseEntityKind, Seq<char>)>,
    x: (AnonymiseEntityKind, Seq<char>),
)
    requires
        descending_lengths(list),
    ensures
        descending_lengths(placed_by_length(list, x)),
        placed_by_length(list, x).to_multiset() == list.to_multiset().insert(x),
        forall|i: int|
            0 <= i < placed_by_length(list, x).len() ==> utf8_len(
                (#[trigger] placed_by_length(list, x)[i]).1,
            ) >= utf8_len(x.1) || (list.len() > 0 && utf8_len(placed_by_length(list, x)[i].1)
                >= utf8_len(list.last().1)),
    decreases list.len(),
{
    broadcast use group_to_multiset_ensures;

    let r = placed_by_length(list, x);
    if list.len() == 0 || utf8_len(list.last().1) >= utf8_len(x.1) {
        assert(r == list.push(x));
        assert forall|i: int, j: int| 0 <= i < j < r.len() implies utf8_len((#[trigger] r[i]).1)
            >= utf8_len((#[trigger] r[j]).1) by {
            assert(r[i] == list[i]);
            if j == list.len() {
                if i < list.len() - 1 {
                    assert(utf8_len(list[i].1) >= utf8_len(list[list.len() - 1].1));
                }
            } else {
                assert(r[j] == list[j]);
            }
        }
    } else {
        let rest = list.drop_last();
        assert(descending_lengths(rest)) by {
            assert forall|i: int, j: int| 0 <= i < j < rest.len() implies utf8_len(
                (#[trigger] rest[i]).1,
            ) >= utf8_len((#[trigger] rest[j]).1) by {
                assert(rest[i] == list[i] && rest[j] == list[j]);
            }
        }
        lemma_placed_by_length(rest, x);
        let p = placed_by_length(rest, x);
        assert(r == p.push(list.last()));
        assert(list =~= rest.push(list.last()));
        assert(r.to_multiset() =~= list.to_multiset().insert(x));
        assert forall|i: int| 0 <= i < p.len() implies utf8_len((#[trigger] p[i]).1) >= utf8_len(
            list.last().1,
        ) by {
            if rest.len() > 0 {
                assert(utf8_len(list[rest.len() - 1].1) >= utf8_len(list[list.len() - 1].1));
                assert(rest.last() == list[rest.len() - 1]);
            }
        }
        assert forall|i: int, j: int| 0 <= i < j < r.len() implies utf8_len((#[trigger] r[i]).1)
            >= utf8_len((#[trigger] r[j]).1) by {
            assert(r[i] == p[i]);
            if j < p.len() {
                assert(r[j] == p[j]);
            }
        }
        assert forall|i: int| 0 <= i < r.len() implies utf8_len((#[trigger] r[i]).1) >= utf8_len(
            list.last().1,
        ) by {
            if i < p.len() {
                assert(r[i] == p[i]);
            }
        }
    }
}

/// Putting the candidates in order goes from the longest to the shortest, and neither loses nor adds
/// any.
proof fn lemma_longest_first(list: Seq<(AnonymiseEntityKind, Seq<char>)>)
    ensures
        descending_lengths(longest_first(list)),
        longest_first(list).to_multiset() == list.to_multiset(),
    decreases list.len(),
{
    broadcast use group_to_multiset_ensures;

    if list.len() > 0 {
        lemma_longest_first(list.drop_last());
        lemma_placed_by_length(longest_first(list.drop_last()), list.last());
        assert(list =~= list.drop_last().push(list.last()));
    }
}

/// Whatever was reported, what is looked for are plausible matches, cleaned; no two of a kind count
/// as the same; the longer stand before the shorter, so that a name is not taken out of a longer
/// one; and every plausible match is looked for, itself or one that counts as the same.
pub proof fn lemma_candidates(matches: Seq<(AnonymiseEntityKind, Seq<char>)>)
    ensures
        ({
            let list = longest_first(distinct_candidates(matches));
            &&& distinct_keys(list)
            &&& descending_lengths(list)
            &&& forall|i: int| 0 <= i < list.len() ==> from_match(matches, #[trigger] list[i])
            &&& forall|k: int|
                0 <= k < matches.len() && plausible(
                    (#[trigger] matches[k]).0,
                    sanitized(matches[k].1),
                ) ==> key_taken(list, matches[k].0, dedupe_key(sanitized(matches[k].1)))
        }),
{
    let found = distinct_candidates(matches);
    let list = longest_first(found);
    lemma_distinct_candidates(matches);
    lemma_longest_first(found);
    lemma_same_elements(list, found);
    assert forall|i: int| 0 <= i < list.len() implies from_match(matches, #[trigger] list[i]) by {
        assert(list.contains(list[i]));
        assert(found.contains(list[i]));
    }
    assert(distinct_keys(list)) by {
        assert forall|i: int, j: int| 0 <= i < j < list.len() implies (#[trigger] list[i]).0 != (
        #[trigger] list[j]).0 || dedupe_key(list[i].1) != dedupe_key(list[j].1) by {
            assert(list.contains(list[i]) && list.contains(list[j]));
            assert(found.contains(list[i]) && found.contains(list[j]));
            if list[i] == list[j] {
                let (k, l) = lemma_twice(list, i, j, found);
                assert(found[k] == found[l]);
            } else {
                let k = choose|k: int| 0 <= k < found.len() && found[k] == list[i];
                let l = choose|l: int| 0 <= l < found.len() && found[l] == list[j];
                assert(k != l);
            }
        }
    }
    assert forall|k: int|
        0 <= k < matches.len() && plausible(
            (#[trigger] matches[k]).0,
            sanitized(matches[k].1),
        ) implies key_taken(list, matches[k].0, dedupe_key(sanitized(matches[k].1))) by {
        let key = dedupe_key(sanitized(matches[k].1));
        assert(key_taken(found, matches[k].0, key));
        let m = choose|m: int|
            0 <= m < found.len() && (#[trigger] found[m]).0 == matches[k].0 && dedupe_key(
                found[m].1,
            ) == key;
        assert(found.contains(found[m]));
        assert(list.contains(found[m]));
        let n = choose|n: int| 0 <= n < list.len() && list[n] == found[m];
        assert(list[n].0 == matches[k].0);
    }
}

/// What cleaning leaves alone: a text that neither begins nor ends with white space or a quote, and
/// that no mark of a sentence ends. White space and quotes around it, and a mark behind it, are taken
/// off; nothing is taken out of its middle.
pub proof fn lemma_sanitized_core(core: Seq<char>, quote: char, mark: char)
    requires
        core.len() > 0,
        !is_white(core[0]),
        !is_white(core.last()),
        core[0] != '"' && core[0] != '\'' && core[0] != '`',
        core.last() != '"' && core.last() != '\'' && core.last() != '`',
        core.last() != '.' && core.last() != ',' && core.last() != ';' && core.last() != ':'
            && core.last() != '!' && core.last() != '?',
        quote == '"' || quote == '\'' || quote == '`',
        mark == '.' || mark == ',' || mark == ';' || mark == ':' || mark == '!' || mark == '?',
    ensures
        sanitized(core) == core,
        sanitized(seq![quote] + core + seq![quote]) == core,
        sanitized(core.push(mark)) == core,
        sanitized(seq![' '] + core + seq![' ']) == core,
{
    let none = Seq::<char>::empty();
    assert(none + core + none =~= core);
    lemma_trimmed(none, core, none, CharClass::White);
    lemma_trimmed(none, core, none, CharClass::Quote);
    let quoted = seq![quote] + core + seq![quote];
    assert(none + quoted + none =~= quoted);
    lemma_trimmed(none, quoted, none, CharClass::White);
    lemma_trimmed(seq![quote], core, seq![quote], CharClass::Quote);
    let marked = core.push(mark);
    assert(none + marked + none =~= marked);
    lemma_trimmed(none, marked, none, CharClass::White);
    lemma_trimmed(none, marked, none, CharClass::Quote);
    assert(marked.drop_last() =~= core);
    assert(trimmed_end(core, CharClass::White) == core);
    assert(without_final_marks(core) == core);
    lemma_trimmed(seq![' '], core, seq![' '], CharClass::White);
}

/// What can be an entity: white space around a text does not matter; a text that is empty, has more
/// than 160 bytes, holds an angle bracket, is taken from the prompt or is a placeholder is none; of
/// the others, one of two digits or four bytes is a phone number, a number or an identifier, and one
/// with a letter or three digits is anything else.
pub proof fn lemma_plausible(kind: AnonymiseEntityKind, value: Seq<char>)
    requires
        stripped(value) == value,
    ensures
        ({
            let copied = occurs_in("from_transcript"@, lowered(value)) || occurs_in(
                "placeholder"@,
                lowered(value),
            ) || occurs_in("example"@, lowered(value));
            let omitted = value.len() > 0 && value[0] == '[' && occurs_in(
                " omitted]"@,
                lowered(value),
            );
            let sound = value.len() > 0 && utf8_len(value) <= 160 && !value.contains('<')
                && !value.contains('>') && !copied && !omitted;
            &&& !sound ==> !plausible(kind, value)
            &&& sound && (kind is Phone || kind is Number || kind is Identifier) ==> (plausible(
                kind,
                value,
            ) <==> digit_count(value) >= 2 || utf8_len(value) >= 4)
            &&& sound && (kind is Name || kind is Location || kind is Address || kind is Email
                || kind is Organisation) ==> (plausible(kind, value) <==> has_letter(value)
                || digit_count(value) >= 3)
        }),
{
}

/// What was reported first stays first: candidates that are added behind others neither displace nor
/// change these, so of two that count as the same the earlier is the one that is looked for.
pub proof fn lemma_first_report_counts(
    first: Seq<(AnonymiseEntityKind, Seq<char>)>,
    later: Seq<(AnonymiseEntityKind, Seq<char>)>,
)
    ensures
        distinct_candidates(first).is_prefix_of(distinct_candidates(first + later)),
    decreases later.len(),
{
    if later.len() == 0 {
        assert(first + later =~= first);
    } else {
        lemma_first_report_counts(first, later.drop_last());
        assert((first + later).drop_last() =~= first + later.drop_last());
        let before = distinct_candidates(first + later.drop_last());
        let all = distinct_candidates(first + later);
        assert(all.take(before.len() as int) =~= before);
        assert(distinct_candidates(first).is_prefix_of(all));
    }
}

/// The candidates of one length, in the order in which they stand.
pub open spec fn of_length(list: Seq<(AnonymiseEntityKind, Seq<char>)>, n: nat) -> Seq<
    (AnonymiseEntityKind, Seq<char>),
>
    decreases list.len(),
{
    if list.len() == 0 {
        list
    } else if utf8_len(list.last().1) == n {
        of_length(list.drop_last(), n).push(list.last())
    } else {
        of_length(list.drop_last(), n)
    }
}

/// Where a candidate is put does not change the order of those of one length, and it comes behind
/// those of its own.
proof fn lemma_placed_behind(
    list: Seq<(AnonymiseEntityKind, Seq<char>)>,
    x: (AnonymiseEntityKind, Seq<char>),
    n: nat,
)
    requires
        descending_lengths(list),
    ensures
        of_length(placed_by_length(list, x), n) == if utf8_len(x.1) == n {
            of_length(list, n).push(x)
        } else {
            of_length(list, n)
        },
    decreases list.len(),
{
    if list.len() == 0 || utf8_len(list.last().1) >= utf8_len(x.1) {
        assert(list.push(x).drop_last() =~= list);
    } else {
        let rest = list.drop_last();
        assert forall|i: int, j: int| 0 <= i < j < rest.len() implies utf8_len(
            (#[trigger] rest[i]).1,
        ) >= utf8_len((#[trigger] rest[j]).1) by {
            assert(rest[i] == list[i] && rest[j] == list[j]);
        }
        lemma_placed_behind(rest, x, n);
        let p = placed_by_length(rest, x);
        assert(p.push(list.last()).drop_last() =~= p);
    }
}

/// Putting the candidates in order keeps the order of those of one length.
pub proof fn lemma_order_is_kept(list: Seq<(AnonymiseEntityKind, Seq<char>)>, n: nat)
    ensures
        of_length(longest_first(list), n) == of_length(list, n),
    decreases list.len(),
{
    if list.len() > 0 {
        lemma_order_is_kept(list.drop_last(), n);
        lemma_longest_first(list.drop_last());
        lemma_placed_behind(longest_first(list.drop_last()), list.last(), n);
    }
}

} // verus!
