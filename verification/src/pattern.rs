//! Regular expressions.
//!
//! The `regex` crate does the matching. What it finds is named here and not defined; the rest of
//! the library speaks of these names.
use crate::text::{byte_range, char_range, is_ascii_alnum, lowered, slice_bytes, utf8_len};
use regex::Regex;
use vstd::prelude::*;
use vstd::string::*;
use vstd::utf8::*;

verus! {

/// The compiled regular expression of the `regex` crate.
#[verifier::external_type_specification]
#[verifier::external_body]
pub struct ExRegex(regex::Regex);

/// The error with which the `regex` crate refuses a pattern.
#[verifier::external_type_specification]
#[verifier::external_body]
pub struct ExRegexError(regex::Error);

/// What `regex::Regex::new` makes of `pattern`; `None` where it refuses it.
pub uninterp spec fn regex_compiled(pattern: Seq<char>) -> Option<Regex>;

/// The byte ranges that `regex::Regex::find_iter` yields, in its order.
pub uninterp spec fn regex_matches(re: Regex, text: Seq<char>) -> Seq<(usize, usize)>;

/// The byte ranges of the groups of each match that `regex::Regex::captures_iter` yields: the whole
/// match first, then the groups in the order of their opening brackets, `None` for a group that
/// took no part.
pub uninterp spec fn regex_captures(re: Regex, text: Seq<char>) -> Seq<
    Seq<Option<(usize, usize)>>,
>;

/// The byte ranges of the groups of the match that `regex::Regex::captures` reports, as in
/// `regex_captures`; `None` where it reports none.
pub uninterp spec fn regex_first_captures(re: Regex, text: Seq<char>) -> Option<
    Seq<Option<(usize, usize)>>,
>;

/// What `regex::Regex::replace_all` makes of `text`.
pub uninterp spec fn regex_replaced(re: Regex, text: Seq<char>, replacement: Seq<char>) -> Seq<
    char,
>;

/// Whether `spans` are byte ranges of whole characters of `text`, one after the other without
/// overlap.
pub open spec fn ordered_spans(text: Seq<char>, spans: Seq<(usize, usize)>) -> bool {
    &&& forall|i: int|
        0 <= i < spans.len() ==> char_range(
            text,
            (#[trigger] spans[i]).0 as int,
            spans[i].1 as int,
        )
    &&& forall|i: int, j: int| 0 <= i < j < spans.len() ==> spans[i].1 <= spans[j].0
}

/// Whether the groups of a match that took part are byte ranges of whole characters of `text`.
pub open spec fn group_spans(text: Seq<char>, groups: Seq<Option<(usize, usize)>>) -> bool {
    forall|i: int|
        0 <= i < groups.len() ==> match #[trigger] groups[i] {
            Some((a, b)) => char_range(text, a as int, b as int),
            None => true,
        }
}

/// The text of a group of a match; nothing where the group took no part.
pub open spec fn group_of(text: Seq<char>, groups: Seq<Option<(usize, usize)>>, i: int) -> Seq<
    char,
> {
    if 0 <= i < groups.len() {
        match groups[i] {
            Some((a, b)) => byte_range(text, a as int, b as int),
            None => Seq::empty(),
        }
    } else {
        Seq::empty()
    }
}

/// The text of a group of a match; nothing where the group took no part.
pub(crate) fn text_of_group<'a>(
    text: &'a str,
    groups: &Vec<Option<(usize, usize)>>,
    i: usize,
) -> (r: &'a str)
    requires
        group_spans(text@, groups@),
    ensures
        r@ == group_of(text@, groups@, i as int),
{
    if i < groups.len() {
        match groups[i] {
            Some((a, b)) => {
                return slice_bytes(text, a, b);
            },
            None => {},
        }
    }
    proof {
        reveal_strlit("");
        assert(""@ =~= Seq::empty());
    }
    ""
}

/// `text` with each of the byte ranges `spans` replaced by `replacement`. The ranges are taken in
/// order, without overlap.
pub open spec fn spliced(
    text: Seq<char>,
    spans: Seq<(usize, usize)>,
    replacement: Seq<char>,
) -> Seq<char> {
    spliced_upto(text, spans, replacement) + byte_range(
        text,
        spliced_end(spans),
        encode_utf8(text).len() as int,
    )
}

/// Where the last of `spans` ends; the start of the text where there is none.
pub open spec fn spliced_end(spans: Seq<(usize, usize)>) -> int {
    if spans.len() == 0 {
        0
    } else {
        spans.last().1 as int
    }
}

/// What stands before the end of the last of `spans` once each of them is replaced.
pub open spec fn spliced_upto(
    text: Seq<char>,
    spans: Seq<(usize, usize)>,
    replacement: Seq<char>,
) -> Seq<char>
    decreases spans.len(),
{
    if spans.len() == 0 {
        Seq::empty()
    } else {
        spliced_upto(text, spans.drop_last(), replacement) + byte_range(
            text,
            spliced_end(spans.drop_last()),
            spans.last().0 as int,
        ) + replacement
    }
}

/// The byte ranges that `pattern` matches in `text`; none where the pattern is refused.
pub open spec fn matches_of(pattern: Seq<char>, text: Seq<char>) -> Seq<(usize, usize)> {
    match regex_compiled(pattern) {
        Some(re) => regex_matches(re, text),
        None => Seq::empty(),
    }
}

/// The groups of each match of `pattern` in `text`; none where the pattern is refused.
pub open spec fn captures_of(pattern: Seq<char>, text: Seq<char>) -> Seq<
    Seq<Option<(usize, usize)>>,
> {
    match regex_compiled(pattern) {
        Some(re) => regex_captures(re, text),
        None => Seq::empty(),
    }
}

/// A token of a text: a letter or a number, and what hangs on to it.
pub const TOKEN_PATTERN: &'static str = r"(?u)[\p{L}\p{N}][\p{L}\p{N}'.\-]*";

/// What `re` matches in `text`, from left to right.
pub open spec fn matched_texts(re: Regex, text: Seq<char>) -> Seq<Seq<char>> {
    let spans = regex_matches(re, text);
    Seq::new(spans.len(), |i: int| byte_range(text, spans[i].0 as int, spans[i].1 as int))
}

/// What `re` matches in `text`, in lower case.
pub open spec fn lowered_matches(re: Regex, text: Seq<char>) -> Seq<Seq<char>> {
    let found = matched_texts(re, text);
    Seq::new(found.len(), |i: int| lowered(found[i]))
}

/// Whether a text is one that memory can hold.
pub open spec fn fits(text: Seq<char>) -> bool {
    utf8_len(text) <= usize::MAX
}

/// Whether a text can be a token, as far as its ASCII characters tell: it is not empty, begins with a
/// letter or a digit, and holds besides these only apostrophes, points and hyphens.
pub open spec fn is_token(t: Seq<char>) -> bool {
    &&& t.len() > 0
    &&& t[0] <= '\u{7f}' ==> is_ascii_alnum(t[0])
    &&& forall|k: int|
        0 <= k < t.len() && t[k] <= '\u{7f}' ==> is_ascii_alnum(#[trigger] t[k]) || t[k] == '\''
            || t[k] == '.' || t[k] == '-'
}

/// Whether what `re` matches are words in a text: nothing is matched in an empty text, what stands
/// before a space and what stands behind it are matched each on its own, the case of ASCII letters
/// does not matter, and what is matched is a token and is matched whole where it stands alone.
pub open spec fn matches_words(re: Regex) -> bool {
    &&& matched_texts(re, Seq::empty()) == Seq::<Seq<char>>::empty()
    &&& forall|a: Seq<char>, b: Seq<char>|
        fits(a + " "@ + b) ==> #[trigger] matched_texts(re, a + " "@ + b) == matched_texts(re, a)
            + matched_texts(re, b)
    &&& forall|text: Seq<char>|
        fits(lowered(text)) ==> #[trigger] matched_texts(re, lowered(text)) == lowered_matches(
            re,
            text,
        )
    &&& forall|text: Seq<char>, i: int|
        fits(text) && 0 <= i < matched_texts(re, text).len() ==> matched_texts(
            re,
            #[trigger] matched_texts(re, text)[i],
        ) == seq![matched_texts(re, text)[i]] && is_token(matched_texts(re, text)[i])
}

/// Calls `regex::Regex::new`. Which patterns it accepts, and what it makes of them, is a function
/// of the pattern alone. The pattern of a token is a character of one class and then as many as
/// there are of another, which holds the first: of the ASCII characters, letters in either case and
/// digits are in both, an apostrophe, a point and a hyphen in the second, and the others in neither;
/// and nothing in the pattern looks at what stands around a match.
#[verifier::external_body]
fn regex_new(pattern: &str) -> (r: Result<Regex, regex::Error>)
    ensures
        match r {
            Ok(re) => regex_compiled(pattern@) == Some(re) && (pattern@ == TOKEN_PATTERN@
                ==> matches_words(re)),
            Err(_) => regex_compiled(pattern@) is None,
        },
{
    Regex::new(pattern)
}

/// Calls `regex::Regex::find_iter` and keeps the byte range of each match. The matches do not
/// overlap, come from left to right, and begin and end between two characters.
#[verifier::external_body]
pub(crate) fn find_spans(re: &Regex, text: &str) -> (r: Vec<(usize, usize)>)
    ensures
        r@ == regex_matches(*re, text@),
        ordered_spans(text@, r@),
{
    re.find_iter(text).map(|m| (m.start(), m.end())).collect()
}

/// Calls `regex::Regex::captures_iter` and keeps the byte range of each group of each match. A
/// group begins and ends between two characters.
#[verifier::external_body]
pub(crate) fn find_captures(re: &Regex, text: &str) -> (r: Vec<Vec<Option<(usize, usize)>>>)
    ensures
        r@.len() == regex_captures(*re, text@).len(),
        forall|i: int|
            0 <= i < r@.len() ==> {
                &&& (#[trigger] r@[i])@ == regex_captures(*re, text@)[i]
                &&& group_spans(text@, r@[i]@)
            },
{
    re.captures_iter(text)
        .map(|c| c.iter().map(|g| g.map(|m| (m.start(), m.end()))).collect())
        .collect()
}

/// Calls `regex::Regex::captures` and keeps the byte range of each group. A group begins and ends
/// between two characters.
#[verifier::external_body]
pub(crate) fn first_captures(re: &Regex, text: &str) -> (r: Option<Vec<Option<(usize, usize)>>>)
    ensures
        match r {
            Some(groups) => regex_first_captures(*re, text@) == Some(groups@) && group_spans(
                text@,
                groups@,
            ),
            None => regex_first_captures(*re, text@) is None,
        },
{
    re.captures(text).map(|c| c.iter().map(|g| g.map(|m| (m.start(), m.end()))).collect())
}

/// Calls `regex::Regex::replace_all`. A `$` in the replacement refers to a group; a replacement
/// without one is put in the place of each match as it stands.
#[verifier::external_body]
pub(crate) fn replace_all(re: &Regex, text: &str, replacement: &str) -> (r: String)
    ensures
        r@ == regex_replaced(*re, text@, replacement@),
        !replacement@.contains('$') ==> r@ == spliced(
            text@,
            regex_matches(*re, text@),
            replacement@,
        ),
{
    re.replace_all(text, replacement).to_string()
}

/// Compiles `pattern`; `None` where it is refused.
pub(crate) fn compile(pattern: &str) -> (r: Option<Regex>)
    ensures
        r == regex_compiled(pattern@),
        pattern@ == TOKEN_PATTERN@ ==> (r matches Some(re) ==> matches_words(re)),
{
    match regex_new(pattern) {
        Ok(re) => Some(re),
        Err(_) => None,
    }
}

/// The byte ranges that `pattern` matches in `text`.
pub(crate) fn spans_of(pattern: &str, text: &str) -> (r: Vec<(usize, usize)>)
    ensures
        r@ == matches_of(pattern@, text@),
        ordered_spans(text@, r@),
        pattern@ == TOKEN_PATTERN@ ==> (regex_compiled(pattern@) matches Some(re) ==> matches_words(
            re,
        )),
{
    match compile(pattern) {
        Some(re) => find_spans(&re, text),
        None => Vec::new(),
    }
}

/// Whether `c` has a meaning of its own in a pattern.
pub open spec fn is_pattern_meta(c: char) -> bool {
    ||| c == '\\' || c == '.' || c == '+' || c == '*' || c == '?' || c == '(' || c == ')'
    ||| c == '|' || c == '[' || c == ']' || c == '{' || c == '}' || c == '^' || c == '$'
    ||| c == '#' || c == '&' || c == '-' || c == '~'
}

/// `text` with a backslash before each character that has a meaning of its own in a pattern.
pub open spec fn escaped(text: Seq<char>) -> Seq<char>
    decreases text.len(),
{
    if text.len() == 0 {
        text
    } else if is_pattern_meta(text.last()) {
        escaped(text.drop_last()).push('\\').push(text.last())
    } else {
        escaped(text.drop_last()).push(text.last())
    }
}

/// Calls `regex::escape`, which puts a backslash before each character that has a meaning of its
/// own in a pattern.
#[verifier::external_body]
pub(crate) fn escape(text: &str) -> (r: String)
    ensures
        r@ == escaped(text@),
{
    regex::escape(text)
}

/// What is put in for the last range takes the place of that range alone: what stands before it and
/// behind it stays as it was without that replacement.
pub proof fn lemma_spliced_in_turn(
    text: Seq<char>,
    spans: Seq<(usize, usize)>,
    replacement: Seq<char>,
) -> (head: Seq<char>)
    requires
        spans.len() > 0,
    ensures
        ({
            let before = spans.drop_last();
            let start: int = if before.len() == 0 {
                0
            } else {
                before.last().1 as int
            };
            let end = encode_utf8(text).len() as int;
            let (a, b) = spans.last();
            &&& spliced(text, before, replacement) == head + byte_range(text, start, end)
            &&& spliced(text, spans, replacement) == head + byte_range(text, start, a as int)
                + replacement + byte_range(text, b as int, end)
            &&& before.len() == 0 ==> head.len() == 0
        }),
{
    spliced_upto(text, spans.drop_last(), replacement)
}

/// A text is escaped character by character: a letter, a digit or a space stays as it is, and what
/// has a meaning in patterns gets a backslash before it.
pub proof fn lemma_escaped(a: Seq<char>, b: Seq<char>, c: char)
    ensures
        escaped(a + b) == escaped(a) + escaped(b),
        is_ascii_alnum(c) || c == ' ' || c == '_' || c == '@' || c == ',' ==> escaped(seq![c])
            == seq![c],
        c == '.' || c == '+' || c == '*' || c == '?' || c == '(' || c == ')' || c == '[' || c == ']'
            || c == '|' || c == '^' || c == '$' || c == '\\' || c == '-' ==> escaped(seq![c]) == seq![
            '\\',
            c,
        ],
        escaped(seq![c]).last() == c,
    decreases b.len(),
{
    assert(seq![c].drop_last() =~= Seq::empty());
    assert(escaped(Seq::empty()) == Seq::<char>::empty());
    assert(Seq::<char>::empty().push('\\').push(c) =~= seq!['\\', c]);
    assert(Seq::<char>::empty().push(c) =~= seq![c]);
    if b.len() == 0 {
        assert(a + b =~= a);
        assert(escaped(a) + escaped(b) =~= escaped(a));
    } else {
        lemma_escaped(a, b.drop_last(), c);
        assert((a + b).drop_last() =~= a + b.drop_last());
        assert((a + b).last() == b.last());
        assert(escaped(a + b) =~= escaped(a) + escaped(b));
    }
}

} // verus!
