//! Reading what the language model answered.
use crate::anonymise::candidate::{match_views, AnonymiseMatch};
use crate::anonymise::kind::{kind_named, kind_token, parse_anonymise_kind, AnonymiseEntityKind};
use crate::json::{
    entry_views, find_any, find_entry, item_views, json_parsed, lemma_json_view, lemma_lookup_any, lookup,
    lookup_any, parse_json, text_in, text_of, Json, JsonView,
};
use crate::pattern::{
    captures_of, compile, find_captures, group_of, group_spans, text_of_group,
};
use crate::text::{
    cat2, chars_of, contains_text, eq_ignore_ascii_case, find_char, first_pos, join,
    joined, lemma_first_pos, lemma_trimmed, lines, lowered, occurs_in, same_text, split_lines, stands_at, stripped,
    text_of_range, to_ascii_lowercase, trim, trim_by, trimmed, views, CharClass,
};
use vstd::prelude::*;
use vstd::string::*;

verus! {

/// A kind and a value in running text, as in `name: Carol;`.
pub const KEY_VALUE_PATTERN: &'static str = r#"(?im)(?:^|[;\n\r\{\}\[\],]\s*|[-*]\s*)\b(?P<kind>name|names|location|locations|address|addresses|phone|phones|email|emails|number|numbers|organisation|organisations|organization|organizations|identifier|identifiers|id|ids)\b\s*[:=-]\s*(?P<value>[^;\n\r\}]+)"#;

/// A value without the white space and the quotes around it.
pub open spec fn bare_value(raw: Seq<char>) -> Seq<char> {
    trimmed(trimmed(stripped(raw), CharClass::DoubleQuote), CharClass::Apostrophe)
}

/// The matches that the captures of the key-value pattern give: those whose first group names a
/// kind and whose second group holds a value.
pub open spec fn captured_matches(
    raw: Seq<char>,
    captures: Seq<Seq<Option<(usize, usize)>>>,
) -> Seq<(AnonymiseEntityKind, Seq<char>)>
    decreases captures.len(),
{
    if captures.len() == 0 {
        Seq::empty()
    } else {
        let before = captured_matches(raw, captures.drop_last());
        let value = bare_value(group_of(raw, captures.last(), 2));
        match kind_named(kind_token(group_of(raw, captures.last(), 1))) {
            Some(kind) => if value.len() > 0 {
                before.push((kind, value))
            } else {
                before
            },
            None => before,
        }
    }
}

/// The captures as sequences.
pub open spec fn capture_views(captures: Seq<Vec<Option<(usize, usize)>>>) -> Seq<
    Seq<Option<(usize, usize)>>,
> {
    Seq::new(captures.len(), |i: int| captures[i]@)
}

/// The matches that the captures of the key-value pattern give.
pub fn matches_from_captures(raw: &str, captures: &Vec<Vec<Option<(usize, usize)>>>) -> (r: Vec<
    AnonymiseMatch,
>)
    requires
        forall|i: int| 0 <= i < captures@.len() ==> group_spans(raw@, (#[trigger] captures@[i])@),
    ensures
        match_views(r@) == captured_matches(raw@, capture_views(captures@)),
{
    let ghost all = capture_views(captures@);
    let mut out: Vec<AnonymiseMatch> = Vec::new();
    let mut i: usize = 0;
    assert(match_views(out@) =~= captured_matches(raw@, all.take(0)));
    while i < captures.len()
        invariant
            i <= captures@.len(),
            all == capture_views(captures@),
            forall|k: int|
                0 <= k < captures@.len() ==> group_spans(raw@, (#[trigger] captures@[k])@),
            match_views(out@) == captured_matches(raw@, all.take(i as int)),
        decreases captures@.len() - i,
    {
        let groups: &Vec<Option<(usize, usize)>> = &captures[i];
        assert(all.take(i + 1).drop_last() =~= all.take(i as int));
        assert(all.take(i + 1).last() == groups@);
        match parse_anonymise_kind(text_of_group(raw, groups, 1)) {
            Some(kind) => {
                let value: &str = trim_by(
                    trim_by(trim(text_of_group(raw, groups, 2)), CharClass::DoubleQuote),
                    CharClass::Apostrophe,
                );
                if !value.is_empty() {
                    let ghost before = out@;
                    out.push(AnonymiseMatch { kind, value: value.to_owned() });
                    assert(match_views(out@) =~= match_views(before).push((kind, value@)));
                }
            },
            None => {},
        }
        i += 1;
    }
    assert(all.take(i as int) =~= all);
    out
}

/// The matches written as `key: value` in `raw`.
pub open spec fn key_value_matches(raw: Seq<char>) -> Seq<(AnonymiseEntityKind, Seq<char>)> {
    captured_matches(raw, captures_of(KEY_VALUE_PATTERN@, raw))
}

/// The matches written as `key: value` in `raw`.
pub fn parse_anonymise_matches_from_key_value_text(raw: &str) -> (r: Vec<AnonymiseMatch>)
    ensures
        match_views(r@) == key_value_matches(raw@),
{
    match compile(KEY_VALUE_PATTERN) {
        Some(re) => {
            let captures: Vec<Vec<Option<(usize, usize)>>> = find_captures(&re, raw);
            assert(capture_views(captures@) =~= captures_of(KEY_VALUE_PATTERN@, raw@));
            matches_from_captures(raw, &captures)
        },
        None => {
            let r: Vec<AnonymiseMatch> = Vec::new();
            assert(match_views(r@) =~= key_value_matches(raw@));
            r
        },
    }
}

/// The values of a kind in a JSON value: a text is one, an array holds those of its items, and an
/// object may name one.
pub open spec fn collected(kind: AnonymiseEntityKind, v: JsonView) -> Seq<
    (AnonymiseEntityKind, Seq<char>),
>
    decreases v, 0nat,
{
    match v {
        JsonView::Str(text) => seq![(kind, text)],
        JsonView::Array(items) => collected_upto(kind, items, items.len()),
        JsonView::Object(entries) => match text_in(
            lookup_any(entries, seq!["value", "text", "match"]),
        ) {
            Some(text) => seq![(kind, text)],
            None => Seq::empty(),
        },
        _ => Seq::empty(),
    }
}

/// The values of a kind in the first `n` items.
pub open spec fn collected_upto(kind: AnonymiseEntityKind, items: Seq<JsonView>, n: nat) -> Seq<
    (AnonymiseEntityKind, Seq<char>),
>
    decreases items, n,
{
    if n == 0 || n > items.len() {
        Seq::empty()
    } else {
        collected_upto(kind, items, (n - 1) as nat) + collected(kind, items[n - 1])
    }
}

/// Adds the values of a kind in a JSON value to `out`.
pub fn collect_anonymise_values(
    kind: AnonymiseEntityKind,
    value: &Json,
    out: &mut Vec<AnonymiseMatch>,
)
    ensures
        match_views(final(out)@) == match_views(old(out)@) + collected(kind, value.view()),
    decreases value,
{
    let ghost start = match_views(out@);
    proof {
        lemma_json_view(*value);
    }
    match value {
        Json::Str(text) => {
            out.push(AnonymiseMatch { kind, value: text.clone() });
            assert(match_views(out@) =~= start + seq![(kind, text@)]);
        },
        Json::Array(items) => {
            let ghost all = item_views(items@);
            let mut i: usize = 0;
            assert(start + collected_upto(kind, all, 0) =~= start);
            while i < items.len()
                invariant
                    i <= items@.len(),
                    *value == Json::Array(*items),
                    all == item_views(items@),
                    match_views(out@) == start + collected_upto(kind, all, i as nat),
                decreases items@.len() - i,
            {
                assert(decreases_to!(*value => value->Array_0));
                assert(decreases_to!(value->Array_0 => value->Array_0@));
                assert(decreases_to!(items@ => items@[i as int]));
                collect_anonymise_values(kind, &items[i], out);
                i += 1;
                assert(match_views(out@) =~= start + collected_upto(kind, all, i as nat));
            }
        },
        Json::Object(entries) => {
            let keys: Vec<&'static str> = vec!["value", "text", "match"];
            assert(keys@ =~= seq!["value", "text", "match"]);
            match text_of(find_any(entries, &keys)) {
                Some(text) => {
                    out.push(AnonymiseMatch { kind, value: text.clone() });
                    assert(match_views(out@) =~= start + seq![(kind, text@)]);
                },
                None => {
                    assert(match_views(out@) =~= start + Seq::empty());
                },
            }
        },
        _ => {
            assert(match_views(out@) =~= start + Seq::empty());
        },
    }
}

/// A text in lower case, without the white space and the punctuation around it.
pub open spec fn bare_word(text: Seq<char>) -> Seq<char> {
    lowered(trimmed(stripped(text), CharClass::WhiteOrPunct))
}

/// A text in lower case, without the white space and the punctuation around it.
pub fn to_bare_word(text: &str) -> (r: String)
    ensures
        r@ == bare_word(text@),
{
    to_ascii_lowercase(trim_by(trim(text), CharClass::WhiteOrPunct))
}

/// The text that an answer wraps into an object under one of the known keys.
pub open spec fn wrapped_text(v: JsonView) -> Option<Seq<char>> {
    match v {
        JsonView::Object(entries) => text_in(
            lookup_any(
                entries,
                seq![
                    "anonymisation_extractions",
                    "anonymization_extractions",
                    "extractions",
                    "matches_text",
                    "matches_string",
                ],
            ),
        ),
        _ => None,
    }
}

/// The text that an answer wraps into an object under one of the known keys.
pub fn wrapped_payload<'a>(v: &'a Json) -> (r: Option<&'a String>)
    ensures
        match r {
            Some(s) => wrapped_text(v.view()) == Some(s@),
            None => wrapped_text(v.view()) is None,
        },
{
    proof {
        lemma_json_view(*v);
    }
    match v {
        Json::Object(entries) => {
            let keys: Vec<&'static str> =
                vec![
                "anonymisation_extractions",
                "anonymization_extractions",
                "extractions",
                "matches_text",
                "matches_string",
            ];
            assert(keys@ =~= seq![
                "anonymisation_extractions",
                "anonymization_extractions",
                "extractions",
                "matches_text",
                "matches_string",
            ]);
            text_of(find_any(entries, &keys))
        },
        _ => None,
    }
}

/// The match that an item of a list of matches stands for: an object that names a kind and a value,
/// or a text of the form `kind: value`.
pub open spec fn item_match(item: JsonView) -> Option<(AnonymiseEntityKind, Seq<char>)> {
    match item {
        JsonView::Object(entries) => {
            let kind = match text_in(lookup_any(entries, seq!["type", "kind", "category"])) {
                Some(t) => kind_named(kind_token(t)),
                None => None,
            };
            let value = text_in(lookup_any(entries, seq!["value", "text", "match"]));
            match (kind, value) {
                (Some(k), Some(t)) => Some((k, t)),
                _ => None,
            }
        },
        JsonView::Str(t) => {
            let n = first_pos(t, ':') as int;
            if n < t.len() {
                match kind_named(kind_token(t.take(n))) {
                    Some(k) => Some((k, stripped(t.skip(n + 1)))),
                    None => None,
                }
            } else {
                None
            }
        },
        _ => None,
    }
}

/// The match that an item of a list of matches stands for.
pub fn match_of_item(item: &Json) -> (r: Option<AnonymiseMatch>)
    ensures
        match r {
            Some(m) => item_match(item.view()) == Some(m@),
            None => item_match(item.view()) is None,
        },
{
    proof {
        lemma_json_view(*item);
    }
    match item {
        Json::Object(entries) => {
            let kind_keys: Vec<&'static str> = vec!["type", "kind", "category"];
            let value_keys: Vec<&'static str> = vec!["value", "text", "match"];
            assert(kind_keys@ =~= seq!["type", "kind", "category"]);
            assert(value_keys@ =~= seq!["value", "text", "match"]);
            let kind: Option<AnonymiseEntityKind> = match text_of(find_any(entries, &kind_keys)) {
                Some(t) => parse_anonymise_kind(t.as_str()),
                None => None,
            };
            match (kind, text_of(find_any(entries, &value_keys))) {
                (Some(k), Some(t)) => Some(AnonymiseMatch { kind: k, value: t.clone() }),
                _ => None,
            }
        },
        Json::Str(t) => {
            let v: Vec<char> = chars_of(t.as_str());
            let n: usize = find_char(&v, ':');
            if n < v.len() {
                let token: &str = t.as_str().substring_char(0, n);
                let rest: &str = t.as_str().substring_char(n + 1, v.len());
                assert(token@ =~= t@.take(n as int));
                assert(rest@ =~= t@.skip(n + 1));
                match parse_anonymise_kind(token) {
                    Some(k) => Some(AnonymiseMatch { kind: k, value: trim(rest).to_owned() }),
                    None => None,
                }
            } else {
                None
            }
        },
        _ => None,
    }
}

/// The matches that the items of a list stand for.
pub open spec fn listed_matches(items: Seq<JsonView>) -> Seq<(AnonymiseEntityKind, Seq<char>)>
    decreases items.len(),
{
    if items.len() == 0 {
        Seq::empty()
    } else {
        let before = listed_matches(items.drop_last());
        match item_match(items.last()) {
            Some(m) => before.push(m),
            None => before,
        }
    }
}

/// The matches that the entries of an object hold under the name of a kind.
pub open spec fn keyed_matches(entries: Seq<(Seq<char>, JsonView)>) -> Seq<
    (AnonymiseEntityKind, Seq<char>),
>
    decreases entries.len(),
{
    if entries.len() == 0 {
        Seq::empty()
    } else {
        let before = keyed_matches(entries.drop_last());
        let (key, value) = entries.last();
        if lowered(key) == lowered("matches"@) {
            before
        } else {
            match kind_named(kind_token(key)) {
                Some(kind) => before + collected(kind, value),
                None => before,
            }
        }
    }
}

/// The match that an item of a bare array stands for: an object with a type and a value.
pub open spec fn typed_match(item: JsonView) -> Option<(AnonymiseEntityKind, Seq<char>)> {
    match item {
        JsonView::Object(entries) => match (
            text_in(lookup(entries, "type"@)),
            text_in(lookup_any(entries, seq!["value", "text"])),
        ) {
            (Some(t), Some(text)) => match kind_named(kind_token(t)) {
                Some(kind) => Some((kind, text)),
                None => None,
            },
            _ => None,
        },
        _ => None,
    }
}

/// The matches that the items of a bare array stand for.
pub open spec fn typed_matches(items: Seq<JsonView>) -> Seq<(AnonymiseEntityKind, Seq<char>)>
    decreases items.len(),
{
    if items.len() == 0 {
        Seq::empty()
    } else {
        let before = typed_matches(items.drop_last());
        match typed_match(items.last()) {
            Some(m) => before.push(m),
            None => before,
        }
    }
}

/// The matches that an answer lists under `matches`, and those that it holds otherwise.
pub open spec fn structured_matches(v: JsonView) -> Seq<(AnonymiseEntityKind, Seq<char>)> {
    match v {
        JsonView::Object(entries) => (match lookup(entries, "matches"@) {
            Some(JsonView::Array(items)) => listed_matches(items),
            _ => Seq::empty(),
        }) + keyed_matches(entries),
        JsonView::Array(items) => typed_matches(items),
        _ => Seq::empty(),
    }
}

/// The matches of an answer whose wrapped text holds the matches `direct`: those, where there are
/// any; none, where the wrapped text says so; else what the answer holds outside of it.
pub open spec fn resolved_matches(
    v: JsonView,
    direct: Seq<(AnonymiseEntityKind, Seq<char>)>,
) -> Seq<(AnonymiseEntityKind, Seq<char>)> {
    match wrapped_text(v) {
        Some(text) => if direct.len() > 0 {
            direct
        } else if bare_word(text) == "none"@ || bare_word(text) == "nomatches"@ {
            Seq::empty()
        } else {
            structured_matches(v)
        },
        None => structured_matches(v),
    }
}

/// The matches of an answer.
pub open spec fn value_matches(v: JsonView) -> Seq<(AnonymiseEntityKind, Seq<char>)> {
    resolved_matches(
        v,
        match wrapped_text(v) {
            Some(text) => key_value_matches(text),
            None => Seq::empty(),
        },
    )
}

/// Adds the matches that the items of a list stand for to `out`.
fn add_listed(items: &Vec<Json>, out: &mut Vec<AnonymiseMatch>)
    ensures
        match_views(final(out)@) == match_views(old(out)@) + listed_matches(item_views(items@)),
{
    let ghost start = match_views(out@);
    let ghost all = item_views(items@);
    let mut i: usize = 0;
    assert(start + listed_matches(all.take(0)) =~= start);
    while i < items.len()
        invariant
            i <= items@.len(),
            all == item_views(items@),
            match_views(out@) == start + listed_matches(all.take(i as int)),
        decreases items@.len() - i,
    {
        assert(all.take(i + 1).drop_last() =~= all.take(i as int));
        assert(all.take(i + 1).last() == items@[i as int].view());
        match match_of_item(&items[i]) {
            Some(m) => {
                let ghost before = out@;
                let ghost view = m@;
                out.push(m);
                assert(match_views(out@) =~= match_views(before).push(view));
                assert(match_views(out@) =~= start + listed_matches(all.take(i + 1)));
            },
            None => {},
        }
        i += 1;
    }
    assert(all.take(i as int) =~= all);
}

/// Adds the matches that the entries of an object hold under the name of a kind to `out`.
fn add_keyed(entries: &Vec<(String, Json)>, out: &mut Vec<AnonymiseMatch>)
    ensures
        match_views(final(out)@) == match_views(old(out)@) + keyed_matches(entry_views(entries@)),
{
    let ghost start = match_views(out@);
    let ghost all = entry_views(entries@);
    let mut i: usize = 0;
    assert(start + keyed_matches(all.take(0)) =~= start);
    while i < entries.len()
        invariant
            i <= entries@.len(),
            all == entry_views(entries@),
            match_views(out@) == start + keyed_matches(all.take(i as int)),
        decreases entries@.len() - i,
    {
        assert(all.take(i + 1).drop_last() =~= all.take(i as int));
        assert(all.take(i + 1).last() == (entries@[i as int].0@, entries@[i as int].1.view()));
        if !eq_ignore_ascii_case(entries[i].0.as_str(), "matches") {
            match parse_anonymise_kind(entries[i].0.as_str()) {
                Some(kind) => {
                    collect_anonymise_values(kind, &entries[i].1, out);
                    assert(match_views(out@) =~= start + keyed_matches(all.take(i + 1)));
                },
                None => {},
            }
        }
        i += 1;
    }
    assert(all.take(i as int) =~= all);
}

/// Adds the matches that the items of a bare array stand for to `out`.
fn add_typed(items: &Vec<Json>, out: &mut Vec<AnonymiseMatch>)
    ensures
        match_views(final(out)@) == match_views(old(out)@) + typed_matches(item_views(items@)),
{
    let ghost start = match_views(out@);
    let ghost all = item_views(items@);
    let mut i: usize = 0;
    assert(start + typed_matches(all.take(0)) =~= start);
    while i < items.len()
        invariant
            i <= items@.len(),
            all == item_views(items@),
            match_views(out@) == start + typed_matches(all.take(i as int)),
        decreases items@.len() - i,
    {
        assert(all.take(i + 1).drop_last() =~= all.take(i as int));
        assert(all.take(i + 1).last() == items@[i as int].view());
        proof {
            lemma_json_view(items@[i as int]);
        }
        if let Json::Object(entries) = &items[i] {
            let keys: Vec<&'static str> = vec!["value", "text"];
            assert(keys@ =~= seq!["value", "text"]);
            if let (Some(t), Some(text)) = (
                text_of(find_entry(entries, "type")),
                text_of(find_any(entries, &keys)),
            ) {
                if let Some(kind) = parse_anonymise_kind(t.as_str()) {
                    let ghost before = out@;
                    out.push(AnonymiseMatch { kind, value: text.clone() });
                    assert(match_views(out@) =~= match_views(before).push((kind, text@)));
                    assert(match_views(out@) =~= start + typed_matches(all.take(i + 1)));
                }
            }
        }
        i += 1;
    }
    assert(all.take(i as int) =~= all);
}

/// The matches of an answer whose wrapped text holds the matches `direct`.
pub fn matches_from_value(parsed: &Json, direct: Vec<AnonymiseMatch>) -> (r: Vec<AnonymiseMatch>)
    ensures
        match_views(r@) == resolved_matches(parsed.view(), match_views(direct@)),
{
    let mut out: Vec<AnonymiseMatch> = Vec::new();
    assert(match_views(out@) =~= Seq::empty());
    if let Some(text) = wrapped_payload(parsed) {
        if direct.len() > 0 {
            return direct;
        }
        let word: String = to_bare_word(text.as_str());
        if same_text(word.as_str(), "none") || same_text(word.as_str(), "nomatches") {
            return out;
        }
    }
    proof {
        lemma_json_view(*parsed);
    }
    match parsed {
        Json::Object(entries) => {
            if let Some(found) = find_entry(entries, "matches") {
                proof {
                    lemma_json_view(*found);
                }
                if let Json::Array(items) = found {
                    add_listed(items, &mut out);
                }
            }
            add_keyed(entries, &mut out);
            assert(match_views(out@) =~= structured_matches(parsed.view()));
        },
        Json::Array(items) => {
            add_typed(items, &mut out);
            assert(match_views(out@) =~= structured_matches(parsed.view()));
        },
        _ => {},
    }
    out
}

/// The matches of an answer.
pub fn parse_anonymise_matches_from_value(parsed: &Json) -> (r: Vec<AnonymiseMatch>)
    ensures
        match_views(r@) == value_matches(parsed.view()),
{
    let direct: Vec<AnonymiseMatch> = match wrapped_payload(parsed) {
        Some(text) => parse_anonymise_matches_from_key_value_text(text.as_str()),
        None => Vec::new(),
    };
    assert(wrapped_text(parsed.view()) is None ==> match_views(direct@) =~= Seq::empty());
    matches_from_value(parsed, direct)
}

/// Whether a value under the name of a kind says that nothing was found.
pub open spec fn is_empty_value(v: JsonView) -> bool {
    match v {
        JsonView::Null => true,
        JsonView::Array(items) => items.len() == 0,
        JsonView::Str(t) => bare_word(t).len() == 0 || bare_word(t) == "none"@,
        _ => false,
    }
}

/// Whether an entry of an object stands under the name of a kind.
pub open spec fn is_kind_entry(entry: (Seq<char>, JsonView)) -> bool {
    kind_named(kind_token(entry.0)) is Some
}

/// Whether an answer says that nothing was found: an empty object, an empty list of matches, a
/// wrapped text that says so, or one or more kinds that are all empty.
pub open spec fn says_nothing_found(v: JsonView) -> bool {
    match v {
        JsonView::Object(entries) => {
            ||| entries.len() == 0
            ||| lookup(entries, "matches"@) matches Some(JsonView::Array(items)) && items.len()
                == 0
            ||| text_in(
                lookup_any(
                    entries,
                    seq!["anonymisation_extractions", "anonymization_extractions", "extractions"],
                ),
            ) matches Some(t) && (bare_word(t) == "none"@ || bare_word(t) == "nomatches"@
                || bare_word(t) == "nomatch"@)
            ||| {
                &&& exists|i: int| 0 <= i < entries.len() && is_kind_entry(#[trigger] entries[i])
                &&& forall|i: int|
                    0 <= i < entries.len() && is_kind_entry(#[trigger] entries[i])
                        ==> is_empty_value(entries[i].1)
            }
        },
        _ => false,
    }
}

/// Whether a value under the name of a kind says that nothing was found.
fn holds_nothing(v: &Json) -> (r: bool)
    ensures
        r == is_empty_value(v.view()),
{
    match v {
        Json::Null => true,
        Json::Array(items) => items.len() == 0,
        Json::Str(t) => {
            let word: String = to_bare_word(t.as_str());
            word.as_str().is_empty() || same_text(word.as_str(), "none")
        },
        _ => false,
    }
}

/// Whether an answer says that nothing was found.
pub fn is_valid_empty_anonymise_json(parsed: &Json) -> (r: bool)
    ensures
        r == says_nothing_found(parsed.view()),
{
    proof {
        lemma_json_view(*parsed);
    }
    let entries: &Vec<(String, Json)> = match parsed {
        Json::Object(entries) => entries,
        _ => {
            return false;
        },
    };
    let ghost all = entry_views(entries@);
    if entries.len() == 0 {
        return true;
    }
    if let Some(found) = find_entry(entries, "matches") {
        proof {
            lemma_json_view(*found);
        }
        if let Json::Array(items) = found {
            if items.len() == 0 {
                return true;
            }
        }
    }
    let keys: Vec<&'static str> =
        vec![
        "anonymisation_extractions",
        "anonymization_extractions",
        "extractions",
    ];
    assert(keys@ =~= seq!["anonymisation_extractions", "anonymization_extractions", "extractions"]);
    if let Some(text) = text_of(find_any(entries, &keys)) {
        let word: String = to_bare_word(text.as_str());
        if same_text(word.as_str(), "none") || same_text(word.as_str(), "nomatches") || same_text(
            word.as_str(),
            "nomatch",
        ) {
            return true;
        }
    }
    let mut saw_kind: bool = false;
    let mut i: usize = 0;
    while i < entries.len()
        invariant
            i <= entries@.len(),
            all == entry_views(entries@),
            saw_kind == (exists|k: int| 0 <= k < i && is_kind_entry(#[trigger] all[k])),
            forall|k: int| 0 <= k < i && is_kind_entry(#[trigger] all[k]) ==> is_empty_value(all[k].1),
            parsed.view() == JsonView::Object(all),
            all.len() > 0,
            !(lookup(all, "matches"@) matches Some(JsonView::Array(items)) && items.len() == 0),
            !(text_in(
                lookup_any(
                    all,
                    seq!["anonymisation_extractions", "anonymization_extractions", "extractions"],
                ),
            ) matches Some(t) && (bare_word(t) == "none"@ || bare_word(t) == "nomatches"@
                || bare_word(t) == "nomatch"@)),
        decreases entries@.len() - i,
    {
        assert(all[i as int] == (entries@[i as int].0@, entries@[i as int].1.view()));
        if parse_anonymise_kind(entries[i].0.as_str()).is_some() {
            saw_kind = true;
            assert(is_kind_entry(all[i as int]));
            if !holds_nothing(&entries[i].1) {
                return false;
            }
        }
        i += 1;
    }
    saw_kind
}

/// How far a text has been searched for objects in braces.
pub struct BraceScan {
    /// How many braces are open.
    pub depth: nat,
    /// Where the outermost open brace stands.
    pub start: int,
    /// Whether the position lies inside a quoted text.
    pub in_string: bool,
    /// Whether the character before is a backslash that takes the next one literally.
    pub escaped: bool,
    /// Where the closed objects begin and end.
    pub found: Seq<(int, int)>,
}

/// The search after one more character.
pub open spec fn brace_step(scan: BraceScan, at: int, c: char) -> BraceScan {
    if scan.in_string {
        if scan.escaped {
            BraceScan { escaped: false, ..scan }
        } else if c == '\\' {
            BraceScan { escaped: true, ..scan }
        } else if c == '"' {
            BraceScan { in_string: false, ..scan }
        } else {
            scan
        }
    } else if c == '"' {
        BraceScan { in_string: true, ..scan }
    } else if c == '{' {
        BraceScan {
            start: if scan.depth == 0 {
                at
            } else {
                scan.start
            },
            depth: scan.depth + 1,
            ..scan
        }
    } else if c == '}' && scan.depth == 1 {
        BraceScan { depth: 0, found: scan.found.push((scan.start, at + 1)), ..scan }
    } else if c == '}' && scan.depth > 1 {
        BraceScan { depth: (scan.depth - 1) as nat, ..scan }
    } else {
        scan
    }
}

/// The search of `s` for objects in braces.
pub open spec fn brace_scan(s: Seq<char>) -> BraceScan
    decreases s.len(),
{
    if s.len() == 0 {
        BraceScan { depth: 0, start: 0, in_string: false, escaped: false, found: Seq::empty() }
    } else {
        brace_step(brace_scan(s.drop_last()), s.len() - 1, s.last())
    }
}

/// The outermost objects in braces in `s`, from left to right.
pub open spec fn braced_objects(s: Seq<char>) -> Seq<Seq<char>> {
    let found = brace_scan(s).found;
    Seq::new(found.len(), |i: int| s.subrange(found[i].0, found[i].1))
}

/// Each object that is found opens with a brace, closes with one, and lies behind the one before.
pub proof fn lemma_braced_objects(s: Seq<char>)
    ensures
        forall|i: int|
            0 <= i < brace_scan(s).found.len() ==> {
                let (a, b) = #[trigger] brace_scan(s).found[i];
                0 <= a && a + 2 <= b <= s.len() && s[a] == '{' && s[b - 1] == '}'
            },
        forall|i: int, j: int|
            0 <= i < j < brace_scan(s).found.len() ==> (#[trigger] brace_scan(s).found[i]).1 <= (
            #[trigger] brace_scan(s).found[j]).0,
        brace_scan(s).depth > 0 ==> 0 <= brace_scan(s).start < s.len() && s[brace_scan(s).start]
            == '{' && forall|i: int|
            0 <= i < brace_scan(s).found.len() ==> (#[trigger] brace_scan(s).found[i]).1
                <= brace_scan(s).start,
    decreases s.len(),
{
    if s.len() > 0 {
        let t = s.drop_last();
        lemma_braced_objects(t);
        let before = brace_scan(t);
        let after = brace_scan(s);
        assert forall|i: int| 0 <= i < after.found.len() implies {
            let (a, b) = #[trigger] after.found[i];
            0 <= a && a + 2 <= b <= s.len() && s[a] == '{' && s[b - 1] == '}'
        } by {
            if i < before.found.len() {
                assert(after.found[i] == before.found[i]);
            } else {
                assert(t[before.start] == s[before.start]);
            }
        }
        assert forall|i: int, j: int| 0 <= i < j < after.found.len() implies (
        #[trigger] after.found[i]).1 <= (#[trigger] after.found[j]).0 by {
            assert(after.found[i] == before.found[i]);
            if j < before.found.len() {
                assert(after.found[j] == before.found[j]);
            }
        }
    }
}

/// The outermost objects in braces in `raw`, from left to right.
pub fn find_braced_objects(raw: &str) -> (r: Vec<String>)
    ensures
        views(r@) == braced_objects(raw@),
{
    let v: Vec<char> = chars_of(raw);
    let mut out: Vec<String> = Vec::new();
    let mut depth: usize = 0;
    let mut start: usize = 0;
    let mut in_string: bool = false;
    let mut escaped: bool = false;
    let mut i: usize = 0;
    while i < v.len()
        invariant
            i <= v@.len(),
            depth <= i,
            depth == brace_scan(v@.take(i as int)).depth,
            start == brace_scan(v@.take(i as int)).start,
            depth > 0 ==> start < i,
            in_string == brace_scan(v@.take(i as int)).in_string,
            escaped == brace_scan(v@.take(i as int)).escaped,
            out@.len() == brace_scan(v@.take(i as int)).found.len(),
            forall|k: int|
                0 <= k < out@.len() ==> (#[trigger] out@[k])@ == v@.subrange(
                    brace_scan(v@.take(i as int)).found[k].0,
                    brace_scan(v@.take(i as int)).found[k].1,
                ),
        decreases v@.len() - i,
    {
        let c: char = v[i];
        assert(v@.take(i + 1).drop_last() =~= v@.take(i as int));
        let ghost before = brace_scan(v@.take(i as int));
        assert(brace_scan(v@.take(i + 1)) == brace_step(before, i as int, c));
        if in_string {
            if escaped {
                escaped = false;
            } else if c == '\\' {
                escaped = true;
            } else if c == '"' {
                in_string = false;
            }
        } else if c == '"' {
            in_string = true;
        } else if c == '{' {
            if depth == 0 {
                start = i;
            }
            depth += 1;
        } else if c == '}' {
            if depth == 1 {
                out.push(text_of_range(&v, start, i + 1));
                depth = 0;
            } else if depth > 1 {
                depth -= 1;
            }
        }
        i += 1;
    }
    assert(v@.take(i as int) =~= v@);
    assert(views(out@) =~= braced_objects(raw@));
    out
}

/// Those of `texts` that are JSON.
pub open spec fn json_texts(texts: Seq<Seq<char>>) -> Seq<Seq<char>>
    decreases texts.len(),
{
    if texts.len() == 0 {
        texts
    } else if json_parsed(texts.last()) is Some {
        json_texts(texts.drop_last()).push(texts.last())
    } else {
        json_texts(texts.drop_last())
    }
}

/// The JSON objects in an answer: the answer itself where it is one, else those that stand in it.
pub open spec fn object_texts(raw: Seq<char>) -> Seq<Seq<char>> {
    let t = stripped(raw);
    if t.len() == 0 {
        Seq::empty()
    } else if t[0] == '{' && t.last() == '}' && json_parsed(t) is Some {
        seq![t]
    } else {
        json_texts(braced_objects(raw))
    }
}

/// The JSON objects in an answer.
pub fn extract_json_objects(raw: &str) -> (r: Vec<String>)
    ensures
        views(r@) == object_texts(raw@),
{
    let trimmed_raw: &str = trim(raw);
    let v: Vec<char> = chars_of(trimmed_raw);
    let mut out: Vec<String> = Vec::new();
    assert(views(out@) =~= Seq::empty());
    if v.len() == 0 {
        return out;
    }
    if v[0] == '{' && v[v.len() - 1] == '}' && parse_json(trimmed_raw).is_some() {
        out.push(trimmed_raw.to_owned());
        assert(views(out@) =~= seq![trimmed_raw@]);
        return out;
    }
    let found: Vec<String> = find_braced_objects(raw);
    let ghost all = views(found@);
    let mut i: usize = 0;
    assert(views(out@) =~= json_texts(all.take(0)));
    while i < found.len()
        invariant
            i <= found@.len(),
            all == views(found@),
            views(out@) == json_texts(all.take(i as int)),
        decreases found@.len() - i,
    {
        assert(all.take(i + 1).drop_last() =~= all.take(i as int));
        assert(all.take(i + 1).last() == found@[i as int]@);
        if parse_json(found[i].as_str()).is_some() {
            let ghost before = out@;
            out.push(found[i].clone());
            assert(views(out@) =~= views(before).push(found@[i as int]@));
        }
        i += 1;
    }
    assert(all.take(i as int) =~= all);
    out
}

/// What was read from a JSON value.
pub struct ReadValue {
    /// The matches that it holds.
    pub matches: Vec<AnonymiseMatch>,
    /// Whether it says that nothing was found.
    pub empty: bool,
}

impl View for ReadValue {
    type V = (Seq<(AnonymiseEntityKind, Seq<char>)>, bool);

    open spec fn view(&self) -> (Seq<(AnonymiseEntityKind, Seq<char>)>, bool) {
        (match_views(self.matches@), self.empty)
    }
}

/// What is read from a JSON value.
pub open spec fn read_value(v: JsonView) -> (Seq<(AnonymiseEntityKind, Seq<char>)>, bool) {
    (value_matches(v), says_nothing_found(v))
}

/// What is read from a JSON value.
fn read_json(v: &Json) -> (r: ReadValue)
    ensures
        r@ == read_value(v.view()),
{
    ReadValue {
        matches: parse_anonymise_matches_from_value(v),
        empty: is_valid_empty_anonymise_json(v),
    }
}

/// The contents of a list of values that were read.
pub open spec fn read_views(values: Seq<ReadValue>) -> Seq<
    (Seq<(AnonymiseEntityKind, Seq<char>)>, bool),
> {
    Seq::new(values.len(), |i: int| values[i]@)
}

/// The matches of all the values that were read, one after the other.
pub open spec fn all_matches(values: Seq<(Seq<(AnonymiseEntityKind, Seq<char>)>, bool)>) -> Seq<
    (AnonymiseEntityKind, Seq<char>),
>
    decreases values.len(),
{
    if values.len() == 0 {
        Seq::empty()
    } else {
        all_matches(values.drop_last()) + values.last().0
    }
}

/// What an answer begins with: its first six lines on one, cut off after 320 characters.
pub open spec fn snippet(raw: Seq<char>) -> Seq<char> {
    let ls = lines(raw);
    let head = if ls.len() > 6 {
        ls.take(6)
    } else {
        ls
    };
    let line = joined(head, " | "@);
    if line.len() > 320 {
        line.take(320)
    } else {
        line
    }
}

/// What an answer begins with.
pub fn response_snippet(raw: &str) -> (r: String)
    ensures
        r@ == snippet(raw@),
{
    let mut ls: Vec<String> = split_lines(raw);
    if ls.len() > 6 {
        let ghost all = ls@;
        ls.truncate(6);
        assert(views(ls@) =~= views(all).take(6));
    }
    let line: String = join(&ls, " | ");
    let v: Vec<char> = chars_of(line.as_str());
    if v.len() > 320 {
        assert(v@.take(320) =~= v@.subrange(0, 320));
        text_of_range(&v, 0, 320)
    } else {
        line
    }
}

/// Whether an answer consists of nothing but the statement that nothing was found.
pub open spec fn declines(word: Seq<char>) -> bool {
    word == "none"@ || word == "nomatches"@ || word == "nomatch"@ || word == "noentities"@ || word
        == "empty"@
}

/// What an answer comes to, given what its JSON value, the objects in it and its running text hold.
pub open spec fn answered(
    raw: Seq<char>,
    direct: Option<(Seq<(AnonymiseEntityKind, Seq<char>)>, bool)>,
    objects: Seq<(Seq<(AnonymiseEntityKind, Seq<char>)>, bool)>,
    running: Seq<(AnonymiseEntityKind, Seq<char>)>,
) -> Result<Seq<(AnonymiseEntityKind, Seq<char>)>, Seq<char>> {
    let word = bare_word(raw);
    if declines(word) {
        Ok(Seq::empty())
    } else if direct matches Some(d) && (d.0.len() > 0 || d.1) {
        Ok(direct.unwrap().0)
    } else if all_matches(objects).len() > 0 {
        Ok(all_matches(objects))
    } else if exists|i: int| 0 <= i < objects.len() && (#[trigger] objects[i]).1 {
        Ok(Seq::empty())
    } else if running.len() > 0 {
        Ok(running)
    } else if occurs_in("none"@, word) || occurs_in("nomatch"@, word) {
        Ok(Seq::empty())
    } else {
        Err(
            "model response did not contain parseable JSON objects or key:value matches; response starts with: "@
                + snippet(raw),
        )
    }
}

/// What an answer comes to, given what its JSON value, the objects in it and its running text hold.
pub fn resolve_answer(
    raw: &str,
    direct: Option<ReadValue>,
    objects: &Vec<ReadValue>,
    running: Vec<AnonymiseMatch>,
) -> (r: Result<Vec<AnonymiseMatch>, String>)
    ensures
        ({
            let answer = answered(
                raw@,
                match direct {
                    Some(d) => Some(d@),
                    None => None,
                },
                read_views(objects@),
                match_views(running@),
            );
            match r {
                Ok(list) => answer == Ok::<Seq<(AnonymiseEntityKind, Seq<char>)>, Seq<char>>(
                    match_views(list@),
                ),
                Err(message) => answer == Err::<Seq<(AnonymiseEntityKind, Seq<char>)>, Seq<char>>(
                    message@,
                ),
            }
        }),
{
    let ghost all = read_views(objects@);
    let word: String = to_bare_word(raw);
    let w: &str = word.as_str();
    let mut out: Vec<AnonymiseMatch> = Vec::new();
    assert(match_views(out@) =~= Seq::empty());
    if same_text(w, "none") || same_text(w, "nomatches") || same_text(w, "nomatch") || same_text(
        w,
        "noentities",
    ) || same_text(w, "empty") {
        return Ok(out);
    }
    if let Some(d) = direct {
        if d.matches.len() > 0 || d.empty {
            return Ok(d.matches);
        }
    }
    let mut saw_empty: bool = false;
    let mut i: usize = 0;
    assert(match_views(out@) =~= all_matches(all.take(0)));
    while i < objects.len()
        invariant
            i <= objects@.len(),
            all == read_views(objects@),
            match_views(out@) == all_matches(all.take(i as int)),
            saw_empty == (exists|k: int| 0 <= k < i && (#[trigger] all[k]).1),
        decreases objects@.len() - i,
    {
        let value: &ReadValue = &objects[i];
        assert(all.take(i + 1).drop_last() =~= all.take(i as int));
        assert(all.take(i + 1).last() == value@);
        assert(all[i as int] == value@);
        add_copies(&mut out, &value.matches);
        if value.empty {
            saw_empty = true;
        }
        i += 1;
    }
    assert(all.take(i as int) =~= all);
    assert(out@.len() == 0 ==> match_views(out@) =~= Seq::empty());
    if out.len() > 0 || saw_empty {
        return Ok(out);
    }
    if running.len() > 0 {
        return Ok(running);
    }
    if contains_text(w, "none") || contains_text(w, "nomatch") {
        return Ok(out);
    }
    let start: String = response_snippet(raw);
    Err(
        cat2(
            "model response did not contain parseable JSON objects or key:value matches; response starts with: ",
            start.as_str(),
        ),
    )
}

/// Adds a copy of each of `from` to `out`.
fn add_copies(out: &mut Vec<AnonymiseMatch>, from: &Vec<AnonymiseMatch>)
    ensures
        match_views(final(out)@) == match_views(old(out)@) + match_views(from@),
{
    let ghost start = match_views(out@);
    let mut i: usize = 0;
    assert(start + match_views(from@).take(0) =~= start);
    while i < from.len()
        invariant
            i <= from@.len(),
            match_views(out@) == start + match_views(from@).take(i as int),
        decreases from@.len() - i,
    {
        let ghost before = out@;
        out.push(AnonymiseMatch { kind: from[i].kind, value: from[i].value.clone() });
        assert(match_views(out@) =~= match_views(before).push(from@[i as int]@));
        i += 1;
        assert(match_views(out@) =~= start + match_views(from@).take(i as int));
    }
    assert(match_views(from@).take(i as int) =~= match_views(from@));
}

/// What the JSON value of an answer holds, where the answer is one.
pub open spec fn direct_reading(raw: Seq<char>) -> Option<
    (Seq<(AnonymiseEntityKind, Seq<char>)>, bool),
> {
    match json_parsed(stripped(raw)) {
        Some(v) => Some(read_value(v)),
        None => None,
    }
}

/// What the JSON objects in an answer hold.
pub open spec fn object_readings(raw: Seq<char>) -> Seq<
    (Seq<(AnonymiseEntityKind, Seq<char>)>, bool),
> {
    readings(object_texts(raw))
}

/// What those of `texts` hold that are JSON.
pub open spec fn readings(texts: Seq<Seq<char>>) -> Seq<
    (Seq<(AnonymiseEntityKind, Seq<char>)>, bool),
>
    decreases texts.len(),
{
    if texts.len() == 0 {
        Seq::empty()
    } else {
        let before = readings(texts.drop_last());
        match json_parsed(texts.last()) {
            Some(v) => before.push(read_value(v)),
            None => before,
        }
    }
}

/// The matches that the language model reported in its answer, or why they cannot be read.
pub fn parse_anonymise_matches(raw_response: &str) -> (r: Result<Vec<AnonymiseMatch>, String>)
    ensures
        ({
            let answer = answered(
                raw_response@,
                direct_reading(raw_response@),
                object_readings(raw_response@),
                key_value_matches(raw_response@),
            );
            match r {
                Ok(list) => answer == Ok::<Seq<(AnonymiseEntityKind, Seq<char>)>, Seq<char>>(
                    match_views(list@),
                ),
                Err(message) => answer == Err::<Seq<(AnonymiseEntityKind, Seq<char>)>, Seq<char>>(
                    message@,
                ),
            }
        }),
{
    let direct: Option<ReadValue> = match parse_json(trim(raw_response)) {
        Some(v) => Some(read_json(&v)),
        None => None,
    };
    let texts: Vec<String> = extract_json_objects(raw_response);
    let ghost all = views(texts@);
    let mut objects: Vec<ReadValue> = Vec::new();
    let mut i: usize = 0;
    assert(read_views(objects@) =~= readings(all.take(0)));
    while i < texts.len()
        invariant
            i <= texts@.len(),
            all == views(texts@),
            read_views(objects@) == readings(all.take(i as int)),
        decreases texts@.len() - i,
    {
        assert(all.take(i + 1).drop_last() =~= all.take(i as int));
        assert(all.take(i + 1).last() == texts@[i as int]@);
        if let Some(v) = parse_json(texts[i].as_str()) {
            let ghost before = objects@;
            objects.push(read_json(&v));
            assert(read_views(objects@) =~= read_views(before).push(read_value(v.view())));
        }
        i += 1;
    }
    assert(all.take(i as int) =~= all);
    let running: Vec<AnonymiseMatch> = parse_anonymise_matches_from_key_value_text(raw_response);
    resolve_answer(raw_response, direct, &objects, running)
}

/// Lists that hold no matches hold none together.
proof fn lemma_no_matches(values: Seq<(Seq<(AnonymiseEntityKind, Seq<char>)>, bool)>)
    requires
        forall|i: int| 0 <= i < values.len() ==> (#[trigger] values[i]).0.len() == 0,
    ensures
        all_matches(values).len() == 0,
    decreases values.len(),
{
    if values.len() > 0 {
        let rest = values.drop_last();
        assert forall|i: int| 0 <= i < rest.len() implies (#[trigger] rest[i]).0.len() == 0 by {
            assert(rest[i] == values[i]);
        }
        lemma_no_matches(rest);
        assert(values[values.len() - 1].0.len() == 0);
    }
}

/// What is written as `key: value` counts wherever the JSON of an answer tells nothing, whatever
/// other words the answer holds: only an answer that consists of a word for nothing and of nothing
/// else is taken at that word.
pub proof fn lemma_key_values_count(
    raw: Seq<char>,
    direct: Option<(Seq<(AnonymiseEntityKind, Seq<char>)>, bool)>,
    objects: Seq<(Seq<(AnonymiseEntityKind, Seq<char>)>, bool)>,
    running: Seq<(AnonymiseEntityKind, Seq<char>)>,
)
    requires
        bare_word(raw) != "none"@,
        bare_word(raw) != "nomatches"@,
        bare_word(raw) != "nomatch"@,
        bare_word(raw) != "noentities"@,
        bare_word(raw) != "empty"@,
        direct matches Some(d) ==> d.0.len() == 0 && !d.1,
        forall|i: int|
            0 <= i < objects.len() ==> (#[trigger] objects[i]).0.len() == 0 && !objects[i].1,
        running.len() > 0,
    ensures
        answered(raw, direct, objects, running) == Ok::<
            Seq<(AnonymiseEntityKind, Seq<char>)>,
            Seq<char>,
        >(running),
{
    lemma_no_matches(objects);
}

/// What the JSON of an answer reports counts before its running text: all of the answer where it is
/// JSON as a whole, else the objects in it, each with its matches in the order in which they stand.
pub proof fn lemma_json_counts_first(
    raw: Seq<char>,
    direct: Option<(Seq<(AnonymiseEntityKind, Seq<char>)>, bool)>,
    objects: Seq<(Seq<(AnonymiseEntityKind, Seq<char>)>, bool)>,
    running: Seq<(AnonymiseEntityKind, Seq<char>)>,
)
    requires
        bare_word(raw) != "none"@,
        bare_word(raw) != "nomatches"@,
        bare_word(raw) != "nomatch"@,
        bare_word(raw) != "noentities"@,
        bare_word(raw) != "empty"@,
    ensures
        direct matches Some(d) ==> d.0.len() > 0 ==> answered(raw, direct, objects, running) == Ok::<
            Seq<(AnonymiseEntityKind, Seq<char>)>,
            Seq<char>,
        >(d.0),
        direct matches Some(d) ==> d.0.len() == 0 && d.1 ==> answered(
            raw,
            direct,
            objects,
            running,
        ) == Ok::<Seq<(AnonymiseEntityKind, Seq<char>)>, Seq<char>>(Seq::empty()),
        !(direct matches Some(d) && (d.0.len() > 0 || d.1)) && (exists|i: int|
            0 <= i < objects.len() && ((#[trigger] objects[i]).0.len() > 0 || objects[i].1))
            ==> answered(raw, direct, objects, running) == Ok::<
            Seq<(AnonymiseEntityKind, Seq<char>)>,
            Seq<char>,
        >(all_matches(objects)),
{
    if let Some(d) = direct {
        if d.0.len() == 0 {
            assert(d.0 =~= Seq::empty());
        }
    }
    if all_matches(objects).len() == 0 {
        assert(all_matches(objects) =~= Seq::empty());
        assert forall|i: int| 0 <= i < objects.len() implies (#[trigger] objects[i]).0.len() == 0 by {
            lemma_all_matches_in_turn(objects.take(i), objects.skip(i));
            assert(objects.take(i) + objects.skip(i) =~= objects);
            lemma_all_matches_in_turn(objects.skip(i).take(1), objects.skip(i).skip(1));
            assert(objects.skip(i).take(1) + objects.skip(i).skip(1) =~= objects.skip(i));
            let one = objects.skip(i).take(1);
            assert(one.drop_last() =~= Seq::empty());
            assert(one.last() == objects[i]);
            assert(all_matches(one.drop_last()).len() == 0);
        }
    }
}

/// The matches of two lists of values are those of the first and then those of the second.
pub proof fn lemma_all_matches_in_turn(
    first: Seq<(Seq<(AnonymiseEntityKind, Seq<char>)>, bool)>,
    later: Seq<(Seq<(AnonymiseEntityKind, Seq<char>)>, bool)>,
)
    ensures
        all_matches(first + later) == all_matches(first) + all_matches(later),
    decreases later.len(),
{
    if later.len() == 0 {
        assert(first + later =~= first);
        assert(all_matches(first) + all_matches(later) =~= all_matches(first));
    } else {
        lemma_all_matches_in_turn(first, later.drop_last());
        assert((first + later).drop_last() =~= first + later.drop_last());
        assert((first + later).last() == later.last());
        assert(all_matches(first + later) =~= all_matches(first) + all_matches(later));
    }
}

/// When an answer that reports no match is understood: as one that found nothing where it is a word
/// for nothing, where its JSON says so, or where it holds no JSON that does and `none` or `no match`
/// stands somewhere in it; every other such answer is refused, with its beginning quoted.
pub proof fn lemma_answer_without_matches(
    raw: Seq<char>,
    direct: Option<(Seq<(AnonymiseEntityKind, Seq<char>)>, bool)>,
    objects: Seq<(Seq<(AnonymiseEntityKind, Seq<char>)>, bool)>,
)
    requires
        direct matches Some(d) ==> d.0.len() == 0,
        forall|i: int| 0 <= i < objects.len() ==> (#[trigger] objects[i]).0.len() == 0,
    ensures
        ({
            let word = bare_word(raw);
            let says_so = (direct matches Some(d) && d.1) || (exists|i: int|
                0 <= i < objects.len() && (#[trigger] objects[i]).1);
            let understood = word == "noentities"@ || word == "empty"@ || occurs_in("none"@, word)
                || occurs_in("nomatch"@, word) || says_so;
            match answered(raw, direct, objects, Seq::empty()) {
                Ok(list) => understood && list.len() == 0,
                Err(why) => !understood && exists|lead: Seq<char>| why == #[trigger] (lead + snippet(raw)),
            }
        }),
{
    lemma_no_matches(objects);
    reveal_strlit("none");
    reveal_strlit("nomatch");
    reveal_strlit("nomatches");
    let word = bare_word(raw);
    assert("nomatches"@.subrange(0, 7) =~= "nomatch"@);
    if word == "none"@ {
        assert(word.subrange(0, 4) =~= "none"@);
        assert(stands_at(word, "none"@, 0));
    }
    if word == "nomatch"@ {
        assert(word.subrange(0, 7) =~= "nomatch"@);
        assert(stands_at(word, "nomatch"@, 0));
    }
    if word == "nomatches"@ {
        assert(stands_at(word, "nomatch"@, 0));
    }
}

/// A value in quotes, with white space around them, is what stands between the quotes.
pub proof fn lemma_bare_value(core: Seq<char>)
    requires
        core.len() > 0,
        !CharClass::White.has(core[0]) && !CharClass::White.has(core.last()),
        core[0] != '"' && core[0] != '\'' && core.last() != '"' && core.last() != '\'',
    ensures
        bare_value(core) == core,
        bare_value(seq![' '] + core + seq![' ']) == core,
        bare_value(seq!['"'] + core + seq!['"']) == core,
        bare_value(seq!['\''] + core + seq!['\'']) == core,
{
    let none = Seq::<char>::empty();
    assert(none + core + none =~= core);
    lemma_trimmed(none, core, none, CharClass::White);
    lemma_trimmed(none, core, none, CharClass::DoubleQuote);
    lemma_trimmed(none, core, none, CharClass::Apostrophe);
    lemma_trimmed(seq![' '], core, seq![' '], CharClass::White);
    let double = seq!['"'] + core + seq!['"'];
    assert(none + double + none =~= double);
    lemma_trimmed(none, double, none, CharClass::White);
    lemma_trimmed(seq!['"'], core, seq!['"'], CharClass::DoubleQuote);
    let single = seq!['\''] + core + seq!['\''];
    assert(none + single + none =~= single);
    lemma_trimmed(none, single, none, CharClass::White);
    lemma_trimmed(none, single, none, CharClass::DoubleQuote);
    lemma_trimmed(seq!['\''], core, seq!['\''], CharClass::Apostrophe);
}

/// What running text gives: each pair of a kind and a value that is found gives one match, in the
/// order in which they stand; a pair whose kind is unknown or whose value is empty gives none and
/// takes nothing from the others.
pub proof fn lemma_captured_in_turn(
    raw: Seq<char>,
    first: Seq<Seq<Option<(usize, usize)>>>,
    groups: Seq<Option<(usize, usize)>>,
)
    ensures
        ({
            let value = bare_value(group_of(raw, groups, 2));
            let all = captured_matches(raw, first.push(groups));
            let before = captured_matches(raw, first);
            match kind_named(kind_token(group_of(raw, groups, 1))) {
                Some(kind) => {
                    &&& value.len() > 0 ==> all == before + seq![(kind, value)]
                    &&& value.len() == 0 ==> all == before
                },
                None => all == before,
            }
        }),
{
    assert(first.push(groups).drop_last() =~= first);
    assert(first.push(groups).last() == groups);
}

/// A text in a list of matches is split at its first colon: what stands before it names the kind, and
/// what stands behind it, without the white space around it, is the value.
pub proof fn lemma_item_of_text(token: Seq<char>, rest: Seq<char>)
    requires
        !token.contains(':'),
    ensures
        item_match(JsonView::Str(token)) is None,
        match kind_named(kind_token(token)) {
            Some(kind) => item_match(JsonView::Str(token.push(':') + rest)) == Some(
                (kind, stripped(rest)),
            ),
            None => item_match(JsonView::Str(token.push(':') + rest)) is None,
        },
{
    let t = token.push(':') + rest;
    lemma_first_pos(t, ':');
    lemma_first_pos(token, ':');
    let n = first_pos(t, ':') as int;
    assert(t[token.len() as int] == ':');
    if n < token.len() {
        assert(token[n] == t[n]);
        assert(token.contains(':'));
    }
    let m = first_pos(token, ':') as int;
    if m < token.len() {
        assert(token.contains(token[m]));
    }
    assert(t.take(n) =~= token);
    assert(t.skip(n + 1) =~= rest);
}

/// An object in a list of matches names its kind under `type`, else under `kind`, else under
/// `category`, and its value under `value`, else under `text`, else under `match`.
pub proof fn lemma_item_of_object(
    entries: Seq<(Seq<char>, JsonView)>,
    kind: AnonymiseEntityKind,
    named: Seq<char>,
    value: Seq<char>,
)
    requires
        kind_named(kind_token(named)) == Some(kind),
        ({
            let a = lookup(entries, "type"@);
            let b = lookup(entries, "kind"@);
            let c = lookup(entries, "category"@);
            let found = Some(JsonView::Str(named));
            a == found || (a is None && b == found) || (a is None && b is None && c == found)
        }),
        ({
            let a = lookup(entries, "value"@);
            let b = lookup(entries, "text"@);
            let c = lookup(entries, "match"@);
            let found = Some(JsonView::Str(value));
            a == found || (a is None && b == found) || (a is None && b is None && c == found)
        }),
    ensures
        item_match(JsonView::Object(entries)) == Some((kind, value)),
{
    let kinds = seq!["type", "kind", "category"];
    let values = seq!["value", "text", "match"];
    let i = if lookup(entries, "type"@) is Some {
        0int
    } else if lookup(entries, "kind"@) is Some {
        1
    } else {
        2
    };
    let j = if lookup(entries, "value"@) is Some {
        0int
    } else if lookup(entries, "text"@) is Some {
        1
    } else {
        2
    };
    lemma_lookup_any(entries, kinds, i);
    lemma_lookup_any(entries, values, j);
}

/// Lists of items, of entries and of typed items give their matches in the order in which they stand:
/// what a longer list gives is what its beginning gives and then what is added.
pub proof fn lemma_structured_in_turn(
    items: Seq<JsonView>,
    item: JsonView,
    entries: Seq<(Seq<char>, JsonView)>,
    key: Seq<char>,
    value: JsonView,
)
    ensures
        listed_matches(items.push(item)) == listed_matches(items) + match item_match(item) {
            Some(m) => seq![m],
            None => Seq::empty(),
        },
        typed_matches(items.push(item)) == typed_matches(items) + match typed_match(item) {
            Some(m) => seq![m],
            None => Seq::empty(),
        },
        lowered(key) == lowered("matches"@) || kind_named(kind_token(key)) is None
            ==> keyed_matches(entries.push((key, value))) == keyed_matches(entries),
        lowered(key) != lowered("matches"@) ==> (kind_named(kind_token(key)) matches Some(kind)
            ==> keyed_matches(entries.push((key, value))) == keyed_matches(entries) + collected(
            kind,
            value,
        )),
{
    assert(items.push(item).drop_last() =~= items);
    assert(items.push(item).last() == item);
    assert(entries.push((key, value)).drop_last() =~= entries);
    assert(entries.push((key, value)).last() == (key, value));
}

/// What stands under the name of a kind: a text is a value of the kind, an array has a value for each
/// text in it, in order, and what is neither a text nor holds one has none.
pub proof fn lemma_collected(
    kind: AnonymiseEntityKind,
    text: Seq<char>,
    items: Seq<JsonView>,
    item: JsonView,
)
    ensures
        collected(kind, JsonView::Str(text)) == seq![(kind, text)],
        collected(kind, JsonView::Array(items.push(item))) == collected(
            kind,
            JsonView::Array(items),
        ) + collected(kind, item),
        collected(kind, JsonView::Array(Seq::empty())).len() == 0,
        collected(kind, JsonView::Null).len() == 0,
        collected(kind, JsonView::Number).len() == 0,
{
    lemma_collected_prefix(kind, items, item, items.len());
    assert(items.push(item)[items.len() as int] == item);
}

/// What the first items give does not depend on what is added behind them.
proof fn lemma_collected_prefix(
    kind: AnonymiseEntityKind,
    items: Seq<JsonView>,
    item: JsonView,
    n: nat,
)
    requires
        n <= items.len(),
    ensures
        collected_upto(kind, items.push(item), n) == collected_upto(kind, items, n),
    decreases n,
{
    if n > 0 {
        lemma_collected_prefix(kind, items, item, (n - 1) as nat);
        assert(items.push(item)[n - 1] == items[n - 1]);
    }
}

/// What an answer holds: where it wraps a text that reports matches, these and no others; where the
/// wrapped text is a word for nothing, none; else, what it lists under `matches` comes before what it
/// holds under the names of kinds.
pub proof fn lemma_value_matches(entries: Seq<(Seq<char>, JsonView)>)
    ensures
        ({
            let v = JsonView::Object(entries);
            &&& wrapped_text(v) matches Some(t) ==> key_value_matches(t).len() > 0 ==> value_matches(v)
                == key_value_matches(t)
            &&& wrapped_text(v) matches Some(t) ==> key_value_matches(t).len() == 0 && (bare_word(t)
                == "none"@ || bare_word(t) == "nomatches"@) ==> value_matches(v).len() == 0
            &&& wrapped_text(v) is None ==> (lookup(entries, "matches"@) matches Some(
                JsonView::Array(items),
            ) ==> value_matches(v) == listed_matches(items) + keyed_matches(entries))
            &&& wrapped_text(v) is None && lookup(entries, "matches"@) is None ==> value_matches(v)
                == keyed_matches(entries)
        }),
{
    assert(Seq::<(AnonymiseEntityKind, Seq<char>)>::empty() + keyed_matches(entries)
        =~= keyed_matches(entries));
}

/// An object that names a kind with something under it does not say that nothing was found, unless its
/// list of matches is empty or the text that it wraps says so; one in which everything that stands
/// under the name of a kind is empty does, and so does an object without entries. A text, a list and
/// a number never do.
pub proof fn lemma_says_nothing_found(entries: Seq<(Seq<char>, JsonView)>, i: int)
    requires
        0 <= i < entries.len(),
        kind_named(kind_token(entries[i].0)) is Some,
        !(lookup(entries, "matches"@) matches Some(JsonView::Array(items)) && items.len() == 0),
        lookup(entries, "anonymisation_extractions"@) is None,
        lookup(entries, "anonymization_extractions"@) is None,
        lookup(entries, "extractions"@) is None,
    ensures
        says_nothing_found(JsonView::Object(Seq::empty())),
        entries[i].1 matches JsonView::Str(t) ==> bare_word(t).len() > 0 && bare_word(t) != "none"@
            ==> !says_nothing_found(JsonView::Object(entries)),
        entries[i].1 matches JsonView::Array(items) ==> items.len() > 0 ==> !says_nothing_found(
            JsonView::Object(entries),
        ),
        (forall|k: int|
            0 <= k < entries.len() ==> (#[trigger] entries[k]).1 is Null || (
            entries[k].1 matches JsonView::Array(items) && items.len() == 0))
            ==> says_nothing_found(JsonView::Object(entries)),
        forall|v: JsonView| !(v is Object) ==> !#[trigger] says_nothing_found(v),
{
    let keys = seq!["anonymisation_extractions", "anonymization_extractions", "extractions"];
    let two = keys.drop_first();
    let one = two.drop_first();
    assert(two[0] == "anonymization_extractions");
    assert(one[0] == "extractions");
    assert(lookup_any(entries, one.drop_first()) is None);
    assert(lookup_any(entries, one) is None);
    assert(lookup_any(entries, two) is None);
    assert(lookup_any(entries, keys) is None);
    assert(is_kind_entry(entries[i]));
}

/// What holds neither a brace nor a quote moves the search on and changes nothing.
proof fn lemma_scan_of_plain(s: Seq<char>, plain: Seq<char>)
    requires
        !brace_scan(s).in_string,
        forall|i: int|
            0 <= i < plain.len() ==> (#[trigger] plain[i]) != '{' && plain[i] != '}' && plain[i]
                != '"',
    ensures
        brace_scan(s + plain) == brace_scan(s),
    decreases plain.len(),
{
    if plain.len() == 0 {
        assert(s + plain =~= s);
    } else {
        let fewer = plain.drop_last();
        assert forall|i: int| 0 <= i < fewer.len() implies (#[trigger] fewer[i]) != '{' && fewer[i]
            != '}' && fewer[i] != '"' by {
            assert(fewer[i] == plain[i]);
        }
        lemma_scan_of_plain(s, fewer);
        assert((s + plain).drop_last() =~= s + fewer);
        assert((s + plain).last() == plain[plain.len() - 1]);
    }
}

/// What is quoted moves the search on and changes nothing, whatever braces it holds.
proof fn lemma_scan_of_quoted(s: Seq<char>, quoted: Seq<char>)
    requires
        brace_scan(s).in_string,
        !brace_scan(s).escaped,
        forall|i: int|
            0 <= i < quoted.len() ==> (#[trigger] quoted[i]) != '"' && quoted[i] != '\\',
    ensures
        brace_scan(s + quoted) == brace_scan(s),
    decreases quoted.len(),
{
    if quoted.len() == 0 {
        assert(s + quoted =~= s);
    } else {
        let fewer = quoted.drop_last();
        assert forall|i: int| 0 <= i < fewer.len() implies (#[trigger] fewer[i]) != '"' && fewer[i]
            != '\\' by {
            assert(fewer[i] == quoted[i]);
        }
        lemma_scan_of_quoted(s, fewer);
        assert((s + quoted).drop_last() =~= s + fewer);
        assert((s + quoted).last() == quoted[quoted.len() - 1]);
    }
}

/// An object in running text is found as it stands, from its opening to its closing brace, with what
/// it quotes: a brace inside quotes neither opens nor closes it.
pub proof fn lemma_object_is_found(
    lead: Seq<char>,
    head: Seq<char>,
    quoted: Seq<char>,
    tail: Seq<char>,
    rest: Seq<char>,
)
    requires
        forall|i: int|
            0 <= i < lead.len() ==> (#[trigger] lead[i]) != '{' && lead[i] != '}' && lead[i] != '"',
        forall|i: int|
            0 <= i < head.len() ==> (#[trigger] head[i]) != '{' && head[i] != '}' && head[i] != '"',
        forall|i: int| 0 <= i < quoted.len() ==> (#[trigger] quoted[i]) != '"' && quoted[i] != '\\',
        forall|i: int|
            0 <= i < tail.len() ==> (#[trigger] tail[i]) != '{' && tail[i] != '}' && tail[i] != '"',
        forall|i: int|
            0 <= i < rest.len() ==> (#[trigger] rest[i]) != '{' && rest[i] != '}' && rest[i] != '"',
    ensures
        ({
            let object = seq!['{'] + head + seq!['"'] + quoted + seq!['"'] + tail + seq!['}'];
            braced_objects(lead + object + rest) == seq![object]
        }),
{
    let none = Seq::<char>::empty();
    lemma_scan_of_plain(none, lead);
    assert(none + lead =~= lead);
    let a = lead.push('{');
    assert(a.drop_last() =~= lead);
    lemma_scan_of_plain(a, head);
    let b = (a + head).push('"');
    assert(b.drop_last() =~= a + head);
    lemma_scan_of_quoted(b, quoted);
    let c = (b + quoted).push('"');
    assert(c.drop_last() =~= b + quoted);
    lemma_scan_of_plain(c, tail);
    let d = (c + tail).push('}');
    assert(d.drop_last() =~= c + tail);
    lemma_scan_of_plain(d, rest);
    let object = seq!['{'] + head + seq!['"'] + quoted + seq!['"'] + tail + seq!['}'];
    let s = lead + object + rest;
    assert(s =~= d + rest);
    assert(brace_scan(d).found =~= seq![(lead.len() as int, d.len() as int)]);
    assert(s.subrange(lead.len() as int, d.len() as int) =~= object);
    assert(braced_objects(s) =~= seq![object]);
}

/// Of the objects in an answer those are read that are JSON, in the order in which they stand; what
/// is no JSON is passed over.
pub proof fn lemma_objects_in_turn(texts: Seq<Seq<char>>, text: Seq<char>)
    ensures
        json_parsed(text) is None ==> json_texts(texts.push(text)) == json_texts(texts)
            && readings(texts.push(text)) == readings(texts),
        json_parsed(text) matches Some(v) ==> json_texts(texts.push(text)) == json_texts(texts).push(
            text,
        ) && readings(texts.push(text)) == readings(texts).push(
            (value_matches(v), says_nothing_found(v)),
        ),
{
    assert(texts.push(text).drop_last() =~= texts);
    assert(texts.push(text).last() == text);
}

/// What is quoted of an answer: its first lines, one bar apart, as far as 320 characters go; all of
/// it where it has at most six lines and these are short enough.
pub proof fn lemma_snippet(raw: Seq<char>)
    ensures
        snippet(raw).len() <= 320,
        lines(raw).len() <= 6 ==> snippet(raw).is_prefix_of(joined(lines(raw), " | "@)),
        lines(raw).len() > 6 ==> snippet(raw).is_prefix_of(joined(lines(raw).take(6), " | "@)),
        lines(raw).len() <= 6 && joined(lines(raw), " | "@).len() <= 320 ==> snippet(raw) == joined(
            lines(raw),
            " | "@,
        ),
        lines(raw).len() <= 6 && joined(lines(raw), " | "@).len() > 320 ==> snippet(raw).len() == 320,
{
}

} // verus!
