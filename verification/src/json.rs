//! JSON values as the library reads them. The `serde_json` crate parses them.
use crate::text::{byte_len, byte_range, cat2, char_range, same_text, slice_bytes, utf8_len};
use serde_json::Value;
use vstd::prelude::*;
use vstd::string::*;
use vstd::utf8::*;

verus! {

/// The value type of the `serde_json` crate.
#[verifier::external_type_specification]
#[verifier::external_body]
pub struct ExValue(serde_json::Value);

/// The error with which the `serde_json` crate refuses a text.
#[verifier::external_type_specification]
#[verifier::external_body]
pub struct ExJsonError(serde_json::Error);

/// What a JSON value holds. Nothing here depends on which number a number is.
pub enum JsonView {
    Null,
    Bool(bool),
    Number,
    Str(Seq<char>),
    Array(Seq<JsonView>),
    Object(Seq<(Seq<char>, JsonView)>),
}

/// A JSON value. An object keeps its entries in the order in which they are walked.
#[derive(Debug)]
pub enum Json {
    Null,
    Bool(bool),
    Number,
    Str(String),
    Array(Vec<Json>),
    Object(Vec<(String, Json)>),
}

impl Json {
    /// What the value holds.
    pub open spec fn view(self) -> JsonView
        decreases self,
    {
        match self {
            Json::Null => JsonView::Null,
            Json::Bool(b) => JsonView::Bool(b),
            Json::Number => JsonView::Number,
            Json::Str(s) => JsonView::Str(s@),
            Json::Array(items) => JsonView::Array(
                Seq::new(
                    items@.len(),
                    |i: int|
                        if 0 <= i < items@.len() {
                            items@[i].view()
                        } else {
                            JsonView::Null
                        },
                ),
            ),
            Json::Object(entries) => JsonView::Object(
                Seq::new(
                    entries@.len(),
                    |i: int|
                        if 0 <= i < entries@.len() {
                            (entries@[i].0@, entries@[i].1.view())
                        } else {
                            (Seq::empty(), JsonView::Null)
                        },
                ),
            ),
        }
    }
}

/// What a value of the `serde_json` crate holds. The entries of an object are in the order in which
/// the crate walks them.
pub uninterp spec fn json_view(v: Value) -> JsonView;

/// What `serde_json::from_str` makes of a text; `None` where it refuses it.
pub uninterp spec fn json_parsed(text: Seq<char>) -> Option<JsonView>;

/// The outermost layer of a value of the `serde_json` crate.
pub enum JsonNode<'a> {
    Null,
    Bool(bool),
    Number,
    Str(&'a String),
    Array(&'a Vec<Value>),
    Object(Vec<(&'a String, &'a Value)>),
}

impl<'a> JsonNode<'a> {
    /// What the value holds.
    pub open spec fn view(self) -> JsonView {
        match self {
            JsonNode::Null => JsonView::Null,
            JsonNode::Bool(b) => JsonView::Bool(b),
            JsonNode::Number => JsonView::Number,
            JsonNode::Str(s) => JsonView::Str(s@),
            JsonNode::Array(items) => JsonView::Array(
                Seq::new(items@.len(), |i: int| json_view(items@[i])),
            ),
            JsonNode::Object(entries) => JsonView::Object(
                Seq::new(
                    entries@.len(),
                    |i: int| (entries@[i].0@, json_view(*entries@[i].1)),
                ),
            ),
        }
    }
}

/// Tells the variants of `serde_json::Value` apart and hands out what the variant holds; an object
/// is walked with `serde_json::Map::iter`.
#[verifier::external_body]
fn open_value<'a>(v: &'a Value) -> (r: JsonNode<'a>)
    ensures
        r.view() == json_view(*v),
{
    match v {
        Value::Null => JsonNode::Null,
        Value::Bool(b) => JsonNode::Bool(*b),
        Value::Number(_) => JsonNode::Number,
        Value::String(s) => JsonNode::Str(s),
        Value::Array(items) => JsonNode::Array(items),
        Value::Object(map) => JsonNode::Object(map.iter().collect()),
    }
}

/// Calls `serde_json::from_str`. What it makes of a text is a function of the text alone.
#[verifier::external_body]
fn value_from_str(text: &str) -> (r: Result<Value, serde_json::Error>)
    ensures
        match r {
            Ok(v) => json_parsed(text@) == Some(json_view(v)),
            Err(_) => json_parsed(text@) is None,
        },
{
    serde_json::from_str(text)
}

/// What `serde_json::to_string_pretty` writes of a value; `None` where it fails.
pub uninterp spec fn json_pretty(v: Value) -> Option<Seq<char>>;

/// Calls `serde_json::to_string_pretty`. What it writes is a function of the value alone.
#[verifier::external_body]
fn pretty_from_value(v: &Value) -> (r: Result<String, serde_json::Error>)
    ensures
        match r {
            Ok(text) => json_pretty(*v) == Some(text@),
            Err(_) => json_pretty(*v) is None,
        },
{
    serde_json::to_string_pretty(v)
}

/// The longest answer, in bytes, that is shown whole.
pub const SHOWN_BYTES: usize = 16_000;

/// An answer as the log shows it: cut behind the first bytes where it is long; `None` where the cut
/// would fall into a character.
pub open spec fn shortened(text: Seq<char>) -> Option<Seq<char>> {
    if utf8_len(text) <= SHOWN_BYTES {
        Some(text)
    } else if char_range(text, 0, SHOWN_BYTES as int) {
        Some(byte_range(text, 0, SHOWN_BYTES as int) + "\n... [truncated]"@)
    } else {
        None
    }
}

/// An answer as the log shows it: cut behind the first bytes where it is long; `None` where the cut
/// would fall into a character.
pub fn shorten(text: &str) -> (r: Option<String>)
    ensures
        match r {
            Some(t) => shortened(text@) == Some(t@),
            None => shortened(text@) is None,
        },
{
    if byte_len(text) <= SHOWN_BYTES {
        return Some(text.to_owned());
    }
    proof {
        encode_utf8_valid_utf8(text@);
        is_char_boundary_start_end_of_seq(encode_utf8(text@));
    }
    if !text.is_char_boundary(SHOWN_BYTES) {
        return None;
    }
    Some(cat2(slice_bytes(text, 0, SHOWN_BYTES), "\n... [truncated]"))
}

/// An answer of the engine as the log shows it.
pub open spec fn shown_answer(v: Value) -> Option<Seq<char>> {
    match json_pretty(v) {
        Some(text) => shortened(text),
        None => None,
    }
}

/// An answer of the engine as the log shows it; `None` where it cannot be written or cut.
pub fn show_answer(v: &Value) -> (r: Option<String>)
    ensures
        match r {
            Some(t) => shown_answer(*v) == Some(t@),
            None => shown_answer(*v) is None,
        },
{
    match pretty_from_value(v) {
        Ok(text) => shorten(text.as_str()),
        Err(_) => None,
    }
}

/// Whether the log can show an answer of the engine: a long one can be cut between two characters.
pub open spec fn is_showable(v: Value) -> bool {
    match json_pretty(v) {
        Some(text) => shortened(text) is Some,
        None => true,
    }
}

/// Whether the log can show an answer of the engine: a long one can be cut between two characters.
pub fn can_show(v: &Value) -> (r: bool)
    ensures
        r == is_showable(*v),
{
    match pretty_from_value(v) {
        Ok(text) => shorten(text.as_str()).is_some(),
        Err(_) => true,
    }
}

/// The path of the output file that an answer of the engine names.
pub open spec fn answered_path(v: JsonView) -> Option<Seq<char>> {
    match v {
        JsonView::Object(entries) => match lookup(entries, "output"@) {
            Some(JsonView::Object(inner)) => match lookup(inner, "path"@) {
                Some(JsonView::Str(text)) => Some(text),
                _ => None,
            },
            _ => None,
        },
        _ => None,
    }
}

/// The path of the output file that an answer names.
pub fn output_path_in(v: &Json) -> (r: Option<String>)
    ensures
        match r {
            Some(t) => answered_path(v.view()) == Some(t@),
            None => answered_path(v.view()) is None,
        },
{
    proof {
        lemma_json_view(*v);
    }
    if let Json::Object(entries) = v {
        if let Some(output) = find_entry(entries, "output") {
            proof {
                lemma_json_view(*output);
            }
            if let Json::Object(inner) = output {
                if let Some(path) = find_entry(inner, "path") {
                    if let Json::Str(text) = path {
                        return Some(text.clone());
                    }
                }
            }
        }
    }
    None
}

/// The path of the output file that an answer of the engine names.
pub fn output_path_from_answer(v: &Value) -> (r: Option<String>)
    ensures
        match r {
            Some(t) => answered_path(json_view(*v)) == Some(t@),
            None => answered_path(json_view(*v)) is None,
        },
{
    let own: Json = from_value(v);
    output_path_in(&own)
}

/// A value of the `serde_json` crate as a value of this library.
fn from_value(v: &Value) -> (r: Json)
    ensures
        r.view() == json_view(*v),
    decreases json_view(*v),
{
    match open_value(v) {
        JsonNode::Null => Json::Null,
        JsonNode::Bool(b) => Json::Bool(b),
        JsonNode::Number => Json::Number,
        JsonNode::Str(s) => Json::Str(s.clone()),
        JsonNode::Array(items) => {
            let ghost all = json_view(*v)->Array_0;
            let mut out: Vec<Json> = Vec::new();
            let mut i: usize = 0;
            while i < items.len()
                invariant
                    i <= items@.len(),
                    json_view(*v) == JsonView::Array(all),
                    all.len() == items@.len(),
                    forall|k: int| 0 <= k < all.len() ==> all[k] == json_view(#[trigger] items@[k]),
                    out@.len() == i,
                    forall|k: int| 0 <= k < i ==> (#[trigger] out@[k]).view() == all[k],
                decreases items@.len() - i,
            {
                assert(decreases_to!(json_view(*v) => json_view(*v)->Array_0));
                assert(decreases_to!(all => all[i as int]));
                out.push(from_value(&items[i]));
                i += 1;
            }
            let r: Json = Json::Array(out);
            assert(r.view()->Array_0 =~= all);
            r
        },
        JsonNode::Object(entries) => {
            let ghost all = json_view(*v)->Object_0;
            let mut out: Vec<(String, Json)> = Vec::new();
            let mut i: usize = 0;
            while i < entries.len()
                invariant
                    i <= entries@.len(),
                    json_view(*v) == JsonView::Object(all),
                    all.len() == entries@.len(),
                    forall|k: int|
                        0 <= k < all.len() ==> all[k] == (
                            (#[trigger] entries@[k]).0@,
                            json_view(*entries@[k].1),
                        ),
                    out@.len() == i,
                    forall|k: int|
                        0 <= k < i ==> ((#[trigger] out@[k]).0@, out@[k].1.view()) == all[k],
                decreases entries@.len() - i,
            {
                assert(decreases_to!(json_view(*v) => json_view(*v)->Object_0));
                assert(decreases_to!(all => all[i as int]));
                assert(decreases_to!(all[i as int] => all[i as int].1));
                let key: String = entries[i].0.clone();
                let val: Json = from_value(entries[i].1);
                out.push((key, val));
                i += 1;
            }
            let r: Json = Json::Object(out);
            assert(r.view()->Object_0 =~= all);
            r
        },
    }
}

/// The JSON value that `text` spells, if it spells one.
pub fn parse_json(text: &str) -> (r: Option<Json>)
    ensures
        match r {
            Some(j) => json_parsed(text@) == Some(j.view()),
            None => json_parsed(text@) is None,
        },
{
    match value_from_str(text) {
        Ok(v) => Some(from_value(&v)),
        Err(_) => None,
    }
}

/// The value that stands under `key` among `entries`.
pub open spec fn lookup(entries: Seq<(Seq<char>, JsonView)>, key: Seq<char>) -> Option<JsonView>
    decreases entries.len(),
{
    if entries.len() == 0 {
        None
    } else if entries[0].0 == key {
        Some(entries[0].1)
    } else {
        lookup(entries.drop_first(), key)
    }
}

/// The value that stands under the first of `keys` that is there.
pub open spec fn lookup_any(
    entries: Seq<(Seq<char>, JsonView)>,
    keys: Seq<&'static str>,
) -> Option<JsonView>
    decreases keys.len(),
{
    if keys.len() == 0 {
        None
    } else {
        match lookup(entries, keys[0]@) {
            Some(v) => Some(v),
            None => lookup_any(entries, keys.drop_first()),
        }
    }
}

/// The views of the entries of an object.
pub open spec fn entry_views(entries: Seq<(String, Json)>) -> Seq<(Seq<char>, JsonView)> {
    Seq::new(entries.len(), |i: int| (entries[i].0@, entries[i].1.view()))
}

/// The views of the items of an array.
pub open spec fn item_views(items: Seq<Json>) -> Seq<JsonView> {
    Seq::new(items.len(), |i: int| items[i].view())
}

/// An object holds its entries, an array its items.
pub proof fn lemma_json_view(v: Json)
    ensures
        v matches Json::Object(entries) ==> v.view() == JsonView::Object(entry_views(entries@)),
        v matches Json::Array(items) ==> v.view() == JsonView::Array(item_views(items@)),
{
    if let Json::Object(entries) = v {
        assert(v.view()->Object_0 =~= entry_views(entries@));
    }
    if let Json::Array(items) = v {
        assert(v.view()->Array_0 =~= item_views(items@));
    }
}

/// The value that stands under `key` among `entries`.
pub fn find_entry<'a>(entries: &'a Vec<(String, Json)>, key: &str) -> (r: Option<&'a Json>)
    ensures
        match r {
            Some(v) => lookup(entry_views(entries@), key@) == Some(v.view()),
            None => lookup(entry_views(entries@), key@) is None,
        },
{
    let ghost all = entry_views(entries@);
    let mut i: usize = 0;
    assert(all.skip(0) =~= all);
    while i < entries.len()
        invariant
            i <= entries@.len(),
            all == entry_views(entries@),
            lookup(all, key@) == lookup(all.skip(i as int), key@),
        decreases entries@.len() - i,
    {
        assert(all.skip(i as int)[0] == all[i as int]);
        if same_text(entries[i].0.as_str(), key) {
            return Some(&entries[i].1);
        }
        assert(all.skip(i as int).drop_first() =~= all.skip(i + 1));
        i += 1;
    }
    None
}

/// The value that stands under the first of `keys` that is there.
pub fn find_any<'a>(entries: &'a Vec<(String, Json)>, keys: &Vec<&'static str>) -> (r: Option<
    &'a Json,
>)
    ensures
        match r {
            Some(v) => lookup_any(entry_views(entries@), keys@) == Some(v.view()),
            None => lookup_any(entry_views(entries@), keys@) is None,
        },
{
    let ghost all = entry_views(entries@);
    let mut i: usize = 0;
    assert(keys@.skip(0) =~= keys@);
    while i < keys.len()
        invariant
            i <= keys@.len(),
            all == entry_views(entries@),
            lookup_any(all, keys@) == lookup_any(all, keys@.skip(i as int)),
        decreases keys@.len() - i,
    {
        assert(keys@.skip(i as int)[0] == keys@[i as int]);
        match find_entry(entries, keys[i]) {
            Some(v) => {
                return Some(v);
            },
            None => {},
        }
        assert(keys@.skip(i as int).drop_first() =~= keys@.skip(i + 1));
        i += 1;
    }
    None
}

/// The text of a value that is a text.
pub open spec fn text_in(v: Option<JsonView>) -> Option<Seq<char>> {
    match v {
        Some(JsonView::Str(s)) => Some(s),
        _ => None,
    }
}

/// The text of a value that is a text.
pub fn text_of<'a>(v: Option<&'a Json>) -> (r: Option<&'a String>)
    ensures
        match v {
            Some(j) => match r {
                Some(s) => text_in(Some(j.view())) == Some(s@),
                None => text_in(Some(j.view())) is None,
            },
            None => r is None,
        },
{
    match v {
        Some(Json::Str(s)) => Some(s),
        _ => None,
    }
}

/// What stands under a key is the value of the first entry that has it.
pub proof fn lemma_lookup(entries: Seq<(Seq<char>, JsonView)>, key: Seq<char>, i: int)
    requires
        0 <= i < entries.len(),
        entries[i].0 == key,
        forall|k: int| 0 <= k < i ==> (#[trigger] entries[k]).0 != key,
    ensures
        lookup(entries, key) == Some(entries[i].1),
    decreases entries.len(),
{
    if i > 0 {
        let rest = entries.drop_first();
        assert(entries[0].0 != key);
        assert forall|k: int| 0 <= k < i - 1 implies (#[trigger] rest[k]).0 != key by {
            assert(rest[k] == entries[k + 1]);
        }
        assert(rest[i - 1] == entries[i]);
        lemma_lookup(rest, key, i - 1);
    }
}

/// Nothing stands under a key that no entry has.
pub proof fn lemma_no_lookup(entries: Seq<(Seq<char>, JsonView)>, key: Seq<char>)
    requires
        forall|k: int| 0 <= k < entries.len() ==> (#[trigger] entries[k]).0 != key,
    ensures
        lookup(entries, key) is None,
    decreases entries.len(),
{
    if entries.len() > 0 {
        let rest = entries.drop_first();
        assert(entries[0].0 != key);
        assert forall|k: int| 0 <= k < rest.len() implies (#[trigger] rest[k]).0 != key by {
            assert(rest[k] == entries[k + 1]);
        }
        lemma_no_lookup(rest, key);
    }
}

/// Of several keys the first counts that is there.
pub proof fn lemma_lookup_any(
    entries: Seq<(Seq<char>, JsonView)>,
    keys: Seq<&'static str>,
    i: int,
)
    requires
        0 <= i < keys.len(),
        lookup(entries, keys[i]@) is Some,
        forall|k: int| 0 <= k < i ==> lookup(entries, (#[trigger] keys[k])@) is None,
    ensures
        lookup_any(entries, keys) == lookup(entries, keys[i]@),
    decreases keys.len(),
{
    if i > 0 {
        let rest = keys.drop_first();
        assert(lookup(entries, keys[0]@) is None);
        assert forall|k: int| 0 <= k < i - 1 implies lookup(
            entries,
            (#[trigger] rest[k])@,
        ) is None by {
            assert(rest[k] == keys[k + 1]);
        }
        assert(rest[i - 1] == keys[i]);
        lemma_lookup_any(entries, rest, i - 1);
    }
}

/// The output file that an answer names: what stands as a text under `path` in the object under
/// `output`, and nothing that stands elsewhere.
pub proof fn lemma_answered_path(
    entries: Seq<(Seq<char>, JsonView)>,
    i: int,
    inner: Seq<(Seq<char>, JsonView)>,
    k: int,
    text: Seq<char>,
)
    requires
        0 <= i < entries.len(),
        entries[i] == ("output"@, JsonView::Object(inner)),
        forall|j: int| 0 <= j < i ==> (#[trigger] entries[j]).0 != "output"@,
        0 <= k < inner.len(),
        inner[k] == ("path"@, JsonView::Str(text)),
        forall|j: int| 0 <= j < k ==> (#[trigger] inner[j]).0 != "path"@,
    ensures
        answered_path(JsonView::Object(entries)) == Some(text),
        answered_path(JsonView::Object(inner)) is None || lookup(inner, "output"@) is Some,
{
    lemma_lookup(entries, "output"@, i);
    lemma_lookup(inner, "path"@, k);
}

/// What the log shows of an answer: all of it up to 16000 bytes; of a longer one its beginning of that
/// many bytes and a mark that it was cut.
pub proof fn lemma_shortened(text: Seq<char>)
    ensures
        utf8_len(text) <= 16_000 ==> shortened(text) == Some(text),
        utf8_len(text) > 16_000 ==> (shortened(text) matches Some(t) ==> t == byte_range(
            text,
            0,
            16_000,
        ) + "\n... [truncated]"@),
        utf8_len(text) > 16_000 ==> (shortened(text) is Some <==> char_range(text, 0, 16_000)),
{
}

} // verus!
