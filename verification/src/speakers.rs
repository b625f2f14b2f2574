//! The speakers of a transcript and their names.
use crate::anonymise::replace::capped;
use crate::devices::lemma_decimal_digits;
use crate::pattern::{
    compile, escape, escaped, find_captures, find_spans, group_of, group_spans, regex_captures,
    regex_compiled, regex_matches, regex_replaced, replace_all, text_of_group,
};
use crate::text::{
    all_digits, cat2, cat3, chars_of, decimal, digits_value, eq_ignore_ascii_case,
    lemma_leading_zeros, lowered, parse_digits, same_text, stripped, trim, views, zero_filled, zero_filled_text,
};
use crate::transcript::SPEAKER_PATTERN;
use vstd::prelude::*;
use vstd::string::*;

verus! {

/// The number that a speaker tag holds, if it can be read.
pub open spec fn speaker_number(digits: Seq<char>) -> Option<nat> {
    if all_digits(digits) && digits_value(digits) <= u32::MAX {
        Some(digits_value(digits))
    } else {
        None
    }
}

/// The highest speaker number among the tags.
pub open spec fn highest_speaker(tags: Seq<Seq<char>>) -> Option<nat>
    decreases tags.len(),
{
    if tags.len() == 0 {
        None
    } else {
        let before = highest_speaker(tags.drop_last());
        match (before, speaker_number(tags.last())) {
            (Some(a), Some(b)) => if a >= b {
                Some(a)
            } else {
                Some(b)
            },
            (None, Some(b)) => Some(b),
            (_, None) => before,
        }
    }
}

/// With how many digits speaker numbers are written: with as many as the longest, and at least two.
pub open spec fn speaker_width(tags: Seq<Seq<char>>) -> nat
    decreases tags.len(),
{
    if tags.len() == 0 {
        2
    } else {
        let before = speaker_width(tags.drop_last());
        if speaker_number(tags.last()) is Some && tags.last().len() > before {
            tags.last().len()
        } else {
            before
        }
    }
}

/// The tag of the speaker with the number `n`.
pub open spec fn speaker_tag(n: nat, width: nat) -> Seq<char> {
    "SPEAKER_"@ + zero_filled(n, width)
}

/// A tag for every speaker number up to the highest that occurs.
pub open spec fn speaker_slots(tags: Seq<Seq<char>>) -> Seq<Seq<char>> {
    match highest_speaker(tags) {
        Some(max) => Seq::new(max + 1, |i: int| speaker_tag(i as nat, speaker_width(tags))),
        None => Seq::empty(),
    }
}

/// Every speaker that occurs has a tag of its own: there is one for each number that is read, and no
/// two are the same.
pub proof fn lemma_speaker_slots(tags: Seq<Seq<char>>)
    ensures
        forall|k: int|
            0 <= k < tags.len() ==> (speaker_number(#[trigger] tags[k]) matches Some(n) ==> n
                < speaker_slots(tags).len()),
        forall|i: int, j: int|
            0 <= i < j < speaker_slots(tags).len() ==> #[trigger] speaker_slots(tags)[i]
                != #[trigger] speaker_slots(tags)[j],
{
    lemma_highest_speaker(tags);
    let slots = speaker_slots(tags);
    let width = speaker_width(tags);
    assert forall|i: int, j: int| 0 <= i < j < slots.len() implies #[trigger] slots[i]
        != #[trigger] slots[j] by {
        lemma_tag_number(i as nat, width);
        lemma_tag_number(j as nat, width);
    }
}

/// The number of a tag can be read from what stands behind its head.
proof fn lemma_tag_number(n: nat, width: nat)
    ensures
        digits_value(speaker_tag(n, width).skip("SPEAKER_"@.len() as int)) == n,
{
    lemma_decimal_digits(n);
    let d = decimal(n);
    if d.len() < width {
        lemma_leading_zeros((width - d.len()) as nat, d);
    }
    assert(speaker_tag(n, width).skip("SPEAKER_"@.len() as int) =~= zero_filled(n, width));
}

/// No number that is read is above the highest.
proof fn lemma_highest_speaker(tags: Seq<Seq<char>>)
    ensures
        forall|k: int|
            0 <= k < tags.len() ==> (speaker_number(#[trigger] tags[k]) matches Some(n) ==> (
            highest_speaker(tags) matches Some(max) && n <= max)),
    decreases tags.len(),
{
    if tags.len() > 0 {
        let rest = tags.drop_last();
        lemma_highest_speaker(rest);
        assert forall|k: int| 0 <= k < tags.len() implies (speaker_number(#[trigger] tags[k]) matches Some(
            n,
        ) ==> (highest_speaker(tags) matches Some(max) && n <= max)) by {
            if k < rest.len() {
                assert(rest[k] == tags[k]);
            }
        }
    }
}

/// A tag for every speaker number up to the highest that occurs, given the numbers of the tags in a
/// text.
pub fn slots_from_tags(tags: &Vec<String>) -> (r: Vec<String>)
    ensures
        views(r@) == speaker_slots(views(tags@)),
{
    let ghost all = views(tags@);
    let mut max: Option<u64> = None;
    let mut width: usize = 2;
    let mut i: usize = 0;
    while i < tags.len()
        invariant
            i <= tags@.len(),
            all == views(tags@),
            width == speaker_width(all.take(i as int)),
            match max {
                Some(m) => highest_speaker(all.take(i as int)) == Some(m as nat) && m <= u32::MAX,
                None => highest_speaker(all.take(i as int)) is None,
            },
        decreases tags@.len() - i,
    {
        assert(all.take(i + 1).drop_last() =~= all.take(i as int));
        assert(all.take(i + 1).last() == tags@[i as int]@);
        let v: Vec<char> = chars_of(tags[i].as_str());
        if let Some(n) = parse_digits(&v, 0xffff_ffff) {
            max = match max {
                Some(m) => if m >= n {
                    Some(m)
                } else {
                    Some(n)
                },
                None => Some(n),
            };
            if v.len() > width {
                width = v.len();
            }
        }
        i += 1;
    }
    assert(all.take(i as int) =~= all);
    let mut out: Vec<String> = Vec::new();
    if let Some(m) = max {
        let mut n: u64 = 0;
        while n <= m
            invariant
                n <= m + 1,
                m <= u32::MAX,
                out@.len() == n,
                width == speaker_width(all),
                forall|k: int|
                    0 <= k < n ==> (#[trigger] out@[k])@ == speaker_tag(
                        k as nat,
                        speaker_width(all),
                    ),
            decreases m + 1 - n,
        {
            let number: String = zero_filled_text(n, width);
            out.push(cat2("SPEAKER_", number.as_str()));
            n += 1;
        }
    }
    assert(views(out@) =~= speaker_slots(all));
    out
}

/// The numbers of the speaker tags in `text`.
pub open spec fn speaker_tags_in(text: Seq<char>) -> Seq<Seq<char>> {
    match regex_compiled(SPEAKER_PATTERN@) {
        Some(re) => Seq::new(
            regex_captures(re, text).len(),
            |i: int| group_of(text, regex_captures(re, text)[i], 1),
        ),
        None => Seq::empty(),
    }
}

/// A tag for every speaker number up to the highest that occurs in `text`.
pub fn detect_speaker_slots(text: &str) -> (r: Vec<String>)
    ensures
        views(r@) == speaker_slots(speaker_tags_in(text@)),
{
    let mut tags: Vec<String> = Vec::new();
    match compile(SPEAKER_PATTERN) {
        Some(re) => {
            let captures: Vec<Vec<Option<(usize, usize)>>> = find_captures(&re, text);
            let mut i: usize = 0;
            while i < captures.len()
                invariant
                    i <= captures@.len(),
                    captures@.len() == regex_captures(re, text@).len(),
                    forall|k: int|
                        0 <= k < captures@.len() ==> (#[trigger] captures@[k])@ == regex_captures(
                            re,
                            text@,
                        )[k] && group_spans(text@, captures@[k]@),
                    tags@.len() == i,
                    forall|k: int|
                        0 <= k < i ==> (#[trigger] tags@[k])@ == group_of(
                            text@,
                            regex_captures(re, text@)[k],
                            1,
                        ),
                decreases captures@.len() - i,
            {
                let groups: &Vec<Option<(usize, usize)>> = &captures[i];
                assert(groups@ == regex_captures(re, text@)[i as int]);
                tags.push(text_of_group(text, groups, 1).to_owned());
                i += 1;
            }
        },
        None => {},
    }
    assert(views(tags@) =~= speaker_tags_in(text@));
    slots_from_tags(&tags)
}

/// The tag of a speaker and the name that takes its place.
#[derive(Debug, Clone)]
pub struct SpeakerRenameEntry {
    pub speaker_tag: String,
    pub replacement: String,
}

impl View for SpeakerRenameEntry {
    type V = (Seq<char>, Seq<char>);

    open spec fn view(&self) -> (Seq<char>, Seq<char>) {
        (self.speaker_tag@, self.replacement@)
    }
}

/// The contents of a list of renames.
pub open spec fn rename_views(entries: Seq<SpeakerRenameEntry>) -> Seq<(Seq<char>, Seq<char>)> {
    Seq::new(entries.len(), |i: int| entries[i]@)
}

/// The name that the last of `entries` for a tag gives it; none where no entry is for it.
pub open spec fn name_for(entries: Seq<(Seq<char>, Seq<char>)>, tag: Seq<char>) -> Seq<char>
    decreases entries.len(),
{
    if entries.len() == 0 {
        Seq::empty()
    } else if entries.last().0 == tag {
        entries.last().1
    } else {
        name_for(entries.drop_last(), tag)
    }
}

/// An entry for each tag, with the name that it had before.
pub open spec fn carried_over(
    tags: Seq<Seq<char>>,
    previous: Seq<(Seq<char>, Seq<char>)>,
) -> Seq<(Seq<char>, Seq<char>)> {
    Seq::new(tags.len(), |i: int| (tags[i], name_for(previous, tags[i])))
}

/// The name that the last of `entries` for a tag gives it.
fn find_name(entries: &Vec<SpeakerRenameEntry>, tag: &str) -> (r: String)
    ensures
        r@ == name_for(rename_views(entries@), tag@),
{
    let ghost all = rename_views(entries@);
    let mut n: usize = entries.len();
    assert(all.take(n as int) =~= all);
    while n > 0
        invariant
            n <= entries@.len(),
            all == rename_views(entries@),
            name_for(all, tag@) == name_for(all.take(n as int), tag@),
        decreases n,
    {
        assert(all.take(n as int).drop_last() =~= all.take(n - 1));
        assert(all.take(n as int).last() == entries@[n - 1]@);
        if same_text(entries[n - 1].speaker_tag.as_str(), tag) {
            return entries[n - 1].replacement.clone();
        }
        n -= 1;
    }
    String::new()
}

/// An entry for each tag, with the name that it had before.
pub fn carry_over_names(tags: &Vec<String>, previous: &Vec<SpeakerRenameEntry>) -> (r: Vec<
    SpeakerRenameEntry,
>)
    ensures
        rename_views(r@) == carried_over(views(tags@), rename_views(previous@)),
{
    let mut out: Vec<SpeakerRenameEntry> = Vec::new();
    let mut i: usize = 0;
    while i < tags.len()
        invariant
            i <= tags@.len(),
            out@.len() == i,
            forall|k: int|
                0 <= k < i ==> (#[trigger] out@[k])@ == (
                    tags@[k]@,
                    name_for(rename_views(previous@), tags@[k]@),
                ),
        decreases tags@.len() - i,
    {
        let replacement: String = find_name(previous, tags[i].as_str());
        out.push(SpeakerRenameEntry { speaker_tag: tags[i].clone(), replacement });
        i += 1;
    }
    assert(rename_views(out@) =~= carried_over(views(tags@), rename_views(previous@)));
    out
}

/// The text in which speakers are looked for: the transcript as it was made where it can be read,
/// else the transcript that is shown, else the edited text.
pub fn speaker_source<'a>(
    original: Option<&'a str>,
    shown: &'a str,
    edited: &'a str,
) -> (r: &'a str)
    ensures
        r@ == match original {
            Some(text) => text@,
            None => if stripped(shown@).len() > 0 {
                shown@
            } else {
                edited@
            },
        },
{
    match original {
        Some(text) => text,
        None => if !trim(shown).is_empty() {
            shown
        } else {
            edited
        },
    }
}

/// The pattern that finds a tag as a whole word, in any case.
pub open spec fn tag_pattern(tag: Seq<char>) -> Seq<char> {
    r"(?i)\b"@ + escaped(tag) + r"\b"@
}

/// Whether an entry asks for nothing: no name, or the tag itself.
pub open spec fn is_idle_rename(entry: (Seq<char>, Seq<char>)) -> bool {
    stripped(entry.1).len() == 0 || lowered(stripped(entry.1)) == lowered(entry.0)
}

/// A text with the tags of the entries replaced in turn, and how many were; or why it cannot be
/// done. A `$` in a name refers to a group of the match.
pub open spec fn renamed(text: Seq<char>, entries: Seq<(Seq<char>, Seq<char>)>) -> Result<
    (Seq<char>, nat),
    Seq<char>,
>
    decreases entries.len(),
{
    if entries.len() == 0 {
        Ok((text, 0))
    } else {
        let entry = entries.last();
        match renamed(text, entries.drop_last()) {
            Err(message) => Err(message),
            Ok((before, count)) => if is_idle_rename(entry) {
                Ok((before, count))
            } else {
                match regex_compiled(tag_pattern(entry.0)) {
                    None => Err("invalid speaker rename pattern"@),
                    Some(re) => {
                        let found = regex_matches(re, before).len();
                        if found == 0 {
                            Ok((before, count))
                        } else {
                            Ok((regex_replaced(re, before, stripped(entry.1)), count + found))
                        }
                    },
                }
            },
        }
    }
}

/// A text with the tags of the entries replaced in turn, and how many were; or why it cannot be
/// done.
pub fn rename_speakers(text: &str, entries: &Vec<SpeakerRenameEntry>) -> (r: Result<
    (String, usize),
    String,
>)
    ensures
        match renamed(text@, rename_views(entries@)) {
            Ok((after, count)) => r matches Ok((t, n)) && t@ == after && n == capped(count),
            Err(message) => r matches Err(m) && m@ == message,
        },
{
    let ghost all = rename_views(entries@);
    let mut updated: String = text.to_owned();
    let mut total: usize = 0;
    let ghost mut count: nat = 0;
    let mut i: usize = 0;
    while i < entries.len()
        invariant
            i <= entries@.len(),
            all == rename_views(entries@),
            renamed(text@, all.take(i as int)) == Ok::<(Seq<char>, nat), Seq<char>>(
                (updated@, count),
            ),
            total == capped(count),
        decreases entries@.len() - i,
    {
        let entry: &SpeakerRenameEntry = &entries[i];
        assert(all.take(i + 1).drop_last() =~= all.take(i as int));
        assert(all.take(i + 1).last() == entry@);
        let name: &str = trim(entry.replacement.as_str());
        if !name.is_empty() && !eq_ignore_ascii_case(name, entry.speaker_tag.as_str()) {
            let core: String = escape(entry.speaker_tag.as_str());
            let pattern: String = cat3(r"(?i)\b", core.as_str(), r"\b");
            match compile(pattern.as_str()) {
                None => {
                    proof {
                        lemma_rename_error_stays(text@, all, i + 1);
                    }
                    return Err("invalid speaker rename pattern".to_owned());
                },
                Some(re) => {
                    let found: usize = find_spans(&re, updated.as_str()).len();
                    if found > 0 {
                        updated = replace_all(&re, updated.as_str(), name);
                        total = total.saturating_add(found);
                        proof {
                            count = count + found as nat;
                        }
                    }
                },
            }
        }
        i += 1;
    }
    assert(all.take(i as int) =~= all);
    Ok((updated, total))
}

/// An error of the first entries is one of all of them.
proof fn lemma_rename_error_stays(text: Seq<char>, entries: Seq<(Seq<char>, Seq<char>)>, n: int)
    requires
        0 <= n <= entries.len(),
        renamed(text, entries.take(n)) is Err,
    ensures
        renamed(text, entries) == renamed(text, entries.take(n)),
    decreases entries.len() - n,
{
    if n == entries.len() {
        assert(entries.take(n) =~= entries);
    } else {
        assert(entries.take(n + 1).drop_last() =~= entries.take(n));
        lemma_rename_error_stays(text, entries, n + 1);
    }
}

/// Renames that are made in two goes: the second go works on the text that the first has left, so a
/// name that was put in stays unless a later entry is for it; the counts add up, and what the first
/// go refuses is refused.
pub proof fn lemma_renamed_in_turn(
    text: Seq<char>,
    first: Seq<(Seq<char>, Seq<char>)>,
    later: Seq<(Seq<char>, Seq<char>)>,
)
    ensures
        match renamed(text, first) {
            Err(why) => renamed(text, first + later) == Err::<(Seq<char>, nat), Seq<char>>(why),
            Ok((left, n)) => match renamed(left, later) {
                Err(why) => renamed(text, first + later) == Err::<(Seq<char>, nat), Seq<char>>(why),
                Ok((after, m)) => renamed(text, first + later) == Ok::<
                    (Seq<char>, nat),
                    Seq<char>,
                >((after, n + m)),
            },
        },
    decreases later.len(),
{
    if later.len() == 0 {
        assert(first + later =~= first);
    } else {
        lemma_renamed_in_turn(text, first, later.drop_last());
        assert((first + later).drop_last() =~= first + later.drop_last());
        assert((first + later).last() == later.last());
    }
}

/// What a single entry does: the name without the white space around it takes the place of every
/// match of the tag, and each is counted. An entry without a name, or with the tag for a name,
/// changes nothing.
pub proof fn lemma_one_rename(text: Seq<char>, tag: Seq<char>, name: Seq<char>)
    ensures
        ({
            let r = renamed(text, seq![(tag, name)]);
            if stripped(name).len() == 0 || lowered(stripped(name)) == lowered(tag) {
                r == Ok::<(Seq<char>, nat), Seq<char>>((text, 0))
            } else {
                match regex_compiled(r"(?i)\b"@ + escaped(tag) + r"\b"@) {
                    None => r is Err,
                    Some(re) => r matches Ok((after, n)) && n == regex_matches(re, text).len() && (
                    n > 0 ==> after == regex_replaced(re, text, stripped(name))) && (n == 0
                        ==> after == text),
                }
            }
        }),
{
    let one = seq![(tag, name)];
    assert(one.drop_last() =~= Seq::empty());
    assert(one.last() == (tag, name));
    assert(renamed(text, one.drop_last()) == Ok::<(Seq<char>, nat), Seq<char>>((text, 0)));
}

/// The names that are carried over: every tag keeps its place, and has the last name that it was
/// given before.
pub proof fn lemma_name_is_carried_over(
    tags: Seq<Seq<char>>,
    previous: Seq<(Seq<char>, Seq<char>)>,
    i: int,
    k: int,
)
    requires
        0 <= i < tags.len(),
        0 <= k < previous.len(),
        previous[k].0 == tags[i],
        forall|j: int| k < j < previous.len() ==> (#[trigger] previous[j]).0 != tags[i],
    ensures
        carried_over(tags, previous).len() == tags.len(),
        carried_over(tags, previous)[i] == (tags[i], previous[k].1),
    decreases previous.len(),
{
    if k < previous.len() - 1 {
        let rest = previous.drop_last();
        assert(previous[previous.len() - 1].0 != tags[i]);
        lemma_name_is_carried_over(tags, rest, i, k);
    }
}

/// A tag that had no name before has none.
pub proof fn lemma_no_name_to_carry_over(
    tags: Seq<Seq<char>>,
    previous: Seq<(Seq<char>, Seq<char>)>,
    i: int,
)
    requires
        0 <= i < tags.len(),
        forall|j: int| 0 <= j < previous.len() ==> (#[trigger] previous[j]).0 != tags[i],
    ensures
        carried_over(tags, previous)[i] == (tags[i], Seq::<char>::empty()),
    decreases previous.len(),
{
    if previous.len() > 0 {
        let rest = previous.drop_last();
        assert(previous[previous.len() - 1].0 != tags[i]);
        lemma_no_name_to_carry_over(tags, rest, i);
    }
}

/// How many speakers there are: one more than the highest number that is read, so that the last has that
/// number; none where no number can be read. Each tag is written with at least two digits, and with as
/// many as the longest that occurs.
pub proof fn lemma_speaker_count(tags: Seq<Seq<char>>)
    ensures
        (forall|k: int| 0 <= k < tags.len() ==> speaker_number(#[trigger] tags[k]) is None)
            ==> speaker_slots(tags).len() == 0,
        speaker_slots(tags).len() > 0 ==> exists|k: int|
            0 <= k < tags.len() && speaker_number(#[trigger] tags[k]) == Some(
                (speaker_slots(tags).len() - 1) as nat,
            ),
        forall|i: int|
            0 <= i < speaker_slots(tags).len() ==> #[trigger] speaker_slots(tags)[i] == "SPEAKER_"@
                + zero_filled(i as nat, speaker_width(tags)),
        speaker_width(tags) >= 2,
        forall|k: int|
            0 <= k < tags.len() && speaker_number(#[trigger] tags[k]) is Some ==> speaker_width(tags)
                >= tags[k].len(),
        speaker_width(tags) > 2 ==> exists|k: int|
            0 <= k < tags.len() && speaker_number(#[trigger] tags[k]) is Some && tags[k].len()
                == speaker_width(tags),
    decreases tags.len(),
{
    if tags.len() > 0 {
        let rest = tags.drop_last();
        lemma_speaker_count(rest);
        let last = tags[tags.len() - 1];
        assert(last == tags.last());
        assert forall|k: int| 0 <= k < rest.len() implies #[trigger] rest[k] == tags[k] by {}
        if forall|k: int| 0 <= k < tags.len() ==> speaker_number(#[trigger] tags[k]) is None {
            assert forall|k: int| 0 <= k < rest.len() implies speaker_number(
                #[trigger] rest[k],
            ) is None by {
                assert(rest[k] == tags[k]);
            }
        }
        if speaker_slots(rest).len() > 0 {
            let k = choose|k: int|
                0 <= k < rest.len() && speaker_number(#[trigger] rest[k]) == Some(
                    (speaker_slots(rest).len() - 1) as nat,
                );
            assert(speaker_number(tags[k]) == speaker_number(rest[k]));
        }
        assert forall|k: int|
            0 <= k < tags.len() && speaker_number(#[trigger] tags[k]) is Some implies speaker_width(
            tags,
        ) >= tags[k].len() by {
            if k < rest.len() {
                assert(rest[k] == tags[k]);
            }
        }
        if speaker_width(tags) > 2 && speaker_width(tags) == speaker_width(rest) {
            let k = choose|k: int|
                0 <= k < rest.len() && speaker_number(#[trigger] rest[k]) is Some && rest[k].len()
                    == speaker_width(rest);
            assert(tags[k] == rest[k]);
        }
    }
}

} // verus!
