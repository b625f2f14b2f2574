//! The prompt that asks the language model for the entities in a transcript.
use crate::anonymise::kind::AnonymiseEntityKind;
use crate::text::{cat3, join, joined, occurs_in, stands_at, views};
use vstd::prelude::*;
use vstd::string::*;

verus! {

/// The task and the rules, up to the list of the keys.
pub const PROMPT_RULES: &'static str = "name: anonymisation_extraction\ndescription: >\nExtract selected anonymisation entities from transcript text and return one strict pseudo-JSON string.\nsystem_prompt: |\nYou are a meticulous anonymisation extraction assistant.\nWork strictly from the supplied transcript text.\nIgnore transcript metadata labels and timing markers themselves (for example, SPEAKER_<number>, turn headers, and [hh:mm:ss - hh:mm:ss] ranges).\nImportant: ignore only those labels/markers, not the spoken content that follows them.\nReturn exactly one pseudo-JSON string only.\nNever include commentary, code fences, or <think> sections.\nNever invent values.\nCopy matched values letter-by-letter from the transcript.\nformat_instructions: |\nOutput rules (strict):\n- Respond with ONE line in this exact shape: `{key: value; key: value;}`\n- Use outer braces exactly once.\n- Allowed keys are only: ";

/// The rules behind the list of the keys.
pub const PROMPT_KEYS_END: &'static str = "\n- Repeat the key for every single match.\n- Copy each value letter-by-letter from transcript.\n- Never extract transcript labels/metadata tokens themselves (SPEAKER_<number>, turn labels, timing brackets).\n- Still extract entities from the actual spoken text within those turns.\n- Never output placeholders/tokens from examples (anything inside `<...>`).\n- If nothing matched, return exactly: ";

/// What stands before the example of an answer.
pub const PROMPT_EXAMPLE: &'static str = "\n- Do not output quoted keys, arrays, or wrapper keys.\nExample response:\n";

/// What stands before the example of an answer without a match.
pub const PROMPT_EMPTY_EXAMPLE: &'static str = "\nExample response when nothing matched:\n";

/// What stands before the fields.
pub const PROMPT_FIELDS: &'static str = "\nfields:\n";

/// What stands before the guidance on the keys.
pub const PROMPT_GUIDANCE: &'static str = "\ncategory_guidance: |\n";

/// What stands before the transcript.
pub const PROMPT_TRANSCRIPT: &'static str = "\ntranscript: |\n<<<BEGIN_TRANSCRIPT>>>\n";

/// What stands behind the transcript.
pub const PROMPT_END: &'static str = "\n<<<END_TRANSCRIPT>>>";

/// The keys of the kinds.
pub open spec fn keys_of(kinds: Seq<AnonymiseEntityKind>) -> Seq<Seq<char>> {
    Seq::new(kinds.len(), |i: int| kinds[i].key()@)
}

/// The example fragments of the kinds.
pub open spec fn examples_of(kinds: Seq<AnonymiseEntityKind>) -> Seq<Seq<char>> {
    Seq::new(kinds.len(), |i: int| kinds[i].prompt_kv_example()@)
}

/// The example of an answer: the fragments in braces.
pub open spec fn example_answer(kinds: Seq<AnonymiseEntityKind>) -> Seq<char> {
    "{"@ + joined(examples_of(kinds), " "@) + "}"@
}

/// What is said of the key of a kind.
pub open spec fn guidance_of(kind: AnonymiseEntityKind) -> Seq<char> {
    "- key: "@ + kind.key()@ + "\n  meaning: "@ + kind.prompt_guidance()@ + "\n  Required fragment example: "@ + kind.prompt_kv_example()@
        + "\n  Repeat key for every match."@
}

/// What is said of the keys of the kinds.
pub open spec fn key_guidance(kinds: Seq<AnonymiseEntityKind>) -> Seq<Seq<char>> {
    Seq::new(kinds.len(), |i: int| guidance_of(kinds[i]))
}

/// How the field of a kind is described.
pub open spec fn field_spec_of(kind: AnonymiseEntityKind) -> Seq<char> {
    "  - key: "@ + kind.key()@ + "\n    type: repeated_fragment_in_string\n    guidance: |\n      "@ + kind.prompt_guidance()@ + "\n      Required fragment example:\n      "@
        + kind.prompt_kv_example()@ + "\n      Emit one `key: value;` per match."@
}

/// How the fields of the kinds are described.
pub open spec fn field_specs(kinds: Seq<AnonymiseEntityKind>) -> Seq<Seq<char>> {
    Seq::new(kinds.len(), |i: int| field_spec_of(kinds[i]))
}

/// The prompt that asks for the entities of the kinds in `source`.
pub open spec fn anonymise_prompt(source: Seq<char>, kinds: Seq<AnonymiseEntityKind>) -> Seq<char> {
    PROMPT_RULES@ + joined(keys_of(kinds), ", "@) + PROMPT_KEYS_END@ + "{none}"@ + PROMPT_EXAMPLE@ + example_answer(kinds) + PROMPT_EMPTY_EXAMPLE@ + "{none}"@ + PROMPT_FIELDS@ + joined(field_specs(kinds), "\n"@) + PROMPT_GUIDANCE@ + joined(key_guidance(kinds), "\n"@) + PROMPT_TRANSCRIPT@ + source + PROMPT_END@
}

/// The prompt that asks for the entities of the selected kinds in a transcript.
pub fn build_anonymise_prompt(source_text: &str, selected_kinds: &[AnonymiseEntityKind]) -> (r:
    String)
    ensures
        r@ == anonymise_prompt(source_text@, selected_kinds@),
{
    let ghost kinds = selected_kinds@;
    let mut key_list: Vec<String> = Vec::new();
    let mut example_list: Vec<String> = Vec::new();
    let mut guidance_list: Vec<String> = Vec::new();
    let mut spec_list: Vec<String> = Vec::new();
    let mut i: usize = 0;
    while i < selected_kinds.len()
        invariant
            i <= selected_kinds@.len(),
            kinds == selected_kinds@,
            key_list@.len() == i,
            example_list@.len() == i,
            guidance_list@.len() == i,
            spec_list@.len() == i,
            forall|k: int| 0 <= k < i ==> (#[trigger] key_list@[k])@ == keys_of(kinds)[k],
            forall|k: int| 0 <= k < i ==> (#[trigger] example_list@[k])@ == examples_of(kinds)[k],
            forall|k: int| 0 <= k < i ==> (#[trigger] guidance_list@[k])@ == key_guidance(kinds)[k],
            forall|k: int| 0 <= k < i ==> (#[trigger] spec_list@[k])@ == field_specs(kinds)[k],
        decreases selected_kinds@.len() - i,
    {
        let kind: AnonymiseEntityKind = selected_kinds[i];
        key_list.push(kind.key().to_owned());
        example_list.push(kind.prompt_kv_example().to_owned());
        let mut guidance: String = cat3("- key: ", kind.key(), "\n  meaning: ");
        guidance.append(kind.prompt_guidance());
        guidance.append("\n  Required fragment example: ");
        guidance.append(kind.prompt_kv_example());
        guidance.append("\n  Repeat key for every match.");
        guidance_list.push(guidance);
        let mut field: String = cat3("  - key: ", kind.key(), "\n    type: repeated_fragment_in_string\n    guidance: |\n      ");
        field.append(kind.prompt_guidance());
        field.append("\n      Required fragment example:\n      ");
        field.append(kind.prompt_kv_example());
        field.append("\n      Emit one `key: value;` per match.");
        spec_list.push(field);
        i += 1;
    }
    assert(views(key_list@) =~= keys_of(kinds));
    assert(views(example_list@) =~= examples_of(kinds));
    assert(views(guidance_list@) =~= key_guidance(kinds));
    assert(views(spec_list@) =~= field_specs(kinds));
    let keys: String = join(&key_list, ", ");
    let fragments: String = join(&example_list, " ");
    let example: String = cat3("{", fragments.as_str(), "}");
    let guidance: String = join(&guidance_list, "\n");
    let specs: String = join(&spec_list, "\n");
    let mut out: String = PROMPT_RULES.to_owned();
    out.append(keys.as_str());
    out.append(PROMPT_KEYS_END);
    out.append("{none}");
    out.append(PROMPT_EXAMPLE);
    out.append(example.as_str());
    out.append(PROMPT_EMPTY_EXAMPLE);
    out.append("{none}");
    out.append(PROMPT_FIELDS);
    out.append(specs.as_str());
    out.append(PROMPT_GUIDANCE);
    out.append(guidance.as_str());
    out.append(PROMPT_TRANSCRIPT);
    out.append(source_text);
    out.append(PROMPT_END);
    out
}

/// What occurs in a text occurs in every text that holds it.
proof fn lemma_occurs_within(needle: Seq<char>, pre: Seq<char>, mid: Seq<char>, post: Seq<char>)
    requires
        occurs_in(needle, mid),
    ensures
        occurs_in(needle, pre + mid + post),
{
    let i = choose|i: int| #[trigger] stands_at(mid, needle, i);
    let all = pre + mid + post;
    assert(all.subrange(pre.len() + i, pre.len() + i + needle.len()) =~= mid.subrange(
        i,
        i + needle.len(),
    ));
    assert(stands_at(all, needle, pre.len() + i));
}

/// A text occurs in itself.
proof fn lemma_occurs_in_itself(text: Seq<char>)
    ensures
        occurs_in(text, text),
{
    assert(text.subrange(0, text.len() as int) =~= text);
    assert(stands_at(text, text, 0));
}

/// Each part occurs in what the parts make.
proof fn lemma_part_occurs(parts: Seq<Seq<char>>, sep: Seq<char>, k: int)
    requires
        0 <= k < parts.len(),
    ensures
        occurs_in(parts[k], joined(parts, sep)),
    decreases parts.len(),
{
    lemma_occurs_in_itself(parts[k]);
    if parts.len() > 1 {
        let head = joined(parts.drop_last(), sep);
        if k < parts.len() - 1 {
            lemma_part_occurs(parts.drop_last(), sep, k);
            lemma_occurs_within(parts[k], Seq::empty(), head, sep + parts.last());
            assert(Seq::empty() + head + (sep + parts.last()) =~= joined(parts, sep));
        } else {
            lemma_occurs_within(parts[k], head + sep, parts.last(), Seq::empty());
            assert((head + sep) + parts.last() + Seq::empty() =~= joined(parts, sep));
        }
    }
}

/// Whatever is selected, the prompt holds the guidance and the example of every selected kind, and
/// the whole transcript.
pub proof fn lemma_prompt_holds(source: Seq<char>, kinds: Seq<AnonymiseEntityKind>, k: int)
    requires
        0 <= k < kinds.len(),
    ensures
        occurs_in(guidance_of(kinds[k]), anonymise_prompt(source, kinds)),
        occurs_in(kinds[k].prompt_kv_example()@, anonymise_prompt(source, kinds)),
        occurs_in(source, anonymise_prompt(source, kinds)),
{
    let all = anonymise_prompt(source, kinds);
    let before_specs = PROMPT_RULES@ + joined(keys_of(kinds), ", "@) + PROMPT_KEYS_END@ + "{none}"@
        + PROMPT_EXAMPLE@ + example_answer(kinds) + PROMPT_EMPTY_EXAMPLE@ + "{none}"@
        + PROMPT_FIELDS@ + joined(field_specs(kinds), "\n"@) + PROMPT_GUIDANCE@;
    let guidance = joined(key_guidance(kinds), "\n"@);
    let kind = kinds[k];
    lemma_part_occurs(key_guidance(kinds), "\n"@, k);
    lemma_occurs_within(
        guidance_of(kind),
        before_specs,
        guidance,
        PROMPT_TRANSCRIPT@ + source + PROMPT_END@,
    );
    assert(before_specs + guidance + (PROMPT_TRANSCRIPT@ + source + PROMPT_END@) =~= all);
    lemma_occurs_in_itself(kind.prompt_kv_example()@);
    lemma_occurs_within(
        kind.prompt_kv_example()@,
        "- key: "@ + kind.key()@ + "\n  meaning: "@ + kind.prompt_guidance()@
            + "\n  Required fragment example: "@,
        kind.prompt_kv_example()@,
        "\n  Repeat key for every match."@,
    );
    lemma_part_within(kind.prompt_kv_example()@, guidance_of(kind), all);
    lemma_occurs_in_itself(source);
    lemma_occurs_within(
        source,
        before_specs + guidance + PROMPT_TRANSCRIPT@,
        source,
        PROMPT_END@,
    );
    assert((before_specs + guidance + PROMPT_TRANSCRIPT@) + source + PROMPT_END@ =~= all);
}

/// What occurs in a part of a text occurs in the text.
proof fn lemma_part_within(needle: Seq<char>, part: Seq<char>, text: Seq<char>)
    requires
        occurs_in(needle, part),
        occurs_in(part, text),
    ensures
        occurs_in(needle, text),
{
    let i = choose|i: int| #[trigger] stands_at(text, part, i);
    let pre = text.take(i);
    let post = text.skip(i + part.len());
    lemma_occurs_within(needle, pre, part, post);
    assert(pre + part + post =~= text);
}

/// Two parts that follow each other occur together, whatever stands before them.
proof fn lemma_pair_at_end(before: Seq<char>, a: Seq<char>, sep: Seq<char>, b: Seq<char>)
    ensures
        occurs_in(a + sep + b, before + a + sep + b),
{
    let pair = a + sep + b;
    let all = before + a + sep + b;
    let n = before.len() as int;
    let part = all.subrange(n, n + pair.len());
    assert forall|i: int| 0 <= i < pair.len() implies #[trigger] part[i] == pair[i] by {
        assert(part[i] == all[n + i]);
        if i < a.len() {
            assert(pair[i] == a[i]);
        } else if i < a.len() + sep.len() {
            assert(pair[i] == sep[i - a.len()]);
        } else {
            assert(pair[i] == b[i - a.len() - sep.len()]);
        }
    }
    assert(part =~= pair);
    assert(stands_at(all, pair, n));
}

/// Two parts that follow each other stand in what the parts make with the separator between them.
proof fn lemma_pair_occurs(parts: Seq<Seq<char>>, sep: Seq<char>, k: int)
    requires
        0 <= k < parts.len() - 1,
    ensures
        occurs_in(parts[k] + sep + parts[k + 1], joined(parts, sep)),
    decreases parts.len(),
{
    let pair = parts[k] + sep + parts[k + 1];
    let init = parts.drop_last();
    let head = joined(init, sep);
    let last = parts.last();
    assert(joined(parts, sep) == head + sep + last);
    if k < parts.len() - 2 {
        lemma_pair_occurs(init, sep, k);
        assert(init[k] == parts[k] && init[k + 1] == parts[k + 1]);
        lemma_occurs_within(pair, Seq::empty(), head, sep + last);
        assert(Seq::empty() + head + (sep + last) =~= head + sep + last);
    } else {
        assert(init.last() == parts[k]);
        if init.len() > 1 {
            let before = joined(init.drop_last(), sep) + sep;
            assert(head == before + init.last());
            lemma_pair_at_end(before, parts[k], sep, last);
        } else {
            assert(head == parts[k]);
            lemma_occurs_in_itself(pair);
        }
    }
}

/// What occurs in a text occurs in it with something behind it, and with something before it.
proof fn lemma_occurs_beside(needle: Seq<char>, text: Seq<char>, other: Seq<char>)
    requires
        occurs_in(needle, text),
    ensures
        occurs_in(needle, text + other),
        occurs_in(needle, other + text),
{
    lemma_occurs_within(needle, Seq::empty(), text, other);
    assert(Seq::empty() + text + other =~= text + other);
    lemma_occurs_within(needle, other, text, Seq::empty());
    assert(other + text + Seq::empty() =~= other + text);
}

/// What occurs in the fields occurs in the prompt.
proof fn lemma_fields_occur(needle: Seq<char>, source: Seq<char>, kinds: Seq<AnonymiseEntityKind>)
    requires
        occurs_in(needle, joined(field_specs(kinds), "\n"@)),
    ensures
        occurs_in(needle, anonymise_prompt(source, kinds)),
{
    let specs = joined(field_specs(kinds), "\n"@);
    let guidance = joined(key_guidance(kinds), "\n"@);
    let before = PROMPT_RULES@ + joined(keys_of(kinds), ", "@) + PROMPT_KEYS_END@ + "{none}"@
        + PROMPT_EXAMPLE@ + example_answer(kinds) + PROMPT_EMPTY_EXAMPLE@ + "{none}"@
        + PROMPT_FIELDS@;
    lemma_occurs_beside(needle, specs, before);
    lemma_occurs_beside(needle, before + specs, PROMPT_GUIDANCE@);
    let a = before + specs + PROMPT_GUIDANCE@;
    lemma_occurs_beside(needle, a, guidance);
    lemma_occurs_beside(needle, a + guidance, PROMPT_TRANSCRIPT@);
    let b = a + guidance + PROMPT_TRANSCRIPT@;
    lemma_occurs_beside(needle, b, source);
    lemma_occurs_beside(needle, b + source, PROMPT_END@);
}

/// What occurs in the list of the allowed keys, with what stands around it, occurs in the prompt.
proof fn lemma_front_occurs(needle: Seq<char>, source: Seq<char>, kinds: Seq<AnonymiseEntityKind>)
    requires
        occurs_in(needle, PROMPT_RULES@ + joined(keys_of(kinds), ", "@) + PROMPT_KEYS_END@),
    ensures
        occurs_in(needle, anonymise_prompt(source, kinds)),
{
    let specs = joined(field_specs(kinds), "\n"@);
    let guidance = joined(key_guidance(kinds), "\n"@);
    let a = PROMPT_RULES@ + joined(keys_of(kinds), ", "@) + PROMPT_KEYS_END@;
    lemma_occurs_beside(needle, a, "{none}"@);
    let b = a + "{none}"@;
    lemma_occurs_beside(needle, b, PROMPT_EXAMPLE@);
    let c = b + PROMPT_EXAMPLE@;
    lemma_occurs_beside(needle, c, example_answer(kinds));
    let d = c + example_answer(kinds);
    lemma_occurs_beside(needle, d, PROMPT_EMPTY_EXAMPLE@);
    let e = d + PROMPT_EMPTY_EXAMPLE@;
    lemma_occurs_beside(needle, e, "{none}"@);
    let f = e + "{none}"@;
    lemma_occurs_beside(needle, f, PROMPT_FIELDS@);
    let g = f + PROMPT_FIELDS@;
    lemma_occurs_beside(needle, g, specs);
    let h = g + specs;
    lemma_occurs_beside(needle, h, PROMPT_GUIDANCE@);
    let i = h + PROMPT_GUIDANCE@;
    lemma_occurs_beside(needle, i, guidance);
    let j = i + guidance;
    lemma_occurs_beside(needle, j, PROMPT_TRANSCRIPT@);
    let k = j + PROMPT_TRANSCRIPT@;
    lemma_occurs_beside(needle, k, source);
    lemma_occurs_beside(needle, k + source, PROMPT_END@);
}

/// The fields name the key of every kind.
pub proof fn lemma_prompt_names_key(source: Seq<char>, kinds: Seq<AnonymiseEntityKind>, k: int)
    requires
        0 <= k < kinds.len(),
    ensures
        occurs_in("  - key: "@ + kinds[k].key()@, anonymise_prompt(source, kinds)),
{
    let named = "  - key: "@ + kinds[k].key()@;
    let kind = kinds[k];
    let a = named + "\n    type: repeated_fragment_in_string\n    guidance: |\n      "@;
    lemma_occurs_in_itself(named);
    lemma_occurs_beside(
        named,
        named,
        "\n    type: repeated_fragment_in_string\n    guidance: |\n      "@,
    );
    lemma_occurs_beside(named, a, kind.prompt_guidance()@);
    let b = a + kind.prompt_guidance()@;
    lemma_occurs_beside(named, b, "\n      Required fragment example:\n      "@);
    let c = b + "\n      Required fragment example:\n      "@;
    lemma_occurs_beside(named, c, kind.prompt_kv_example()@);
    let d = c + kind.prompt_kv_example()@;
    lemma_occurs_beside(named, d, "\n      Emit one `key: value;` per match."@);
    assert(occurs_in(named, field_spec_of(kind)));
    lemma_part_occurs(field_specs(kinds), "\n"@, k);
    lemma_part_within(named, field_spec_of(kind), joined(field_specs(kinds), "\n"@));
    lemma_fields_occur(named, source, kinds);
}

/// The keys that are allowed are told in the order of the kinds; where there is one kind, its key
/// is the only one.
pub proof fn lemma_prompt_lists_keys(source: Seq<char>, kinds: Seq<AnonymiseEntityKind>, k: int)
    requires
        0 <= k < kinds.len(),
    ensures
        k + 1 < kinds.len() ==> occurs_in(
            kinds[k].key()@ + ", "@ + kinds[k + 1].key()@,
            anonymise_prompt(source, kinds),
        ),
        kinds.len() == 1 ==> occurs_in(
            PROMPT_RULES@ + kinds[0].key()@ + PROMPT_KEYS_END@,
            anonymise_prompt(source, kinds),
        ),
{
    let keys = joined(keys_of(kinds), ", "@);
    if k + 1 < kinds.len() {
        let pair = kinds[k].key()@ + ", "@ + kinds[k + 1].key()@;
        lemma_pair_occurs(keys_of(kinds), ", "@, k);
        lemma_occurs_beside(pair, keys, PROMPT_RULES@);
        lemma_occurs_beside(pair, PROMPT_RULES@ + keys, PROMPT_KEYS_END@);
        lemma_front_occurs(pair, source, kinds);
    }
    if kinds.len() == 1 {
        let first = PROMPT_RULES@ + kinds[0].key()@ + PROMPT_KEYS_END@;
        assert(keys == kinds[0].key()@);
        lemma_occurs_in_itself(first);
        lemma_front_occurs(first, source, kinds);
    }
}

} // verus!
