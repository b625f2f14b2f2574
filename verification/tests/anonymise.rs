use transcribe_offline::anonymise::candidate::{
    build_replacement_candidates, candidate_key_for_dedupe, is_candidate_plausible,
    sanitize_candidate_value, AnonymiseMatch,
};
use transcribe_offline::anonymise::kind::{
    anonymise_entity_order, normalize_kind_token, parse_anonymise_kind, AnonymiseEntityKind,
};
use transcribe_offline::anonymise::prompt::build_anonymise_prompt;
use transcribe_offline::anonymise::replace::{
    apply_anonymise_to_text, build_exact_match_pattern, fuzzy_similarity_threshold,
    fuzzy_token_spans, normalize_for_fuzzy, replace_exact_case_insensitive, replace_fuzzy_phrase,
    replace_near_exact_phrase,
};
use transcribe_offline::anonymise::response::{
    extract_json_objects, find_braced_objects, is_valid_empty_anonymise_json,
    parse_anonymise_matches, parse_anonymise_matches_from_key_value_text,
    parse_anonymise_matches_from_value, response_snippet,
};
use transcribe_offline::hits::{choose_hits, replace_hits, splice, Hit};
use transcribe_offline::json::{parse_json, Json};

fn found(kind: AnonymiseEntityKind, value: &str) -> AnonymiseMatch {
    AnonymiseMatch {
        kind,
        value: value.to_string(),
    }
}

fn values(list: &[AnonymiseMatch]) -> Vec<&str> {
    list.iter().map(|m| m.value.as_str()).collect()
}

#[test]
fn parses_braced_key_value_output() {
    let raw = "{location: Kabul; location: University of Oxford; number: 0750000000;}";
    let parsed = parse_anonymise_matches(raw).expect("should parse key:value output");
    assert!(parsed.len() >= 3);
    assert!(parsed.iter().any(|m| {
        m.kind == AnonymiseEntityKind::Location && m.value.eq_ignore_ascii_case("Kabul")
    }));
    assert!(parsed.iter().any(|m| {
        m.kind == AnonymiseEntityKind::Number && m.value.eq_ignore_ascii_case("0750000000")
    }));
}

#[test]
fn merges_multiple_json_objects() {
    let raw = r#"{"location":["Kabul"]} {"name":["Anastasia"]} {"number":["007000000"]}"#;
    let parsed = parse_anonymise_matches(raw).expect("should merge multiple json objects");
    assert!(parsed
        .iter()
        .any(|m| m.kind == AnonymiseEntityKind::Location && m.value == "Kabul"));
    assert!(parsed
        .iter()
        .any(|m| m.kind == AnonymiseEntityKind::Name && m.value == "Anastasia"));
    assert!(parsed
        .iter()
        .any(|m| m.kind == AnonymiseEntityKind::Number && m.value == "007000000"));
}

#[test]
fn parses_legacy_wrapper_key() {
    let raw = r#"{"anonymisation_extractions":"location: Kabul; name: Carol;"}"#;
    let parsed = parse_anonymise_matches(raw).expect("should parse wrapper payload");
    assert_eq!(parsed.len(), 2);
}

#[test]
fn prompt_contains_selected_examples() {
    let prompt = build_anonymise_prompt(
        "Anastasia called from Kabul.",
        &[AnonymiseEntityKind::Name, AnonymiseEntityKind::Location],
    );
    assert!(prompt.contains("name: <person_name_from_transcript>;"));
    assert!(prompt.contains("location: <location_from_transcript>;"));
    assert!(prompt.contains("`{key: value; key: value;}`"));
}

#[test]
fn sanitize_candidate_strips_terminal_sentence_punctuation() {
    let cleaned = sanitize_candidate_value(r#" "Kabul...?!" "#);
    assert_eq!(cleaned, "Kabul");
}

#[test]
fn fuzzy_replaces_when_surface_form_differs_but_tokens_match() {
    let text = "She lived in Afghanistan for several years.";
    let matches = vec![AnonymiseMatch {
        kind: AnonymiseEntityKind::Location,
        value: "(Afghanistan)".to_string(),
    }];
    let (rewritten, exact, fuzzy) = apply_anonymise_to_text(text, &matches);
    assert_eq!(exact, 0);
    assert_eq!(fuzzy, 1);
    assert!(rewritten.contains("[location omitted]"));
}

#[test]
fn near_exact_handles_single_character_drift() {
    let text = "She lived in Afghanistann for several years.";
    let matches = vec![AnonymiseMatch {
        kind: AnonymiseEntityKind::Location,
        value: "Afghanistan".to_string(),
    }];
    let (rewritten, exact, fuzzy) = apply_anonymise_to_text(text, &matches);
    assert_eq!(exact, 0);
    assert_eq!(fuzzy, 1);
    assert!(rewritten.contains("[location omitted]"));
}

#[test]
fn real_model_style_kv_output_parses_and_replaces() {
    let text = "President Bush met President Karzai in Afghanistan at the White House.";
    let raw = "{name: President Bush; name: President Karzai; location: Afghanistan; organisation: White House;}";
    let parsed = parse_anonymise_matches(raw).expect("should parse real model style output");
    assert_eq!(parsed.len(), 4);
    let (rewritten, exact, fuzzy) = apply_anonymise_to_text(text, &parsed);
    assert!(exact > 0 || fuzzy > 0);
    assert!(rewritten.contains("[name omitted]"));
    assert!(rewritten.contains("[location omitted]"));
    assert!(rewritten.contains("[organisation omitted]"));
}

#[test]
fn real_model_style_output_is_rewritten_to_the_letter() {
    let text = "President Bush met President Karzai in Afghanistan at the White House.";
    let raw = "{name: President Bush; name: President Karzai; location: Afghanistan; organisation: White House;}";
    let parsed = parse_anonymise_matches(raw).unwrap();
    let (rewritten, exact, fuzzy) = apply_anonymise_to_text(text, &parsed);
    assert_eq!(
        rewritten,
        "[name omitted] met [name omitted] in [location omitted] at the [organisation omitted]."
    );
    assert_eq!((exact, fuzzy), (4, 0));
}

#[test]
fn every_key_names_its_kind() {
    for kind in anonymise_entity_order() {
        assert_eq!(parse_anonymise_kind(kind.key()), Some(kind));
    }
    assert_eq!(parse_anonymise_kind(" Phone-Numbers: "), Some(AnonymiseEntityKind::Phone));
    assert_eq!(parse_anonymise_kind("colour"), None);
    assert_eq!(normalize_kind_token(" E-mail "), "email");
}

#[test]
fn cleaning_keeps_no_final_mark_and_no_white_space() {
    assert_eq!(sanitize_candidate_value("  'Carol' "), "Carol");
    assert_eq!(sanitize_candidate_value("Carol . ;,"), "Carol");
    assert_eq!(sanitize_candidate_value("?!"), "");
    assert_eq!(sanitize_candidate_value("a.b"), "a.b");
}

#[test]
fn candidates_are_distinct_plausible_and_longest_first() {
    let list = build_replacement_candidates(&[
        found(AnonymiseEntityKind::Name, "Carol"),
        found(AnonymiseEntityKind::Name, "carol"),
        found(AnonymiseEntityKind::Location, "Carol"),
        found(AnonymiseEntityKind::Name, "Carol  Smith."),
        found(AnonymiseEntityKind::Name, "<person_name_from_transcript>"),
        found(AnonymiseEntityKind::Number, "7"),
    ]);
    assert_eq!(values(&list), vec!["Carol  Smith", "Carol", "Carol"]);
    assert_eq!(list[1].kind, AnonymiseEntityKind::Name);
    assert_eq!(list[2].kind, AnonymiseEntityKind::Location);
    assert_eq!(candidate_key_for_dedupe(" Carol \t SMITH"), "carol smith");
    assert_eq!(
        candidate_key_for_dedupe("Carol Smith"),
        candidate_key_for_dedupe("CAROL\n smith ")
    );
    assert_ne!(candidate_key_for_dedupe("Carol Smith"), candidate_key_for_dedupe("CarolSmith"));
}

#[test]
fn plausibility_depends_on_the_kind() {
    assert!(is_candidate_plausible(AnonymiseEntityKind::Phone, "07"));
    assert!(!is_candidate_plausible(AnonymiseEntityKind::Phone, "7"));
    assert!(is_candidate_plausible(AnonymiseEntityKind::Name, "A"));
    assert!(!is_candidate_plausible(AnonymiseEntityKind::Name, "12"));
    assert!(!is_candidate_plausible(AnonymiseEntityKind::Name, "an example"));
    assert!(!is_candidate_plausible(AnonymiseEntityKind::Name, "[name omitted]"));
    assert!(!is_candidate_plausible(AnonymiseEntityKind::Name, &"a".repeat(161)));
    assert!(is_candidate_plausible(AnonymiseEntityKind::Name, &"a".repeat(160)));
}

#[test]
fn exact_replacement_is_by_word_and_whatever_the_case() {
    assert_eq!(build_exact_match_pattern("Ann"), r"(?i)\bAnn\b");
    assert_eq!(build_exact_match_pattern("a.b)"), r"(?i)a\.b\)");
    let (text, count) = replace_exact_case_insensitive("Ann saw ANN and Anna.", "ann", "[x]");
    assert_eq!(text, "[x] saw [x] and Anna.");
    assert_eq!(count, 2);
    let (text, count) = replace_exact_case_insensitive("Anna", "ann", "[x]");
    assert_eq!((text.as_str(), count), ("Anna", 0));
    let (text, count) = replace_exact_case_insensitive("Anna", "  ", "[x]");
    assert_eq!((text.as_str(), count), ("Anna", 0));
}

#[test]
fn near_spelling_is_found_and_placeholders_are_spared() {
    let (text, count) =
        replace_near_exact_phrase("He met Cristopher twice.", "Christopher", "[name omitted]");
    assert_eq!(count, 1);
    assert_eq!(text, "He met [name omitted] twice.");
    let (text, count) = replace_near_exact_phrase("[name omitted]", "name", "[name omitted]");
    assert_eq!((text.as_str(), count), ("[name omitted]", 0));
    let (text, count) = replace_near_exact_phrase("abd", "abc", "[x]");
    assert_eq!((text.as_str(), count), ("abd", 0));
}

#[test]
fn similar_spelling_is_found_and_placeholders_are_spared() {
    let (text, count) =
        replace_fuzzy_phrase("In Afghanistan now.", "(Afghanistan)", "[location omitted]");
    assert_eq!((text.as_str(), count), ("In [location omitted] now.", 1));
    let (text, count) =
        replace_fuzzy_phrase("[location omitted]", "location", "[location omitted]");
    assert_eq!((text.as_str(), count), ("[location omitted]", 0));
    assert_eq!(fuzzy_similarity_threshold(1), 0.97f64.to_bits());
    assert_eq!(fuzzy_similarity_threshold(3), 0.94f64.to_bits());
    assert_eq!(fuzzy_similarity_threshold(4), 0.91f64.to_bits());
}

#[test]
fn tokens_are_words_with_what_hangs_on_to_them() {
    assert_eq!(normalize_for_fuzzy("  O'Neil,  J.R. -- X1 "), "o'neil j.r. x1");
    for text in ["", " ", "-.'", "Ärger--Öl 'Tis 5.5.", "A B\tC\nd", "x'y.z-w q", "日本 Ⅻ ½ K\u{212A}"] {
        let once = normalize_for_fuzzy(text);
        assert_eq!(normalize_for_fuzzy(&once), once);
    }
    assert_eq!(fuzzy_token_spans("ab, cd"), vec![(0, 2), (4, 6)]);
    for ascii in 0u8..128 {
        let text = format!("a{}b", ascii as char);
        let joins = ascii.is_ascii_alphanumeric() || "'.-".contains(ascii as char);
        let expected = if joins { vec![(0, 3)] } else { vec![(0, 1), (2, 3)] };
        assert_eq!(fuzzy_token_spans(&text), expected);
    }
}

#[test]
fn nothing_reported_leaves_the_text() {
    let (text, exact, fuzzy) = apply_anonymise_to_text("All is well.", &[]);
    assert_eq!((text.as_str(), exact, fuzzy), ("All is well.", 0, 0));
}

#[test]
fn overlapping_hits_are_resolved_by_rank() {
    let hits = vec![
        Hit { rank: 2, start: 0, end: 4 },
        Hit { rank: 1, start: 2, end: 6 },
        Hit { rank: 3, start: 6, end: 8 },
    ];
    assert_eq!(choose_hits(&hits), vec![(2, 6), (6, 8)]);
    let (text, count) = replace_hits("abcdefgh", &hits, "-");
    assert_eq!((text.as_str(), count), ("ab--", 2));
    assert_eq!(splice("abc", &vec![(1, 2)], "XY"), "aXYc");
}

#[test]
fn an_answer_without_matches_is_an_empty_list() {
    for raw in ["{}", "{none}", " None. ", r#"{"name":[]}"#, r#"{"matches":[]}"#] {
        assert!(parse_anonymise_matches(raw).unwrap().is_empty());
    }
    let empty = parse_json(r#"{"name":[]}"#).unwrap();
    assert!(is_valid_empty_anonymise_json(&empty));
    let full = parse_json(r#"{"name":["Ann"]}"#).unwrap();
    assert!(!is_valid_empty_anonymise_json(&full));
}

#[test]
fn an_answer_that_cannot_be_read_is_an_error() {
    assert_eq!(
        parse_anonymise_matches("I cannot help\nwith that").unwrap_err(),
        "model response did not contain parseable JSON objects or key:value matches; response starts with: I cannot help | with that"
    );
}

#[test]
fn values_are_read_from_json_and_from_text() {
    let v = parse_json(r#"{"name":["Ann","Bob"],"location":"Rome"}"#).unwrap();
    let list = parse_anonymise_matches_from_value(&v);
    assert_eq!(list.len(), 3);
    assert!(list
        .iter()
        .any(|m| m.kind == AnonymiseEntityKind::Location && m.value == "Rome"));
    let list = parse_anonymise_matches_from_key_value_text("name: Ann; location: Rome;");
    assert_eq!(values(&list), vec!["Ann", "Rome"]);
}

#[test]
fn objects_are_found_by_their_braces() {
    assert_eq!(
        find_braced_objects(r#"x {"a":{"b":1}} y {"c":"}"} z"#),
        vec![r#"{"a":{"b":1}}"#, r#"{"c":"}"}"#]
    );
    assert_eq!(extract_json_objects("no braces").len(), 0);
    assert_eq!(response_snippet("1\n2\n3\n4\n5\n6\n7"), "1 | 2 | 3 | 4 | 5 | 6");
    assert_eq!(response_snippet(&"x".repeat(400)), "x".repeat(320));
}

#[test]
fn json_is_opened_as_it_is_written() {
    match parse_json(r#"{"b":[true,null,1.5,"x"],"a":{}}"#) {
        Some(Json::Object(entries)) => {
            assert_eq!(entries.len(), 2);
            let (_, list) = entries.iter().find(|(k, _)| k == "b").unwrap();
            match list {
                Json::Array(items) => {
                    assert!(matches!(items[0], Json::Bool(true)));
                    assert!(matches!(items[1], Json::Null));
                    assert!(matches!(items[2], Json::Number));
                    assert!(matches!(&items[3], Json::Str(t) if t == "x"));
                }
                _ => panic!("not a list"),
            }
        }
        _ => panic!("not an object"),
    }
    assert!(parse_json("{").is_none());
}
