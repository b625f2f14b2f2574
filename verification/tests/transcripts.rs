use transcribe_offline::clock::{parse_time_to_us, ClockTime};
use transcribe_offline::highlight::{
    char_index_to_line_index, highlight_parts, line_start_char_index,
    selected_text_from_cursor_range, transcript_parts, SpanStyle, StyledSpan,
};
use transcribe_offline::live::append_live_preview_text;
use transcribe_offline::sizes::{
    download_status_text, format_size, human_model_size, log_timestamp_hms,
    parse_download_fraction, parse_size_token_bytes, secs_to_hms,
};
use transcribe_offline::speakers::{
    carry_over_names, detect_speaker_slots, rename_speakers, SpeakerRenameEntry,
};
use transcribe_offline::transcript::{
    cue_index_at_time, cue_line_range_at_time, cue_start_for_line, parse_transcript, TranscriptCue,
};

fn cue(line_index: usize, start_us: u64, end_us: u64) -> TranscriptCue {
    TranscriptCue {
        line_index,
        start_us,
        end_us,
    }
}

fn entry(tag: &str, name: &str) -> SpeakerRenameEntry {
    SpeakerRenameEntry {
        speaker_tag: tag.to_string(),
        replacement: name.to_string(),
    }
}

#[test]
fn clock_times_are_read_to_the_millisecond() {
    assert_eq!(parse_time_to_us("00:00:01"), ClockTime::At(1_000_000));
    assert_eq!(parse_time_to_us("01:02:03.5"), ClockTime::At(3_723_500_000));
    assert_eq!(parse_time_to_us("01:02:03,250"), ClockTime::At(3_723_250_000));
    assert_eq!(parse_time_to_us("x"), ClockTime::Nothing);
    assert_eq!(parse_time_to_us("00:01"), ClockTime::Nothing);
}

#[test]
fn every_decimal_number_is_read_in_a_clock_time() {
    let at = |token: &str, us: u64| assert_eq!(parse_time_to_us(token), ClockTime::At(us), "{token}");
    at("1000000:0:0", 3_600_000_000_000_000);
    at("0:0:1.2345678", 1_234_567);
    at("0:0:0.9999999999999999999999999", 999_999);
    at("1.5:0:0", 5_400_000_000);
    at("0.0000000002777777:0:0", 0);
    at("0.0000000002777778:0:0", 1);
    at("1:-5:0", 3_300_000_000);
    at("+1:+2:+3", 3_723_000_000);
    at("-0:0:0", 0);
    at("1e2:0:0", 360_000_000_000);
    at("0:0:12345E-3", 12_345_000);
    at("0:0:1e-7", 0);
    at("0:0:1e-999999999999999999999999999999999999", 0);
    at("0:0:0e999999999999999999999999999999999999", 0);
    at("0:0:.5", 500_000);
    at("0:0:5.", 5_000_000);
    at(" 0:0:7:rest ", 7_000_000);
    at("0:0:000000000000000000000000000000000000000001", 1_000_000);
    at("0:0:18446744073709.551615", u64::MAX);
    for token in ["-1:0:0", "inf:0:0", "0:NaN:0", "0:0:-Infinity", "1e30:0:0", "0:0:18446744073709.551616"] {
        assert_eq!(parse_time_to_us(token), ClockTime::OutOfRange, "{token}");
    }
    for token in [
        "", ":", "::", "1:2:", "1::3", ":2:3", "1:2:x", "1:2:.", "1:2:e5", "1:2:3e", "1:2:3e+", "1:2:--3",
        "1: 2:3", "1:2:3.4.5", "1:2:0x3", "1:2:1_000", "infx:0:0", "1:2:\u{661}", "1:2:3e1.5",
    ] {
        assert_eq!(parse_time_to_us(token), ClockTime::Nothing, "{token}");
    }
}

fn seconds_of(token: &str) -> Option<f64> {
    let norm = token.trim().replace(',', ".");
    let mut parts = norm.split(':');
    let h = parts.next()?.parse::<f64>().ok()?;
    let m = parts.next()?.parse::<f64>().ok()?;
    let s = parts.next()?.parse::<f64>().ok()?;
    Some(h * 3600.0 + m * 60.0 + s)
}

#[test]
fn clock_times_are_read_as_numbers_are() {
    let parts = [
        "0", "00", "7", "59", "1000000", "1.5", "1,25", ".5", "5.", ".", ",", "", "-1", "+2", "-0.5", "+", "-",
        "1e3", "1E-3", "2e+1", "e1", "1e", "1e1.5", "inf", "-INF", "infinity", "nan", "infinit", " 1", "1 ",
        "0x1", "1_0", "1e400", "1e-400", "123456789.123456789", "\u{663}",
    ];
    for h in parts {
        for m in parts {
            for s in parts {
                let token = format!("{h}:{m}:{s}");
                match (seconds_of(&token), parse_time_to_us(&token)) {
                    (None, read) => assert_eq!(read, ClockTime::Nothing, "{token}"),
                    (Some(x), ClockTime::At(us)) => {
                        assert!((us as f64 / 1e6 - x).abs() <= 1e-5 + x.abs() * 1e-9, "{token}");
                    }
                    (Some(x), read) => {
                        assert_eq!(read, ClockTime::OutOfRange, "{token}");
                        assert!(!x.is_finite() || x < 0.0 || x > 1.8e13, "{token}");
                    }
                }
            }
        }
    }
}

#[test]
fn cues_are_read_from_both_layouts() {
    let srt = "1\n00:00:01,000 --> 00:00:02,500\nHello\n\n2\n00:00:03,000 --> 00:00:04,000\nWorld\n";
    assert_eq!(
        parse_transcript(srt),
        vec![cue(1, 1_000_000, 2_500_000), cue(5, 3_000_000, 4_000_000)]
    );
    let md = "[00:00:01 - 00:00:02] SPEAKER_00: Hello\nno time\n[00:00:02 - 00:00:03] there";
    assert_eq!(
        parse_transcript(md),
        vec![cue(0, 1_000_000, 2_000_000), cue(2, 2_000_000, 3_000_000)]
    );
    assert!(parse_transcript("nothing here").is_empty());
}

#[test]
fn a_time_belongs_to_the_cue_that_is_spoken() {
    let cues = vec![cue(1, 1_000_000, 2_000_000), cue(5, 3_000_000, 4_000_000)];
    assert_eq!(cue_index_at_time(&cues, 1_500_000), Some(1));
    assert_eq!(cue_index_at_time(&cues, 3_000_000), Some(5));
    assert_eq!(cue_index_at_time(&cues, 2_500_000), Some(1));
    assert_eq!(cue_index_at_time(&cues, 0), None);
    assert_eq!(cue_index_at_time(&[], 0), None);
    assert_eq!(cue_start_for_line(&cues, 5), Some(3_000_000));
    assert_eq!(cue_start_for_line(&[], 5), None);
    assert_eq!(cue_line_range_at_time(&cues, 1_500_000, 8), Some((1, 5)));
    assert_eq!(cue_line_range_at_time(&cues, 3_500_000, 8), Some((5, 8)));
}

#[test]
fn speakers_have_a_slot_for_each_number() {
    assert_eq!(
        detect_speaker_slots("SPEAKER_00: a\nspeaker_2: b"),
        vec!["SPEAKER_00", "SPEAKER_01", "SPEAKER_02"]
    );
    assert!(detect_speaker_slots("no one").is_empty());
}

#[test]
fn names_are_carried_over_and_put_in() {
    let tags = vec!["SPEAKER_00".to_string(), "SPEAKER_01".to_string()];
    let list = carry_over_names(&tags, &vec![entry("SPEAKER_01", "Ann")]);
    assert_eq!(list.len(), 2);
    assert_eq!(list[0].replacement, "");
    assert_eq!(list[1].replacement, "Ann");
    let (text, count) =
        rename_speakers("SPEAKER_01: hi\nSPEAKER_00: ho\nspeaker_01: hum", &list).unwrap();
    assert_eq!(count, 2);
    assert_eq!(text, "Ann: hi\nSPEAKER_00: ho\nAnn: hum");
}

#[test]
fn lines_and_characters_are_matched() {
    let text = "ab\ncd\n\nef";
    assert_eq!(line_start_char_index(text, 0), 0);
    assert_eq!(line_start_char_index(text, 1), 3);
    assert_eq!(line_start_char_index(text, 3), 7);
    assert_eq!(char_index_to_line_index(text, 0), 0);
    assert_eq!(char_index_to_line_index(text, 4), 1);
    for line in 0..4 {
        assert_eq!(
            char_index_to_line_index(text, line_start_char_index(text, line)),
            line
        );
    }
}

#[test]
fn placeholders_and_times_are_set_off() {
    assert_eq!(
        highlight_parts(6, &vec![(1, 3)], &vec![(4, 5)]),
        vec![
            StyledSpan { start: 0, end: 1, style: SpanStyle::Normal },
            StyledSpan { start: 1, end: 3, style: SpanStyle::Omitted },
            StyledSpan { start: 3, end: 4, style: SpanStyle::Normal },
            StyledSpan { start: 4, end: 5, style: SpanStyle::Timing },
            StyledSpan { start: 5, end: 6, style: SpanStyle::Normal },
        ]
    );
    let parts = transcript_parts("Hi [name omitted]!", None);
    assert_eq!(parts.len(), 3);
    assert_eq!(
        parts[1],
        StyledSpan { start: 3, end: 17, style: SpanStyle::Omitted }
    );
}

#[test]
fn a_selection_is_cut_out_by_characters() {
    assert_eq!(
        selected_text_from_cursor_range("h\u{e9}llo", Some((1, 3))).as_deref(),
        Some("\u{e9}l")
    );
    assert_eq!(selected_text_from_cursor_range("hello", Some((2, 2))), None);
    assert_eq!(selected_text_from_cursor_range("hello", None), None);
    assert_eq!(
        selected_text_from_cursor_range("hello", Some((3, 99))).as_deref(),
        Some("lo")
    );
}

fn size_as_float(bytes: u64) -> String {
    const KIB: f64 = 1024.0;
    const MIB: f64 = KIB * 1024.0;
    const GIB: f64 = MIB * 1024.0;
    let b = bytes as f64;
    if b >= GIB {
        format!("{:.2} GiB", b / GIB)
    } else if b >= MIB {
        format!("{:.2} MiB", b / MIB)
    } else if b >= KIB {
        format!("{:.2} KiB", b / KIB)
    } else {
        format!("{bytes} B")
    }
}

#[test]
fn sizes_are_written_as_floats_are() {
    for bytes in [
        0u64,
        1,
        1023,
        1024,
        1075,
        1076,
        1126,
        1536,
        1_048_575,
        1_048_576,
        1_101_004,
        147_951_465,
        574_041_195,
        1_073_741_823,
        1_073_741_824,
        1_624_555_275,
        3_221_225_472,
    ] {
        assert_eq!(format_size(bytes), size_as_float(bytes), "{bytes}");
        assert_eq!(human_model_size(bytes), format_size(bytes));
    }
}

#[test]
fn times_are_written_with_two_digits() {
    assert_eq!(secs_to_hms(3_723), "01:02:03");
    assert_eq!(secs_to_hms(0), "00:00:00");
    assert_eq!(log_timestamp_hms(86_400 + 61), "00:01:01");
}

#[test]
fn a_written_time_is_read_as_that_time() {
    for seconds in [0u64, 59, 60, 3_599, 3_723, 359_999, 3_600_000, 18_446_744_073_709] {
        let text = secs_to_hms(seconds);
        assert_eq!(parse_time_to_us(&text), ClockTime::At(seconds * 1_000_000));
    }
}

#[test]
fn what_a_download_says_can_be_read_back() {
    let text = download_status_text("Model", 512 * 1024, Some(1024 * 1024), 2048);
    assert_eq!(text, "Downloading Model: 512.00 KiB / 1.00 MiB at 2.00 KiB/s");
    let (done, total) = parse_download_fraction(&text).unwrap();
    assert_eq!((done.number.as_str(), done.unit), ("512.00", 1024));
    assert_eq!((total.number.as_str(), total.unit), ("1.00", 1024 * 1024));
    assert_eq!(
        download_status_text("Model", 10, None, 1),
        "Downloading Model: 10 B at 1 B/s"
    );
    assert_eq!(
        download_status_text("Model", 10, Some(0), 1),
        "Downloading Model: 10 B at 1 B/s"
    );
    assert!(parse_download_fraction("Downloading Model: 10 B at 1 B/s").is_none());
    assert!(parse_download_fraction("Fetching: 1 B / 2 B at 1 B/s").is_none());
    assert!(parse_download_fraction("Downloading: 1 furlong / 2 B").is_none());
    let size = parse_size_token_bytes(" 1,234.5 gb ").unwrap();
    assert_eq!((size.number.as_str(), size.unit), ("1234.5", 1024 * 1024 * 1024));
    let bare = parse_size_token_bytes("-1e3").unwrap();
    assert_eq!((bare.number.as_str(), bare.unit), ("-1e3", 1));
    assert_eq!(parse_size_token_bytes("3 TiB").unwrap().unit, 1_099_511_627_776);
    assert_eq!(parse_size_token_bytes("3 kb").unwrap().unit, 1024);
    assert!(parse_size_token_bytes("1 furlong").is_none());
    assert!(parse_size_token_bytes(" , ").is_none());
}

#[test]
fn live_text_is_joined_with_a_space_where_it_needs_one() {
    let mut text = String::new();
    append_live_preview_text(&mut text, "Hello");
    append_live_preview_text(&mut text, "world");
    append_live_preview_text(&mut text, ", again");
    assert_eq!(text, "Hello world, again");
}
