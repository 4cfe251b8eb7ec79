use tinta_core::date::{format_date, utc_fields, utc_ms};
use tinta_core::granola::{assemble, body, external_id, import_notes, participants, transcript_entries, SOURCE};

const HEADER: &str = "# Weekly sync\n\n- Date: Mar 24, 2026 12:00 PM GMT+1\n- Granola: https://notes.granola.ai/d/abc\n- Participants: Ana Ruiz (note creator) from Example <ana@example.com>, Bo Chen <bo@example.com>\n\n";

fn transcript() -> String {
    format!("{HEADER}Microphone: Hello Bo.\n\nMicrophone: How are you?\n\nSystem audio (Bo Chen): Fine, thanks.\n\nSystem audio: Someone else.\n\n")
}

fn parse_utc(s: &str) -> Option<i64> {
    let f = utc_fields(s)?;
    let sec: f64 = f.seconds.parse().ok()?;
    utc_ms(&f, (sec * 1000.0) as i64)
}

#[test]
fn imports_once_with_speakers_and_notes() {
    let notes = format!("{HEADER}Check the oracle fix.");
    let m = assemble(
        "abc",
        Some("Weekly sync"),
        parse_utc("2026-03-24T11:06:36.463Z").unwrap(),
        true,
        &notes,
        None,
        &transcript(),
        Some("Ana Ruiz"),
        "Ana Ruiz (note creator) from Example <ana@example.com>, Bo Chen <bo@example.com>",
    );
    assert_eq!(m.title, "Weekly sync");
    assert_eq!(m.external_id, format!("{SOURCE}:abc"));
    assert_eq!(m.started_at, 1_774_350_396_463);
    assert_eq!(m.notes, "Check the oracle fix.");
    assert_eq!(m.turns.len(), 3);
    assert_eq!(m.turns[0].text, "Hello Bo. How are you?");
    let bo = m.speakers.iter().find(|s| s.label == "System audio (Bo Chen)").unwrap();
    assert_eq!(bo.name.as_deref(), Some("Bo Chen"));
    let mic = m.speakers.iter().find(|s| s.label == "Microphone").unwrap();
    assert_eq!((mic.name.as_deref(), mic.name_source.as_deref()), (Some("Ana Ruiz"), Some("self")));
    assert!(m.speakers.iter().any(|s| s.label == "System audio" && s.name.is_none()));
    assert_eq!(m.participants.len(), 2);
    assert!(!m.shared);
}

#[test]
fn summary_is_optional_and_labeled() {
    let notes = format!("{HEADER}Check the oracle fix.");
    let summary = format!("{HEADER}An AI summary.");
    let with = import_notes(&notes, Some(&summary));
    assert!(with.contains("## Granola summary (AI-generated, imported)"));
    assert!(with.starts_with("Check the oracle fix."));
    assert_eq!(import_notes(&notes, None), "Check the oracle fix.");
    assert_eq!(import_notes(&format!("{HEADER}_No private notes._"), None), "");
}

#[test]
fn participants_split_names_and_emails() {
    let p = participants("Ana Ruiz (note creator) from Example <ana@example.com>, Bo Chen <bo@example.com>, Cy", true);
    assert_eq!(p.len(), 3);
    assert_eq!((p[0].participant_id.as_str(), p[0].name.as_str(), p[0].is_self), ("ana@example.com", "Ana Ruiz", true));
    assert_eq!((p[1].participant_id.as_str(), p[1].name.as_str(), p[1].is_self), ("bo@example.com", "Bo Chen", false));
    assert_eq!((p[2].participant_id.as_str(), p[2].name.as_str()), ("Cy", "Cy"));
    assert!(participants("", true).is_empty());
    assert!(!participants("Ana (note creator) <a@b>", false)[0].is_self);
}

#[test]
fn body_removes_the_header() {
    assert_eq!(body(&format!("{HEADER}Line one\r\nLine two\n")), "Line one\nLine two");
    assert_eq!(body("No header"), "No header");
    assert_eq!(body(""), "");
    let entries = transcript_entries("Intro without label\n\nMicrophone: Hi\n\ncontinued");
    assert_eq!(entries, vec![("System audio".to_string(), "Intro without label".to_string()), ("Microphone".to_string(), "Hi continued".to_string())]);
    assert_eq!(external_id("x1"), "granola:x1");
}

#[test]
fn formats_dates() {
    assert_eq!(format_date(0), "1970-01-01 00:00 UTC");
    assert_eq!(format_date(1_790_000_000_000), "2026-09-21 14:13 UTC");
    assert_eq!(format_date(-1), "1969-12-31 23:59 UTC");
    assert_eq!(format_date(951_782_400_000), "2000-02-29 00:00 UTC");
}

#[test]
fn parses_utc_times() {
    assert_eq!(parse_utc("2026-03-24T11:06:36.463Z"), Some(1_774_350_396_463));
    assert_eq!(parse_utc(" 1970-01-01T00:00 "), Some(0));
    assert_eq!(parse_utc("2000-02-29T00:00:00Z"), Some(951_782_400_000));
    assert_eq!(parse_utc("2026-03-24"), None);
    assert_eq!(parse_utc("2026-xx-24T00:00"), None);
    assert_eq!(parse_utc("2026-03-24T11"), None);
}

#[test]
fn formatted_dates_read_back() {
    for ms in [0i64, 951_782_400_000, 1_790_000_000_000, -86_400_000 * 400] {
        let text = format_date(ms);
        let iso = format!("{}T{}:00Z", &text[0..10], &text[11..16]);
        assert_eq!(parse_utc(&iso), Some(ms - ms.rem_euclid(60_000)));
    }
}

#[test]
fn dates_show_the_minute_and_read_back() {
    for ms in [0i64, 59_999, 1_774_350_396_463, -1, -60_001, 253_402_300_799_999] {
        assert_eq!(format_date(ms), format_date(ms - ms.rem_euclid(60_000)));
    }
    for ms in [0i64, 60_000, 1_774_350_360_000, 951_782_400_000, 253_402_300_740_000] {
        let s = format_date(ms);
        assert_eq!(s.len(), 20);
        assert!(s.ends_with(" UTC"));
        let fields = utc_fields(&format!("{}T{}", &s[0..10], &s[11..16])).unwrap();
        assert_eq!(fields.seconds, "0");
        assert_eq!(utc_ms(&fields, 0), Some(ms));
    }
}
