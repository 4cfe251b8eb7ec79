use tinta_core::date::format_date;
use tinta_core::export::{
    markdown_head, markdown_turn, name_state, speaker_name, subtitle_entry, subtitle_header, timed, timestamp_ms,
    ExportError, ExportFormat,
};

fn timestamp(seconds: f64, separator: char, hours: bool) -> String {
    timestamp_ms((seconds.max(0.0) * 1000.0).round() as u64, separator, hours)
}

#[test]
fn formats_timestamps_and_dates() {
    assert_eq!(timestamp(3725.5, ',', true), "01:02:05,500");
    assert_eq!(timestamp(65.0, '.', false), "01:05");
    assert_eq!(format_date(0), "1970-01-01 00:00 UTC");
    assert_eq!(format_date(1_790_000_000_000), "2026-09-21 14:13 UTC");
}

#[test]
fn long_times_keep_all_hours_and_minutes() {
    assert_eq!(timestamp_ms(360_000_000, '.', true), "100:00:00.000");
    assert_eq!(timestamp_ms(6_000_000, '.', false), "100:00");
    assert_eq!(timestamp_ms(7, ',', true), "00:00:00,007");
}

#[test]
fn names_have_states_and_fallbacks() {
    assert_eq!(name_state(None, Some("user")), "unnamed");
    assert_eq!(name_state(Some("Ana"), Some("user")), "confirmed");
    assert_eq!(name_state(Some("Ana"), Some("meet")), "automatic");
    assert_eq!(name_state(Some("Ana"), None), "automatic");
    assert_eq!(speaker_name(Some("Ana"), Some("Bo"), "mic"), "Ana");
    assert_eq!(speaker_name(None, Some("Bo"), "mic"), "Bo");
    assert_eq!(speaker_name(None, None, "mic"), "Me");
    assert_eq!(speaker_name(None, None, "remote"), "Remote");
    assert!(!timed(Some("granola")));
    assert!(timed(Some("import")));
    assert!(timed(None));
}

#[test]
fn markdown_has_the_sections_of_the_meeting() {
    let head = markdown_head("Weekly sync", None, 0, &["audit".to_string(), "q3".to_string()], "  ", Some("A summary.\n\n"));
    assert_eq!(
        head,
        "# Weekly sync\n\nDate: 1970-01-01 00:00 UTC\nTags: audit, q3\n\n## Notes\n\nNo notes.\n\n\n## Summary (written by a local model)\n\nA summary.\n\n## Transcript\n\n"
    );
    let plain = markdown_head("T", Some(1_790_000_000_000), 0, &[], "Notes here.\n", None);
    assert_eq!(plain, "# T\n\nDate: 2026-09-21 14:13 UTC\n\n## Notes\n\nNotes here.\n\n## Transcript\n\n");
    assert_eq!(markdown_turn("Ana", Some("01:05"), "Hello."), "**Ana** [01:05]: Hello.\n\n");
    assert_eq!(markdown_turn("Ana", None, "Hello."), "**Ana**: Hello.\n\n");
}

#[test]
fn formats_and_subtitles() {
    assert_eq!(ExportFormat::of("md", true), Ok(ExportFormat::Markdown));
    assert_eq!(ExportFormat::of("markdown", false), Ok(ExportFormat::Markdown));
    assert_eq!(ExportFormat::of("json", false), Ok(ExportFormat::Json));
    assert_eq!(ExportFormat::of("srt", true), Ok(ExportFormat::Srt));
    assert_eq!(ExportFormat::of("vtt", false), Err(ExportError::Untimed));
    assert_eq!(ExportFormat::of("pdf", true), Err(ExportError::Unknown));
    assert_eq!(subtitle_header(true), "WEBVTT\n\n");
    assert_eq!(subtitle_header(false), "");
    assert_eq!(
        subtitle_entry(Some(1), "00:00:01,000", "00:00:02,500", "Ana", "Hi."),
        "1\n00:00:01,000 --> 00:00:02,500\nAna: Hi.\n\n"
    );
    assert_eq!(subtitle_entry(None, "a", "b", "Bo", "Yes."), "a --> b\nBo: Yes.\n\n");
}
