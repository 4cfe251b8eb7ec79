use tinta_core::commands::{check_setting, export_file_name, meeting_title};

#[test]
fn the_window_changes_only_known_settings() {
    for key in ["self_name", "mcp_enabled", "last_source", "theme", "onboarded", "auto_stop", "auto_summary"] {
        assert_eq!(check_setting(key), Ok(()));
    }
    assert_eq!(check_setting("audio_retention_days"), Err("unknown setting audio_retention_days".to_string()));
    assert_eq!(check_setting(""), Err("unknown setting ".to_string()));
}

#[test]
fn a_new_meeting_takes_the_given_title_then_the_call_title_then_the_date() {
    assert_eq!(meeting_title(Some(" Plan "), Some("Standup"), 0), " Plan ");
    assert_eq!(meeting_title(Some(" \t"), Some("Standup"), 0), "Standup");
    assert_eq!(meeting_title(None, Some(""), 0), "Meeting 1970-01-01 00:00 UTC");
    assert_eq!(meeting_title(None, None, 1_774_350_396_463), "Meeting 2026-03-24 11:06 UTC");
}

#[test]
fn export_files_have_safe_names() {
    assert_eq!(export_file_name("Q3: plan/review", "markdown", None), "Q3_ plan_review.md");
    assert_eq!(export_file_name("Q3: plan/review", "markdown", Some(2)), "Q3_ plan_review (2).md");
    assert_eq!(export_file_name("  Café-Run ", "srt", None), "Café-Run.srt");
    assert_eq!(export_file_name("1:1", "vtt", Some(12)), "1_1 (12).vtt");
}
