use base64::Engine as _;
use tinta_core::db::{
    audio_deadline, audio_expired, check_merge, check_retention, clean_folder, clean_name, clean_tags,
    folder_rename_target, imported_tags, new_speaker_label, retention_days, speaker_rename, summary_line,
    trash_expired, undo_audio_until, undo_plan, valid_retention_days, Change, ChangeError, Origin, Participant,
    Preview, Recorded, UndoAction,
};
use tinta_core::keys::Keys;
use tinta_core::paths::{audio_dir, check_local, database_path, meeting_dir, socket_path, PathError};
use tinta_core::search::search_query;
use tinta_core::{now_ms, DAY_MS, DEFAULT_AUDIO_RETENTION_DAYS, MAX_AUDIO_RETENTION_DAYS, TRASH_DAYS};

#[test]
fn tags_and_folders_are_clean_and_searchable() {
    let tags = clean_tags(&["Audit".into(), " #audit ".into(), "Q3".into(), "".into()]);
    assert_eq!(tags, vec!["audit", "q3"]);
    assert_eq!(clean_folder(Some("  Clients ")).as_deref(), Some("Clients"));
    assert_eq!(clean_folder(Some("   ")), None);
    assert!(search_query("q3").is_some());
    assert_eq!(folder_rename_target("Clients", "Customers", None), "Customers");
    assert_eq!(folder_rename_target("Partners", "customers", Some("Customers")), "Customers");
    assert_eq!(folder_rename_target("Customers", "customers", Some("Customers")), "customers");
}

#[test]
fn user_deletion_goes_to_trash_and_expires() {
    let now = now_ms();
    assert!(!trash_expired(Some(now), now));
    assert!(trash_expired(Some(now), now + TRASH_DAYS * DAY_MS));
    assert!(!trash_expired(None, now + TRASH_DAYS * DAY_MS));
}

#[test]
fn retention_keeps_the_audio_of_failed_and_unfinished_meetings() {
    let now = now_ms();
    let old = now - (DEFAULT_AUDIO_RETENTION_DAYS + 1) * DAY_MS;
    let expired: Vec<&str> = ["ready", "failed", "processing", "recording"]
        .into_iter()
        .filter(|state| audio_expired(state, false, None, None, old, now, DEFAULT_AUDIO_RETENTION_DAYS))
        .collect();
    assert_eq!(expired, vec!["ready"]);
    assert!(audio_expired("failed", false, Some(now), None, old, now, 7));
    assert!(audio_expired("failed", false, None, Some(now - TRASH_DAYS * DAY_MS), old, now, 7));
    assert!(!audio_expired("ready", true, Some(0), None, old, now, 7));
}

#[test]
fn merge_refuses_a_merged_target() {
    assert_eq!(check_merge("m", "m", "a", "b", false), Ok(()));
    assert_eq!(check_merge("m", "m", "c", "a", true), Err(ChangeError::MergedTarget));
    assert_eq!(check_merge("m", "m", "c", "b", false), Ok(()));
    assert_eq!(check_merge("m", "n", "c", "b", false), Err(ChangeError::NotMergeable));
    assert_eq!(check_merge("m", "m", "c", "c", false), Err(ChangeError::NotMergeable));
    assert_eq!(ChangeError::MergedTarget.message(), "the target speaker is merged into another speaker");
}

#[test]
fn audio_retention_default_follows_the_setting() {
    assert_eq!(retention_days(None), DEFAULT_AUDIO_RETENTION_DAYS);
    assert_eq!(retention_days(Some("14")), 14);
    assert_eq!(retention_days(Some("31")), DEFAULT_AUDIO_RETENTION_DAYS);
    assert_eq!(retention_days(Some("two")), DEFAULT_AUDIO_RETENTION_DAYS);
    assert!(valid_retention_days(14));
    assert!(!valid_retention_days(MAX_AUDIO_RETENTION_DAYS + 1));
    assert_eq!(check_retention(false, 31), Err(ChangeError::RetentionRange));
    assert_eq!(check_retention(true, 3), Err(ChangeError::NoAudio));
    assert_eq!(check_retention(false, 0), Ok(()));
    assert_eq!(ChangeError::RetentionRange.message(), "the retention period must be between 0 and 30 days");
    assert_eq!(audio_deadline(Some(1000), 5, 2), 1000 + 2 * DAY_MS);
    assert_eq!(audio_deadline(None, 5, 0), 5);
}

#[test]
fn summaries_give_a_short_first_line() {
    assert_eq!(summary_line("### Overview\n\n- **Audit** plan\n").as_deref(), Some("Audit plan"));
    assert_eq!(summary_line("# Only a heading\n"), None);
    let long = "x".repeat(200);
    let short = summary_line(&long).unwrap();
    assert_eq!(short.chars().count(), 161);
    assert!(short.ends_with('…'));
}

#[test]
fn cards_list_each_person_once() {
    let mut p = Preview { summary: None, people: Vec::new() };
    p.add_person("Ana".to_string());
    p.add_person("Bo".to_string());
    p.add_person("Ana".to_string());
    assert_eq!(p.people, vec!["Ana".to_string(), "Bo".to_string()]);
}

#[test]
fn changes_record_what_undo_restores() {
    let c = Change::meeting("m1", "title", Some("Old"), Some("New"));
    assert_eq!((c.meeting_id.as_str(), c.entity.as_str(), c.entity_id.as_str(), c.field.as_str()), ("m1", "meeting", "m1", "title"));
    assert_eq!((c.old.as_deref(), c.new.as_deref()), (Some("Old"), Some("New")));
    let w = Change::whole("m1", "notes", None, Some("text"));
    assert_eq!((w.entity.as_str(), w.field.as_str(), w.old), ("notes", "content", None));
    assert_eq!(UndoAction::of(&c.entity, &c.field), Some(UndoAction::Title));
    assert_eq!(UndoAction::of(&w.entity, &w.field), Some(UndoAction::Notes));
    assert_eq!(UndoAction::of("turn", "text"), Some(UndoAction::TurnText));
    assert_eq!(UndoAction::of("speaker", "merged_into"), Some(UndoAction::Unmerge));
    assert_eq!(UndoAction::of("meeting", "color"), None);
    assert_eq!(undo_audio_until(Some("1700000000000")), Some(1_700_000_000_000));
    assert_eq!(undo_audio_until(Some("soon")), None);
    assert_eq!(undo_audio_until(None), None);
    assert_eq!(Origin::Mcp.as_str(), "mcp");
    assert_eq!(Origin::User.as_str(), "user");
}

#[test]
fn speakers_and_imports() {
    assert_eq!(new_speaker_label(2), "Speaker 3");
    assert_eq!(speaker_rename(Some("  Ana ")), (Some("Ana".to_string()), Some("user")));
    assert_eq!(speaker_rename(Some("  ")), (None, None));
    assert_eq!(speaker_rename(None), (None, None));
    assert_eq!(imported_tags(true), vec!["granola", "shared-with-me"]);
    assert_eq!(imported_tags(false), vec!["granola"]);
    assert_eq!(clean_name("  Title "), Some("Title".to_string()));
    assert_eq!(clean_name(" \t"), None);
    let p = Participant { participant_id: "a".into(), name: "Ana".into(), is_self: true };
    assert!(p.is_self);
}

#[test]
fn keys_derive_with_hkdf_and_encode_in_base64() {
    let keys = Keys::for_tests();
    let hk = hkdf::Hkdf::<sha2::Sha256>::new(Some(b"tinta"), &[7u8; 32]);
    let mut audio = [0u8; 32];
    hk.expand(b"audio", &mut audio).unwrap();
    let mut database = [0u8; 32];
    hk.expand(b"database", &mut database).unwrap();
    assert_eq!(keys.audio, audio);
    assert_eq!(keys.database, database);
    assert_ne!(keys.audio, [7u8; 32]);
    assert_eq!(keys.audio_base64(), base64::engine::general_purpose::STANDARD.encode(audio));
    assert_eq!(keys.audio_base64().len(), 44);
    let derived = Keys::derive(&[1u8; 16]).unwrap();
    assert_ne!(derived.audio, derived.database);
}

#[test]
fn library_paths() {
    assert_eq!(database_path("/Users/a/Tinta"), "/Users/a/Tinta/library.db");
    assert_eq!(meeting_dir("/Users/a/Tinta", "m1"), "/Users/a/Tinta/meetings/m1");
    assert_eq!(audio_dir("/Users/a/Tinta", "m1"), "/Users/a/Tinta/meetings/m1/audio");
    assert!(socket_path("/Users/a/Library/Application Support/Tinta").ends_with("tinta.sock"));
    assert_eq!(check_local("/Users/a/Library/Mobile Documents/com~apple~CloudDocs/Tinta"), Err(PathError::CloudSynced));
    assert_eq!(check_local("/Users/a/Documents/Tinta"), Ok(()));
    assert!(now_ms() > 1_700_000_000_000);
}

fn recorded(id: i64, entity: &str, field: &str, old: Option<&str>) -> Recorded {
    Recorded {
        id,
        meeting_id: "m1".to_string(),
        entity: entity.to_string(),
        entity_id: if entity == "turn" { "7".to_string() } else { "m1".to_string() },
        field: field.to_string(),
        old: old.map(str::to_string),
    }
}

#[test]
fn undo_gives_each_field_its_old_value() {
    let batch = vec![
        recorded(9, "meeting", "title", Some("Standup")),
        recorded(8, "meeting", "tags", None),
        recorded(7, "notes", "content", None),
        recorded(6, "meeting", "deleted_at", None),
        recorded(5, "meeting", "audio_until", Some("1774350396463")),
        recorded(4, "turn", "text", Some("Hello")),
        recorded(3, "summary", "content", None),
    ];
    let steps = undo_plan(&batch).unwrap();
    assert_eq!(steps.len(), 7);
    assert_eq!(steps[0].revision_id, 9);
    assert_eq!(steps[0].action, UndoAction::Title);
    assert_eq!(steps[0].value.as_deref(), Some("Standup"));
    assert_eq!(steps[1].action, UndoAction::Tags);
    assert_eq!(steps[1].value.as_deref(), Some("[]"));
    assert_eq!(steps[2].action, UndoAction::Notes);
    assert_eq!(steps[2].value.as_deref(), Some(""));
    assert_eq!(steps[3].action, UndoAction::Restore);
    assert_eq!(steps[3].value, None);
    assert_eq!(steps[4].action, UndoAction::AudioUntil);
    assert_eq!(steps[4].until, Some(1_774_350_396_463));
    assert_eq!(steps[5].action, UndoAction::TurnText);
    assert_eq!(steps[5].entity_id, "7");
    assert_eq!(steps[5].value.as_deref(), Some("Hello"));
    assert_eq!(steps[6].action, UndoAction::Summary);
    assert_eq!(steps[6].value, None);
    assert_eq!(steps[6].meeting_id, "m1");
}

#[test]
fn undo_refuses_a_batch_with_an_unknown_change_before_any_write() {
    let batch = vec![
        recorded(3, "meeting", "title", Some("Standup")),
        recorded(2, "meeting", "archived", Some("0")),
        recorded(1, "speaker", "color", None),
    ];
    let error = undo_plan(&batch).unwrap_err();
    assert_eq!(error.entity, "meeting");
    assert_eq!(error.field, "archived");
    assert_eq!(error.message(), "cannot undo meeting.archived");
    assert!(undo_plan(&[]).unwrap().is_empty());
}

#[test]
fn the_audio_folder_is_in_the_meeting_folder() {
    let meeting = meeting_dir("/Users/a/Tinta", "m1");
    assert_eq!(audio_dir("/Users/a/Tinta", "m1"), format!("{meeting}/audio"));
    assert_eq!(audio_dir("/Users/a/Tinta/", "m1"), "/Users/a/Tinta/meetings/m1/audio");
}

#[test]
fn audio_retention_works_near_the_start_of_the_clock() {
    let now = i64::MIN + TRASH_DAYS * DAY_MS;
    assert!(!audio_expired("ready", false, None, None, 0, now, 0));
    assert!(audio_expired("ready", false, None, Some(i64::MIN), 0, now, 0));
}
