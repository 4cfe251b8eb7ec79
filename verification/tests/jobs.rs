use tinta_core::db::Participant;
use tinta_core::jobs::{
    begin_finalize, begin_summary, check_move, max_speakers, move_target, release, retention_ids, transcript_line,
    MoveRefusal, WorkRefusal,
};
use tinta_core::session::Active;

fn strings(list: &[&str]) -> Vec<String> {
    list.iter().map(|s| s.to_string()).collect()
}

fn recording(id: &str) -> Active {
    Active {
        meeting_id: id.to_string(),
        start_wall_ms: 1_000,
        paused: false,
        source: "all".to_string(),
        meeting_code: None,
        app_call: None,
    }
}

fn person(id: &str, is_self: bool) -> Participant {
    Participant { participant_id: id.to_string(), name: id.to_uppercase(), is_self }
}

#[test]
fn a_meeting_has_one_final_pass_at_a_time() {
    let mut finalizing = strings(&["other"]);
    assert_eq!(begin_finalize(&mut finalizing, "m1", false), Ok(()));
    assert_eq!(finalizing, strings(&["other", "m1"]));
    assert_eq!(begin_finalize(&mut finalizing, "m1", false), Err(WorkRefusal::Processing));
    assert_eq!(finalizing, strings(&["other", "m1"]));
    release(&mut finalizing, "m1");
    assert_eq!(finalizing, strings(&["other"]));
    assert_eq!(begin_finalize(&mut finalizing, "m1", false), Ok(()));
}

#[test]
fn an_edited_transcript_is_not_processed_again() {
    let mut finalizing = Vec::new();
    assert_eq!(begin_finalize(&mut finalizing, "m1", true), Err(WorkRefusal::Edited));
    assert!(finalizing.is_empty());
    assert_eq!(
        WorkRefusal::Edited.message(),
        "the transcript has edits. Processing again does not overwrite them."
    );
    assert_eq!(WorkRefusal::Processing.message(), "Tinta already processes this meeting");
}

#[test]
fn a_meeting_has_one_summary_at_a_time() {
    let mut summarizing = Vec::new();
    assert_eq!(begin_summary(&mut summarizing, "m1"), Ok(()));
    assert_eq!(begin_summary(&mut summarizing, "m1"), Err(WorkRefusal::Summarizing));
    assert_eq!(begin_summary(&mut summarizing, "m2"), Ok(()));
    release(&mut summarizing, "m1");
    assert_eq!(summarizing, strings(&["m2"]));
    assert_eq!(WorkRefusal::Summarizing.message(), "a summary for this meeting is already in progress");
}

#[test]
fn release_of_an_idle_meeting_changes_nothing() {
    let mut running = strings(&["a", "b"]);
    release(&mut running, "c");
    assert_eq!(running, strings(&["a", "b"]));
}

#[test]
fn retention_spares_busy_meetings() {
    let expired = strings(&["rec", "proc", "sum", "idle"]);
    let active = Some(recording("rec"));
    let finalizing = strings(&["proc"]);
    let summarizing = strings(&["sum"]);
    assert_eq!(retention_ids(&expired, &active, &finalizing, &summarizing, false), strings(&["sum", "idle"]));
    assert_eq!(retention_ids(&expired, &active, &finalizing, &summarizing, true), strings(&["idle"]));
    assert_eq!(retention_ids(&expired, &None, &[], &[], true), expired);
}

#[test]
fn the_final_pass_looks_for_the_remote_speakers() {
    assert_eq!(max_speakers(&[person("me", true), person("a", false), person("b", false)]), Some(2));
    assert_eq!(max_speakers(&[person("me", true)]), None);
    assert_eq!(max_speakers(&[]), None);
}

#[test]
fn transcript_lines_have_the_time_when_the_meeting_has_times() {
    assert_eq!(transcript_line("Ana", "Hello", Some(65_400)), "[01:05] Ana: Hello");
    assert_eq!(transcript_line("Ana", "Hello", None), "Ana: Hello");
    assert_eq!(transcript_line("Bo", "x", Some(3_600_000)), "[60:00] Bo: x");
}

#[test]
fn the_library_moves_into_an_empty_local_folder() {
    let target = move_target("/Users/ana/Documents");
    assert_eq!(target, "/Users/ana/Documents/Tinta");
    assert_eq!(move_target("/Volumes/Disk/"), "/Volumes/Disk/Tinta");
    assert_eq!(check_move(&None, &[], &target, false, false), Ok(()));
    assert_eq!(check_move(&Some(recording("m1")), &[], &target, false, false), Err(MoveRefusal::Busy));
    assert_eq!(check_move(&None, &strings(&["m1"]), &target, false, false), Err(MoveRefusal::Busy));
    assert_eq!(check_move(&None, &[], &target, true, false), Err(MoveRefusal::SameFolder));
    assert_eq!(check_move(&None, &[], &target, false, true), Err(MoveRefusal::NotEmpty));
    let synced = move_target("/Users/ana/Library/CloudStorage/Dropbox");
    assert_eq!(check_move(&None, &[], &synced, false, false), Err(MoveRefusal::CloudSynced));
}

#[test]
fn move_refusals_explain_themselves() {
    assert_eq!(
        MoveRefusal::Busy.message("/x/Tinta"),
        "Stop the recording and wait until processing finishes before you move the library."
    );
    assert_eq!(MoveRefusal::SameFolder.message("/x/Tinta"), "The library is already in this folder.");
    assert_eq!(MoveRefusal::NotEmpty.message("/x/Tinta"), "/x/Tinta already exists and is not empty.");
    assert_eq!(
        MoveRefusal::CloudSynced.message("/x/Tinta"),
        "This folder is in a cloud-synced location. Select a folder that stays on this Mac."
    );
}
