use tinta_core::calls::AppCall;
use tinta_core::db::Participant;
use tinta_core::session::{
    auto_stop_due, can_start, check_idle, disconnect_message, left_at, limit_names, limit_participants, mark_self,
    next_restart_delay, on_extension_message, plan_recording, progress_meeting, schedule_auto_stop, start, Active,
    Busy, EngineEventKind, ExtensionKind, ExtensionMessage, ExtensionState, StartRefusal, CALL_END_GRACE_MS,
    ENGINE_RESTART_MAX_MS, ENGINE_RESTART_MIN_MS, MAX_NAME_CHARS, MAX_PEOPLE,
};

fn person(id: &str, name: &str, is_self: bool) -> Participant {
    Participant { participant_id: id.to_string(), name: name.to_string(), is_self }
}

fn message(kind: ExtensionKind) -> ExtensionMessage {
    ExtensionMessage {
        kind,
        t: None,
        meeting_code: None,
        title: None,
        self_name: None,
        participants: Vec::new(),
        speaking: Vec::new(),
        mic_muted: None,
        muted: None,
        left_at: None,
    }
}

fn state_message(code: &str, muted: Option<bool>) -> ExtensionMessage {
    let mut m = message(ExtensionKind::MeetState);
    m.meeting_code = Some(code.to_string());
    m.title = Some("Weekly sync".to_string());
    m.participants = vec![person("p1", "Ana Ruiz", false), person("p2", "Bo Chen", false)];
    m.mic_muted = muted;
    m
}

fn recording(code: Option<&str>) -> Active {
    Active {
        meeting_id: "m1".to_string(),
        start_wall_ms: 1000,
        paused: false,
        source: "all".to_string(),
        meeting_code: code.map(str::to_string),
        app_call: None,
    }
}

#[test]
fn message_kinds_follow_the_type_field() {
    assert_eq!(ExtensionKind::of("meet_state"), ExtensionKind::MeetState);
    assert_eq!(ExtensionKind::of("active_speakers"), ExtensionKind::ActiveSpeakers);
    assert_eq!(ExtensionKind::of("mic_state"), ExtensionKind::MicState);
    assert_eq!(ExtensionKind::of("ping"), ExtensionKind::Ping);
    assert_eq!(ExtensionKind::of("meeting_ended"), ExtensionKind::MeetingEnded);
    assert_eq!(ExtensionKind::of("other"), ExtensionKind::Other);
    assert_eq!(EngineEventKind::of("call_state"), EngineEventKind::CallState);
    assert_eq!(EngineEventKind::of("summary_progress"), EngineEventKind::SummaryProgress);
    assert_eq!(EngineEventKind::of("warning"), EngineEventKind::Other);
}

#[test]
fn a_state_message_names_the_user_and_the_call() {
    let mut ext = ExtensionState::default();
    let mut active = None;
    let mut ended = None;
    let out = on_extension_message(&mut ext, &mut active, &mut ended, &state_message("abc-defg-hij", Some(true)), "  bo chen ", 50);
    assert_eq!(ext.connected_at, Some(50));
    assert_eq!(ext.last_seen, Some(50));
    assert_eq!(ext.meeting_code.as_deref(), Some("abc-defg-hij"));
    assert_eq!(ext.title.as_deref(), Some("Weekly sync"));
    assert_eq!(ext.mic_muted, Some(true));
    assert!(!ext.participants[0].is_self);
    assert!(ext.participants[1].is_self);
    assert!(out.store_participants.is_none());
    assert!(!out.recording);
    assert_eq!(out.recording_since, None);
    let out = on_extension_message(&mut ext, &mut active, &mut ended, &message(ExtensionKind::Ping), "", 80);
    assert_eq!((ext.connected_at, ext.last_seen), (Some(50), Some(80)));
    assert!(out.offer_self_name.is_none());
}

#[test]
fn a_recording_joins_the_call_and_stores_its_people() {
    let mut ext = ExtensionState::default();
    let mut active = Some(recording(None));
    let mut ended = None;
    let mut m = state_message("abc-defg-hij", Some(false));
    m.self_name = Some("Ana Ruiz".to_string());
    m.t = Some(70);
    let out = on_extension_message(&mut ext, &mut active, &mut ended, &m, "", 100);
    assert_eq!(active.as_ref().unwrap().meeting_code.as_deref(), Some("abc-defg-hij"));
    let (id, people) = out.store_participants.unwrap();
    assert_eq!(id, "m1");
    assert_eq!(people.len(), 2);
    assert!(people[0].is_self);
    assert_eq!(out.offer_self_name.as_deref(), Some("Ana Ruiz"));
    assert_eq!(out.mic_muted, Some((false, 70)));
    assert!(out.recording);
    assert_eq!(out.recording_since, Some(1000));

    let mut speakers = message(ExtensionKind::ActiveSpeakers);
    speakers.meeting_code = Some("abc-defg-hij".to_string());
    speakers.speaking = vec!["p2".to_string()];
    let out = on_extension_message(&mut ext, &mut active, &mut ended, &speakers, "", 120);
    assert_eq!(out.speaker_event, Some(("m1".to_string(), 120, vec!["p2".to_string()])));

    let mut mic = message(ExtensionKind::MicState);
    mic.meeting_code = Some("abc-defg-hij".to_string());
    mic.muted = Some(true);
    let out = on_extension_message(&mut ext, &mut active, &mut ended, &mic, "", 130);
    assert_eq!(out.mic_muted, Some((true, 130)));
    let out = on_extension_message(&mut ext, &mut active, &mut ended, &mic, "", 140);
    assert_eq!(out.mic_muted, None);
}

#[test]
fn a_paused_recording_gets_no_speaker_events() {
    let mut ext = ExtensionState::default();
    let mut paused = recording(Some("abc-defg-hij"));
    paused.paused = true;
    let mut active = Some(paused);
    let mut ended = None;
    let mut speakers = message(ExtensionKind::ActiveSpeakers);
    speakers.speaking = vec!["p1".to_string()];
    let out = on_extension_message(&mut ext, &mut active, &mut ended, &speakers, "", 10);
    assert!(out.speaker_event.is_none());
    assert!(!out.recording);
    assert_eq!(out.recording_since, Some(1000));
}

#[test]
fn the_end_of_the_call_stops_the_recording_after_the_grace_time() {
    let mut ext = ExtensionState::default();
    let mut active = Some(recording(Some("abc-defg-hij")));
    let mut ended = None;
    on_extension_message(&mut ext, &mut active, &mut ended, &state_message("abc-defg-hij", None), "", 100);
    let mut end = message(ExtensionKind::MeetingEnded);
    end.meeting_code = Some("abc-defg-hij".to_string());
    end.left_at = Some(5000);
    let out = on_extension_message(&mut ext, &mut active, &mut ended, &end, "", 4000);
    assert_eq!(out.auto_stop, Some(("m1".to_string(), "abc-defg-hij".to_string(), 4000)));
    assert_eq!(ext.meeting_code, None);
    assert!(ext.participants.is_empty());
    assert_eq!(ext.title, None);

    let wait = schedule_auto_stop(true, &mut ended, "abc-defg-hij", 4000, 4500);
    assert_eq!(wait, Some((CALL_END_GRACE_MS - 500) as u64));
    assert_eq!(ended, Some(("abc-defg-hij".to_string(), 4500)));
    assert!(auto_stop_due(&ended, "abc-defg-hij", 4500, &active, "m1"));
    assert!(!auto_stop_due(&ended, "abc-defg-hij", 4400, &active, "m1"));
    assert!(!auto_stop_due(&ended, "abc-defg-hij", 4500, &None, "m1"));

    // A rejoin cancels the stop.
    on_extension_message(&mut ext, &mut active, &mut ended, &state_message("abc-defg-hij", None), "", 5000);
    assert_eq!(ended, None);
    assert!(!auto_stop_due(&ended, "abc-defg-hij", 4500, &active, "m1"));
}

#[test]
fn automatic_stops_can_be_off() {
    let mut ended = Some(("zoom".to_string(), 1));
    assert_eq!(schedule_auto_stop(false, &mut ended, "abc", 10, 20), None);
    assert_eq!(ended, Some(("zoom".to_string(), 1)));
    assert_eq!(schedule_auto_stop(true, &mut ended, "abc", 0, 10_000), Some(0));
}

#[test]
fn only_the_newest_connection_ends_the_call() {
    let mut ext = ExtensionState::default();
    assert!(disconnect_message(2, 2, &ext).is_none());
    ext.meeting_code = Some("abc-defg-hij".to_string());
    assert!(disconnect_message(3, 2, &ext).is_none());
    let m = disconnect_message(2, 2, &ext).unwrap();
    assert_eq!(m.kind, ExtensionKind::MeetingEnded);
    assert_eq!(m.meeting_code.as_deref(), Some("abc-defg-hij"));
}

#[test]
fn the_user_is_marked_once_by_name() {
    let mut ps = vec![person("a", " Ana Ruiz ", false), person("b", "Bo", false)];
    mark_self(&mut ps, "ana ruiz");
    assert!(ps[0].is_self && !ps[1].is_self);
    let mut marked = vec![person("a", "Ana Ruiz", false), person("b", "Bo", true)];
    mark_self(&mut marked, "Ana Ruiz");
    assert!(!marked[0].is_self && marked[1].is_self);
    let mut empty_name = vec![person("a", "", false)];
    mark_self(&mut empty_name, "   ");
    assert!(!empty_name[0].is_self);
}

#[test]
fn messages_keep_a_bounded_number_of_people_and_characters() {
    let long: String = "x".repeat(MAX_NAME_CHARS + 20);
    let many: Vec<Participant> = (0..MAX_PEOPLE + 5).map(|i| person(&format!("{i}"), &long, false)).collect();
    let kept = limit_participants(&many);
    assert_eq!(kept.len(), MAX_PEOPLE);
    assert_eq!(kept[0].name.chars().count(), MAX_NAME_CHARS);
    let names = limit_names(&["é".repeat(250), "Bo".to_string()]);
    assert_eq!(names[0].chars().count(), MAX_NAME_CHARS);
    assert_eq!(names[1], "Bo");
}

#[test]
fn busy_meetings_refuse_changes() {
    let active = Some(recording(None));
    let finalizing = vec!["m2".to_string()];
    let summarizing = vec!["m3".to_string()];
    assert_eq!(check_idle(&active, &finalizing, &summarizing, "m1", false), Err(Busy::Recording));
    assert_eq!(check_idle(&active, &finalizing, &summarizing, "m2", false), Err(Busy::Processing));
    assert_eq!(check_idle(&active, &finalizing, &summarizing, "m3", false), Ok(()));
    assert_eq!(check_idle(&active, &finalizing, &summarizing, "m3", true), Err(Busy::Summarizing));
    assert_eq!(Busy::Recording.message(), "stop the recording first");
    assert_eq!(Busy::Processing.message(), "wait until Tinta finishes processing this meeting");
    assert_eq!(Busy::Summarizing.message(), "wait for the summary to finish");
}

#[test]
fn engine_restarts_wait_longer_after_short_runs() {
    assert_eq!(next_restart_delay(None, ENGINE_RESTART_MIN_MS), (1000, 2000));
    assert_eq!(next_restart_delay(Some(5000), 2000), (2000, 4000));
    assert_eq!(next_restart_delay(Some(1000), 32000), (32000, ENGINE_RESTART_MAX_MS));
    assert_eq!(next_restart_delay(Some(60000), 60000), (1000, 2000));
    let mut wait = ENGINE_RESTART_MIN_MS;
    for _ in 0..10 {
        wait = next_restart_delay(None, wait).1;
    }
    assert_eq!(wait, ENGINE_RESTART_MAX_MS);
}

#[test]
fn a_recording_takes_the_call_of_its_source() {
    assert_eq!(can_start(&Some(recording(None)), false).unwrap_err(), StartRefusal::AlreadyActive);
    assert_eq!(can_start(&None, true).unwrap_err(), StartRefusal::AlreadyActive);
    assert!(can_start(&None, false).is_ok());
    let mut ext = ExtensionState::default();
    ext.meeting_code = Some("abc-defg-hij".to_string());
    ext.title = Some("Weekly sync".to_string());
    ext.mic_muted = Some(true);
    ext.participants = vec![person("p1", "Ana", true)];
    assert_eq!(plan_recording(Some(5), "Meeting 1", &[], &ext, "all").unwrap_err(), StartRefusal::AlreadyRecorded);
    assert_eq!(
        StartRefusal::AlreadyRecorded.message(),
        "this meeting already has a recording. Create a new meeting."
    );

    let plan = plan_recording(None, "Meeting Mar 24", &[], &ext, "all").unwrap();
    assert_eq!(plan.meeting_code.as_deref(), Some("abc-defg-hij"));
    assert_eq!(plan.title.as_deref(), Some("Weekly sync"));
    assert!(plan.mic_muted);
    assert_eq!(plan.participants.as_ref().unwrap().len(), 1);
    let named = plan_recording(None, "Planning", &[], &ext, "all").unwrap();
    assert_eq!(named.title, None);

    let mut zoom = AppCall::parse(Some("us.zoom.xos"), Some("Zoom"), Some(10), 99).unwrap();
    zoom.mic_muted = Some(false);
    let plan = plan_recording(None, "Meeting Mar 24", &[zoom], &ext, "us.zoom.xos").unwrap();
    assert_eq!(plan.app_call.as_deref(), Some("us.zoom.xos"));
    assert_eq!(plan.meeting_code, None);
    assert!(!plan.mic_muted);
    assert!(plan.participants.is_none());
    let a = start(&plan, "m9", 1234, "us.zoom.xos");
    assert_eq!((a.meeting_id.as_str(), a.start_wall_ms, a.paused), ("m9", 1234, false));
    assert_eq!(a.app_call.as_deref(), Some("us.zoom.xos"));
}

#[test]
fn progress_belongs_to_the_one_running_meeting() {
    assert_eq!(progress_meeting(&["m1".to_string()]), Some("m1".to_string()));
    assert_eq!(progress_meeting(&[]), None);
    assert_eq!(progress_meeting(&["m1".to_string(), "m2".to_string()]), None);
    assert_eq!(left_at(Some(50), 40), 40);
    assert_eq!(left_at(Some(30), 40), 30);
    assert_eq!(left_at(None, 40), 40);
}

#[test]
fn marking_the_user_twice_changes_nothing_more() {
    let mut ps = vec![person("a", "Ana", false), person("b", "ana", false), person("c", "Bo", false)];
    mark_self(&mut ps, "ANA");
    let once: Vec<bool> = ps.iter().map(|p| p.is_self).collect();
    mark_self(&mut ps, "ANA");
    let twice: Vec<bool> = ps.iter().map(|p| p.is_self).collect();
    assert_eq!(once, vec![true, true, false]);
    assert_eq!(once, twice);
}

#[test]
fn the_end_of_the_call_keeps_the_waiting_stop() {
    let mut ext = ExtensionState::default();
    let mut active = None;
    let mut ended = Some(("abc-defg-hij".to_string(), 7));
    let mut end = message(ExtensionKind::MeetingEnded);
    end.meeting_code = Some("abc-defg-hij".to_string());
    on_extension_message(&mut ext, &mut active, &mut ended, &end, "", 10);
    assert_eq!(ended, Some(("abc-defg-hij".to_string(), 7)));
    let mut other = message(ExtensionKind::Ping);
    other.meeting_code = Some("xyz-abcd-efg".to_string());
    on_extension_message(&mut ext, &mut active, &mut ended, &other, "", 11);
    assert_eq!(ended, Some(("abc-defg-hij".to_string(), 7)));
    other.meeting_code = Some("abc-defg-hij".to_string());
    on_extension_message(&mut ext, &mut active, &mut ended, &other, "", 12);
    assert_eq!(ended, None);
}
