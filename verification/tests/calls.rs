use tinta_core::calls::{has_app, new_calls, on_call_ended, on_call_started, on_call_state, remove_app, AppCall};
use tinta_core::db::Participant;
use tinta_core::session::{auto_stop_due, left_at, schedule_auto_stop, Active, CALL_END_GRACE_MS};

const ZOOM: &str = "us.zoom.xos";
const TEAMS: &str = "com.microsoft.teams2";

fn person(name: &str) -> Participant {
    Participant { participant_id: name.to_string(), name: name.to_string(), is_self: false }
}

fn recording(source: &str) -> Active {
    Active {
        meeting_id: "m1".to_string(),
        start_wall_ms: 0,
        paused: false,
        source: source.to_string(),
        meeting_code: None,
        app_call: None,
    }
}

#[test]
fn calls_parse_with_defaults() {
    let c = AppCall::parse(Some(ZOOM), None, None, 77).unwrap();
    assert_eq!((c.app.as_str(), c.name.as_str(), c.since), (ZOOM, ZOOM, 77));
    assert!(c.participants.is_empty() && c.speaking.is_empty() && c.mic_muted.is_none());
    assert!(AppCall::parse(None, Some("Zoom"), Some(1), 2).is_none());
}

#[test]
fn a_call_replaces_the_call_of_its_app_and_joins_the_recording() {
    let mut calls = vec![AppCall::parse(Some(ZOOM), Some("Zoom"), Some(1), 0).unwrap()];
    calls.push(AppCall::parse(Some(TEAMS), Some("Teams"), Some(2), 0).unwrap());
    let mut ended = Some((ZOOM.to_string(), 5));
    let mut active = Some(recording(ZOOM));
    let joined = on_call_started(&mut calls, &mut ended, &mut active, AppCall::parse(Some(ZOOM), Some("Zoom"), Some(9), 0).unwrap());
    assert!(joined);
    assert_eq!(calls.len(), 2);
    assert_eq!((calls[0].app.as_str(), calls[1].app.as_str(), calls[1].since), (TEAMS, ZOOM, 9));
    assert_eq!(ended, None);
    assert_eq!(active.unwrap().app_call.as_deref(), Some(ZOOM));

    let mut other = Some(recording("all"));
    let mut ended = Some((TEAMS.to_string(), 5));
    assert!(!on_call_started(&mut calls, &mut ended, &mut other, AppCall::parse(Some(ZOOM), None, None, 3).unwrap()));
    assert_eq!(ended, Some((TEAMS.to_string(), 5)));
    assert_eq!(other.unwrap().app_call, None);
}

#[test]
fn the_state_of_a_recorded_call_reaches_the_meeting() {
    let mut calls = vec![AppCall::parse(Some(ZOOM), Some("Zoom"), Some(1), 0).unwrap()];
    let mut active = recording(ZOOM);
    active.app_call = Some(ZOOM.to_string());
    let active = Some(active);
    let out = on_call_state(&mut calls, &active, ZOOM, &[person("Ana Ruiz"), person("Bo")], &["Bo".to_string()], Some(true), "ana ruiz", Some(40), 50).unwrap();
    assert!(calls[0].participants[0].is_self);
    assert_eq!(calls[0].speaking, vec!["Bo".to_string()]);
    assert_eq!(calls[0].mic_muted, Some(true));
    assert_eq!(out.store_participants.as_ref().unwrap().0, "m1");
    assert_eq!(out.speaker_event, Some(("m1".to_string(), 40, vec!["Bo".to_string()])));
    assert_eq!(out.mic_muted, Some((true, 40)));
    let again = on_call_state(&mut calls, &active, ZOOM, &[], &[], Some(true), "", None, 60).unwrap();
    assert_eq!(again.mic_muted, None);
    assert_eq!(again.speaker_event.unwrap().1, 60);
    assert!(on_call_state(&mut calls, &active, TEAMS, &[], &[], None, "", None, 60).is_none());
    let idle = on_call_state(&mut calls, &None, ZOOM, &[], &[], Some(false), "", None, 70).unwrap();
    assert!(idle.store_participants.is_none() && idle.speaker_event.is_none() && idle.mic_muted.is_none());
}

#[test]
fn the_end_of_a_recorded_call_stops_its_recording() {
    let mut calls = vec![AppCall::parse(Some(ZOOM), None, None, 0).unwrap(), AppCall::parse(Some(TEAMS), None, None, 0).unwrap()];
    let mut active = recording(ZOOM);
    active.app_call = Some(ZOOM.to_string());
    assert_eq!(on_call_ended(&mut calls, &Some(active), ZOOM), Some("m1".to_string()));
    assert_eq!(calls.len(), 1);
    assert_eq!(on_call_ended(&mut calls, &None, TEAMS), None);
    assert!(calls.is_empty());
}

#[test]
fn known_calls_are_not_started_again() {
    let mut known = vec![AppCall::parse(Some(ZOOM), None, None, 0).unwrap()];
    let found = vec![AppCall::parse(Some(ZOOM), None, None, 5).unwrap(), AppCall::parse(Some(TEAMS), None, None, 5).unwrap()];
    let fresh = new_calls(&known, found);
    assert_eq!(fresh.len(), 1);
    assert_eq!(fresh[0].app, TEAMS);
    assert!(has_app(&known, ZOOM) && !has_app(&known, TEAMS));
    remove_app(&mut known, ZOOM);
    assert!(known.is_empty());
}

#[test]
fn a_desktop_call_runs_through_a_recording() {
    let t0 = 1_000_000;
    let mut calls = Vec::new();
    let mut ended = None;
    let mut none = None;
    on_call_started(&mut calls, &mut ended, &mut none, AppCall::parse(Some(ZOOM), Some("Zoom"), Some(t0), t0).unwrap());
    assert!(has_app(&calls, ZOOM));
    let mut active = recording(ZOOM);
    active.app_call = Some(ZOOM.to_string());
    let mut active = Some(active);
    let people = [person("Test User"), person("Ada Lovelace")];
    let mut stored = Vec::new();
    let mut events = Vec::new();
    let mut mutes = Vec::new();
    for (offset, speaking, muted) in [(0, vec![], false), (1000, vec!["Ada Lovelace".to_string()], false), (2000, vec!["Ada Lovelace".to_string()], true)] {
        let out = on_call_state(&mut calls, &active, ZOOM, &people, &speaking, Some(muted), "Test User", Some(t0 + offset), t0).unwrap();
        stored = out.store_participants.unwrap().1;
        events.push(out.speaker_event.unwrap());
        mutes.extend(out.mic_muted);
    }
    assert!(stored.len() == 2 && stored.iter().any(|p| p.name == "Test User" && p.is_self));
    assert!(events.iter().any(|(_, _, s)| s == &vec!["Ada Lovelace".to_string()]));
    assert_eq!(mutes, vec![(false, t0), (true, t0 + 2000)]);
    assert!(calls.iter().any(|c| c.app == ZOOM && c.mic_muted == Some(true)));

    let now = t0 + 5000;
    let stop = on_call_ended(&mut calls, &active, ZOOM).unwrap();
    assert_eq!(stop, "m1");
    let left = left_at(Some(now + 10), now);
    let wait = schedule_auto_stop(true, &mut ended, ZOOM, left, now).unwrap();
    assert_eq!(wait, CALL_END_GRACE_MS as u64);
    assert!(auto_stop_due(&ended, ZOOM, now, &active, &stop));
    active = None;
    assert!(!auto_stop_due(&ended, ZOOM, now, &active, &stop));
    assert!(calls.is_empty());
}
