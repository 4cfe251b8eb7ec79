use tinta_core::calendar::{Calendar, Event, Link, Platform, Snapshot};
use tinta_core::reminders::{hidden_after, CalendarState, REFRESH_MS};

fn event(id: &str, title: &str, calendar_id: &str, start: i64, link: Option<Link>) -> Event {
    Event {
        id: id.to_string(),
        title: title.to_string(),
        start,
        end: start + 1_800_000,
        calendar_id: calendar_id.to_string(),
        location: None,
        url: None,
        notes: None,
        attendees: Vec::new(),
        link,
        meeting_id: None,
    }
}

fn meet(code: &str) -> Option<Link> {
    Some(Link { url: format!("https://meet.google.com/{code}"), platform: Platform::Meet, code: Some(code.to_string()) })
}

fn zoom() -> Option<Link> {
    Some(Link { url: "https://zoom.us/j/1".to_string(), platform: Platform::Zoom, code: None })
}

fn snapshot(events: Vec<Event>) -> Snapshot {
    Snapshot {
        access: "granted".to_string(),
        calendars: vec![Calendar { id: "work".into(), title: "Work".into(), color: "#fff".into(), account: "a".into(), hidden: false }],
        events,
    }
}

#[test]
fn reads_the_calendars_again_after_five_minutes() {
    let mut state = CalendarState::new();
    assert!(state.needs_refresh(0));
    state.refresh(snapshot(Vec::new()), 1000);
    assert!(!state.needs_refresh(1000 + REFRESH_MS - 1));
    assert!(state.needs_refresh(1000 + REFRESH_MS));
    assert_eq!(state.snapshot().access, "granted");
}

#[test]
fn a_meeting_with_a_call_link_gets_one_reminder() {
    let now = 10_000_000;
    let mut state = CalendarState::new();
    let events = vec![
        event("e1", "Weekly sync", "work", now + 60_000, meet("abc-defg-hij")),
        event("e2", "", "work", now - 90_000, zoom()),
        event("e3", "No link", "work", now + 30_000, None),
        event("e4", "Later", "work", now + 61_000, zoom()),
        event("e5", "Long ago", "work", now - 301_000, zoom()),
        event("e6", "Recorded", "work", now, zoom()),
    ];
    state.refresh(snapshot(events), now);
    let view = state.view(&[], now, &[]);
    let recorded = vec![false, false, false, false, false, true];
    let due = state.take_due(&view.events, &recorded, &None, now);
    assert_eq!(due.len(), 2);
    assert_eq!(due[0].event_id, "e1");
    assert_eq!(due[0].title, "Weekly sync");
    assert_eq!(due[0].body, "Starts in 1 minute on Google Meet. Join to take notes. Tell everyone that you record the call.");
    assert_eq!(due[1].title, "Untitled meeting");
    assert_eq!(due[1].body, "Started 2 minutes ago on Zoom. Join to take notes. Tell everyone that you record the call.");
    assert!(state.take_due(&view.events, &recorded, &None, now + 500).is_empty());
    let later = state.take_due(&view.events, &recorded, &None, now + 1000);
    assert_eq!(later.len(), 1);
    assert_eq!(later[0].event_id, "e4");
}

#[test]
fn the_call_of_the_user_gets_no_reminder() {
    let now = 50_000_000;
    let mut state = CalendarState::new();
    state.refresh(snapshot(vec![event("e1", "Sync", "work", now + 10_000, meet("abc-defg-hij"))]), now);
    let view = state.view(&[], now, &[]);
    assert!(state.take_due(&view.events, &[false], &Some("abc-defg-hij".to_string()), now).is_empty());
    let due = state.take_due(&view.events, &[false], &Some("xyz-abcd-efg".to_string()), now);
    assert_eq!(due.len(), 1);
    assert!(due[0].body.starts_with("Starts now on Google Meet."));
}

#[test]
fn minutes_round_half_away_from_zero() {
    let now = 90_000_000;
    let mut state = CalendarState::new();
    state.refresh(
        snapshot(vec![
            event("a", "A", "work", now + 29_999, zoom()),
            event("b", "B", "work", now - 150_000, zoom()),
            event("c", "C", "work", now - 30_000, zoom()),
        ]),
        now,
    );
    let view = state.view(&[], now, &[]);
    let due = state.take_due(&view.events, &[false, false, false], &None, now);
    assert!(due[0].body.starts_with("Starts now on Zoom."));
    assert!(due[1].body.starts_with("Started 3 minutes ago on Zoom."));
    assert!(due[2].body.starts_with("Started 1 minute ago on Zoom."));
}

#[test]
fn the_view_shows_current_events_with_their_meetings() {
    let now = 1_000_000;
    let mut state = CalendarState::new();
    let mut past = event("old", "Old", "work", now - 3_600_000, None);
    past.end = now;
    state.refresh(snapshot(vec![past, event("e1", "Sync", "work", now, None), event("e2", "Home", "home", now, None)]), now);
    let view = state.view(&["home".to_string()], now, &[("e1".to_string(), "m7".to_string())]);
    assert_eq!(view.events.len(), 1);
    assert_eq!(view.events[0].id, "e1");
    assert_eq!(view.events[0].meeting_id.as_deref(), Some("m7"));
    assert!(view.calendars.iter().all(|c| !c.hidden));
}

#[test]
fn a_new_read_forgets_reminders_of_removed_events() {
    let now = 5_000_000;
    let mut state = CalendarState::new();
    state.refresh(snapshot(vec![event("e1", "Sync", "work", now, zoom())]), now);
    let view = state.view(&[], now, &[]);
    assert_eq!(state.take_due(&view.events, &[false], &None, now).len(), 1);
    state.refresh(snapshot(Vec::new()), now + 1);
    state.refresh(snapshot(vec![event("e1", "Sync", "work", now, zoom())]), now + 2);
    let view = state.view(&[], now, &[]);
    assert_eq!(state.take_due(&view.events, &[false], &None, now).len(), 1);
}

#[test]
fn hiding_a_calendar_puts_it_last_once() {
    let ids = vec!["a".to_string(), "b".to_string(), "a".to_string()];
    assert_eq!(hidden_after(&ids, "a", true), vec!["b".to_string(), "a".to_string()]);
    assert_eq!(hidden_after(&ids, "a", false), vec!["b".to_string()]);
    let hidden = hidden_after(&ids, "c", true);
    assert_eq!(hidden_after(&hidden, "c", false), hidden_after(&ids, "c", false));
}
