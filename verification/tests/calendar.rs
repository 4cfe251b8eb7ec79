use tinta_core::calendar::{external_id, find_link, Attendee, Calendar, Event, Link, Platform, Snapshot};

#[test]
fn finds_meet_links_in_google_notes() {
    let notes = "Agenda\n\n-::~:~::~:~::-\nJoin with Google Meet: https://meet.google.com/abc-defg-hij\nOr dial: (US) +1 555";
    let link = find_link(&[notes]).unwrap();
    assert_eq!(link.platform, Platform::Meet);
    assert_eq!(link.code.as_deref(), Some("abc-defg-hij"));
    assert_eq!(link.url, "https://meet.google.com/abc-defg-hij");
    assert_eq!(link.app_url(), None);
}

#[test]
fn ignores_meet_pages_that_are_not_calls() {
    assert!(find_link(&["https://meet.google.com/", "https://meet.google.com/landing"]).is_none());
    assert!(find_link(&["<https://meet.google.com/abc-defg-hij?hs=224>."]).unwrap().code.is_some());
}

#[test]
fn finds_zoom_and_builds_the_app_link() {
    let link = find_link(&["Zoom: https://acme.zoom.us/j/123456789?pwd=Xy12.1, passcode 42"]).unwrap();
    assert_eq!(link.platform, Platform::Zoom);
    assert_eq!(link.url, "https://acme.zoom.us/j/123456789?pwd=Xy12.1");
    assert_eq!(
        link.app_url().as_deref(),
        Some("zoommtg://acme.zoom.us/join?action=join&confno=123456789&pwd=Xy12.1")
    );
    assert!(find_link(&["https://zoom.us/pricing"]).is_none());
}

#[test]
fn finds_teams_and_builds_the_app_link() {
    let url = "https://teams.microsoft.com/l/meetup-join/19%3ameeting_abc%40thread.v2/0?context=%7b%7d";
    let link = find_link(&[format!("Microsoft Teams meeting\nJoin: <{url}>").as_str()]).unwrap();
    assert_eq!(link.platform, Platform::Teams);
    assert_eq!(link.url, url);
    assert_eq!(
        link.app_url().as_deref(),
        Some("msteams:/l/meetup-join/19%3ameeting_abc%40thread.v2/0?context=%7b%7d")
    );
}

#[test]
fn uses_the_first_text_with_a_link() {
    let link = find_link(&["Room 4", "https://acme.webex.com/meet/sam", "https://meet.google.com/abc-defg-hij"]).unwrap();
    assert_eq!(link.platform, Platform::Webex);
    assert!(find_link(&["Lunch at https://example.com/menu", "httpd notes"]).is_none());
}

fn calendar(id: &str, title: &str) -> Calendar {
    Calendar { id: id.into(), title: title.into(), ..Default::default() }
}

fn event(id: &str, title: &str, calendar_id: &str, notes: Option<&str>) -> Event {
    Event {
        id: id.into(),
        title: title.into(),
        start: 1,
        end: 2,
        calendar_id: calendar_id.into(),
        location: None,
        url: None,
        notes: notes.map(str::to_string),
        attendees: vec![],
        link: None,
        meeting_id: None,
    }
}

#[test]
fn hides_the_events_of_hidden_calendars() {
    let raw = Snapshot {
        access: "granted".into(),
        calendars: vec![calendar("work", "Work"), calendar("home", "Home")],
        events: vec![
            event("a@1", "Standup", "work", Some("https://meet.google.com/abc-defg-hij")),
            event("b@1", "Dentist", "home", None),
        ],
    };
    let snapshot = Snapshot::parse(raw);
    assert_eq!(snapshot.events[0].link.as_ref().unwrap().code.as_deref(), Some("abc-defg-hij"));
    let visible = snapshot.visible(&["home".to_string()]);
    assert_eq!(visible.events.len(), 1);
    assert!(visible.calendars[1].hidden);
    assert!(!visible.calendars[0].hidden);
}

#[test]
fn calendar_labels_and_titles() {
    let a = Attendee { name: "  \t".into(), email: "ana@example.com".into(), is_self: false, status: "accepted".into() };
    assert_eq!(a.label(), "ana@example.com");
    let b = Attendee { name: "Bo".into(), email: "bo@example.com".into(), is_self: false, status: "unknown".into() };
    assert_eq!(b.label(), "Bo");
    assert_eq!(event("x", "", "work", None).display_title(), "Untitled meeting");
    assert_eq!(event("x", "Sync", "work", None).display_title(), "Sync");
    assert_eq!(external_id("e1@2026"), "calendar:e1@2026");
    assert_eq!(Platform::Teams.name(), "Microsoft Teams");
}

#[test]
fn finds_links_in_the_url_before_the_notes() {
    let mut e = event("x", "Sync", "work", Some("https://meet.google.com/abc-defg-hij"));
    e.url = Some("http://zoomgov.com/s/99".into());
    let parsed = Snapshot::parse(Snapshot { access: "granted".into(), calendars: vec![], events: vec![e] });
    let link: &Link = parsed.events[0].link.as_ref().unwrap();
    assert_eq!(link.platform, Platform::Zoom);
    assert_eq!(link.app_url(), None);
    assert_eq!(link.app_bundle(), Some("us.zoom.xos"));
}

#[test]
fn zoom_app_link_needs_a_numeric_meeting() {
    let link = find_link(&["https://x.zoom.us/j/12a4"]).unwrap();
    assert_eq!(link.app_url(), None);
    let link = find_link(&["https://x.zoom.us/j/1234/extra?a=1&pwd=zz#frag"]).unwrap();
    assert_eq!(link.app_url().as_deref(), Some("zoommtg://x.zoom.us/join?action=join&confno=1234&pwd=zz"));
    let meet = find_link(&["see https://MEET.google.com//ABC-defg-hij/x"]).unwrap();
    assert_eq!(meet.code.as_deref(), Some("abc-defg-hij"));
}

#[test]
fn a_found_link_stands_in_its_text() {
    let texts = ["no link here", "Join: <https://meet.google.com/abc-defg-hij?authuser=0>.", "https://zoom.us/j/1"];
    let link = find_link(&texts).unwrap();
    assert!(link.url.starts_with("https://"));
    assert!(texts[1].contains(link.url.as_str()));
    assert_eq!(link.platform, Platform::Meet);
    assert_eq!(link.code.as_deref(), Some("abc-defg-hij"));
    let zoom = find_link(&["see http://us02web.zoom.us/j/123, thanks"]).unwrap();
    assert_eq!(zoom.url, "http://us02web.zoom.us/j/123");
    assert_eq!(zoom.code, None);
}
