//! The next meetings from the calendars, and the reminders before they start.
use vstd::prelude::*;

use crate::calendar::{event_views, visible_events, with_meeting_view, Event, EventView, Snapshot};
use crate::session::contains_str;
use crate::text::{chars_of, decimal, decimal_exec, eq_chars, push_all, string_of, string_views};

verus! {

broadcast use vstd::string::group_string_axioms;

/// The number of days of events that the app reads.
pub const CALENDAR_DAYS: i64 = 7;

/// The longest time between two reads of the calendars, in milliseconds.
pub const REFRESH_MS: i64 = 300000;

/// The time before the start of a meeting when the reminder shows, in milliseconds.
pub const REMINDER_LEAD_MS: i64 = 60000;

/// A reminder for a meeting that started this long ago still shows, in milliseconds.
pub const REMINDER_LATE_MS: i64 = 300000;

/// The first Tinta meeting of an event in a list of event and meeting IDs.
pub open spec fn meeting_of(pairs: Seq<(Seq<char>, Seq<char>)>, event_id: Seq<char>) -> Option<Seq<char>>
    decreases pairs.len(),
{
    if pairs.len() == 0 {
        None
    } else if pairs[0].0 == event_id {
        Some(pairs[0].1)
    } else {
        meeting_of(pairs.drop_first(), event_id)
    }
}

/// The views of a list of event and meeting IDs.
pub open spec fn pair_views(pairs: Seq<(String, String)>) -> Seq<(Seq<char>, Seq<char>)> {
    pairs.map_values(|p: (String, String)| (p.0@, p.1@))
}

/// The events that did not end by `now`, each with its Tinta meeting.
pub open spec fn current_events(
    es: Seq<EventView>,
    now: i64,
    meetings: Seq<(Seq<char>, Seq<char>)>,
) -> Seq<EventView> {
    es.filter(|e: EventView| e.3 > now).map_values(|e: EventView| with_meeting_view(e, meeting_of(meetings, e.0)))
}

proof fn lemma_push_unique(s: Seq<Seq<char>>, x: Seq<char>)
    requires
        s.no_duplicates(),
        !s.contains(x),
    ensures
        s.push(x).no_duplicates(),
{
    let t = s.push(x);
    assert forall|i: int, j: int| 0 <= i < t.len() && 0 <= j < t.len() && i != j implies t[i] != t[j] by {
        if i == s.len() {
            assert(t[j] == s[j]);
        } else if j == s.len() {
            assert(t[i] == s[i]);
        } else {
            assert(t[i] == s[i] && t[j] == s[j]);
        }
    }
}

fn find_meeting(pairs: &[(String, String)], event_id: &String) -> (r: Option<String>)
    ensures
        r.deep_view() == meeting_of(pair_views(pairs@), event_id@),
{
    let ghost ps = pair_views(pairs@);
    assert(ps.skip(0) =~= ps);
    let mut i: usize = 0;
    while i < pairs.len()
        invariant
            i <= pairs.len(),
            ps == pair_views(pairs@),
            meeting_of(ps, event_id@) == meeting_of(ps.skip(i as int), event_id@),
        decreases pairs.len() - i,
    {
        assert(ps.skip(i as int).drop_first() =~= ps.skip(i + 1));
        if pairs[i].0 == *event_id {
            return Some(pairs[i].1.clone());
        }
        i = i + 1;
    }
    None
}

/// The calendars as the app last read them, and the events that had a reminder.
pub struct CalendarState {
    snapshot: Snapshot,
    /// The time of the last read of the calendars.
    read_at: Option<i64>,
    /// The events that had a reminder, each once.
    reminded: Vec<String>,
}

impl CalendarState {
    /// The events that had a reminder.
    pub closed spec fn reminded_ids(&self) -> Set<Seq<char>> {
        string_views(self.reminded@).to_set()
    }

    /// The events of the last read.
    pub closed spec fn events(&self) -> Seq<EventView> {
        event_views(self.snapshot.events@)
    }

    /// The access state of the last read.
    pub closed spec fn access(&self) -> Seq<char> {
        self.snapshot.access@
    }

    /// The time of the last read.
    pub closed spec fn last_read(&self) -> Option<i64> {
        self.read_at
    }

    /// The state is well formed: each event that had a reminder is listed once.
    pub closed spec fn wf(&self) -> bool {
        string_views(self.reminded@).no_duplicates()
    }

    /// The state before the first read: no events and no reminders.
    pub fn new() -> (r: CalendarState)
        ensures
            r.wf(),
            r.events() == Seq::<EventView>::empty(),
            r.access() == Seq::<char>::empty(),
            r.last_read() is None,
            r.reminded_ids() == Set::<Seq<char>>::empty(),
    {
        let r = CalendarState {
            snapshot: Snapshot { access: String::new(), calendars: Vec::new(), events: Vec::new() },
            read_at: None,
            reminded: Vec::new(),
        };
        assert(r.events() =~= Seq::<EventView>::empty());
        assert(string_views(r.reminded@) =~= Seq::<Seq<char>>::empty());
        assert(r.reminded_ids() =~= Set::<Seq<char>>::empty());
        r
    }

    /// The calendars of the last read.
    pub fn snapshot(&self) -> (r: &Snapshot)
        ensures
            event_views(r.events@) == self.events(),
            r.access@ == self.access(),
    {
        &self.snapshot
    }

    /// Takes a new read of the calendars at `now`. The events that left the calendars leave the
    /// reminders too.
    pub fn refresh(&mut self, snapshot: Snapshot, now: i64)
        requires
            old(self).wf(),
        ensures
            final(self).wf(),
            final(self).events() == event_views(snapshot.events@),
            final(self).access() == snapshot.access@,
            final(self).last_read() == Some(now),
            final(self).reminded_ids() == old(self).reminded_ids().filter(
                |id: Seq<char>| exists|i: int| 0 <= i < snapshot.events@.len() && (#[trigger] snapshot.events@[i])@.0 == id,
            ),
    {
        let ghost old_ids = string_views(self.reminded@);
        let ghost keep = |id: Seq<char>| exists|i: int| 0 <= i < snapshot.events@.len() && (#[trigger] snapshot.events@[i])@.0 == id;
        let mut kept: Vec<String> = Vec::new();
        let mut k: usize = 0;
        while k < self.reminded.len()
            invariant
                k <= self.reminded.len(),
                old_ids == string_views(self.reminded@),
                old_ids.no_duplicates(),
                keep == (|id: Seq<char>| exists|i: int| 0 <= i < snapshot.events@.len() && (#[trigger] snapshot.events@[i])@.0 == id),
                string_views(kept@) == old_ids.take(k as int).filter(keep),
                string_views(kept@).no_duplicates(),
                forall|x: Seq<char>| string_views(kept@).contains(x) ==> old_ids.take(k as int).contains(x),
            decreases self.reminded.len() - k,
        {
            let ghost before = kept@;
            reveal_with_fuel(Seq::<_>::filter, 1);
            assert(old_ids.take(k + 1).drop_last() =~= old_ids.take(k as int));
            assert(old_ids.take(k + 1).last() == self.reminded@[k as int]@);
            let mut found = false;
            let mut i: usize = 0;
            while i < snapshot.events.len()
                invariant
                    i <= snapshot.events.len(),
                    k < self.reminded.len(),
                    found == (exists|j: int| 0 <= j < i && (#[trigger] snapshot.events@[j])@.0 == self.reminded@[k as int]@),
                decreases snapshot.events.len() - i,
            {
                if snapshot.events[i].id == self.reminded[k] {
                    found = true;
                }
                i = i + 1;
            }
            if found {
                proof {
                    assert(old_ids[k as int] == self.reminded@[k as int]@);
                    assert forall|x: Seq<char>| string_views(before).contains(x) implies x != self.reminded@[k as int]@ by {
                        assert(old_ids.take(k as int).contains(x));
                        let j = choose|j: int| 0 <= j < k && old_ids.take(k as int)[j] == x;
                        assert(old_ids[j] == old_ids.take(k as int)[j]);
                    }
                    lemma_push_unique(string_views(before), self.reminded@[k as int]@);
                }
                kept.push(self.reminded[k].clone());
                assert(string_views(kept@) =~= string_views(before).push(self.reminded@[k as int]@));
                proof {
                    assert forall|x: Seq<char>| string_views(kept@).contains(x) implies old_ids.take(k + 1).contains(x) by {
                        if x == self.reminded@[k as int]@ {
                            assert(old_ids.take(k + 1)[k as int] == x);
                        } else {
                            assert(string_views(before).contains(x));
                            let j = choose|j: int| 0 <= j < k && old_ids.take(k as int)[j] == x;
                            assert(old_ids.take(k + 1)[j] == x);
                        }
                    }
                }
            } else {
                proof {
                    assert forall|x: Seq<char>| string_views(kept@).contains(x) implies old_ids.take(k + 1).contains(x) by {
                        let j = choose|j: int| 0 <= j < k && old_ids.take(k as int)[j] == x;
                        assert(old_ids.take(k + 1)[j] == x);
                    }
                }
            }
            k = k + 1;
        }
        assert(old_ids.take(k as int) =~= old_ids);
        proof {
            let filtered = old_ids.filter(keep);
            assert(filtered.to_set() =~= old_ids.to_set().filter(keep)) by {
                assert forall|x: Seq<char>| filtered.to_set().contains(x) <==> old_ids.to_set().filter(keep).contains(x) by {
                    if filtered.contains(x) {
                        let j = choose|j: int| 0 <= j < filtered.len() && filtered[j] == x;
                        old_ids.lemma_filter_pred(keep, j);
                        old_ids.lemma_filter_contains_rev(keep, x);
                    }
                    if old_ids.contains(x) && keep(x) {
                        let j = choose|j: int| 0 <= j < old_ids.len() && old_ids[j] == x;
                        old_ids.lemma_filter_contains(keep, j);
                    }
                }
            }
        }
        self.reminded = kept;
        self.snapshot = snapshot;
        self.read_at = Some(now);
    }

    /// True when the last read is older than `REFRESH_MS` at `now`, or there is none. The wall
    /// clock also counts the time while the Mac sleeps.
    pub fn needs_refresh(&self, now: i64) -> (r: bool)
        ensures
            r == (self.last_read() is None || now - self.last_read()->0 >= REFRESH_MS),
    {
        match self.read_at {
            None => true,
            Some(t) => (now as i128) - (t as i128) >= REFRESH_MS as i128,
        }
    }

    /// The events that the window shows: the events that did not end by `now`, without the hidden
    /// calendars, each with its Tinta meeting from `meetings`, a list of event and meeting IDs.
    pub fn view(&self, hidden: &[String], now: i64, meetings: &[(String, String)]) -> (r: Snapshot)
        ensures
            r.access@ == self.access(),
            event_views(r.events@) == current_events(
                visible_events(self.events(), string_views(hidden@)),
                now,
                pair_views(meetings@),
            ),
    {
        let visible = self.snapshot.visible(hidden);
        assert(hidden@.map_values(|h: String| h@) =~= string_views(hidden@));
        let ghost all = event_views(visible.events@);
        let ghost keep = |e: EventView| e.3 > now;
        let ghost m = pair_views(meetings@);
        let ghost f = |e: EventView| with_meeting_view(e, meeting_of(m, e.0));
        let mut events: Vec<Event> = Vec::new();
        let mut k: usize = 0;
        while k < visible.events.len()
            invariant
                k <= visible.events.len(),
                all == event_views(visible.events@),
                keep == (|e: EventView| e.3 > now),
                m == pair_views(meetings@),
                f == (|e: EventView| with_meeting_view(e, meeting_of(m, e.0))),
                event_views(events@) == all.take(k as int).filter(keep).map_values(f),
            decreases visible.events.len() - k,
        {
            let ghost before = events@;
            reveal_with_fuel(Seq::<_>::filter, 1);
            assert(all.take(k + 1).drop_last() =~= all.take(k as int));
            assert(all.take(k + 1).last() == visible.events@[k as int]@);
            let e = &visible.events[k];
            if e.end > now {
                let meeting = find_meeting(meetings, &e.id);
                events.push(e.with_meeting(meeting));
                assert(all.take(k + 1).filter(keep) =~= all.take(k as int).filter(keep).push(e@));
                assert(event_views(events@) =~= event_views(before).push(f(e@)));
                assert(event_views(events@) =~= all.take(k + 1).filter(keep).map_values(f));
            }
            k = k + 1;
        }
        assert(all.take(k as int) =~= all);
        Snapshot { access: visible.access, calendars: visible.calendars, events }
    }
}


/// The minutes from `now` to a start `d` milliseconds away, rounded half away from zero.
pub open spec fn rounded_minutes(d: int) -> int {
    if d >= 0 {
        (d + 30000) / 60000
    } else {
        -((-d + 30000) / 60000)
    }
}

/// When a meeting starts, in words, from the rounded minutes until its start.
pub open spec fn when_text(m: int) -> Seq<char> {
    if m > 1 {
        "Starts in "@ + decimal(m as nat) + " minutes"@
    } else if m == 1 {
        "Starts in 1 minute"@
    } else if m == 0 {
        "Starts now"@
    } else if m == -1 {
        "Started 1 minute ago"@
    } else {
        "Started "@ + decimal((-m) as nat) + " minutes ago"@
    }
}

/// The text of a reminder.
pub open spec fn reminder_body(when: Seq<char>, platform: Seq<char>) -> Seq<char> {
    when + " on "@ + platform + ". Join to take notes. Tell everyone that you record the call."@
}

/// The title that a reminder shows.
pub open spec fn title_of(e: EventView) -> Seq<char> {
    if e.1.len() == 0 {
        "Untitled meeting"@
    } else {
        e.1
    }
}

/// A meeting with a call link is due for a reminder from `REMINDER_LEAD_MS` before its start to
/// `REMINDER_LATE_MS` after it, unless it had one, it records already, or the user is in its Meet
/// call.
pub open spec fn is_due(
    e: EventView,
    recorded: bool,
    in_call: Option<Seq<char>>,
    reminded: Set<Seq<char>>,
    now: i64,
) -> bool {
    &&& e.2 - now <= REMINDER_LEAD_MS
    &&& now - e.2 <= REMINDER_LATE_MS
    &&& e.9 is Some
    &&& (e.9.unwrap().2 is None || e.9.unwrap().2 != in_call)
    &&& !reminded.contains(e.0)
    &&& !recorded
}

/// The event ID, the title, and the text of a reminder.
pub type ReminderView = (Seq<char>, Seq<char>, Seq<char>);

/// The reminder of a due event at `now`.
pub open spec fn reminder_of(e: EventView, now: i64) -> ReminderView {
    (e.0, title_of(e), reminder_body(when_text(rounded_minutes(e.2 - now)), e.9.unwrap().1.spec_name()))
}

/// The reminders of the first `k` events, in order.
pub open spec fn due_reminders(
    es: Seq<EventView>,
    recorded: Seq<bool>,
    in_call: Option<Seq<char>>,
    reminded: Set<Seq<char>>,
    now: i64,
    k: int,
) -> Seq<ReminderView>
    decreases k,
{
    if k <= 0 {
        Seq::empty()
    } else {
        let before = due_reminders(es, recorded, in_call, reminded, now, k - 1);
        if is_due(es[k - 1], recorded[k - 1], in_call, reminded, now) {
            before.push(reminder_of(es[k - 1], now))
        } else {
            before
        }
    }
}

/// A reminder: the event, the title, and the text.
#[derive(Debug)]
pub struct Reminder {
    pub event_id: String,
    pub title: String,
    pub body: String,
}

impl View for Reminder {
    type V = ReminderView;

    open spec fn view(&self) -> ReminderView {
        (self.event_id@, self.title@, self.body@)
    }
}

pub open spec fn reminder_views(rs: Seq<Reminder>) -> Seq<ReminderView> {
    rs.map_values(|r: Reminder| r@)
}

fn when_chars(m: i64) -> (r: Vec<char>)
    requires
        -1000 <= m <= 1000,
    ensures
        r@ == when_text(m as int),
{
    let mut v: Vec<char> = Vec::new();
    if m > 1 {
        push_all(&mut v, &chars_of("Starts in "));
        push_all(&mut v, &decimal_exec(m as u64));
        push_all(&mut v, &chars_of(" minutes"));
    } else if m == 1 {
        push_all(&mut v, &chars_of("Starts in 1 minute"));
    } else if m == 0 {
        push_all(&mut v, &chars_of("Starts now"));
    } else if m == -1 {
        push_all(&mut v, &chars_of("Started 1 minute ago"));
    } else {
        push_all(&mut v, &chars_of("Started "));
        push_all(&mut v, &decimal_exec((-m) as u64));
        push_all(&mut v, &chars_of(" minutes ago"));
    }
    v
}

fn reminder_for(e: &Event, now: i64) -> (r: Reminder)
    requires
        e@.9 is Some,
        e.start - now <= REMINDER_LEAD_MS,
        now - e.start <= REMINDER_LATE_MS,
    ensures
        r@ == reminder_of(e@, now),
{
    let d: i64 = e.start - now;
    let m: i64 = if d >= 0 {
        (d + 30000) / 60000
    } else {
        -((-d + 30000) / 60000)
    };
    let mut body = when_chars(m);
    push_all(&mut body, &chars_of(" on "));
    match &e.link {
        Some(l) => push_all(&mut body, &chars_of(l.platform.name())),
        None => {},
    }
    push_all(&mut body, &chars_of(". Join to take notes. Tell everyone that you record the call."));
    Reminder {
        event_id: e.id.clone(),
        title: string_of(&chars_of(e.display_title())),
        body: string_of(&body),
    }
}

impl CalendarState {
    /// The reminders for the events of the view at `now`, in order, with `recorded` telling for each
    /// event whether its meeting records already and `in_call` the Meet call of the user. The
    /// events get their reminder once: they join the reminded events.
    pub fn take_due(
        &mut self,
        events: &[Event],
        recorded: &[bool],
        in_call: &Option<String>,
        now: i64,
    ) -> (r: Vec<Reminder>)
        requires
            old(self).wf(),
            recorded.len() == events.len(),
        ensures
            final(self).wf(),
            final(self).events() == old(self).events(),
            final(self).access() == old(self).access(),
            final(self).last_read() == old(self).last_read(),
            reminder_views(r@) == due_reminders(
                event_views(events@),
                recorded@,
                in_call.deep_view(),
                old(self).reminded_ids(),
                now,
                events@.len() as int,
            ),
            final(self).reminded_ids() == old(self).reminded_ids() + reminder_views(r@).map_values(
                |x: ReminderView| x.0,
            ).to_set(),
    {
        let ghost es = event_views(events@);
        let ghost ids0 = self.reminded_ids();
        let ghost ic = in_call.deep_view();
        let mut due: Vec<Reminder> = Vec::new();
        let mut k: usize = 0;
        while k < events.len()
            invariant
                k <= events.len(),
                recorded.len() == events.len(),
                es == event_views(events@),
                ic == in_call.deep_view(),
                ids0 == self.reminded_ids(),
                reminder_views(due@) == due_reminders(es, recorded@, ic, ids0, now, k as int),
            decreases events.len() - k,
        {
            let e = &events[k];
            assert(es[k as int] == e@);
            let in_window = (e.start as i128) - (now as i128) <= REMINDER_LEAD_MS as i128 && (now as i128) - (
            e.start as i128) <= REMINDER_LATE_MS as i128;
            let other_call = match &e.link {
                Some(l) => match (&l.code, in_call) {
                    (None, _) => true,
                    (Some(_), None) => true,
                    (Some(c), Some(i)) => !eq_chars(&chars_of(c.as_str()), &chars_of(i.as_str())),
                },
                None => false,
            };
            let ghost before = due@;
            if in_window && other_call && !contains_str(&self.reminded, e.id.as_str()) && !recorded[k] {
                proof {
                    assert(string_views(self.reminded@).contains(e.id@) == ids0.contains(e.id@));
                }
                due.push(reminder_for(e, now));
                assert(reminder_views(due@) =~= reminder_views(before).push(reminder_of(e@, now)));
            } else {
                proof {
                    assert(string_views(self.reminded@).contains(e.id@) == ids0.contains(e.id@));
                }
            }
            k = k + 1;
        }
        let ghost ids_due = reminder_views(due@).map_values(|x: ReminderView| x.0);
        let mut j: usize = 0;
        while j < due.len()
            invariant
                j <= due.len(),
                ids_due == reminder_views(due@).map_values(|x: ReminderView| x.0),
                string_views(self.reminded@).no_duplicates(),
                self.reminded_ids() == ids0 + ids_due.take(j as int).to_set(),
                self.events() == old(self).events(),
                self.access() == old(self).access(),
                self.last_read() == old(self).last_read(),
            decreases due.len() - j,
        {
            let ghost ids_before = string_views(self.reminded@);
            let ghost x = due@[j as int].event_id@;
            assert(ids_due[j as int] == x);
            if !contains_str(&self.reminded, due[j].event_id.as_str()) {
                proof {
                    lemma_push_unique(ids_before, x);
                }
                self.reminded.push(due[j].event_id.clone());
                assert(string_views(self.reminded@) =~= ids_before.push(x));
                proof {
                    ids_before.lemma_push_to_set_commute(x);
                }
            } else {
                assert(ids_before.to_set().contains(x));
                assert(ids_before.to_set().insert(x) =~= ids_before.to_set());
            }
            assert(self.reminded_ids() == ids_before.to_set().insert(x));
            assert(ids_due.take(j + 1) =~= ids_due.take(j as int).push(x));
            proof {
                ids_due.take(j as int).lemma_push_to_set_commute(x);
            }
            assert(self.reminded_ids() =~= ids0 + ids_due.take(j + 1).to_set());
            j = j + 1;
        }
        assert(ids_due.take(j as int) =~= ids_due);
        due
    }
}


/// The hidden calendars after the user hides or shows `calendar_id`: the others stay in order, and
/// a hidden calendar comes last.
pub fn hidden_after(ids: &[String], calendar_id: &str, hidden: bool) -> (r: Vec<String>)
    ensures
        string_views(r@) == {
            let others = string_views(ids@).filter(|x: Seq<char>| x != calendar_id@);
            if hidden {
                others.push(calendar_id@)
            } else {
                others
            }
        },
{
    let ghost all = string_views(ids@);
    let ghost keep = |x: Seq<char>| x != calendar_id@;
    let target = chars_of(calendar_id);
    let mut out: Vec<String> = Vec::new();
    let mut k: usize = 0;
    while k < ids.len()
        invariant
            k <= ids.len(),
            all == string_views(ids@),
            keep == (|x: Seq<char>| x != calendar_id@),
            target@ == calendar_id@,
            string_views(out@) == all.take(k as int).filter(keep),
        decreases ids.len() - k,
    {
        let ghost before = out@;
        reveal_with_fuel(Seq::<_>::filter, 1);
        assert(all.take(k + 1).drop_last() =~= all.take(k as int));
        assert(all.take(k + 1).last() == ids@[k as int]@);
        if !eq_chars(&chars_of(ids[k].as_str()), &target) {
            out.push(ids[k].clone());
            assert(string_views(out@) =~= string_views(before).push(ids@[k as int]@));
        }
        k = k + 1;
    }
    assert(all.take(k as int) =~= all);
    if hidden {
        let ghost before = out@;
        out.push(string_of(&target));
        assert(string_views(out@) =~= string_views(before).push(calendar_id@));
    }
    out
}


// MARK: Laws

proof fn lemma_due_not_reminded(
    es: Seq<EventView>,
    recorded: Seq<bool>,
    in_call: Option<Seq<char>>,
    reminded: Set<Seq<char>>,
    now: i64,
    k: int,
)
    requires
        0 <= k <= es.len(),
        recorded.len() == es.len(),
    ensures
        forall|j: int|
            0 <= j < due_reminders(es, recorded, in_call, reminded, now, k).len() ==> !reminded.contains(
                (#[trigger] due_reminders(es, recorded, in_call, reminded, now, k)[j]).0,
            ),
    decreases k,
{
    if k > 0 {
        lemma_due_not_reminded(es, recorded, in_call, reminded, now, k - 1);
        let prev = due_reminders(es, recorded, in_call, reminded, now, k - 1);
        let cur = due_reminders(es, recorded, in_call, reminded, now, k);
        assert forall|j: int| 0 <= j < cur.len() implies !reminded.contains((#[trigger] cur[j]).0) by {
            if j < prev.len() {
                assert(cur[j] == prev[j]);
            } else {
                assert(cur[j] == reminder_of(es[k - 1], now));
            }
        }
    }
}

/// A reminder shows once: after the reminders of one check join the reminded events, a later check,
/// of any events at any time, gives none of those events a reminder again.
pub proof fn law_reminder_once(
    es: Seq<EventView>,
    recorded: Seq<bool>,
    in_call: Option<Seq<char>>,
    reminded: Set<Seq<char>>,
    now: i64,
    later: Seq<EventView>,
    later_recorded: Seq<bool>,
    later_call: Option<Seq<char>>,
    later_now: i64,
)
    requires
        recorded.len() == es.len(),
        later_recorded.len() == later.len(),
    ensures
        ({
            let first = due_reminders(es, recorded, in_call, reminded, now, es.len() as int);
            let ids = first.map_values(|x: ReminderView| x.0);
            let second = due_reminders(
                later,
                later_recorded,
                later_call,
                reminded + ids.to_set(),
                later_now,
                later.len() as int,
            );
            forall|j: int| 0 <= j < second.len() ==> !ids.contains(#[trigger] second[j].0)
        }),
{
    let first = due_reminders(es, recorded, in_call, reminded, now, es.len() as int);
    let ids = first.map_values(|x: ReminderView| x.0);
    let all = reminded + ids.to_set();
    lemma_due_not_reminded(later, later_recorded, later_call, all, later_now, later.len() as int);
    let second = due_reminders(later, later_recorded, later_call, all, later_now, later.len() as int);
    assert forall|j: int| 0 <= j < second.len() implies !ids.contains(#[trigger] second[j].0) by {
        assert(!all.contains(second[j].0));
        if ids.contains(second[j].0) {
            assert(ids.to_set().contains(second[j].0));
        }
    }
}

/// Showing a calendar again after hiding it gives the hidden calendars without it, as before.
pub proof fn law_show_after_hide(ids: Seq<Seq<char>>, calendar_id: Seq<char>)
    ensures
        ids.filter(|x: Seq<char>| x != calendar_id).push(calendar_id).filter(|x: Seq<char>| x != calendar_id)
            == ids.filter(|x: Seq<char>| x != calendar_id),
{
    let keep = |x: Seq<char>| x != calendar_id;
    let others = ids.filter(keep);
    reveal_with_fuel(Seq::<_>::filter, 1);
    assert(others.push(calendar_id).drop_last() =~= others);
    lemma_filter_kept(ids, calendar_id);
}

proof fn lemma_filter_kept(ids: Seq<Seq<char>>, calendar_id: Seq<char>)
    ensures
        ids.filter(|x: Seq<char>| x != calendar_id).filter(|x: Seq<char>| x != calendar_id) == ids.filter(
            |x: Seq<char>| x != calendar_id,
        ),
    decreases ids.len(),
{
    let keep = |x: Seq<char>| x != calendar_id;
    reveal_with_fuel(Seq::<_>::filter, 1);
    if ids.len() > 0 {
        lemma_filter_kept(ids.drop_last(), calendar_id);
        if keep(ids.last()) {
            assert(ids.filter(keep).drop_last() =~= ids.drop_last().filter(keep));
        }
    } else {
        assert(ids.filter(keep) =~= Seq::<Seq<char>>::empty());
        assert(ids.filter(keep).filter(keep) =~= Seq::<Seq<char>>::empty());
    }
}

} // verus!
