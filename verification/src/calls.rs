//! The calls in desktop meeting apps, such as Zoom or Microsoft Teams. The engine detects a call from
//! the audio of its app and reads its participants from the app window.
use vstd::prelude::*;

use crate::db::Participant;
use crate::session::{
    active_view, copy_participants, copy_strings, ended_view, limit_names, limit_participants, limited_names,
    limited_participants, mark_self, mark_self_of, participant_views, Active, ActiveView, ParticipantView,
};
use crate::text::{chars_of, eq_chars, string_of, string_views};

verus! {

broadcast use vstd::string::group_string_axioms;

/// A call in a desktop meeting app.
#[derive(Debug)]
pub struct AppCall {
    /// The bundle ID of the app, which is also its recording source.
    pub app: String,
    pub name: String,
    pub since: i64,
    /// The participants that the engine reads from the app window. The name is also the participant ID.
    /// The list is empty when reading is off.
    pub participants: Vec<Participant>,
    pub speaking: Vec<String>,
    /// The microphone state in the app. `None` when the engine cannot read it.
    pub mic_muted: Option<bool>,
}

#[verifier::ext_equal]
pub struct AppCallView {
    pub app: Seq<char>,
    pub name: Seq<char>,
    pub since: i64,
    pub participants: Seq<ParticipantView>,
    pub speaking: Seq<Seq<char>>,
    pub mic_muted: Option<bool>,
}

impl View for AppCall {
    type V = AppCallView;

    open spec fn view(&self) -> AppCallView {
        AppCallView {
            app: self.app@,
            name: self.name@,
            since: self.since,
            participants: participant_views(self.participants@),
            speaking: string_views(self.speaking@),
            mic_muted: self.mic_muted,
        }
    }
}

/// The views of a list of calls.
pub open spec fn call_views(cs: Seq<AppCall>) -> Seq<AppCallView> {
    cs.map_values(|c: AppCall| c@)
}

/// The calls of other apps than `app`, in order.
pub open spec fn without_app(cs: Seq<AppCallView>, app: Seq<char>) -> Seq<AppCallView> {
    cs.filter(|c: AppCallView| c.app != app)
}

/// The first call of `app` at or after `from`, or the length when there is none.
pub open spec fn first_call(cs: Seq<AppCallView>, app: Seq<char>, from: int) -> int
    decreases cs.len() - from,
{
    if from >= cs.len() {
        cs.len() as int
    } else if from >= 0 && cs[from].app == app {
        from
    } else {
        first_call(cs, app, from + 1)
    }
}

pub proof fn lemma_first_call(cs: Seq<AppCallView>, app: Seq<char>, from: int)
    requires
        0 <= from <= cs.len(),
    ensures
        from <= first_call(cs, app, from) <= cs.len(),
        first_call(cs, app, from) < cs.len() ==> cs[first_call(cs, app, from)].app == app,
        forall|j: int| from <= j < first_call(cs, app, from) ==> cs[j].app != app,
    decreases cs.len() - from,
{
    if from < cs.len() && cs[from].app != app {
        lemma_first_call(cs, app, from + 1);
    }
}

impl AppCall {
    /// A call from an engine message: the name is the bundle ID and the start is `now` when the
    /// message has none. A message without an app has no call.
    pub fn parse(app: Option<&str>, name: Option<&str>, since: Option<i64>, now: i64) -> (r: Option<AppCall>)
        ensures
            r is Some <==> app is Some,
            r is Some ==> r->0@ == (AppCallView {
                app: app->0@,
                name: match name {
                    Some(n) => n@,
                    None => app->0@,
                },
                since: match since {
                    Some(s) => s,
                    None => now,
                },
                participants: Seq::empty(),
                speaking: Seq::empty(),
                mic_muted: None,
            }),
    {
        match app {
            None => None,
            Some(a) => {
                let n = match name {
                    Some(n) => string_of(&chars_of(n)),
                    None => string_of(&chars_of(a)),
                };
                let c = AppCall {
                    app: string_of(&chars_of(a)),
                    name: n,
                    since: match since {
                        Some(s) => s,
                        None => now,
                    },
                    participants: Vec::new(),
                    speaking: Vec::new(),
                    mic_muted: None,
                };
                assert(participant_views(c.participants@) =~= Seq::empty());
                assert(string_views(c.speaking@) =~= Seq::empty());
                Some(c)
            },
        }
    }

    /// A copy of the call.
    pub fn copy(&self) -> (r: AppCall)
        ensures
            r@ == self@,
    {
        AppCall {
            app: self.app.clone(),
            name: self.name.clone(),
            since: self.since,
            participants: copy_participants(&self.participants),
            speaking: copy_strings(&self.speaking),
            mic_muted: self.mic_muted,
        }
    }
}

fn same_text(a: &String, b: &String) -> (r: bool)
    ensures
        r == (a@ == b@),
{
    eq_chars(&chars_of(a.as_str()), &chars_of(b.as_str()))
}

/// Removes the calls of `app`, and keeps the others in order.
pub fn remove_app(calls: &mut Vec<AppCall>, app: &str)
    ensures
        call_views(final(calls)@) == without_app(call_views(old(calls)@), app@),
{
    let ghost all = call_views(calls@);
    let ghost keep = |c: AppCallView| c.app != app@;
    let target = chars_of(app);
    let mut kept: Vec<AppCall> = Vec::new();
    let mut k: usize = 0;
    while k < calls.len()
        invariant
            k <= calls.len(),
            all == call_views(calls@),
            keep == (|c: AppCallView| c.app != app@),
            target@ == app@,
            call_views(kept@) == all.take(k as int).filter(keep),
        decreases calls.len() - k,
    {
        let ghost before = kept@;
        reveal_with_fuel(Seq::<_>::filter, 1);
        assert(all.take(k + 1).drop_last() =~= all.take(k as int));
        assert(all.take(k + 1).last() == calls@[k as int]@);
        if !eq_chars(&chars_of(calls[k].app.as_str()), &target) {
            kept.push(calls[k].copy());
            assert(call_views(kept@) =~= call_views(before).push(calls@[k as int]@));
        }
        k = k + 1;
    }
    assert(all.take(k as int) =~= all);
    *calls = kept;
}

/// True when the list has a call of `app`.
pub fn has_app(calls: &[AppCall], app: &str) -> (r: bool)
    ensures
        r == (exists|j: int| 0 <= j < calls@.len() && (#[trigger] calls@[j])@.app == app@),
{
    let target = chars_of(app);
    let mut i: usize = 0;
    while i < calls.len()
        invariant
            i <= calls.len(),
            target@ == app@,
            forall|j: int| 0 <= j < i ==> (#[trigger] calls@[j])@.app != app@,
        decreases calls.len() - i,
    {
        if eq_chars(&chars_of(calls[i].app.as_str()), &target) {
            assert(calls@[i as int]@.app == app@);
            return true;
        }
        i = i + 1;
    }
    false
}

/// True when a recording joins a call of `app` that starts: it records the app and has no Meet call.
pub open spec fn joins_app_call(a: Option<ActiveView>, app: Seq<char>) -> bool {
    a is Some && a->0.source == app && a->0.meeting_code is None
}

/// A call started. It replaces the calls of its app, and comes last. A rejoin of the call whose end
/// waits for the automatic stop cancels the stop, and a recording of the app that started before
/// the call joins the call. The result is true when the recording joined.
pub fn on_call_started(
    calls: &mut Vec<AppCall>,
    call_ended: &mut Option<(String, i64)>,
    active: &mut Option<Active>,
    call: AppCall,
) -> (r: bool)
    ensures
        call_views(final(calls)@) == without_app(call_views(old(calls)@), call@.app).push(call@),
        ended_view(*final(call_ended)) == (match ended_view(*old(call_ended)) {
            Some((c, t)) => if c == call@.app {
                None
            } else {
                Some((c, t))
            },
            None => None,
        }),
        r == joins_app_call(active_view(*old(active)), call@.app),
        active_view(*final(active)) == (if r {
            Some(ActiveView { app_call: Some(call@.app), ..active_view(*old(active))->0 })
        } else {
            active_view(*old(active))
        }),
{
    let app = call.app.clone();
    remove_app(calls, app.as_str());
    calls.push(call);
    let cancel = match &*call_ended {
        Some((c, _)) => same_text(c, &app),
        None => false,
    };
    if cancel {
        *call_ended = None;
    }
    let joins = match &*active {
        Some(a) => same_text(&a.source, &app) && a.meeting_code.is_none(),
        None => false,
    };
    if joins {
        if let Some(a) = active {
            a.app_call = Some(app);
        }
    }
    proof {
        assert(call_views(calls@) =~= without_app(call_views(old(calls)@), call@.app).push(call@));
    }
    assert(active_view(*active) =~~= (if joins {
        Some(ActiveView { app_call: Some(call@.app), ..active_view(*old(active))->0 })
    } else {
        active_view(*old(active))
    }));
    joins
}

/// What the app does after a state message of a call.
#[derive(Debug)]
pub struct CallOutcome {
    /// The meeting that records the call and the participants now.
    pub store_participants: Option<(String, Vec<Participant>)>,
    /// The meeting that records the call, the time, and the speakers now.
    pub speaker_event: Option<(String, i64, Vec<String>)>,
    /// The new microphone state in the app and its time, for the engine.
    pub mic_muted: Option<(bool, i64)>,
}

/// The call of `app` after a state message: the participants, the speakers, and the microphone.
pub open spec fn call_after(
    c: AppCallView,
    participants: Seq<ParticipantView>,
    speaking: Seq<Seq<char>>,
    muted: Option<bool>,
    own: Seq<char>,
) -> AppCallView {
    AppCallView {
        participants: mark_self_of(limited_participants(participants), own),
        speaking: limited_names(speaking),
        mic_muted: muted,
        ..c
    }
}

/// A state message of the call of `app` at `t`, or now: the participants, who speaks, and the
/// microphone. It changes the first call of the app; without one the message has no effect and the
/// result is `None`. The user is the participant that the app marks, or else the one named `own`.
/// The recording of the call stores the participants and, unless it is paused, the speakers; the
/// engine gets the microphone when it changed.
pub fn on_call_state(
    calls: &mut Vec<AppCall>,
    active: &Option<Active>,
    app: &str,
    participants: &[Participant],
    speaking: &[String],
    muted: Option<bool>,
    own: &str,
    t: Option<i64>,
    now: i64,
) -> (r: Option<CallOutcome>)
    ensures
        ({
            let cs = call_views(old(calls)@);
            let i = first_call(cs, app@, 0);
            let t = match t {
                Some(t) => t,
                None => now,
            };
            let recorded = active is Some && active->0@.app_call == Some(app@);
            &&& r is Some <==> i < cs.len()
            &&& r is None ==> call_views(final(calls)@) == cs
            &&& r is Some ==> {
                let o = r->0;
                let after = call_after(
                    cs[i],
                    participant_views(participants@),
                    string_views(speaking@),
                    muted,
                    own@,
                );
                &&& call_views(final(calls)@) == cs.update(i, after)
                &&& o.store_participants is Some <==> recorded
                &&& o.store_participants is Some ==> o.store_participants.unwrap().0@ == active->0.meeting_id@
                    && participant_views(o.store_participants.unwrap().1@) == after.participants
                &&& o.speaker_event is Some <==> (recorded && !active->0.paused)
                &&& o.speaker_event is Some ==> o.speaker_event.unwrap().0@ == active->0.meeting_id@
                    && o.speaker_event.unwrap().1 == t && string_views(o.speaker_event.unwrap().2@)
                    == after.speaking
                &&& o.mic_muted == (if recorded && muted is Some && muted != cs[i].mic_muted {
                    Some((muted->0, t))
                } else {
                    None
                })
            }
        }),
{
    let ghost cs = call_views(calls@);
    let t = match t {
        Some(t) => t,
        None => now,
    };
    let target = chars_of(app);
    let mut i: usize = 0;
    proof {
        lemma_first_call(cs, app@, 0);
    }
    while i < calls.len()
        invariant
            i <= calls.len(),
            cs == call_views(calls@),
            target@ == app@,
            0 <= first_call(cs, app@, 0) <= cs.len(),
            forall|j: int| 0 <= j < first_call(cs, app@, 0) ==> cs[j].app != app@,
            first_call(cs, app@, 0) < cs.len() ==> cs[first_call(cs, app@, 0)].app == app@,
            i <= first_call(cs, app@, 0),
        ensures
            i < calls.len() ==> cs[i as int].app == app@,
        decreases calls.len() - i,
    {
        if eq_chars(&chars_of(calls[i].app.as_str()), &target) {
            assert(cs[i as int].app == app@);
            break;
        }
        i = i + 1;
    }
    if i >= calls.len() {
        return None;
    }
    assert(i == first_call(cs, app@, 0));
    let before = calls[i].mic_muted;
    let mut ps = limit_participants(participants);
    mark_self(&mut ps, own);
    let names = limit_names(speaking);
    let updated = AppCall {
        app: calls[i].app.clone(),
        name: calls[i].name.clone(),
        since: calls[i].since,
        participants: copy_participants(&ps),
        speaking: copy_strings(&names),
        mic_muted: muted,
    };
    calls.set(i, updated);
    assert(call_views(calls@) =~= cs.update(
        i as int,
        call_after(cs[i as int], participant_views(participants@), string_views(speaking@), muted, own@),
    ));
    let recorded = match active {
        Some(a) => match &a.app_call {
            Some(c) => eq_chars(&chars_of(c.as_str()), &target),
            None => false,
        },
        None => false,
    };
    let mut outcome = CallOutcome { store_participants: None, speaker_event: None, mic_muted: None };
    if recorded {
        if let Some(a) = active {
            outcome.store_participants = Some((a.meeting_id.clone(), ps));
            if !a.paused {
                outcome.speaker_event = Some((a.meeting_id.clone(), t, names));
            }
        }
        if let Some(m) = muted {
            let changed = match before {
                Some(b) => b != m,
                None => true,
            };
            if changed {
                outcome.mic_muted = Some((m, t));
            }
        }
    }
    Some(outcome)
}

/// A call ended. Its app leaves the list. The result is the meeting that records the call: its
/// recording stops automatically.
pub fn on_call_ended(calls: &mut Vec<AppCall>, active: &Option<Active>, app: &str) -> (r: Option<String>)
    ensures
        call_views(final(calls)@) == without_app(call_views(old(calls)@), app@),
        r.deep_view() == (if active is Some && active->0@.app_call == Some(app@) {
            Some(active->0.meeting_id@)
        } else {
            None
        }),
{
    remove_app(calls, app);
    match active {
        Some(a) => {
            let same = match &a.app_call {
                Some(c) => eq_chars(&chars_of(c.as_str()), &chars_of(app)),
                None => false,
            };
            if same {
                Some(a.meeting_id.clone())
            } else {
                None
            }
        },
        None => None,
    }
}

/// The calls that the engine lists and the app does not know yet, in order.
pub fn new_calls(known: &[AppCall], found: Vec<AppCall>) -> (r: Vec<AppCall>)
    ensures
        call_views(r@) == call_views(found@).filter(
            |c: AppCallView| !(exists|j: int| 0 <= j < known@.len() && (#[trigger] known@[j])@.app == c.app),
        ),
{
    let ghost all = call_views(found@);
    let ghost keep = |c: AppCallView| !(exists|j: int| 0 <= j < known@.len() && (#[trigger] known@[j])@.app == c.app);
    let mut out: Vec<AppCall> = Vec::new();
    let mut k: usize = 0;
    while k < found.len()
        invariant
            k <= found.len(),
            all == call_views(found@),
            keep == (|c: AppCallView| !(exists|j: int| 0 <= j < known@.len() && (#[trigger] known@[j])@.app == c.app)),
            call_views(out@) == all.take(k as int).filter(keep),
        decreases found.len() - k,
    {
        let ghost before = out@;
        reveal_with_fuel(Seq::<_>::filter, 1);
        assert(all.take(k + 1).drop_last() =~= all.take(k as int));
        assert(all.take(k + 1).last() == found@[k as int]@);
        if !has_app(known, found[k].app.as_str()) {
            out.push(found[k].copy());
            assert(call_views(out@) =~= call_views(before).push(found@[k as int]@));
        }
        k = k + 1;
    }
    assert(all.take(k as int) =~= all);
    out
}

} // verus!
