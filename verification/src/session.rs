//! The state of the calls and the recording: the Meet extension, the desktop app calls, and the
//! decisions that the app takes on their messages. The app performs the decisions: it writes to the
//! library, calls the engine, and starts the timers.
use vstd::prelude::*;

use crate::calls::{call_views, first_call, AppCall};
use crate::db::Participant;
use crate::text::{chars_of, eq_chars, has_prefix, has_prefix_exec, lowercase, lowercase_chars, slice_vec, string_of, string_views, trim, trim_chars};

verus! {

broadcast use vstd::string::group_string_axioms;

/// The most participants and speaker names that the app takes from one message.
pub const MAX_PEOPLE: usize = 100;

/// The most characters of a participant ID or name.
pub const MAX_NAME_CHARS: usize = 200;

pub type ParticipantView = (Seq<char>, Seq<char>, bool);

pub open spec fn participant_views(ps: Seq<Participant>) -> Seq<ParticipantView> {
    ps.map_values(|p: Participant| p@)
}

pub open spec fn cut(s: Seq<char>, n: int) -> Seq<char> {
    if s.len() > n {
        s.take(n)
    } else {
        s
    }
}

/// The first `MAX_PEOPLE` participants, with IDs and names of at most `MAX_NAME_CHARS` characters.
pub open spec fn limited_participants(ps: Seq<ParticipantView>) -> Seq<ParticipantView> {
    let first = if ps.len() > MAX_PEOPLE {
        ps.take(MAX_PEOPLE as int)
    } else {
        ps
    };
    first.map_values(
        |p: ParticipantView| (cut(p.0, MAX_NAME_CHARS as int), cut(p.1, MAX_NAME_CHARS as int), p.2),
    )
}

/// The first `MAX_PEOPLE` names, each of at most `MAX_NAME_CHARS` characters.
pub open spec fn limited_names(ns: Seq<Seq<char>>) -> Seq<Seq<char>> {
    let first = if ns.len() > MAX_PEOPLE {
        ns.take(MAX_PEOPLE as int)
    } else {
        ns
    };
    first.map_values(|n: Seq<char>| cut(n, MAX_NAME_CHARS as int))
}

fn cut_string(s: &String) -> (r: String)
    ensures
        r@ == cut(s@, MAX_NAME_CHARS as int),
{
    let c = chars_of(s.as_str());
    if c.len() > MAX_NAME_CHARS {
        string_of(&slice_vec(&c, 0, MAX_NAME_CHARS))
    } else {
        string_of(&c)
    }
}

/// Keeps the first `MAX_PEOPLE` participants of a message, with IDs and names of at most
/// `MAX_NAME_CHARS` characters.
pub fn limit_participants(ps: &[Participant]) -> (r: Vec<Participant>)
    ensures
        participant_views(r@) == limited_participants(participant_views(ps@)),
{
    let n = if ps.len() > MAX_PEOPLE {
        MAX_PEOPLE
    } else {
        ps.len()
    };
    let mut out: Vec<Participant> = Vec::new();
    let mut i: usize = 0;
    while i < n
        invariant
            i <= n <= ps.len(),
            n == if ps.len() > MAX_PEOPLE {
                MAX_PEOPLE as int
            } else {
                ps.len() as int
            },
            out@.len() == i,
            forall|j: int|
                0 <= j < i ==> #[trigger] out@[j]@ == (
                    cut(ps@[j]@.0, MAX_NAME_CHARS as int),
                    cut(ps@[j]@.1, MAX_NAME_CHARS as int),
                    ps@[j]@.2,
                ),
        decreases n - i,
    {
        out.push(
            Participant {
                participant_id: cut_string(&ps[i].participant_id),
                name: cut_string(&ps[i].name),
                is_self: ps[i].is_self,
            },
        );
        i = i + 1;
    }
    assert(participant_views(out@) =~= limited_participants(participant_views(ps@)));
    out
}

/// Keeps the first `MAX_PEOPLE` names of a message, each of at most `MAX_NAME_CHARS` characters.
pub fn limit_names(ns: &[String]) -> (r: Vec<String>)
    ensures
        string_views(r@) == limited_names(string_views(ns@)),
{
    let n = if ns.len() > MAX_PEOPLE {
        MAX_PEOPLE
    } else {
        ns.len()
    };
    let mut out: Vec<String> = Vec::new();
    let mut i: usize = 0;
    while i < n
        invariant
            i <= n <= ns.len(),
            n == if ns.len() > MAX_PEOPLE {
                MAX_PEOPLE as int
            } else {
                ns.len() as int
            },
            out@.len() == i,
            forall|j: int| 0 <= j < i ==> #[trigger] out@[j]@ == cut(ns@[j]@, MAX_NAME_CHARS as int),
        decreases n - i,
    {
        out.push(cut_string(&ns[i]));
        i = i + 1;
    }
    assert(string_views(out@) =~= limited_names(string_views(ns@)));
    out
}

// MARK: The user in a call

/// The call app does not always mark the user. Then the user's name identifies the user: when no
/// participant is the user, each participant whose name matches `own` in lowercase, without white
/// space around it, becomes the user.
pub open spec fn mark_self_of(ps: Seq<ParticipantView>, own: Seq<char>) -> Seq<ParticipantView> {
    if exists|i: int| 0 <= i < ps.len() && (#[trigger] ps[i]).2 {
        ps
    } else {
        let key = lowercase(trim(own));
        ps.map_values(
            |p: ParticipantView| (p.0, p.1, p.2 || (key.len() > 0 && lowercase(trim(p.1)) == key)),
        )
    }
}

/// Marks the user among the participants, as `mark_self_of` states.
pub fn mark_self(participants: &mut Vec<Participant>, own: &str)
    ensures
        participant_views(final(participants)@) == mark_self_of(participant_views(old(participants)@), own@),
{
    let ghost before = participant_views(participants@);
    let mut k: usize = 0;
    while k < participants.len()
        invariant
            k <= participants.len(),
            before == participant_views(participants@),
            forall|j: int| 0 <= j < k ==> !(#[trigger] before[j]).2,
        decreases participants.len() - k,
    {
        if participants[k].is_self {
            assert(before[k as int].2);
            assert(mark_self_of(before, own@) == before);
            return;
        }
        k = k + 1;
    }
    let key = lowercase_chars(&trim_chars(&chars_of(own)));
    let mut i: usize = 0;
    while i < participants.len()
        invariant
            i <= participants.len(),
            participants@.len() == before.len(),
            key@ == lowercase(trim(own@)),
            forall|j: int| 0 <= j < before.len() ==> !(#[trigger] before[j]).2,
            forall|j: int|
                0 <= j < i ==> #[trigger] participants@[j]@ == (
                    before[j].0,
                    before[j].1,
                    before[j].2 || (key@.len() > 0 && lowercase(trim(before[j].1)) == key@),
                ),
            forall|j: int| i <= j < participants@.len() ==> #[trigger] participants@[j]@ == before[j],
        decreases participants.len() - i,
    {
        let matches = key.len() > 0 && eq_chars(
            &lowercase_chars(&trim_chars(&chars_of(participants[i].name.as_str()))),
            &key,
        );
        proof {
            assert(participants@[i as int]@ == before[i as int]);
        }
        if matches {
            let p = Participant {
                participant_id: participants[i].participant_id.clone(),
                name: participants[i].name.clone(),
                is_self: true,
            };
            participants.set(i, p);
        }
        i = i + 1;
    }
    assert(participant_views(participants@) =~= mark_self_of(before, own@));
}


// MARK: Copies

/// A copy of a participant list.
pub fn copy_participants(ps: &[Participant]) -> (r: Vec<Participant>)
    ensures
        participant_views(r@) == participant_views(ps@),
{
    let mut out: Vec<Participant> = Vec::new();
    let mut i: usize = 0;
    while i < ps.len()
        invariant
            i <= ps.len(),
            out@.len() == i,
            forall|j: int| 0 <= j < i ==> #[trigger] out@[j]@ == ps@[j]@,
        decreases ps.len() - i,
    {
        out.push(
            Participant {
                participant_id: ps[i].participant_id.clone(),
                name: ps[i].name.clone(),
                is_self: ps[i].is_self,
            },
        );
        i = i + 1;
    }
    assert(participant_views(out@) =~= participant_views(ps@));
    out
}

/// A copy of a list of strings.
pub fn copy_strings(v: &[String]) -> (r: Vec<String>)
    ensures
        string_views(r@) == string_views(v@),
{
    let mut out: Vec<String> = Vec::new();
    let mut i: usize = 0;
    while i < v.len()
        invariant
            i <= v.len(),
            out@.len() == i,
            forall|j: int| 0 <= j < i ==> #[trigger] out@[j]@ == v@[j]@,
        decreases v.len() - i,
    {
        out.push(v[i].clone());
        i = i + 1;
    }
    assert(string_views(out@) =~= string_views(v@));
    out
}

fn copy_opt(s: &Option<String>) -> (r: Option<String>)
    ensures
        r.deep_view() == s.deep_view(),
{
    match s {
        Some(v) => Some(v.clone()),
        None => None,
    }
}

// MARK: The recording

/// A recording in progress.
#[derive(Debug)]
pub struct Active {
    pub meeting_id: String,
    pub start_wall_ms: i64,
    pub paused: bool,
    /// The meeting audio source: an app bundle ID, or "all".
    pub source: String,
    /// The Meet call of this recording, when the extension saw one at the start.
    pub meeting_code: Option<String>,
    /// The desktop app call of this recording, by the app bundle ID. It is the same as `source`.
    pub app_call: Option<String>,
}

#[verifier::ext_equal]
pub struct ActiveView {
    pub meeting_id: Seq<char>,
    pub start_wall_ms: i64,
    pub paused: bool,
    pub source: Seq<char>,
    pub meeting_code: Option<Seq<char>>,
    pub app_call: Option<Seq<char>>,
}

impl View for Active {
    type V = ActiveView;

    open spec fn view(&self) -> ActiveView {
        ActiveView {
            meeting_id: self.meeting_id@,
            start_wall_ms: self.start_wall_ms,
            paused: self.paused,
            source: self.source@,
            meeting_code: self.meeting_code.deep_view(),
            app_call: self.app_call.deep_view(),
        }
    }
}

/// The view of an optional recording.
pub open spec fn active_view(a: Option<Active>) -> Option<ActiveView> {
    match a {
        Some(a) => Some(a@),
        None => None,
    }
}

impl Active {
    /// A copy of the recording.
    pub fn copy(&self) -> (r: Active)
        ensures
            r@ == self@,
    {
        Active {
            meeting_id: self.meeting_id.clone(),
            start_wall_ms: self.start_wall_ms,
            paused: self.paused,
            source: self.source.clone(),
            meeting_code: copy_opt(&self.meeting_code),
            app_call: copy_opt(&self.app_call),
        }
    }
}

// MARK: The Meet extension

/// What the Meet extension reports: the call, its participants, who speaks, and the microphone.
#[derive(Debug)]
pub struct ExtensionState {
    pub connected_at: Option<i64>,
    pub last_seen: Option<i64>,
    pub meeting_code: Option<String>,
    pub title: Option<String>,
    pub self_name: Option<String>,
    pub participants: Vec<Participant>,
    pub speaking: Vec<String>,
    /// The microphone state in Meet. `None` when the page does not show it.
    pub mic_muted: Option<bool>,
}

#[verifier::ext_equal]
pub struct ExtensionView {
    pub connected_at: Option<i64>,
    pub last_seen: Option<i64>,
    pub meeting_code: Option<Seq<char>>,
    pub title: Option<Seq<char>>,
    pub self_name: Option<Seq<char>>,
    pub participants: Seq<ParticipantView>,
    pub speaking: Seq<Seq<char>>,
    pub mic_muted: Option<bool>,
}

impl View for ExtensionState {
    type V = ExtensionView;

    open spec fn view(&self) -> ExtensionView {
        ExtensionView {
            connected_at: self.connected_at,
            last_seen: self.last_seen,
            meeting_code: self.meeting_code.deep_view(),
            title: self.title.deep_view(),
            self_name: self.self_name.deep_view(),
            participants: participant_views(self.participants@),
            speaking: string_views(self.speaking@),
            mic_muted: self.mic_muted,
        }
    }
}

/// The state before the extension sends anything.
pub open spec fn empty_extension() -> ExtensionView {
    ExtensionView {
        connected_at: None,
        last_seen: None,
        meeting_code: None,
        title: None,
        self_name: None,
        participants: Seq::empty(),
        speaking: Seq::empty(),
        mic_muted: None,
    }
}

impl Default for ExtensionState {
    fn default() -> (r: ExtensionState)
        ensures
            r@ == empty_extension(),
    {
        let r = ExtensionState {
            connected_at: None,
            last_seen: None,
            meeting_code: None,
            title: None,
            self_name: None,
            participants: Vec::new(),
            speaking: Vec::new(),
            mic_muted: None,
        };
        assert(r@ =~= empty_extension());
        r
    }
}

impl ExtensionState {
    /// A copy of the state, as the window gets it.
    pub fn copy(&self) -> (r: ExtensionState)
        ensures
            r@ == self@,
    {
        ExtensionState {
            connected_at: self.connected_at,
            last_seen: self.last_seen,
            meeting_code: copy_opt(&self.meeting_code),
            title: copy_opt(&self.title),
            self_name: copy_opt(&self.self_name),
            participants: copy_participants(&self.participants),
            speaking: copy_strings(&self.speaking),
            mic_muted: self.mic_muted,
        }
    }
}


/// The kind of a message from the Meet extension.
#[derive(Debug, Clone, Copy, PartialEq, Eq, Structural)]
pub enum ExtensionKind {
    /// The call, its title, the user's name, the participants, and the microphone.
    MeetState,
    /// The participants who speak now.
    ActiveSpeakers,
    /// The microphone changed.
    MicState,
    /// The extension is alive.
    Ping,
    /// The user left the call.
    MeetingEnded,
    /// A message of another kind.
    Other,
}

impl ExtensionKind {
    pub open spec fn of_text(kind: Seq<char>) -> ExtensionKind {
        if kind == "meet_state"@ {
            ExtensionKind::MeetState
        } else if kind == "active_speakers"@ {
            ExtensionKind::ActiveSpeakers
        } else if kind == "mic_state"@ {
            ExtensionKind::MicState
        } else if kind == "ping"@ {
            ExtensionKind::Ping
        } else if kind == "meeting_ended"@ {
            ExtensionKind::MeetingEnded
        } else {
            ExtensionKind::Other
        }
    }

    /// The kind of a message by its `type` field.
    pub fn of(kind: &str) -> (r: ExtensionKind)
        ensures
            r == Self::of_text(kind@),
    {
        let k = chars_of(kind);
        if eq_chars(&k, &chars_of("meet_state")) {
            ExtensionKind::MeetState
        } else if eq_chars(&k, &chars_of("active_speakers")) {
            ExtensionKind::ActiveSpeakers
        } else if eq_chars(&k, &chars_of("mic_state")) {
            ExtensionKind::MicState
        } else if eq_chars(&k, &chars_of("ping")) {
            ExtensionKind::Ping
        } else if eq_chars(&k, &chars_of("meeting_ended")) {
            ExtensionKind::MeetingEnded
        } else {
            ExtensionKind::Other
        }
    }
}

/// A message from the Meet extension, with the fields that the app reads.
#[derive(Debug)]
pub struct ExtensionMessage {
    pub kind: ExtensionKind,
    /// The time of the message.
    pub t: Option<i64>,
    pub meeting_code: Option<String>,
    pub title: Option<String>,
    pub self_name: Option<String>,
    /// The participants of a state message, as the page lists them.
    pub participants: Vec<Participant>,
    /// The speakers of a speaker message.
    pub speaking: Vec<String>,
    /// The microphone of a state message.
    pub mic_muted: Option<bool>,
    /// The microphone of a microphone message.
    pub muted: Option<bool>,
    /// The time when the user left the call, in an end message.
    pub left_at: Option<i64>,
}

#[verifier::ext_equal]
pub struct MessageView {
    pub kind: ExtensionKind,
    pub t: Option<i64>,
    pub meeting_code: Option<Seq<char>>,
    pub title: Option<Seq<char>>,
    pub self_name: Option<Seq<char>>,
    pub participants: Seq<ParticipantView>,
    pub speaking: Seq<Seq<char>>,
    pub mic_muted: Option<bool>,
    pub muted: Option<bool>,
    pub left_at: Option<i64>,
}

impl View for ExtensionMessage {
    type V = MessageView;

    open spec fn view(&self) -> MessageView {
        MessageView {
            kind: self.kind,
            t: self.t,
            meeting_code: self.meeting_code.deep_view(),
            title: self.title.deep_view(),
            self_name: self.self_name.deep_view(),
            participants: participant_views(self.participants@),
            speaking: string_views(self.speaking@),
            mic_muted: self.mic_muted,
            muted: self.muted,
            left_at: self.left_at,
        }
    }
}

/// The extension state after a message at `now`. A state message names the user with its own
/// name, or with `own` when it has none.
pub open spec fn extension_after(s: ExtensionView, m: MessageView, own: Seq<char>, now: i64) -> ExtensionView {
    let seen = ExtensionView {
        connected_at: if s.connected_at is None {
            Some(now)
        } else {
            s.connected_at
        },
        last_seen: Some(now),
        ..s
    };
    match m.kind {
        ExtensionKind::MeetState => {
            let name = match m.self_name {
                Some(n) => n,
                None => own,
            };
            ExtensionView {
                meeting_code: m.meeting_code,
                title: m.title,
                self_name: m.self_name,
                participants: mark_self_of(limited_participants(m.participants), name),
                mic_muted: m.mic_muted,
                ..seen
            }
        },
        ExtensionKind::ActiveSpeakers => ExtensionView { speaking: limited_names(m.speaking), ..seen },
        ExtensionKind::MicState => ExtensionView { mic_muted: m.muted, ..seen },
        ExtensionKind::MeetingEnded => ExtensionView {
            mic_muted: None,
            meeting_code: None,
            speaking: Seq::empty(),
            participants: Seq::empty(),
            title: None,
            ..seen
        },
        _ => seen,
    }
}

/// The call that an end message ends: its own code, or the call of the extension state.
pub open spec fn ended_call(s: ExtensionView, m: MessageView) -> Option<Seq<char>> {
    if m.kind == ExtensionKind::MeetingEnded {
        match m.meeting_code {
            Some(c) => Some(c),
            None => s.meeting_code,
        }
    } else {
        None
    }
}

/// A recording without a call joins the Meet call at the first state message of the call.
pub open spec fn joins_call(a: Option<ActiveView>, m: MessageView) -> bool {
    &&& a is Some
    &&& a->0.meeting_code is None
    &&& a->0.app_call is None
    &&& m.meeting_code is Some
    &&& m.kind == ExtensionKind::MeetState
}

/// The recording after a message.
pub open spec fn active_after(a: Option<ActiveView>, m: MessageView) -> Option<ActiveView> {
    if joins_call(a, m) {
        Some(ActiveView { meeting_code: m.meeting_code, ..a->0 })
    } else {
        a
    }
}

/// The microphone state that the engine gets, when it changed in the call of the recording.
pub open spec fn mute_change(s: ExtensionView, a: Option<ActiveView>, m: MessageView, own: Seq<char>, now: i64) -> Option<bool> {
    let after = extension_after(s, m, own, now);
    if joins_call(a, m) {
        m.mic_muted
    } else if after.mic_muted != s.mic_muted && after.meeting_code is Some {
        after.mic_muted
    } else {
        None
    }
}

/// True when the message belongs to the Meet call of the recording.
pub open spec fn in_recorded_call(a: Option<ActiveView>, m: MessageView) -> bool {
    let b = active_after(a, m);
    b is Some && b->0.meeting_code is Some && b->0.meeting_code == m.meeting_code
}

/// The automatic stop after a message, if it cancels the stop of its call.
pub open spec fn call_ended_after(
    ended: Option<(Seq<char>, i64)>,
    s: ExtensionView,
    m: MessageView,
) -> Option<(Seq<char>, i64)> {
    if ended_call(s, m) is None && m.meeting_code is Some && ended is Some && Some(ended.unwrap().0) == m.meeting_code {
        None
    } else {
        ended
    }
}

/// The view of the automatic stop that waits.
pub open spec fn ended_view(e: Option<(String, i64)>) -> Option<(Seq<char>, i64)> {
    match e {
        Some((c, t)) => Some((c@, t)),
        None => None,
    }
}

/// What the app does after a message of the extension.
#[derive(Debug)]
pub struct ExtensionOutcome {
    /// The meeting that records and its participants now.
    pub store_participants: Option<(String, Vec<Participant>)>,
    /// The meeting that records, the time, and the speakers now.
    pub speaker_event: Option<(String, i64, Vec<String>)>,
    /// The user's name from Meet, stored when the app has none yet.
    pub offer_self_name: Option<String>,
    /// The microphone state and its time, for the engine.
    pub mic_muted: Option<(bool, i64)>,
    /// The meeting, the call, and the time when the user left it: the automatic stop to schedule.
    pub auto_stop: Option<(String, String, i64)>,
    /// The reply to the extension: true while a recording runs and is not paused.
    pub recording: bool,
    /// The reply to the extension: the start of the recording.
    pub recording_since: Option<i64>,
}

/// Handles a message from the Meet extension at `now`: updates the extension state, the recording,
/// and the automatic stop, and says what the app writes and sends.
pub fn on_extension_message(
    ext: &mut ExtensionState,
    active: &mut Option<Active>,
    call_ended: &mut Option<(String, i64)>,
    message: &ExtensionMessage,
    own: &str,
    now: i64,
) -> (r: ExtensionOutcome)
    ensures
        final(ext)@ == extension_after(old(ext)@, message@, own@, now),
        active_view(*final(active)) == active_after(active_view(*old(active)), message@),
        ended_view(*final(call_ended)) == call_ended_after(ended_view(*old(call_ended)), old(ext)@, message@),
        ({
            let t = match message.t {
                Some(t) => t,
                None => now,
            };
            let a = active_view(*old(active));
            let b = active_after(a, message@);
            let after = extension_after(old(ext)@, message@, own@, now);
            &&& r.store_participants is Some <==> (a is Some && message.kind == ExtensionKind::MeetState)
            &&& r.store_participants is Some ==> r.store_participants.unwrap().0@ == a->0.meeting_id
                && participant_views(r.store_participants.unwrap().1@) == after.participants
            &&& r.speaker_event is Some <==> (a is Some && !a->0.paused && message.kind
                == ExtensionKind::ActiveSpeakers)
            &&& r.speaker_event is Some ==> r.speaker_event.unwrap().0@ == a->0.meeting_id && r.speaker_event.unwrap().1 == t
                && string_views(r.speaker_event.unwrap().2@) == after.speaking
            &&& r.offer_self_name.deep_view() == (if message.kind == ExtensionKind::MeetState {
                message@.self_name
            } else {
                None
            })
            &&& r.mic_muted == (if in_recorded_call(a, message@) {
                match mute_change(old(ext)@, a, message@, own@, now) {
                    Some(m) => Some((m, t)),
                    None => None,
                }
            } else {
                None
            })
            &&& r.auto_stop is Some <==> (in_recorded_call(a, message@) && ended_call(old(ext)@, message@) is Some)
            &&& r.auto_stop is Some ==> {
                let left = match message.left_at {
                    Some(l) => l,
                    None => t,
                };
                &&& r.auto_stop.unwrap().0@ == b->0.meeting_id
                &&& Some(r.auto_stop.unwrap().1@) == ended_call(old(ext)@, message@)
                &&& r.auto_stop.unwrap().2 == (if left < now {
                    left
                } else {
                    now
                })
            }
            &&& r.recording == (b is Some && !b->0.paused)
            &&& r.recording_since == (if b is Some {
                Some(b->0.start_wall_ms)
            } else {
                None
            })
        }),
{
    let t = match message.t {
        Some(t) => t,
        None => now,
    };
    let ghost s0 = ext@;
    let ghost a0 = active_view(*active);
    let muted_before = ext.mic_muted;
    if ext.connected_at.is_none() {
        ext.connected_at = Some(now);
    }
    ext.last_seen = Some(now);
    let mut ended: Option<String> = None;
    match message.kind {
        ExtensionKind::MeetState => {
            ext.meeting_code = copy_opt(&message.meeting_code);
            ext.title = copy_opt(&message.title);
            ext.self_name = copy_opt(&message.self_name);
            let mut ps = limit_participants(&message.participants);
            let name: &str = match &message.self_name {
                Some(n) => n.as_str(),
                None => own,
            };
            mark_self(&mut ps, name);
            ext.participants = ps;
            ext.mic_muted = message.mic_muted;
        },
        ExtensionKind::ActiveSpeakers => {
            ext.speaking = limit_names(&message.speaking);
        },
        ExtensionKind::MicState => {
            ext.mic_muted = message.muted;
        },
        ExtensionKind::MeetingEnded => {
            ended = match &message.meeting_code {
                Some(c) => Some(c.clone()),
                None => copy_opt(&ext.meeting_code),
            };
            ext.mic_muted = None;
            ext.meeting_code = None;
            ext.speaking = Vec::new();
            ext.participants = Vec::new();
            ext.title = None;
        },
        _ => {},
    }
    assert(ext@ =~= extension_after(s0, message@, own@, now));
    assert(ended.deep_view() == ended_call(s0, message@));
    let mut change: Option<bool> = if ext.mic_muted != muted_before && ext.meeting_code.is_some() {
        ext.mic_muted
    } else {
        None
    };
    // Any message from the call cancels the automatic stop of the call, except its end.
    if ended.is_none() {
        if let Some(code) = &message.meeting_code {
            let cancel = match &*call_ended {
                Some((c, _)) => *c == *code,
                None => false,
            };
            if cancel {
                *call_ended = None;
            }
        }
    }
    let mut store_participants: Option<(String, Vec<Participant>)> = None;
    let mut speaker_event: Option<(String, i64, Vec<String>)> = None;
    if let Some(a) = &*active {
        if message.kind == ExtensionKind::MeetState {
            store_participants = Some((a.meeting_id.clone(), copy_participants(&ext.participants)));
        }
        if message.kind == ExtensionKind::ActiveSpeakers && !a.paused {
            speaker_event = Some((a.meeting_id.clone(), t, copy_strings(&ext.speaking)));
        }
    }
    let offer_self_name = if message.kind == ExtensionKind::MeetState {
        copy_opt(&ext.self_name)
    } else {
        None
    };
    // A recording that started before the call joins the call at its first state message.
    let joins = match &*active {
        Some(a) => a.meeting_code.is_none() && a.app_call.is_none() && message.meeting_code.is_some()
            && message.kind == ExtensionKind::MeetState,
        None => false,
    };
    if joins {
        if let Some(a) = active {
            a.meeting_code = copy_opt(&message.meeting_code);
        }
        change = message.mic_muted;
    }
    assert(active_view(*active) =~~= active_after(a0, message@));
    let mut mic_muted: Option<(bool, i64)> = None;
    let mut auto_stop: Option<(String, String, i64)> = None;
    let mut recording = false;
    let mut recording_since: Option<i64> = None;
    if let Some(a) = &*active {
        let same = match (&a.meeting_code, &message.meeting_code) {
            (Some(x), Some(y)) => *x == *y,
            _ => false,
        };
        if same {
            if let Some(m) = change {
                mic_muted = Some((m, t));
            }
            if let Some(code) = &ended {
                let left = match message.left_at {
                    Some(l) => l,
                    None => t,
                };
                let left = if left < now {
                    left
                } else {
                    now
                };
                auto_stop = Some((a.meeting_id.clone(), code.clone(), left));
            }
        }
        recording = !a.paused;
        recording_since = Some(a.start_wall_ms);
    }
    ExtensionOutcome {
        store_participants,
        speaker_event,
        offer_self_name,
        mic_muted,
        auto_stop,
        recording,
        recording_since,
    }
}


/// The message that ends the Meet call when Chrome closes or the native host stops. Only the newest
/// connection ends the call, and only while the extension reports one.
pub fn disconnect_message(latest: u64, connection: u64, ext: &ExtensionState) -> (r: Option<ExtensionMessage>)
    ensures
        r is Some <==> (latest == connection && ext.meeting_code is Some),
        r is Some ==> r.unwrap()@ == (MessageView {
            kind: ExtensionKind::MeetingEnded,
            t: None,
            meeting_code: ext@.meeting_code,
            title: None,
            self_name: None,
            participants: Seq::empty(),
            speaking: Seq::empty(),
            mic_muted: None,
            muted: None,
            left_at: None,
        }),
{
    if latest != connection {
        return None;
    }
    match &ext.meeting_code {
        Some(code) => {
            let m = ExtensionMessage {
                kind: ExtensionKind::MeetingEnded,
                t: None,
                meeting_code: Some(code.clone()),
                title: None,
                self_name: None,
                participants: Vec::new(),
                speaking: Vec::new(),
                mic_muted: None,
                muted: None,
                left_at: None,
            };
            assert(participant_views(m.participants@) =~= Seq::empty());
            assert(string_views(m.speaking@) =~= Seq::empty());
            Some(m)
        },
        None => None,
    }
}

// MARK: The automatic stop

/// The time between leaving a call and the automatic stop. A rejoin in this time cancels the stop.
pub const CALL_END_GRACE_MS: i64 = 3000;

/// Starts the automatic stop of a recording whose call ended, when the user keeps automatic stops on.
/// The stop waits for `call`, from `now`, and comes after the returned wait in milliseconds: the
/// grace time after `left_at`.
pub fn schedule_auto_stop(
    enabled: bool,
    call_ended: &mut Option<(String, i64)>,
    call: &str,
    left_at: i64,
    now: i64,
) -> (r: Option<u64>)
    requires
        left_at <= now,
    ensures
        !enabled ==> r is None && ended_view(*final(call_ended)) == ended_view(*old(call_ended)),
        enabled ==> ended_view(*final(call_ended)) == Some((call@, now)) && r == Some(
            (if left_at + CALL_END_GRACE_MS - now > 0 {
                left_at + CALL_END_GRACE_MS - now
            } else {
                0
            }) as u64,
        ),
{
    if !enabled {
        return None;
    }
    *call_ended = Some((string_of(&chars_of(call)), now));
    let gap: i128 = now as i128 - left_at as i128;
    let wait: u64 = if gap < CALL_END_GRACE_MS as i128 {
        (CALL_END_GRACE_MS as i128 - gap) as u64
    } else {
        0
    };
    Some(wait)
}

/// True when an automatic stop is still due after its wait: no rejoin or newer end replaced the
/// end of `call` at `at`, and the same meeting still records.
pub fn auto_stop_due(
    call_ended: &Option<(String, i64)>,
    call: &str,
    at: i64,
    active: &Option<Active>,
    meeting_id: &str,
) -> (r: bool)
    ensures
        r == (ended_view(*call_ended) == Some((call@, at)) && active is Some && active->0.meeting_id@
            == meeting_id@),
{
    let same_end = match call_ended {
        Some((c, t)) => *t == at && eq_chars(&chars_of(c.as_str()), &chars_of(call)),
        None => false,
    };
    let same_meeting = match active {
        Some(a) => eq_chars(&chars_of(a.meeting_id.as_str()), &chars_of(meeting_id)),
        None => false,
    };
    same_end && same_meeting
}

// MARK: Busy meetings

/// Why a meeting cannot change now.
#[derive(Debug, Clone, Copy, PartialEq, Eq, Structural)]
pub enum Busy {
    /// The meeting records.
    Recording,
    /// The final pass of the meeting runs.
    Processing,
    /// A summary of the meeting is in progress.
    Summarizing,
}

impl Busy {
    pub open spec fn text(self) -> Seq<char> {
        match self {
            Busy::Recording => "stop the recording first"@,
            Busy::Processing => "wait until Tinta finishes processing this meeting"@,
            Busy::Summarizing => "wait for the summary to finish"@,
        }
    }

    /// The message for the user.
    pub fn message(self) -> (r: &'static str)
        ensures
            r@ == self.text(),
    {
        match self {
            Busy::Recording => "stop the recording first",
            Busy::Processing => "wait until Tinta finishes processing this meeting",
            Busy::Summarizing => "wait for the summary to finish",
        }
    }
}

/// True when the list holds `s`.
pub fn contains_str(list: &[String], s: &str) -> (r: bool)
    ensures
        r == string_views(list@).contains(s@),
{
    let ghost views = string_views(list@);
    let target = chars_of(s);
    let mut i: usize = 0;
    while i < list.len()
        invariant
            i <= list.len(),
            views == string_views(list@),
            target@ == s@,
            forall|j: int| 0 <= j < i ==> views[j] != s@,
        decreases list.len() - i,
    {
        if eq_chars(&chars_of(list[i].as_str()), &target) {
            assert(views[i as int] == s@);
            return true;
        }
        i = i + 1;
    }
    false
}

/// Refuses a change to a meeting while it records or while its final pass runs. With `summary`, it
/// also refuses the change while a summary of the meeting is in progress. The first reason wins.
pub fn check_idle(
    active: &Option<Active>,
    finalizing: &[String],
    summarizing: &[String],
    id: &str,
    summary: bool,
) -> (r: Result<(), Busy>)
    ensures
        r == (if active is Some && active->0.meeting_id@ == id@ {
            Err(Busy::Recording)
        } else if string_views(finalizing@).contains(id@) {
            Err(Busy::Processing)
        } else if summary && string_views(summarizing@).contains(id@) {
            Err(Busy::Summarizing)
        } else {
            Ok(())
        }),
{
    let recording = match active {
        Some(a) => eq_chars(&chars_of(a.meeting_id.as_str()), &chars_of(id)),
        None => false,
    };
    if recording {
        return Err(Busy::Recording);
    }
    if contains_str(finalizing, id) {
        return Err(Busy::Processing);
    }
    if summary && contains_str(summarizing, id) {
        return Err(Busy::Summarizing);
    }
    Ok(())
}

// MARK: Engine restarts

/// The first and the shortest wait before the app restarts an engine that stopped, in milliseconds.
pub const ENGINE_RESTART_MIN_MS: u64 = 1000;

/// The longest wait before the app restarts an engine that stopped, in milliseconds.
pub const ENGINE_RESTART_MAX_MS: u64 = 60000;

/// An engine that runs this long before it stops restarts after the shortest wait again.
pub const ENGINE_STABLE_MS: u64 = 60000;

/// The wait before the next engine restart and the wait after that, in milliseconds. `ran_ms` is
/// how long the engine ran since its last "ready" event, if it sent one, and `wait_ms` the current
/// wait. The wait doubles after each short run of the engine, up to the longest wait.
pub fn next_restart_delay(ran_ms: Option<u64>, wait_ms: u64) -> (r: (u64, u64))
    ensures
        r.0 == (if ran_ms is Some && ran_ms->0 >= ENGINE_STABLE_MS {
            ENGINE_RESTART_MIN_MS
        } else {
            wait_ms
        }),
        r.1 == (if 2 * r.0 < ENGINE_RESTART_MAX_MS {
            2 * r.0
        } else {
            ENGINE_RESTART_MAX_MS as int
        }),
        ENGINE_RESTART_MIN_MS <= wait_ms <= ENGINE_RESTART_MAX_MS ==> ENGINE_RESTART_MIN_MS <= r.0
            <= ENGINE_RESTART_MAX_MS && ENGINE_RESTART_MIN_MS <= r.1 <= ENGINE_RESTART_MAX_MS,
{
    let stable = match ran_ms {
        Some(ran) => ran >= ENGINE_STABLE_MS,
        None => false,
    };
    let delay = if stable {
        ENGINE_RESTART_MIN_MS
    } else {
        wait_ms
    };
    let next = if delay < ENGINE_RESTART_MAX_MS / 2 {
        delay * 2
    } else {
        ENGINE_RESTART_MAX_MS
    };
    (delay, next)
}


// MARK: Starting a recording

/// Why a recording does not start.
#[derive(Debug, Clone, Copy, PartialEq, Eq, Structural)]
pub enum StartRefusal {
    /// A recording runs or starts already.
    AlreadyActive,
    /// The meeting has a recording already.
    AlreadyRecorded,
}

impl StartRefusal {
    pub open spec fn text(self) -> Seq<char> {
        match self {
            StartRefusal::AlreadyActive => "a recording is already active"@,
            StartRefusal::AlreadyRecorded => "this meeting already has a recording. Create a new meeting."@,
        }
    }

    /// The message for the user.
    pub fn message(self) -> (r: &'static str)
        ensures
            r@ == self.text(),
    {
        match self {
            StartRefusal::AlreadyActive => "a recording is already active",
            StartRefusal::AlreadyRecorded => "this meeting already has a recording. Create a new meeting.",
        }
    }
}

/// One recording at a time: a recording does not start while another runs or starts.
pub fn can_start(active: &Option<Active>, starting: bool) -> (r: Result<(), StartRefusal>)
    ensures
        r == (if active is Some || starting {
            Err(StartRefusal::AlreadyActive)
        } else {
            Ok(())
        }),
{
    if active.is_some() || starting {
        Err(StartRefusal::AlreadyActive)
    } else {
        Ok(())
    }
}

/// What a recording takes from the call that it records.
#[derive(Debug)]
pub struct StartPlan {
    /// The desktop app call of the recording.
    pub app_call: Option<String>,
    /// The Meet call of the recording.
    pub meeting_code: Option<String>,
    /// The microphone state at the start.
    pub mic_muted: bool,
    /// The participants that the meeting gets.
    pub participants: Option<Vec<Participant>>,
    /// The title that the meeting gets from the Meet call.
    pub title: Option<String>,
}

/// The view of an optional participant list.
pub open spec fn opt_participants(o: Option<Vec<Participant>>) -> Option<Seq<ParticipantView>> {
    match o {
        Some(v) => Some(participant_views(v@)),
        None => None,
    }
}

/// The extension state that a recording of `source` sees: a Meet call in Chrome does not belong to
/// a recording of a desktop app call.
pub open spec fn seen_extension(calls: Seq<AppCall>, ext: ExtensionView, source: Seq<char>) -> ExtensionView {
    if first_call(call_views(calls), source, 0) < calls.len() {
        empty_extension()
    } else {
        ext
    }
}

/// The plan of a recording of `source` in a meeting with `started_at` and `meeting_title`: the call
/// of the app `source`, if the app has one, else the Meet call of the extension. A meeting records
/// once. A Meet call gives its participants, and its title to a meeting with a default title
/// ("Meeting " and more); an app call gives its participants when it has some.
pub fn plan_recording(
    started_at: Option<i64>,
    meeting_title: &str,
    calls: &[AppCall],
    ext: &ExtensionState,
    source: &str,
) -> (r: Result<StartPlan, StartRefusal>)
    ensures
        started_at is Some ==> r == Err::<StartPlan, StartRefusal>(StartRefusal::AlreadyRecorded),
        started_at is None ==> r is Ok && ({
            let p = r->Ok_0;
            let cs = call_views(calls@);
            let i = first_call(cs, source@, 0);
            let e = seen_extension(calls@, ext@, source@);
            &&& p.app_call.deep_view() == (if i < cs.len() {
                Some(source@)
            } else {
                None
            })
            &&& p.meeting_code.deep_view() == e.meeting_code
            &&& p.mic_muted == ((e.meeting_code is Some && e.mic_muted == Some(true)) || (i < cs.len()
                && cs[i].mic_muted == Some(true)))
            &&& opt_participants(p.participants) == (if e.meeting_code is Some {
                Some(e.participants)
            } else if i < cs.len() && cs[i].participants.len() > 0 {
                Some(cs[i].participants)
            } else {
                None
            })
            &&& p.title.deep_view() == (if e.meeting_code is Some && has_prefix(meeting_title@, "Meeting "@)
                && e.title is Some && e.title->0.len() > 0 {
                e.title
            } else {
                None
            })
        }),
{
    if started_at.is_some() {
        return Err(StartRefusal::AlreadyRecorded);
    }
    let ghost cs = call_views(calls@);
    let target = chars_of(source);
    let mut i: usize = 0;
    proof {
        crate::calls::lemma_first_call(cs, source@, 0);
    }
    while i < calls.len()
        invariant
            i <= calls.len(),
            cs == call_views(calls@),
            target@ == source@,
            0 <= first_call(cs, source@, 0) <= cs.len(),
            forall|j: int| 0 <= j < first_call(cs, source@, 0) ==> cs[j].app != source@,
            first_call(cs, source@, 0) < cs.len() ==> cs[first_call(cs, source@, 0)].app == source@,
            i <= first_call(cs, source@, 0),
        ensures
            i < calls.len() ==> cs[i as int].app == source@,
        decreases calls.len() - i,
    {
        if eq_chars(&chars_of(calls[i].app.as_str()), &target) {
            assert(cs[i as int].app == source@);
            break;
        }
        i = i + 1;
    }
    assert(i == first_call(cs, source@, 0));
    if i < calls.len() {
        let c = &calls[i];
        let participants = if c.participants.len() > 0 {
            Some(copy_participants(&c.participants))
        } else {
            None
        };
        return Ok(
            StartPlan {
                app_call: Some(c.app.clone()),
                meeting_code: None,
                mic_muted: c.mic_muted == Some(true),
                participants,
                title: None,
            },
        );
    }
    match &ext.meeting_code {
        None => Ok(StartPlan { app_call: None, meeting_code: None, mic_muted: false, participants: None, title: None }),
        Some(code) => {
            let default_title = has_prefix_exec(&chars_of(meeting_title), &chars_of("Meeting "));
            let title = match &ext.title {
                Some(t) => if default_title && !t.as_str().is_empty() {
                    Some(t.clone())
                } else {
                    None
                },
                None => None,
            };
            Ok(
                StartPlan {
                    app_call: None,
                    meeting_code: Some(code.clone()),
                    mic_muted: ext.mic_muted == Some(true),
                    participants: Some(copy_participants(&ext.participants)),
                    title,
                },
            )
        },
    }
}

/// The recording that a plan starts in a meeting, at the start time that the engine reports.
pub fn start(plan: &StartPlan, meeting_id: &str, start_wall_ms: i64, source: &str) -> (r: Active)
    ensures
        r@ == (ActiveView {
            meeting_id: meeting_id@,
            start_wall_ms,
            paused: false,
            source: source@,
            meeting_code: plan.meeting_code.deep_view(),
            app_call: plan.app_call.deep_view(),
        }),
{
    Active {
        meeting_id: string_of(&chars_of(meeting_id)),
        start_wall_ms,
        paused: false,
        source: string_of(&chars_of(source)),
        meeting_code: copy_opt(&plan.meeting_code),
        app_call: copy_opt(&plan.app_call),
    }
}


// MARK: Engine events

/// The kind of an event from the engine.
#[derive(Debug, Clone, Copy, PartialEq, Eq, Structural)]
pub enum EngineEventKind {
    /// A live transcript turn.
    Live,
    /// A desktop app call started.
    CallStarted,
    /// The participants, speakers, and microphone of a desktop app call.
    CallState,
    /// A desktop app call ended.
    CallEnded,
    /// The engine stopped.
    EngineExit,
    /// The engine runs.
    Ready,
    /// The progress of a final pass.
    FinalizeProgress,
    /// The progress of a summary.
    SummaryProgress,
    /// An event that the window shows as it is.
    Other,
}

impl EngineEventKind {
    pub open spec fn of_text(kind: Seq<char>) -> EngineEventKind {
        if kind == "live"@ {
            EngineEventKind::Live
        } else if kind == "call_started"@ {
            EngineEventKind::CallStarted
        } else if kind == "call_state"@ {
            EngineEventKind::CallState
        } else if kind == "call_ended"@ {
            EngineEventKind::CallEnded
        } else if kind == "engine_exit"@ {
            EngineEventKind::EngineExit
        } else if kind == "ready"@ {
            EngineEventKind::Ready
        } else if kind == "finalize_progress"@ {
            EngineEventKind::FinalizeProgress
        } else if kind == "summary_progress"@ {
            EngineEventKind::SummaryProgress
        } else {
            EngineEventKind::Other
        }
    }

    /// The kind of an event by its `event` field.
    pub fn of(kind: &str) -> (r: EngineEventKind)
        ensures
            r == Self::of_text(kind@),
    {
        let k = chars_of(kind);
        if eq_chars(&k, &chars_of("live")) {
            EngineEventKind::Live
        } else if eq_chars(&k, &chars_of("call_started")) {
            EngineEventKind::CallStarted
        } else if eq_chars(&k, &chars_of("call_state")) {
            EngineEventKind::CallState
        } else if eq_chars(&k, &chars_of("call_ended")) {
            EngineEventKind::CallEnded
        } else if eq_chars(&k, &chars_of("engine_exit")) {
            EngineEventKind::EngineExit
        } else if eq_chars(&k, &chars_of("ready")) {
            EngineEventKind::Ready
        } else if eq_chars(&k, &chars_of("finalize_progress")) {
            EngineEventKind::FinalizeProgress
        } else if eq_chars(&k, &chars_of("summary_progress")) {
            EngineEventKind::SummaryProgress
        } else {
            EngineEventKind::Other
        }
    }
}

/// The meeting of a progress event, which has no meeting ID: the meeting whose work of that kind
/// runs, when exactly one runs.
pub fn progress_meeting(running: &[String]) -> (r: Option<String>)
    ensures
        r.deep_view() == (if running@.len() == 1 {
            Some(running@[0]@)
        } else {
            None
        }),
{
    if running.len() == 1 {
        Some(running[0].clone())
    } else {
        None
    }
}

/// The time when the user left a call: the time that the message gives, or now, and never later
/// than now.
pub fn left_at(given: Option<i64>, now: i64) -> (r: i64)
    ensures
        r == (match given {
            Some(t) => if t < now {
                t
            } else {
                now
            },
            None => now,
        }),
        r <= now,
{
    match given {
        Some(t) => if t < now {
            t
        } else {
            now
        },
        None => now,
    }
}


// MARK: Laws

/// Marking the user twice marks the same participants as marking once.
pub proof fn law_mark_self_idempotent(ps: Seq<ParticipantView>, own: Seq<char>)
    ensures
        mark_self_of(mark_self_of(ps, own), own) == mark_self_of(ps, own),
{
    let m1 = mark_self_of(ps, own);
    if exists|i: int| 0 <= i < ps.len() && (#[trigger] ps[i]).2 {
        assert(m1 == ps);
    } else if exists|i: int| 0 <= i < m1.len() && (#[trigger] m1[i]).2 {
    } else {
        let key = lowercase(trim(own));
        let m2 = mark_self_of(m1, own);
        assert forall|i: int| 0 <= i < m1.len() implies #[trigger] m2[i] == m1[i] by {
            assert(!m1[i].2);
            assert(!ps[i].2);
        }
        assert(m2 =~= m1);
    }
}

/// A rejoin cancels the automatic stop: any message of the Meet call whose end waits for the stop,
/// other than another end, clears the waiting end.
pub proof fn law_rejoin_cancels_auto_stop(code: Seq<char>, at: i64, s: ExtensionView, m: MessageView)
    requires
        m.meeting_code == Some(code),
        m.kind != ExtensionKind::MeetingEnded,
    ensures
        call_ended_after(Some((code, at)), s, m) is None,
{
}

/// The end of a call leaves the automatic stop of the call as it is, so the stop goes on.
pub proof fn law_end_keeps_auto_stop(ended: Option<(Seq<char>, i64)>, s: ExtensionView, m: MessageView)
    requires
        m.kind == ExtensionKind::MeetingEnded,
    ensures
        call_ended_after(ended, s, m) == ended,
{
}

} // verus!
