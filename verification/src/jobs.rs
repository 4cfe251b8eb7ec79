//! The work on a meeting after its recording: the final pass and the summary, which run at most
//! once at a time for each meeting, the retention of the audio and of the trash, and moving the
//! library to another folder. The app does the work; these functions take the decisions.
use vstd::prelude::*;

use crate::db::Participant;
use crate::session::{active_view, check_idle, contains_str, participant_views, Active, ActiveView, ParticipantView};
use crate::export::{timestamp_ms, timestamp_text};
use crate::paths::{check_local, is_synced, join, join_path, PathError};
use crate::text::{chars_of, eq_chars, push_all, string_of, string_views};

verus! {

broadcast use vstd::string::group_string_axioms;

// MARK: Work in progress

/// Why a final pass or a summary does not start.
#[derive(Debug, Clone, Copy, PartialEq, Eq, Structural)]
pub enum WorkRefusal {
    /// The final pass of the meeting runs already.
    Processing,
    /// The transcript has edits, which a new final pass would replace.
    Edited,
    /// A summary of the meeting is in progress already.
    Summarizing,
}

impl WorkRefusal {
    pub open spec fn text(self) -> Seq<char> {
        match self {
            WorkRefusal::Processing => "Tinta already processes this meeting"@,
            WorkRefusal::Edited => "the transcript has edits. Processing again does not overwrite them."@,
            WorkRefusal::Summarizing => "a summary for this meeting is already in progress"@,
        }
    }

    /// The message for the user.
    pub fn message(self) -> (r: &'static str)
        ensures
            r@ == self.text(),
    {
        match self {
            WorkRefusal::Processing => "Tinta already processes this meeting",
            WorkRefusal::Edited => "the transcript has edits. Processing again does not overwrite them.",
            WorkRefusal::Summarizing => "a summary for this meeting is already in progress",
        }
    }
}

/// The answer to a request for the final pass of meeting `id`, when `running` lists the meetings
/// whose final pass runs.
pub open spec fn finalize_answer(running: Seq<Seq<char>>, id: Seq<char>, has_edits: bool) -> Result<
    (),
    WorkRefusal,
> {
    if running.contains(id) {
        Err(WorkRefusal::Processing)
    } else if has_edits {
        Err(WorkRefusal::Edited)
    } else {
        Ok(())
    }
}

/// The answer to a request for a summary of meeting `id`, when `running` lists the meetings whose
/// summary is in progress.
pub open spec fn summary_answer(running: Seq<Seq<char>>, id: Seq<char>) -> Result<(), WorkRefusal> {
    if running.contains(id) {
        Err(WorkRefusal::Summarizing)
    } else {
        Ok(())
    }
}

/// `running` with `id` added when the answer lets the work start.
pub open spec fn reserved(running: Seq<Seq<char>>, id: Seq<char>, answer: Result<(), WorkRefusal>) -> Seq<Seq<char>> {
    if answer is Ok {
        running.push(id)
    } else {
        running
    }
}

fn push_id(running: &mut Vec<String>, id: &str)
    ensures
        string_views(final(running)@) == string_views(old(running)@).push(id@),
{
    running.push(id.to_owned());
    assert(string_views(running@) =~= string_views(old(running)@).push(id@));
}

/// Reserves the final pass of meeting `id` in `finalizing`, the meetings whose final pass runs. A
/// meeting whose final pass runs does not start another one, and a transcript with edits is not
/// processed again. On a refusal the list stays as it was.
pub fn begin_finalize(finalizing: &mut Vec<String>, id: &str, has_edits: bool) -> (r: Result<(), WorkRefusal>)
    ensures
        r == finalize_answer(string_views(old(finalizing)@), id@, has_edits),
        string_views(final(finalizing)@) == reserved(string_views(old(finalizing)@), id@, r),
{
    if contains_str(finalizing, id) {
        return Err(WorkRefusal::Processing);
    }
    if has_edits {
        return Err(WorkRefusal::Edited);
    }
    push_id(finalizing, id);
    Ok(())
}

/// Reserves a summary of meeting `id` in `summarizing`, the meetings whose summary is in progress.
/// On a refusal the list stays as it was.
pub fn begin_summary(summarizing: &mut Vec<String>, id: &str) -> (r: Result<(), WorkRefusal>)
    ensures
        r == summary_answer(string_views(old(summarizing)@), id@),
        string_views(final(summarizing)@) == reserved(string_views(old(summarizing)@), id@, r),
{
    if contains_str(summarizing, id) {
        return Err(WorkRefusal::Summarizing);
    }
    push_id(summarizing, id);
    Ok(())
}

/// The list without `id`, with the other entries in their order.
pub open spec fn without(s: Seq<Seq<char>>, id: Seq<char>) -> Seq<Seq<char>>
    decreases s.len(),
{
    if s.len() == 0 {
        s
    } else {
        let rest = without(s.drop_last(), id);
        if s.last() == id {
            rest
        } else {
            rest.push(s.last())
        }
    }
}

proof fn lemma_without_contains(s: Seq<Seq<char>>, id: Seq<char>, x: Seq<char>)
    ensures
        without(s, id).contains(x) <==> (s.contains(x) && x != id),
    decreases s.len(),
{
    if s.len() > 0 {
        lemma_without_contains(s.drop_last(), id, x);
        assert(s =~= s.drop_last().push(s.last()));
        if s.drop_last().contains(x) {
            let j = choose|j: int| 0 <= j < s.drop_last().len() && s.drop_last()[j] == x;
            assert(s[j] == x);
        }
        if s.contains(x) && x != s.last() {
            let j = choose|j: int| 0 <= j < s.len() && s[j] == x;
            assert(j != s.len() - 1);
            assert(s.drop_last()[j] == x);
        }
        let rest = without(s.drop_last(), id);
        if rest.contains(x) {
            let j = choose|j: int| 0 <= j < rest.len() && rest[j] == x;
            if s.last() != id {
                assert(rest.push(s.last())[j] == x);
            }
        }
        if s.last() != id {
            assert(rest.push(s.last())[rest.len() as int] == s.last());
        }
    }
}

/// Ends the work on meeting `id`: the list no longer holds it, and keeps the other meetings.
pub fn release(running: &mut Vec<String>, id: &str)
    ensures
        string_views(final(running)@) == without(string_views(old(running)@), id@),
{
    let ghost before = string_views(running@);
    let target = chars_of(id);
    let mut kept: Vec<String> = Vec::new();
    let mut i: usize = 0;
    while i < running.len()
        invariant
            i <= running.len(),
            before == string_views(running@),
            target@ == id@,
            string_views(kept@) == without(before.take(i as int), id@),
        decreases running.len() - i,
    {
        assert(before.take(i + 1).drop_last() =~= before.take(i as int));
        if !eq_chars(&chars_of(running[i].as_str()), &target) {
            let s = running[i].clone();
            kept.push(s);
            assert(string_views(kept@) =~= without(before.take(i as int), id@).push(before[i as int]));
        }
        i = i + 1;
    }
    assert(before.take(running.len() as int) =~= before);
    *running = kept;
}

/// A final pass that starts on a meeting keeps every other request for it out until it ends, and
/// after its end a new one can start on a transcript without edits.
pub proof fn law_one_final_pass_at_a_time(running: Seq<Seq<char>>, id: Seq<char>, has_edits: bool, again: bool)
    requires
        finalize_answer(running, id, has_edits) is Ok,
    ensures
        finalize_answer(reserved(running, id, Ok(())), id, again) == Err::<(), WorkRefusal>(
            WorkRefusal::Processing,
        ),
        finalize_answer(without(reserved(running, id, Ok(())), id), id, false) is Ok,
{
    let after = running.push(id);
    assert(after[running.len() as int] == id);
    lemma_without_contains(after, id, id);
}

/// A summary that starts on a meeting keeps every other summary of it out until it ends, and after
/// its end a new one can start.
pub proof fn law_one_summary_at_a_time(running: Seq<Seq<char>>, id: Seq<char>)
    requires
        summary_answer(running, id) is Ok,
    ensures
        summary_answer(reserved(running, id, Ok(())), id) == Err::<(), WorkRefusal>(WorkRefusal::Summarizing),
        summary_answer(without(reserved(running, id, Ok(())), id), id) is Ok,
{
    let after = running.push(id);
    assert(after[running.len() as int] == id);
    lemma_without_contains(after, id, id);
}

// MARK: Retention

/// True when meeting `id` does not record and its final pass does not run, and, with `summary`, no
/// summary of it is in progress.
pub open spec fn idle(
    active: Option<ActiveView>,
    finalizing: Seq<Seq<char>>,
    summarizing: Seq<Seq<char>>,
    id: Seq<char>,
    summary: bool,
) -> bool {
    &&& !(active is Some && active->0.meeting_id == id)
    &&& !finalizing.contains(id)
    &&& !(summary && summarizing.contains(id))
}

/// The idle meetings of `ids`, in their order.
pub open spec fn idle_ids(
    ids: Seq<Seq<char>>,
    active: Option<ActiveView>,
    finalizing: Seq<Seq<char>>,
    summarizing: Seq<Seq<char>>,
    summary: bool,
) -> Seq<Seq<char>>
    decreases ids.len(),
{
    if ids.len() == 0 {
        ids
    } else {
        let rest = idle_ids(ids.drop_last(), active, finalizing, summarizing, summary);
        if idle(active, finalizing, summarizing, ids.last(), summary) {
            rest.push(ids.last())
        } else {
            rest
        }
    }
}

/// The meetings of `expired` that retention changes now. Audio retention (`summary` false) leaves out
/// the meetings that record or whose final pass runs; emptying the trash (`summary` true) also leaves
/// out the meetings with a summary in progress. The others keep their order.
pub fn retention_ids(
    expired: &[String],
    active: &Option<Active>,
    finalizing: &[String],
    summarizing: &[String],
    summary: bool,
) -> (r: Vec<String>)
    ensures
        string_views(r@) == idle_ids(
            string_views(expired@),
            active_view(*active),
            string_views(finalizing@),
            string_views(summarizing@),
            summary,
        ),
{
    let ghost ids = string_views(expired@);
    let ghost a = active_view(*active);
    let ghost f = string_views(finalizing@);
    let ghost s = string_views(summarizing@);
    let mut out: Vec<String> = Vec::new();
    let mut i: usize = 0;
    while i < expired.len()
        invariant
            i <= expired.len(),
            ids == string_views(expired@),
            a == active_view(*active),
            f == string_views(finalizing@),
            s == string_views(summarizing@),
            string_views(out@) == idle_ids(ids.take(i as int), a, f, s, summary),
        decreases expired.len() - i,
    {
        assert(ids.take(i + 1).drop_last() =~= ids.take(i as int));
        assert(ids.take(i + 1).last() == ids[i as int]);
        if check_idle(active, finalizing, summarizing, expired[i].as_str(), summary).is_ok() {
            let id = expired[i].clone();
            out.push(id);
            assert(string_views(out@) =~= idle_ids(ids.take(i as int), a, f, s, summary).push(ids[i as int]));
        }
        i = i + 1;
    }
    assert(ids.take(expired.len() as int) =~= ids);
    out
}

/// Retention takes exactly the expired meetings that are idle: it never deletes the audio of a
/// meeting that records or whose final pass runs, nor empties from the trash a meeting whose summary
/// is in progress.
pub proof fn law_retention_spares_busy_meetings(
    ids: Seq<Seq<char>>,
    active: Option<ActiveView>,
    finalizing: Seq<Seq<char>>,
    summarizing: Seq<Seq<char>>,
    summary: bool,
    id: Seq<char>,
)
    ensures
        idle_ids(ids, active, finalizing, summarizing, summary).contains(id) <==> (ids.contains(id) && idle(
            active,
            finalizing,
            summarizing,
            id,
            summary,
        )),
    decreases ids.len(),
{
    if ids.len() > 0 {
        law_retention_spares_busy_meetings(ids.drop_last(), active, finalizing, summarizing, summary, id);
        let rest = idle_ids(ids.drop_last(), active, finalizing, summarizing, summary);
        let last = ids.last();
        if ids.drop_last().contains(id) {
            let j = choose|j: int| 0 <= j < ids.drop_last().len() && ids.drop_last()[j] == id;
            assert(ids[j] == id);
        }
        if ids.contains(id) && id != last {
            let j = choose|j: int| 0 <= j < ids.len() && ids[j] == id;
            assert(j != ids.len() - 1);
            assert(ids.drop_last()[j] == id);
        }
        if ids.contains(id) && id == last {
            assert(ids[ids.len() - 1] == id);
        }
        if idle(active, finalizing, summarizing, last, summary) {
            if rest.contains(id) {
                let j = choose|j: int| 0 <= j < rest.len() && rest[j] == id;
                assert(rest.push(last)[j] == id);
            }
            assert(rest.push(last)[rest.len() as int] == last);
            if rest.push(last).contains(id) && id != last {
                let j = choose|j: int| 0 <= j < rest.len() + 1 && rest.push(last)[j] == id;
                assert(j != rest.len());
                assert(rest[j] == id);
            }
        }
    }
}

// MARK: The final pass

/// The number of participants other than the user.
pub open spec fn remote_count(ps: Seq<ParticipantView>) -> nat
    decreases ps.len(),
{
    if ps.len() == 0 {
        0
    } else {
        remote_count(ps.drop_last()) + if ps.last().2 {
            0nat
        } else {
            1nat
        }
    }
}

/// The number of participants other than the user counts each participant once, whatever the
/// order: one participant counts 1 unless it is the user, two lists count their sum, so any order of
/// the same participants gives the same count.
pub proof fn law_remote_count_counts_each(a: Seq<ParticipantView>, b: Seq<ParticipantView>, p: ParticipantView)
    ensures
        remote_count(seq![p]) == (if p.2 {
            0nat
        } else {
            1nat
        }),
        remote_count(a + b) == remote_count(a) + remote_count(b),
        remote_count(a + b) == remote_count(b + a),
        remote_count(a) <= a.len(),
        remote_count(a) == a.len() <==> (forall|i: int| 0 <= i < a.len() ==> !(#[trigger] a[i]).2),
{
    assert(seq![p].drop_last() =~= Seq::<ParticipantView>::empty());
    assert(remote_count(Seq::<ParticipantView>::empty()) == 0);
    assert(seq![p].last() == p);
    lemma_remote_count_concat(a, b);
    lemma_remote_count_concat(b, a);
    lemma_remote_count_all(a);
}

proof fn lemma_remote_count_concat(a: Seq<ParticipantView>, b: Seq<ParticipantView>)
    ensures
        remote_count(a + b) == remote_count(a) + remote_count(b),
    decreases b.len(),
{
    if b.len() == 0 {
        assert(a + b =~= a);
    } else {
        lemma_remote_count_concat(a, b.drop_last());
        assert((a + b).drop_last() =~= a + b.drop_last());
        assert((a + b).last() == b.last());
    }
}

proof fn lemma_remote_count_all(a: Seq<ParticipantView>)
    ensures
        remote_count(a) <= a.len(),
        remote_count(a) == a.len() <==> (forall|i: int| 0 <= i < a.len() ==> !(#[trigger] a[i]).2),
    decreases a.len(),
{
    if a.len() > 0 {
        lemma_remote_count_all(a.drop_last());
        if forall|i: int| 0 <= i < a.len() ==> !(#[trigger] a[i]).2 {
            assert forall|i: int| 0 <= i < a.drop_last().len() implies !(#[trigger] a.drop_last()[i]).2 by {
                assert(a.drop_last()[i] == a[i]);
            }
            assert(!a[a.len() - 1].2);
        }
        if remote_count(a) == a.len() {
            assert forall|i: int| 0 <= i < a.len() implies !(#[trigger] a[i]).2 by {
                if i < a.len() - 1 {
                    assert(a.drop_last()[i] == a[i]);
                }
            }
        }
    }
}

/// The number of speakers that the final pass looks for: the participants other than the user,
/// when the meeting has any. Without them the engine finds the number itself.
pub fn max_speakers(participants: &[Participant]) -> (r: Option<usize>)
    ensures
        r == (if remote_count(participant_views(participants@)) > 0 {
            Some(remote_count(participant_views(participants@)) as usize)
        } else {
            None
        }),
{
    let ghost ps = participant_views(participants@);
    let mut count: usize = 0;
    let mut i: usize = 0;
    while i < participants.len()
        invariant
            i <= participants.len(),
            ps == participant_views(participants@),
            count == remote_count(ps.take(i as int)),
            count <= i,
        decreases participants.len() - i,
    {
        assert(ps.take(i + 1).drop_last() =~= ps.take(i as int));
        assert(ps.take(i + 1).last() == participants@[i as int]@);
        if !participants[i].is_self {
            count = count + 1;
        }
        i = i + 1;
    }
    assert(ps.take(participants.len() as int) =~= ps);
    if count > 0 {
        Some(count)
    } else {
        None
    }
}

// MARK: The summary

/// A line of the transcript that the summary reads: the time of the turn when the meeting has
/// times, then the speaker and the text.
pub open spec fn transcript_line_text(name: Seq<char>, text: Seq<char>, start_ms: Option<nat>) -> Seq<char> {
    match start_ms {
        Some(ms) => "["@ + timestamp_text(ms, '.', false) + "] "@ + name + ": "@ + text,
        None => name + ": "@ + text,
    }
}

/// Writes a line of the transcript for the summary, as `transcript_line_text` states. `start_ms` is the
/// start of the turn in milliseconds, when the meeting has times.
pub fn transcript_line(name: &str, text: &str, start_ms: Option<u64>) -> (r: String)
    ensures
        r@ == transcript_line_text(
            name@,
            text@,
            match start_ms {
                Some(ms) => Some(ms as nat),
                None => None,
            },
        ),
{
    let mut out: Vec<char> = Vec::new();
    match start_ms {
        Some(ms) => {
            push_all(&mut out, &chars_of("["));
            let stamp = timestamp_ms(ms, '.', false);
            push_all(&mut out, &chars_of(stamp.as_str()));
            push_all(&mut out, &chars_of("] "));
        },
        None => {},
    }
    push_all(&mut out, &chars_of(name));
    push_all(&mut out, &chars_of(": "));
    push_all(&mut out, &chars_of(text));
    proof {
        match start_ms {
            Some(ms) => {
                assert(out@ =~= "["@ + timestamp_text(ms as nat, '.', false) + "] "@ + name@ + ": "@ + text@);
            },
            None => {
                assert(out@ =~= name@ + ": "@ + text@);
            },
        }
    }
    string_of(&out)
}

// MARK: Moving the library

/// Why the library does not move.
#[derive(Debug, Clone, Copy, PartialEq, Eq, Structural)]
pub enum MoveRefusal {
    /// A recording or a final pass runs.
    Busy,
    /// The target is in a cloud-synced folder.
    CloudSynced,
    /// The library is in the target folder already.
    SameFolder,
    /// The target folder exists and has files.
    NotEmpty,
}

impl MoveRefusal {
    pub open spec fn text(self, target: Seq<char>) -> Seq<char> {
        match self {
            MoveRefusal::Busy => "Stop the recording and wait until processing finishes before you move the library."@,
            MoveRefusal::CloudSynced => "This folder is in a cloud-synced location. Select a folder that stays on this Mac."@,
            MoveRefusal::SameFolder => "The library is already in this folder."@,
            MoveRefusal::NotEmpty => target + " already exists and is not empty."@,
        }
    }

    /// The message for the user, with the target folder.
    pub fn message(self, target: &str) -> (r: String)
        ensures
            r@ == self.text(target@),
    {
        match self {
            MoveRefusal::Busy => string_of(
                &chars_of("Stop the recording and wait until processing finishes before you move the library."),
            ),
            MoveRefusal::CloudSynced => PathError::CloudSynced.message(),
            MoveRefusal::SameFolder => string_of(&chars_of("The library is already in this folder.")),
            MoveRefusal::NotEmpty => {
                let mut out = chars_of(target);
                push_all(&mut out, &chars_of(" already exists and is not empty."));
                string_of(&out)
            },
        }
    }
}

/// The folder that the library moves to when the user picks `parent`.
pub fn move_target(parent: &str) -> (r: String)
    ensures
        r@ == join_path(parent@, "Tinta"@),
{
    join(parent, "Tinta")
}

/// The answer to a move of the library to `target`. `busy` is true while a recording or a final
/// pass runs; `same_folder` and `has_entries` are what the file system says of `target`.
pub open spec fn move_answer(busy: bool, target: Seq<char>, same_folder: bool, has_entries: bool) -> Result<
    (),
    MoveRefusal,
> {
    if busy {
        Err(MoveRefusal::Busy)
    } else if is_synced(target) {
        Err(MoveRefusal::CloudSynced)
    } else if same_folder {
        Err(MoveRefusal::SameFolder)
    } else if has_entries {
        Err(MoveRefusal::NotEmpty)
    } else {
        Ok(())
    }
}

/// Decides whether the library moves to `target`: not while a recording or a final pass runs, not
/// into a cloud-synced folder, not into the folder that holds it now, and not into a folder with
/// files. `same_folder` and `has_entries` come from the file system.
pub fn check_move(
    active: &Option<Active>,
    finalizing: &[String],
    target: &str,
    same_folder: bool,
    has_entries: bool,
) -> (r: Result<(), MoveRefusal>)
    ensures
        r == move_answer(active is Some || finalizing@.len() > 0, target@, same_folder, has_entries),
{
    if active.is_some() || finalizing.len() > 0 {
        return Err(MoveRefusal::Busy);
    }
    if check_local(target).is_err() {
        return Err(MoveRefusal::CloudSynced);
    }
    if same_folder {
        return Err(MoveRefusal::SameFolder);
    }
    if has_entries {
        return Err(MoveRefusal::NotEmpty);
    }
    Ok(())
}

} // verus!
