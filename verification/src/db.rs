//! The records of the library and the rules that the library applies to them.
use vstd::prelude::*;

use crate::granola::{join, join_lines, lines, lines_of};
use crate::{DAY_MS, DEFAULT_AUDIO_RETENTION_DAYS, MAX_AUDIO_RETENTION_DAYS, TRASH_DAYS};
use crate::text::{
    char_views, string_views, chars_of, eq_chars, lemma_lex_total, lemma_lex_trans, lex_lt, lex_lt_exec, lowercase,
    lowercase_chars, parse_i64, parse_int, push_all, skip_of, skip_of_exec, slice_vec, split_at_pat, split_pat_exec, string_of, trim,
    trim_chars,
};

verus! {

broadcast use vstd::string::group_string_axioms;

/// A person in a call.
#[derive(Debug, Clone)]
pub struct Participant {
    pub participant_id: String,
    pub name: String,
    pub is_self: bool,
}

impl View for Participant {
    type V = (Seq<char>, Seq<char>, bool);

    open spec fn view(&self) -> Self::V {
        (self.participant_id@, self.name@, self.is_self)
    }
}

} // verus!

verus! {

/// Who made a change: the user in the app, or an MCP client.
#[derive(Debug, Clone, Copy, PartialEq, Eq, Structural)]
pub enum Origin {
    User,
    Mcp,
}

impl Origin {
    pub open spec fn spec_str(self) -> Seq<char> {
        match self {
            Origin::User => "user"@,
            Origin::Mcp => "mcp"@,
        }
    }

    pub fn as_str(self) -> (r: &'static str)
        ensures
            r@ == self.spec_str(),
    {
        match self {
            Origin::User => "user",
            Origin::Mcp => "mcp",
        }
    }
}

/// The author of a summary that an MCP client wrote.
pub const MCP_AUTHOR: &'static str = "MCP client";

/// The summary of a meeting.
#[derive(Debug, Clone)]
pub struct Summary {
    pub content: String,
    /// The local model, or `MCP_AUTHOR`.
    pub written_by: String,
    pub updated_at: i64,
}

/// One change that the MCP screen shows and can undo.
#[derive(Debug, Clone)]
pub struct Revision {
    pub id: i64,
    pub batch: String,
    pub meeting_id: String,
    pub entity: String,
    pub entity_id: String,
    pub field: String,
    pub origin: String,
    pub old_value: Option<String>,
    pub new_value: Option<String>,
    pub ts: i64,
    pub undone: bool,
}

/// One call of an MCP tool.
#[derive(Debug, Clone)]
pub struct AccessEntry {
    pub id: i64,
    pub ts: i64,
    pub session: String,
    pub tool: String,
    pub meeting_ids: Vec<String>,
    pub result: String,
}

/// One result of a search.
#[derive(Debug, Clone)]
pub struct SearchHit {
    pub meeting_id: String,
    pub title: String,
    pub kind: String,
    pub snippet: String,
}

/// A short view of a meeting for the meeting cards on Home.
#[derive(Debug, Clone)]
pub struct Preview {
    pub summary: Option<String>,
    pub people: Vec<String>,
}

impl Preview {
    /// The views of the names of the people.
    pub open spec fn people_view(&self) -> Seq<Seq<char>> {
        self.people@.map_values(|p: String| p@)
    }

    /// Adds a person to the card, unless the card shows the name already.
    pub fn add_person(&mut self, name: String)
        ensures
            final(self).summary == old(self).summary,
            final(self).people_view() == if old(self).people_view().contains(name@) {
                old(self).people_view()
            } else {
                old(self).people_view().push(name@)
            },
    {
        if !crate::calendar::contains_string(&self.people, &name) {
            let ghost before = self.people_view();
            self.people.push(name);
            assert(self.people_view() =~= before.push(name@));
        }
    }
}

/// Adding a person keeps the names on a card distinct: a card whose names are distinct has distinct
/// names after `Preview::add_person`.
pub proof fn law_people_stay_distinct(people: Seq<Seq<char>>, name: Seq<char>)
    requires
        people.no_duplicates(),
    ensures
        (if people.contains(name) {
            people
        } else {
            people.push(name)
        }).no_duplicates(),
{
    if !people.contains(name) {
        assert forall|i: int, j: int|
            0 <= i < people.push(name).len() && 0 <= j < people.push(name).len() && i != j
            implies people.push(name)[i] != people.push(name)[j] by {
            if i == people.len() as int {
                assert(people[j] != name);
            } else if j == people.len() as int {
                assert(people[i] != name);
            }
        }
    }
}

} // verus!

verus! {

/// The first line, trimmed, that is not empty and not a Markdown heading.
pub open spec fn first_text_line(ls: Seq<Seq<char>>) -> Option<Seq<char>>
    decreases ls.len(),
{
    if ls.len() == 0 {
        None
    } else {
        let t = trim(ls[0]);
        if t.len() > 0 && t[0] != '#' {
            Some(t)
        } else {
            first_text_line(ls.drop_first())
        }
    }
}

/// `s` without the "- " marks at its start.
pub open spec fn strip_dashes(s: Seq<char>) -> Seq<char>
    decreases s.len(),
{
    if s.len() >= 2 && s[0] == '-' && s[1] == ' ' {
        strip_dashes(s.skip(2))
    } else {
        s
    }
}

/// The first line of a summary that is not a heading, without list marks and bold marks,
/// cut to 160 characters with an ellipsis.
pub open spec fn summary_line_of(content: Seq<char>) -> Option<Seq<char>> {
    match first_text_line(lines(content)) {
        None => None,
        Some(l) => {
            let text = join(split_at_pat(strip_dashes(l), "**"@), seq![]);
            Some(
                if text.len() > 160 {
                    text.take(160) + seq!['…']
                } else {
                    text
                },
            )
        },
    }
}

fn first_text_line_exec(ls: &Vec<Vec<char>>) -> (r: Option<Vec<char>>)
    ensures
        match r {
            Some(l) => first_text_line(ls@.map_values(|l: Vec<char>| l@)) == Some(l@),
            None => first_text_line(ls@.map_values(|l: Vec<char>| l@)) is None,
        },
{
    let ghost views = ls@.map_values(|l: Vec<char>| l@);
    let mut i: usize = 0;
    assert(views.skip(0) =~= views);
    while i < ls.len()
        invariant
            i <= ls.len(),
            views == ls@.map_values(|l: Vec<char>| l@),
            first_text_line(views) == first_text_line(views.skip(i as int)),
        decreases ls.len() - i,
    {
        assert(views.skip(i as int)[0] == ls@[i as int]@);
        assert(views.skip(i as int).drop_first() =~= views.skip(i + 1));
        let t = trim_chars(&ls[i]);
        if t.len() > 0 && t[0] != '#' {
            return Some(t);
        }
        i = i + 1;
    }
    assert(views.skip(i as int) =~= Seq::<Seq<char>>::empty());
    None
}

/// The first line of a summary that is not a heading, without Markdown marks.
pub fn summary_line(content: &str) -> (r: Option<String>)
    ensures
        match r {
            Some(s) => summary_line_of(content@) == Some(s@),
            None => summary_line_of(content@) is None,
        },
{
    let line = match first_text_line_exec(&lines_of(&chars_of(content))) {
        Some(l) => l,
        None => return None,
    };
    let mut s = line;
    while s.len() >= 2 && s[0] == '-' && s[1] == ' '
        invariant
            strip_dashes(line@) == strip_dashes(s@),
        decreases s.len(),
    {
        s = slice_vec(&s, 2, s.len());
    }
    let stars = chars_of("**");
    proof {
        reveal_strlit("**");
    }
    let pieces = split_pat_exec(&s, &stars);
    let empty: Vec<char> = Vec::new();
    let text = join_lines(&pieces, &empty);
    assert(empty@ =~= Seq::<char>::empty());
    if text.len() > 160 {
        let mut short = slice_vec(&text, 0, 160);
        short.push('…');
        Some(string_of(&short))
    } else {
        Some(string_of(&text))
    }
}

} // verus!

verus! {

// MARK: Tags and folders

/// A tag as the library stores it: without white space around it, without '#' marks at its
/// start, and in lowercase.
pub open spec fn clean_tag(t: Seq<char>) -> Seq<char> {
    let s = trim(t);
    lowercase(s.skip(skip_of(s, seq!['#'], 0, s.len() as int)))
}

/// Each string is before the next one in the order of `String`, so no string occurs twice.
pub open spec fn strictly_sorted(r: Seq<Seq<char>>) -> bool {
    forall|i: int, j: int| 0 <= i < j < r.len() ==> lex_lt(#[trigger] r[i], #[trigger] r[j])
}

/// True when `x` is the clean form of one of the tags, and not empty.
pub open spec fn is_clean_tag_of(tags: Seq<Seq<char>>, x: Seq<char>) -> bool {
    x.len() > 0 && exists|i: int| 0 <= i < tags.len() && #[trigger] clean_tag(tags[i]) == x
}

fn clean_tag_exec(t: &str) -> (r: Vec<char>)
    ensures
        r@ == clean_tag(t@),
{
    let s = trim_chars(&chars_of(t));
    let hash = ['#'];
    assert(hash@ =~= seq!['#']);
    let start = skip_of_exec(&s, &hash, 0, s.len());
    lowercase_chars(&slice_vec(&s, start, s.len()))
}

/// Inserts `x` into the sorted list, unless the list holds it.
pub(crate) fn insert_sorted(r: &mut Vec<Vec<char>>, x: Vec<char>)
    requires
        strictly_sorted(char_views(old(r)@)),
    ensures
        strictly_sorted(char_views(final(r)@)),
        forall|y: Seq<char>|
            #[trigger] char_views(final(r)@).contains(y) <==> (char_views(old(r)@).contains(y) || y == x@),
{
    let ghost old_views = char_views(r@);
    let mut p: usize = 0;
    while p < r.len() && lex_lt_exec(&r[p], &x)
        invariant
            p <= r.len(),
            old_views == char_views(r@),
            strictly_sorted(old_views),
            forall|k: int| 0 <= k < p ==> lex_lt(#[trigger] old_views[k], x@),
        decreases r.len() - p,
    {
        p = p + 1;
    }
    if p < r.len() && eq_chars(&r[p], &x) {
        assert(old_views[p as int] == x@);
        return;
    }
    proof {
        assert forall|k: int| p <= k < old_views.len() implies lex_lt(x@, #[trigger] old_views[k]) by {
            lemma_lex_total(old_views[p as int], x@);
            if k > p {
                lemma_lex_trans(x@, old_views[p as int], old_views[k]);
            }
        }
    }
    r.insert(p, x);
    let ghost new_views = char_views(r@);
    assert(new_views =~= old_views.insert(p as int, x@));
    assert forall|i: int, j: int| 0 <= i < j < new_views.len() implies lex_lt(
        #[trigger] new_views[i],
        #[trigger] new_views[j],
    ) by {
        if i < p && j == p {
        } else if i < p && j > p {
            assert(new_views[j] == old_views[j - 1]);
        } else if i == p {
            assert(new_views[j] == old_views[j - 1]);
        } else if i > p {
            assert(new_views[i] == old_views[i - 1]);
            assert(new_views[j] == old_views[j - 1]);
        }
    }
    assert forall|y: Seq<char>| #[trigger] new_views.contains(y) <==> (old_views.contains(y) || y
        == x@) by {
        if new_views.contains(y) {
            let k = choose|k: int| 0 <= k < new_views.len() && new_views[k] == y;
            if k < p {
                assert(old_views[k] == y);
            } else if k > p {
                assert(old_views[k - 1] == y);
            }
        }
        if old_views.contains(y) {
            let k = choose|k: int| 0 <= k < old_views.len() && old_views[k] == y;
            if k < p {
                assert(new_views[k] == y);
            } else {
                assert(new_views[k + 1] == y);
            }
        }
        if y == x@ {
            assert(new_views[p as int] == y);
        }
    }
}

/// The tags as the library stores them: each one clean, not empty, sorted, and once.
pub fn clean_tags(tags: &[String]) -> (r: Vec<String>)
    ensures
        strictly_sorted(string_views(r@)),
        forall|x: Seq<char>|
            #[trigger] string_views(r@).contains(x) <==> is_clean_tag_of(
                string_views(tags@),
                x,
            ),
{
    let ghost tv = string_views(tags@);
    let mut sorted: Vec<Vec<char>> = Vec::new();
    let mut i: usize = 0;
    while i < tags.len()
        invariant
            i <= tags.len(),
            tv == string_views(tags@),
            strictly_sorted(char_views(sorted@)),
            forall|x: Seq<char>|
                #[trigger] char_views(sorted@).contains(x) <==> is_clean_tag_of(
                    tv.take(i as int),
                    x,
                ),
        decreases tags.len() - i,
    {
        let c = clean_tag_exec(tags[i].as_str());
        let ghost cv = c@;
        let ghost before = char_views(sorted@);
        if c.len() > 0 {
            insert_sorted(&mut sorted, c);
        }
        proof {
            let now = char_views(sorted@);
            assert forall|x: Seq<char>| #[trigger] now.contains(x) <==> is_clean_tag_of(
                tv.take(i + 1),
                x,
            ) by {
                assert(tv.take(i + 1)[i as int] == tv[i as int]);
                if is_clean_tag_of(tv.take(i + 1), x) {
                    let k = choose|k: int|
                        0 <= k < tv.take(i + 1).len() && #[trigger] clean_tag(tv.take(i + 1)[k]) == x;
                    if k < i {
                        assert(tv.take(i as int)[k] == tv.take(i + 1)[k]);
                        assert(is_clean_tag_of(tv.take(i as int), x));
                    }
                }
                if is_clean_tag_of(tv.take(i as int), x) {
                    let k = choose|k: int|
                        0 <= k < tv.take(i as int).len() && #[trigger] clean_tag(tv.take(i as int)[k])
                            == x;
                    assert(tv.take(i + 1)[k] == tv.take(i as int)[k]);
                }
                if x == cv && cv.len() > 0 {
                    assert(clean_tag(tv.take(i + 1)[i as int]) == x);
                }
            }
        }
        i = i + 1;
    }
    assert(tv.take(i as int) =~= tv);
    let mut out: Vec<String> = Vec::new();
    let mut j: usize = 0;
    let ghost sv = char_views(sorted@);
    while j < sorted.len()
        invariant
            j <= sorted.len(),
            sv == char_views(sorted@),
            out@.len() == j,
            forall|k: int| 0 <= k < j ==> #[trigger] out@[k]@ == sv[k],
        decreases sorted.len() - j,
    {
        out.push(string_of(&sorted[j]));
        j = j + 1;
    }
    assert(string_views(out@) =~= sv);
    out
}

} // verus!

verus! {

/// A folder name without white space around it; no folder when the name is empty.
pub open spec fn folder_of(folder: Option<Seq<char>>) -> Option<Seq<char>> {
    match folder {
        Some(f) => if trim(f).len() > 0 {
            Some(trim(f))
        } else {
            None
        },
        None => None,
    }
}

/// The folder that a meeting moves to, as `folder_of` states.
pub fn clean_folder(folder: Option<&str>) -> (r: Option<String>)
    ensures
        r.deep_view() == folder_of(
            match folder {
                Some(f) => Some(f@),
                None => None,
            },
        ),
{
    match folder {
        Some(f) => {
            let t = trim_chars(&chars_of(f));
            if t.len() > 0 {
                Some(string_of(&t))
            } else {
                None
            }
        },
        None => None,
    }
}

/// A title or a name without white space around it, or `None` when it is empty.
pub fn clean_name(name: &str) -> (r: Option<String>)
    ensures
        match r {
            Some(n) => trim(name@).len() > 0 && n@ == trim(name@),
            None => trim(name@).len() == 0,
        },
{
    let t = trim_chars(&chars_of(name));
    if t.len() > 0 {
        Some(string_of(&t))
    } else {
        None
    }
}

/// The name that a renamed folder gets: an existing folder with the same name in another case,
/// unless that folder is the renamed folder itself, or else the new name.
pub fn folder_rename_target(folder: &str, name: &str, existing: Option<&str>) -> (r: String)
    ensures
        r@ == match existing {
            Some(e) => if e@ != folder@ {
                e@
            } else {
                name@
            },
            None => name@,
        },
{
    match existing {
        Some(e) => {
            if !eq_chars(&chars_of(e), &chars_of(folder)) {
                string_of(&chars_of(e))
            } else {
                string_of(&chars_of(name))
            }
        },
        None => string_of(&chars_of(name)),
    }
}

// MARK: Retention

/// The number of days that new meetings keep their audio: the stored setting when it is a number
/// from 0 to `MAX_AUDIO_RETENTION_DAYS`, or else `DEFAULT_AUDIO_RETENTION_DAYS`.
pub open spec fn retention_days_of(stored: Option<Seq<char>>) -> int {
    match stored {
        Some(s) => match parse_int(s) {
            Some(d) => if 0 <= d <= MAX_AUDIO_RETENTION_DAYS {
                d
            } else {
                DEFAULT_AUDIO_RETENTION_DAYS as int
            },
            None => DEFAULT_AUDIO_RETENTION_DAYS as int,
        },
        None => DEFAULT_AUDIO_RETENTION_DAYS as int,
    }
}

pub fn retention_days(stored: Option<&str>) -> (r: i64)
    ensures
        r == retention_days_of(
            match stored {
                Some(s) => Some(s@),
                None => None,
            },
        ),
{
    match stored {
        Some(s) => match parse_i64(&chars_of(s)) {
            Some(d) => if 0 <= d && d <= MAX_AUDIO_RETENTION_DAYS {
                d
            } else {
                DEFAULT_AUDIO_RETENTION_DAYS
            },
            None => DEFAULT_AUDIO_RETENTION_DAYS,
        },
        None => DEFAULT_AUDIO_RETENTION_DAYS,
    }
}

/// A retention period is from 0 to `MAX_AUDIO_RETENTION_DAYS` days.
pub fn valid_retention_days(days: i64) -> (r: bool)
    ensures
        r == (0 <= days <= MAX_AUDIO_RETENTION_DAYS),
{
    0 <= days && days <= MAX_AUDIO_RETENTION_DAYS
}

/// The end of the audio of a meeting: `days` after the end of the meeting, or after its creation
/// when it has no end.
pub fn audio_deadline(ended_at: Option<i64>, created_at: i64, days: i64) -> (r: i64)
    requires
        0 <= days <= MAX_AUDIO_RETENTION_DAYS,
        match ended_at {
            Some(e) => e + days * DAY_MS <= i64::MAX,
            None => created_at + days * DAY_MS <= i64::MAX,
        },
    ensures
        r == match ended_at {
            Some(e) => e,
            None => created_at,
        } + days * DAY_MS,
{
    let base = match ended_at {
        Some(e) => e,
        None => created_at,
    };
    assert(0 <= days * DAY_MS <= 30 * DAY_MS) by (nonlinear_arith)
        requires
            0 <= days <= 30,
            DAY_MS == 86400000,
    ;
    base + days * DAY_MS
}

/// The audio of a meeting must go now when the meeting is not recording or processing, and its
/// audio is expired, or in the trash for `TRASH_DAYS`, or when an unfinished meeting that did not fail
/// is older than the default period.
pub open spec fn audio_expired_at(
    state: Seq<char>,
    audio_deleted: bool,
    audio_until: Option<i64>,
    audio_trashed_at: Option<i64>,
    created_at: i64,
    now: int,
    default_days: int,
) -> bool {
    &&& !audio_deleted
    &&& state != "recording"@
    &&& state != "processing"@
    &&& {
        ||| (audio_until matches Some(u) && u <= now)
        ||| (audio_trashed_at matches Some(t) && t <= now - TRASH_DAYS * DAY_MS)
        ||| (audio_until is None && state != "failed"@ && created_at <= now - default_days * DAY_MS)
    }
}

pub fn audio_expired(
    state: &str,
    audio_deleted: bool,
    audio_until: Option<i64>,
    audio_trashed_at: Option<i64>,
    created_at: i64,
    now: i64,
    default_days: i64,
) -> (r: bool)
    requires
        0 <= default_days <= MAX_AUDIO_RETENTION_DAYS,
        i64::MIN + TRASH_DAYS * DAY_MS <= now,
        i64::MIN + default_days * DAY_MS <= now,
    ensures
        r == audio_expired_at(
            state@,
            audio_deleted,
            audio_until,
            audio_trashed_at,
            created_at,
            now as int,
            default_days as int,
        ),
{
    let s = chars_of(state);
    if audio_deleted || eq_chars(&s, &chars_of("recording")) || eq_chars(&s, &chars_of("processing")) {
        return false;
    }
    assert(0 <= default_days * DAY_MS <= 30 * DAY_MS) by (nonlinear_arith)
        requires
            0 <= default_days <= 30,
            DAY_MS == 86400000,
    ;
    let until_passed = match audio_until {
        Some(u) => u <= now,
        None => false,
    };
    let trash_passed = match audio_trashed_at {
        Some(t) => t <= now - TRASH_DAYS * DAY_MS,
        None => false,
    };
    let old_unfinished = audio_until.is_none() && !eq_chars(&s, &chars_of("failed")) && created_at
        <= now - default_days * DAY_MS;
    until_passed || trash_passed || old_unfinished
}

/// A meeting in the trash goes for good `TRASH_DAYS` after its deletion.
pub fn trash_expired(deleted_at: Option<i64>, now: i64) -> (r: bool)
    requires
        i64::MIN + TRASH_DAYS * DAY_MS <= now,
    ensures
        r == (deleted_at matches Some(d) && d <= now - TRASH_DAYS * DAY_MS),
{
    match deleted_at {
        Some(d) => d <= now - TRASH_DAYS * DAY_MS,
        None => false,
    }
}


// MARK: Revisions

/// One change that the MCP screen shows and can undo: the meeting, the changed part and its ID, the
/// field, and the old and new values.
#[derive(Debug)]
pub struct Change {
    pub meeting_id: String,
    pub entity: String,
    pub entity_id: String,
    pub field: String,
    pub old: Option<String>,
    pub new: Option<String>,
}

fn opt_text(o: Option<&str>) -> (r: Option<String>)
    ensures
        r.deep_view() == match o {
            Some(s) => Some(s@),
            None => None::<Seq<char>>,
        },
{
    match o {
        Some(s) => Some(string_of(&chars_of(s))),
        None => None,
    }
}

impl Change {
    /// A change of a field of the meeting itself.
    pub fn meeting(id: &str, field: &str, old: Option<&str>, new: Option<&str>) -> (r: Change)
        ensures
            r.meeting_id@ == id@,
            r.entity@ == "meeting"@,
            r.entity_id@ == id@,
            r.field@ == field@,
            r.old.deep_view() == (match old {
                Some(s) => Some(s@),
                None => None::<Seq<char>>,
            }),
            r.new.deep_view() == (match new {
                Some(s) => Some(s@),
                None => None::<Seq<char>>,
            }),
    {
        Change {
            meeting_id: string_of(&chars_of(id)),
            entity: string_of(&chars_of("meeting")),
            entity_id: string_of(&chars_of(id)),
            field: string_of(&chars_of(field)),
            old: opt_text(old),
            new: opt_text(new),
        }
    }

    /// A change of a part of the meeting that has the meeting ID, such as the notes or the summary.
    pub fn whole(id: &str, entity: &str, old: Option<&str>, new: Option<&str>) -> (r: Change)
        ensures
            r.meeting_id@ == id@,
            r.entity@ == entity@,
            r.entity_id@ == id@,
            r.field@ == "content"@,
            r.old.deep_view() == (match old {
                Some(s) => Some(s@),
                None => None::<Seq<char>>,
            }),
            r.new.deep_view() == (match new {
                Some(s) => Some(s@),
                None => None::<Seq<char>>,
            }),
    {
        Change {
            meeting_id: string_of(&chars_of(id)),
            entity: string_of(&chars_of(entity)),
            entity_id: string_of(&chars_of(id)),
            field: string_of(&chars_of("content")),
            old: opt_text(old),
            new: opt_text(new),
        }
    }
}

/// How the library undoes one change, by the changed part and field.
#[derive(Debug, Clone, Copy, PartialEq, Eq, Structural)]
pub enum UndoAction {
    /// The meeting gets its old title.
    Title,
    /// The meeting goes back to its old folder.
    Folder,
    /// The meeting gets its old tags.
    Tags,
    /// The meeting keeps its audio until the old time.
    AudioUntil,
    /// The meeting leaves the trash.
    Restore,
    /// The audio leaves the trash.
    RestoreAudio,
    /// The summary gets its old content, or goes when it had none.
    Summary,
    /// The notes get their old content.
    Notes,
    /// The speaker gets its old name and name source.
    SpeakerName,
    /// The speaker is no longer merged.
    Unmerge,
    /// The turn gets its old speaker.
    TurnSpeaker,
    /// The turn gets its old text.
    TurnText,
}

/// The undo action of a change of `field` of `entity`, if the library can undo it.
pub open spec fn undo_action_of(entity: Seq<char>, field: Seq<char>) -> Option<UndoAction> {
    if entity == "meeting"@ {
        if field == "title"@ {
            Some(UndoAction::Title)
        } else if field == "folder"@ {
            Some(UndoAction::Folder)
        } else if field == "tags"@ {
            Some(UndoAction::Tags)
        } else if field == "audio_until"@ {
            Some(UndoAction::AudioUntil)
        } else if field == "deleted_at"@ {
            Some(UndoAction::Restore)
        } else if field == "audio_trashed_at"@ {
            Some(UndoAction::RestoreAudio)
        } else {
            None
        }
    } else if entity == "summary"@ && field == "content"@ {
        Some(UndoAction::Summary)
    } else if entity == "notes"@ && field == "content"@ {
        Some(UndoAction::Notes)
    } else if entity == "speaker"@ && field == "name"@ {
        Some(UndoAction::SpeakerName)
    } else if entity == "speaker"@ && field == "merged_into"@ {
        Some(UndoAction::Unmerge)
    } else if entity == "turn"@ && field == "speaker_id"@ {
        Some(UndoAction::TurnSpeaker)
    } else if entity == "turn"@ && field == "text"@ {
        Some(UndoAction::TurnText)
    } else {
        None
    }
}

impl UndoAction {
    /// The undo action of a revision, or `None` when the library cannot undo the change.
    pub fn of(entity: &str, field: &str) -> (r: Option<UndoAction>)
        ensures
            r == undo_action_of(entity@, field@),
    {
        let e = chars_of(entity);
        let f = chars_of(field);
        if eq_chars(&e, &chars_of("meeting")) {
            if eq_chars(&f, &chars_of("title")) {
                Some(UndoAction::Title)
            } else if eq_chars(&f, &chars_of("folder")) {
                Some(UndoAction::Folder)
            } else if eq_chars(&f, &chars_of("tags")) {
                Some(UndoAction::Tags)
            } else if eq_chars(&f, &chars_of("audio_until")) {
                Some(UndoAction::AudioUntil)
            } else if eq_chars(&f, &chars_of("deleted_at")) {
                Some(UndoAction::Restore)
            } else if eq_chars(&f, &chars_of("audio_trashed_at")) {
                Some(UndoAction::RestoreAudio)
            } else {
                None
            }
        } else if eq_chars(&e, &chars_of("summary")) && eq_chars(&f, &chars_of("content")) {
            Some(UndoAction::Summary)
        } else if eq_chars(&e, &chars_of("notes")) && eq_chars(&f, &chars_of("content")) {
            Some(UndoAction::Notes)
        } else if eq_chars(&e, &chars_of("speaker")) && eq_chars(&f, &chars_of("name")) {
            Some(UndoAction::SpeakerName)
        } else if eq_chars(&e, &chars_of("speaker")) && eq_chars(&f, &chars_of("merged_into")) {
            Some(UndoAction::Unmerge)
        } else if eq_chars(&e, &chars_of("turn")) && eq_chars(&f, &chars_of("speaker_id")) {
            Some(UndoAction::TurnSpeaker)
        } else if eq_chars(&e, &chars_of("turn")) && eq_chars(&f, &chars_of("text")) {
            Some(UndoAction::TurnText)
        } else {
            None
        }
    }
}

/// The time until which a meeting kept its audio, from the old value of a revision: a number of
/// epoch milliseconds, or none.
pub fn undo_audio_until(old: Option<&str>) -> (r: Option<i64>)
    ensures
        r == match old {
            Some(v) => match parse_int(v@) {
                Some(n) => Some(n as i64),
                None => None,
            },
            None => None,
        },
{
    match old {
        Some(v) => parse_i64(&chars_of(v)),
        None => None,
    }
}


// MARK: Undo plans

/// A recorded change as the library keeps it: the revision, the meeting, the changed part and its
/// ID, the field, and the old value.
#[derive(Debug)]
pub struct Recorded {
    pub id: i64,
    pub meeting_id: String,
    pub entity: String,
    pub entity_id: String,
    pub field: String,
    pub old: Option<String>,
}

pub type RecordedView = (i64, Seq<char>, Seq<char>, Seq<char>, Seq<char>, Option<Seq<char>>);

impl View for Recorded {
    type V = RecordedView;

    open spec fn view(&self) -> RecordedView {
        (self.id, self.meeting_id@, self.entity@, self.entity_id@, self.field@, self.old.deep_view())
    }
}

pub open spec fn recorded_views(rs: Seq<Recorded>) -> Seq<RecordedView> {
    rs.map_values(|r: Recorded| r@)
}

/// One write of an undo: the field of a part of a meeting gets its value back.
#[derive(Debug)]
pub struct UndoStep {
    /// The revision that the step undoes.
    pub revision_id: i64,
    pub meeting_id: String,
    /// The changed part: the meeting, its notes or summary, a speaker, or a turn.
    pub entity_id: String,
    pub action: UndoAction,
    /// The text that the field gets back, as `undo_value` states; none for no value.
    pub value: Option<String>,
    /// For `UndoAction::AudioUntil`: the old time in epoch milliseconds, none when the old value
    /// is not a number.
    pub until: Option<i64>,
}

pub type UndoStepView = (i64, Seq<char>, Seq<char>, UndoAction, Option<Seq<char>>, Option<i64>);

impl View for UndoStep {
    type V = UndoStepView;

    open spec fn view(&self) -> UndoStepView {
        (self.revision_id, self.meeting_id@, self.entity_id@, self.action, self.value.deep_view(), self.until)
    }
}

pub open spec fn or_text(o: Option<Seq<char>>, d: Seq<char>) -> Seq<char> {
    match o {
        Some(s) => s,
        None => d,
    }
}

/// The text that a field gets back: the old value of a title, folder, turn speaker or summary (no
/// summary when it had none); the old tags, speaker name or text, with an empty list, an empty name
/// or an empty text for a missing value; and no value for the trash, the audio trash, a merge, and
/// the audio deadline, which takes `undo_until`.
pub open spec fn undo_value(a: UndoAction, old: Option<Seq<char>>) -> Option<Seq<char>> {
    match a {
        UndoAction::Title | UndoAction::Folder | UndoAction::TurnSpeaker | UndoAction::Summary => old,
        UndoAction::Tags => Some(or_text(old, "[]"@)),
        UndoAction::SpeakerName => Some(or_text(old, "{}"@)),
        UndoAction::Notes | UndoAction::TurnText => Some(or_text(old, Seq::empty())),
        _ => None,
    }
}

/// The old audio deadline of an `AudioUntil` change, read as `str::parse::<i64>` reads it.
pub open spec fn undo_until(a: UndoAction, old: Option<Seq<char>>) -> Option<i64> {
    if a == UndoAction::AudioUntil {
        match old {
            Some(v) => match parse_int(v) {
                Some(n) => Some(n as i64),
                None => None,
            },
            None => None,
        }
    } else {
        None
    }
}

/// The undo step of a recorded change with the action `a`.
pub open spec fn undo_step_of(r: RecordedView, a: UndoAction) -> UndoStepView {
    (r.0, r.1, r.3, a, undo_value(a, r.5), undo_until(a, r.5))
}

/// True when the library can undo the recorded change.
pub open spec fn undoable(r: RecordedView) -> bool {
    undo_action_of(r.2, r.4) is Some
}

/// A change that the library cannot undo: its part and field.
#[derive(Debug)]
pub struct UndoError {
    pub entity: String,
    pub field: String,
}

impl UndoError {
    /// The message for the user: "cannot undo", the part, a dot, and the field.
    pub fn message(&self) -> (r: String)
        ensures
            r@ == "cannot undo "@ + self.entity@ + "."@ + self.field@,
    {
        let mut out = chars_of("cannot undo ");
        push_all(&mut out, &chars_of(self.entity.as_str()));
        push_all(&mut out, &chars_of("."));
        push_all(&mut out, &chars_of(self.field.as_str()));
        string_of(&out)
    }
}

/// The writes that undo the changes of a batch, in their order: each change's field gets its old
/// value back, as `undo_step_of` states. When the batch holds a change that the library cannot
/// undo, the plan is the error of the first such change, and the caller writes nothing.
pub fn undo_plan(changes: &[Recorded]) -> (r: Result<Vec<UndoStep>, UndoError>)
    ensures
        r is Ok <==> (forall|i: int| 0 <= i < changes@.len() ==> undoable(#[trigger] changes@[i]@)),
        r matches Ok(steps) ==> steps@.len() == changes@.len() && forall|i: int|
            0 <= i < changes@.len() ==> #[trigger] steps@[i]@ == undo_step_of(
                changes@[i]@,
                undo_action_of(changes@[i]@.2, changes@[i]@.4)->0,
            ),
        r matches Err(e) ==> exists|i: int|
            0 <= i < changes@.len() && !undoable(#[trigger] changes@[i]@) && e.entity@ == changes@[i]@.2
                && e.field@ == changes@[i]@.4 && forall|j: int| 0 <= j < i ==> undoable(changes@[j]@),
{
    let mut steps: Vec<UndoStep> = Vec::new();
    let mut i: usize = 0;
    while i < changes.len()
        invariant
            i <= changes.len(),
            steps@.len() == i,
            forall|j: int| 0 <= j < i ==> undoable(#[trigger] changes@[j]@),
            forall|j: int|
                0 <= j < i ==> #[trigger] steps@[j]@ == undo_step_of(
                    changes@[j]@,
                    undo_action_of(changes@[j]@.2, changes@[j]@.4)->0,
                ),
        decreases changes.len() - i,
    {
        let c = &changes[i];
        let action = match UndoAction::of(c.entity.as_str(), c.field.as_str()) {
            Some(a) => a,
            None => {
                assert(!undoable(changes@[i as int]@));
                return Err(UndoError { entity: c.entity.clone(), field: c.field.clone() });
            },
        };
        let old: Option<&str> = match &c.old {
            Some(v) => Some(v.as_str()),
            None => None,
        };
        let value = match action {
            UndoAction::Title | UndoAction::Folder | UndoAction::TurnSpeaker | UndoAction::Summary => opt_text(old),
            UndoAction::Tags => Some(opt_text(old).unwrap_or(string_of(&chars_of("[]")))),
            UndoAction::SpeakerName => Some(opt_text(old).unwrap_or(string_of(&chars_of("{}")))),
            UndoAction::Notes | UndoAction::TurnText => Some(opt_text(old).unwrap_or(String::new())),
            _ => None,
        };
        let until = if action == UndoAction::AudioUntil {
            undo_audio_until(old)
        } else {
            None
        };
        proof {
            reveal_strlit("[]");
            reveal_strlit("{}");
        }
        steps.push(
            UndoStep {
                revision_id: c.id,
                meeting_id: c.meeting_id.clone(),
                entity_id: c.entity_id.clone(),
                action,
                value,
                until,
            },
        );
        i = i + 1;
    }
    Ok(steps)
}

/// The old value with which the library records a change of the field: always one for a title,
/// tags, notes, a speaker name and a turn text; never one for the trash, the audio trash and a merge.
pub open spec fn recorded_old(a: UndoAction, old: Option<Seq<char>>) -> bool {
    match a {
        UndoAction::Title | UndoAction::Tags | UndoAction::Notes | UndoAction::SpeakerName
        | UndoAction::TurnText => old is Some,
        UndoAction::Restore | UndoAction::RestoreAudio | UndoAction::Unmerge => old is None,
        _ => true,
    }
}

/// Undoing a change that the library recorded gives the changed field its old value back: the
/// same part of the same meeting gets the old value, or, for the audio deadline, the old time.
pub proof fn law_undo_restores_old_value(r: RecordedView)
    requires
        undoable(r),
        recorded_old(undo_action_of(r.2, r.4)->0, r.5),
    ensures
        ({
            let a = undo_action_of(r.2, r.4)->0;
            let s = undo_step_of(r, a);
            &&& s.0 == r.0 && s.1 == r.1 && s.2 == r.3
            &&& a != UndoAction::AudioUntil ==> s.4 == r.5
            &&& a == UndoAction::AudioUntil ==> s.5 == (match r.5 {
                Some(v) => match parse_int(v) {
                    Some(n) => Some(n as i64),
                    None => None,
                },
                None => None::<i64>,
            })
        }),
{
}

// MARK: Refused changes

/// Why the library refuses a change.
#[derive(Debug, Clone, Copy, PartialEq, Eq, Structural)]
pub enum ChangeError {
    /// A title of white space.
    EmptyTitle,
    /// A folder name of white space.
    EmptyFolderName,
    /// A merge of a speaker into itself or into a speaker of another meeting.
    NotMergeable,
    /// A merge into a speaker that is merged into another speaker.
    MergedTarget,
    /// A speaker or a turn of another meeting.
    OtherMeeting,
    /// An edit of a live turn, before the final pass.
    Provisional,
    /// A change of the audio of a meeting whose audio is gone.
    NoAudio,
    /// A retention period outside 0 to `MAX_AUDIO_RETENTION_DAYS` days.
    RetentionRange,
    /// A second recording of a meeting.
    AlreadyRecorded,
    /// A final pass over a transcript with edits.
    HasEdits,
}

impl ChangeError {
    pub open spec fn text(self) -> Seq<char> {
        match self {
            ChangeError::EmptyTitle => "the title is empty"@,
            ChangeError::EmptyFolderName => "the folder name is empty"@,
            ChangeError::NotMergeable => "the speakers must be different speakers of the same meeting"@,
            ChangeError::MergedTarget => "the target speaker is merged into another speaker"@,
            ChangeError::OtherMeeting => "the speaker belongs to another meeting"@,
            ChangeError::Provisional => "you can edit the transcript after processing"@,
            ChangeError::NoAudio => "the meeting has no audio"@,
            ChangeError::RetentionRange => "the retention period must be between 0 and 30 days"@,
            ChangeError::AlreadyRecorded => "this meeting already has a recording"@,
            ChangeError::HasEdits => "the transcript has edits. Processing again does not overwrite them."@,
        }
    }

    /// The message for the user.
    pub fn message(self) -> (r: &'static str)
        ensures
            r@ == self.text(),
    {
        match self {
            ChangeError::EmptyTitle => "the title is empty",
            ChangeError::EmptyFolderName => "the folder name is empty",
            ChangeError::NotMergeable => "the speakers must be different speakers of the same meeting",
            ChangeError::MergedTarget => "the target speaker is merged into another speaker",
            ChangeError::OtherMeeting => "the speaker belongs to another meeting",
            ChangeError::Provisional => "you can edit the transcript after processing",
            ChangeError::NoAudio => "the meeting has no audio",
            ChangeError::RetentionRange => "the retention period must be between 0 and 30 days",
            ChangeError::AlreadyRecorded => "this meeting already has a recording",
            ChangeError::HasEdits => "the transcript has edits. Processing again does not overwrite them.",
        }
    }
}

/// A merge moves the turns of one speaker to another speaker of the same meeting, which is not
/// merged itself.
pub fn check_merge(
    from_meeting: &str,
    into_meeting: &str,
    from: &str,
    into: &str,
    into_merged: bool,
) -> (r: Result<(), ChangeError>)
    ensures
        r == (if from_meeting@ != into_meeting@ || from@ == into@ {
            Err(ChangeError::NotMergeable)
        } else if into_merged {
            Err(ChangeError::MergedTarget)
        } else {
            Ok(())
        }),
{
    if !eq_chars(&chars_of(from_meeting), &chars_of(into_meeting)) || eq_chars(&chars_of(from), &chars_of(into)) {
        Err(ChangeError::NotMergeable)
    } else if into_merged {
        Err(ChangeError::MergedTarget)
    } else {
        Ok(())
    }
}

/// A speaker or a turn of a meeting takes part in a change of that meeting only.
pub fn check_same_meeting(owner: &str, meeting_id: &str) -> (r: Result<(), ChangeError>)
    ensures
        r == (if owner@ == meeting_id@ {
            Ok(())
        } else {
            Err(ChangeError::OtherMeeting)
        }),
{
    if eq_chars(&chars_of(owner), &chars_of(meeting_id)) {
        Ok(())
    } else {
        Err(ChangeError::OtherMeeting)
    }
}

/// The audio of a meeting keeps `days` more days only while the meeting has audio, and for 0 to
/// `MAX_AUDIO_RETENTION_DAYS` days.
pub fn check_retention(audio_deleted: bool, days: i64) -> (r: Result<(), ChangeError>)
    ensures
        r == (if audio_deleted {
            Err(ChangeError::NoAudio)
        } else if !(0 <= days <= MAX_AUDIO_RETENTION_DAYS) {
            Err(ChangeError::RetentionRange)
        } else {
            Ok(())
        }),
{
    if audio_deleted {
        Err(ChangeError::NoAudio)
    } else if !valid_retention_days(days) {
        Err(ChangeError::RetentionRange)
    } else {
        Ok(())
    }
}

/// The label of a new speaker in a meeting that has `count` speakers.
pub fn new_speaker_label(count: i64) -> (r: String)
    requires
        0 <= count < i64::MAX,
    ensures
        r@ == "Speaker "@ + crate::text::decimal((count + 1) as nat),
{
    let mut out = chars_of("Speaker ");
    crate::text::push_all(&mut out, &crate::text::decimal_exec((count + 1) as u64));
    string_of(&out)
}

/// The name that a speaker gets, without white space around it, and its source: the user. A name
/// of white space removes the name.
pub fn speaker_rename(name: Option<&str>) -> (r: (Option<String>, Option<&'static str>))
    ensures
        r.0.deep_view() == (match name {
            Some(n) => if trim(n@).len() > 0 {
                Some(trim(n@))
            } else {
                None
            },
            None => None,
        }),
        r.1 is Some <==> r.0 is Some,
        r.1 is Some ==> r.1->0@ == "user"@,
{
    let cleaned = match name {
        Some(n) => clean_name(n),
        None => None,
    };
    let source = if cleaned.is_some() {
        Some("user")
    } else {
        None
    };
    (cleaned, source)
}

/// The tags of a meeting that the Granola import creates.
pub fn imported_tags(shared: bool) -> (r: Vec<String>)
    ensures
        string_views(r@) == (if shared {
            seq!["granola"@, "shared-with-me"@]
        } else {
            seq!["granola"@]
        }),
{
    let mut tags: Vec<String> = Vec::new();
    tags.push(string_of(&chars_of("granola")));
    if shared {
        tags.push(string_of(&chars_of("shared-with-me")));
    }
    assert(string_views(tags@) =~= (if shared {
        seq!["granola"@, "shared-with-me"@]
    } else {
        seq!["granola"@]
    }));
    tags
}


/// Every change that the library records has an undo: the title, folder, tags, audio deadline,
/// trash and audio trash of a meeting, its notes and summary, the name and merge of a speaker, and
/// the speaker and text of a turn.
pub proof fn law_recorded_changes_undo()
    ensures
        undo_action_of("meeting"@, "title"@) == Some(UndoAction::Title),
        undo_action_of("meeting"@, "folder"@) == Some(UndoAction::Folder),
        undo_action_of("meeting"@, "tags"@) == Some(UndoAction::Tags),
        undo_action_of("meeting"@, "audio_until"@) == Some(UndoAction::AudioUntil),
        undo_action_of("meeting"@, "deleted_at"@) == Some(UndoAction::Restore),
        undo_action_of("meeting"@, "audio_trashed_at"@) == Some(UndoAction::RestoreAudio),
        undo_action_of("summary"@, "content"@) == Some(UndoAction::Summary),
        undo_action_of("notes"@, "content"@) == Some(UndoAction::Notes),
        undo_action_of("speaker"@, "name"@) == Some(UndoAction::SpeakerName),
        undo_action_of("speaker"@, "merged_into"@) == Some(UndoAction::Unmerge),
        undo_action_of("turn"@, "speaker_id"@) == Some(UndoAction::TurnSpeaker),
        undo_action_of("turn"@, "text"@) == Some(UndoAction::TurnText),
{
    reveal_strlit("meeting");
    reveal_strlit("summary");
    reveal_strlit("notes");
    reveal_strlit("speaker");
    reveal_strlit("turn");
    reveal_strlit("name");
    reveal_strlit("merged_into");
    reveal_strlit("speaker_id");
    reveal_strlit("text");
    reveal_strlit("content");
    reveal_strlit("title");
    reveal_strlit("folder");
    reveal_strlit("tags");
    assert("folder"@ != "title"@) by {
        assert("folder"@[0] != "title"@[0]);
    }
    assert("tags"@ != "title"@) by {
        assert("tags"@.len() != "title"@.len());
    }
    assert("tags"@ != "folder"@) by {
        assert("tags"@.len() != "folder"@.len());
    }
    reveal_strlit("audio_until");
    reveal_strlit("deleted_at");
    reveal_strlit("audio_trashed_at");
    assert("audio_until"@ != "title"@) by {
        assert("audio_until"@.len() != "title"@.len());
    }
    assert("audio_until"@ != "folder"@) by {
        assert("audio_until"@.len() != "folder"@.len());
    }
    assert("audio_until"@ != "tags"@) by {
        assert("audio_until"@.len() != "tags"@.len());
    }
    assert("deleted_at"@ != "title"@) by {
        assert("deleted_at"@.len() != "title"@.len());
    }
    assert("deleted_at"@ != "folder"@) by {
        assert("deleted_at"@.len() != "folder"@.len());
    }
    assert("deleted_at"@ != "tags"@) by {
        assert("deleted_at"@.len() != "tags"@.len());
    }
    assert("deleted_at"@ != "audio_until"@) by {
        assert("deleted_at"@.len() != "audio_until"@.len());
    }
    assert("audio_trashed_at"@ != "title"@) by {
        assert("audio_trashed_at"@.len() != "title"@.len());
    }
    assert("audio_trashed_at"@ != "folder"@) by {
        assert("audio_trashed_at"@.len() != "folder"@.len());
    }
    assert("audio_trashed_at"@ != "tags"@) by {
        assert("audio_trashed_at"@.len() != "tags"@.len());
    }
    assert("audio_trashed_at"@ != "audio_until"@) by {
        assert("audio_trashed_at"@.len() != "audio_until"@.len());
    }
    assert("audio_trashed_at"@ != "deleted_at"@) by {
        assert("audio_trashed_at"@.len() != "deleted_at"@.len());
    }
    assert("summary"@ != "meeting"@) by {
        assert("summary"@[0] != "meeting"@[0]);
    }
    assert("notes"@ != "summary"@) by {
        assert("notes"@.len() != "summary"@.len());
    }
    assert("notes"@ != "meeting"@) by {
        assert("notes"@.len() != "meeting"@.len());
    }
    assert("speaker"@ != "meeting"@) by {
        assert("speaker"@[0] != "meeting"@[0]);
    }
    assert("speaker"@ != "summary"@) by {
        assert("speaker"@[1] != "summary"@[1]);
    }
    assert("speaker"@ != "notes"@) by {
        assert("speaker"@.len() != "notes"@.len() || "speaker"@[0] != "notes"@[0]);
    }
    assert("name"@ != "merged_into"@) by {
        assert("name"@.len() != "merged_into"@.len() || "name"@[0] != "merged_into"@[0]);
    }
    assert("turn"@ != "meeting"@) by {
        assert("turn"@.len() != "meeting"@.len() || "turn"@[0] != "meeting"@[0]);
    }
    assert("turn"@ != "summary"@) by {
        assert("turn"@.len() != "summary"@.len() || "turn"@[0] != "summary"@[0]);
    }
    assert("turn"@ != "notes"@) by {
        assert("turn"@.len() != "notes"@.len() || "turn"@[0] != "notes"@[0]);
    }
    assert("turn"@ != "speaker"@) by {
        assert("turn"@.len() != "speaker"@.len() || "turn"@[0] != "speaker"@[0]);
    }
    assert("text"@ != "speaker_id"@) by {
        assert("text"@.len() != "speaker_id"@.len() || "text"@[0] != "speaker_id"@[0]);
    }
}

} // verus!
