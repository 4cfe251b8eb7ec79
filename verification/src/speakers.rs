//! The names of speakers. For the final pass: the labels of the speaker separation once each, in
//! the order of `String`, and the names that the naming found for them among the participants. For
//! the exports: the display name of each speaker, with "Speaker n" for speakers without a name and
//! the name of the target for merged speakers. The times of words and turns are in seconds, so the
//! app groups words into turns and orders speakers by time.
use vstd::prelude::*;

use crate::db::{insert_sorted, strictly_sorted, Participant};
use crate::session::{participant_views, ParticipantView};
use crate::text::{
    char_views, chars_of, decimal, decimal_exec, eq_chars, lemma_lex_asym, lemma_lex_irreflexive, push_all, string_of,
    string_views,
};

verus! {

broadcast use vstd::string::group_string_axioms;

// MARK: Labels

/// The labels once each, in the order of `String`: what `sort` and then `dedup` give.
pub fn sorted_labels(labels: &[String]) -> (r: Vec<String>)
    ensures
        strictly_sorted(string_views(r@)),
        forall|x: Seq<char>| #[trigger] string_views(r@).contains(x) <==> string_views(labels@).contains(x),
{
    let ghost lv = string_views(labels@);
    let mut sorted: Vec<Vec<char>> = Vec::new();
    let mut i: usize = 0;
    while i < labels.len()
        invariant
            i <= labels.len(),
            lv == string_views(labels@),
            strictly_sorted(char_views(sorted@)),
            forall|x: Seq<char>| #[trigger] char_views(sorted@).contains(x) <==> lv.take(i as int).contains(x),
        decreases labels.len() - i,
    {
        let c = chars_of(labels[i].as_str());
        let ghost before = char_views(sorted@);
        insert_sorted(&mut sorted, c);
        proof {
            let now = char_views(sorted@);
            let t0 = lv.take(i as int);
            let t1 = lv.take(i + 1);
            assert(t1 =~= t0.push(lv[i as int]));
            assert forall|x: Seq<char>| #[trigger] now.contains(x) <==> t1.contains(x) by {
                if t1.contains(x) {
                    let k = choose|k: int| 0 <= k < t1.len() && t1[k] == x;
                    if k < i {
                        assert(t0[k] == x);
                    }
                }
                if t0.contains(x) {
                    let k = choose|k: int| 0 <= k < t0.len() && t0[k] == x;
                    assert(t1[k] == x);
                }
                if x == lv[i as int] {
                    assert(t1[i as int] == x);
                }
            }
        }
        i = i + 1;
    }
    assert(lv.take(labels.len() as int) =~= lv);
    let mut out: Vec<String> = Vec::new();
    let mut j: usize = 0;
    let ghost sv = char_views(sorted@);
    while j < sorted.len()
        invariant
            j <= sorted.len(),
            sv == char_views(sorted@),
            out@.len() == j,
            forall|k: int| 0 <= k < j ==> #[trigger] out@[k]@ == sv[k],
        decreases sorted.len() - j,
    {
        out.push(string_of(&sorted[j]));
        j = j + 1;
    }
    assert(string_views(out@) =~= sv);
    out
}

/// Two sorted lists without repeats that hold the same strings are the same list, so the contract of
/// `sorted_labels` fixes its result.
pub proof fn lemma_sorted_unique(a: Seq<Seq<char>>, b: Seq<Seq<char>>)
    requires
        strictly_sorted(a),
        strictly_sorted(b),
        forall|x: Seq<char>| #[trigger] a.contains(x) <==> b.contains(x),
    ensures
        a == b,
    decreases a.len(),
{
    if a.len() == 0 {
        if b.len() > 0 {
            assert(b.contains(b[0]));
            assert(a.contains(b[0]));
        }
        assert(a =~= b);
    } else {
        assert(a.contains(a[0]));
        assert(b.len() > 0);
        assert(b.contains(b[0]));
        assert(a.contains(b[0]));
        assert(b.contains(a[0]));
        let j = choose|j: int| 0 <= j < b.len() && b[j] == a[0];
        let k = choose|k: int| 0 <= k < a.len() && a[k] == b[0];
        if j > 0 {
            assert(lex_lt_at(b, 0, j));
            if k > 0 {
                assert(lex_lt_at(a, 0, k));
                lemma_lex_asym(a[0], b[0]);
            } else {
                lemma_lex_irreflexive(a[0]);
            }
        }
        assert(a[0] == b[0]);
        let ta = a.drop_first();
        let tb = b.drop_first();
        assert forall|x: Seq<char>| #[trigger] ta.contains(x) <==> tb.contains(x) by {
            lemma_rest_contains(a, x);
            lemma_rest_contains(b, x);
        }
        lemma_sorted_unique(ta, tb);
        assert(a =~= seq![a[0]] + ta);
        assert(b =~= seq![b[0]] + tb);
    }
}

spec fn lex_lt_at(s: Seq<Seq<char>>, i: int, j: int) -> bool {
    crate::text::lex_lt(s[i], s[j])
}

proof fn lemma_rest_contains(s: Seq<Seq<char>>, x: Seq<char>)
    requires
        strictly_sorted(s),
        s.len() > 0,
    ensures
        s.drop_first().contains(x) <==> (s.contains(x) && x != s[0]),
{
    let t = s.drop_first();
    if t.contains(x) {
        let k = choose|k: int| 0 <= k < t.len() && t[k] == x;
        assert(s[k + 1] == x);
        assert(crate::text::lex_lt(s[0], s[k + 1]));
        if x == s[0] {
            lemma_lex_irreflexive(x);
        }
    }
    if s.contains(x) && x != s[0] {
        let k = choose|k: int| 0 <= k < s.len() && s[k] == x;
        assert(k > 0);
        assert(t[k - 1] == x);
    }
}

// MARK: Names

/// What the naming decided for one label of the speaker separation: the participant that names it,
/// and the participant that it may be.
#[derive(Debug)]
pub struct LabelDecision {
    pub label: String,
    pub participant: Option<String>,
    pub suggestion: Option<String>,
}

pub type DecisionView = (Seq<char>, Option<Seq<char>>, Option<Seq<char>>);

impl View for LabelDecision {
    type V = DecisionView;

    open spec fn view(&self) -> DecisionView {
        (self.label@, self.participant.deep_view(), self.suggestion.deep_view())
    }
}

pub open spec fn decision_views(ds: Seq<LabelDecision>) -> Seq<DecisionView> {
    ds.map_values(|d: LabelDecision| d@)
}

/// A remote speaker with the names from the naming.
#[derive(Debug)]
pub struct RemoteName {
    pub label: String,
    pub name: Option<String>,
    /// "platform" when the call named the speaker.
    pub name_source: Option<String>,
    pub suggestion: Option<String>,
}

pub type RemoteNameView = (Seq<char>, Option<Seq<char>>, Option<Seq<char>>, Option<Seq<char>>);

impl View for RemoteName {
    type V = RemoteNameView;

    open spec fn view(&self) -> RemoteNameView {
        (self.label@, self.name.deep_view(), self.name_source.deep_view(), self.suggestion.deep_view())
    }
}

/// The name of participant `id`: that of the last participant with the ID, as a map that is built
/// from the list keeps it.
pub open spec fn participant_name(ps: Seq<ParticipantView>, id: Seq<char>) -> Option<Seq<char>>
    decreases ps.len(),
{
    if ps.len() == 0 {
        None
    } else if ps.last().0 == id {
        Some(ps.last().1)
    } else {
        participant_name(ps.drop_last(), id)
    }
}

/// The decision for `label`: the first one with that label. The naming decides once for each label.
pub open spec fn decision_for(ds: Seq<DecisionView>, label: Seq<char>) -> Option<DecisionView>
    decreases ds.len(),
{
    if ds.len() == 0 {
        None
    } else if ds[0].0 == label {
        Some(ds[0])
    } else {
        decision_for(ds.drop_first(), label)
    }
}

/// The name of the participant that a decision points to, when it points to one on the list.
pub open spec fn name_through(ps: Seq<ParticipantView>, p: Option<Seq<char>>) -> Option<Seq<char>> {
    match p {
        Some(id) => participant_name(ps, id),
        None => None,
    }
}

/// The remote speaker of `label`: the name of the participant that names it, with "platform" as its
/// source, and the name of the participant that it may be.
pub open spec fn remote_name_of(label: Seq<char>, ds: Seq<DecisionView>, ps: Seq<ParticipantView>) -> RemoteNameView {
    let d = decision_for(ds, label);
    let name = match d {
        Some(d) => name_through(ps, d.1),
        None => None,
    };
    let suggestion = match d {
        Some(d) => name_through(ps, d.2),
        None => None,
    };
    (
        label,
        name,
        if name is Some {
            Some("platform"@)
        } else {
            None
        },
        suggestion,
    )
}

fn participant_name_exec(ps: &[Participant], id: &str) -> (r: Option<String>)
    ensures
        r.deep_view() == participant_name(participant_views(ps@), id@),
{
    let ghost pv = participant_views(ps@);
    let target = chars_of(id);
    let mut found: Option<String> = None;
    let mut i: usize = 0;
    while i < ps.len()
        invariant
            i <= ps.len(),
            pv == participant_views(ps@),
            target@ == id@,
            found.deep_view() == participant_name(pv.take(i as int), id@),
        decreases ps.len() - i,
    {
        assert(pv.take(i + 1).drop_last() =~= pv.take(i as int));
        assert(pv.take(i + 1).last() == ps@[i as int]@);
        if eq_chars(&chars_of(ps[i].participant_id.as_str()), &target) {
            found = Some(ps[i].name.clone());
        }
        i = i + 1;
    }
    assert(pv.take(ps.len() as int) =~= pv);
    found
}

fn name_through_exec(ps: &[Participant], p: &Option<String>) -> (r: Option<String>)
    ensures
        r.deep_view() == name_through(participant_views(ps@), p.deep_view()),
{
    match p {
        Some(id) => participant_name_exec(ps, id.as_str()),
        None => None,
    }
}

fn decision_index(ds: &[LabelDecision], label: &str) -> (r: Option<usize>)
    ensures
        match r {
            Some(k) => k < ds.len() && decision_for(decision_views(ds@), label@) == Some(ds@[k as int]@),
            None => decision_for(decision_views(ds@), label@) is None,
        },
{
    let ghost dv = decision_views(ds@);
    let target = chars_of(label);
    let mut i: usize = 0;
    assert(dv.skip(0) =~= dv);
    while i < ds.len()
        invariant
            i <= ds.len(),
            dv == decision_views(ds@),
            target@ == label@,
            decision_for(dv, label@) == decision_for(dv.skip(i as int), label@),
        decreases ds.len() - i,
    {
        assert(dv.skip(i as int)[0] == ds@[i as int]@);
        if eq_chars(&chars_of(ds[i].label.as_str()), &target) {
            return Some(i);
        }
        assert(dv.skip(i as int).drop_first() =~= dv.skip(i + 1));
        i = i + 1;
    }
    None
}

/// The remote speakers of the labels, in their order, with the names that the decisions give them,
/// as `remote_name_of` states.
pub fn remote_names(labels: &[String], decisions: &[LabelDecision], participants: &[Participant]) -> (r: Vec<
    RemoteName,
>)
    ensures
        r@.len() == labels@.len(),
        forall|i: int|
            0 <= i < labels@.len() ==> #[trigger] r@[i]@ == remote_name_of(
                labels@[i]@,
                decision_views(decisions@),
                participant_views(participants@),
            ),
{
    let mut out: Vec<RemoteName> = Vec::new();
    let mut i: usize = 0;
    while i < labels.len()
        invariant
            i <= labels.len(),
            out@.len() == i,
            forall|k: int|
                0 <= k < i ==> #[trigger] out@[k]@ == remote_name_of(
                    labels@[k]@,
                    decision_views(decisions@),
                    participant_views(participants@),
                ),
        decreases labels.len() - i,
    {
        let label = labels[i].as_str();
        let (name, suggestion) = match decision_index(decisions, label) {
            Some(k) => (
                name_through_exec(participants, &decisions[k].participant),
                name_through_exec(participants, &decisions[k].suggestion),
            ),
            None => (None, None),
        };
        let name_source = if name.is_some() {
            Some(string_of(&chars_of("platform")))
        } else {
            None
        };
        out.push(RemoteName { label: labels[i].clone(), name, name_source, suggestion });
        i = i + 1;
    }
    out
}

/// The number of remote speakers with a name.
pub open spec fn named_count(rs: Seq<RemoteNameView>) -> nat
    decreases rs.len(),
{
    if rs.len() == 0 {
        0
    } else {
        named_count(rs.drop_last()) + if rs.last().1 is Some {
            1nat
        } else {
            0nat
        }
    }
}

/// Counts the remote speakers that have a name.
pub fn count_named(rs: &[RemoteName]) -> (r: usize)
    ensures
        r == named_count(rs@.map_values(|x: RemoteName| x@)),
{
    let ghost v = rs@.map_values(|x: RemoteName| x@);
    let mut n: usize = 0;
    let mut i: usize = 0;
    while i < rs.len()
        invariant
            i <= rs.len(),
            v == rs@.map_values(|x: RemoteName| x@),
            n == named_count(v.take(i as int)),
            n <= i,
        decreases rs.len() - i,
    {
        assert(v.take(i + 1).drop_last() =~= v.take(i as int));
        assert(v.take(i + 1).last() == rs@[i as int]@);
        if rs[i].name.is_some() {
            n = n + 1;
        }
        i = i + 1;
    }
    assert(v.take(rs.len() as int) =~= v);
    n
}

// MARK: Display names

/// A speaker as the export names it: its ID, its name, and the speaker that it was merged into.
#[derive(Debug)]
pub struct SpeakerEntry {
    pub id: String,
    pub name: Option<String>,
    pub merged_into: Option<String>,
}

pub type SpeakerEntryView = (Seq<char>, Option<Seq<char>>, Option<Seq<char>>);

impl View for SpeakerEntry {
    type V = SpeakerEntryView;

    open spec fn view(&self) -> SpeakerEntryView {
        (self.id@, self.name.deep_view(), self.merged_into.deep_view())
    }
}

pub open spec fn entry_views(es: Seq<SpeakerEntry>) -> Seq<SpeakerEntryView> {
    es.map_values(|e: SpeakerEntry| e@)
}

pub open spec fn pair_views(ps: Seq<(String, String)>) -> Seq<(Seq<char>, Seq<char>)> {
    ps.map_values(|p: (String, String)| (p.0@, p.1@))
}

/// The number of speakers without a name.
pub open spec fn unnamed_count(es: Seq<SpeakerEntryView>) -> nat
    decreases es.len(),
{
    if es.len() == 0 {
        0
    } else {
        unnamed_count(es.drop_last()) + if es.last().1 is Some {
            0nat
        } else {
            1nat
        }
    }
}

/// The display names of the speakers in their order: the name of a speaker, or "Speaker n" for the
/// nth speaker without a name.
pub open spec fn display_names(es: Seq<SpeakerEntryView>) -> Seq<(Seq<char>, Seq<char>)>
    decreases es.len(),
{
    if es.len() == 0 {
        Seq::empty()
    } else {
        let e = es.last();
        display_names(es.drop_last()).push(
            (
                e.0,
                match e.1 {
                    Some(n) => n,
                    None => "Speaker "@ + decimal(unnamed_count(es)),
                },
            ),
        )
    }
}

/// The name of `id` in a list of names: the last one, as a map that takes the names in order keeps it.
pub open spec fn name_in(pairs: Seq<(Seq<char>, Seq<char>)>, id: Seq<char>) -> Option<Seq<char>>
    decreases pairs.len(),
{
    if pairs.len() == 0 {
        None
    } else if pairs.last().0 == id {
        Some(pairs.last().1)
    } else {
        name_in(pairs.drop_last(), id)
    }
}

/// The names with those of the merged speakers added in order: a merged speaker shows the name that
/// its target has at that point, and keeps none when its target has none.
pub open spec fn with_merged(pairs: Seq<(Seq<char>, Seq<char>)>, es: Seq<SpeakerEntryView>) -> Seq<(Seq<char>, Seq<char>)>
    decreases es.len(),
{
    if es.len() == 0 {
        pairs
    } else {
        let before = with_merged(pairs, es.drop_last());
        let e = es.last();
        match e.2 {
            Some(target) => match name_in(before, target) {
                Some(n) => before.push((e.0, n)),
                None => before,
            },
            None => before,
        }
    }
}

fn name_in_exec(pairs: &Vec<(String, String)>, id: &str) -> (r: Option<String>)
    ensures
        r.deep_view() == name_in(pair_views(pairs@), id@),
{
    let ghost pv = pair_views(pairs@);
    let target = chars_of(id);
    let mut found: Option<String> = None;
    let mut i: usize = 0;
    while i < pairs.len()
        invariant
            i <= pairs.len(),
            pv == pair_views(pairs@),
            target@ == id@,
            found.deep_view() == name_in(pv.take(i as int), id@),
        decreases pairs.len() - i,
    {
        assert(pv.take(i + 1).drop_last() =~= pv.take(i as int));
        assert(pv.take(i + 1).last() == (pairs@[i as int].0@, pairs@[i as int].1@));
        if eq_chars(&chars_of(pairs[i].0.as_str()), &target) {
            found = Some(pairs[i].1.clone());
        }
        i = i + 1;
    }
    assert(pv.take(pairs.len() as int) =~= pv);
    found
}

/// The display name of each speaker ID, as pairs in the order in which a map takes them.
/// `ordered` holds the speakers that were not merged, in the order of their first turn; `all` holds
/// every speaker, and its merged speakers show the name of their target.
pub fn speaker_names(ordered: &[SpeakerEntry], all: &[SpeakerEntry]) -> (r: Vec<(String, String)>)
    ensures
        pair_views(r@) == with_merged(display_names(entry_views(ordered@)), entry_views(all@)),
{
    let ghost ov = entry_views(ordered@);
    let ghost av = entry_views(all@);
    let mut out: Vec<(String, String)> = Vec::new();
    let mut unnamed: u64 = 0;
    let mut i: usize = 0;
    while i < ordered.len()
        invariant
            i <= ordered.len(),
            ov == entry_views(ordered@),
            pair_views(out@) == display_names(ov.take(i as int)),
            unnamed == unnamed_count(ov.take(i as int)),
            unnamed <= i,
            i <= usize::MAX,
        decreases ordered.len() - i,
    {
        let ghost t1 = ov.take(i + 1);
        assert(t1.drop_last() =~= ov.take(i as int));
        assert(t1.last() == ordered@[i as int]@);
        let name = match &ordered[i].name {
            Some(n) => n.clone(),
            None => {
                unnamed = unnamed + 1;
                let mut text = chars_of("Speaker ");
                push_all(&mut text, &decimal_exec(unnamed));
                string_of(&text)
            },
        };
        out.push((ordered[i].id.clone(), name));
        assert(pair_views(out@) =~= display_names(t1));
        i = i + 1;
    }
    assert(ov.take(ordered.len() as int) =~= ov);
    let ghost first = pair_views(out@);
    let mut j: usize = 0;
    while j < all.len()
        invariant
            j <= all.len(),
            av == entry_views(all@),
            pair_views(out@) == with_merged(first, av.take(j as int)),
        decreases all.len() - j,
    {
        let ghost t1 = av.take(j + 1);
        assert(t1.drop_last() =~= av.take(j as int));
        assert(t1.last() == all@[j as int]@);
        match &all[j].merged_into {
            Some(target) => {
                match name_in_exec(&out, target.as_str()) {
                    Some(n) => {
                        let id = all[j].id.clone();
                        out.push((id, n));
                        assert(pair_views(out@) =~= with_merged(first, av.take(j as int)).push(
                            (all@[j as int].id@, n@),
                        ));
                    },
                    None => {},
                }
            },
            None => {},
        }
        j = j + 1;
    }
    assert(av.take(all.len() as int) =~= av);
    out
}

} // verus!
