//! Reads a Granola export: the Markdown of the notes, the summary, and the transcript of each
//! meeting, and the participants of its `meta.json`.
//!
//! Granola transcripts have no timestamps. Each line starts with an audio source label:
//! `Microphone`, `System audio`, or `System audio (Name)`.
use vstd::prelude::*;

use crate::db::Participant;
use crate::text::{
    chars_of, eq_chars, first_of, first_of_exec, has_prefix, has_prefix_exec, is_white, push_all,
    slice_vec, string_of, trim, trim_chars,
};

verus! {

broadcast use vstd::string::group_string_axioms;

/// The `source` of the meetings that the import creates.
pub const SOURCE: &'static str = "granola";

// MARK: Lines

/// A line that ended with '\n', without a '\r' before the '\n'.
pub open spec fn strip_cr(l: Seq<char>) -> Seq<char> {
    if l.len() > 0 && l.last() == '\r' {
        l.drop_last()
    } else {
        l
    }
}

/// The lines of a text, as `str::lines` gives them: the text split at '\n', where a line that
/// ends with "\r\n" loses the '\r', and a final '\n' does not start an empty line.
pub open spec fn lines(s: Seq<char>) -> Seq<Seq<char>>
    decreases s.len(),
{
    if s.len() == 0 {
        seq![]
    } else {
        let i = first_of(s, seq!['\n'], 0);
        if i < 0 || i >= s.len() {
            seq![s]
        } else {
            seq![strip_cr(s.take(i))] + lines(s.skip(i + 1))
        }
    }
}

/// The lines joined with `sep` between them.
pub open spec fn join(ls: Seq<Seq<char>>, sep: Seq<char>) -> Seq<char>
    decreases ls.len(),
{
    if ls.len() == 0 {
        seq![]
    } else if ls.len() == 1 {
        ls[0]
    } else {
        join(ls.drop_last(), sep) + sep + ls.last()
    }
}

fn strip_cr_exec(l: Vec<char>) -> (r: Vec<char>)
    ensures
        r@ == strip_cr(l@),
{
    if l.len() > 0 && l[l.len() - 1] == '\r' {
        slice_vec(&l, 0, l.len() - 1)
    } else {
        l
    }
}

/// The lines of a text, as `lines` states.
pub fn lines_of(s: &[char]) -> (r: Vec<Vec<char>>)
    ensures
        r@.map_values(|l: Vec<char>| l@) == lines(s@),
{
    let nl = ['\n'];
    assert(nl@ =~= seq!['\n']);
    let mut out: Vec<Vec<char>> = Vec::new();
    let mut pos: usize = 0;
    assert(s@.skip(0) =~= s@);
    assert(out@.map_values(|l: Vec<char>| l@) + lines(s@) =~= lines(s@));
    loop
        invariant
            pos <= s.len(),
            nl@ == seq!['\n'],
            lines(s@) == out@.map_values(|l: Vec<char>| l@) + lines(s@.skip(pos as int)),
        decreases s.len() - pos,
    {
        let ghost rest = s@.skip(pos as int);
        if pos == s.len() {
            assert(rest.len() == 0);
            assert(out@.map_values(|l: Vec<char>| l@) + lines(rest) =~= out@.map_values(
                |l: Vec<char>| l@,
            ));
            return out;
        }
        let i = first_of_exec(s, &nl, pos);
        proof {
            crate::text::lemma_first_of(s@, seq!['\n'], pos as int);
            lemma_first_of_shift(s@, seq!['\n'], pos as int);
        }
        let ghost before = out@.map_values(|l: Vec<char>| l@);
        if i >= s.len() {
            out.push(slice_vec(s, pos, s.len()));
            assert(s@.subrange(pos as int, s.len() as int) =~= rest);
            assert(out@.map_values(|l: Vec<char>| l@) =~= before + seq![rest]);
            assert(lines(s@.skip(s.len() as int)) =~= Seq::<Seq<char>>::empty()) by {
                assert(s@.skip(s.len() as int).len() == 0);
            }
            assert(before + seq![rest] =~= before + seq![rest] + Seq::<Seq<char>>::empty());
            pos = s.len();
        } else {
            let line = strip_cr_exec(slice_vec(s, pos, i));
            out.push(line);
            assert(s@.subrange(pos as int, i as int) =~= rest.take(i - pos));
            assert(rest.skip(i - pos + 1) =~= s@.skip(i + 1));
            assert(out@.map_values(|l: Vec<char>| l@) =~= before + seq![strip_cr(rest.take(i - pos))]);
            pos = i + 1;
        }
    }
}

proof fn lemma_first_of_shift(s: Seq<char>, set: Seq<char>, pos: int)
    requires
        0 <= pos <= s.len(),
    ensures
        first_of(s.skip(pos), set, 0) == first_of(s, set, pos) - pos,
    decreases s.len() - pos,
{
    lemma_first_of_shift_from(s, set, pos, 0);
}

proof fn lemma_first_of_shift_from(s: Seq<char>, set: Seq<char>, pos: int, k: int)
    requires
        0 <= pos <= s.len(),
        0 <= k <= s.len() - pos,
    ensures
        first_of(s.skip(pos), set, k) == first_of(s, set, pos + k) - pos,
    decreases s.len() - pos - k,
{
    if k < s.len() - pos && !set.contains(s[pos + k]) {
        lemma_first_of_shift_from(s, set, pos, k + 1);
    }
}

/// Joins the lines with `sep` between them.
pub fn join_lines(ls: &[Vec<char>], sep: &[char]) -> (r: Vec<char>)
    ensures
        r@ == join(ls@.map_values(|l: Vec<char>| l@), sep@),
{
    let ghost views = ls@.map_values(|l: Vec<char>| l@);
    let mut out: Vec<char> = Vec::new();
    let mut i: usize = 0;
    while i < ls.len()
        invariant
            i <= ls.len(),
            views == ls@.map_values(|l: Vec<char>| l@),
            out@ == join(views.take(i as int), sep@),
        decreases ls.len() - i,
    {
        assert(views.take(i + 1).drop_last() =~= views.take(i as int));
        if i > 0 {
            push_all(&mut out, sep);
        } else {
            assert(out@ =~= Seq::<char>::empty());
        }
        push_all(&mut out, &ls[i]);
        i = i + 1;
        proof {
            if i == 1 {
                assert(out@ =~= views.take(1)[0]);
            }
        }
    }
    assert(views.take(i as int) =~= views);
    out
}

} // verus!

verus! {

// MARK: The Markdown of an export

/// A line of the header that the export adds under the title: an empty line, or a Date,
/// Granola, or Participants line.
pub open spec fn is_header_line(l: Seq<char>) -> bool {
    let t = trim(l);
    t.len() == 0 || has_prefix(t, "- Date:"@) || has_prefix(t, "- Granola:"@) || has_prefix(
        t,
        "- Participants:"@,
    )
}

/// The index of the first line at or after `from` that is not a header line.
pub open spec fn header_end(ls: Seq<Seq<char>>, from: int) -> int
    decreases ls.len() - from,
{
    if from < 0 || from >= ls.len() {
        ls.len() as int
    } else if is_header_line(ls[from]) {
        header_end(ls, from + 1)
    } else {
        from
    }
}

/// The text of an exported Markdown file without its header: the "# " title line, and the
/// Date, Granola, Participants, and empty lines after it.
pub open spec fn body_of(md: Seq<char>) -> Seq<char> {
    let ls = lines(md);
    let first = if ls.len() > 0 && has_prefix(ls[0], "# "@) {
        1int
    } else {
        0int
    };
    trim(join(ls.subrange(header_end(ls, first), ls.len() as int), "\n"@))
}

/// The body of an exported file starts at its first line after the title that is neither blank nor
/// a Date, Granola or Participants line: that line, a bullet of the notes such as "- Ship the fix"
/// among them, and every line after it stay in the body.
pub proof fn law_body_keeps_the_notes(md: Seq<char>, k: int)
    requires
        ({
            let ls = lines(md);
            let first = if ls.len() > 0 && has_prefix(ls[0], "# "@) {
                1int
            } else {
                0int
            };
            &&& first <= k <= ls.len()
            &&& forall|j: int|
                first <= j < k ==> {
                    let t = trim(#[trigger] ls[j]);
                    t.len() == 0 || has_prefix(t, "- Date:"@) || has_prefix(t, "- Granola:"@) || has_prefix(
                        t,
                        "- Participants:"@,
                    )
                }
            &&& k < ls.len() ==> {
                let t = trim(ls[k]);
                t.len() > 0 && !has_prefix(t, "- Date:"@) && !has_prefix(t, "- Granola:"@) && !has_prefix(
                    t,
                    "- Participants:"@,
                )
            }
        }),
    ensures
        body_of(md) == trim(join(lines(md).subrange(k, lines(md).len() as int), "\n"@)),
{
    let ls = lines(md);
    let first = if ls.len() > 0 && has_prefix(ls[0], "# "@) {
        1int
    } else {
        0int
    };
    lemma_header_end(ls, first, k);
}

proof fn lemma_header_end(ls: Seq<Seq<char>>, from: int, k: int)
    requires
        0 <= from <= k <= ls.len(),
        forall|j: int|
            from <= j < k ==> {
                let t = trim(#[trigger] ls[j]);
                t.len() == 0 || has_prefix(t, "- Date:"@) || has_prefix(t, "- Granola:"@) || has_prefix(
                    t,
                    "- Participants:"@,
                )
            },
        k < ls.len() ==> {
            let t = trim(ls[k]);
            t.len() > 0 && !has_prefix(t, "- Date:"@) && !has_prefix(t, "- Granola:"@) && !has_prefix(
                t,
                "- Participants:"@,
            )
        },
    ensures
        header_end(ls, from) == k,
    decreases k - from,
{
    if from < k {
        let t = trim(ls[from]);
        assert(t.len() == 0 || has_prefix(t, "- Date:"@) || has_prefix(t, "- Granola:"@) || has_prefix(
            t,
            "- Participants:"@,
        ));
        lemma_header_end(ls, from + 1, k);
    }
}

fn is_header_line_exec(l: &[char]) -> (r: bool)
    ensures
        r == is_header_line(l@),
{
    let t = trim_chars(l);
    t.len() == 0 || has_prefix_exec(&t, &chars_of("- Date:")) || has_prefix_exec(
        &t,
        &chars_of("- Granola:"),
    ) || has_prefix_exec(&t, &chars_of("- Participants:"))
}

fn body_chars(md: &[char]) -> (r: Vec<char>)
    ensures
        r@ == body_of(md@),
{
    let ls = lines_of(md);
    let ghost views = ls@.map_values(|l: Vec<char>| l@);
    let first: usize = if ls.len() > 0 && has_prefix_exec(&ls[0], &chars_of("# ")) {
        1
    } else {
        0
    };
    let mut k = first;
    while k < ls.len()
        invariant
            first <= k <= ls.len(),
            views == ls@.map_values(|l: Vec<char>| l@),
            header_end(views, first as int) == header_end(views, k as int),
        ensures
            header_end(views, first as int) == k,
        decreases ls.len() - k,
    {
        if !is_header_line_exec(&ls[k]) {
            break;
        }
        k = k + 1;
    }
    let mut rest: Vec<Vec<char>> = Vec::new();
    let mut j = k;
    while j < ls.len()
        invariant
            k <= j <= ls.len(),
            views == ls@.map_values(|l: Vec<char>| l@),
            rest@.len() == j - k,
            forall|i: int| 0 <= i < j - k ==> #[trigger] rest@[i]@ == views[k + i],
        decreases ls.len() - j,
    {
        let copy = slice_vec(&ls[j], 0, ls[j].len());
        assert(copy@ =~= views[j as int]);
        rest.push(copy);
        j = j + 1;
    }
    assert(rest@.map_values(|l: Vec<char>| l@) =~= views.subrange(k as int, ls@.len() as int));
    let joined = join_lines(&rest, &chars_of("\n"));
    trim_chars(&joined)
}

/// Removes the header that the export adds to each Markdown file: the title, and the
/// Date, Granola, and Participants lines.
pub fn body(markdown: &str) -> (r: String)
    ensures
        r@ == body_of(markdown@),
{
    string_of(&body_chars(&chars_of(markdown)))
}

} // verus!

verus! {

// MARK: Participants

/// One participant of a "Name (note creator) from Org <email>" entry, if the entry has a name.
/// The ID is the email address, or the name when the entry has no email address.
pub open spec fn participant_of(raw: Seq<char>, mine: bool) -> Option<(Seq<char>, Seq<char>, bool)> {
    let t = trim(raw);
    let part = t.take(crate::text::trim_end_of(t, seq!['>'], 0, t.len() as int));
    let lt = crate::text::last_of(part, seq!['<'], part.len() as int);
    let email: Option<Seq<char>> = if lt >= 0 {
        Some(trim(part.skip(lt + 1)))
    } else {
        None
    };
    let first = trim(part.take(first_of(part, seq!['<'], 0)));
    let creator = crate::text::find_from(first, "(note creator)"@, 0) is Some;
    let name = trim(crate::text::cut_at(crate::text::cut_at(first, " ("@), " from "@));
    if t.len() == 0 || name.len() == 0 {
        None
    } else {
        let id = match email {
            Some(e) => if e.len() > 0 {
                e
            } else {
                name
            },
            None => name,
        };
        Some((id, name, creator && mine))
    }
}

/// The participants of the entries, in order.
pub open spec fn participants_from(parts: Seq<Seq<char>>, mine: bool) -> Seq<
    (Seq<char>, Seq<char>, bool),
>
    decreases parts.len(),
{
    if parts.len() == 0 {
        seq![]
    } else {
        let rest = participants_from(parts.drop_first(), mine);
        match participant_of(parts[0], mine) {
            Some(p) => seq![p] + rest,
            None => rest,
        }
    }
}

/// The participants of a `meta.json` participants text, split at ">,".
pub open spec fn participants_of(text: Seq<char>, mine: bool) -> Seq<(Seq<char>, Seq<char>, bool)> {
    participants_from(crate::text::split_at_pat(text, ">,"@), mine)
}

fn participant_exec(raw: &[char], mine: bool) -> (r: Option<Participant>)
    ensures
        match r {
            Some(p) => participant_of(raw@, mine) == Some(p@),
            None => participant_of(raw@, mine) is None,
        },
{
    let t = trim_chars(raw);
    let gt = ['>'];
    assert(gt@ =~= seq!['>']);
    let end = crate::text::trim_end_of_exec(&t, &gt, 0, t.len());
    let part = slice_vec(&t, 0, end);
    let lt = ['<'];
    assert(lt@ =~= seq!['<']);
    let email: Option<Vec<char>> = match crate::text::last_of_exec(&part, &lt) {
        Some(i) => Some(trim_chars(&slice_vec(&part, i + 1, part.len()))),
        None => None,
    };
    let first_lt = first_of_exec(&part, &lt, 0);
    proof {
        crate::text::lemma_first_of(part@, seq!['<'], 0);
    }
    let first = trim_chars(&slice_vec(&part, 0, first_lt));
    let creator = crate::text::find_from_exec(&first, &chars_of("(note creator)"), 0).is_some();
    let cut1 = crate::text::cut_at_exec(&first, &chars_of(" ("));
    let cut2 = crate::text::cut_at_exec(&cut1, &chars_of(" from "));
    let name = trim_chars(&cut2);
    if t.len() == 0 || name.len() == 0 {
        return None;
    }
    let id = match email {
        Some(e) => if e.len() > 0 {
            e
        } else {
            slice_vec(&name, 0, name.len())
        },
        None => slice_vec(&name, 0, name.len()),
    };
    assert(name@.subrange(0, name@.len() as int) =~= name@);
    Some(Participant { participant_id: string_of(&id), name: string_of(&name), is_self: creator && mine })
}

/// Splits "Name (note creator) from Org <email>, Name <email>" into participants.
pub fn participants(text: &str, captured_by_me: bool) -> (r: Vec<Participant>)
    ensures
        r@.map_values(|p: Participant| p@) == participants_of(text@, captured_by_me),
{
    let sep = chars_of(">,");
    proof {
        reveal_strlit(">,");
    }
    let parts = crate::text::split_pat_exec(&chars_of(text), &sep);
    let ghost views = parts@.map_values(|p: Vec<char>| p@);
    let mut out: Vec<Participant> = Vec::new();
    let mut i: usize = 0;
    assert(views.skip(0) =~= views);
    assert(out@.map_values(|p: Participant| p@) + participants_from(views, captured_by_me)
        =~= participants_from(views, captured_by_me));
    while i < parts.len()
        invariant
            i <= parts.len(),
            views == parts@.map_values(|p: Vec<char>| p@),
            participants_from(views, captured_by_me) == out@.map_values(|p: Participant| p@)
                + participants_from(views.skip(i as int), captured_by_me),
        decreases parts.len() - i,
    {
        let ghost before = out@.map_values(|p: Participant| p@);
        assert(views.skip(i as int)[0] == parts@[i as int]@);
        assert(views.skip(i as int).drop_first() =~= views.skip(i + 1));
        match participant_exec(&parts[i], captured_by_me) {
            Some(p) => {
                out.push(p);
                assert(out@.map_values(|p: Participant| p@) =~= before + seq![p@]);
            },
            None => {},
        }
        i = i + 1;
    }
    assert(views.skip(i as int) =~= Seq::<Seq<char>>::empty());
    assert(out@.map_values(|p: Participant| p@) + Seq::<(Seq<char>, Seq<char>, bool)>::empty()
        =~= out@.map_values(|p: Participant| p@));
    out
}

} // verus!

verus! {

// MARK: Transcript

/// An audio source label of a transcript line.
pub open spec fn is_source_label(l: Seq<char>) -> bool {
    l == "Microphone"@ || l == "System audio"@ || (has_prefix(l, "System audio ("@) && l.len() > 0
        && l.last() == ')')
}

/// The label and the text of a chunk that starts with an audio source label and ": ".
pub open spec fn labeled(c: Seq<char>) -> Option<(Seq<char>, Seq<char>)> {
    match crate::text::find_from(c, ": "@, 0) {
        Some(i) => if 0 <= i && i + 2 <= c.len() && is_source_label(c.take(i)) {
            Some((c.take(i), c.skip(i + 2)))
        } else {
            None
        },
        None => None,
    }
}

/// Adds one chunk of the transcript to the entries. A chunk without a label continues the last entry.
pub open spec fn entries_step(acc: Seq<(Seq<char>, Seq<char>)>, raw: Seq<char>) -> Seq<
    (Seq<char>, Seq<char>),
> {
    let c = trim(raw);
    if c.len() == 0 {
        acc
    } else {
        match labeled(c) {
            Some((label, text)) => acc.push((label, trim(text))),
            None => if acc.len() > 0 {
                acc.update(acc.len() - 1, (acc.last().0, acc.last().1 + " "@ + c))
            } else {
                acc.push(("System audio"@, c))
            },
        }
    }
}

pub open spec fn entries_fold(chunks: Seq<Seq<char>>, acc: Seq<(Seq<char>, Seq<char>)>) -> Seq<
    (Seq<char>, Seq<char>),
>
    decreases chunks.len(),
{
    if chunks.len() == 0 {
        acc
    } else {
        entries_fold(chunks.drop_first(), entries_step(acc, chunks[0]))
    }
}

/// The (label, text) entries of a `transcript.md`, in order: the body split at empty lines.
pub open spec fn transcript_of(md: Seq<char>) -> Seq<(Seq<char>, Seq<char>)> {
    entries_fold(crate::text::split_at_pat(body_of(md), "\n\n"@), seq![])
}

pub open spec fn pairs_view(v: Seq<(Vec<char>, Vec<char>)>) -> Seq<(Seq<char>, Seq<char>)> {
    v.map_values(|p: (Vec<char>, Vec<char>)| (p.0@, p.1@))
}

fn is_source_label_exec(l: &[char]) -> (r: bool)
    ensures
        r == is_source_label(l@),
{
    eq_chars(l, &chars_of("Microphone")) || eq_chars(l, &chars_of("System audio")) || (
    has_prefix_exec(l, &chars_of("System audio (")) && l.len() > 0 && l[l.len() - 1] == ')')
}

fn labeled_exec(c: &[char]) -> (r: Option<(Vec<char>, Vec<char>)>)
    ensures
        match r {
            Some(p) => labeled(c@) == Some((p.0@, p.1@)),
            None => labeled(c@) is None,
        },
{
    let sep = chars_of(": ");
    proof {
        reveal_strlit(": ");
    }
    match crate::text::find_from_exec(c, &sep, 0) {
        Some(i) => {
            proof {
                crate::text::lemma_find_from(c@, ": "@, 0);
                assert(sep@.len() == 2);
            }
            assert(i + 2 <= c.len());
            let label = slice_vec(c, 0, i);
            if is_source_label_exec(&label) {
                Some((label, slice_vec(c, i + 2, c.len())))
            } else {
                None
            }
        },
        None => None,
    }
}

fn entries_chars(md: &[char]) -> (r: Vec<(Vec<char>, Vec<char>)>)
    ensures
        pairs_view(r@) == transcript_of(md@),
{
    let sep = chars_of("\n\n");
    proof {
        reveal_strlit("\n\n");
    }
    let chunks = crate::text::split_pat_exec(&body_chars(md), &sep);
    let ghost views = chunks@.map_values(|p: Vec<char>| p@);
    let mut acc: Vec<(Vec<char>, Vec<char>)> = Vec::new();
    let mut i: usize = 0;
    assert(views.skip(0) =~= views);
    assert(pairs_view(acc@) =~= Seq::<(Seq<char>, Seq<char>)>::empty());
    while i < chunks.len()
        invariant
            i <= chunks.len(),
            views == chunks@.map_values(|p: Vec<char>| p@),
            transcript_of(md@) == entries_fold(views.skip(i as int), pairs_view(acc@)),
        decreases chunks.len() - i,
    {
        assert(views.skip(i as int)[0] == chunks@[i as int]@);
        assert(views.skip(i as int).drop_first() =~= views.skip(i + 1));
        let ghost before = pairs_view(acc@);
        let c = trim_chars(&chunks[i]);
        if c.len() > 0 {
            match labeled_exec(&c) {
                Some((label, text)) => {
                    acc.push((label, trim_chars(&text)));
                    assert(pairs_view(acc@) =~= entries_step(before, chunks@[i as int]@));
                },
                None => {
                    if acc.len() > 0 {
                        let ghost kept = acc@.drop_last();
                        let (label, mut text) = acc.pop().unwrap();
                        assert(acc@ == kept);
                        assert(label@ == before.last().0 && text@ == before.last().1);
                        assert(pairs_view(kept) =~= before.drop_last());
                        text.push(' ');
                        push_all(&mut text, &c);
                        proof {
                            reveal_strlit(" ");
                            assert(text@ =~= before.last().1 + " "@ + c@);
                        }
                        acc.push((label, text));
                        assert(pairs_view(acc@) =~= entries_step(before, chunks@[i as int]@));
                    } else {
                        acc.push((chars_of("System audio"), c));
                        assert(pairs_view(acc@) =~= entries_step(before, chunks@[i as int]@));
                    }
                },
            }
        }
        i = i + 1;
    }
    assert(views.skip(i as int) =~= Seq::<Seq<char>>::empty());
    acc
}

/// Parses `transcript.md` into (label, text) entries in order.
pub fn transcript_entries(markdown: &str) -> (r: Vec<(String, String)>)
    ensures
        r@.map_values(|p: (String, String)| (p.0@, p.1@)) == transcript_of(markdown@),
{
    let pairs = entries_chars(&chars_of(markdown));
    let ghost pv = pairs_view(pairs@);
    let mut out: Vec<(String, String)> = Vec::new();
    let mut i: usize = 0;
    while i < pairs.len()
        invariant
            i <= pairs.len(),
            pv == pairs_view(pairs@),
            out@.len() == i,
            forall|j: int|
                0 <= j < i ==> (#[trigger] out@[j]).0@ == pv[j].0 && out@[j].1@ == pv[j].1,
        decreases pairs.len() - i,
    {
        out.push((string_of(&pairs[i].0), string_of(&pairs[i].1)));
        i = i + 1;
    }
    assert(out@.map_values(|p: (String, String)| (p.0@, p.1@)) =~= pv);
    out
}

} // verus!

verus! {

// MARK: Speakers and turns

/// A speaker of an imported meeting. Imported meetings have no name suggestions.
#[derive(Debug, Clone)]
pub struct ImportedSpeaker {
    pub label: String,
    pub track: String,
    pub name: Option<String>,
    pub name_source: Option<String>,
}

pub type SpeakerView = (Seq<char>, Seq<char>, Option<Seq<char>>, Option<Seq<char>>);

impl View for ImportedSpeaker {
    type V = SpeakerView;

    open spec fn view(&self) -> SpeakerView {
        (self.label@, self.track@, self.name.deep_view(), self.name_source.deep_view())
    }
}

/// A turn of an imported meeting. Imported turns have no times.
#[derive(Debug, Clone)]
pub struct ImportedTurn {
    pub track: String,
    pub speaker_label: String,
    pub text: String,
}

pub type TurnView = (Seq<char>, Seq<char>, Seq<char>);

impl View for ImportedTurn {
    type V = TurnView;

    open spec fn view(&self) -> TurnView {
        (self.track@, self.speaker_label@, self.text@)
    }
}

/// The speaker of a new label: the microphone is the recorder, "System audio (Name)" is Name,
/// and "System audio" has no name.
pub open spec fn new_speaker(label: Seq<char>, recorder: Option<Seq<char>>, mine: bool) -> SpeakerView {
    let prefix = "System audio ("@;
    if label == "Microphone"@ {
        (
            label,
            "mic"@,
            recorder,
            if recorder is Some {
                Some(
                    if mine {
                        "self"@
                    } else {
                        "platform"@
                    },
                )
            } else {
                None
            },
        )
    } else if has_prefix(label, prefix) && label.len() > prefix.len() && label.last() == ')' {
        (label, "remote"@, Some(trim(label.subrange(prefix.len() as int, label.len() - 1))), Some("platform"@))
    } else {
        (label, "remote"@, None, None)
    }
}

/// The index of the first speaker at or after `from` with the label, or -1.
pub open spec fn speaker_index(ss: Seq<SpeakerView>, label: Seq<char>, from: int) -> int
    decreases ss.len() - from,
{
    if from < 0 || from >= ss.len() {
        -1
    } else if ss[from].0 == label {
        from
    } else {
        speaker_index(ss, label, from + 1)
    }
}

/// Adds one transcript entry: a new label adds a speaker, and an entry of the speaker of the
/// last turn continues that turn.
pub open spec fn import_step(
    st: (Seq<SpeakerView>, Seq<TurnView>),
    e: (Seq<char>, Seq<char>),
    recorder: Option<Seq<char>>,
    mine: bool,
) -> (Seq<SpeakerView>, Seq<TurnView>) {
    let (ss, ts) = st;
    let (label, text) = e;
    let ss2 = if speaker_index(ss, label, 0) >= 0 {
        ss
    } else {
        ss.push(new_speaker(label, recorder, mine))
    };
    if ts.len() > 0 && ts.last().1 == label {
        (ss2, ts.update(ts.len() - 1, (ts.last().0, ts.last().1, ts.last().2 + " "@ + text)))
    } else {
        let k = speaker_index(ss2, label, 0);
        (ss2, ts.push((if k >= 0 { ss2[k].1 } else { seq![] }, label, text)))
    }
}

pub open spec fn import_fold(
    es: Seq<(Seq<char>, Seq<char>)>,
    st: (Seq<SpeakerView>, Seq<TurnView>),
    recorder: Option<Seq<char>>,
    mine: bool,
) -> (Seq<SpeakerView>, Seq<TurnView>)
    decreases es.len(),
{
    if es.len() == 0 {
        st
    } else {
        import_fold(es.drop_first(), import_step(st, es[0], recorder, mine), recorder, mine)
    }
}

proof fn lemma_speaker_index(ss: Seq<SpeakerView>, label: Seq<char>, from: int)
    requires
        0 <= from <= ss.len(),
    ensures
        -1 <= speaker_index(ss, label, from) < ss.len(),
        speaker_index(ss, label, from) >= 0 ==> ss[speaker_index(ss, label, from)].0 == label
            && from <= speaker_index(ss, label, from),
        speaker_index(ss, label, from) == -1 ==> forall|j: int|
            from <= j < ss.len() ==> (#[trigger] ss[j]).0 != label,
    decreases ss.len() - from,
{
    if from < ss.len() && ss[from].0 != label {
        lemma_speaker_index(ss, label, from + 1);
    }
}

proof fn lemma_speaker_index_push(ss: Seq<SpeakerView>, s: SpeakerView, label: Seq<char>)
    requires
        speaker_index(ss, label, 0) == -1,
        s.0 == label,
    ensures
        speaker_index(ss.push(s), label, 0) == ss.len(),
{
    lemma_speaker_index(ss, label, 0);
    lemma_speaker_index_from(ss.push(s), label, 0, ss.len() as int);
}

proof fn lemma_speaker_index_from(ss: Seq<SpeakerView>, label: Seq<char>, from: int, at: int)
    requires
        0 <= from <= at < ss.len(),
        ss[at].0 == label,
        forall|j: int| from <= j < at ==> (#[trigger] ss[j]).0 != label,
    ensures
        speaker_index(ss, label, from) == at,
    decreases at - from,
{
    if from < at {
        lemma_speaker_index_from(ss, label, from + 1, at);
    }
}

fn opt_chars(o: Option<&str>) -> (r: Option<Vec<char>>)
    ensures
        match o {
            Some(s) => r matches Some(v) && v@ == s@,
            None => r is None,
        },
{
    match o {
        Some(s) => Some(chars_of(s)),
        None => None,
    }
}

fn opt_string(o: &Option<Vec<char>>) -> (r: Option<String>)
    ensures
        r.deep_view() == match o {
            Some(v) => Some(v@),
            None => None::<Seq<char>>,
        },
{
    match o {
        Some(v) => Some(string_of(v)),
        None => None,
    }
}

fn new_speaker_exec(label: &[char], recorder: &Option<Vec<char>>, mine: bool) -> (r: ImportedSpeaker)
    ensures
        r@ == new_speaker(
            label@,
            match recorder {
                Some(v) => Some(v@),
                None => None,
            },
            mine,
        ),
{
    let prefix = chars_of("System audio (");
    if eq_chars(label, &chars_of("Microphone")) {
        let source = if recorder.is_some() {
            Some(string_of(&chars_of(if mine { "self" } else { "platform" })))
        } else {
            None
        };
        ImportedSpeaker {
            label: string_of(label),
            track: string_of(&chars_of("mic")),
            name: opt_string(recorder),
            name_source: source,
        }
    } else if has_prefix_exec(label, &prefix) && label.len() > prefix.len() && label[label.len() - 1]
        == ')' {
        let inner = trim_chars(&slice_vec(label, prefix.len(), label.len() - 1));
        ImportedSpeaker {
            label: string_of(label),
            track: string_of(&chars_of("remote")),
            name: Some(string_of(&inner)),
            name_source: Some(string_of(&chars_of("platform"))),
        }
    } else {
        ImportedSpeaker {
            label: string_of(label),
            track: string_of(&chars_of("remote")),
            name: None,
            name_source: None,
        }
    }
}

fn find_speaker(ss: &Vec<ImportedSpeaker>, label: &[char]) -> (r: Option<usize>)
    ensures
        match r {
            Some(i) => speaker_index(ss@.map_values(|s: ImportedSpeaker| s@), label@, 0) == i && i
                < ss@.len(),
            None => speaker_index(ss@.map_values(|s: ImportedSpeaker| s@), label@, 0) == -1,
        },
{
    let ghost views = ss@.map_values(|s: ImportedSpeaker| s@);
    let mut i: usize = 0;
    while i < ss.len()
        invariant
            i <= ss.len(),
            views == ss@.map_values(|s: ImportedSpeaker| s@),
            speaker_index(views, label@, 0) == speaker_index(views, label@, i as int),
        decreases ss.len() - i,
    {
        if eq_chars(&chars_of(ss[i].label.as_str()), label) {
            return Some(i);
        }
        i = i + 1;
    }
    None
}

/// The speakers and the turns of the transcript entries, as `import_fold` states.
pub fn speakers_and_turns(entries: &[(String, String)], recorder: Option<&str>, captured_by_me: bool) -> (r: (
    Vec<ImportedSpeaker>,
    Vec<ImportedTurn>,
))
    ensures
        ({
            let st = import_fold(
                entries@.map_values(|p: (String, String)| (p.0@, p.1@)),
                (seq![], seq![]),
                match recorder {
                    Some(s) => Some(s@),
                    None => None,
                },
                captured_by_me,
            );
            r.0@.map_values(|s: ImportedSpeaker| s@) == st.0 && r.1@.map_values(
                |t: ImportedTurn| t@,
            ) == st.1
        }),
{
    let rec = opt_chars(recorder);
    let ghost recv = match recorder {
        Some(s) => Some(s@),
        None => None::<Seq<char>>,
    };
    let ghost es = entries@.map_values(|p: (String, String)| (p.0@, p.1@));
    let mut ss: Vec<ImportedSpeaker> = Vec::new();
    let mut ts: Vec<ImportedTurn> = Vec::new();
    let mut i: usize = 0;
    assert(es.skip(0) =~= es);
    assert(ss@.map_values(|s: ImportedSpeaker| s@) =~= Seq::<SpeakerView>::empty());
    assert(ts@.map_values(|t: ImportedTurn| t@) =~= Seq::<TurnView>::empty());
    while i < entries.len()
        invariant
            i <= entries.len(),
            es == entries@.map_values(|p: (String, String)| (p.0@, p.1@)),
            recv == match rec {
                Some(v) => Some(v@),
                None => None::<Seq<char>>,
            },
            import_fold(es, (seq![], seq![]), recv, captured_by_me) == import_fold(
                es.skip(i as int),
                (ss@.map_values(|s: ImportedSpeaker| s@), ts@.map_values(|t: ImportedTurn| t@)),
                recv,
                captured_by_me,
            ),
        decreases entries.len() - i,
    {
        assert(es.skip(i as int)[0] == es[i as int]);
        assert(es.skip(i as int).drop_first() =~= es.skip(i + 1));
        let ghost ss0 = ss@.map_values(|s: ImportedSpeaker| s@);
        let ghost ts0 = ts@.map_values(|t: ImportedTurn| t@);
        let label = chars_of(entries[i].0.as_str());
        let text = chars_of(entries[i].1.as_str());
        let k = match find_speaker(&ss, &label) {
            Some(k) => {
                proof {
                    lemma_speaker_index(ss0, label@, 0);
                }
                k
            },
            None => {
                let s = new_speaker_exec(&label, &rec, captured_by_me);
                ss.push(s);
                proof {
                    assert(ss@.map_values(|s: ImportedSpeaker| s@) =~= ss0.push(
                        new_speaker(label@, recv, captured_by_me),
                    ));
                    lemma_speaker_index_push(ss0, new_speaker(label@, recv, captured_by_me), label@);
                }
                ss.len() - 1
            },
        };
        let ghost ss2 = ss@.map_values(|s: ImportedSpeaker| s@);
        let continues = ts.len() > 0 && eq_chars(&chars_of(ts[ts.len() - 1].speaker_label.as_str()), &label);
        if continues {
            let last = ts.pop().unwrap();
            assert(ts@.map_values(|t: ImportedTurn| t@) =~= ts0.drop_last());
            let mut joined = chars_of(last.text.as_str());
            joined.push(' ');
            push_all(&mut joined, &text);
            proof {
                reveal_strlit(" ");
                assert(joined@ =~= ts0.last().2 + " "@ + text@);
            }
            ts.push(ImportedTurn { track: last.track, speaker_label: last.speaker_label, text: string_of(&joined) });
            assert(ts@.map_values(|t: ImportedTurn| t@) =~= ts0.update(
                ts0.len() - 1,
                (ts0.last().0, ts0.last().1, ts0.last().2 + " "@ + text@),
            ));
        } else {
            let track = ss[k].track.clone();
            ts.push(ImportedTurn { track, speaker_label: string_of(&label), text: string_of(&text) });
            assert(ts@.map_values(|t: ImportedTurn| t@) =~= ts0.push((ss2[k as int].1, label@, text@)));
        }
        i = i + 1;
    }
    assert(es.skip(i as int) =~= Seq::<(Seq<char>, Seq<char>)>::empty());
    (ss, ts)
}

} // verus!

verus! {

// MARK: Meetings

/// `granola:` followed by the Granola meeting ID.
pub fn external_id(id: &str) -> (r: String)
    ensures
        r@ == SOURCE@ + ":"@ + id@,
{
    let mut v = chars_of(SOURCE);
    push_all(&mut v, &chars_of(":"));
    push_all(&mut v, &chars_of(id));
    string_of(&v)
}

/// The notes of an imported meeting: the body of `notes.md` without the placeholder text, and the
/// body of `summary.md` under a heading that marks it as the Granola summary, when it is included.
pub open spec fn notes_of(notes_md: Seq<char>, summary_md: Option<Seq<char>>) -> Seq<char> {
    let body = body_of(notes_md);
    let notes = if body == "_No private notes._"@ {
        seq![]
    } else {
        body
    };
    match summary_md {
        None => notes,
        Some(s) => {
            let summary = body_of(s);
            if summary.len() == 0 {
                notes
            } else {
                (if notes.len() > 0 {
                    notes + "\n\n"@
                } else {
                    notes
                }) + "---\n\n## Granola summary (AI-generated, imported)\n\n"@ + summary
            }
        },
    }
}

/// The notes of an imported meeting, as `notes_of` states.
pub fn import_notes(notes_md: &str, summary_md: Option<&str>) -> (r: String)
    ensures
        r@ == notes_of(
            notes_md@,
            match summary_md {
                Some(s) => Some(s@),
                None => None,
            },
        ),
{
    let body = body_chars(&chars_of(notes_md));
    let mut notes = if eq_chars(&body, &chars_of("_No private notes._")) {
        Vec::new()
    } else {
        body
    };
    if let Some(s) = summary_md {
        let summary = body_chars(&chars_of(s));
        if summary.len() > 0 {
            if notes.len() > 0 {
                push_all(&mut notes, &chars_of("\n\n"));
            }
            push_all(&mut notes, &chars_of("---\n\n## Granola summary (AI-generated, imported)\n\n"));
            push_all(&mut notes, &summary);
        }
    }
    string_of(&notes)
}

/// The title of an imported meeting: the title without white space around it, or a fixed title.
pub open spec fn title_of(title: Option<Seq<char>>) -> Seq<char> {
    match title {
        Some(t) => if crate::text::all_white(t) {
            "Granola meeting"@
        } else {
            trim(t)
        },
        None => "Granola meeting"@,
    }
}

pub fn import_title(title: Option<&str>) -> (r: String)
    ensures
        r@ == title_of(
            match title {
                Some(t) => Some(t@),
                None => None,
            },
        ),
{
    match title {
        Some(t) => {
            let c = chars_of(t);
            if crate::text::all_white_exec(&c) {
                string_of(&chars_of("Granola meeting"))
            } else {
                string_of(&trim_chars(&c))
            }
        },
        None => string_of(&chars_of("Granola meeting")),
    }
}

/// One parsed meeting, ready for the database.
#[derive(Debug, Clone)]
pub struct Imported {
    pub external_id: String,
    pub title: String,
    pub started_at: i64,
    pub shared: bool,
    pub notes: String,
    pub participants: Vec<Participant>,
    pub speakers: Vec<ImportedSpeaker>,
    pub turns: Vec<ImportedTurn>,
}

/// A meeting of the export from the texts of its files: the Granola ID and title of `meta.json`,
/// the start time, `notes.md`, `summary.md` when the summary is included, `transcript.md`, the
/// recorder of `raw-transcript.json`, and the participants text of `meta.json`.
pub fn assemble(
    id: &str,
    title: Option<&str>,
    started_at: i64,
    captured_by_me: bool,
    notes_md: &str,
    summary_md: Option<&str>,
    transcript_md: &str,
    recorder: Option<&str>,
    participants_text: &str,
) -> (r: Imported)
    ensures
        r.external_id@ == SOURCE@ + ":"@ + id@,
        r.title@ == title_of(
            match title {
                Some(t) => Some(t@),
                None => None,
            },
        ),
        r.started_at == started_at,
        r.shared == !captured_by_me,
        r.notes@ == notes_of(
            notes_md@,
            match summary_md {
                Some(s) => Some(s@),
                None => None,
            },
        ),
        r.participants@.map_values(|p: Participant| p@) == participants_of(
            participants_text@,
            captured_by_me,
        ),
        ({
            let st = import_fold(
                transcript_of(transcript_md@),
                (seq![], seq![]),
                match recorder {
                    Some(s) => Some(s@),
                    None => None,
                },
                captured_by_me,
            );
            r.speakers@.map_values(|s: ImportedSpeaker| s@) == st.0 && r.turns@.map_values(
                |t: ImportedTurn| t@,
            ) == st.1
        }),
{
    let entries = transcript_entries(transcript_md);
    let (speakers, turns) = speakers_and_turns(&entries, recorder, captured_by_me);
    Imported {
        external_id: external_id(id),
        title: import_title(title),
        started_at,
        shared: !captured_by_me,
        notes: import_notes(notes_md, summary_md),
        participants: participants(participants_text, captured_by_me),
        speakers,
        turns,
    }
}

} // verus!

verus! {

// MARK: Import results

/// What an import would do: the meetings of the export, mine and shared with me, and those that
/// the library has already.
#[derive(Debug, Clone)]
pub struct Preview {
    pub path: String,
    pub total: usize,
    pub mine: usize,
    pub shared: usize,
    pub already_imported: usize,
}

/// The number of entries that are true.
pub open spec fn count_true(flags: Seq<bool>) -> nat
    decreases flags.len(),
{
    if flags.len() == 0 {
        0
    } else {
        count_true(flags.drop_last()) + if flags.last() {
            1nat
        } else {
            0nat
        }
    }
}

proof fn lemma_count_true_le(flags: Seq<bool>)
    ensures
        count_true(flags) <= flags.len(),
    decreases flags.len(),
{
    if flags.len() > 0 {
        lemma_count_true_le(flags.drop_last());
    }
}

impl Preview {
    /// The preview of an export whose entries have the `captured_by_me` flags, of which
    /// `already_imported` are in the library.
    pub fn of(path: String, captured_by_me: &[bool], already_imported: usize) -> (r: Preview)
        ensures
            r.path@ == path@,
            r.total == captured_by_me@.len(),
            r.mine == count_true(captured_by_me@),
            r.shared == captured_by_me@.len() - count_true(captured_by_me@),
            r.already_imported == already_imported,
    {
        let mut mine: usize = 0;
        let mut i: usize = 0;
        while i < captured_by_me.len()
            invariant
                i <= captured_by_me.len(),
                mine == count_true(captured_by_me@.take(i as int)),
                mine <= i,
            decreases captured_by_me.len() - i,
        {
            assert(captured_by_me@.take(i + 1).drop_last() =~= captured_by_me@.take(i as int));
            if captured_by_me[i] {
                mine = mine + 1;
            }
            i = i + 1;
        }
        assert(captured_by_me@.take(i as int) =~= captured_by_me@);
        Preview { path, total: captured_by_me.len(), mine, shared: captured_by_me.len() - mine, already_imported }
    }
}

/// A meeting that the import could not read, and why.
#[derive(Debug, Clone)]
pub struct Failure {
    pub title: String,
    pub error: String,
}

/// The result of an import.
#[derive(Debug, Clone)]
pub struct Summary {
    pub imported: usize,
    pub skipped: usize,
    pub failed: Vec<Failure>,
}

impl Summary {
    pub fn new() -> (r: Summary)
        ensures
            r.imported == 0,
            r.skipped == 0,
            r.failed@.len() == 0,
    {
        Summary { imported: 0, skipped: 0, failed: Vec::new() }
    }

    /// Counts a meeting that the library has already.
    pub fn skip(&mut self)
        requires
            old(self).skipped < usize::MAX,
        ensures
            final(self).skipped == old(self).skipped + 1,
            final(self).imported == old(self).imported,
            final(self).failed@ == old(self).failed@,
    {
        self.skipped = self.skipped + 1;
    }

    /// Counts a meeting that the import added.
    pub fn add(&mut self)
        requires
            old(self).imported < usize::MAX,
        ensures
            final(self).imported == old(self).imported + 1,
            final(self).skipped == old(self).skipped,
            final(self).failed@ == old(self).failed@,
    {
        self.imported = self.imported + 1;
    }

    /// Records a meeting that the import could not add.
    pub fn fail(&mut self, failure: Failure)
        ensures
            final(self).failed@ == old(self).failed@.push(failure),
            final(self).imported == old(self).imported,
            final(self).skipped == old(self).skipped,
    {
        self.failed.push(failure);
    }
}

} // verus!
