//! The full-text search: the query that the library sends to the search index, and the texts that
//! it indexes for each meeting.
use vstd::prelude::*;

use crate::granola::join;
use crate::text::{
    chars_of, eq_chars, is_white, is_white_exec, lemma_white_end, push_all, string_of, string_views, white_end,
    white_end_exec,
};

verus! {

broadcast use vstd::string::group_string_axioms;

/// True when `char::is_alphanumeric` holds of `c`: the Unicode properties Alphabetic or Numeric.
pub uninterp spec fn alphanumeric(c: char) -> bool;

/// Calls `char::is_alphanumeric`. Its result depends on the character alone, and the contract
/// names it `alphanumeric`; the Unicode tables behind it are not stated here.
#[verifier::external_body]
pub(crate) fn is_alphanumeric(c: char) -> (r: bool)
    ensures
        r == alphanumeric(c),
{
    c.is_alphanumeric()
}

/// The first index at or after `from` whose character is white space, or the length of `s`.
pub open spec fn word_end(s: Seq<char>, from: int) -> int
    decreases s.len() - from,
{
    if from < 0 || from >= s.len() {
        s.len() as int
    } else if is_white(s[from]) {
        from
    } else {
        word_end(s, from + 1)
    }
}

proof fn lemma_white_end_stops(s: Seq<char>, from: int)
    requires
        0 <= from <= s.len(),
    ensures
        white_end(s, from) < s.len() ==> !is_white(s[white_end(s, from)]),
    decreases s.len() - from,
{
    if from < s.len() && is_white(s[from]) {
        lemma_white_end_stops(s, from + 1);
    }
}

proof fn lemma_word_end(s: Seq<char>, from: int)
    requires
        0 <= from <= s.len(),
    ensures
        from <= word_end(s, from) <= s.len(),
        word_end(s, from) < s.len() ==> is_white(s[word_end(s, from)]),
        forall|k: int| from <= k < word_end(s, from) ==> !is_white(#[trigger] s[k]),
    decreases s.len() - from,
{
    if from < s.len() && !is_white(s[from]) {
        lemma_word_end(s, from + 1);
    }
}

/// The words of `s` from `from` on, as `str::split_whitespace` gives them: the runs of characters
/// between white space.
pub open spec fn words_from(s: Seq<char>, from: int) -> Seq<Seq<char>>
    decreases s.len() - from,
{
    if from < 0 || from > s.len() {
        Seq::empty()
    } else {
        let a = white_end(s, from);
        if a >= s.len() || a < from {
            Seq::empty()
        } else {
            let b = word_end(s, a);
            if b <= a || b > s.len() {
                Seq::empty()
            } else {
                seq![s.subrange(a, b)] + words_from(s, b)
            }
        }
    }
}

/// The alphanumeric characters of a word.
pub open spec fn alphanumerics(w: Seq<char>) -> Seq<char> {
    w.filter(|c: char| alphanumeric(c))
}

/// The terms of a search query: each word of the query with its alphanumeric characters only, as a
/// quoted prefix term, without the words that have none.
pub open spec fn query_terms(q: Seq<char>) -> Seq<Seq<char>> {
    words_from(q, 0).map_values(|w: Seq<char>| alphanumerics(w)).filter(|t: Seq<char>| t.len() > 0).map_values(
        |t: Seq<char>| seq!['"'] + t + seq!['"', '*'],
    )
}

fn alphanumerics_exec(w: &[char]) -> (r: Vec<char>)
    ensures
        r@ == alphanumerics(w@),
{
    let ghost keep = |c: char| alphanumeric(c);
    let mut out: Vec<char> = Vec::new();
    let mut k: usize = 0;
    while k < w.len()
        invariant
            k <= w.len(),
            keep == (|c: char| alphanumeric(c)),
            out@ == w@.take(k as int).filter(keep),
        decreases w.len() - k,
    {
        let ghost before = out@;
        reveal_with_fuel(Seq::<_>::filter, 1);
        assert(w@.take(k + 1).drop_last() =~= w@.take(k as int));
        assert(w@.take(k + 1).last() == w@[k as int]);
        if is_alphanumeric(w[k]) {
            out.push(w[k]);
        }
        k = k + 1;
    }
    assert(w@.take(k as int) =~= w@);
    out
}

fn word_end_exec(s: &[char], from: usize) -> (r: usize)
    requires
        from <= s.len(),
    ensures
        r as int == word_end(s@, from as int),
{
    let mut i = from;
    while i < s.len() && !is_white_exec(s[i])
        invariant
            from <= i <= s.len(),
            word_end(s@, from as int) == word_end(s@, i as int),
        decreases s.len() - i,
    {
        i = i + 1;
    }
    i
}

/// The terms of a search query, as `query_terms` states, joined with spaces; `None` when the query
/// has no term, and the search finds nothing.
pub fn search_query(query: &str) -> (r: Option<String>)
    ensures
        match r {
            Some(q) => query_terms(query@).len() > 0 && q@ == join(query_terms(query@), " "@),
            None => query_terms(query@).len() == 0,
        },
{
    let s = chars_of(query);
    let ghost q = s@;
    let ghost f = |w: Seq<char>| alphanumerics(w);
    let ghost keep = |t: Seq<char>| t.len() > 0;
    let ghost quote = |t: Seq<char>| seq!['"'] + t + seq!['"', '*'];
    let mut terms: Vec<Vec<char>> = Vec::new();
    let mut i: usize = 0;
    while i < s.len()
        invariant
            i <= s.len(),
            q == s@,
            q == query@,
            f == (|w: Seq<char>| alphanumerics(w)),
            keep == (|t: Seq<char>| t.len() > 0),
            quote == (|t: Seq<char>| seq!['"'] + t + seq!['"', '*']),
            crate::text::char_views(terms@) + words_from(q, i as int).map_values(f).filter(keep).map_values(quote)
                == query_terms(q),
        ensures
            words_from(q, i as int).len() == 0,
        decreases s.len() - i,
    {
        let a = white_end_exec(&s, i);
        proof {
            lemma_white_end(q, i as int);
            lemma_white_end_stops(q, i as int);
        }
        if a >= s.len() {
            assert(words_from(q, i as int) =~= Seq::<Seq<char>>::empty());
            assert(words_from(q, a as int) =~= Seq::<Seq<char>>::empty());
            i = a;
            break;
        }
        let b = word_end_exec(&s, a);
        proof {
            lemma_word_end(q, a as int);
        }
        let ghost word = q.subrange(a as int, b as int);
        assert(words_from(q, i as int) == seq![word] + words_from(q, b as int));
        let mut word_chars: Vec<char> = Vec::new();
        let mut k = a;
        while k < b
            invariant
                a <= k <= b <= s.len(),
                word_chars@ == s@.subrange(a as int, k as int),
            decreases b - k,
        {
            word_chars.push(s[k]);
            k = k + 1;
            assert(word_chars@ =~= s@.subrange(a as int, k as int));
        }
        let t = alphanumerics_exec(&word_chars);
        proof {
            let rest = words_from(q, b as int);
            assert((seq![word] + rest).map_values(f) =~= seq![f(word)] + rest.map_values(f));
            Seq::<Seq<char>>::filter_distributes_over_add(seq![f(word)], rest.map_values(f), keep);
            reveal_with_fuel(Seq::<_>::filter, 2);
            assert(seq![f(word)].drop_last() =~= Seq::<Seq<char>>::empty());
        }
        let ghost before = terms@;
        if t.len() > 0 {
            let mut quoted: Vec<char> = Vec::new();
            quoted.push('"');
            push_all(&mut quoted, &t);
            quoted.push('"');
            quoted.push('*');
            assert(quoted@ =~= quote(t@));
            terms.push(quoted);
            proof {
                let rest = words_from(q, b as int).map_values(f).filter(keep);
                assert(seq![f(word)].filter(keep) =~= seq![f(word)]);
                assert((seq![f(word)] + rest).map_values(quote) =~= seq![quote(f(word))] + rest.map_values(quote));
                assert(crate::text::char_views(terms@) =~= crate::text::char_views(before).push(quote(f(word))));
            }
        } else {
            proof {
                let rest = words_from(q, b as int).map_values(f).filter(keep);
                assert(seq![f(word)].filter(keep) =~= Seq::<Seq<char>>::empty());
                assert(Seq::<Seq<char>>::empty() + rest =~= rest);
            }
        }
        i = b;
    }
    assert(words_from(q, i as int).len() == 0);
    assert(words_from(q, i as int) =~= Seq::<Seq<char>>::empty());
    assert(crate::text::char_views(terms@) =~= query_terms(q));
    if terms.len() == 0 {
        return None;
    }
    let mut out: Vec<char> = Vec::new();
    push_all(&mut out, &terms[0]);
    let mut j: usize = 1;
    let ghost all = query_terms(q);
    assert(all.take(1) =~= seq![all[0]]);
    proof {
        reveal_strlit(" ");
    }
    while j < terms.len()
        invariant
            1 <= j <= terms.len(),
            all == crate::text::char_views(terms@),
            out@ == join(all.take(j as int), " "@),
        decreases terms.len() - j,
    {
        proof {
            reveal_strlit(" ");
        }
        out.push(' ');
        push_all(&mut out, &terms[j]);
        assert(all.take(j + 1).drop_last() =~= all.take(j as int));
        assert(all.take(j + 1).last() == all[j as int]);
        assert(out@ =~= join(all.take(j as int), " "@) + " "@ + all[j as int]);
        j = j + 1;
    }
    assert(all.take(j as int) =~= all);
    Some(string_of(&out))
}

// MARK: Index

/// A kind of search entry of a meeting.
#[derive(Debug, Clone, Copy, PartialEq, Eq, Structural)]
pub enum SearchKind {
    /// The title, the folder, and the tags.
    Title,
    Notes,
    Summary,
    /// The names of the speakers.
    Speakers,
    Transcript,
}

impl SearchKind {
    /// The kinds of search entries, in the order that the library rebuilds them.
    pub fn all() -> (r: Vec<SearchKind>)
        ensures
            r@ == seq![
                SearchKind::Title,
                SearchKind::Notes,
                SearchKind::Summary,
                SearchKind::Speakers,
                SearchKind::Transcript,
            ],
    {
        let r = vec![
            SearchKind::Title,
            SearchKind::Notes,
            SearchKind::Summary,
            SearchKind::Speakers,
            SearchKind::Transcript,
        ];
        assert(r@ =~= seq![
            SearchKind::Title,
            SearchKind::Notes,
            SearchKind::Summary,
            SearchKind::Speakers,
            SearchKind::Transcript,
        ]);
        r
    }

    pub open spec fn text(self) -> Seq<char> {
        match self {
            SearchKind::Title => "title"@,
            SearchKind::Notes => "notes"@,
            SearchKind::Summary => "summary"@,
            SearchKind::Speakers => "speakers"@,
            SearchKind::Transcript => "transcript"@,
        }
    }

    /// The name of the kind in the index.
    pub fn name(self) -> (r: &'static str)
        ensures
            r@ == self.text(),
    {
        match self {
            SearchKind::Title => "title",
            SearchKind::Notes => "notes",
            SearchKind::Summary => "summary",
            SearchKind::Speakers => "speakers",
            SearchKind::Transcript => "transcript",
        }
    }
}

/// The strings of a list joined with `sep`.
pub fn join_strings(list: &[String], sep: &str) -> (r: String)
    ensures
        r@ == join(string_views(list@), sep@),
{
    let ghost all = string_views(list@);
    if list.len() == 0 {
        return String::new();
    }
    let sep_chars = chars_of(sep);
    let mut out = chars_of(list[0].as_str());
    let mut j: usize = 1;
    assert(all.take(1) =~= seq![all[0]]);
    while j < list.len()
        invariant
            1 <= j <= list.len(),
            all == string_views(list@),
            sep_chars@ == sep@,
            out@ == join(all.take(j as int), sep@),
        decreases list.len() - j,
    {
        push_all(&mut out, &sep_chars);
        push_all(&mut out, &chars_of(list[j].as_str()));
        assert(all.take(j + 1).drop_last() =~= all.take(j as int));
        assert(all.take(j + 1).last() == all[j as int]);
        assert(out@ =~= join(all.take(j as int), sep@) + sep@ + all[j as int]);
        j = j + 1;
    }
    assert(all.take(j as int) =~= all);
    string_of(&out)
}

/// The text that the title entry of a meeting indexes: the title, the folder, and the tags, with
/// spaces between them.
pub fn title_entry(title: &str, folder: Option<&str>, tags: &[String]) -> (r: String)
    ensures
        r@ == title@ + " "@ + (match folder {
            Some(f) => f@,
            None => Seq::<char>::empty(),
        }) + " "@ + join(string_views(tags@), " "@),
{
    proof {
        reveal_strlit(" ");
    }
    let mut out = chars_of(title);
    out.push(' ');
    if let Some(f) = folder {
        push_all(&mut out, &chars_of(f));
    }
    out.push(' ');
    let t = join_strings(tags, " ");
    push_all(&mut out, &chars_of(t.as_str()));
    assert(out@ =~= title@ + " "@ + (match folder {
        Some(f) => f@,
        None => Seq::<char>::empty(),
    }) + " "@ + join(string_views(tags@), " "@));
    string_of(&out)
}

} // verus!
