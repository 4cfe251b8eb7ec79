//! The export formats: the times of subtitles and transcripts, the speaker names and their states,
//! and the Markdown document.
use vstd::prelude::*;

use crate::date::{date_text, format_date};
use crate::granola::{join, SOURCE};
use crate::text::{
    chars_of, decimal, decimal_exec, eq_chars, padded, push_all, push_padded, string_of, string_views, trim, trim_chars, trim_end,
    trim_end_chars,
};

verus! {

broadcast use vstd::string::group_string_axioms;

/// A time of `ms` milliseconds as a subtitle shows it, "hh:mm:ss" with the separator and the
/// milliseconds, or as a transcript shows it, "mm:ss" with all the minutes.
pub open spec fn timestamp_text(ms: nat, separator: char, hours: bool) -> Seq<char> {
    if hours {
        padded((ms / 3600000) as int, 2) + seq![':'] + padded(((ms / 60000) % 60) as int, 2) + seq![':']
            + padded(((ms / 1000) % 60) as int, 2) + seq![separator] + padded((ms % 1000) as int, 3)
    } else {
        padded((ms / 60000) as int, 2) + seq![':'] + padded(((ms / 1000) % 60) as int, 2)
    }
}

/// Writes a time of `ms` milliseconds, as `timestamp_text` states.
pub fn timestamp_ms(ms: u64, separator: char, hours: bool) -> (r: String)
    ensures
        r@ == timestamp_text(ms as nat, separator, hours),
{
    let mut out: Vec<char> = Vec::new();
    if hours {
        push_padded(&mut out, (ms / 3600000) as i64, 2);
        out.push(':');
        push_padded(&mut out, ((ms / 60000) % 60) as i64, 2);
        out.push(':');
        push_padded(&mut out, ((ms / 1000) % 60) as i64, 2);
        out.push(separator);
        push_padded(&mut out, (ms % 1000) as i64, 3);
    } else {
        push_padded(&mut out, (ms / 60000) as i64, 2);
        out.push(':');
        push_padded(&mut out, ((ms / 1000) % 60) as i64, 2);
    }
    assert(out@ =~= timestamp_text(ms as nat, separator, hours));
    string_of(&out)
}

/// The state of a speaker name: "confirmed" for a name that the user set or confirmed,
/// "automatic" for a name from Meet or the microphone owner, and "unnamed" without a name.
pub open spec fn name_state_text(named: bool, name_source: Option<Seq<char>>) -> Seq<char> {
    if !named {
        "unnamed"@
    } else if name_source == Some("user"@) {
        "confirmed"@
    } else {
        "automatic"@
    }
}

/// The state of the name of a speaker with the name `name` from `name_source`.
pub fn name_state(name: Option<&str>, name_source: Option<&str>) -> (r: &'static str)
    ensures
        r@ == name_state_text(
            name is Some,
            match name_source {
                Some(s) => Some(s@),
                None => None,
            },
        ),
{
    match (name, name_source) {
        (None, _) => "unnamed",
        (Some(_), Some(s)) => if eq_chars(&chars_of(s), &chars_of("user")) {
            "confirmed"
        } else {
            "automatic"
        },
        (Some(_), None) => "automatic",
    }
}

/// The name that a turn shows: the name of its speaker, else the live name, else "Me" for the
/// microphone and "Remote" for the other audio.
pub open spec fn speaker_text(named: Option<Seq<char>>, live_name: Option<Seq<char>>, track: Seq<char>) -> Seq<char> {
    match named {
        Some(n) => n,
        None => match live_name {
            Some(n) => n,
            None => if track == "mic"@ {
                "Me"@
            } else {
                "Remote"@
            },
        },
    }
}

/// The name that a turn shows, as `speaker_text` states.
pub fn speaker_name(named: Option<&str>, live_name: Option<&str>, track: &str) -> (r: String)
    ensures
        r@ == speaker_text(
            match named {
                Some(s) => Some(s@),
                None => None,
            },
            match live_name {
                Some(s) => Some(s@),
                None => None,
            },
            track@,
        ),
{
    match named {
        Some(n) => string_of(&chars_of(n)),
        None => match live_name {
            Some(n) => string_of(&chars_of(n)),
            None => if eq_chars(&chars_of(track), &chars_of("mic")) {
                string_of(&chars_of("Me"))
            } else {
                string_of(&chars_of("Remote"))
            },
        },
    }
}

/// True when a meeting has timestamps: imported meetings from Granola have none.
pub fn timed(source: Option<&str>) -> (r: bool)
    ensures
        r == !(source is Some && source->0@ == SOURCE@),
{
    match source {
        Some(s) => !eq_chars(&chars_of(s), &chars_of(SOURCE)),
        None => true,
    }
}

/// The beginning of the Markdown export of a meeting: the title, the date of the start (or of the
/// creation), the tags, the notes, the summary, and the heading of the transcript.
pub open spec fn markdown_head_text(
    title: Seq<char>,
    date: int,
    tags: Seq<Seq<char>>,
    notes: Seq<char>,
    summary: Option<Seq<char>>,
) -> Seq<char> {
    let head = "# "@ + title + "\n\n"@ + "Date: "@ + date_text(date) + "\n"@;
    let tagged = if tags.len() > 0 {
        head + "Tags: "@ + join(tags, ", "@) + "\n"@
    } else {
        head
    };
    let noted = tagged + "\n## Notes\n\n"@ + if trim(notes).len() == 0 {
        "No notes.\n"@
    } else {
        trim_end(notes)
    };
    let summarized = match summary {
        Some(s) => noted + "\n\n## Summary (written by a local model)\n\n"@ + trim_end(s),
        None => noted,
    };
    summarized + "\n\n## Transcript\n\n"@
}

/// Writes the beginning of the Markdown export, as `markdown_head_text` states, with the date of
/// `started_at`, or else of `created_at`.
pub fn markdown_head(
    title: &str,
    started_at: Option<i64>,
    created_at: i64,
    tags: &[String],
    notes: &str,
    summary: Option<&str>,
) -> (r: String)
    ensures
        r@ == markdown_head_text(
            title@,
            match started_at {
                Some(s) => s as int,
                None => created_at as int,
            },
            string_views(tags@),
            notes@,
            match summary {
                Some(s) => Some(s@),
                None => None,
            },
        ),
{
    let date = match started_at {
        Some(s) => s,
        None => created_at,
    };
    let mut out: Vec<char> = Vec::new();
    push_all(&mut out, &chars_of("# "));
    push_all(&mut out, &chars_of(title));
    push_all(&mut out, &chars_of("\n\n"));
    push_all(&mut out, &chars_of("Date: "));
    push_all(&mut out, &chars_of(format_date(date).as_str()));
    push_all(&mut out, &chars_of("\n"));
    if tags.len() > 0 {
        push_all(&mut out, &chars_of("Tags: "));
        push_all(&mut out, &join_tags(tags));
        push_all(&mut out, &chars_of("\n"));
    }
    push_all(&mut out, &chars_of("\n## Notes\n\n"));
    let n = chars_of(notes);
    if trim_chars(&n).len() == 0 {
        push_all(&mut out, &chars_of("No notes.\n"));
    } else {
        push_all(&mut out, &trim_end_chars(&n));
    }
    if let Some(s) = summary {
        push_all(&mut out, &chars_of("\n\n## Summary (written by a local model)\n\n"));
        push_all(&mut out, &trim_end_chars(&chars_of(s)));
    }
    push_all(&mut out, &chars_of("\n\n## Transcript\n\n"));
    assert(out@ =~= markdown_head_text(
        title@,
        date as int,
        string_views(tags@),
        notes@,
        match summary {
            Some(s) => Some(s@),
            None => None,
        },
    ));
    string_of(&out)
}

fn join_tags(tags: &[String]) -> (r: Vec<char>)
    requires
        tags@.len() > 0,
    ensures
        r@ == join(string_views(tags@), ", "@),
{
    let ghost all = string_views(tags@);
    let mut out = chars_of(tags[0].as_str());
    let mut i: usize = 1;
    assert(all.take(1) =~= seq![all[0]]);
    while i < tags.len()
        invariant
            1 <= i <= tags.len(),
            all == string_views(tags@),
            out@ == join(all.take(i as int), ", "@),
        decreases tags.len() - i,
    {
        proof {
            lemma_join_push(all.take(i as int), all[i as int], ", "@);
        }
        push_all(&mut out, &chars_of(", "));
        push_all(&mut out, &chars_of(tags[i].as_str()));
        assert(all.take(i + 1) =~= all.take(i as int).push(all[i as int]));
        i = i + 1;
    }
    assert(all.take(i as int) =~= all);
    out
}

proof fn lemma_join_push(ls: Seq<Seq<char>>, x: Seq<char>, sep: Seq<char>)
    requires
        ls.len() > 0,
    ensures
        join(ls.push(x), sep) == join(ls, sep) + sep + x,
{
    assert(ls.push(x).drop_last() =~= ls);
    assert(ls.push(x).last() == x);
}

/// One turn of the Markdown export: the name in bold, the time when the meeting has times, and
/// the text.
pub open spec fn markdown_turn_text(name: Seq<char>, stamp: Option<Seq<char>>, text: Seq<char>) -> Seq<char> {
    match stamp {
        Some(t) => "**"@ + name + "** ["@ + t + "]: "@ + text + "\n\n"@,
        None => "**"@ + name + "**: "@ + text + "\n\n"@,
    }
}

/// Writes one turn of the Markdown export, as `markdown_turn_text` states.
pub fn markdown_turn(name: &str, stamp: Option<&str>, text: &str) -> (r: String)
    ensures
        r@ == markdown_turn_text(
            name@,
            match stamp {
                Some(s) => Some(s@),
                None => None,
            },
            text@,
        ),
{
    let mut out: Vec<char> = Vec::new();
    push_all(&mut out, &chars_of("**"));
    push_all(&mut out, &chars_of(name));
    match stamp {
        Some(t) => {
            push_all(&mut out, &chars_of("** ["));
            push_all(&mut out, &chars_of(t));
            push_all(&mut out, &chars_of("]: "));
        },
        None => {
            push_all(&mut out, &chars_of("**: "));
        },
    }
    push_all(&mut out, &chars_of(text));
    push_all(&mut out, &chars_of("\n\n"));
    assert(out@ =~= markdown_turn_text(
        name@,
        match stamp {
            Some(s) => Some(s@),
            None => None,
        },
        text@,
    ));
    string_of(&out)
}


/// An export format.
#[derive(Debug, Clone, Copy, PartialEq, Eq, Structural)]
pub enum ExportFormat {
    Markdown,
    Json,
    Srt,
    Vtt,
}

/// Why a meeting does not export in a format.
#[derive(Debug, Clone, Copy, PartialEq, Eq, Structural)]
pub enum ExportError {
    /// Subtitles need timestamps, and meetings imported from Granola have none.
    Untimed,
    /// The format is not one of the export formats.
    Unknown,
}

/// The format of a name: "md" or "markdown", "json", "srt", or "vtt". Subtitles need a meeting
/// with timestamps.
pub open spec fn format_of(name: Seq<char>, timed: bool) -> Result<ExportFormat, ExportError> {
    if name == "md"@ || name == "markdown"@ {
        Ok(ExportFormat::Markdown)
    } else if name == "json"@ {
        Ok(ExportFormat::Json)
    } else if (name == "srt"@ || name == "vtt"@) && !timed {
        Err(ExportError::Untimed)
    } else if name == "srt"@ {
        Ok(ExportFormat::Srt)
    } else if name == "vtt"@ {
        Ok(ExportFormat::Vtt)
    } else {
        Err(ExportError::Unknown)
    }
}

impl ExportFormat {
    /// The format of an export request for a meeting that is `timed` or not.
    pub fn of(name: &str, timed: bool) -> (r: Result<ExportFormat, ExportError>)
        ensures
            r == format_of(name@, timed),
    {
        let n = chars_of(name);
        if eq_chars(&n, &chars_of("md")) || eq_chars(&n, &chars_of("markdown")) {
            Ok(ExportFormat::Markdown)
        } else if eq_chars(&n, &chars_of("json")) {
            Ok(ExportFormat::Json)
        } else {
            let srt = eq_chars(&n, &chars_of("srt"));
            let vtt = eq_chars(&n, &chars_of("vtt"));
            if (srt || vtt) && !timed {
                Err(ExportError::Untimed)
            } else if srt {
                Ok(ExportFormat::Srt)
            } else if vtt {
                Ok(ExportFormat::Vtt)
            } else {
                Err(ExportError::Unknown)
            }
        }
    }
}

/// Every export format is the answer to a name for a meeting with timestamps, and two names give
/// the same format only for Markdown ("md" and "markdown"): SRT and VTT never come out as each other.
/// A meeting without timestamps gets every format but the subtitles.
pub proof fn law_formats_are_distinct(a: Seq<char>, b: Seq<char>, timed: bool, f: ExportFormat)
    ensures
        exists|n: Seq<char>| format_of(n, true) == Ok::<ExportFormat, ExportError>(f),
        format_of(a, timed) == Ok::<ExportFormat, ExportError>(f) && format_of(b, timed) == Ok::<
            ExportFormat,
            ExportError,
        >(f) && a != b ==> f == ExportFormat::Markdown,
        format_of(a, false) matches Ok(g) ==> format_of(a, true) == Ok::<ExportFormat, ExportError>(g),
        format_of(a, false) matches Ok(g) ==> g != ExportFormat::Srt && g != ExportFormat::Vtt,
{
    reveal_strlit("md");
    reveal_strlit("markdown");
    reveal_strlit("json");
    reveal_strlit("srt");
    reveal_strlit("vtt");
    assert("srt"@ != "md"@ && "srt"@ != "markdown"@ && "srt"@ != "json"@) by {
        assert("srt"@[0] != "md"@[0] && "srt"@[0] != "json"@[0]);
    }
    assert("vtt"@ != "md"@ && "vtt"@ != "markdown"@ && "vtt"@ != "json"@ && "vtt"@ != "srt"@) by {
        assert("vtt"@[0] != "md"@[0] && "vtt"@[0] != "json"@[0] && "vtt"@[0] != "srt"@[0]);
    }
    assert("json"@ != "md"@ && "json"@ != "markdown"@) by {
        assert("json"@[0] != "md"@[0]);
    }
    match f {
        ExportFormat::Markdown => assert(format_of("md"@, true) == Ok::<ExportFormat, ExportError>(f)),
        ExportFormat::Json => assert(format_of("json"@, true) == Ok::<ExportFormat, ExportError>(f)),
        ExportFormat::Srt => assert(format_of("srt"@, true) == Ok::<ExportFormat, ExportError>(f)),
        ExportFormat::Vtt => assert(format_of("vtt"@, true) == Ok::<ExportFormat, ExportError>(f)),
    }
}

/// The first line of a subtitle file: "WEBVTT" and an empty line for VTT, nothing for SRT.
pub fn subtitle_header(vtt: bool) -> (r: String)
    ensures
        r@ == (if vtt {
            "WEBVTT\n\n"@
        } else {
            Seq::<char>::empty()
        }),
{
    if vtt {
        string_of(&chars_of("WEBVTT\n\n"))
    } else {
        String::new()
    }
}

/// One subtitle: the number for SRT, the start and end times, and the speaker with the text.
pub open spec fn subtitle_text(
    number: Option<nat>,
    start: Seq<char>,
    end: Seq<char>,
    name: Seq<char>,
    text: Seq<char>,
) -> Seq<char> {
    let counted = match number {
        Some(n) => decimal(n) + "\n"@,
        None => Seq::<char>::empty(),
    };
    counted + start + " --> "@ + end + "\n"@ + name + ": "@ + text + "\n\n"@
}

/// Writes one subtitle, as `subtitle_text` states: SRT numbers its subtitles from 1, VTT does not.
pub fn subtitle_entry(number: Option<u64>, start: &str, end: &str, name: &str, text: &str) -> (r: String)
    ensures
        r@ == subtitle_text(
            match number {
                Some(n) => Some(n as nat),
                None => None,
            },
            start@,
            end@,
            name@,
            text@,
        ),
{
    let mut out: Vec<char> = Vec::new();
    if let Some(n) = number {
        push_all(&mut out, &decimal_exec(n));
        push_all(&mut out, &chars_of("\n"));
    }
    push_all(&mut out, &chars_of(start));
    push_all(&mut out, &chars_of(" --> "));
    push_all(&mut out, &chars_of(end));
    push_all(&mut out, &chars_of("\n"));
    push_all(&mut out, &chars_of(name));
    push_all(&mut out, &chars_of(": "));
    push_all(&mut out, &chars_of(text));
    push_all(&mut out, &chars_of("\n\n"));
    assert(out@ =~= subtitle_text(
        match number {
            Some(n) => Some(n as nat),
            None => None,
        },
        start@,
        end@,
        name@,
        text@,
    ));
    string_of(&out)
}

} // verus!
