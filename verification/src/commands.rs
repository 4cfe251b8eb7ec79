//! The rules behind the commands of the app window: the settings that the window may change, the
//! title of a new meeting, and the name of an export file.
use vstd::prelude::*;

use crate::date::{date_text, format_date};
use crate::search::{alphanumeric, is_alphanumeric};
use crate::text::{all_white, all_white_exec, chars_of, decimal, decimal_exec, eq_chars, push_all, string_of, trim, trim_chars};

verus! {

broadcast use vstd::string::group_string_axioms;

// MARK: Settings

/// The settings that the window may change.
pub open spec fn window_settings() -> Seq<Seq<char>> {
    seq![
        "self_name"@,
        "mcp_enabled"@,
        "last_source"@,
        "theme"@,
        "onboarded"@,
        "auto_stop"@,
        "auto_summary"@,
    ]
}

/// Accepts a setting that the window may change, and refuses any other key with "unknown setting"
/// and the key.
pub fn check_setting(key: &str) -> (r: Result<(), String>)
    ensures
        r is Ok <==> window_settings().contains(key@),
        r matches Err(m) ==> m@ == "unknown setting "@ + key@,
{
    let names = ["self_name", "mcp_enabled", "last_source", "theme", "onboarded", "auto_stop", "auto_summary"];
    assert(names@.map_values(|n: &str| n@) =~= window_settings());
    let k = chars_of(key);
    let mut i: usize = 0;
    while i < 7
        invariant
            i <= 7,
            names@.len() == 7,
            names@.map_values(|n: &str| n@) == window_settings(),
            k@ == key@,
            forall|j: int| 0 <= j < i ==> window_settings()[j] != key@,
        decreases 7 - i,
    {
        assert(names@[i as int]@ == window_settings()[i as int]);
        if eq_chars(&chars_of(names[i]), &k) {
            assert(window_settings()[i as int] == key@);
            return Ok(());
        }
        i = i + 1;
    }
    let mut out = chars_of("unknown setting ");
    push_all(&mut out, &k);
    Err(string_of(&out))
}

// MARK: New meetings

/// The title of a new meeting: the title that the user gave, unless it is blank; else the title of
/// the Meet call, unless it is empty; else "Meeting" and the date.
pub open spec fn meeting_title_text(given: Option<Seq<char>>, call_title: Option<Seq<char>>, now: i64) -> Seq<
    char,
> {
    if given is Some && !all_white(given->0) {
        given->0
    } else if call_title is Some && call_title->0.len() > 0 {
        call_title->0
    } else {
        "Meeting "@ + date_text(now as int)
    }
}

/// Chooses the title of a new meeting, as `meeting_title_text` states. `now` is the time in epoch
/// milliseconds.
pub fn meeting_title(given: Option<&str>, call_title: Option<&str>, now: i64) -> (r: String)
    ensures
        r@ == meeting_title_text(
            match given {
                Some(t) => Some(t@),
                None => None,
            },
            match call_title {
                Some(t) => Some(t@),
                None => None,
            },
            now,
        ),
{
    if let Some(t) = given {
        if !all_white_exec(&chars_of(t)) {
            return t.to_owned();
        }
    }
    if let Some(t) = call_title {
        if chars_of(t).len() > 0 {
            return t.to_owned();
        }
    }
    let mut out = chars_of("Meeting ");
    let date = format_date(now);
    push_all(&mut out, &chars_of(date.as_str()));
    assert(out@ =~= "Meeting "@ + date_text(now as int));
    string_of(&out)
}

// MARK: Export files

/// A character of a file name: letters, digits, spaces and '-' stay, and any other character
/// becomes '_'.
pub open spec fn file_char(c: char) -> char {
    if alphanumeric(c) || c == ' ' || c == '-' {
        c
    } else {
        '_'
    }
}

/// The file name of a title: each character as `file_char` gives it, without white space around.
pub open spec fn file_title(title: Seq<char>) -> Seq<char> {
    trim(title.map_values(|c: char| file_char(c)))
}

/// The file extension of an export format: "md" for Markdown, else the name of the format.
pub open spec fn file_extension(format: Seq<char>) -> Seq<char> {
    if format == "markdown"@ {
        "md"@
    } else {
        format
    }
}

/// The name of an export file: the title and the extension, and for the `n`th file of the same
/// name, " (n)" after the title.
pub open spec fn export_file_name_text(title: Seq<char>, format: Seq<char>, copy: Option<nat>) -> Seq<char> {
    match copy {
        None => file_title(title) + "."@ + file_extension(format),
        Some(n) => file_title(title) + " ("@ + decimal(n) + ")."@ + file_extension(format),
    }
}

/// Writes the name of an export file, as `export_file_name_text` states. The app tries `None`
/// first, then 2, 3, and so on, until no file has the name.
pub fn export_file_name(title: &str, format: &str, copy: Option<u64>) -> (r: String)
    ensures
        r@ == export_file_name_text(
            title@,
            format@,
            match copy {
                Some(n) => Some(n as nat),
                None => None,
            },
        ),
{
    let t = chars_of(title);
    let mut mapped: Vec<char> = Vec::new();
    let mut i: usize = 0;
    while i < t.len()
        invariant
            i <= t.len(),
            t@ == title@,
            mapped@ =~= title@.take(i as int).map_values(|c: char| file_char(c)),
        decreases t.len() - i,
    {
        let c = t[i];
        let kept = if is_alphanumeric(c) || c == ' ' || c == '-' {
            c
        } else {
            '_'
        };
        mapped.push(kept);
        assert(title@.take(i + 1) =~= title@.take(i as int).push(c));
        i = i + 1;
    }
    assert(title@.take(t.len() as int) =~= title@);
    let mut out = trim_chars(&mapped);
    match copy {
        Some(n) => {
            push_all(&mut out, &chars_of(" ("));
            let digits = decimal_exec(n);
            push_all(&mut out, &digits);
            push_all(&mut out, &chars_of(")."));
        },
        None => {
            push_all(&mut out, &chars_of("."));
        },
    }
    let f = chars_of(format);
    if eq_chars(&f, &chars_of("markdown")) {
        push_all(&mut out, &chars_of("md"));
    } else {
        push_all(&mut out, &f);
    }
    proof {
        match copy {
            Some(n) => {
                assert(out@ =~= file_title(title@) + " ("@ + decimal(n as nat) + ")."@ + file_extension(format@));
            },
            None => {
                assert(out@ =~= file_title(title@) + "."@ + file_extension(format@));
            },
        }
    }
    string_of(&out)
}

} // verus!
