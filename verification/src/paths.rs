//! The folders and files of the library. The caller reads the folders from the environment
//! and the configuration; these functions build the paths from them.
use vstd::prelude::*;

use crate::text::{chars_of, find_from, find_from_exec, lowercase, lowercase_chars, push_all, string_of};

verus! {

broadcast use vstd::string::group_string_axioms;

/// A path with `p` after it, as `Path::join` gives it on Unix: an absolute `p` replaces the path,
/// and a '/' goes between them when the path is not empty and does not end with one.
pub open spec fn join_path(base: Seq<char>, p: Seq<char>) -> Seq<char> {
    if p.len() > 0 && p[0] == '/' {
        p
    } else if base.len() == 0 || base.last() == '/' {
        base + p
    } else {
        base + seq!['/'] + p
    }
}

pub fn join(base: &str, p: &str) -> (r: String)
    ensures
        r@ == join_path(base@, p@),
{
    let b = chars_of(base);
    let q = chars_of(p);
    if q.len() > 0 && q[0] == '/' {
        return string_of(&q);
    }
    let mut out = b;
    if out.len() > 0 && out[out.len() - 1] != '/' {
        out.push('/');
    }
    push_all(&mut out, &q);
    string_of(&out)
}

/// The configuration file in the app folder.
pub fn config_path(base_dir: &str) -> (r: String)
    ensures
        r@ == join_path(base_dir@, "config.json"@),
{
    join(base_dir, "config.json")
}

/// The library database in the library folder.
pub fn database_path(data_dir: &str) -> (r: String)
    ensures
        r@ == join_path(data_dir@, "library.db"@),
{
    join(data_dir, "library.db")
}

/// The folder of a meeting in the library folder.
pub fn meeting_dir(data_dir: &str, meeting_id: &str) -> (r: String)
    ensures
        r@ == join_path(join_path(data_dir@, "meetings"@), meeting_id@),
{
    let meetings = join(data_dir, "meetings");
    join(meetings.as_str(), meeting_id)
}

/// The audio folder of a meeting.
pub fn audio_dir(data_dir: &str, meeting_id: &str) -> (r: String)
    ensures
        r@ == join_path(join_path(join_path(data_dir@, "meetings"@), meeting_id@), "audio"@),
{
    let dir = meeting_dir(data_dir, meeting_id);
    join(dir.as_str(), "audio")
}

/// The audio folder of a meeting is the "audio" folder in the folder of the meeting: the meeting
/// folder, a '/' unless it ends with one, and "audio".
pub proof fn law_audio_in_meeting_dir(data_dir: Seq<char>, meeting_id: Seq<char>)
    ensures
        ({
            let meeting = join_path(join_path(data_dir, "meetings"@), meeting_id);
            let audio = join_path(join_path(join_path(data_dir, "meetings"@), meeting_id), "audio"@);
            &&& audio == join_path(meeting, "audio"@)
            &&& (meeting.len() == 0 || meeting.last() == '/') ==> audio == meeting + "audio"@
            &&& (meeting.len() > 0 && meeting.last() != '/') ==> audio == meeting + seq!['/'] + "audio"@
        }),
{
    reveal_strlit("audio");
}

/// The Unix socket that the MCP binary and the Chrome native host use, in the app folder.
pub fn socket_path(base_dir: &str) -> (r: String)
    ensures
        r@ == join_path(base_dir@, "tinta.sock"@),
{
    join(base_dir, "tinta.sock")
}

/// The parts of paths of the folders that cloud services synchronize.
pub open spec fn synced_markers() -> Seq<Seq<char>> {
    seq![
        "/library/mobile documents"@,
        "/library/cloudstorage"@,
        "/dropbox"@,
        "/google drive"@,
        "/onedrive"@,
        "/box sync"@,
    ]
}

/// True when the lowercase path holds the mark of a cloud-synced folder.
pub open spec fn is_synced(dir: Seq<char>) -> bool {
    exists|i: int|
        0 <= i < synced_markers().len() && find_from(lowercase(dir), #[trigger] synced_markers()[i], 0)
            is Some
}

/// The library must stay on this Mac.
#[derive(Debug, Clone, Copy, PartialEq, Eq, Structural)]
pub enum PathError {
    /// The folder is in a cloud-synced location.
    CloudSynced,
}

impl PathError {
    pub fn message(&self) -> (r: String)
        ensures
            r@ == "This folder is in a cloud-synced location. Select a folder that stays on this Mac."@,
    {
        string_of(&chars_of("This folder is in a cloud-synced location. Select a folder that stays on this Mac."))
    }
}

/// The library must stay on this Mac, so cloud-synced folders are not allowed.
pub fn check_local(dir: &str) -> (r: Result<(), PathError>)
    ensures
        r is Err <==> is_synced(dir@),
        r matches Err(e) ==> e == PathError::CloudSynced,
{
    let text = lowercase_chars(&chars_of(dir));
    let markers = [
        "/library/mobile documents",
        "/library/cloudstorage",
        "/dropbox",
        "/google drive",
        "/onedrive",
        "/box sync",
    ];
    assert(markers@.map_values(|m: &str| m@) =~= synced_markers());
    let mut i: usize = 0;
    while i < 6
        invariant
            i <= 6,
            markers@.len() == 6,
            markers@.map_values(|m: &str| m@) == synced_markers(),
            text@ == lowercase(dir@),
            forall|j: int| 0 <= j < i ==> find_from(text@, #[trigger] synced_markers()[j], 0) is None,
        decreases 6 - i,
    {
        assert(markers@[i as int]@ == synced_markers()[i as int]);
        if find_from_exec(&text, &chars_of(markers[i]), 0).is_some() {
            return Err(PathError::CloudSynced);
        }
        i = i + 1;
    }
    Ok(())
}

} // verus!
