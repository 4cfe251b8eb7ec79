//! Calendar events from the calendars on this Mac, and the video call links in them.
use vstd::prelude::*;

use crate::text::{
    all_white, all_white_exec, chars_of, find_from, find_from_exec, first_of, first_of_exec, lemma_find_from,
    has_prefix, has_prefix_exec, has_suffix, is_ascii_lower, is_digit, is_white, is_white_exec, lowercase,
    lowercase_chars, occurs_at, occurs_at_exec, opt_int, push_all, skip_of, skip_of_exec,
    slice_vec, string_of, trim_end_of, trim_end_of_exec,
};

verus! {

broadcast use vstd::string::group_string_axioms;

// MARK: URLs in a text

/// The characters that end a URL in a text, besides white space.
pub open spec fn url_stops() -> Seq<char> {
    seq!['<', '>', '"', '\'', '(', ')', '[', ']', '{', '}', '|']
}

/// The punctuation that a URL in a text does not end with.
pub open spec fn url_trailing() -> Seq<char> {
    seq!['.', ',', ';', ':', '!', '?']
}

pub open spec fn is_url_stop(c: char) -> bool {
    is_white(c) || url_stops().contains(c)
}

/// The first index at or after `from` where a URL in `s` ends, or the length of `s`.
pub open spec fn url_end(s: Seq<char>, from: int) -> int
    decreases s.len() - from,
{
    if from < 0 || from >= s.len() {
        s.len() as int
    } else if is_url_stop(s[from]) {
        from
    } else {
        url_end(s, from + 1)
    }
}

/// True when `u` starts with `https://` or `http://`.
pub open spec fn is_web_url(u: Seq<char>) -> bool {
    has_prefix(u, "https://"@) || has_prefix(u, "http://"@)
}

/// The http and https URLs in `s` from index `pos` on, in order. A candidate starts at the
/// next "http" and ends at white space, a quote, or a bracket, without the punctuation at its end.
pub open spec fn urls_from(s: Seq<char>, pos: int) -> Seq<Seq<char>>
    decreases s.len() - pos,
{
    match find_from(s, "http"@, pos) {
        None => seq![],
        Some(start) => {
            let end = url_end(s, start);
            if end <= pos || end > s.len() {
                seq![]
            } else {
                let url = s.subrange(start, trim_end_of(s, url_trailing(), start, end));
                if is_web_url(url) {
                    seq![url] + urls_from(s, end)
                } else {
                    urls_from(s, end)
                }
            }
        },
    }
}

proof fn lemma_url_end(s: Seq<char>, from: int)
    requires
        0 <= from <= s.len(),
    ensures
        from <= url_end(s, from) <= s.len(),
        from < s.len() && !is_url_stop(s[from]) ==> from < url_end(s, from),
    decreases s.len() - from,
{
    if from < s.len() && !is_url_stop(s[from]) {
        lemma_url_end(s, from + 1);
    }
}

fn url_end_exec(s: &[char], from: usize) -> (r: usize)
    requires
        from <= s.len(),
    ensures
        r as int == url_end(s@, from as int),
        from <= r <= s.len(),
{
    let stops = ['<', '>', '"', '\'', '(', ')', '[', ']', '{', '}', '|'];
    assert(stops@ == url_stops());
    let mut i = from;
    while i < s.len()
        invariant
            from <= i <= s.len(),
            stops@ == url_stops(),
            url_end(s@, from as int) == url_end(s@, i as int),
        decreases s.len() - i,
    {
        if is_white_exec(s[i]) || crate::text::contains_char(&stops, s[i]) {
            return i;
        }
        i = i + 1;
    }
    i
}

/// The URLs in a text, as `urls_from` states.
fn urls(s: &[char]) -> (r: Vec<Vec<char>>)
    ensures
        r@.map_values(|u: Vec<char>| u@) == urls_from(s@, 0),
{
    let http = chars_of("http");
    let https_prefix = chars_of("https://");
    let http_prefix = chars_of("http://");
    let trailing = ['.', ',', ';', ':', '!', '?'];
    assert(trailing@ == url_trailing());
    let mut r: Vec<Vec<char>> = Vec::new();
    let mut pos: usize = 0;
    proof {
        reveal_strlit("http");
    }
    loop
        invariant
            pos <= s.len(),
            http@ == "http"@,
            https_prefix@ == "https://"@,
            http_prefix@ == "http://"@,
            trailing@ == url_trailing(),
            urls_from(s@, 0) == r@.map_values(|u: Vec<char>| u@) + urls_from(s@, pos as int),
        decreases s.len() - pos,
    {
        let found = find_from_exec(s, &http, pos);
        match found {
            None => {
                assert(r@.map_values(|u: Vec<char>| u@) + urls_from(s@, pos as int) =~= r@.map_values(
                    |u: Vec<char>| u@,
                ));
                return r;
            },
            Some(start) => {
                proof {
                    lemma_find_from(s@, http@, pos as int);
                    reveal_strlit("http");
                    assert("http"@[0] == 'h');
                    assert(s@[start as int] == s@.subrange(start as int, start + 4)[0]);
                    lemma_url_end(s@, start as int);
                }
                let end = url_end_exec(s, start);
                let trimmed = trim_end_of_exec(s, &trailing, start, end);
                let url = slice_vec(s, start, trimmed);
                let ghost old_r = r@;
                if occurs_at_exec(&url, &https_prefix, 0) || occurs_at_exec(&url, &http_prefix, 0) {
                    r.push(url);
                    assert(r@.map_values(|u: Vec<char>| u@) =~= old_r.map_values(|u: Vec<char>| u@)
                        + seq![s@.subrange(start as int, trimmed as int)]);
                } else {
                }
                pos = end;
            },
        }
    }
}

} // verus!

verus! {

// MARK: The parts of a URL

/// The index after the `https://` or `http://` at the start of `u`.
pub open spec fn body_start(u: Seq<char>) -> Option<int> {
    if has_prefix(u, "https://"@) {
        Some("https://"@.len() as int)
    } else if has_prefix(u, "http://"@) {
        Some("http://"@.len() as int)
    } else {
        None
    }
}

/// The lowercase host, the path, and the query of an http or https URL.
/// The host ends at the first '/', '?', or '#'. The fragment after '#' is not part of the path or the query.
pub open spec fn url_parts(u: Seq<char>) -> Option<(Seq<char>, Seq<char>, Seq<char>)> {
    match body_start(u) {
        None => None,
        Some(b) => {
            let host_end = first_of(u, "/?#"@, b);
            let fragment = first_of(u, "#"@, host_end);
            let question = first_of(u, "?"@, host_end);
            let host = lowercase(u.subrange(b, host_end));
            if question < fragment {
                Some((host, u.subrange(host_end, question), u.subrange(question + 1, fragment)))
            } else {
                Some((host, u.subrange(host_end, fragment), seq![]))
            }
        },
    }
}

fn split_url(u: &[char]) -> (r: Option<(Vec<char>, Vec<char>, Vec<char>)>)
    ensures
        match r {
            Some((h, p, q)) => url_parts(u@) == Some((h@, p@, q@)),
            None => url_parts(u@) is None,
        },
{
    let https = chars_of("https://");
    let http = chars_of("http://");
    let b = if has_prefix_exec(u, &https) {
        https.len()
    } else if has_prefix_exec(u, &http) {
        http.len()
    } else {
        return None;
    };
    let host_end = first_of_exec(u, &chars_of("/?#"), b);
    proof {
        crate::text::lemma_first_of(u@, "/?#"@, b as int);
    }
    let fragment = first_of_exec(u, &chars_of("#"), host_end);
    let question = first_of_exec(u, &chars_of("?"), host_end);
    proof {
        crate::text::lemma_first_of(u@, "#"@, host_end as int);
        crate::text::lemma_first_of(u@, "?"@, host_end as int);
    }
    let host = lowercase_chars(&slice_vec(u, b, host_end));
    if question < fragment {
        Some((host, slice_vec(u, host_end, question), slice_vec(u, question + 1, fragment)))
    } else {
        let empty: Vec<char> = Vec::new();
        proof {
            assert(empty@ =~= seq![]);
        }
        Some((host, slice_vec(u, host_end, fragment), empty))
    }
}

// MARK: Video call links

#[derive(Debug, Clone, Copy, PartialEq, Eq, Structural)]
pub enum Platform {
    Meet,
    Zoom,
    Teams,
    Webex,
}

impl Platform {
    pub open spec fn spec_name(self) -> Seq<char> {
        match self {
            Platform::Meet => "Google Meet"@,
            Platform::Zoom => "Zoom"@,
            Platform::Teams => "Microsoft Teams"@,
            Platform::Webex => "Webex"@,
        }
    }

    pub fn name(self) -> (r: &'static str)
        ensures
            r@ == self.spec_name(),
    {
        match self {
            Platform::Meet => "Google Meet",
            Platform::Zoom => "Zoom",
            Platform::Teams => "Microsoft Teams",
            Platform::Webex => "Webex",
        }
    }
}

/// A video call link: the URL, the platform, and the Meet meeting code.
pub type LinkView = (Seq<char>, Platform, Option<Seq<char>>);

/// True when `host` is `domain` or a subdomain of it.
pub open spec fn under(host: Seq<char>, domain: Seq<char>) -> bool {
    host == domain || has_suffix(host, "."@ + domain)
}

/// The first path segment, after the leading slashes, in lowercase.
pub open spec fn first_segment(path: Seq<char>) -> Seq<char> {
    let start = skip_of(path, "/"@, 0, path.len() as int);
    lowercase(path.subrange(start, first_of(path, "/"@, start)))
}

/// A Meet meeting code has three, four, and three lowercase letters, such as "abc-defg-hij".
pub open spec fn is_meet_code(c: Seq<char>) -> bool {
    &&& c.len() == 12
    &&& c[3] == '-'
    &&& c[8] == '-'
    &&& forall|i: int| 0 <= i < 12 && i != 3 && i != 8 ==> is_ascii_lower(#[trigger] c[i])
}

pub open spec fn is_zoom_join(path: Seq<char>) -> bool {
    has_prefix(path, "/j/"@) || has_prefix(path, "/my/"@) || has_prefix(path, "/w/"@) || has_prefix(
        path,
        "/s/"@,
    )
}

pub open spec fn is_teams_join(path: Seq<char>) -> bool {
    has_prefix(path, "/l/meetup-join/"@) || has_prefix(path, "/meet/"@)
}

/// The call link that a URL is, if it is one.
pub open spec fn classify_url(u: Seq<char>) -> Option<LinkView> {
    match url_parts(u) {
        None => None,
        Some((host, path, _query)) => {
            if host == "meet.google.com"@ {
                let code = first_segment(path);
                if is_meet_code(code) {
                    Some((u, Platform::Meet, Some(code)))
                } else {
                    None
                }
            } else if under(host, "zoom.us"@) || under(host, "zoomgov.com"@) {
                if is_zoom_join(path) {
                    Some((u, Platform::Zoom, None))
                } else {
                    None
                }
            } else if host == "teams.microsoft.com"@ || host == "teams.live.com"@ {
                if is_teams_join(path) {
                    Some((u, Platform::Teams, None))
                } else {
                    None
                }
            } else if under(host, "webex.com"@) {
                Some((u, Platform::Webex, None))
            } else {
                None
            }
        },
    }
}

fn is_meet_code_exec(c: &[char]) -> (r: bool)
    ensures
        r == is_meet_code(c@),
{
    if c.len() != 12 || c[3] != '-' || c[8] != '-' {
        return false;
    }
    let mut i: usize = 0;
    while i < 12
        invariant
            c.len() == 12,
            i <= 12,
            forall|j: int| 0 <= j < i && j != 3 && j != 8 ==> is_ascii_lower(#[trigger] c@[j]),
        decreases 12 - i,
    {
        if i != 3 && i != 8 && !('a' <= c[i] && c[i] <= 'z') {
            return false;
        }
        i = i + 1;
    }
    true
}

fn under_exec(host: &[char], domain: &str) -> (r: bool)
    ensures
        r == under(host@, domain@),
{
    let d = chars_of(domain);
    if crate::text::eq_chars(host, &d) {
        return true;
    }
    let dotted = crate::text::concat(&chars_of("."), &d);
    crate::text::has_suffix_exec(host, &dotted)
}

fn is_str(a: &[char], b: &str) -> (r: bool)
    ensures
        r == (a@ == b@),
{
    crate::text::eq_chars(a, &chars_of(b))
}

fn starts_with_str(a: &[char], p: &str) -> (r: bool)
    ensures
        r == has_prefix(a@, p@),
{
    crate::text::has_prefix_exec(a, &chars_of(p))
}

/// The call link that the URL `u` is, as `classify_url` states.
fn classify(u: &[char]) -> (r: Option<Link>)
    ensures
        match r {
            Some(l) => classify_url(u@) == Some(l.view()),
            None => classify_url(u@) is None,
        },
{
    let (host, path, _query) = match split_url(u) {
        Some(parts) => parts,
        None => return None,
    };
    if is_str(&host, "meet.google.com") {
        let slash = chars_of("/");
        let start = skip_of_exec(&path, &slash, 0, path.len());
        let end = first_of_exec(&path, &slash, start);
        proof {
            crate::text::lemma_first_of(path@, "/"@, start as int);
        }
        let code = lowercase_chars(&slice_vec(&path, start, end));
        if is_meet_code_exec(&code) {
            return Some(Link { url: string_of(u), platform: Platform::Meet, code: Some(string_of(&code)) });
        }
        return None;
    }
    if under_exec(&host, "zoom.us") || under_exec(&host, "zoomgov.com") {
        if starts_with_str(&path, "/j/") || starts_with_str(&path, "/my/") || starts_with_str(&path, "/w/")
            || starts_with_str(&path, "/s/") {
            return Some(Link { url: string_of(u), platform: Platform::Zoom, code: None });
        }
        return None;
    }
    if is_str(&host, "teams.microsoft.com") || is_str(&host, "teams.live.com") {
        if starts_with_str(&path, "/l/meetup-join/") || starts_with_str(&path, "/meet/") {
            return Some(Link { url: string_of(u), platform: Platform::Teams, code: None });
        }
        return None;
    }
    if under_exec(&host, "webex.com") {
        return Some(Link { url: string_of(u), platform: Platform::Webex, code: None });
    }
    None
}

#[derive(Debug, Clone, PartialEq, Eq)]
pub struct Link {
    pub url: String,
    pub platform: Platform,
    /// The Meet meeting code, such as "abc-defg-hij".
    pub code: Option<String>,
}

impl View for Link {
    type V = LinkView;

    open spec fn view(&self) -> LinkView {
        (self.url@, self.platform, self.code.deep_view())
    }
}

} // verus!

verus! {

/// The value of the first `pwd=` parameter in the query `q`, from index `from` on.
pub open spec fn pwd_param(q: Seq<char>, from: int) -> Option<Seq<char>>
    decreases q.len() - from,
{
    if from < 0 || from > q.len() {
        None
    } else {
        let end = first_of(q, "&"@, from);
        let part = q.subrange(from, end);
        if has_prefix(part, "pwd="@) {
            Some(part.skip("pwd="@.len() as int))
        } else if from <= end < q.len() {
            pwd_param(q, end + 1)
        } else {
            None
        }
    }
}

/// True when every character of `s` is an ASCII digit.
pub open spec fn all_digits(s: Seq<char>) -> bool {
    forall|i: int| 0 <= i < s.len() ==> is_digit(#[trigger] s[i])
}

/// The Zoom desktop link of a Zoom join URL with the host, path, and query given.
pub open spec fn zoom_app_url(host: Seq<char>, path: Seq<char>, query: Seq<char>) -> Option<Seq<char>> {
    if !has_prefix(path, "/j/"@) {
        None
    } else {
        let start = "/j/"@.len() as int;
        let number = path.subrange(start, first_of(path, "/"@, start));
        if number.len() == 0 || !all_digits(number) {
            None
        } else {
            let pwd = match pwd_param(query, 0) {
                Some(p) => "&pwd="@ + p,
                None => seq![],
            };
            Some("zoommtg://"@ + host + "/join?action=join&confno="@ + number + pwd)
        }
    }
}

/// The Teams desktop link: `msteams:` and the URL from the first '/' after "://".
pub open spec fn teams_app_url(u: Seq<char>) -> Option<Seq<char>> {
    match find_from(u, "://"@, 0) {
        None => None,
        Some(i) => {
            let slash = first_of(u, "/"@, i + "://"@.len());
            if slash < u.len() {
                Some("msteams:"@ + u.skip(slash))
            } else {
                None
            }
        },
    }
}

/// The link for the desktop app of the platform of a call link.
pub open spec fn app_url_of(l: LinkView) -> Option<Seq<char>> {
    match url_parts(l.0) {
        None => None,
        Some((host, path, query)) => match l.1 {
            Platform::Zoom => zoom_app_url(host, path, query),
            Platform::Teams => teams_app_url(l.0),
            _ => None,
        },
    }
}

pub open spec fn app_bundle_of(p: Platform) -> Option<Seq<char>> {
    match p {
        Platform::Zoom => Some("us.zoom.xos"@),
        Platform::Teams => Some("com.microsoft.teams2"@),
        _ => None,
    }
}

proof fn lemma_first_of_at(s: Seq<char>, set: Seq<char>, from: int, k: int)
    requires
        0 <= from <= k <= s.len(),
        forall|i: int| from <= i < k ==> !set.contains(#[trigger] s[i]),
        k < s.len() ==> set.contains(s[k]),
    ensures
        first_of(s, set, from) == k,
    decreases k - from,
{
    if from < k {
        lemma_first_of_at(s, set, from + 1, k);
    }
}

proof fn lemma_in_set(set: Seq<char>, x: char)
    requires
        set.contains(x),
    ensures
        exists|j: int| 0 <= j < set.len() && set[j] == x,
{
}

/// The Zoom desktop link of a Zoom join link `https://<host>/j/<number>`, with or without a query:
/// it opens the same meeting number on the same host, it comes whether or not the query has a
/// password, and it carries the password when the query is `pwd=<password>`.
pub proof fn law_zoom_app_link(h: Seq<char>, n: Seq<char>, tail: Seq<char>, v: Seq<char>, code: Option<Seq<char>>)
    requires
        forall|i: int| 0 <= i < h.len() ==> #[trigger] h[i] != '/' && h[i] != '?' && h[i] != '#',
        n.len() > 0,
        forall|i: int| 0 <= i < n.len() ==> is_digit(#[trigger] n[i]),
        tail.len() == 0 || tail[0] == '?',
        forall|i: int| 0 <= i < tail.len() ==> #[trigger] tail[i] != '#',
    ensures
        ({
            let u = "https://"@ + h + "/j/"@ + n + tail;
            let base = "zoommtg://"@ + lowercase(h) + "/join?action=join&confno="@ + n;
            &&& app_url_of((u, Platform::Zoom, code)) matches Some(x) && has_prefix(x, base)
            &&& tail.len() == 0 ==> app_url_of((u, Platform::Zoom, code)) == Some(base)
            &&& (tail == "?pwd="@ + v && forall|i: int| 0 <= i < v.len() ==> #[trigger] v[i] != '&' && v[i] != '#')
                ==> app_url_of((u, Platform::Zoom, code)) == Some(base + "&pwd="@ + v)
        }),
{
    reveal_strlit("https://");
    reveal_strlit("http://");
    reveal_strlit("/j/");
    reveal_strlit("/?#");
    reveal_strlit("#");
    reveal_strlit("?");
    reveal_strlit("/");
    reveal_strlit("&");
    reveal_strlit("pwd=");
    reveal_strlit("?pwd=");
    let u = "https://"@ + h + "/j/"@ + n + tail;
    let he: int = 8 + h.len() as int;
    let pe: int = he + 3 + n.len();
    assert(u.len() == pe + tail.len());
    assert(u.take(8) =~= "https://"@);
    assert(body_start(u) == Some(8int));
    assert forall|i: int| 0 <= i < h.len() implies u[8 + i] == h[i] by {}
    assert forall|i: int| 0 <= i < n.len() implies u[he + 3 + i] == n[i] by {}
    assert forall|i: int| 0 <= i < tail.len() implies u[pe + i] == tail[i] by {}
    assert(u[he] == '/' && u[he + 1] == 'j' && u[he + 2] == '/');
    // The end of the host.
    assert forall|i: int| 8 <= i < he implies !"/?#"@.contains(#[trigger] u[i]) by {
        if "/?#"@.contains(u[i]) {
            lemma_in_set("/?#"@, u[i]);
            assert(h[i - 8] == u[i]);
        }
    }
    assert("/?#"@.contains(u[he])) by {
        assert("/?#"@[0] == u[he]);
    }
    lemma_first_of_at(u, "/?#"@, 8, he);
    // No fragment.
    assert forall|i: int| he <= i < u.len() implies !"#"@.contains(#[trigger] u[i]) by {
        if "#"@.contains(u[i]) {
            lemma_in_set("#"@, u[i]);
            if i >= pe {
                assert(tail[i - pe] == u[i]);
            } else if i >= he + 3 {
                assert(n[i - he - 3] == u[i]);
                assert(is_digit(n[i - he - 3]));
            }
        }
    }
    lemma_first_of_at(u, "#"@, he, u.len() as int);
    // The query starts at the '?' of the tail.
    let q = if tail.len() == 0 {
        u.len() as int
    } else {
        pe
    };
    assert forall|i: int| he <= i < q implies !"?"@.contains(#[trigger] u[i]) by {
        if "?"@.contains(u[i]) {
            lemma_in_set("?"@, u[i]);
            if i >= he + 3 {
                assert(n[i - he - 3] == u[i]);
                assert(is_digit(n[i - he - 3]));
            }
        }
    }
    if tail.len() > 0 {
        assert("?"@.contains(u[pe])) by {
            assert("?"@[0] == u[pe]);
        }
    }
    lemma_first_of_at(u, "?"@, he, q);
    let path = "/j/"@ + n;
    assert(u.subrange(he, pe) =~= path);
    assert(u.subrange(8, he) =~= h);
    let query = if tail.len() == 0 {
        Seq::<char>::empty()
    } else {
        tail.drop_first()
    };
    if tail.len() == 0 {
        assert(u.subrange(he, u.len() as int) =~= path);
    } else {
        assert(u.subrange(pe + 1, u.len() as int) =~= query);
    }
    assert(url_parts(u) == Some((lowercase(h), path, query)));
    // The meeting number.
    assert(path.take(3) =~= "/j/"@);
    assert forall|i: int| 3 <= i < path.len() implies !"/"@.contains(#[trigger] path[i]) by {
        if "/"@.contains(path[i]) {
            lemma_in_set("/"@, path[i]);
            assert(n[i - 3] == path[i]);
            assert(is_digit(n[i - 3]));
        }
    }
    lemma_first_of_at(path, "/"@, 3, path.len() as int);
    assert(path.subrange(3, path.len() as int) =~= n);
    assert(all_digits(n));
    let base = "zoommtg://"@ + lowercase(h) + "/join?action=join&confno="@ + n;
    let pwd = match pwd_param(query, 0) {
        Some(p) => "&pwd="@ + p,
        None => seq![],
    };
    assert(zoom_app_url(lowercase(h), path, query) == Some(base + pwd));
    assert((base + pwd).take(base.len() as int) =~= base);
    if tail.len() == 0 {
        lemma_first_of_at(query, "&"@, 0, 0);
        assert(pwd_param(query, 0) is None);
        assert(base + pwd =~= base);
    }
    if tail == "?pwd="@ + v && forall|i: int| 0 <= i < v.len() ==> #[trigger] v[i] != '&' && v[i] != '#' {
        assert(query =~= "pwd="@ + v);
        assert forall|i: int| 0 <= i < query.len() implies !"&"@.contains(#[trigger] query[i]) by {
            if "&"@.contains(query[i]) {
                lemma_in_set("&"@, query[i]);
                if i >= 4 {
                    assert(v[i - 4] == query[i]);
                }
            }
        }
        lemma_first_of_at(query, "&"@, 0, query.len() as int);
        assert(query.subrange(0, query.len() as int) =~= query);
        assert(query.take(4) =~= "pwd="@);
        assert(query.skip(4) =~= v);
        assert(pwd_param(query, 0) == Some(v));
    }
}

proof fn lemma_find_from_at(s: Seq<char>, pat: Seq<char>, from: int, k: int)
    requires
        0 <= from <= k,
        pat.len() > 0,
        occurs_at(s, pat, k),
        forall|i: int| from <= i < k ==> !occurs_at(s, pat, i),
    ensures
        find_from(s, pat, from) == Some(k),
    decreases k - from,
{
    if from < k {
        lemma_find_from_at(s, pat, from + 1, k);
    }
}

/// The Teams desktop link of `https://<host>/<rest>` is `msteams:/<rest>`: the same path and query
/// in the Teams app. A Google Meet or Webex link has no desktop link: it opens in Chrome.
pub proof fn law_teams_app_link(h: Seq<char>, rest: Seq<char>, u: Seq<char>, code: Option<Seq<char>>)
    requires
        forall|i: int| 0 <= i < h.len() ==> #[trigger] h[i] != '/',
    ensures
        app_url_of(("https://"@ + h + "/"@ + rest, Platform::Teams, code)) == Some("msteams:"@ + "/"@ + rest),
        app_url_of((u, Platform::Meet, code)) is None,
        app_url_of((u, Platform::Webex, code)) is None,
{
    reveal_strlit("https://");
    reveal_strlit("http://");
    reveal_strlit("://");
    reveal_strlit("/");
    let t = "https://"@ + h + "/"@ + rest;
    let he: int = 8 + h.len() as int;
    assert(t.take(8) =~= "https://"@);
    assert(body_start(t) == Some(8int));
    assert(t.subrange(5, 8) =~= "://"@);
    assert forall|i: int| 0 <= i < 5 implies !occurs_at(t, "://"@, i) by {
        assert(t[i] != ':');
        if occurs_at(t, "://"@, i) {
            assert(t.subrange(i, i + 3)[0] == t[i]);
        }
    }
    lemma_find_from_at(t, "://"@, 0, 5);
    assert forall|i: int| 8 <= i < he implies !"/"@.contains(#[trigger] t[i]) by {
        if "/"@.contains(t[i]) {
            lemma_in_set("/"@, t[i]);
            assert(h[i - 8] == t[i]);
        }
    }
    assert("/"@.contains(t[he])) by {
        assert("/"@[0] == t[he]);
    }
    lemma_first_of_at(t, "/"@, 8, he);
    assert(t.skip(he) =~= "/"@ + rest);
}

fn pwd_param_exec(q: &[char]) -> (r: Option<Vec<char>>)
    ensures
        match r {
            Some(p) => pwd_param(q@, 0) == Some(p@),
            None => pwd_param(q@, 0) is None,
        },
{
    let amp = chars_of("&");
    let key = chars_of("pwd=");
    let mut from: usize = 0;
    loop
        invariant
            from <= q.len(),
            amp@ == "&"@,
            key@ == "pwd="@,
            pwd_param(q@, 0) == pwd_param(q@, from as int),
        decreases q.len() - from,
    {
        let end = first_of_exec(q, &amp, from);
        proof {
            crate::text::lemma_first_of(q@, "&"@, from as int);
        }
        let part = slice_vec(q, from, end);
        if has_prefix_exec(&part, &key) {
            return Some(slice_vec(&part, key.len(), part.len()));
        }
        if end < q.len() {
            from = end + 1;
        } else {
            return None;
        }
    }
}

fn all_digits_exec(s: &[char]) -> (r: bool)
    ensures
        r == all_digits(s@),
{
    let mut i: usize = 0;
    while i < s.len()
        invariant
            i <= s.len(),
            forall|j: int| 0 <= j < i ==> is_digit(#[trigger] s@[j]),
        decreases s.len() - i,
    {
        if !('0' <= s[i] && s[i] <= '9') {
            return false;
        }
        i = i + 1;
    }
    true
}

impl Link {
    /// The link for the desktop app of the platform, when the platform has one.
    /// A Meet or Webex call opens in Chrome.
    pub fn app_url(&self) -> (r: Option<String>)
        ensures
            r.deep_view() == app_url_of(self@),
    {
        let u = chars_of(self.url.as_str());
        let (host, path, query) = match split_url(&u) {
            Some(parts) => parts,
            None => return None,
        };
        match self.platform {
            Platform::Zoom => {
                let prefix = chars_of("/j/");
                if !has_prefix_exec(&path, &prefix) {
                    return None;
                }
                let end = first_of_exec(&path, &chars_of("/"), prefix.len());
                proof {
                    reveal_strlit("/j/");
                    crate::text::lemma_first_of(path@, "/"@, 3);
                }
                let number = slice_vec(&path, prefix.len(), end);
                if number.len() == 0 || !all_digits_exec(&number) {
                    return None;
                }
                let mut out = chars_of("zoommtg://");
                push_all(&mut out, &host);
                push_all(&mut out, &chars_of("/join?action=join&confno="));
                push_all(&mut out, &number);
                let ghost base = out@;
                match pwd_param_exec(&query) {
                    Some(p) => {
                        push_all(&mut out, &chars_of("&pwd="));
                        push_all(&mut out, &p);
                        assert(out@ =~= base + ("&pwd="@ + p@));
                    },
                    None => {
                        assert(out@ =~= base + seq![]);
                    },
                }
                Some(string_of(&out))
            },
            Platform::Teams => {
                let sep = chars_of("://");
                let i = match find_from_exec(&u, &sep, 0) {
                    Some(i) => i,
                    None => return None,
                };
                proof {
                    lemma_find_from(u@, "://"@, 0);
                    reveal_strlit("://");
                    assert(sep@.len() == 3);
                    assert(i + sep@.len() <= u@.len());
                }
                let n = sep.len();
                assert(i + n <= u.len());
                let slash = first_of_exec(&u, &chars_of("/"), i + n);
                if slash < u.len() {
                    let mut out = chars_of("msteams:");
                    push_all(&mut out, &slice_vec(&u, slash, u.len()));
                    Some(string_of(&out))
                } else {
                    None
                }
            },
            _ => None,
        }
    }

    /// The bundle ID of the desktop app that opens `app_url`. It is also the recording source.
    pub fn app_bundle(&self) -> (r: Option<&'static str>)
        ensures
            match r {
                Some(s) => app_bundle_of(self.platform) == Some(s@),
                None => app_bundle_of(self.platform) is None,
            },
    {
        match self.platform {
            Platform::Zoom => Some("us.zoom.xos"),
            Platform::Teams => Some("com.microsoft.teams2"),
            _ => None,
        }
    }
}

} // verus!

verus! {

/// The first call link among the URLs `us`.
pub open spec fn first_link(us: Seq<Seq<char>>) -> Option<LinkView>
    decreases us.len(),
{
    if us.len() == 0 {
        None
    } else {
        match classify_url(us[0]) {
            Some(l) => Some(l),
            None => first_link(us.drop_first()),
        }
    }
}

/// The first call link in a text.
pub open spec fn link_in_text(t: Seq<char>) -> Option<LinkView> {
    first_link(urls_from(t, 0))
}

/// The first call link in the texts, in order: the first text with a link gives it.
pub open spec fn link_in_texts(ts: Seq<Seq<char>>) -> Option<LinkView>
    decreases ts.len(),
{
    if ts.len() == 0 {
        None
    } else {
        match link_in_text(ts[0]) {
            Some(l) => Some(l),
            None => link_in_texts(ts.drop_first()),
        }
    }
}

pub open spec fn opt_link_view(l: Option<Link>) -> Option<LinkView> {
    match l {
        Some(l) => Some(l@),
        None => None,
    }
}

/// The first call link in a text, as `link_in_text` states.
fn link_in_chars(t: &[char]) -> (r: Option<Link>)
    ensures
        opt_link_view(r) == link_in_text(t@),
{
    let us = urls(t);
    let ghost views = us@.map_values(|u: Vec<char>| u@);
    let mut i: usize = 0;
    assert(views.skip(0) =~= views);
    while i < us.len()
        invariant
            i <= us.len(),
            views == us@.map_values(|u: Vec<char>| u@),
            views == urls_from(t@, 0),
            first_link(views) == first_link(views.skip(i as int)),
        decreases us.len() - i,
    {
        assert(views.skip(i as int)[0] == us@[i as int]@);
        assert(views.skip(i as int).drop_first() =~= views.skip(i + 1));
        if let Some(l) = classify(&us[i]) {
            return Some(l);
        }
        i = i + 1;
    }
    assert(views.skip(i as int) =~= seq![]);
    None
}

/// The first video call link in the texts, in order.
pub fn find_link(texts: &[&str]) -> (r: Option<Link>)
    ensures
        opt_link_view(r) == link_in_texts(texts@.map_values(|t: &str| t@)),
{
    let ghost views = texts@.map_values(|t: &str| t@);
    let mut i: usize = 0;
    assert(views.skip(0) =~= views);
    while i < texts.len()
        invariant
            i <= texts.len(),
            views == texts@.map_values(|t: &str| t@),
            link_in_texts(views) == link_in_texts(views.skip(i as int)),
        decreases texts.len() - i,
    {
        assert(views.skip(i as int)[0] == texts@[i as int]@);
        assert(views.skip(i as int).drop_first() =~= views.skip(i + 1));
        if let Some(l) = link_in_chars(&chars_of(texts[i])) {
            return Some(l);
        }
        i = i + 1;
    }
    assert(views.skip(i as int) =~= seq![]);
    None
}


/// True when `u` stands in `t` at some index.
pub open spec fn is_part_of(u: Seq<char>, t: Seq<char>) -> bool {
    exists|i: int| 0 <= i && i + u.len() <= t.len() && #[trigger] t.subrange(i, i + u.len()) == u
}

proof fn lemma_trim_end_bounds(s: Seq<char>, set: Seq<char>, from: int, to: int)
    requires
        0 <= from <= to <= s.len(),
    ensures
        from <= trim_end_of(s, set, from, to) <= to,
    decreases to - from,
{
    if to > from && set.contains(s[to - 1]) {
        lemma_trim_end_bounds(s, set, from, to - 1);
    }
}

/// Each URL that `urls_from` finds is an http or https URL that stands in the text.
proof fn lemma_urls_in_text(s: Seq<char>, pos: int)
    ensures
        forall|k: int|
            0 <= k < urls_from(s, pos).len() ==> is_web_url(#[trigger] urls_from(s, pos)[k]) && is_part_of(
                urls_from(s, pos)[k],
                s,
            ),
    decreases s.len() - pos,
{
    lemma_find_from(s, "http"@, pos);
    match find_from(s, "http"@, pos) {
        None => {},
        Some(start) => {
            lemma_url_end(s, start);
            let end = url_end(s, start);
            if !(end <= pos || end > s.len()) {
                let t = trim_end_of(s, url_trailing(), start, end);
                lemma_trim_end_bounds(s, url_trailing(), start, end);
                let url = s.subrange(start, t);
                lemma_urls_in_text(s, end);
                let rest = urls_from(s, end);
                assert(s.subrange(start, start + url.len()) == url);
                if is_web_url(url) {
                    assert forall|k: int| 0 <= k < urls_from(s, pos).len() implies is_web_url(
                        #[trigger] urls_from(s, pos)[k],
                    ) && is_part_of(urls_from(s, pos)[k], s) by {
                        if k > 0 {
                            assert(urls_from(s, pos)[k] == rest[k - 1]);
                        }
                    }
                }
            }
        },
    }
}

/// A link that `classify_url` finds is the URL itself, an http or https URL, and it has a meeting
/// code exactly when it is a Meet link; the code has three, four, and three lowercase letters.
proof fn lemma_classified(u: Seq<char>)
    ensures
        classify_url(u) matches Some(l) ==> {
            &&& l.0 == u
            &&& is_web_url(u)
            &&& (l.2 is Some <==> l.1 == Platform::Meet)
            &&& (l.2 matches Some(c) ==> is_meet_code(c))
        },
{
}

proof fn lemma_first_link(us: Seq<Seq<char>>)
    ensures
        first_link(us) matches Some(l) ==> exists|k: int| 0 <= k < us.len() && classify_url(#[trigger] us[k]) == Some(l),
    decreases us.len(),
{
    if us.len() > 0 {
        lemma_first_link(us.drop_first());
        if classify_url(us[0]) is None {
            if first_link(us.drop_first()) is Some {
                let k = choose|k: int| 0 <= k < us.drop_first().len() && classify_url(#[trigger] us.drop_first()[k])
                    == first_link(us.drop_first());
                assert(us[k + 1] == us.drop_first()[k]);
            }
        }
    }
}

/// The link in a text is an http or https URL that stands in the text, with a meeting code exactly
/// when it is a Meet link.
proof fn lemma_link_in_text(t: Seq<char>)
    ensures
        link_in_text(t) matches Some(l) ==> {
            &&& is_web_url(l.0)
            &&& is_part_of(l.0, t)
            &&& (l.2 is Some <==> l.1 == Platform::Meet)
            &&& (l.2 matches Some(c) ==> is_meet_code(c))
        },
{
    let us = urls_from(t, 0);
    lemma_first_link(us);
    lemma_urls_in_text(t, 0);
    if let Some(l) = link_in_text(t) {
        let k = choose|k: int| 0 <= k < us.len() && classify_url(#[trigger] us[k]) == Some(l);
        lemma_classified(us[k]);
    }
}

/// The link of an event comes from the first of its texts that holds one, and it is an http or
/// https URL that stands in that text. It has a meeting code exactly when it is a Google Meet link,
/// and the code has three, four, and three lowercase letters joined by '-'.
pub proof fn law_found_links(ts: Seq<Seq<char>>)
    ensures
        link_in_texts(ts) matches Some(l) ==> exists|k: int|
            0 <= k < ts.len() && link_in_text(#[trigger] ts[k]) == Some(l) && (forall|j: int|
                0 <= j < k ==> link_in_text(#[trigger] ts[j]) is None) && is_web_url(l.0) && is_part_of(
                l.0,
                ts[k],
            ) && (l.2 is Some <==> l.1 == Platform::Meet) && (l.2 matches Some(c) ==> is_meet_code(c)),
    decreases ts.len(),
{
    if ts.len() > 0 {
        law_found_links(ts.drop_first());
        lemma_link_in_text(ts[0]);
        if link_in_text(ts[0]) is None {
            if let Some(l) = link_in_texts(ts.drop_first()) {
                let d = ts.drop_first();
                let k = choose|k: int|
                    0 <= k < d.len() && link_in_text(#[trigger] d[k]) == Some(l) && (forall|j: int|
                        0 <= j < k ==> link_in_text(#[trigger] d[j]) is None) && is_web_url(l.0) && is_part_of(
                        l.0,
                        d[k],
                    ) && (l.2 is Some <==> l.1 == Platform::Meet) && (l.2 matches Some(c) ==> is_meet_code(c));
                assert(ts[k + 1] == d[k]);
                assert forall|j: int| 0 <= j < k + 1 implies link_in_text(#[trigger] ts[j]) is None by {
                    if j > 0 {
                        assert(ts[j] == d[j - 1]);
                    }
                }
            }
        }
    }
}

} // verus!

verus! {

// MARK: Calendars and events

/// The prefix of the `external_id` of a meeting that the user created from a calendar event.
pub const EXTERNAL_PREFIX: &'static str = "calendar";

/// `calendar:` followed by the event ID.
pub fn external_id(event_id: &str) -> (r: String)
    ensures
        r@ == EXTERNAL_PREFIX@ + ":"@ + event_id@,
{
    let mut v = chars_of(EXTERNAL_PREFIX);
    push_all(&mut v, &chars_of(":"));
    push_all(&mut v, &chars_of(event_id));
    string_of(&v)
}

pub fn copy_opt_string(s: &Option<String>) -> (r: Option<String>)
    ensures
        r.deep_view() == s.deep_view(),
{
    match s {
        Some(v) => Some(v.clone()),
        None => None,
    }
}

#[derive(Debug, Clone, Default)]
pub struct Calendar {
    pub id: String,
    pub title: String,
    pub color: String,
    /// The account of the calendar, such as the Google account.
    pub account: String,
    /// True when the user hides the calendar in Tinta. The engine does not send this field.
    pub hidden: bool,
}

impl View for Calendar {
    type V = (Seq<char>, Seq<char>, Seq<char>, Seq<char>, bool);

    open spec fn view(&self) -> Self::V {
        (self.id@, self.title@, self.color@, self.account@, self.hidden)
    }
}

#[derive(Debug, Clone)]
pub struct Attendee {
    pub name: String,
    pub email: String,
    pub is_self: bool,
    /// "accepted", "declined", "tentative", "pending", or "unknown".
    pub status: String,
}

impl View for Attendee {
    type V = (Seq<char>, Seq<char>, bool, Seq<char>);

    open spec fn view(&self) -> Self::V {
        (self.name@, self.email@, self.is_self, self.status@)
    }
}

impl Attendee {
    /// The name, or the email address when the calendar has no name.
    pub fn label(&self) -> (r: &str)
        ensures
            r@ == if all_white(self.name@) {
                self.email@
            } else {
                self.name@
            },
    {
        if all_white_exec(&chars_of(self.name.as_str())) {
            self.email.as_str()
        } else {
            self.name.as_str()
        }
    }

    fn copied(&self) -> (r: Attendee)
        ensures
            r@ == self@,
    {
        Attendee {
            name: self.name.clone(),
            email: self.email.clone(),
            is_self: self.is_self,
            status: self.status.clone(),
        }
    }
}

pub type EventView = (
    Seq<char>,
    Seq<char>,
    i64,
    i64,
    Seq<char>,
    Option<Seq<char>>,
    Option<Seq<char>>,
    Option<Seq<char>>,
    Seq<(Seq<char>, Seq<char>, bool, Seq<char>)>,
    Option<LinkView>,
    Option<Seq<char>>,
);

#[derive(Debug, Clone)]
pub struct Event {
    /// The event and the original date of the occurrence. A repeating event has one ID for each occurrence.
    pub id: String,
    pub title: String,
    pub start: i64,
    pub end: i64,
    pub calendar_id: String,
    pub location: Option<String>,
    pub url: Option<String>,
    pub notes: Option<String>,
    pub attendees: Vec<Attendee>,
    /// The video call link. `Snapshot::parse` finds it in the URL, the location, and the notes.
    pub link: Option<Link>,
    /// The Tinta meeting of this event, when the user created one.
    pub meeting_id: Option<String>,
}

impl View for Event {
    type V = EventView;

    open spec fn view(&self) -> EventView {
        (
            self.id@,
            self.title@,
            self.start,
            self.end,
            self.calendar_id@,
            self.location.deep_view(),
            self.url.deep_view(),
            self.notes.deep_view(),
            self.attendees@.map_values(|a: Attendee| a@),
            opt_link_view(self.link),
            self.meeting_id.deep_view(),
        )
    }
}

/// The event with another call link.
pub open spec fn with_link(e: EventView, l: Option<LinkView>) -> EventView {
    (e.0, e.1, e.2, e.3, e.4, e.5, e.6, e.7, e.8, l, e.10)
}

/// The event with another Tinta meeting.
pub open spec fn with_meeting_view(e: EventView, m: Option<Seq<char>>) -> EventView {
    (e.0, e.1, e.2, e.3, e.4, e.5, e.6, e.7, e.8, e.9, m)
}

/// The texts of an event that can hold a call link, in order: the URL, the location, and the notes.
pub open spec fn event_texts(e: EventView) -> Seq<Seq<char>> {
    let one = |o: Option<Seq<char>>|
        match o {
            Some(t) => seq![t],
            None => Seq::<Seq<char>>::empty(),
        };
    one(e.6) + one(e.5) + one(e.7)
}

fn copy_link(l: &Option<Link>) -> (r: Option<Link>)
    ensures
        opt_link_view(r) == opt_link_view(*l),
{
    match l {
        Some(l) => Some(Link { url: l.url.clone(), platform: l.platform, code: copy_opt_string(&l.code) }),
        None => None,
    }
}

impl Event {
    /// The title, or a fixed text for an event without a title.
    pub fn display_title(&self) -> (r: &str)
        ensures
            r@ == if self.title@.len() == 0 {
                "Untitled meeting"@
            } else {
                self.title@
            },
    {
        if self.title.as_str().is_empty() {
            "Untitled meeting"
        } else {
            self.title.as_str()
        }
    }

    /// A copy of the event with the call link `link`.
    fn copy_with_link(&self, link: Option<Link>) -> (r: Event)
        ensures
            r@ == with_link(self@, opt_link_view(link)),
    {
        let mut attendees: Vec<Attendee> = Vec::new();
        let mut i: usize = 0;
        while i < self.attendees.len()
            invariant
                i <= self.attendees.len(),
                attendees@.len() == i,
                forall|j: int| 0 <= j < i ==> #[trigger] attendees@[j]@ == self.attendees@[j]@,
            decreases self.attendees.len() - i,
        {
            attendees.push(self.attendees[i].copied());
            i = i + 1;
        }
        assert(attendees@.map_values(|a: Attendee| a@) =~= self.attendees@.map_values(|a: Attendee| a@));
        Event {
            id: self.id.clone(),
            title: self.title.clone(),
            start: self.start,
            end: self.end,
            calendar_id: self.calendar_id.clone(),
            location: copy_opt_string(&self.location),
            url: copy_opt_string(&self.url),
            notes: copy_opt_string(&self.notes),
            attendees,
            link,
            meeting_id: copy_opt_string(&self.meeting_id),
        }
    }

    /// The event with its Tinta meeting.
    pub fn with_meeting(&self, meeting_id: Option<String>) -> (r: Event)
        ensures
            r@ == with_meeting_view(self@, meeting_id.deep_view()),
    {
        let link = copy_link(&self.link);
        let mut e = self.copy_with_link(link);
        e.meeting_id = meeting_id;
        e
    }

    /// The call link of the event, from its URL, location, and notes.
    fn find_own_link(&self) -> (r: Option<Link>)
        ensures
            opt_link_view(r) == link_in_texts(event_texts(self@)),
    {
        let ghost ts = event_texts(self@);
        if let Some(u) = &self.url {
            if let Some(l) = link_in_chars(&chars_of(u.as_str())) {
                assert(ts[0] == u@);
                return Some(l);
            }
            assert(ts.drop_first() =~= event_texts(with_link(self@, None)).drop_first());
        }
        let ghost rest = if self.url.is_some() { ts.drop_first() } else { ts };
        assert(link_in_texts(ts) == link_in_texts(rest));
        if let Some(loc) = &self.location {
            if let Some(l) = link_in_chars(&chars_of(loc.as_str())) {
                assert(rest[0] == loc@);
                return Some(l);
            }
        }
        let ghost rest2 = if self.location.is_some() { rest.drop_first() } else { rest };
        assert(link_in_texts(rest) == link_in_texts(rest2));
        if let Some(n) = &self.notes {
            if let Some(l) = link_in_chars(&chars_of(n.as_str())) {
                assert(rest2[0] == n@);
                return Some(l);
            }
            assert(link_in_texts(rest2.drop_first()) == None::<LinkView>) by {
                assert(rest2.drop_first() =~= Seq::<Seq<char>>::empty());
            }
        } else {
            assert(rest2 =~= Seq::<Seq<char>>::empty());
        }
        None
    }
}

} // verus!

verus! {

/// True when the list holds a string equal to `s`.
pub fn contains_string(list: &[String], s: &String) -> (r: bool)
    ensures
        r == list@.map_values(|h: String| h@).contains(s@),
{
    let ghost views = list@.map_values(|h: String| h@);
    let mut i: usize = 0;
    while i < list.len()
        invariant
            i <= list.len(),
            views == list@.map_values(|h: String| h@),
            forall|j: int| 0 <= j < i ==> views[j] != s@,
        decreases list.len() - i,
    {
        if list[i] == *s {
            assert(views[i as int] == s@);
            return true;
        }
        i = i + 1;
    }
    false
}

/// The calendars and the events that the engine reads, with the access state.
#[derive(Debug, Clone, Default)]
pub struct Snapshot {
    /// "granted", "denied", or "undetermined".
    pub access: String,
    pub calendars: Vec<Calendar>,
    pub events: Vec<Event>,
}

/// The event views of a list of events.
pub open spec fn event_views(es: Seq<Event>) -> Seq<EventView> {
    es.map_values(|e: Event| e@)
}

/// The events that do not belong to a hidden calendar.
pub open spec fn visible_events(es: Seq<EventView>, hidden: Seq<Seq<char>>) -> Seq<EventView> {
    es.filter(|e: EventView| !hidden.contains(e.4))
}

impl Snapshot {
    /// Finds the call link of each event of an engine reply, in its URL, location, and notes.
    pub fn parse(raw: Snapshot) -> (r: Snapshot)
        ensures
            r.access@ == raw.access@,
            r.calendars@ == raw.calendars@,
            r.events@.len() == raw.events@.len(),
            forall|i: int|
                0 <= i < raw.events@.len() ==> #[trigger] r.events@[i]@ == with_link(
                    raw.events@[i]@,
                    link_in_texts(event_texts(raw.events@[i]@)),
                ),
    {
        let mut events: Vec<Event> = Vec::new();
        let mut i: usize = 0;
        while i < raw.events.len()
            invariant
                i <= raw.events.len(),
                events@.len() == i,
                forall|j: int|
                    0 <= j < i ==> #[trigger] events@[j]@ == with_link(
                        raw.events@[j]@,
                        link_in_texts(event_texts(raw.events@[j]@)),
                    ),
            decreases raw.events.len() - i,
        {
            let link = raw.events[i].find_own_link();
            events.push(raw.events[i].copy_with_link(link));
            i = i + 1;
        }
        Snapshot { access: raw.access, calendars: raw.calendars, events }
    }

    /// The same snapshot without the events of the hidden calendars. It marks the hidden calendars.
    pub fn visible(&self, hidden: &[String]) -> (r: Snapshot)
        ensures
            r.access@ == self.access@,
            r.calendars@.len() == self.calendars@.len(),
            forall|i: int|
                0 <= i < self.calendars@.len() ==> {
                    let c = self.calendars@[i]@;
                    #[trigger] r.calendars@[i]@ == (
                        c.0,
                        c.1,
                        c.2,
                        c.3,
                        hidden@.map_values(|h: String| h@).contains(c.0),
                    )
                },
            event_views(r.events@) == visible_events(
                event_views(self.events@),
                hidden@.map_values(|h: String| h@),
            ),
    {
        let ghost hv = hidden@.map_values(|h: String| h@);
        let mut calendars: Vec<Calendar> = Vec::new();
        let mut i: usize = 0;
        while i < self.calendars.len()
            invariant
                i <= self.calendars.len(),
                hv == hidden@.map_values(|h: String| h@),
                calendars@.len() == i,
                forall|j: int|
                    0 <= j < i ==> {
                        let c = self.calendars@[j]@;
                        #[trigger] calendars@[j]@ == (c.0, c.1, c.2, c.3, hv.contains(c.0))
                    },
            decreases self.calendars.len() - i,
        {
            let c = &self.calendars[i];
            calendars.push(
                Calendar {
                    id: c.id.clone(),
                    title: c.title.clone(),
                    color: c.color.clone(),
                    account: c.account.clone(),
                    hidden: contains_string(hidden, &c.id),
                },
            );
            i = i + 1;
        }
        let ghost all = event_views(self.events@);
        let ghost keep = |e: EventView| !hv.contains(e.4);
        let mut events: Vec<Event> = Vec::new();
        let mut k: usize = 0;
        while k < self.events.len()
            invariant
                k <= self.events.len(),
                hv == hidden@.map_values(|h: String| h@),
                all == event_views(self.events@),
                keep == (|e: EventView| !hv.contains(e.4)),
                event_views(events@) == all.take(k as int).filter(keep),
            decreases self.events.len() - k,
        {
            let e = &self.events[k];
            let ghost before = events@;
            reveal_with_fuel(Seq::<_>::filter, 1);
            assert(all.take(k + 1).drop_last() =~= all.take(k as int));
            assert(all.take(k + 1).last() == e@);
            if !contains_string(hidden, &e.calendar_id) {
                let link = copy_link(&e.link);
                let copy = e.copy_with_link(link);
                events.push(copy);
                assert(event_views(events@) =~= event_views(before).push(e@));
            }
            k = k + 1;
        }
        assert(all.take(k as int) =~= all);
        Snapshot { access: self.access.clone(), calendars, events }
    }
}

} // verus!
