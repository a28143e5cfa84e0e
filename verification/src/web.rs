//! What the desk's own pages and files are served with: the session cookie a
//! sign-in sets and a sign-out clears, the headers a downloaded file carries,
//! and which embedded page a request path names.

use vstd::prelude::*;
use crate::text::{chars_of, string_of};
use crate::proxy::COOKIE;
use crate::proto::Request;

verus! {

/// The cookie a sign-in sets: the session token, unreadable from scripts,
/// never sent cross-site, and valid for the whole desk.
pub fn session_cookie(token: &str) -> (r: String)
    ensures
        r@ == COOKIE@ + "="@ + token@ + "; HttpOnly; SameSite=Strict; Path=/"@,
{
    let mut v = chars_of(COOKIE);
    v.extend_from_slice(chars_of("=").as_slice());
    v.extend_from_slice(chars_of(token).as_slice());
    v.extend_from_slice(chars_of("; HttpOnly; SameSite=Strict; Path=/").as_slice());
    string_of(v.as_slice())
}

/// The cookie a sign-out sets: the same cookie, empty and already expired.
pub fn cleared_cookie() -> (r: String)
    ensures
        r@ == COOKIE@ + "=; HttpOnly; SameSite=Strict; Path=/; Max-Age=0"@,
{
    let mut v = chars_of(COOKIE);
    v.extend_from_slice(chars_of("=; HttpOnly; SameSite=Strict; Path=/; Max-Age=0").as_slice());
    string_of(v.as_slice())
}

/// What follows the last `/` of a path, or the whole path when it has none:
/// the name a download is offered under.
pub open spec fn last_segment(p: Seq<char>) -> Seq<char> {
    match crate::apps::last_of(p, '/') {
        Some(i) => p.skip(i + 1),
        None => p,
    }
}

/// The name a file is downloaded as.
pub fn download_name(path: &str) -> (r: String)
    ensures
        r@ == last_segment(path@),
{
    let p = chars_of(path);
    let mut i: usize = p.len();
    while i > 0
        invariant
            i <= p@.len(),
            p@ == path@,
            forall|j: int| i <= j < p@.len() ==> p@[j] != '/',
        decreases i,
    {
        if p[i - 1] == '/' {
            proof {
                lemma_last_slash(p@, i as int);
            }
            return string_of(crate::text::tail_from(p.as_slice(), i).as_slice());
        }
        i = i - 1;
    }
    proof {
        lemma_no_slash(p@);
    }
    path.to_owned()
}

proof fn lemma_last_slash(p: Seq<char>, i: int)
    requires
        0 < i <= p.len(),
        p[i - 1] == '/',
        forall|j: int| i <= j < p.len() ==> p[j] != '/',
    ensures
        crate::apps::last_of(p, '/') == Some(i - 1),
    decreases p.len() - i,
{
    if i < p.len() {
        assert(p.drop_last()[i - 1] == '/');
        lemma_last_slash(p.drop_last(), i);
    }
}

proof fn lemma_no_slash(p: Seq<char>)
    requires
        forall|j: int| 0 <= j < p.len() ==> p[j] != '/',
    ensures
        crate::apps::last_of(p, '/') is None,
    decreases p.len(),
{
    if p.len() > 0 {
        lemma_no_slash(p.drop_last());
    }
}

/// The media type `mime_guess` gives a path: the first type its table maps the
/// path's extension to, or `application/octet-stream`.
pub uninterp spec fn guessed_mime(path: Seq<char>) -> Seq<char>;

/// `mime_guess::from_path(path).first_or_octet_stream()`, as text. The guess
/// depends on the path's extension alone, through a fixed table; a path with
/// no `.` in it has no extension and is `application/octet-stream`. Which type
/// each extension maps to is not stated here.
#[verifier::external_body]
fn guess_mime(path: &str) -> (r: String)
    ensures
        r@ == guessed_mime(path@),
        !path@.contains('.') ==> r@ == "application/octet-stream"@,
{
    mime_guess::from_path(path).first_or_octet_stream().to_string()
}

/// The headers a file is sent with, given its media type: that type, and an
/// inline disposition naming the file by the last part of its path.
pub fn headers_for(path: &str, mime: &str) -> (r: (String, String))
    ensures
        r.0@ == mime@,
        r.1@ == "inline; filename=\""@ + last_segment(path@) + "\""@,
{
    let name = download_name(path);
    let mut d = chars_of("inline; filename=\"");
    d.extend_from_slice(chars_of(name.as_str()).as_slice());
    d.extend_from_slice(chars_of("\"").as_slice());
    (mime.to_owned(), string_of(d.as_slice()))
}

/// The headers a downloaded file is sent with.
pub fn download_headers(path: &str) -> (r: (String, String))
    ensures
        r.0@ == guessed_mime(path@),
        r.1@ == "inline; filename=\""@ + last_segment(path@) + "\""@,
{
    let mime = guess_mime(path);
    headers_for(path, mime.as_str())
}

/// The embedded file a request path names: the path without its leading
/// slashes, and the index page for the root.
pub open spec fn asset_of(p: Seq<char>) -> Seq<char> {
    let t = strip_slashes(p);
    if t.len() == 0 {
        "index.html"@
    } else {
        t
    }
}

/// Leading `/`s taken off.
pub open spec fn strip_slashes(p: Seq<char>) -> Seq<char>
    decreases p.len(),
{
    if p.len() > 0 && p[0] == '/' {
        strip_slashes(p.drop_first())
    } else {
        p
    }
}

/// The embedded file a request path names.
pub fn asset_path(path: &str) -> (r: String)
    ensures
        r@ == asset_of(path@),
{
    let p = chars_of(path);
    let mut i: usize = 0;
    assert(p@.skip(0) =~= p@);
    while i < p.len() && p[i] == '/'
        invariant
            i <= p@.len(),
            p@ == path@,
            strip_slashes(p@) == strip_slashes(p@.skip(i as int)),
        decreases p@.len() - i,
    {
        assert(p@.skip(i as int).drop_first() == p@.skip(i + 1));
        i = i + 1;
    }
    let t = crate::text::tail_from(p.as_slice(), i);
    if t.len() == 0 {
        "index.html".to_owned()
    } else {
        string_of(t.as_slice())
    }
}

/// One request to the helper.
pub fn hreq(op: &str, path: &str, to: &str, len: usize) -> (r: Request)
    ensures
        r.op@ == op@,
        r.path@ == path@,
        r.to@ == to@,
        r.len == len,
{
    Request { op: op.to_owned(), path: path.to_owned(), to: to.to_owned(), len }
}

/// The first `su` the host has: `/bin/su`, else `/usr/bin/su`.
pub fn find_su(bin_su: bool, usr_bin_su: bool) -> (r: Option<&'static str>)
    ensures
        r == if bin_su {
            Some("/bin/su")
        } else if usr_bin_su {
            Some("/usr/bin/su")
        } else {
            None::<&str>
        },
{
    if bin_su {
        Some("/bin/su")
    } else if usr_bin_su {
        Some("/usr/bin/su")
    } else {
        None
    }
}

/// The arguments that give a terminal a login shell as this user, so that
/// the shell is the user's own and never WebDesk's.
pub fn su_args(username: &str) -> (r: Vec<String>)
    ensures
        crate::engine::strings(r@) == seq!["-"@, username@],
{
    let r = vec!["-".to_owned(), username.to_owned()];
    assert(crate::engine::strings(r@) =~= seq!["-"@, username@]);
    r
}

/// Whether the host can report on itself through Cockpit: its bridge program
/// was found.
pub fn cockpit_available(bridge: Option<&str>) -> (b: bool)
    ensures
        b == bridge is Some,
{
    bridge.is_some()
}

} // verus!
