//! The desk updating itself, and what it tells people about the build.
//!
//! Applying an update runs a program as root that replaces this one, so it is
//! gated on the administrative group like installing an app is. What is decided
//! here: whether updating is possible on this host at all, whether the running
//! build can be compared with the newest commit and is behind it, and the
//! exact commands that fetch the newest commit and launch the updater.

use vstd::prelude::*;
use crate::text::{chars_of, string_of, setting, setting_or, same, same_ignoring_case, eq_ignore_case, ends_with, has_suffix, failure_text, failure_message, split, split_chars, views, file_in, joined_path};
use crate::engine::strings;

verus! {

/// The repository a build follows when the environment does not say.
pub const DEFAULT_REPO: &'static str = "HutsonLabs/WebDesk";

/// Where the updater is installed when the environment does not say.
pub const DEFAULT_UPDATER: &'static str = "/usr/local/libexec/webdesk-update";

/// The transient unit the updater runs in.
pub const UNIT: &'static str = "webdesk-update";

/// How much of the update log the status endpoint sends back.
pub const LOG_TAIL: usize = 65536;

/// The directories searched for a program when `PATH` is unset.
pub const DEFAULT_PATH: &'static str = "/usr/local/sbin:/usr/local/bin:/usr/sbin:/usr/bin:/sbin:/bin";

/// Why updating is not possible on this host, if it is not: switched off by
/// `WD_UPDATE=off` in any case, not running as root, or no updater installed.
pub open spec fn unavailable_reason(setting_value: Option<Seq<char>>, is_root: bool, updater: Seq<char>, updater_is_file: bool) -> Option<Seq<char>> {
    if eq_ignore_case(setting(setting_value, "on"@), "off"@) {
        Some("updates are disabled on this host (WD_UPDATE=off)"@)
    } else if !is_root {
        Some("the service is not running as root"@)
    } else if !updater_is_file {
        Some("no updater installed at "@ + updater)
    } else {
        None
    }
}

/// Whether updating is possible here. `setting_value` is `WD_UPDATE`,
/// `updater` the updater's path and `updater_is_file` whether it is a file.
pub fn unavailable(setting_value: Option<&str>, is_root: bool, updater: &str, updater_is_file: bool) -> (r: Option<String>)
    ensures
        crate::apps::opt_string(r) == unavailable_reason(crate::apps::opt_str(setting_value), is_root, updater@, updater_is_file),
{
    let s = setting_or(setting_value, "on");
    if same_ignoring_case(chars_of(s.as_str()).as_slice(), chars_of("off").as_slice()) {
        return Some("updates are disabled on this host (WD_UPDATE=off)".to_owned());
    }
    if !is_root {
        return Some("the service is not running as root".to_owned());
    }
    if !updater_is_file {
        let mut v = chars_of("no updater installed at ");
        v.extend_from_slice(chars_of(updater).as_slice());
        return Some(string_of(v.as_slice()));
    }
    None
}

/// A build can be compared with a commit when it knows its own and was built
/// from a clean tree.
pub open spec fn comparable_commit(commit: Seq<char>) -> bool {
    commit != "unknown"@ && !ends_with(commit, "-dirty"@)
}

/// Whether the running build can be compared with the newest commit.
pub fn comparable(commit: &str) -> (b: bool)
    ensures
        b == comparable_commit(commit@),
{
    let c = chars_of(commit);
    !same(c.as_slice(), chars_of("unknown").as_slice()) && !has_suffix(c.as_slice(), chars_of("-dirty").as_slice())
}

/// Behind is only ever claimed of a build that can be compared.
pub fn behind(commit: &str, latest: &str) -> (b: bool)
    ensures
        b == (comparable_commit(commit@) && commit@ != latest@),
{
    comparable(commit) && !same(chars_of(commit).as_slice(), chars_of(latest).as_slice())
}

/// The first line of a commit message, as `str::lines` gives it: up to the
/// first newline, without a carriage return before it; nothing for an empty
/// message.
pub open spec fn first_line_of(m: Seq<char>) -> Seq<char> {
    let l = match crate::apps::last_of(m, '\n') {
        None => m,
        Some(_) => m.take(first_newline(m)),
    };
    if l.len() > 0 && l.last() == '\r' {
        l.drop_last()
    } else {
        l
    }
}

/// The index of the first newline of a message that has one.
pub open spec fn first_newline(m: Seq<char>) -> int {
    choose|i: int| 0 <= i < m.len() && m[i] == '\n' && forall|k: int| 0 <= k < i ==> m[k] != '\n'
}

proof fn lemma_last_of_some(m: Seq<char>, c: char, i: int)
    requires
        0 <= i < m.len(),
        m[i] == c,
    ensures
        crate::apps::last_of(m, c) is Some,
    decreases m.len(),
{
    if m.last() != c {
        assert(m.drop_last()[i] == c);
        lemma_last_of_some(m.drop_last(), c, i);
    }
}

proof fn lemma_last_of_none(m: Seq<char>, c: char)
    requires
        forall|k: int| 0 <= k < m.len() ==> m[k] != c,
    ensures
        crate::apps::last_of(m, c) is None,
    decreases m.len(),
{
    if m.len() > 0 {
        lemma_last_of_none(m.drop_last(), c);
    }
}

/// The first line of a commit message.
pub fn first_line(message: &str) -> (r: String)
    ensures
        r@ == first_line_of(message@),
{
    let m = chars_of(message);
    let mut i: usize = 0;
    while i < m.len() && m[i] != '\n'
        invariant
            i <= m@.len(),
            m@ == message@,
            forall|k: int| 0 <= k < i ==> m@[k] != '\n',
        decreases m@.len() - i,
    {
        i = i + 1;
    }
    let line = crate::text::head_to(m.as_slice(), i);
    proof {
        if i < m@.len() {
            lemma_last_of_some(m@, '\n', i as int);
            let j = first_newline(m@);
            assert(j == i) by {
                if j < i {
                } else if j > i {
                }
            }
        } else {
            lemma_last_of_none(m@, '\n');
            assert(m@.take(i as int) == m@);
        }
    }
    if line.len() > 0 && line[line.len() - 1] == '\r' {
        let n = line.len() - 1;
        return string_of(crate::text::head_to(line.as_slice(), n).as_slice());
    }
    string_of(line.as_slice())
}

/// What checking for an update found.
pub struct Check {
    pub current: String,
    pub latest: String,
    pub behind: bool,
    pub comparable: bool,
    pub message: String,
    pub date: String,
}

/// The answer to an update check, from the running build's commit and what the
/// remote said of the newest one: refused when the remote named no commit.
pub fn check(current: &str, sha: &str, message: &str, date: &str) -> (r: Result<Check, String>)
    ensures
        sha@.len() == 0 ==> (r matches Err(e) && e@ == "the remote did not return a commit"@),
        sha@.len() > 0 ==> (r matches Ok(c) && {
            &&& c.current@ == current@
            &&& c.latest@ == sha@
            &&& c.comparable == comparable_commit(current@)
            &&& c.behind == (comparable_commit(current@) && current@ != sha@)
            &&& c.message@ == first_line_of(message@)
            &&& c.date@ == date@
        }),
{
    if sha.is_empty() {
        return Err("the remote did not return a commit".to_owned());
    }
    Ok(Check {
        current: current.to_owned(),
        latest: sha.to_owned(),
        behind: behind(current, sha),
        comparable: comparable(current),
        message: first_line(message),
        date: date.to_owned(),
    })
}

/// Where the log tail starts: the last `LOG_TAIL` bytes, or all of a shorter
/// log.
pub fn log_tail_start(len: usize) -> (r: usize)
    ensures
        r == if len > LOG_TAIL {
            (len - LOG_TAIL) as usize
        } else {
            0
        },
{
    if len > LOG_TAIL {
        len - LOG_TAIL
    } else {
        0
    }
}

/// The address of the newest commit on a branch of a repository.
pub fn commit_url(repo: &str, git_ref: &str) -> (r: String)
    ensures
        r@ == "https://api.github.com/repos/"@ + repo@ + "/commits/"@ + git_ref@,
{
    let mut v = chars_of("https://api.github.com/repos/");
    v.extend_from_slice(chars_of(repo).as_slice());
    v.extend_from_slice(chars_of("/commits/").as_slice());
    v.extend_from_slice(chars_of(git_ref).as_slice());
    string_of(v.as_slice())
}

/// `curl` asking GitHub's API for one document, with a time limit.
pub fn github_args(url: &str) -> (r: Vec<String>)
    ensures
        strings(r@) == seq!["-fsSL"@, "--max-time"@, "20"@, "-H"@, "Accept: application/vnd.github+json"@, "-H"@, "User-Agent: webdesk"@, url@],
{
    let r = vec![
        "-fsSL".to_owned(), "--max-time".to_owned(), "20".to_owned(), "-H".to_owned(),
        "Accept: application/vnd.github+json".to_owned(), "-H".to_owned(), "User-Agent: webdesk".to_owned(), url.to_owned(),
    ];
    assert(strings(r@) =~= seq!["-fsSL"@, "--max-time"@, "20"@, "-H"@, "Accept: application/vnd.github+json"@, "-H"@, "User-Agent: webdesk"@, url@]);
    r
}

/// What a failed fetch is reported as: curl's stderr, or how it exited.
pub fn fetch_failure(stderr: &str, status: &str) -> (r: String)
    ensures
        r@ == failure_text(stderr@, "update check failed ("@ + status@ + ")"@),
{
    let mut v = chars_of("update check failed (");
    v.extend_from_slice(chars_of(status).as_slice());
    v.extend_from_slice(chars_of(")").as_slice());
    failure_message(stderr, string_of(v.as_slice()))
}

/// `systemd-run` launching the updater in a transient unit of its own, told
/// who asked and which build it replaces.
pub fn updater_args(actor: &str, commit: &str, updater: &str) -> (r: Vec<String>)
    ensures
        strings(r@) == seq![
            "--unit"@, UNIT@, "--collect"@, "--quiet"@, "--description"@, "WebDesk self-update"@,
            "--setenv"@, "WD_UPDATE_ACTOR="@ + actor@, "--setenv"@, "WD_UPDATE_FROM="@ + commit@, updater@,
        ],
{
    let mut a = chars_of("WD_UPDATE_ACTOR=");
    a.extend_from_slice(chars_of(actor).as_slice());
    let mut f = chars_of("WD_UPDATE_FROM=");
    f.extend_from_slice(chars_of(commit).as_slice());
    let sa = string_of(a.as_slice());
    let sf = string_of(f.as_slice());
    assert(sa@ == "WD_UPDATE_ACTOR="@ + actor@);
    assert(sf@ == "WD_UPDATE_FROM="@ + commit@);
    let r = vec![
        "--unit".to_owned(), UNIT.to_owned(), "--collect".to_owned(), "--quiet".to_owned(),
        "--description".to_owned(), "WebDesk self-update".to_owned(), "--setenv".to_owned(),
        sa, "--setenv".to_owned(), sf, updater.to_owned(),
    ];
    assert(strings(r@) =~= seq![
        "--unit"@, UNIT@, "--collect"@, "--quiet"@, "--description"@, "WebDesk self-update"@,
        "--setenv"@, "WD_UPDATE_ACTOR="@ + actor@, "--setenv"@, "WD_UPDATE_FROM="@ + commit@, updater@,
    ]);
    r
}

/// The directories a program is looked for in: the colon-separated entries of
/// `PATH` that are not empty, or the usual system directories when it is unset.
pub open spec fn search_dirs(path: Option<Seq<char>>) -> Seq<Seq<char>> {
    crate::auth::kept(split(
        match path {
            Some(p) => p,
            None => DEFAULT_PATH@,
        },
        ':',
    ))
}

/// The directories to look for a program in.
pub fn path_dirs(path: Option<&str>) -> (r: Vec<String>)
    ensures
        strings(r@) == search_dirs(crate::apps::opt_str(path)),
{
    let text = match path {
        Some(p) => chars_of(p),
        None => chars_of(DEFAULT_PATH),
    };
    let parts = split_chars(text.as_slice(), ':');
    let ghost ps = views(parts@);
    let mut out: Vec<String> = Vec::new();
    for i in 0..parts.len()
        invariant
            ps == views(parts@),
            strings(out@) == crate::auth::kept(ps.take(i as int)),
    {
        assert(ps.take(i + 1).drop_last() == ps.take(i as int));
        assert(ps[i as int] == parts@[i as int]@);
        if parts[i].len() > 0 {
            let ghost before = out@;
            out.push(string_of(parts[i].as_slice()));
            assert(strings(out@) =~= strings(before).push(parts@[i as int]@));
        }
    }
    assert(ps.take(ps.len() as int) == ps);
    out
}

/// The file the update's progress is written to.
pub fn status_file(state_dir: &str) -> (r: String)
    ensures
        r@ == joined_path(state_dir@, "update.status"@),
{
    file_in(state_dir, "update.status")
}

/// The file the updater writes its output to.
pub fn log_file(state_dir: &str) -> (r: String)
    ensures
        r@ == joined_path(state_dir@, "update.log"@),
{
    file_in(state_dir, "update.log")
}

/// The repository followed, from `WD_REPO`.
pub fn repo(value: Option<&str>) -> (r: String)
    ensures
        r@ == setting(crate::apps::opt_str(value), DEFAULT_REPO@),
{
    setting_or(value, DEFAULT_REPO)
}

/// The updater's path, from `WD_UPDATER`.
pub fn updater_path(value: Option<&str>) -> (r: String)
    ensures
        r@ == setting(crate::apps::opt_str(value), DEFAULT_UPDATER@),
{
    setting_or(value, DEFAULT_UPDATER)
}

/// The branch followed, from `WD_REF`, or the one the build was made from.
pub fn tracked_ref(value: Option<&str>, built_ref: &str) -> (r: String)
    ensures
        r@ == setting(crate::apps::opt_str(value), built_ref@),
{
    setting_or(value, built_ref)
}

} // verus!
