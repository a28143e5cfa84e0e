//! Installing, running and removing the applications in the catalog.
//!
//! **Three managers, one book.** Almost every entry is a container, created,
//! started and removed through the engine. One is a systemd unit on the host,
//! which can only be started and stopped. The third is a Flatpak drawn on this
//! host and carried to a canvas. The record written at install time says which,
//! and everything downstream reads the record, never the catalog.
//!
//! **A streamed entry breaks the shape by subtraction.** No image, no port, no
//! prefix, no container. So the two questions the proxy asks the book --
//! `upstream_in` and `origin_url_in` -- answer `None` for it, and that is
//! stated in their contracts rather than left to luck.
//!
//! **What a user may actually choose.** Only the blanks a catalog entry
//! declares. `validate` turns what the browser sent into exactly the settings
//! the entry allows; everything WebDesk depends on -- the name, the published
//! port, `/config`, `PUID`/`PGID`, the labels -- is computed by the planner
//! and cannot be reached from a request.
//!
//! Nothing here touches the disk or the network: where a question
//! needs the file system (does this directory exist, what is the host's
//! timezone) the answer is handed in, and the functions are exact about what
//! they do with it.

use vstd::prelude::*;
use rand::Rng;
use crate::table::{Table, keys_unique, sorted, key_lt, index_of, lemma_entry, lemma_key};
use crate::catalog::{App, Param, Kind};
use crate::text::{chars_of, string_of, decimal, decimal_chars, starts_with, has_prefix, trim, trim_chars, same, head_to, copy_chars, join_chars, occurs_at};

verus! {

/// The first port handed to a container app. Loopback only, and well clear of
/// both the default listen port and the ephemeral range.
pub const PORT_LOW: u16 = 47000;

/// The last port handed to a container app.
pub const PORT_HIGH: u16 = 47999;

/// How much of the install log the status endpoint sends back.
pub const LOG_TAIL: usize = 65536;

/// A typed value longer than this, in bytes, is refused.
pub const MAX_VALUE: usize = 1024;

/// Where WebDesk keeps its state when the environment does not say.
pub const DEFAULT_STATE_DIR: &'static str = "/var/lib/webdesk";

/// One installed application, as recorded on disk.
pub struct Installed {
    pub slug: String,
    pub image: String,
    /// The loopback port the container publishes on.
    pub port: u16,
    /// Whether that port speaks TLS.
    pub tls: bool,
    pub env: Table<String>,
    /// `(host, container, read-only)`
    pub mounts: Vec<(String, String, bool)>,
    /// Host device nodes this container was given, at the same path inside.
    pub devices: Vec<String>,
    /// Keys of `env` that came from a secret field, so they are never sent back.
    pub secrets: Vec<String>,
    pub installed: u64,
    pub actor: String,
    /// The port WebDesk itself listens on to serve this app at the root of an
    /// origin, for an entry with `needs_origin`.
    pub origin_port: Option<u16>,
    /// The systemd unit serving this app, for one that runs on the host.
    pub unit: Option<String>,
    /// The Flatpak application id, for a streamed entry.
    pub flatpak: Option<String>,
    /// Whether that Flatpak was already on this host before the entry was
    /// installed, so that removal leaves it.
    pub adopted: bool,
}

/// Which of the three managers owns an installed app.
pub enum Manager {
    /// The container engine: a record with neither of the other two fields.
    Engine,
    /// systemd's system manager, holding one unit that serves everybody.
    Host(String),
    /// systemd's user manager, one per signed-in person, running the Flatpak
    /// named here.
    Session(String),
}

/// The manager a record names: the Flatpak first, then the unit, and the
/// engine for a record with neither.
pub open spec fn manager_of(a: Installed) -> Manager {
    match a.flatpak {
        Some(id) => Manager::Session(id),
        None => match a.unit {
            Some(u) => Manager::Host(u),
            None => Manager::Engine,
        },
    }
}

impl Installed {
    /// A record with nothing in it but its slug.
    pub fn blank(slug: &str) -> (r: Installed)
        ensures
            r.slug@ == slug@,
            r.image@.len() == 0,
            r.port == 0,
            !r.tls,
            r.env@ == Map::<Seq<char>, String>::empty(),
            r.env.wf(),
            r.mounts@.len() == 0,
            r.devices@.len() == 0,
            r.secrets@.len() == 0,
            r.installed == 0,
            r.actor@.len() == 0,
            r.origin_port is None,
            r.unit is None,
            r.flatpak is None,
            !r.adopted,
    {
        Installed {
            slug: slug.to_owned(),
            image: String::new(),
            port: 0,
            tls: false,
            env: Table::new(),
            mounts: Vec::new(),
            devices: Vec::new(),
            secrets: Vec::new(),
            installed: 0,
            actor: String::new(),
            origin_port: None,
            unit: None,
            flatpak: None,
            adopted: false,
        }
    }

    /// Which manager owns this app. Read off the record and never off the
    /// catalog.
    pub fn manager(&self) -> (m: Manager)
        ensures
            m == manager_of(*self),
    {
        match &self.flatpak {
            Some(id) => Manager::Session(id.clone()),
            None => match &self.unit {
                Some(u) => Manager::Host(u.clone()),
                None => Manager::Engine,
            },
        }
    }
}

/// Every installed app, by slug.
pub struct Book {
    pub apps: Table<Installed>,
}

impl Book {
    /// A book with nothing installed.
    pub fn new() -> (b: Book)
        ensures
            b.apps.wf(),
            b.apps@ == Map::<Seq<char>, Installed>::empty(),
    {
        Book { apps: Table::new() }
    }
}

// ------------------------------------------------------------------ ports

/// Some installed app already publishes on `p`.
pub open spec fn port_taken(apps: Map<Seq<char>, Installed>, p: int) -> bool {
    exists|k: Seq<char>| apps.contains_key(k) && #[trigger] apps[k].port == p
}

/// The lowest port in `PORT_LOW..=PORT_HIGH` no installed app publishes on.
/// Checked against the book rather than against the kernel, because a port a
/// container has published is in use by the engine and would not bind here.
pub fn free_port(book: &Book) -> (r: Result<u16, String>)
    requires
        book.apps.wf(),
    ensures
        match r {
            Ok(p) => PORT_LOW <= p <= PORT_HIGH && !port_taken(book.apps@, p as int) && forall|q: int|
                PORT_LOW <= q < p ==> port_taken(book.apps@, q),
            Err(e) => e@ == "no free port left for another app"@ && forall|q: int|
                PORT_LOW <= q <= PORT_HIGH ==> port_taken(book.apps@, q),
        },
{
    let s = &book.apps.entries;
    let mut p: u32 = 47000;
    while p <= 47999
        invariant
            47000 <= p <= 48000,
            s@ == book.apps.entries@,
            keys_unique(s@),
            forall|q: int| PORT_LOW <= q < p ==> port_taken(book.apps@, q),
        decreases 48000 - p,
    {
        let mut i: usize = 0;
        let mut used = false;
        while i < s.len()
            invariant
                i <= s@.len(),
                47000 <= p <= 47999,
                s@ == book.apps.entries@,
                keys_unique(s@),
                used ==> port_taken(book.apps@, p as int),
                !used ==> forall|j: int| 0 <= j < i ==> (#[trigger] s@[j]).1.port != p,
            decreases s@.len() - i,
        {
            if s[i].1.port as u32 == p {
                proof {
                    lemma_entry(s@, i as int);
                    assert(book.apps@[s@[i as int].0@].port == p);
                }
                used = true;
            }
            i = i + 1;
        }
        if !used {
            proof {
                assert forall|k: Seq<char>| book.apps@.contains_key(k) implies #[trigger] book.apps@[k].port
                    != p by {
                    lemma_key(s@, k);
                    let j = index_of(s@, k);
                    assert(s@[j].1.port != p);
                }
            }
            return Ok(p as u16);
        }
        p = p + 1;
    }
    Err("no free port left for another app".to_owned())
}

// ---------------------------------------------------------- what the proxy asks

/// Which loopback port serves this slug and whether it expects TLS -- `None`
/// for a slug that is not installed, and `None` for a streamed app, whose port
/// of `0` is the honest record of having none rather than a value to dial.
pub open spec fn upstream(apps: Map<Seq<char>, Installed>, slug: Seq<char>) -> Option<(u16, bool)> {
    if !apps.contains_key(slug) {
        None
    } else if apps[slug].flatpak is Some {
        None
    } else {
        Some((apps[slug].port, apps[slug].tls))
    }
}

/// The one lookup the proxy needs.
pub fn upstream_in(book: &Book, slug: &str) -> (r: Option<(u16, bool)>)
    requires
        book.apps.wf(),
    ensures
        r == upstream(book.apps@, slug@),
{
    let a = book.apps.get(slug)?;
    if a.flatpak.is_some() {
        return None;
    }
    Some((a.port, a.tls))
}

/// The apps served at the root of a port of their own, in book order.
pub open spec fn origin_list(s: Seq<(String, Installed)>) -> Seq<(Seq<char>, u16)>
    decreases s.len(),
{
    if s.len() == 0 {
        Seq::empty()
    } else {
        let rest = origin_list(s.drop_last());
        match s.last().1.origin_port {
            Some(p) => rest.push((s.last().0@, p)),
            None => rest,
        }
    }
}

/// Every installed app that is served at the root of a port of its own, and
/// which port that is. Read at start to open those listeners again.
pub fn origin_ports(book: &Book) -> (r: Vec<(String, u16)>)
    ensures
        r@.map_values(|x: (String, u16)| (x.0@, x.1)) == origin_list(book.apps.entries@),
{
    let s = &book.apps.entries;
    let mut out: Vec<(String, u16)> = Vec::new();
    for i in 0..s.len()
        invariant
            s@ == book.apps.entries@,
            out@.map_values(|x: (String, u16)| (x.0@, x.1)) == origin_list(s@.take(i as int)),
    {
        let ghost before = out@;
        assert(s@.take(i + 1).drop_last() == s@.take(i as int));
        match s[i].1.origin_port {
            Some(p) => {
                out.push((s[i].0.clone(), p));
                assert(out@.map_values(|x: (String, u16)| (x.0@, x.1)) =~= before.map_values(
                    |x: (String, u16)| (x.0@, x.1),
                ).push((s@[i as int].0@, p)));
            },
            None => {},
        }
    }
    assert(s@.take(s@.len() as int) == s@);
    out
}

/// The index of the last `c` in `s`.
pub open spec fn last_of(s: Seq<char>, c: char) -> Option<int>
    decreases s.len(),
{
    if s.len() == 0 {
        None
    } else if s.last() == c {
        Some(s.len() - 1)
    } else {
        last_of(s.drop_last(), c)
    }
}

proof fn lemma_last_of(s: Seq<char>, c: char, i: int)
    requires
        0 <= i <= s.len(),
        forall|j: int| i <= j < s.len() ==> s[j] != c,
    ensures
        last_of(s, c) == last_of(s.take(i), c),
    decreases s.len() - i,
{
    if i < s.len() {
        assert(s.drop_last().take(i) == s.take(i));
        lemma_last_of(s.drop_last(), c, i);
    } else {
        assert(s.take(i) == s);
    }
}

/// The position of the last `c` in `s`.
fn find_last(s: &[char], c: char) -> (r: Option<usize>)
    ensures
        match r {
            Some(i) => i < s@.len() && last_of(s@, c) == Some(i as int),
            None => last_of(s@, c) is None,
        },
{
    let mut i: usize = s.len();
    while i > 0
        invariant
            i <= s@.len(),
            forall|j: int| i <= j < s@.len() ==> s@[j] != c,
        decreases i,
    {
        if s[i - 1] == c {
            proof {
                lemma_last_of(s@, c, i as int);
                assert(s@.take(i as int).last() == c);
            }
            return Some(i - 1);
        }
        i = i - 1;
    }
    proof {
        lemma_last_of(s@, c, 0);
    }
    None
}

/// A Host header without its `:port`, leaving an IPv6 literal's brackets
/// intact: `[::1]:443` and `[::1]` both have colons in the host part, so the
/// port can only be the tail after the closing bracket.
pub open spec fn bare_host(h: Seq<char>) -> Seq<char> {
    match last_of(h, ']') {
        Some(i) => h.take(i + 1),
        None => match last_of(h, ':') {
            Some(i) => h.take(i),
            None => h,
        },
    }
}

/// Strip `:port` from a Host header.
pub fn host_without_port(host: &str) -> (r: String)
    ensures
        r@ == bare_host(host@),
{
    let h = chars_of(host);
    match find_last(h.as_slice(), ']') {
        Some(i) => {
            let n = h.len();
            assert(i < n);
            string_of(head_to(h.as_slice(), i + 1).as_slice())
        },
        None => match find_last(h.as_slice(), ':') {
            Some(i) => string_of(head_to(h.as_slice(), i).as_slice()),
            None => host.to_owned(),
        },
    }
}

/// `/app/<slug>/`, the relative address almost every app is opened at.
pub open spec fn prefixed(slug: Seq<char>) -> Seq<char> {
    "/app/"@ + slug + "/"@
}

/// Where the browser should be sent for an app: `/app/<slug>/` for almost
/// everything, and for an app on an origin of its own an absolute URL whose
/// host part is the one the browser used, with the desk's port replaced by the
/// app's. With no usable Host header the relative path is the answer.
pub open spec fn url_for(tls_on: bool, host: Option<Seq<char>>, slug: Seq<char>, origin_port: Option<u16>) -> Seq<char> {
    match origin_port {
        None => prefixed(slug),
        Some(port) => {
            let bare = bare_host(
                match host {
                    Some(h) => h,
                    None => Seq::empty(),
                },
            );
            if bare.len() == 0 {
                prefixed(slug)
            } else {
                (if tls_on {
                    "https"@
                } else {
                    "http"@
                }) + "://"@ + bare + ":"@ + decimal(port as nat) + "/"@
            }
        },
    }
}

/// The view of an optional borrowed string.
pub open spec fn opt_str(o: Option<&str>) -> Option<Seq<char>> {
    match o {
        Some(s) => Some(s@),
        None => None,
    }
}

fn relative_url(slug: &str) -> (r: String)
    ensures
        r@ == prefixed(slug@),
{
    let mut v = chars_of("/app/");
    v.extend_from_slice(chars_of(slug).as_slice());
    v.extend_from_slice(chars_of("/").as_slice());
    string_of(v.as_slice())
}

/// Where the browser should be sent for this app. `host` is the request's
/// `Host` header, when it has one that is valid text.
pub fn app_url(tls_on: bool, host: Option<&str>, a: &Installed) -> (r: String)
    ensures
        r@ == url_for(tls_on, opt_str(host), a.slug@, a.origin_port),
{
    let port = match a.origin_port {
        Some(p) => p,
        None => return relative_url(a.slug.as_str()),
    };
    let h = match host {
        Some(h) => h,
        None => "",
    };
    proof {
        reveal_strlit("");
    }
    let bare = host_without_port(h);
    let b = chars_of(bare.as_str());
    if b.len() == 0 {
        return relative_url(a.slug.as_str());
    }
    let mut v = if tls_on {
        chars_of("https")
    } else {
        chars_of("http")
    };
    v.extend_from_slice(chars_of("://").as_slice());
    v.extend_from_slice(b.as_slice());
    v.extend_from_slice(chars_of(":").as_slice());
    v.extend_from_slice(decimal_chars(port as u64).as_slice());
    v.extend_from_slice(chars_of("/").as_slice());
    string_of(v.as_slice())
}

/// Where an app with an origin of its own really lives; `None` for a slug that
/// is not installed and for one reached under `/app/<slug>/`, which includes
/// every streamed app, since none of them ever asked for an origin.
pub open spec fn origin_url(tls_on: bool, host: Option<Seq<char>>, apps: Map<Seq<char>, Installed>, slug: Seq<char>) -> Option<Seq<char>> {
    if !apps.contains_key(slug) {
        None
    } else if apps[slug].origin_port is None {
        None
    } else {
        Some(url_for(tls_on, host, apps[slug].slug@, apps[slug].origin_port))
    }
}

/// The address the proxy hands the browser instead of relaying, for an app
/// that cannot be served from a prefix.
pub fn origin_url_in(tls_on: bool, host: Option<&str>, book: &Book, slug: &str) -> (r: Option<String>)
    requires
        book.apps.wf(),
    ensures
        opt_string(r) == origin_url(tls_on, opt_str(host), book.apps@, slug@),
{
    let a = book.apps.get(slug)?;
    if a.origin_port.is_none() {
        return None;
    }
    Some(app_url(tls_on, host, a))
}

/// The view of an optional owned string.
pub open spec fn opt_string(o: Option<String>) -> Option<Seq<char>> {
    match o {
        Some(s) => Some(s@),
        None => None,
    }
}

// -------------------------------------------------------------- validation

/// How many bytes `c` takes in UTF-8.
pub open spec fn utf8_width(c: char) -> nat {
    if (c as u32) < 0x80 {
        1
    } else if (c as u32) < 0x800 {
        2
    } else if (c as u32) < 0x10000 {
        3
    } else {
        4
    }
}

/// How many bytes `s` takes in UTF-8: what `str::len` reports.
pub open spec fn utf8_len(s: Seq<char>) -> nat
    decreases s.len(),
{
    if s.len() == 0 {
        0
    } else {
        utf8_len(s.drop_last()) + utf8_width(s.last())
    }
}

/// What `char::is_control` accepts: the Unicode general category `Cc`.
pub open spec fn is_control(c: char) -> bool {
    (c as u32) <= 0x1F || (0x7F <= (c as u32) && (c as u32) <= 0x9F)
}

/// A character a typed value may not hold: a null, or any control character
/// other than a tab.
pub open spec fn forbidden_char(c: char) -> bool {
    c == '\0' || (is_control(c) && c != '\t')
}

/// Why a typed value is refused, if it is: too long to be sensible, or holding
/// a control character that would change its meaning on an argv list.
pub open spec fn scalar_refusal(v: Seq<char>) -> Option<Seq<char>> {
    if utf8_len(v) > MAX_VALUE {
        Some("that value is longer than 1024 characters"@)
    } else if exists|i: int| 0 <= i < v.len() && forbidden_char(#[trigger] v[i]) {
        Some("that value contains a control character"@)
    } else {
        None
    }
}

fn width_of(c: char) -> (w: usize)
    ensures
        w == utf8_width(c),
{
    if (c as u32) < 0x80 {
        1
    } else if (c as u32) < 0x800 {
        2
    } else if (c as u32) < 0x10000 {
        3
    } else {
        4
    }
}

/// Refuse a typed value that is too long or holds a control character.
pub fn check_scalar(value: &str) -> (r: Result<(), String>)
    ensures
        match scalar_refusal(value@) {
            Some(e) => r matches Err(m) && m@ == e,
            None => r is Ok,
        },
{
    let v = chars_of(value);
    let mut n: usize = 0;
    let mut i: usize = 0;
    while i < v.len()
        invariant
            i <= v@.len(),
            v@ == value@,
            n == utf8_len(v@.take(i as int)),
            n <= MAX_VALUE,
        decreases v@.len() - i,
    {
        assert(v@.take(i + 1).drop_last() == v@.take(i as int));
        n = n + width_of(v[i]);
        if n > MAX_VALUE {
            proof {
                lemma_utf8_len_grows(v@, i + 1);
            }
            return Err("that value is longer than 1024 characters".to_owned());
        }
        i = i + 1;
    }
    assert(v@.take(v@.len() as int) == v@);
    let mut j: usize = 0;
    while j < v.len()
        invariant
            j <= v@.len(),
            v@ == value@,
            utf8_len(value@) <= MAX_VALUE,
            forall|k: int| 0 <= k < j ==> !forbidden_char(#[trigger] v@[k]),
        decreases v@.len() - j,
    {
        let c = v[j];
        if c == '\0' || (((c as u32) <= 0x1F || (0x7F <= (c as u32) && (c as u32) <= 0x9F)) && c != '\t') {
            assert(forbidden_char(v@[j as int]));
            return Err("that value contains a control character".to_owned());
        }
        j = j + 1;
    }
    Ok(())
}

proof fn lemma_utf8_len_grows(s: Seq<char>, i: int)
    requires
        0 <= i <= s.len(),
    ensures
        utf8_len(s.take(i)) <= utf8_len(s),
    decreases s.len() - i,
{
    if i < s.len() {
        assert(s.drop_last().take(i) == s.take(i));
        lemma_utf8_len_grows(s.drop_last(), i);
    } else {
        assert(s.take(i) == s);
    }
}

/// Directories a bind mount may never name, whatever else is true.
pub open spec fn forbidden_mounts() -> Seq<Seq<char>> {
    seq![
        "/"@, "/etc"@, "/proc"@, "/sys"@, "/dev"@, "/boot"@, "/run"@, "/usr"@, "/bin"@,
        "/sbin"@, "/lib"@, "/lib64"@,
    ]
}

/// `s` is `dir` or lies beneath it. The root only ever matches itself, so
/// that it does not swallow every path.
pub open spec fn under(s: Seq<char>, dir: Seq<char>) -> bool {
    if dir == "/"@ {
        s == "/"@
    } else {
        s == dir || starts_with(s, dir + "/"@)
    }
}

/// `s` is part of the system.
pub open spec fn system_path(s: Seq<char>) -> bool {
    exists|i: int| 0 <= i < forbidden_mounts().len() && under(s, #[trigger] forbidden_mounts()[i])
}

/// What the host said about a directory a user asked to share: either why it
/// cannot be looked at, or where it really is once links are resolved and
/// whether it is a directory.
pub enum Found {
    Missing(String),
    At { canonical: String, is_dir: bool },
}

/// The view of what the host said.
pub open spec fn found_view(f: Found) -> Result<(Seq<char>, bool), Seq<char>> {
    match f {
        Found::Missing(e) => Err(e@),
        Found::At { canonical, is_dir } => Ok((canonical@, is_dir)),
    }
}

/// What sharing `value` with a container comes to, given what the host said
/// about it: the directory to mount, or why it may not be. The shape of the
/// value is judged first -- absolute, no `..`, no `:` that the engine would
/// read as a field separator, no null -- then the directory it really is, and
/// last whether that is part of the system or WebDesk's own state.
pub open spec fn path_verdict(value: Seq<char>, found: Result<(Seq<char>, bool), Seq<char>>, state_dir: Seq<char>) -> Result<Seq<char>, Seq<char>> {
    if !starts_with(value, "/"@) {
        Err(value + " is not an absolute path"@)
    } else if crate::text::contains(value, ".."@) {
        Err("a path may not contain .."@)
    } else if value.contains(':') || value.contains('\0') {
        Err("a path may not contain : or a null byte"@)
    } else {
        match found {
            Err(e) => Err(value + " cannot be used: "@ + e),
            Ok((s, is_dir)) => if !is_dir {
                Err(value + " is not a directory"@)
            } else if system_path(s) {
                Err(s + " is part of the system and cannot be shared with a container"@)
            } else if s == state_dir || starts_with(s, state_dir + "/"@) {
                Err(s + " belongs to WebDesk and cannot be shared with a container"@)
            } else {
                Ok(s)
            },
        }
    }
}

/// The view of a `Result` of strings.
pub open spec fn res_view(r: Result<String, String>) -> Result<Seq<char>, Seq<char>> {
    match r {
        Ok(s) => Ok(s@),
        Err(e) => Err(e@),
    }
}

fn concat(a: &[char], b: &str) -> (r: String)
    ensures
        r@ == a@ + b@,
{
    let mut v = copy_chars(a);
    v.extend_from_slice(chars_of(b).as_slice());
    string_of(v.as_slice())
}

fn concat3(a: &[char], b: &str, c: &[char]) -> (r: String)
    ensures
        r@ == a@ + b@ + c@,
{
    let mut v = copy_chars(a);
    v.extend_from_slice(chars_of(b).as_slice());
    v.extend_from_slice(c);
    string_of(v.as_slice())
}

fn holds(v: &[char], c: char) -> (b: bool)
    ensures
        b == v@.contains(c),
{
    let mut i: usize = 0;
    while i < v.len()
        invariant
            i <= v@.len(),
            forall|k: int| 0 <= k < i ==> v@[k] != c,
        decreases v@.len() - i,
    {
        if v[i] == c {
            assert(v@[i as int] == c);
            return true;
        }
        i = i + 1;
    }
    false
}

fn is_under(s: &[char], dir: &str) -> (b: bool)
    ensures
        b == under(s@, dir@),
{
    let d = chars_of(dir);
    let root = chars_of("/");
    if same(d.as_slice(), root.as_slice()) {
        return same(s, root.as_slice());
    }
    let mut with_slash = copy_chars(d.as_slice());
    with_slash.push('/');
    proof {
        reveal_strlit("/");
        assert(with_slash@ == dir@ + "/"@);
    }
    same(s, d.as_slice()) || has_prefix(s, with_slash.as_slice())
}

/// Whether `s` is part of the system.
fn in_system(s: &[char]) -> (b: bool)
    ensures
        b == system_path(s@),
{
    let dirs: Vec<&'static str> = vec![
        "/", "/etc", "/proc", "/sys", "/dev", "/boot", "/run", "/usr", "/bin", "/sbin", "/lib",
        "/lib64",
    ];
    assert(dirs@.map_values(|d: &str| d@) =~= forbidden_mounts());
    let mut i: usize = 0;
    while i < dirs.len()
        invariant
            i <= dirs@.len(),
            dirs@.map_values(|d: &str| d@) == forbidden_mounts(),
            forall|k: int| 0 <= k < i ==> !under(s@, #[trigger] forbidden_mounts()[k]),
        decreases dirs@.len() - i,
    {
        assert(dirs@.map_values(|d: &str| d@)[i as int] == dirs@[i as int]@);
        if is_under(s, dirs[i]) {
            return true;
        }
        i = i + 1;
    }
    false
}

/// Decide whether `value` may be mounted into a container. `found` is what the
/// host said about the path; `state_dir` is WebDesk's own state directory,
/// which an app that could write to could rewrite the book that decides what
/// gets run.
pub fn check_path(value: &str, found: &Found, state_dir: &str) -> (r: Result<String, String>)
    ensures
        res_view(r) == path_verdict(value@, found_view(*found), state_dir@),
{
    let v = chars_of(value);
    proof {
        reveal_strlit("/");
        reveal_strlit("..");
    }
    if !has_prefix(v.as_slice(), chars_of("/").as_slice()) {
        return Err(concat(v.as_slice(), " is not an absolute path"));
    }
    if crate::text::has_substring(v.as_slice(), chars_of("..").as_slice()) {
        return Err("a path may not contain ..".to_owned());
    }
    if holds(v.as_slice(), ':') || holds(v.as_slice(), '\0') {
        return Err("a path may not contain : or a null byte".to_owned());
    }
    match found {
        Found::Missing(e) => Err(concat3(v.as_slice(), " cannot be used: ", chars_of(e.as_str()).as_slice())),
        Found::At { canonical, is_dir } => {
            if !*is_dir {
                return Err(concat(v.as_slice(), " is not a directory"));
            }
            let s = chars_of(canonical.as_str());
            if in_system(s.as_slice()) {
                return Err(concat(s.as_slice(), " is part of the system and cannot be shared with a container"));
            }
            let own = chars_of(state_dir);
            let mut own_slash = copy_chars(own.as_slice());
            own_slash.push('/');
            assert(own_slash@ == state_dir@ + "/"@);
            if same(s.as_slice(), own.as_slice()) || has_prefix(s.as_slice(), own_slash.as_slice()) {
                return Err(concat(s.as_slice(), " belongs to WebDesk and cannot be shared with a container"));
            }
            Ok(canonical.clone())
        },
    }
}

/// `s` is the directory `d` or inside it.
pub open spec fn in_dir(s: Seq<char>, d: Seq<char>) -> bool {
    s == d || starts_with(s, d + "/"@)
}

/// The system directories no container is given, by name.
pub open spec fn system_dir_named(s: Seq<char>) -> bool {
    s == "/"@ || in_dir(s, "/etc"@) || in_dir(s, "/proc"@) || in_dir(s, "/sys"@) || in_dir(s, "/dev"@)
        || in_dir(s, "/boot"@) || in_dir(s, "/run"@) || in_dir(s, "/usr"@) || in_dir(s, "/bin"@)
        || in_dir(s, "/sbin"@) || in_dir(s, "/lib"@) || in_dir(s, "/lib64"@)
}

proof fn lemma_system_named(s: Seq<char>)
    ensures
        system_dir_named(s) <==> system_path(s),
{
    reveal_strlit("/");
    let f = forbidden_mounts();
    reveal_strlit("/etc"); reveal_strlit("/proc"); reveal_strlit("/sys"); reveal_strlit("/dev");
    reveal_strlit("/boot"); reveal_strlit("/run"); reveal_strlit("/usr"); reveal_strlit("/bin");
    reveal_strlit("/sbin"); reveal_strlit("/lib"); reveal_strlit("/lib64");
    assert("/"@.len() == 1);
    assert("/etc"@.len() == 4 && "/proc"@.len() == 5 && "/sys"@.len() == 4 && "/dev"@.len() == 4);
    assert("/boot"@.len() == 5 && "/run"@.len() == 4 && "/usr"@.len() == 4 && "/bin"@.len() == 4);
    assert("/sbin"@.len() == 5 && "/lib"@.len() == 4 && "/lib64"@.len() == 6);
    if system_dir_named(s) {
        if s == "/"@ {
            assert(under(s, f[0]));
        } else {
            if in_dir(s, "/etc"@) { assert(under(s, f[1])); }
            else if in_dir(s, "/proc"@) { assert(under(s, f[2])); }
            else if in_dir(s, "/sys"@) { assert(under(s, f[3])); }
            else if in_dir(s, "/dev"@) { assert(under(s, f[4])); }
            else if in_dir(s, "/boot"@) { assert(under(s, f[5])); }
            else if in_dir(s, "/run"@) { assert(under(s, f[6])); }
            else if in_dir(s, "/usr"@) { assert(under(s, f[7])); }
            else if in_dir(s, "/bin"@) { assert(under(s, f[8])); }
            else if in_dir(s, "/sbin"@) { assert(under(s, f[9])); }
            else if in_dir(s, "/lib"@) { assert(under(s, f[10])); }
            else { assert(under(s, f[11])); }
        }
        assert(system_path(s));
    } else {
        assert forall|i: int| 0 <= i < f.len() implies !under(s, #[trigger] f[i]) by {
            if i > 0 {
                let d = f[i];
                assert(d != "/"@);
                assert(!in_dir(s, d));
            }
        }
        assert(!system_path(s));
    }
}


/// A directory is shared exactly when it is safe to: an absolute path with no
/// `..`, `:` or null byte, whose real location is a directory that is neither
/// the root nor inside `/etc`, `/proc`, `/sys`, `/dev`, `/boot`, `/run`,
/// `/usr`, `/bin`, `/sbin`, `/lib` or `/lib64`, nor WebDesk's own state
/// directory, is accepted as that real location -- a home directory or a
/// project folder among them. One that is in a system directory is refused
/// as part of the system.
pub proof fn law_a_safe_directory_is_shared(value: Seq<char>, s: Seq<char>, sd: Seq<char>)
    requires
        value.len() > 0 && value[0] == '/',
        !crate::text::contains(value, ".."@),
        forall|i: int| 0 <= i < value.len() ==> #[trigger] value[i] != ':' && value[i] != '\0',
    ensures
        !system_dir_named(s) && s != sd && !starts_with(s, sd + "/"@) ==> path_verdict(value, Ok((s, true)), sd)
            == Ok::<Seq<char>, Seq<char>>(s),
        system_dir_named(s) ==> path_verdict(value, Ok((s, true)), sd) == Err::<Seq<char>, Seq<char>>(
            s + " is part of the system and cannot be shared with a container"@),
        !system_dir_named(s) && (s == sd || starts_with(s, sd + "/"@)) ==> path_verdict(value, Ok((s, true)), sd)
            == Err::<Seq<char>, Seq<char>>(s + " belongs to WebDesk and cannot be shared with a container"@),
{
    reveal_strlit("/");
    assert(value.take(1) =~= "/"@);
    assert(!value.contains(':') && !value.contains('\0'));
    lemma_system_named(s);
}

/// Nothing else is ever shared: a path is accepted only when it is absolute
/// with no `..`, `:` or null byte, the host found it to be a directory, and
/// its real location -- which is what is shared -- is in no system directory
/// and not WebDesk's own state.
pub proof fn law_only_a_safe_directory_is_shared(
    value: Seq<char>,
    found: Result<(Seq<char>, bool), Seq<char>>,
    sd: Seq<char>,
)
    ensures
        path_verdict(value, found, sd) matches Ok(x) ==> {
            &&& value.len() > 0 && value[0] == '/'
            &&& !crate::text::contains(value, ".."@)
            &&& !value.contains(':') && !value.contains('\0')
            &&& found == Ok::<(Seq<char>, bool), Seq<char>>((x, true))
            &&& !system_dir_named(x)
            &&& x != sd && !starts_with(x, sd + "/"@)
        },
        (value.len() == 0 || value[0] != '/') ==> path_verdict(value, found, sd) == Err::<Seq<char>, Seq<char>>(
            value + " is not an absolute path"@),
        value.len() > 0 && value[0] == '/' && crate::text::contains(value, ".."@) ==> path_verdict(value, found, sd)
            == Err::<Seq<char>, Seq<char>>("a path may not contain .."@),
{
    reveal_strlit("/");
    if value.len() > 0 && value[0] == '/' {
        assert(value.take(1) =~= "/"@);
    }
    if let Ok(x) = path_verdict(value, found, sd) {
        lemma_system_named(x);
        assert(value.take(1)[0] == value[0]);
    }
}

/// What the browser's answers come to: the environment, the bind mounts, the
/// keys that hold secrets, and the port of an origin of its own.
pub struct Answers {
    pub env: Table<String>,
    pub mounts: Vec<(String, String, bool)>,
    pub secrets: Vec<String>,
    /// Set by a `Kind::Port` answer. Never an environment variable: the app
    /// inside goes on serving the port it always did.
    pub origin_port: Option<u16>,
}

/// The environment a table holds, as text.
pub open spec fn env_view(t: Map<Seq<char>, String>) -> Map<Seq<char>, Seq<char>> {
    t.map_values(|s: String| s@)
}

/// Bind mounts, as text.
pub open spec fn mounts_view(m: Seq<(String, String, bool)>) -> Seq<(Seq<char>, Seq<char>, bool)> {
    m.map_values(|x: (String, String, bool)| (x.0@, x.1@, x.2))
}

/// The model of a set of answers.
pub open spec fn answers_view(a: Answers) -> (Map<Seq<char>, Seq<char>>, Seq<(Seq<char>, Seq<char>, bool)>, Seq<Seq<char>>, Option<u16>) {
    (env_view(a.env@), mounts_view(a.mounts@), crate::engine::strings(a.secrets@), a.origin_port)
}

/// What the browser sent for a parameter, trimmed, or the parameter's default
/// when that is empty.
pub open spec fn given_value(given: Map<Seq<char>, String>, p: Param) -> Seq<char> {
    let raw = if given.contains_key(p.key@) {
        trim(given[p.key@]@)
    } else {
        Seq::empty()
    };
    if raw.len() == 0 {
        p.default@
    } else {
        raw
    }
}

/// What the host said about a path; a path nobody looked at cannot be used.
pub open spec fn resolution(found: Map<Seq<char>, Found>, v: Seq<char>) -> Result<(Seq<char>, bool), Seq<char>> {
    if found.contains_key(v) {
        found_view(found[v])
    } else {
        Err("nobody looked at it"@)
    }
}

/// The choices a `Choice` parameter offers, as text.
pub open spec fn options(opts: Seq<&str>) -> Seq<Seq<char>> {
    opts.map_values(|o: &str| o@)
}

/// One parameter's answer added to what the earlier ones gave.
pub open spec fn answer(
    p: Param,
    needs_origin: bool,
    given: Map<Seq<char>, String>,
    found: Map<Seq<char>, Found>,
    sd: Seq<char>,
    acc: (Map<Seq<char>, Seq<char>>, Seq<(Seq<char>, Seq<char>, bool)>, Seq<Seq<char>>, Option<u16>),
) -> Result<(Map<Seq<char>, Seq<char>>, Seq<(Seq<char>, Seq<char>, bool)>, Seq<Seq<char>>, Option<u16>), Seq<char>> {
    let value = given_value(given, p);
    if value.len() == 0 {
        if p.required {
            Err(p.label@ + " is required"@)
        } else {
            Ok(acc)
        }
    } else {
        match scalar_refusal(value) {
            Some(e) => Err(e),
            None => match p.kind {
                Kind::HostPath { at, ro } => match path_verdict(value, resolution(found, value), sd) {
                    Err(e) => Err(e),
                    Ok(host) => Ok((acc.0, acc.1.push((host, at@, ro)), acc.2, acc.3)),
                },
                Kind::Choice(opts) => if options(opts@).contains(value) {
                    Ok((acc.0.insert(p.key@, value), acc.1, acc.2, acc.3))
                } else {
                    Err(p.label@ + " must be one of "@ + crate::text::join(options(opts@), ", "@))
                },
                Kind::Toggle => if value == "true"@ || value == "false"@ {
                    Ok((acc.0.insert(p.key@, value), acc.1, acc.2, acc.3))
                } else {
                    Err(p.label@ + " must be true or false"@)
                },
                Kind::Secret => Ok((acc.0.insert(p.key@, value), acc.1, acc.2.push(p.key@), acc.3)),
                Kind::Text => Ok((acc.0.insert(p.key@, value), acc.1, acc.2, acc.3)),
                Kind::Port => if !needs_origin {
                    Ok(acc)
                } else {
                    match crate::text::parse_bounded(value, 65535) {
                        None => Err(p.label@ + " must be a number"@),
                        Some(n) => if n < 1024 {
                            Err(p.label@ + " must be 1024 or above"@)
                        } else {
                            Ok((acc.0, acc.1, acc.2, Some(n as u16)))
                        },
                    }
                },
            },
        }
    }
}

/// The answers a sequence of parameters gives, in order, or the first refusal.
pub open spec fn answered(
    ps: Seq<Param>,
    needs_origin: bool,
    given: Map<Seq<char>, String>,
    found: Map<Seq<char>, Found>,
    sd: Seq<char>,
) -> Result<(Map<Seq<char>, Seq<char>>, Seq<(Seq<char>, Seq<char>, bool)>, Seq<Seq<char>>, Option<u16>), Seq<char>>
    decreases ps.len(),
{
    if ps.len() == 0 {
        Ok((Map::empty(), Seq::empty(), Seq::empty(), None))
    } else {
        match answered(ps.drop_last(), needs_origin, given, found, sd) {
            Err(e) => Err(e),
            Ok(acc) => answer(ps.last(), needs_origin, given, found, sd, acc),
        }
    }
}

proof fn lemma_refusal_sticks(
    ps: Seq<Param>,
    i: int,
    needs_origin: bool,
    given: Map<Seq<char>, String>,
    found: Map<Seq<char>, Found>,
    sd: Seq<char>,
)
    requires
        0 <= i <= ps.len(),
        answered(ps.take(i), needs_origin, given, found, sd) is Err,
    ensures
        answered(ps, needs_origin, given, found, sd) == answered(ps.take(i), needs_origin, given, found, sd),
    decreases ps.len() - i,
{
    if i < ps.len() {
        assert(ps.drop_last().take(i) == ps.take(i));
        lemma_refusal_sticks(ps.drop_last(), i, needs_origin, given, found, sd);
    } else {
        assert(ps.take(i) == ps);
    }
}

/// Whether `v` is one of `opts`.
fn one_of(opts: &Vec<&'static str>, v: &[char]) -> (b: bool)
    ensures
        b == options(opts@).contains(v@),
{
    let mut i: usize = 0;
    while i < opts.len()
        invariant
            i <= opts@.len(),
            forall|k: int| 0 <= k < i ==> #[trigger] options(opts@)[k] != v@,
        decreases opts@.len() - i,
    {
        if same(chars_of(opts[i]).as_slice(), v) {
            assert(options(opts@)[i as int] == v@);
            return true;
        }
        i = i + 1;
    }
    false
}

/// `opts` joined by `", "`.
fn options_text(opts: &Vec<&'static str>) -> (r: Vec<char>)
    ensures
        r@ == crate::text::join(options(opts@), ", "@),
{
    let mut parts: Vec<Vec<char>> = Vec::new();
    for i in 0..opts.len()
        invariant
            crate::text::views(parts@) == options(opts@).take(i as int),
    {
        let ghost before = parts@;
        let c = chars_of(opts[i]);
        parts.push(c);
        assert(crate::text::views(parts@) =~= options(opts@).take(i + 1)) by {
            assert(crate::text::views(before).len() == before.len());
            assert forall|k: int| 0 <= k < i + 1 implies #[trigger] crate::text::views(parts@)[k] == options(
                opts@,
            ).take(i + 1)[k] by {
                if k < i {
                    assert(parts@[k] == before[k]);
                    assert(crate::text::views(before)[k] == before[k]@);
                }
            }
        }
    }
    assert(options(opts@).take(opts@.len() as int) =~= options(opts@));
    join_chars(&parts, chars_of(", ").as_slice())
}

/// The effective answer for `p`, as `given_value` describes it.
fn value_for(given: &Table<String>, p: &Param) -> (r: Vec<char>)
    requires
        given.wf(),
    ensures
        r@ == given_value(given@, *p),
{
    let raw = match given.get(p.key) {
        Some(s) => trim_chars(chars_of(s.as_str()).as_slice()),
        None => Vec::new(),
    };
    if raw.len() == 0 {
        chars_of(p.default)
    } else {
        raw
    }
}

fn text3(a: &str, b: &str) -> (r: String)
    ensures
        r@ == a@ + b@,
{
    let mut v = chars_of(a);
    v.extend_from_slice(chars_of(b).as_slice());
    string_of(v.as_slice())
}

/// Turn what the browser sent into the exact environment and mounts this entry
/// allows, and nothing else. Keys the catalog does not declare are dropped
/// rather than rejected, so a stale form cannot wedge an install, but they can
/// never reach the engine. `found` holds what the host said about each path
/// named by `paths_to_resolve`.
pub fn validate(app: &App, given: &Table<String>, found: &Table<Found>, state_dir: &str) -> (r: Result<Answers, String>)
    requires
        given.wf(),
        found.wf(),
    ensures
        match answered(app.params@, app.needs_origin, given@, found@, state_dir@) {
            Ok(m) => r matches Ok(a) && answers_view(a) == m && a.env.wf(),
            Err(e) => r matches Err(m) && m@ == e,
        },
{
    let mut out = Answers { env: Table::new(), mounts: Vec::new(), secrets: Vec::new(), origin_port: None };
    let ps = app.all_params();
    proof {
        assert(answers_view(out) =~= (Map::<Seq<char>, Seq<char>>::empty(), Seq::<(Seq<char>, Seq<char>, bool)>::empty(), Seq::<Seq<char>>::empty(), None::<u16>));
        assert(ps@.take(0) =~= Seq::<Param>::empty());
    }
    let mut i: usize = 0;
    while i < ps.len()
        invariant
            i <= ps@.len(),
            ps@ == app.params@,
            given.wf(),
            found.wf(),
            out.env.wf(),
            answered(ps@.take(i as int), app.needs_origin, given@, found@, state_dir@) == Ok::<_, Seq<char>>(answers_view(out)),
        decreases ps@.len() - i,
    {
        let p = &ps[i];
        let ghost acc = answers_view(out);
        let ghost next = answer(*p, app.needs_origin, given@, found@, state_dir@, acc);
        proof {
            assert(ps@.take(i + 1).drop_last() == ps@.take(i as int));
            assert(ps@.take(i + 1).last() == *p);
            assert(answered(ps@.take(i + 1), app.needs_origin, given@, found@, state_dir@) == next);
        }
        let value = value_for(given, p);
        let sv = string_of(value.as_slice());
        if value.len() == 0 {
            if p.required {
                proof {
                    lemma_refusal_sticks(ps@, i + 1, app.needs_origin, given@, found@, state_dir@);
                }
                return Err(text3(p.label, " is required"));
            }
        } else {
            match check_scalar(sv.as_str()) {
                Err(e) => {
                    proof {
                        lemma_refusal_sticks(ps@, i + 1, app.needs_origin, given@, found@, state_dir@);
                    }
                    return Err(e);
                },
                Ok(()) => {},
            }
            match &p.kind {
                Kind::HostPath { at, ro } => {
                    let missing = Found::Missing("nobody looked at it".to_owned());
                    let f = match found.get(sv.as_str()) {
                        Some(f) => f,
                        None => &missing,
                    };
                    match check_path(sv.as_str(), f, state_dir) {
                        Err(e) => {
                            proof {
                                lemma_refusal_sticks(ps@, i + 1, app.needs_origin, given@, found@, state_dir@);
                            }
                            return Err(e);
                        },
                        Ok(host) => {
                            let ghost m0 = out.mounts@;
                            out.mounts.push((host, (*at).to_owned(), *ro));
                            assert(mounts_view(out.mounts@) =~= mounts_view(m0).push((host@, at@, *ro)));
                        },
                    }
                },
                Kind::Choice(opts) => {
                    if !one_of(opts, value.as_slice()) {
                        let t = options_text(opts);
                        let mut msg = chars_of(p.label);
                        msg.extend_from_slice(chars_of(" must be one of ").as_slice());
                        msg.extend_from_slice(t.as_slice());
                        proof {
                            lemma_refusal_sticks(ps@, i + 1, app.needs_origin, given@, found@, state_dir@);
                        }
                        return Err(string_of(msg.as_slice()));
                    }
                    let ghost e0 = out.env@;
                    out.env.insert(p.key.to_string(), sv);
                    assert(env_view(out.env@) =~= env_view(e0).insert(p.key@, value@));
                },
                Kind::Toggle => {
                    proof {
                        reveal_strlit("true");
                        reveal_strlit("false");
                    }
                    if !(same(value.as_slice(), chars_of("true").as_slice()) || same(value.as_slice(), chars_of("false").as_slice())) {
                        proof {
                            lemma_refusal_sticks(ps@, i + 1, app.needs_origin, given@, found@, state_dir@);
                        }
                        return Err(text3(p.label, " must be true or false"));
                    }
                    let ghost e0 = out.env@;
                    out.env.insert(p.key.to_string(), sv);
                    assert(env_view(out.env@) =~= env_view(e0).insert(p.key@, value@));
                },
                Kind::Secret => {
                    let ghost e0 = out.env@;
                    let ghost s0 = out.secrets@;
                    out.secrets.push(p.key.to_string());
                    out.env.insert(p.key.to_string(), sv);
                    assert(env_view(out.env@) =~= env_view(e0).insert(p.key@, value@));
                    assert(crate::engine::strings(out.secrets@) =~= crate::engine::strings(s0).push(p.key@));
                },
                Kind::Text => {
                    let ghost e0 = out.env@;
                    out.env.insert(p.key.to_string(), sv);
                    assert(env_view(out.env@) =~= env_view(e0).insert(p.key@, value@));
                },
                Kind::Port => {
                    if app.needs_origin {
                        match crate::text::parse_uint(value.as_slice(), 65535) {
                            None => {
                                proof {
                                    lemma_refusal_sticks(ps@, i + 1, app.needs_origin, given@, found@, state_dir@);
                                }
                                return Err(text3(p.label, " must be a number"));
                            },
                            Some(n) => {
                                if n < 1024 {
                                    proof {
                                        lemma_refusal_sticks(ps@, i + 1, app.needs_origin, given@, found@, state_dir@);
                                    }
                                    return Err(text3(p.label, " must be 1024 or above"));
                                }
                                out.origin_port = Some(n as u16);
                            },
                        }
                    }
                },
            }
        }
        assert(next == Ok::<_, Seq<char>>(answers_view(out)));
        i = i + 1;
    }
    assert(ps@.take(ps@.len() as int) == ps@);
    Ok(out)
}

/// The directories a set of answers names, in order, which the host has to be
/// asked about before `validate` can judge them.
pub open spec fn path_values(ps: Seq<Param>, given: Map<Seq<char>, String>) -> Seq<Seq<char>>
    decreases ps.len(),
{
    if ps.len() == 0 {
        Seq::empty()
    } else {
        let rest = path_values(ps.drop_last(), given);
        let p = ps.last();
        if p.kind is HostPath && given_value(given, p).len() > 0 {
            rest.push(given_value(given, p))
        } else {
            rest
        }
    }
}

/// The paths the host must be asked about for these answers.
pub fn paths_to_resolve(app: &App, given: &Table<String>) -> (r: Vec<String>)
    requires
        given.wf(),
    ensures
        crate::engine::strings(r@) == path_values(app.params@, given@),
{
    let ps = app.all_params();
    let mut out: Vec<String> = Vec::new();
    for i in 0..ps.len()
        invariant
            ps@ == app.params@,
            given.wf(),
            crate::engine::strings(out@) == path_values(ps@.take(i as int), given@),
    {
        assert(ps@.take(i + 1).drop_last() == ps@.take(i as int));
        assert(ps@.take(i + 1).last() == ps@[i as int]);
        let ghost before = out@;
        if let Kind::HostPath { .. } = &ps[i].kind {
            let v = value_for(given, &ps[i]);
            if v.len() > 0 {
                out.push(string_of(v.as_slice()));
                assert(crate::engine::strings(out@) =~= crate::engine::strings(before).push(v@));
            }
        }
    }
    assert(ps@.take(ps@.len() as int) == ps@);
    out
}

// ------------------------------------------------------------------ installing

/// An install refused, with the HTTP status it is answered with.
pub struct Refusal {
    pub status: u16,
    pub message: String,
}

/// The image tags an install may ask for. This half of the reference decides
/// what code runs, so it is an allow-list rather than taken as typed.
pub open spec fn offered_tag(t: Seq<char>) -> bool {
    t == "latest"@ || t == "develop"@
}

/// The tag an install asked for, with an empty one meaning `latest`.
pub open spec fn tag_of(t: Seq<char>) -> Seq<char> {
    if t.len() == 0 {
        "latest"@
    } else {
        t
    }
}

/// The tag an install pulls is the one asked for: an empty request means
/// `latest`, and any other tag is kept exactly as asked -- `develop` pulls
/// `develop`. The tag check passes exactly for an empty tag, `latest` and
/// `develop`.
pub proof fn law_the_tag_asked_is_the_tag_pulled(t: Seq<char>)
    ensures
        t.len() > 0 ==> tag_of(t) == t,
        t.len() == 0 ==> tag_of(t) == "latest"@,
        offered_tag(tag_of(t)) <==> (t.len() == 0 || t == "latest"@ || t == "develop"@),
{
}

/// What an install request asked for.
pub struct InstallReq {
    pub slug: String,
    pub params: Table<String>,
    pub tag: String,
    /// Consent to install the host packages a service entry needs: a bare
    /// `true`, because what would be installed is decided by the catalog.
    pub accept_packages: bool,
}

/// What an install that passed the first checks carries forward: the tag, the
/// answers, and the port the container will publish on.
pub struct Admitted {
    pub tag: String,
    pub answers: Answers,
    pub port: u16,
}

/// The first checks of a container install, in the order they are made: the
/// tag is one offered, the app is not installed already, the answers are
/// valid, and a port is free.
pub open spec fn admission(
    app: App,
    tag: Seq<char>,
    params: Map<Seq<char>, String>,
    apps: Map<Seq<char>, Installed>,
    found: Map<Seq<char>, Found>,
    sd: Seq<char>,
) -> Result<(), (u16, Seq<char>)> {
    if !offered_tag(tag_of(tag)) {
        Err((400, tag_of(tag) + " is not an offered tag"@))
    } else if apps.contains_key(app.slug@) {
        Err((409, app.name@ + " is already installed"@))
    } else {
        match answered(app.params@, app.needs_origin, params, found, sd) {
            Err(e) => Err((400, e)),
            Ok(_) => if forall|q: int| PORT_LOW <= q <= PORT_HIGH ==> port_taken(apps, q) {
                Err((409, "no free port left for another app"@))
            } else {
                Ok(())
            },
        }
    }
}

fn refuse(status: u16, message: String) -> (r: Refusal)
    ensures
        r.status == status,
        r.message == message,
{
    Refusal { status, message }
}

/// The first half of a container install. The caller has found an engine that
/// answers and no install running; what follows this is making the app's state
/// directory, and then `assemble`.
pub fn first_checks(app: &App, req: &InstallReq, book: &Book, found: &Table<Found>, state_dir: &str) -> (r: Result<Admitted, Refusal>)
    requires
        req.params.wf(),
        book.apps.wf(),
        found.wf(),
    ensures
        match admission(*app, req.tag@, req.params@, book.apps@, found@, state_dir@) {
            Err((st, msg)) => r matches Err(f) && f.status == st && f.message@ == msg,
            Ok(()) => r matches Ok(a) && {
                &&& a.tag@ == tag_of(req.tag@)
                &&& answered(app.params@, app.needs_origin, req.params@, found@, state_dir@) == Ok::<_, Seq<char>>(answers_view(a.answers))
                &&& a.answers.env.wf()
                &&& PORT_LOW <= a.port <= PORT_HIGH
                &&& !port_taken(book.apps@, a.port as int)
                &&& forall|q: int| PORT_LOW <= q < a.port ==> port_taken(book.apps@, q)
            },
        },
{
    proof {
        reveal_strlit("latest");
        reveal_strlit("develop");
    }
    let t = chars_of(req.tag.as_str());
    let tag = if t.len() == 0 {
        chars_of("latest")
    } else {
        t
    };
    if !(same(tag.as_slice(), chars_of("latest").as_slice()) || same(tag.as_slice(), chars_of("develop").as_slice())) {
        return Err(refuse(400, concat(tag.as_slice(), " is not an offered tag")));
    }
    if book.apps.contains_key(app.slug) {
        return Err(refuse(409, text3(app.name, " is already installed")));
    }
    let answers = match validate(app, &req.params, found, state_dir) {
        Ok(a) => a,
        Err(e) => return Err(refuse(400, e)),
    };
    let port = match free_port(book) {
        Ok(p) => p,
        Err(e) => return Err(refuse(409, e)),
    };
    Ok(Admitted { tag: string_of(tag.as_slice()), answers, port })
}

/// Settings applied in order, each replacing what an earlier one set.
pub open spec fn with_pairs(m: Map<Seq<char>, Seq<char>>, s: Seq<(&str, &str)>) -> Map<Seq<char>, Seq<char>>
    decreases s.len(),
{
    if s.len() == 0 {
        m
    } else {
        with_pairs(m, s.drop_last()).insert(s.last().0@, s.last().1@)
    }
}

/// Generated values stored under their keys, in order.
pub open spec fn with_generated(m: Map<Seq<char>, Seq<char>>, keys: Seq<&str>, vals: Seq<Seq<char>>) -> Map<Seq<char>, Seq<char>>
    decreases keys.len(),
{
    if keys.len() == 0 {
        m
    } else {
        with_generated(m, keys.drop_last(), vals).insert(keys.last()@, vals[keys.len() - 1])
    }
}

/// The environment a container is created with: the answers, then what
/// WebDesk fixes -- the ids the files are owned by, the host's clock, the
/// title, the prefix, and for an app that draws on a host with a render node
/// `DRI_NODE` and `DRINODE`, both naming that node -- then the entry's own
/// settings, applied after the answers so that no parameter can redefine one,
/// and last the generated keys.
pub open spec fn planned_env(
    app: App,
    answers: Map<Seq<char>, Seq<char>>,
    uid: u32,
    gid: u32,
    tz: Seq<char>,
    gpu: Option<crate::engine::Gpu>,
    generated: Seq<Seq<char>>,
) -> Map<Seq<char>, Seq<char>> {
    let e1 = if app.ids {
        answers.insert("PUID"@, decimal(uid as nat)).insert("PGID"@, decimal(gid as nat))
    } else {
        answers
    };
    let e2 = if app.lsio {
        e1.insert("TZ"@, tz)
    } else {
        e1
    };
    let e3 = match app.title {
        Some(t) => e2.insert("TITLE"@, t@),
        None => e2,
    };
    let e4 = match app.base {
        Some(b) => e3.insert(b.key@, crate::catalog::base_text(b.template@, "/app/"@ + app.slug@)),
        None => e3,
    };
    let e5 = match gpu {
        Some(g) if app.draws => e4.insert("DRI_NODE"@, g.node@).insert("DRINODE"@, g.node@),
        _ => e4,
    };
    with_generated(with_pairs(e5, app.env@), app.generated@, generated)
}

/// What the host contributes to a container install, each decided before the
/// plan is made: who is installing, the host's clock, the shared home and
/// fonts, the app's state directory, whether the engine socket is there, the
/// render node, whether the engine labels, the port WebDesk listens on, and
/// the time.
pub struct Facts {
    pub uid: u32,
    pub gid: u32,
    pub actor: String,
    pub timezone: String,
    pub home: Option<(String, String, bool)>,
    pub shared_home: String,
    pub fonts: Option<(String, String, bool)>,
    pub config_dir: Option<String>,
    pub socket_exists: bool,
    pub gpu: Option<crate::engine::Gpu>,
    pub relabel: bool,
    pub listen_port: Option<u16>,
    pub now: u64,
}

/// `k` is the first app in slug order that serves this origin port.
pub open spec fn first_origin_holder(apps: Map<Seq<char>, Installed>, want: u16, k: Seq<char>) -> bool {
    &&& apps.contains_key(k)
    &&& apps[k].origin_port == Some(want)
    &&& forall|k2: Seq<char>| #[trigger] apps.contains_key(k2) && apps[k2].origin_port == Some(want) && k2 != k
        ==> key_lt(k, k2)
}

/// `k` is the first app in slug order that answers at this port.
pub open spec fn first_port_holder(apps: Map<Seq<char>, Installed>, port: u16, k: Seq<char>) -> bool {
    &&& apps.contains_key(k)
    &&& apps[k].port == port
    &&& forall|k2: Seq<char>| #[trigger] apps.contains_key(k2) && apps[k2].port == port && k2 != k ==> key_lt(k, k2)
}

/// Some installed app already serves this origin port.
pub open spec fn origin_taken(apps: Map<Seq<char>, Installed>, want: u16) -> bool {
    exists|k: Seq<char>| apps.contains_key(k) && #[trigger] apps[k].origin_port == Some(want)
}

/// The bind mounts a container is created with: the answers' directories, the
/// shared home, the host's fonts for an app that draws, the app's own state
/// directory, and the engine socket for an entry that names one.
pub open spec fn planned_mounts(app: App, answers: Seq<(Seq<char>, Seq<char>, bool)>, f: Facts) -> Seq<(Seq<char>, Seq<char>, bool)> {
    let m1 = answers + match f.home {
        Some(h) => seq![crate::engine::mount_view(h)],
        None => Seq::empty(),
    };
    let m2 = m1 + if app.draws {
        match f.fonts {
            Some(x) => seq![crate::engine::mount_view(x)],
            None => Seq::empty(),
        }
    } else {
        Seq::empty()
    };
    let m3 = m2 + match (f.config_dir, app.config_at) {
        (Some(d), Some(at)) => seq![(d@, at@, false)],
        _ => Seq::empty(),
    };
    m3 + match app.socket {
        Some(sock) => seq![(sock@, sock@, false)],
        None => Seq::empty(),
    }
}

/// Why the second half of an install refuses, past an origin port another app
/// already serves: the port WebDesk itself listens on, or an engine socket the
/// entry needs and the host has not got.
pub open spec fn assembly_refusal(app: App, origin_port: Option<u16>, f: Facts) -> Option<(u16, Seq<char>)> {
    match origin_port {
        Some(want) if f.listen_port == Some(want) => Some((409, "port "@ + decimal(want as nat) + " is the one WebDesk itself listens on"@)),
        _ => match app.socket {
            Some(sock) if !f.socket_exists => Some((409, app.name@ + " needs the engine socket at "@ + sock@ + ", which is not there"@)),
            _ => None,
        },
    }
}

/// An app already serving this origin port, if there is one.
fn origin_holder(book: &Book, want: u16) -> (r: Option<String>)
    requires
        book.apps.wf(),
    ensures
        match r {
            Some(k) => first_origin_holder(book.apps@, want, k@),
            None => !origin_taken(book.apps@, want),
        },
{
    let s = &book.apps.entries;
    let mut i: usize = 0;
    while i < s.len()
        invariant
            i <= s@.len(),
            s@ == book.apps.entries@,
            keys_unique(s@),
            sorted(s@),
            forall|j: int| 0 <= j < i ==> (#[trigger] s@[j]).1.origin_port != Some(want),
        decreases s@.len() - i,
    {
        if s[i].1.origin_port == Some(want) {
            proof {
                lemma_entry(s@, i as int);
                assert forall|k2: Seq<char>| #[trigger] book.apps@.contains_key(k2) && book.apps@[k2].origin_port == Some(want)
                    && k2 != s@[i as int].0@ implies key_lt(s@[i as int].0@, k2) by {
                    lemma_key(s@, k2);
                    let j = index_of(s@, k2);
                    assert(s@[j].1.origin_port == Some(want));
                    assert(j > i);
                }
            }
            return Some(s[i].0.clone());
        }
        i = i + 1;
    }
    proof {
        assert forall|k: Seq<char>| book.apps@.contains_key(k) implies #[trigger] book.apps@[k].origin_port
            != Some(want) by {
            lemma_key(s@, k);
            let j = index_of(s@, k);
            assert(s@[j].1.origin_port != Some(want));
        }
    }
    None
}

/// A string copy of each pair.
fn copy_pairs(v: &Vec<(String, String)>) -> (r: Vec<(String, String)>)
    ensures
        r@ == v@,
{
    let mut r: Vec<(String, String)> = Vec::new();
    for i in 0..v.len()
        invariant
            r@ == v@.take(i as int),
    {
        r.push((v[i].0.clone(), v[i].1.clone()));
        assert(r@ =~= v@.take(i + 1));
    }
    assert(v@.take(v@.len() as int) =~= v@);
    r
}

/// A copy of each mount.
fn copy_mounts(v: &Vec<(String, String, bool)>) -> (r: Vec<(String, String, bool)>)
    ensures
        r@ == v@,
{
    let mut r: Vec<(String, String, bool)> = Vec::new();
    for i in 0..v.len()
        invariant
            r@ == v@.take(i as int),
    {
        r.push((v[i].0.clone(), v[i].1.clone(), v[i].2));
        assert(r@ =~= v@.take(i + 1));
    }
    assert(v@.take(v@.len() as int) =~= v@);
    r
}

/// A copy of each string.
fn copy_strings(v: &Vec<String>) -> (r: Vec<String>)
    ensures
        r@ == v@,
{
    let mut r: Vec<String> = Vec::new();
    for i in 0..v.len()
        invariant
            r@ == v@.take(i as int),
    {
        r.push(v[i].clone());
        assert(r@ =~= v@.take(i + 1));
    }
    assert(v@.take(v@.len() as int) =~= v@);
    r
}

/// A copy of each number.
fn copy_u32s(v: &Vec<u32>) -> (r: Vec<u32>)
    ensures
        r@ == v@,
{
    let mut r: Vec<u32> = Vec::new();
    for i in 0..v.len()
        invariant
            r@ == v@.take(i as int),
    {
        r.push(v[i]);
        assert(r@ =~= v@.take(i + 1));
    }
    assert(v@.take(v@.len() as int) =~= v@);
    r
}

/// Store one variable.
fn put(env: &mut Table<String>, k: String, v: String)
    requires
        old(env).wf(),
    ensures
        final(env).wf(),
        env_view(final(env)@) == env_view(old(env)@).insert(k@, v@),
{
    let ghost e0 = env@;
    let ghost kv = k@;
    let ghost vv = v@;
    env.insert(k, v);
    assert(env_view(env@) =~= env_view(e0).insert(kv, vv));
}

/// The devices an app is given: the render node, for an app that draws on a
/// host that has one.
pub open spec fn planned_devices(app: App, gpu: Option<crate::engine::Gpu>) -> Seq<Seq<char>> {
    match gpu {
        Some(g) if app.draws => seq![g.node@],
        _ => Seq::empty(),
    }
}

/// The groups an app is added to, to open that node.
pub open spec fn planned_groups(app: App, gpu: Option<crate::engine::Gpu>) -> Seq<u32> {
    match gpu {
        Some(g) if app.draws => g.groups@,
        _ => Seq::empty(),
    }
}


/// The environment `planned_env` describes.
fn env_for(app: &App, start: Table<String>, f: &Facts, generated: &Vec<String>) -> (env: Table<String>)
    requires
        start.wf(),
        generated@.len() == app.generated@.len(),
    ensures
        env.wf(),
        env_view(env@) == planned_env(*app, env_view(start@), f.uid, f.gid, f.timezone@, f.gpu, crate::engine::strings(generated@)),
{
    let mut env = start;
    if app.ids {
        put(&mut env, "PUID".to_owned(), string_of(decimal_chars(f.uid as u64).as_slice()));
        put(&mut env, "PGID".to_owned(), string_of(decimal_chars(f.gid as u64).as_slice()));
    }
    if app.lsio {
        put(&mut env, crate::catalog::TZ_KEY.to_owned(), f.timezone.clone());
    }
    if let Some(t) = app.title {
        put(&mut env, "TITLE".to_owned(), t.to_owned());
    }
    let prefix = concat(chars_of("/app/").as_slice(), app.slug);
    if let Some((key, value)) = app.base_value(prefix.as_str()) {
        put(&mut env, key.to_owned(), value);
    }
    if app.draws {
        if let Some(g) = &f.gpu {
            put(&mut env, "DRI_NODE".to_owned(), g.node.clone());
            put(&mut env, "DRINODE".to_owned(), g.node.clone());
        }
    }
    let ghost e4 = env_view(env@);
    proof {
        assert(app.env@.take(0) =~= Seq::<(&str, &str)>::empty());
    }
    for i in 0..app.env.len()
        invariant
            env.wf(),
            env_view(env@) == with_pairs(e4, app.env@.take(i as int)),
    {
        assert(app.env@.take(i + 1).drop_last() == app.env@.take(i as int));
        put(&mut env, app.env[i].0.to_owned(), app.env[i].1.to_owned());
    }
    assert(app.env@.take(app.env@.len() as int) == app.env@);
    let ghost e5 = env_view(env@);
    proof {
        assert(app.generated@.take(0) =~= Seq::<&str>::empty());
    }
    for i in 0..app.generated.len()
        invariant
            env.wf(),
            generated@.len() == app.generated@.len(),
            env_view(env@) == with_generated(e5, app.generated@.take(i as int), crate::engine::strings(generated@)),
    {
        assert(app.generated@.take(i + 1).drop_last() == app.generated@.take(i as int));
        put(&mut env, app.generated[i].to_owned(), generated[i].clone());
    }
    assert(app.generated@.take(app.generated@.len() as int) == app.generated@);
    env
}

/// The secrets recorded: the answered ones, then every generated key.
fn secrets_for(app: &App, start: Vec<String>) -> (r: Vec<String>)
    ensures
        crate::engine::strings(r@) == crate::engine::strings(start@) + app.generated@.map_values(|k: &str| k@),
{
    let mut secrets = start;
    let ghost s0 = crate::engine::strings(secrets@);
    proof {
        assert(app.generated@.take(0).map_values(|k: &str| k@) =~= Seq::<Seq<char>>::empty());
        assert(s0 + Seq::<Seq<char>>::empty() =~= s0);
    }
    for i in 0..app.generated.len()
        invariant
            crate::engine::strings(secrets@) == s0 + app.generated@.take(i as int).map_values(|k: &str| k@),
    {
        let ghost sb = secrets@;
        secrets.push(app.generated[i].to_owned());
        assert(crate::engine::strings(secrets@) =~= s0 + app.generated@.take(i + 1).map_values(|k: &str| k@)) by {
            assert(crate::engine::strings(secrets@) =~= crate::engine::strings(sb).push(app.generated@[i as int]@));
            assert(app.generated@.take(i + 1).map_values(|k: &str| k@) =~= app.generated@.take(i as int).map_values(|k: &str| k@).push(app.generated@[i as int]@));
        }
    }
    assert(app.generated@.take(app.generated@.len() as int) == app.generated@);
    secrets
}

/// The bind mounts `planned_mounts` describes.
fn mounts_for(app: &App, start: Vec<(String, String, bool)>, f: &Facts) -> (mounts: Vec<(String, String, bool)>)
    ensures
        mounts_view(mounts@) == planned_mounts(*app, mounts_view(start@), *f),
{
    let mut mounts = start;
    let ghost m0 = mounts_view(mounts@);
    if let Some(h) = &f.home {
        mounts.push((h.0.clone(), h.1.clone(), h.2));
    }
    let ghost m1 = mounts_view(mounts@);
    assert(m1 =~= m0 + match f.home {
        Some(h) => seq![crate::engine::mount_view(h)],
        None => Seq::empty(),
    });
    if app.draws {
        if let Some(x) = &f.fonts {
            mounts.push((x.0.clone(), x.1.clone(), x.2));
        }
    }
    let ghost m2 = mounts_view(mounts@);
    assert(m2 =~= m1 + if app.draws {
        match f.fonts {
            Some(x) => seq![crate::engine::mount_view(x)],
            None => Seq::empty(),
        }
    } else {
        Seq::empty()
    });
    match (&f.config_dir, app.config_at) {
        (Some(d), Some(at)) => {
            mounts.push((d.clone(), at.to_owned(), false));
        },
        _ => {},
    }
    let ghost m3 = mounts_view(mounts@);
    assert(m3 =~= m2 + match (f.config_dir, app.config_at) {
        (Some(d), Some(at)) => seq![(d@, at@, false)],
        _ => Seq::empty(),
    });
    if let Some(sock) = app.socket {
        mounts.push((sock.to_owned(), sock.to_owned(), false));
    }
    assert(mounts_view(mounts@) =~= m3 + match app.socket {
        Some(sock) => seq![(sock@, sock@, false)],
        None => Seq::empty(),
    });
    mounts
}

/// What the second half of a container install comes to, given the installed
/// apps, what the host said and the values generated for the entry's keys: a
/// refusal for an origin port another app serves, naming that app; the other
/// refusals of `assembly_refusal`; else the record to write and what the
/// engine is asked to create, every field of each fixed.
pub open spec fn install_outcome(
    app: App,
    admitted: Admitted,
    apps: Map<Seq<char>, Installed>,
    f: Facts,
    generated: Seq<Seq<char>>,
    r: Result<(Installed, crate::engine::RunSpec), Refusal>,
) -> bool {
    match admitted.answers.origin_port {
        Some(want) if origin_taken(apps, want) => r matches Err(x) && x.status == 409 && exists|k: Seq<char>|
            #[trigger] first_origin_holder(apps, want, k) && x.message@ == "port "@ + decimal(want as nat) + " is already serving "@ + k,
        _ => match assembly_refusal(app, admitted.answers.origin_port, f) {
            Some((st, msg)) => r matches Err(x) && x.status == st && x.message@ == msg,
            None => r matches Ok((rec, spec)) && {
                &&& rec.slug@ == app.slug@
                &&& rec.image@ == app.image@ + ":"@ + admitted.tag@
                &&& rec.port == admitted.port
                &&& rec.tls == app.tls
                &&& rec.env.wf()
                &&& env_view(rec.env@) == planned_env(app, env_view(admitted.answers.env@), f.uid, f.gid, f.timezone@, f.gpu, generated)
                &&& mounts_view(rec.mounts@) == planned_mounts(app, mounts_view(admitted.answers.mounts@), f)
                &&& crate::engine::strings(rec.devices@) == planned_devices(app, f.gpu)
                &&& crate::engine::strings(rec.secrets@) == crate::engine::strings(admitted.answers.secrets@) + app.generated@.map_values(|k: &str| k@)
                &&& rec.installed == f.now
                &&& rec.actor@ == f.actor@
                &&& rec.origin_port == admitted.answers.origin_port
                &&& rec.unit is None && rec.flatpak is None && !rec.adopted
                &&& spec.slug@ == app.slug@
                &&& spec.image@ == rec.image@
                &&& spec.host_port == admitted.port
                &&& spec.container_port == app.port
                &&& spec.env@ == rec.env.entries@
                &&& spec.mounts@ == rec.mounts@
                &&& crate::apps::opt_string(spec.shm) == crate::apps::opt_str(app.shm)
                &&& spec.devices@ == rec.devices@
                &&& spec.groups@ == planned_groups(app, f.gpu)
                &&& spec.relabel == f.relabel
                &&& spec.shared_home@ == f.shared_home@
            },
        },
    }
}

/// The second half of a container install: the record that will be written
/// once the container exists, and what the engine is asked to create. Every
/// value in either comes from the catalog entry, the checked answers, what the
/// host said, or `generated` -- one fresh value per key the entry generates --
/// and from nothing else a request sent.
pub fn assemble(app: &App, admitted: Admitted, book: &Book, f: &Facts, generated: &Vec<String>) -> (r: Result<(Installed, crate::engine::RunSpec), Refusal>)
    requires
        book.apps.wf(),
        admitted.answers.env.wf(),
        generated@.len() == app.generated@.len(),
    ensures
        install_outcome(*app, admitted, book.apps@, *f, crate::engine::strings(generated@), r),
{
    let Admitted { tag, answers, port } = admitted;
    let Answers { env: answer_env, mounts: answer_mounts, secrets: answer_secrets, origin_port } = answers;
    if let Some(want) = origin_port {
        if let Some(other) = origin_holder(book, want) {
            let mut v = chars_of("port ");
            v.extend_from_slice(decimal_chars(want as u64).as_slice());
            v.extend_from_slice(chars_of(" is already serving ").as_slice());
            v.extend_from_slice(chars_of(other.as_str()).as_slice());
            let r = Err(refuse(409, string_of(v.as_slice())));
            assert(r matches Err(x) && x.status == 409 && first_origin_holder(book.apps@, want, other@)
                && x.message@ == "port "@ + decimal(want as nat) + " is already serving "@ + other@);
            return r;
        }
        if f.listen_port == Some(want) {
            let mut v = chars_of("port ");
            v.extend_from_slice(decimal_chars(want as u64).as_slice());
            v.extend_from_slice(chars_of(" is the one WebDesk itself listens on").as_slice());
            let r = Err(refuse(409, string_of(v.as_slice())));
            assert(!origin_taken(book.apps@, want));
            assert(r matches Err(x) && x.status == 409 && x.message@ == "port "@ + decimal(want as nat) + " is the one WebDesk itself listens on"@);
            return r;
        }
    }

    if let Some(sock) = app.socket {
        if !f.socket_exists {
            let mut v = chars_of(app.name);
            v.extend_from_slice(chars_of(" needs the engine socket at ").as_slice());
            v.extend_from_slice(chars_of(sock).as_slice());
            v.extend_from_slice(chars_of(", which is not there").as_slice());
            let r = Err(refuse(409, string_of(v.as_slice())));
            assert(r matches Err(x) && x.message@ == app.name@ + " needs the engine socket at "@ + sock@ + ", which is not there"@);
            return r;
        }
    }
    let env = env_for(app, answer_env, f, generated);
    let secrets = secrets_for(app, answer_secrets);
    let mounts = mounts_for(app, answer_mounts, f);

    // The render node.
    let (devices, groups): (Vec<String>, Vec<u32>) = match &f.gpu {
        Some(g) if app.draws => (vec![g.node.clone()], copy_u32s(&g.groups)),
        _ => (Vec::new(), Vec::new()),
    };
    assert(crate::engine::strings(devices@) =~= planned_devices(*app, f.gpu));

    let image = concat3(chars_of(app.image).as_slice(), ":", chars_of(tag.as_str()).as_slice());
    let spec = crate::engine::RunSpec {
        slug: app.slug.to_owned(),
        image: image.clone(),
        host_port: port,
        container_port: app.port,
        env: copy_pairs(&env.entries),
        mounts: copy_mounts(&mounts),
        shm: match app.shm {
            Some(x) => Some(x.to_owned()),
            None => None,
        },
        devices: copy_strings(&devices),
        groups,
        relabel: f.relabel,
        shared_home: f.shared_home.clone(),
    };
    let rec = Installed {
        slug: app.slug.to_owned(),
        image,
        port,
        tls: app.tls,
        env,
        mounts,
        devices,
        secrets,
        installed: f.now,
        actor: f.actor.clone(),
        origin_port,
        unit: None,
        flatpak: None,
        adopted: false,
    };
    Ok((rec, spec))
}

// ------------------------------------------------------------------- secrets

/// 32 bytes from the system's generator: `rand::thread_rng().fill`. Only the
/// length is stated; the bytes are the generator's. Left unsaid: `rand`
/// panics, rather than returning, when the operating system cannot seed the
/// generator or the fill fails -- a condition of the machine, not of any
/// argument, so no `requires` can rule it out.
#[verifier::external_body]
fn random_bytes() -> (r: Vec<u8>)
    ensures
        r@.len() == 32,
{
    let mut b = [0u8; 32];
    rand::thread_rng().fill(&mut b);
    b.to_vec()
}

/// The lower-case hex digit for a value below 16.
pub open spec fn hex_digit(d: u8) -> char {
    if d < 10 {
        ((d + 48) as u8) as char
    } else {
        ((d + 87) as u8) as char
    }
}

/// Each byte as two lower-case hex digits: what `format!("{x:02x}")` writes.
pub open spec fn hex_of(b: Seq<u8>) -> Seq<char>
    decreases b.len(),
{
    if b.len() == 0 {
        Seq::empty()
    } else {
        hex_of(b.drop_last()).push(hex_digit(b.last() / 16)).push(hex_digit(b.last() % 16))
    }
}

fn hex_char(d: u8) -> (c: char)
    requires
        d < 16,
    ensures
        c == hex_digit(d),
{
    if d < 10 {
        ((d + 48) as u8) as char
    } else {
        ((d + 87) as u8) as char
    }
}

/// Bytes as lower-case hex.
pub fn hex(bytes: &[u8]) -> (r: String)
    ensures
        r@ == hex_of(bytes@),
{
    let mut v: Vec<char> = Vec::new();
    for i in 0..bytes.len()
        invariant
            v@ == hex_of(bytes@.take(i as int)),
    {
        assert(bytes@.take(i + 1).drop_last() == bytes@.take(i as int));
        let b = bytes[i];
        v.push(hex_char(b / 16));
        v.push(hex_char(b % 16));
    }
    assert(bytes@.take(bytes@.len() as int) == bytes@);
    string_of(v.as_slice())
}

proof fn lemma_hex_len(b: Seq<u8>)
    ensures
        hex_of(b).len() == 2 * b.len(),
        forall|i: int| 0 <= i < hex_of(b).len() ==> ('0' <= #[trigger] hex_of(b)[i] <= '9' || 'a' <= hex_of(b)[i] <= 'f'),
    decreases b.len(),
{
    if b.len() > 0 {
        lemma_hex_len(b.drop_last());
    }
}

/// A generated value: 64 lower-case hex digits, standing for 32 bytes.
pub open spec fn secret_text(s: Seq<char>) -> bool {
    &&& exists|b: Seq<u8>| b.len() == 32 && s == hex_of(b)
    &&& s.len() == 64
    &&& forall|i: int| 0 <= i < s.len() ==> ('0' <= #[trigger] s[i] <= '9' || 'a' <= s[i] <= 'f')
}

/// A value for a variable an application needs but nobody should pick: 32
/// bytes from the system generator, hex-encoded. Whatever the generator gave,
/// it is 64 lower-case hex digits standing for 32 bytes.
pub fn fresh_secret() -> (r: String)
    ensures
        secret_text(r@),
{
    let b = random_bytes();
    let r = hex(b.as_slice());
    proof {
        lemma_hex_len(b@);
    }
    r
}

/// The second half of a container install with a fresh value for every key
/// the entry generates: the plan `assemble` makes for those values.
pub fn plan_install(app: &App, admitted: Admitted, book: &Book, f: &Facts) -> (r: Result<(Installed, crate::engine::RunSpec), Refusal>)
    requires
        book.apps.wf(),
        admitted.answers.env.wf(),
    ensures
        exists|g: Seq<Seq<char>>|
            g.len() == app.generated@.len()
            && (forall|i: int| 0 <= i < g.len() ==> secret_text(#[trigger] g[i]))
            && install_outcome(*app, admitted, book.apps@, *f, g, r),
{
    let mut generated: Vec<String> = Vec::new();
    for i in 0..app.generated.len()
        invariant
            generated@.len() == i,
            forall|k: int| 0 <= k < i ==> secret_text((#[trigger] generated@[k])@),
    {
        generated.push(fresh_secret());
    }
    let r = assemble(app, admitted, book, f, &generated);
    let ghost g = crate::engine::strings(generated@);
    assert(forall|i: int| 0 <= i < g.len() ==> secret_text(#[trigger] g[i]));
    r
}

/// What a start, stop, remove, open or close request names: the slug, and for
/// a removal whether the app's data goes too and whether uninstalling a
/// host-wide Flatpak has been agreed to. There is no uid and no unit here: who
/// is asking comes from the session, and what is acted on from the record.
pub struct SlugReq {
    pub slug: String,
    pub purge: bool,
    pub accept_uninstall: bool,
}

// ----------------------------------------------------------- opening and closing

/// The socket a person's copy of a streamed app listens on and the user unit
/// that starts it. The uid comes from the identity the session cookie resolved
/// to and from nothing else: there is no uid in any request.
pub fn user_session(ident: &crate::auth::Identity, slug: &str) -> (r: (String, String))
    ensures
        r.0@ == crate::rfb::socket_path_of(ident.uid, slug@),
        r.1@ == crate::systemd::app_unit_of(slug@),
{
    (crate::rfb::socket_path(ident.uid, slug), crate::systemd::app_unit(slug))
}

/// Why `open` or `close` refuses a slug, if it does: it is not installed, or
/// it is a streamed app whose catalog entry has gone, so nothing in this build
/// knows how to start it. A container or host service in that position is not
/// refused: its port is on the record and the proxy dials it.
pub open spec fn open_refusal(apps: Map<Seq<char>, Installed>, slug: Seq<char>) -> Option<Seq<char>> {
    if !apps.contains_key(slug) {
        Some(slug + " is not installed"@)
    } else if manager_of(apps[slug]) is Session && !crate::catalog::shipped_slugs().contains(slug) {
        Some(slug + " is installed but is no longer in this build's catalog, so there is nothing here that knows how to start it"@)
    } else {
        None
    }
}

/// The record `open` and `close` were asked for, or the reason there is none.
pub fn openable<'a>(book: &'a Book, slug: &str) -> (r: Result<&'a Installed, String>)
    requires
        book.apps.wf(),
    ensures
        match open_refusal(book.apps@, slug@) {
            Some(e) => r matches Err(m) && m@ == e,
            None => r matches Ok(a) && *a == book.apps@[slug@],
        },
{
    let record = match book.apps.get(slug) {
        Some(a) => a,
        None => return Err(concat(chars_of(slug).as_slice(), " is not installed")),
    };
    if let Manager::Session(_) = record.manager() {
        if crate::catalog::find(slug).is_none() {
            return Err(concat(
                chars_of(slug).as_slice(),
                " is installed but is no longer in this build's catalog, so there is nothing here that knows how to start it",
            ));
        }
    }
    Ok(record)
}

/// How the desk shows an app: in a frame at a URL, or on a canvas fed from a
/// WebSocket.
pub enum Opened {
    Frame { url: String },
    Rfb { ws: String },
}

/// Where the browser goes for a streamed app: the one WebSocket that carries
/// its pixels.
pub open spec fn rfb_path(slug: Seq<char>) -> Seq<char> {
    "/ws/rfb/"@ + slug
}

/// The answer to opening an installed app: a container or host service opens
/// in a frame at its URL, a streamed app on a canvas at its WebSocket -- the
/// latter once the caller has started the user unit.
pub fn opened(tls_on: bool, host: Option<&str>, a: &Installed) -> (r: Opened)
    ensures
        match manager_of(*a) {
            Manager::Session(_) => r matches Opened::Rfb { ws } && ws@ == rfb_path(a.slug@),
            _ => r matches Opened::Frame { url } && url@ == url_for(tls_on, opt_str(host), a.slug@, a.origin_port),
        },
{
    match a.manager() {
        Manager::Session(_) => Opened::Rfb { ws: concat(chars_of("/ws/rfb/").as_slice(), a.slug.as_str()) },
        _ => Opened::Frame { url: app_url(tls_on, host, a) },
    }
}

/// Closing is per person, so only a streamed app can be closed; anything else
/// runs once for the whole host and stopping it is Stop.
pub fn close_refusal(a: &Installed, slug: &str) -> (r: Option<String>)
    ensures
        match manager_of(*a) {
            Manager::Session(_) => r is None,
            _ => r matches Some(m) && m@ == slug@ + " runs once for this whole host, so there is nothing of yours to close. Stopping it stops it for everyone, and that is Stop."@,
        },
{
    match a.manager() {
        Manager::Session(_) => None,
        _ => Some(concat(
            chars_of(slug).as_slice(),
            " runs once for this whole host, so there is nothing of yours to close. Stopping it stops it for everyone, and that is Stop.",
        )),
    }
}

/// Starting and stopping are host-wide, so a streamed app, which runs in the
/// session of whoever opened it, cannot be started or stopped; `what` is
/// `start` or `stop`.
pub fn act_refusal(a: &Installed, slug: &str, what: &str) -> (r: Option<String>)
    ensures
        match manager_of(*a) {
            Manager::Session(_) => r matches Some(m) && m@ == slug@ + " runs in the session of whoever opened it, so there is nothing host-wide to "@ + what@ + ". Open and Close do that, per person."@,
            _ => r is None,
        },
{
    match a.manager() {
        Manager::Session(_) => {
            let mut v = chars_of(slug);
            v.extend_from_slice(chars_of(" runs in the session of whoever opened it, so there is nothing host-wide to ").as_slice());
            v.extend_from_slice(chars_of(what).as_slice());
            v.extend_from_slice(chars_of(". Open and Close do that, per person.").as_slice());
            Some(string_of(v.as_slice()))
        },
        _ => None,
    }
}

// ------------------------------------------------------------------- removing

/// What an app is called in a sentence: its catalog name, or its slug when the
/// entry has gone from this build. `entry` is what the catalog holds for the
/// slug.
pub fn display_name(slug: &str, entry: Option<&App>) -> (r: String)
    ensures
        r@ == match entry {
            Some(a) => a.name@,
            None => slug@,
        },
{
    match entry {
        Some(a) => a.name.to_owned(),
        None => slug.to_owned(),
    }
}

/// The sentence, the application id and the explanation of a consent request
/// for uninstalling a streamed app for everyone, when one is owed.
pub open spec fn uninstall_offer(a: Installed, name: Seq<char>, accept_uninstall: bool) -> Option<(Seq<char>, Seq<char>, Seq<char>)> {
    match manager_of(a) {
        Manager::Session(id) if !a.adopted && !accept_uninstall => Some((
            name + " is installed once for this whole host, so removing it uninstalls it for everyone."@,
            id@,
            "WebDesk installed "@ + id@ + " on this host and will uninstall it. Anyone who has "@ + name
                + " open right now will have it stop -- here or at the machine's own screen -- and anything unsaved in it will be lost. Each person's own files stay where they are, in their home directory."@,
        )),
        _ => None,
    }
}

/// The refusal that asks for consent before a streamed app WebDesk installed is
/// uninstalled for everyone: the sentence, the application id, and what
/// uninstalling it means. Asked once, for the destructive half, and only when
/// there is something destructive to do.
pub fn removal_offer(a: &Installed, name: &str, accept_uninstall: bool) -> (r: Option<(String, String, String)>)
    ensures
        match uninstall_offer(*a, name@, accept_uninstall) {
            Some((e, i, d)) => r matches Some(x) && x.0@ == e && x.1@ == i && x.2@ == d,
            None => r is None,
        },
{
    match a.manager() {
        Manager::Session(id) => {
            if a.adopted || accept_uninstall {
                return None;
            }
            let e = concat(chars_of(name).as_slice(), " is installed once for this whole host, so removing it uninstalls it for everyone.");
            let mut d = chars_of("WebDesk installed ");
            d.extend_from_slice(chars_of(id.as_str()).as_slice());
            d.extend_from_slice(chars_of(" on this host and will uninstall it. Anyone who has ").as_slice());
            d.extend_from_slice(chars_of(name).as_slice());
            d.extend_from_slice(chars_of(" open right now will have it stop -- here or at the machine's own screen -- and anything unsaved in it will be lost. Each person's own files stay where they are, in their home directory.").as_slice());
            Some((e, id, string_of(d.as_slice())))
        },
        _ => None,
    }
}

/// The note a removal leaves for a Flatpak WebDesk found rather than put here.
pub fn left_installed_note(id: &str, name: &str) -> (r: String)
    ensures
        r@ == id@ + " was already installed on this host before "@ + name@ + " was added here, so it has been left installed."@,
{
    let mut v = chars_of(id);
    v.extend_from_slice(chars_of(" was already installed on this host before ").as_slice());
    v.extend_from_slice(chars_of(name).as_slice());
    v.extend_from_slice(chars_of(" was added here, so it has been left installed.").as_slice());
    string_of(v.as_slice())
}

/// The note a removal leaves when uninstalling failed.
pub fn uninstall_failed_note(id: &str, err: &str) -> (r: String)
    ensures
        r@ == id@ + " could not be uninstalled: "@ + err@,
{
    concat3(chars_of(id).as_slice(), " could not be uninstalled: ", chars_of(err).as_slice())
}

/// A slug safe to name a directory to delete: ASCII letters and digits, `-`
/// and `_`.
pub open spec fn sane_slug(s: Seq<char>) -> bool {
    forall|i: int| 0 <= i < s.len() ==> ('a' <= #[trigger] s[i] <= 'z' || 'A' <= s[i] <= 'Z' || '0' <= s[i] <= '9' || s[i] == '-' || s[i] == '_')
}

/// What a removal does, once any consent it needs was given: remove the
/// container for a container app; stop the person's session unit for a
/// streamed app, then uninstall its Flatpak -- unless the host had it before,
/// which leaves it installed with a note saying so; and delete the app's data
/// directory only when that was asked for and the slug is safe to join onto a
/// path. A host service is only forgotten. The record is forgotten in every
/// case, whatever the engine or the uninstall answers, so no step here waits on
/// one.
pub struct RemovalPlan {
    pub remove_container: bool,
    pub stop_unit: Option<String>,
    pub uninstall: Option<String>,
    pub note: Option<String>,
    pub purge: bool,
}

/// The steps removing `slug` takes, or the consent request that comes first.
pub fn removal_plan(a: &Installed, slug: &str, name: &str, purge: bool, accept_uninstall: bool) -> (r: Result<RemovalPlan, (String, String, String)>)
    ensures
        match uninstall_offer(*a, name@, accept_uninstall) {
            Some((e, i, d)) => r matches Err(x) && x.0@ == e && x.1@ == i && x.2@ == d,
            None => r matches Ok(p) && {
                &&& p.remove_container == (manager_of(*a) is Engine)
                &&& opt_string(p.stop_unit) == if manager_of(*a) is Session {
                    Some(crate::systemd::app_unit_of(slug@))
                } else {
                    None::<Seq<char>>
                }
                &&& opt_string(p.uninstall) == match manager_of(*a) {
                    Manager::Session(id) if !a.adopted => Some(id@),
                    _ => None::<Seq<char>>,
                }
                &&& opt_string(p.note) == match manager_of(*a) {
                    Manager::Session(id) if a.adopted => Some(id@ + " was already installed on this host before "@ + name@
                        + " was added here, so it has been left installed."@),
                    _ => None::<Seq<char>>,
                }
                &&& p.purge == (purge && sane_slug(slug@))
            },
        },
{
    if let Some(o) = removal_offer(a, name, accept_uninstall) {
        return Err(o);
    }
    let purge_ok = purge && purge_allowed(slug);
    match a.manager() {
        Manager::Engine => Ok(RemovalPlan { remove_container: true, stop_unit: None, uninstall: None, note: None, purge: purge_ok }),
        Manager::Host(_) => Ok(RemovalPlan { remove_container: false, stop_unit: None, uninstall: None, note: None, purge: purge_ok }),
        Manager::Session(id) => {
            let unit = crate::systemd::app_unit(slug);
            if a.adopted {
                let note = left_installed_note(id.as_str(), name);
                Ok(RemovalPlan { remove_container: false, stop_unit: Some(unit), uninstall: None, note: Some(note), purge: purge_ok })
            } else {
                Ok(RemovalPlan { remove_container: false, stop_unit: Some(unit), uninstall: Some(id), note: None, purge: purge_ok })
            }
        },
    }
}

/// Whether a purge may go ahead for this slug. Checked on the slug itself,
/// before it is ever joined onto a path.
pub fn purge_allowed(slug: &str) -> (b: bool)
    ensures
        b == sane_slug(slug@),
{
    let v = chars_of(slug);
    let mut i: usize = 0;
    while i < v.len()
        invariant
            i <= v@.len(),
            v@ == slug@,
            forall|k: int| 0 <= k < i ==> ('a' <= #[trigger] v@[k] <= 'z' || 'A' <= v@[k] <= 'Z' || '0' <= v@[k] <= '9' || v@[k] == '-' || v@[k] == '_'),
        decreases v@.len() - i,
    {
        let c = v[i];
        if !(('a' <= c && c <= 'z') || ('A' <= c && c <= 'Z') || ('0' <= c && c <= '9') || c == '-' || c == '_') {
            return false;
        }
        i = i + 1;
    }
    true
}

/// What kind of app a record is, in words.
pub fn kind_word(a: &Installed) -> (r: &'static str)
    ensures
        r@ == match manager_of(*a) {
            Manager::Engine => "container app"@,
            Manager::Host(_) => "host service"@,
            Manager::Session(_) => "streamed app"@,
        },
{
    match a.manager() {
        Manager::Engine => "container app",
        Manager::Host(_) => "host service",
        Manager::Session(_) => "streamed app",
    }
}

// ------------------------------------------------------ the other two managers

/// Some installed app already answers at this port.
pub open spec fn port_in_use(apps: Map<Seq<char>, Installed>, port: u16) -> bool {
    exists|k: Seq<char>| apps.contains_key(k) && #[trigger] apps[k].port == port
}

/// What installing a host service comes to once the checks pass: adopting a
/// unit the host already has, or providing the Flatpak and writing the unit.
pub enum HostStep {
    Adopt,
    Provide,
}

/// The checks a host service install makes, in order: not installed already,
/// its port not serving another app, systemd present, no install running. A
/// unit the host already has is adopted exactly as it is; without one, an entry
/// whose software WebDesk cannot provide is refused with what the operator
/// must do.
pub open spec fn host_verdict(
    app: App,
    apps: Map<Seq<char>, Installed>,
    systemd: bool,
    running: bool,
    unit_known: bool,
) -> Result<HostStep, (u16, Seq<char>)> {
    let h = app.host->0;
    if apps.contains_key(app.slug@) {
        Err((409, app.name@ + " is already installed"@))
    } else if port_in_use(apps, app.port) {
        Err((409, "port "@ + decimal(app.port as nat) + " is already serving "@))
    } else if !systemd {
        Err((409, app.name@ + " runs as a service on the host, and this host has no systemd"@))
    } else if running {
        Err((409, "another install is already running"@))
    } else if unit_known {
        Ok(HostStep::Adopt)
    } else if h.flatpak is None {
        Err((409, "this host has no "@ + h.unit@ + ". "@ + h.provision@))
    } else {
        Ok(HostStep::Provide)
    }
}

/// An app already answering at this port, if there is one.
fn port_holder(book: &Book, port: u16) -> (r: Option<String>)
    requires
        book.apps.wf(),
    ensures
        match r {
            Some(k) => first_port_holder(book.apps@, port, k@),
            None => !port_in_use(book.apps@, port),
        },
{
    let s = &book.apps.entries;
    let mut i: usize = 0;
    while i < s.len()
        invariant
            i <= s@.len(),
            s@ == book.apps.entries@,
            keys_unique(s@),
            sorted(s@),
            forall|j: int| 0 <= j < i ==> (#[trigger] s@[j]).1.port != port,
        decreases s@.len() - i,
    {
        if s[i].1.port == port {
            proof {
                lemma_entry(s@, i as int);
                assert forall|k2: Seq<char>| #[trigger] book.apps@.contains_key(k2) && book.apps@[k2].port == port
                    && k2 != s@[i as int].0@ implies key_lt(s@[i as int].0@, k2) by {
                    lemma_key(s@, k2);
                    let j = index_of(s@, k2);
                    assert(s@[j].1.port == port);
                    assert(j > i);
                }
            }
            return Some(s[i].0.clone());
        }
        i = i + 1;
    }
    proof {
        assert forall|k: Seq<char>| book.apps@.contains_key(k) implies #[trigger] book.apps@[k].port != port by {
            lemma_key(s@, k);
            let j = index_of(s@, k);
            assert(s@[j].1.port != port);
        }
    }
    None
}

/// The checks a host service install makes. `systemd` is whether the host has
/// it, `running` whether another install is under way, `unit_known` whether
/// systemd already has the entry's unit loaded.
pub fn host_checks(app: &App, book: &Book, systemd: bool, running: bool, unit_known: bool) -> (r: Result<HostStep, Refusal>)
    requires
        book.apps.wf(),
        app.host is Some,
    ensures
        match host_verdict(*app, book.apps@, systemd, running, unit_known) {
            Ok(step) => r == Ok::<HostStep, Refusal>(step),
            Err((st, msg)) => r matches Err(x) && x.status == st && (if port_in_use(book.apps@, app.port) && !book.apps@.contains_key(app.slug@) {
                exists|k: Seq<char>| #[trigger] first_port_holder(book.apps@, app.port, k) && x.message@ == msg + k
            } else {
                x.message@ == msg
            }),
        },
{
    if book.apps.contains_key(app.slug) {
        return Err(refuse(409, text3(app.name, " is already installed")));
    }
    if let Some(other) = port_holder(book, app.port) {
        let mut v = chars_of("port ");
        v.extend_from_slice(decimal_chars(app.port as u64).as_slice());
        v.extend_from_slice(chars_of(" is already serving ").as_slice());
        v.extend_from_slice(chars_of(other.as_str()).as_slice());
        return Err(refuse(409, string_of(v.as_slice())));
    }
    if !systemd {
        return Err(refuse(409, text3(app.name, " runs as a service on the host, and this host has no systemd")));
    }
    if running {
        return Err(refuse(409, "another install is already running".to_owned()));
    }
    if unit_known {
        return Ok(HostStep::Adopt);
    }
    match &app.host {
        Some(h) => {
            if h.flatpak.is_none() {
                let mut v = chars_of("this host has no ");
                v.extend_from_slice(chars_of(h.unit).as_slice());
                v.extend_from_slice(chars_of(". ").as_slice());
                v.extend_from_slice(chars_of(h.provision).as_slice());
                return Err(refuse(409, string_of(v.as_slice())));
            }
            Ok(HostStep::Provide)
        },
        None => Ok(HostStep::Provide),
    }
}

/// The refusal a host service install gives when the host packages it needs
/// are missing and consent has not been given: the sentence, the packages, the
/// package manager, and what would be done. `manager` is the manager's program,
/// when the host has one WebDesk knows.
pub fn package_offer(app: &App, packages: &Vec<String>, manager: Option<&str>) -> (r: (String, String, String))
    ensures
        ({
            let list = crate::text::join(crate::engine::strings(packages@), ", "@);
            let m = match manager {
                Some(x) => x@,
                None => "the package manager"@,
            };
            &&& r.0@ == app.name@ + " needs "@ + list + " on this host, which is not installed."@
            &&& r.1@ == m
            &&& r.2@ == "WebDesk can install "@ + list + " with "@ + m + ", then install "@ + app.name@
                + " and the service that serves it. Nothing else is installed, and there is no container version of this to fall back on."@
        }),
{
    let list = joined(packages);
    let m = match manager {
        Some(x) => x.to_owned(),
        None => "the package manager".to_owned(),
    };
    let mut e = chars_of(app.name);
    e.extend_from_slice(chars_of(" needs ").as_slice());
    e.extend_from_slice(list.as_slice());
    e.extend_from_slice(chars_of(" on this host, which is not installed.").as_slice());
    let mut d = chars_of("WebDesk can install ");
    d.extend_from_slice(list.as_slice());
    d.extend_from_slice(chars_of(" with ").as_slice());
    d.extend_from_slice(chars_of(m.as_str()).as_slice());
    d.extend_from_slice(chars_of(", then install ").as_slice());
    d.extend_from_slice(chars_of(app.name).as_slice());
    d.extend_from_slice(chars_of(" and the service that serves it. Nothing else is installed, and there is no container version of this to fall back on.").as_slice());
    (string_of(e.as_slice()), m, string_of(d.as_slice()))
}

/// Strings joined by `", "`.
fn joined(v: &Vec<String>) -> (r: Vec<char>)
    ensures
        r@ == crate::text::join(crate::engine::strings(v@), ", "@),
{
    let mut parts: Vec<Vec<char>> = Vec::new();
    for i in 0..v.len()
        invariant
            crate::text::views(parts@) == crate::engine::strings(v@).take(i as int),
    {
        let ghost before = parts@;
        parts.push(chars_of(v[i].as_str()));
        assert(crate::text::views(parts@) =~= crate::engine::strings(v@).take(i + 1)) by {
            assert(crate::text::views(before).len() == before.len());
            assert forall|k: int| 0 <= k < i + 1 implies #[trigger] crate::text::views(parts@)[k] == crate::engine::strings(v@).take(i + 1)[k] by {
                if k < i {
                    assert(parts@[k] == before[k]);
                    assert(crate::text::views(before)[k] == before[k]@);
                }
            }
        }
    }
    assert(crate::engine::strings(v@).take(v@.len() as int) =~= crate::engine::strings(v@));
    join_chars(&parts, chars_of(", ").as_slice())
}

/// The record of a host service, written or adopted: its port and scheme from
/// the catalog, its unit, and nothing a container would have.
pub fn host_record(app: &App, unit: &str, actor: &str, now: u64) -> (r: Installed)
    ensures
        r.slug@ == app.slug@,
        r.image@.len() == 0,
        r.port == app.port,
        r.tls == app.tls,
        r.env@ == Map::<Seq<char>, String>::empty(),
        r.env.wf(),
        r.mounts@.len() == 0 && r.devices@.len() == 0 && r.secrets@.len() == 0,
        r.installed == now,
        r.actor@ == actor@,
        r.origin_port is None,
        r.unit matches Some(u) && u@ == unit@,
        r.flatpak is None,
        !r.adopted,
{
    let mut r = Installed::blank(app.slug);
    r.port = app.port;
    r.tls = app.tls;
    r.installed = now;
    r.actor = actor.to_owned();
    r.unit = Some(unit.to_owned());
    r
}

/// What the checks before a streamed install found.
pub enum StreamedCheck {
    /// Nothing stands in the way.
    Go,
    /// Refused outright: already installed, or another install is running.
    Refused(Refusal),
    /// The host lacks something every streamed app needs; the refusal offers
    /// to install it, and is `missing_deps`.
    MissingDeps,
}

/// The checks a streamed install makes, in order: not installed already, no
/// install running, and nothing it needs missing from the host. `absent` is
/// how many of its host-wide dependencies are missing.
pub open spec fn streamed_verdict(app: App, apps: Map<Seq<char>, Installed>, running: bool, absent: nat) -> Option<Option<(u16, Seq<char>)>> {
    if apps.contains_key(app.slug@) {
        Some(Some((409, app.name@ + " is already installed"@)))
    } else if running {
        Some(Some((409, "another install is already running"@)))
    } else if absent > 0 {
        Some(None)
    } else {
        None
    }
}

/// The checks a streamed install makes before anything is downloaded.
pub fn streamed_checks(app: &App, book: &Book, running: bool, absent: usize) -> (r: StreamedCheck)
    requires
        book.apps.wf(),
    ensures
        match streamed_verdict(*app, book.apps@, running, absent as nat) {
            Some(Some((st, msg))) => r matches StreamedCheck::Refused(x) && x.status == st && x.message@ == msg,
            Some(None) => r is MissingDeps,
            None => r is Go,
        },
{
    if book.apps.contains_key(app.slug) {
        return StreamedCheck::Refused(refuse(409, text3(app.name, " is already installed")));
    }
    if running {
        return StreamedCheck::Refused(refuse(409, "another install is already running".to_owned()));
    }
    if absent > 0 {
        return StreamedCheck::MissingDeps;
    }
    StreamedCheck::Go
}

/// The refusal owed to somebody whose host is missing what a streamed app
/// needs: a sentence naming what is missing, and what WebDesk can install. The
/// keys, which are what the installer endpoint takes, are those of `absent`.
pub fn missing_deps(app: &App, labels: &Vec<String>) -> (r: (String, String))
    ensures
        ({
            let list = crate::text::join(crate::engine::strings(labels@), ", "@);
            &&& r.0@ == app.name@ + " is drawn on this host, and this host has not got "@ + list + "."@
            &&& r.1@ == "WebDesk can install "@ + list + ", and then "@ + app.name@
                + " will install. They are needed once for the whole host rather than per application: every app that is drawn here uses the same compositor."@
        }),
{
    let list = joined(labels);
    let mut e = chars_of(app.name);
    e.extend_from_slice(chars_of(" is drawn on this host, and this host has not got ").as_slice());
    e.extend_from_slice(list.as_slice());
    e.extend_from_slice(chars_of(".").as_slice());
    let mut d = chars_of("WebDesk can install ");
    d.extend_from_slice(list.as_slice());
    d.extend_from_slice(chars_of(", and then ").as_slice());
    d.extend_from_slice(chars_of(app.name).as_slice());
    d.extend_from_slice(chars_of(" will install. They are needed once for the whole host rather than per application: every app that is drawn here uses the same compositor.").as_slice());
    (string_of(e.as_slice()), string_of(d.as_slice()))
}

/// The record of a streamed app: its application id and whether the host
/// already had it, and nothing else -- no image, no port, no unit, no origin.
pub fn streamed_record(slug: &str, id: &str, actor: &str, now: u64, adopted: bool) -> (r: Installed)
    ensures
        r.slug@ == slug@,
        r.image@.len() == 0,
        r.port == 0,
        !r.tls,
        r.env@ == Map::<Seq<char>, String>::empty(),
        r.env.wf(),
        r.mounts@.len() == 0 && r.devices@.len() == 0 && r.secrets@.len() == 0,
        r.installed == now,
        r.actor@ == actor@,
        r.origin_port is None,
        r.unit is None,
        r.flatpak matches Some(f) && f@ == id@,
        r.adopted == adopted,
{
    let mut r = Installed::blank(slug);
    r.installed = now;
    r.actor = actor.to_owned();
    r.flatpak = Some(id.to_owned());
    r.adopted = adopted;
    r
}

// ------------------------------------------------------------------- the dock

/// One line of the installed list, as the dock paints it. The state beside it
/// is asked of the app's manager by the caller.
pub struct Row {
    pub slug: String,
    pub name: String,
    pub tagline: String,
    pub icon: String,
    pub notes: String,
    pub image: String,
    pub unit: Option<String>,
    pub flatpak: Option<String>,
    /// `rfb` for a streamed app, `frame` for everything else.
    pub transport: &'static str,
    /// The application id and the window size, for a streamed entry.
    pub streamed: Option<(String, u16, u16)>,
    /// Where a framed app opens; a streamed one has no URL at all.
    pub url: Option<String>,
    /// Where a streamed app's pixels come from.
    pub ws: Option<String>,
    pub installed: u64,
    pub actor: String,
    /// The values chosen, except the secret ones, which are only ever named.
    pub env: Vec<(String, String)>,
    pub secrets: Vec<String>,
    pub mounts: Vec<(String, String, bool)>,
    pub devices: Vec<String>,
}

/// The environment a record echoes back: every variable whose key is not one
/// of its secrets, in order.
pub open spec fn shown(env: Seq<(String, String)>, secrets: Seq<Seq<char>>) -> Seq<(Seq<char>, Seq<char>)>
    decreases env.len(),
{
    if env.len() == 0 {
        Seq::empty()
    } else {
        let rest = shown(env.drop_last(), secrets);
        if secrets.contains(env.last().0@) {
            rest
        } else {
            rest.push((env.last().0@, env.last().1@))
        }
    }
}

fn is_secret(secrets: &Vec<String>, k: &String) -> (b: bool)
    ensures
        b == crate::engine::strings(secrets@).contains(k@),
{
    let mut i: usize = 0;
    while i < secrets.len()
        invariant
            i <= secrets@.len(),
            forall|j: int| 0 <= j < i ==> #[trigger] crate::engine::strings(secrets@)[j] != k@,
        decreases secrets@.len() - i,
    {
        if secrets[i] == *k {
            assert(crate::engine::strings(secrets@)[i as int] == k@);
            return true;
        }
        i = i + 1;
    }
    false
}

/// An app's line in the installed list. `entry` is what the catalog holds for
/// its slug, if the build still has it; the name, tagline, icon and notes fall
/// back to the slug, nothing, the generic box and nothing.
pub fn row(a: &Installed, entry: Option<&App>, tls_on: bool, host: Option<&str>) -> (r: Row)
    ensures
        r.slug@ == a.slug@,
        r.name@ == match entry {
            Some(c) => c.name@,
            None => a.slug@,
        },
        r.tagline@ == match entry {
            Some(c) => c.tagline@,
            None => Seq::empty(),
        },
        r.icon@ == match entry {
            Some(c) => c.icon@,
            None => "a-box"@,
        },
        r.notes@ == match entry {
            Some(c) => c.notes@,
            None => Seq::empty(),
        },
        r.image@ == a.image@,
        opt_string(r.unit) == opt_string(a.unit),
        opt_string(r.flatpak) == opt_string(a.flatpak),
        r.transport@ == if manager_of(*a) is Session {
            "rfb"@
        } else {
            "frame"@
        },
        match entry {
            Some(c) => match c.streamed {
                Some(st) => r.streamed matches Some(x) && x.0@ == st.flatpak.id@ && x.1 == st.width && x.2 == st.height,
                None => r.streamed is None,
            },
            None => r.streamed is None,
        },
        if manager_of(*a) is Session {
            r.url is None && (r.ws matches Some(w) && w@ == rfb_path(a.slug@))
        } else {
            r.ws is None && (r.url matches Some(u) && u@ == url_for(tls_on, opt_str(host), a.slug@, a.origin_port))
        },
        r.installed == a.installed,
        r.actor@ == a.actor@,
        r.env@.map_values(|x: (String, String)| (x.0@, x.1@)) == shown(a.env.entries@, crate::engine::strings(a.secrets@)),
        r.secrets@ == a.secrets@,
        r.mounts@ == a.mounts@,
        r.devices@ == a.devices@,
{
    let streamed = match a.manager() {
        Manager::Session(_) => true,
        _ => false,
    };
    let (name, tagline, icon, notes) = match entry {
        Some(c) => (c.name.to_owned(), c.tagline.to_owned(), c.icon.to_owned(), c.notes.to_owned()),
        None => (a.slug.clone(), String::new(), "a-box".to_owned(), String::new()),
    };
    let st = match entry {
        Some(c) => match &c.streamed {
            Some(x) => Some((x.flatpak.id.to_owned(), x.width, x.height)),
            None => None,
        },
        None => None,
    };
    let (url, ws) = if streamed {
        (None, Some(concat(chars_of("/ws/rfb/").as_slice(), a.slug.as_str())))
    } else {
        (Some(app_url(tls_on, host, a)), None)
    };
    let e = &a.env.entries;
    let mut env: Vec<(String, String)> = Vec::new();
    for i in 0..e.len()
        invariant
            e@ == a.env.entries@,
            env@.map_values(|x: (String, String)| (x.0@, x.1@)) == shown(e@.take(i as int), crate::engine::strings(a.secrets@)),
    {
        assert(e@.take(i + 1).drop_last() == e@.take(i as int));
        let ghost before = env@;
        if !is_secret(&a.secrets, &e[i].0) {
            env.push((e[i].0.clone(), e[i].1.clone()));
            assert(env@.map_values(|x: (String, String)| (x.0@, x.1@)) =~= before.map_values(|x: (String, String)| (x.0@, x.1@)).push((e@[i as int].0@, e@[i as int].1@)));
        }
    }
    assert(e@.take(e@.len() as int) == e@);
    Row {
        slug: a.slug.clone(),
        name,
        tagline,
        icon,
        notes,
        image: a.image.clone(),
        unit: match &a.unit {
            Some(u) => Some(u.clone()),
            None => None,
        },
        flatpak: match &a.flatpak {
            Some(f) => Some(f.clone()),
            None => None,
        },
        transport: if streamed {
            "rfb"
        } else {
            "frame"
        },
        streamed: st,
        url,
        ws,
        installed: a.installed,
        actor: a.actor.clone(),
        env,
        secrets: copy_strings(&a.secrets),
        mounts: copy_mounts(&a.mounts),
        devices: copy_strings(&a.devices),
    }
}

// ------------------------------------------------------------------ the clock

/// The first place at or after `i` where `p` occurs in `s`.
pub open spec fn first_match_from(s: Seq<char>, p: Seq<char>, i: int) -> Option<int>
    decreases s.len() + 1 - i,
{
    if i < 0 || i + p.len() > s.len() {
        None
    } else if s.skip(i).take(p.len() as int) == p {
        Some(i)
    } else {
        first_match_from(s, p, i + 1)
    }
}

/// The zone a `/etc/localtime` link names: what follows the first
/// `/zoneinfo/` in its target, when that is not empty.
pub open spec fn zone_of_link(target: Seq<char>) -> Option<Seq<char>> {
    match first_match_from(target, "/zoneinfo/"@, 0) {
        Some(i) => if target.skip(i + 10).len() > 0 {
            Some(target.skip(i + 10))
        } else {
            None
        },
        None => None,
    }
}

/// The host's own timezone, as an IANA name: read off the `/etc/localtime`
/// link when it is one into the zoneinfo tree, else what `timedatectl` said
/// when it succeeded with something, else `Etc/UTC`.
pub open spec fn zone_of(link: Option<Seq<char>>, timedatectl: Option<(bool, Seq<char>)>) -> Seq<char> {
    match link {
        Some(t) if zone_of_link(t) is Some => zone_of_link(t)->0,
        _ => match timedatectl {
            Some((ok, out)) if ok && trim(out).len() > 0 => trim(out),
            _ => "Etc/UTC"@,
        },
    }
}

fn zone_in_link(target: &str) -> (r: Option<String>)
    ensures
        opt_string(r) == zone_of_link(target@),
{
    let t = chars_of(target);
    let pat = chars_of("/zoneinfo/");
    proof {
        reveal_strlit("/zoneinfo/");
    }
    let mut i: usize = 0;
    while i < t.len() && t.len() - i >= 10
        invariant
            pat@ == "/zoneinfo/"@,
            t@ == target@,
            i <= t@.len(),
            first_match_from(t@, pat@, 0) == first_match_from(t@, pat@, i as int),
        decreases t@.len() - i,
    {
        if occurs_at(t.as_slice(), pat.as_slice(), i) {
            let z = crate::text::tail_from(t.as_slice(), i + 10);
            if z.len() == 0 {
                return None;
            }
            return Some(string_of(z.as_slice()));
        }
        i = i + 1;
    }
    None
}

/// The host's timezone, from the target of `/etc/localtime` (when it is a
/// link) and the outcome of asking `timedatectl` (when it was asked).
pub fn timezone(link: Option<&str>, timedatectl: Option<(bool, &str)>) -> (r: String)
    ensures
        r@ == zone_of(opt_str(link), match timedatectl {
            Some((ok, out)) => Some((ok, out@)),
            None => None,
        }),
{
    if let Some(t) = link {
        if let Some(z) = zone_in_link(t) {
            return z;
        }
    }
    if let Some((ok, out)) = timedatectl {
        let z = trim_chars(chars_of(out).as_slice());
        if ok && z.len() > 0 {
            return string_of(z.as_slice());
        }
    }
    "Etc/UTC".to_owned()
}

// ----------------------------------------------------------------- the files

/// WebDesk's state directory, from `WD_STATE_DIR`.
pub fn state_dir(value: Option<&str>) -> (r: String)
    ensures
        r@ == crate::text::setting(opt_str(value), DEFAULT_STATE_DIR@),
{
    crate::text::setting_or(value, DEFAULT_STATE_DIR)
}

/// Where each app's `/config` directory lives, one subdirectory each: what
/// `WD_APPDATA` names, or `appdata` in the state directory.
pub fn appdata_dir(value: Option<&str>, state_dir: &str) -> (r: String)
    ensures
        r@ == match opt_str(value) {
            Some(v) if v.len() > 0 => v,
            _ => crate::text::joined_path(state_dir@, "appdata"@),
        },
{
    match value {
        Some(v) => {
            if !v.is_empty() {
                return v.to_owned();
            }
            crate::text::file_in(state_dir, "appdata")
        },
        None => crate::text::file_in(state_dir, "appdata"),
    }
}

/// The book of installed apps.
pub fn apps_file(state_dir: &str) -> (r: String)
    ensures
        r@ == crate::text::joined_path(state_dir@, "apps.json"@),
{
    crate::text::file_in(state_dir, "apps.json")
}

/// The progress of the install that is running.
pub fn status_file(state_dir: &str) -> (r: String)
    ensures
        r@ == crate::text::joined_path(state_dir@, "apps.status"@),
{
    crate::text::file_in(state_dir, "apps.status")
}

/// What the install that is running has printed.
pub fn log_file(state_dir: &str) -> (r: String)
    ensures
        r@ == crate::text::joined_path(state_dir@, "apps.log"@),
{
    crate::text::file_in(state_dir, "apps.log")
}

/// The port of a listen address: the number after its last `:`, or `None`
/// when that is not a port.
pub open spec fn port_of_listen(listen: Seq<char>) -> Option<nat> {
    let tail = match last_of(listen, ':') {
        Some(i) => listen.skip(i + 1),
        None => listen,
    };
    crate::text::parse_bounded(tail, 65535)
}

/// The port this process listens on, from its listen address, used only to
/// refuse an app that would try to take it.
pub fn listen_port(listen: &str) -> (r: Option<u16>)
    ensures
        match port_of_listen(listen@) {
            Some(n) => r == Some(n as u16),
            None => r is None,
        },
{
    let l = chars_of(listen);
    let tail = match find_last(l.as_slice(), ':') {
        Some(i) => crate::text::tail_from(l.as_slice(), i + 1),
        None => l,
    };
    match crate::text::parse_uint(tail.as_slice(), 65535) {
        Some(n) => Some(n as u16),
        None => None,
    }
}

// ------------------------------------------------------------------- the laws

/// Whether a parameter's answer becomes an environment variable.
pub open spec fn sets_variable(p: Param) -> bool {
    !(p.kind is HostPath) && !(p.kind is Port)
}

/// The path parameters that were given a value, in order.
pub open spec fn answered_paths(ps: Seq<Param>, given: Map<Seq<char>, String>) -> Seq<Param>
    decreases ps.len(),
{
    if ps.len() == 0 {
        Seq::empty()
    } else if ps.last().kind is HostPath && given_value(given, ps.last()).len() > 0 {
        answered_paths(ps.drop_last(), given).push(ps.last())
    } else {
        answered_paths(ps.drop_last(), given)
    }
}

/// A mount made from a path parameter: at the parameter's place, with its
/// read-only flag, from the directory the path checks allowed for its value.
pub open spec fn mounted_from(
    q: Param,
    mount: (Seq<char>, Seq<char>, bool),
    given: Map<Seq<char>, String>,
    found: Map<Seq<char>, Found>,
    sd: Seq<char>,
) -> bool {
    let v = given_value(given, q);
    &&& (q.kind matches Kind::HostPath { at, ro } && mount.1 == at@ && mount.2 == ro)
    &&& path_verdict(v, resolution(found, v), sd) == Ok::<Seq<char>, Seq<char>>(mount.0)
}

/// What a user may choose is only the blanks an entry declares, and each
/// answer lands where its parameter says. Every variable the answers set is
/// the key of one of the entry's text, secret, choice or toggle parameters that
/// was given a value, and holds that value -- a key the catalog did not
/// declare never reaches the engine, and neither a path nor a port answer is
/// ever an environment variable; every such parameter given a value sets its
/// variable. The secrets are exactly the keys of the secret parameters given a
/// value, each one of those variables. There is one mount per path parameter
/// given a value, in order, at the parameter's place and with its read-only
/// flag, from the directory the path checks allowed: never part of the system
/// and never WebDesk's own state. And an origin port is only ever taken for an
/// entry that needs an origin, from a port question, and is never a reserved
/// port.
pub proof fn law_answers_are_what_the_entry_declares(
    ps: Seq<Param>,
    needs_origin: bool,
    given: Map<Seq<char>, String>,
    found: Map<Seq<char>, Found>,
    sd: Seq<char>,
)
    ensures
        answered(ps, needs_origin, given, found, sd) matches Ok(m) ==> {
            &&& forall|k: Seq<char>| #[trigger] m.0.contains_key(k) ==> exists|i: int|
                0 <= i < ps.len() && (#[trigger] ps[i]).key@ == k && sets_variable(ps[i])
                && given_value(given, ps[i]).len() > 0 && m.0[k] == given_value(given, ps[i])
            &&& forall|i: int| 0 <= i < ps.len() && sets_variable(#[trigger] ps[i]) && given_value(given, ps[i]).len() > 0
                ==> m.0.contains_key(ps[i].key@)
            &&& forall|k: Seq<char>| #[trigger] m.2.contains(k) <==> exists|i: int|
                0 <= i < ps.len() && (#[trigger] ps[i]).key@ == k && ps[i].kind is Secret && given_value(given, ps[i]).len() > 0
            &&& forall|j: int| 0 <= j < m.2.len() ==> m.0.contains_key(#[trigger] m.2[j])
            &&& m.1.len() == answered_paths(ps, given).len()
            &&& forall|j: int| 0 <= j < m.1.len() ==> mounted_from(answered_paths(ps, given)[j], #[trigger] m.1[j], given, found, sd)
            &&& forall|j: int| 0 <= j < m.1.len() ==> !system_path((#[trigger] m.1[j]).0) && !(m.1[j].0 == sd
                || starts_with(m.1[j].0, sd + "/"@))
            &&& (m.3 matches Some(n) ==> n >= 1024 && needs_origin && exists|i: int| 0 <= i < ps.len() && (#[trigger] ps[i]).kind is Port)
        },
    decreases ps.len(),
{
    if ps.len() > 0 {
        let rest = ps.drop_last();
        law_answers_are_what_the_entry_declares(rest, needs_origin, given, found, sd);
        if let Ok(m) = answered(ps, needs_origin, given, found, sd) {
            let acc = answered(rest, needs_origin, given, found, sd)->Ok_0;
            let p = ps.last();
            let last = ps.len() - 1;
            let v = given_value(given, p);
            assert(ps[last] == p);
            assert forall|i: int| 0 <= i < rest.len() implies #[trigger] rest[i] == ps[i] by {}
            assert forall|k: Seq<char>| #[trigger] m.0.contains_key(k) implies exists|i: int|
                0 <= i < ps.len() && (#[trigger] ps[i]).key@ == k && sets_variable(ps[i])
                && given_value(given, ps[i]).len() > 0 && m.0[k] == given_value(given, ps[i]) by {
                if m.0 != acc.0 && p.key@ == k {
                    assert(ps[last].key@ == k);
                } else {
                    let i = choose|i: int| 0 <= i < rest.len() && (#[trigger] rest[i]).key@ == k && sets_variable(rest[i])
                        && given_value(given, rest[i]).len() > 0 && acc.0[k] == given_value(given, rest[i]);
                    assert(ps[i] == rest[i]);
                }
            }
            assert forall|i: int| 0 <= i < ps.len() && sets_variable(#[trigger] ps[i]) && given_value(given, ps[i]).len() > 0
                implies m.0.contains_key(ps[i].key@) by {
                if i < last {
                    assert(rest[i] == ps[i]);
                    assert(acc.0.contains_key(rest[i].key@));
                }
            }
            assert forall|k: Seq<char>| #[trigger] m.2.contains(k) <==> exists|i: int|
                0 <= i < ps.len() && (#[trigger] ps[i]).key@ == k && ps[i].kind is Secret && given_value(given, ps[i]).len() > 0 by {
                if m.2.contains(k) {
                    if acc.2.contains(k) {
                        let i = choose|i: int| 0 <= i < rest.len() && (#[trigger] rest[i]).key@ == k && rest[i].kind is Secret
                            && given_value(given, rest[i]).len() > 0;
                        assert(ps[i] == rest[i]);
                    } else {
                        let j = choose|j: int| 0 <= j < m.2.len() && m.2[j] == k;
                        assert(j == acc.2.len());
                        assert(ps[last].key@ == k);
                    }
                }
                if exists|i: int| 0 <= i < ps.len() && (#[trigger] ps[i]).key@ == k && ps[i].kind is Secret && given_value(given, ps[i]).len() > 0 {
                    let i = choose|i: int| 0 <= i < ps.len() && (#[trigger] ps[i]).key@ == k && ps[i].kind is Secret && given_value(given, ps[i]).len() > 0;
                    if i < last {
                        assert(rest[i] == ps[i]);
                        assert(acc.2.contains(k));
                        let j = choose|j: int| 0 <= j < acc.2.len() && acc.2[j] == k;
                        assert(m.2[j] == k);
                    } else {
                        assert(m.2[acc.2.len() as int] == k);
                    }
                }
            }
            assert forall|j: int| 0 <= j < m.2.len() implies m.0.contains_key(#[trigger] m.2[j]) by {
                if j < acc.2.len() {
                    assert(m.2[j] == acc.2[j]);
                    assert(acc.0.contains_key(acc.2[j]));
                }
            }
            assert forall|j: int| 0 <= j < m.1.len() implies mounted_from(answered_paths(ps, given)[j], #[trigger] m.1[j], given, found, sd) by {
                if j < acc.1.len() {
                    assert(m.1[j] == acc.1[j]);
                    assert(answered_paths(ps, given)[j] == answered_paths(rest, given)[j]);
                } else {
                    assert(p.kind is HostPath && v.len() > 0);
                    assert(answered_paths(ps, given) == answered_paths(rest, given).push(p));
                    assert(answered_paths(ps, given)[j] == p);
                }
            }
            assert forall|j: int| 0 <= j < m.1.len() implies !system_path((#[trigger] m.1[j]).0) && !(m.1[j].0 == sd
                || starts_with(m.1[j].0, sd + "/"@)) by {
                if j < acc.1.len() {
                    assert(m.1[j] == acc.1[j]);
                }
            }
            if let Some(n) = m.3 {
                if acc.3 == m.3 {
                    let i = choose|i: int| 0 <= i < rest.len() && (#[trigger] rest[i]).kind is Port;
                    assert(ps[i] == rest[i]);
                } else {
                    assert(ps[last].kind is Port);
                }
            }
        }
    }
}

/// Why a single parameter refuses what it was given, if it does. Whether an
/// answer refuses depends on that answer alone, never on the ones before it.
pub open spec fn param_refusal(
    p: Param,
    needs_origin: bool,
    given: Map<Seq<char>, String>,
    found: Map<Seq<char>, Found>,
    sd: Seq<char>,
) -> Option<Seq<char>> {
    match answer(p, needs_origin, given, found, sd, (Map::empty(), Seq::empty(), Seq::empty(), None)) {
        Err(e) => Some(e),
        Ok(_) => None,
    }
}

/// Answers are refused if and only if some parameter refuses its own answer --
/// a required one left empty, a value too long or with a control character, a
/// path the checks reject, a choice not offered, a toggle that is neither
/// `true` nor `false`, or an origin port that is no port of 1024 or above --
/// and the refusal given is that of the first such parameter.
pub proof fn law_refused_iff_a_parameter_is(
    ps: Seq<Param>,
    needs_origin: bool,
    given: Map<Seq<char>, String>,
    found: Map<Seq<char>, Found>,
    sd: Seq<char>,
)
    ensures
        answered(ps, needs_origin, given, found, sd) is Err <==> exists|i: int|
            0 <= i < ps.len() && param_refusal(#[trigger] ps[i], needs_origin, given, found, sd) is Some,
        answered(ps, needs_origin, given, found, sd) matches Err(e) ==> exists|i: int|
            0 <= i < ps.len() && param_refusal(#[trigger] ps[i], needs_origin, given, found, sd) == Some(e)
            && forall|j: int| 0 <= j < i ==> param_refusal(#[trigger] ps[j], needs_origin, given, found, sd) is None,
    decreases ps.len(),
{
    if ps.len() > 0 {
        let rest = ps.drop_last();
        let last = ps.len() - 1;
        law_refused_iff_a_parameter_is(rest, needs_origin, given, found, sd);
        assert forall|i: int| 0 <= i < rest.len() implies #[trigger] rest[i] == ps[i] by {}
        assert(ps[last] == ps.last());
        match answered(rest, needs_origin, given, found, sd) {
            Err(e) => {
                let i = choose|i: int| 0 <= i < rest.len() && param_refusal(#[trigger] rest[i], needs_origin, given, found, sd) == Some(e)
                    && forall|j: int| 0 <= j < i ==> param_refusal(#[trigger] rest[j], needs_origin, given, found, sd) is None;
                assert(ps[i] == rest[i]);
                assert forall|j: int| 0 <= j < i implies param_refusal(#[trigger] ps[j], needs_origin, given, found, sd) is None by {
                    assert(ps[j] == rest[j]);
                }
            },
            Ok(acc) => {
                assert forall|j: int| 0 <= j < last implies param_refusal(#[trigger] ps[j], needs_origin, given, found, sd) is None by {
                    assert(ps[j] == rest[j]);
                }
                let z = (Map::<Seq<char>, Seq<char>>::empty(), Seq::<(Seq<char>, Seq<char>, bool)>::empty(), Seq::<Seq<char>>::empty(), None::<u16>);
                assert(answer(ps.last(), needs_origin, given, found, sd, acc) is Err <==> answer(ps.last(), needs_origin, given, found, sd, z) is Err);
                if let Err(e) = answer(ps.last(), needs_origin, given, found, sd, acc) {
                    assert(answer(ps.last(), needs_origin, given, found, sd, z) == Err::<(Map<Seq<char>, Seq<char>>, Seq<(Seq<char>, Seq<char>, bool)>, Seq<Seq<char>>, Option<u16>), Seq<char>>(e));
                    assert(param_refusal(ps[last], needs_origin, given, found, sd) == Some(e));
                }
                if exists|i: int| 0 <= i < ps.len() && param_refusal(#[trigger] ps[i], needs_origin, given, found, sd) is Some {
                    let i = choose|i: int| 0 <= i < ps.len() && param_refusal(#[trigger] ps[i], needs_origin, given, found, sd) is Some;
                    if i < last {
                        assert(ps[i] == rest[i]);
                    }
                }
            },
        }
    }
}

/// Whether `x` is an app of `s` and the origin port it records.
pub open spec fn listed_from(s: Seq<(String, Installed)>, x: (Seq<char>, u16)) -> bool {
    exists|i: int| 0 <= i < s.len() && (#[trigger] s[i]).0@ == x.0 && s[i].1.origin_port == Some(x.1)
}

proof fn lemma_origin_list(s: Seq<(String, Installed)>)
    requires
        sorted(s),
    ensures
        forall|m: int| 0 <= m < origin_list(s).len() ==> listed_from(s, #[trigger] origin_list(s)[m]),
        forall|m1: int, m2: int| 0 <= m1 < m2 < origin_list(s).len()
            ==> key_lt(#[trigger] origin_list(s)[m1].0, #[trigger] origin_list(s)[m2].0),
        forall|i: int| 0 <= i < s.len() && (#[trigger] s[i]).1.origin_port is Some
            ==> origin_list(s).contains((s[i].0@, s[i].1.origin_port->0)),
    decreases s.len(),
{
    if s.len() > 0 {
        let rest = s.drop_last();
        let last = s.len() - 1;
        assert(sorted(rest));
        lemma_origin_list(rest);
        let l0 = origin_list(rest);
        let l = origin_list(s);
        assert forall|i: int| 0 <= i < rest.len() implies #[trigger] rest[i] == s[i] by {}
        assert forall|m: int| 0 <= m < l.len() implies listed_from(s, #[trigger] l[m]) by {
            if m < l0.len() {
                assert(l[m] == l0[m]);
                assert(listed_from(rest, l0[m]));
                let i = choose|i: int| 0 <= i < rest.len() && (#[trigger] rest[i]).0@ == l0[m].0 && rest[i].1.origin_port == Some(l0[m].1);
                assert(s[i] == rest[i]);
            } else {
                assert(l[m] == (s[last].0@, s[last].1.origin_port->0));
                assert(s[last].0@ == l[m].0 && s[last].1.origin_port == Some(l[m].1));
            }
        }
        assert forall|m1: int, m2: int| 0 <= m1 < m2 < l.len() implies key_lt(#[trigger] l[m1].0, #[trigger] l[m2].0) by {
            if m2 < l0.len() {
                assert(l[m1] == l0[m1] && l[m2] == l0[m2]);
            } else {
                assert(l[m1] == l0[m1]);
                assert(listed_from(rest, l0[m1]));
                let i = choose|i: int| 0 <= i < rest.len() && (#[trigger] rest[i]).0@ == l0[m1].0 && rest[i].1.origin_port == Some(l0[m1].1);
                assert(s[i] == rest[i]);
                assert(l[m2] == (s[last].0@, s[last].1.origin_port->0));
                assert(key_lt(s[i].0@, s[last].0@));
            }
        }
        assert forall|i: int| 0 <= i < s.len() && (#[trigger] s[i]).1.origin_port is Some
            implies l.contains((s[i].0@, s[i].1.origin_port->0)) by {
            if i < last {
                assert(rest[i] == s[i]);
                assert(l0.contains((rest[i].0@, rest[i].1.origin_port->0)));
                let m = choose|m: int| 0 <= m < l0.len() && l0[m] == (rest[i].0@, rest[i].1.origin_port->0);
                assert(l[m] == l0[m]);
            } else {
                assert(l[l0.len() as int] == (s[last].0@, s[last].1.origin_port->0));
            }
        }
    }
}

/// The origin listeners opened again at start are exactly the installed apps
/// that have an origin port, each with its own port, each once, in slug order.
pub proof fn law_origin_ports_once_in_slug_order(book: Book)
    requires
        book.apps.wf(),
    ensures
        forall|m1: int, m2: int| 0 <= m1 < m2 < origin_list(book.apps.entries@).len()
            ==> key_lt(#[trigger] origin_list(book.apps.entries@)[m1].0, #[trigger] origin_list(book.apps.entries@)[m2].0),
        forall|k: Seq<char>, p: u16| #[trigger] origin_list(book.apps.entries@).contains((k, p))
            <==> book.apps@.contains_key(k) && book.apps@[k].origin_port == Some(p),
{
    let s = book.apps.entries@;
    lemma_origin_list(s);
    let l = origin_list(s);
    assert forall|k: Seq<char>, p: u16| #[trigger] l.contains((k, p))
        <==> book.apps@.contains_key(k) && book.apps@[k].origin_port == Some(p) by {
        if l.contains((k, p)) {
            let m = choose|m: int| 0 <= m < l.len() && l[m] == (k, p);
            assert(listed_from(s, l[m]));
            let i = choose|i: int| 0 <= i < s.len() && (#[trigger] s[i]).0@ == k && s[i].1.origin_port == Some(p);
            lemma_entry(s, i);
        }
        if book.apps@.contains_key(k) && book.apps@[k].origin_port == Some(p) {
            lemma_key(s, k);
            let i = index_of(s, k);
            assert(s[i].1.origin_port is Some);
        }
    }
}

/// Secrets are only ever named: what a listed app echoes back of its
/// environment never holds a variable whose key is a secret, and holds every
/// other variable with its value.
pub proof fn law_secrets_are_only_named(env: Seq<(String, String)>, secrets: Seq<Seq<char>>)
    ensures
        forall|j: int| 0 <= j < shown(env, secrets).len() ==> !secrets.contains(#[trigger] shown(env, secrets)[j].0),
        forall|i: int| 0 <= i < env.len() && !secrets.contains((#[trigger] env[i]).0@)
            ==> shown(env, secrets).contains((env[i].0@, env[i].1@)),
    decreases env.len(),
{
    if env.len() > 0 {
        let rest = env.drop_last();
        law_secrets_are_only_named(rest, secrets);
        let s0 = shown(rest, secrets);
        let s1 = shown(env, secrets);
        assert forall|j: int| 0 <= j < s1.len() implies !secrets.contains(#[trigger] s1[j].0) by {
            if j < s0.len() {
                assert(s1[j] == s0[j]);
            }
        }
        assert forall|i: int| 0 <= i < env.len() && !secrets.contains((#[trigger] env[i]).0@)
            implies s1.contains((env[i].0@, env[i].1@)) by {
            if i < rest.len() {
                assert(rest[i] == env[i]);
                assert(s0.contains((rest[i].0@, rest[i].1@)));
                let k = choose|k: int| 0 <= k < s0.len() && s0[k] == (rest[i].0@, rest[i].1@);
                assert(s1[k] == s0[k]);
            } else {
                assert(s1[s0.len() as int] == (env[i].0@, env[i].1@));
            }
        }
    }
}

proof fn lemma_pairs_keep(m: Map<Seq<char>, Seq<char>>, s: Seq<(&str, &str)>, k: Seq<char>)
    requires
        forall|i: int| 0 <= i < s.len() ==> (#[trigger] s[i]).0@ != k,
    ensures
        with_pairs(m, s).contains_key(k) == m.contains_key(k),
        m.contains_key(k) ==> with_pairs(m, s)[k] == m[k],
    decreases s.len(),
{
    if s.len() > 0 {
        assert forall|i: int| 0 <= i < s.drop_last().len() implies (#[trigger] s.drop_last()[i]).0@ != k by {
            assert(s.drop_last()[i] == s[i]);
        }
        lemma_pairs_keep(m, s.drop_last(), k);
        assert(s[s.len() - 1] == s.last());
    }
}

proof fn lemma_generated_keep(m: Map<Seq<char>, Seq<char>>, keys: Seq<&str>, vals: Seq<Seq<char>>, k: Seq<char>)
    requires
        forall|i: int| 0 <= i < keys.len() ==> (#[trigger] keys[i])@ != k,
    ensures
        with_generated(m, keys, vals).contains_key(k) == m.contains_key(k),
        m.contains_key(k) ==> with_generated(m, keys, vals)[k] == m[k],
    decreases keys.len(),
{
    if keys.len() > 0 {
        assert forall|i: int| 0 <= i < keys.drop_last().len() implies (#[trigger] keys.drop_last()[i])@ != k by {
            assert(keys.drop_last()[i] == keys[i]);
        }
        lemma_generated_keep(m, keys.drop_last(), vals, k);
        assert(keys[keys.len() - 1] == keys.last());
    }
}

/// A refusal for a port already in use names one app and only one: the first
/// in slug order that answers at the port, or serves it as its origin.
pub proof fn law_one_holder_is_named(apps: Map<Seq<char>, Installed>, port: u16, k1: Seq<char>, k2: Seq<char>)
    ensures
        first_port_holder(apps, port, k1) && first_port_holder(apps, port, k2) ==> k1 == k2,
        first_origin_holder(apps, port, k1) && first_origin_holder(apps, port, k2) ==> k1 == k2,
{
    if k1 != k2 && ((first_port_holder(apps, port, k1) && first_port_holder(apps, port, k2))
        || (first_origin_holder(apps, port, k1) && first_origin_holder(apps, port, k2))) {
        assert(key_lt(k1, k2) && key_lt(k2, k1));
        crate::table::lemma_key_lt_transitive(k1, k2, k1);
        crate::table::lemma_key_lt_irreflexive(k1);
    }
}

/// The variables WebDesk itself fixes in a container's environment.
pub open spec fn fixed_key(k: Seq<char>) -> bool {
    k == "PUID"@ || k == "PGID"@ || k == "TZ"@ || k == "TITLE"@
}

proof fn lemma_pairs_last(m: Map<Seq<char>, Seq<char>>, s: Seq<(&str, &str)>, i: int)
    requires
        0 <= i < s.len(),
        forall|j: int| i < j < s.len() ==> (#[trigger] s[j]).0@ != s[i].0@,
    ensures
        with_pairs(m, s).contains_key(s[i].0@),
        with_pairs(m, s)[s[i].0@] == s[i].1@,
    decreases s.len(),
{
    if i < s.len() - 1 {
        let rest = s.drop_last();
        assert forall|j: int| i < j < rest.len() implies (#[trigger] rest[j]).0@ != rest[i].0@ by {
            assert(rest[j] == s[j]);
        }
        lemma_pairs_last(m, rest, i);
        assert(rest[i] == s[i]);
        assert(s[s.len() - 1] == s.last());
    }
}

proof fn lemma_generated_some(m: Map<Seq<char>, Seq<char>>, keys: Seq<&str>, vals: Seq<Seq<char>>, i: int)
    requires
        0 <= i < keys.len(),
    ensures
        with_generated(m, keys, vals).contains_key(keys[i]@),
        exists|j: int| 0 <= j < keys.len() && (#[trigger] keys[j])@ == keys[i]@ && with_generated(m, keys, vals)[keys[i]@] == vals[j],
    decreases keys.len(),
{
    let last = keys.len() - 1;
    if keys[i]@ == keys.last()@ {
        assert(keys[last] == keys.last());
    } else {
        let rest = keys.drop_last();
        assert(rest[i] == keys[i]);
        lemma_generated_some(m, rest, vals, i);
        let j = choose|j: int| 0 <= j < rest.len() && (#[trigger] rest[j])@ == rest[i]@ && with_generated(m, rest, vals)[rest[i]@] == vals[j];
        assert(keys[j] == rest[j]);
    }
}

/// What you choose, and what WebDesk chooses: a container install's record and
/// what the engine is asked to create carry the entry's image at the chosen
/// tag, the port handed out on the host and the entry's own port inside. Its
/// environment is the answers, then what WebDesk fixes -- the installer's ids
/// exactly when the entry reads them, the host's clock exactly when it follows
/// the LinuxServer contract, the title exactly when it has one -- then the
/// entry's own settings, which win over both; each generated key holds a fresh
/// value of 64 hex digits and is recorded as a secret. Nothing names a unit or
/// a Flatpak. (Of an entry whose settings, generated keys, base key and
/// answers do not themselves name one of the variables WebDesk fixes.)
pub proof fn law_install_plan(
    app: App,
    admitted: Admitted,
    apps: Map<Seq<char>, Installed>,
    f: Facts,
    g: Seq<Seq<char>>,
    rec: Installed,
    spec: crate::engine::RunSpec,
)
    requires
        install_outcome(app, admitted, apps, f, g, Ok((rec, spec))),
        g.len() == app.generated@.len(),
        forall|i: int| 0 <= i < g.len() ==> secret_text(#[trigger] g[i]),
        forall|i: int| 0 <= i < app.env@.len() ==> !fixed_key((#[trigger] app.env@[i]).0@),
        forall|i: int| 0 <= i < app.generated@.len() ==> !fixed_key((#[trigger] app.generated@[i])@),
        app.base matches Some(b) ==> !fixed_key(b.key@),
        forall|k: Seq<char>| #[trigger] fixed_key(k) ==> !env_view(admitted.answers.env@).contains_key(k),
    ensures
        spec.image@ == rec.image@,
        rec.image@ == app.image@ + ":"@ + admitted.tag@,
        spec.host_port == rec.port && rec.port == admitted.port,
        spec.container_port == app.port,
        ({
            let env = env_view(rec.env@);
            &&& env.contains_key("PUID"@) == app.ids && env.contains_key("PGID"@) == app.ids
            &&& app.ids ==> env["PUID"@] == decimal(f.uid as nat) && env["PGID"@] == decimal(f.gid as nat)
            &&& env.contains_key("TZ"@) == app.lsio
            &&& app.lsio ==> env["TZ"@] == f.timezone@
            &&& env.contains_key("TITLE"@) == app.title is Some
            &&& (app.title matches Some(t) ==> env["TITLE"@] == t@)
            &&& forall|i: int| 0 <= i < app.env@.len()
                && (forall|j: int| i < j < app.env@.len() ==> (#[trigger] app.env@[j]).0@ != app.env@[i].0@)
                && (forall|j: int| 0 <= j < app.generated@.len() ==> (#[trigger] app.generated@[j])@ != app.env@[i].0@)
                ==> env.contains_key((#[trigger] app.env@[i]).0@) && env[app.env@[i].0@] == app.env@[i].1@
            &&& forall|i: int| 0 <= i < app.generated@.len() ==> env.contains_key((#[trigger] app.generated@[i])@)
                && secret_text(env[app.generated@[i]@])
                && crate::engine::strings(rec.secrets@).contains(app.generated@[i]@)
        }),
        rec.unit is None,
        rec.flatpak is None,
{
    reveal_strlit("PUID");
    reveal_strlit("PGID");
    reveal_strlit("TZ");
    reveal_strlit("TITLE");
    reveal_strlit("DRI_NODE");
    reveal_strlit("DRINODE");
    assert("PUID"@.len() == 4 && "PGID"@.len() == 4 && "TZ"@.len() == 2 && "TITLE"@.len() == 5);
    assert("DRI_NODE"@.len() == 8 && "DRINODE"@.len() == 7);
    assert("PUID"@[1] == 'U' && "PGID"@[1] == 'G');
    assert(fixed_key("PUID"@) && fixed_key("PGID"@) && fixed_key("TZ"@) && fixed_key("TITLE"@));
    let answers = env_view(admitted.answers.env@);
    let e1 = if app.ids {
        answers.insert("PUID"@, decimal(f.uid as nat)).insert("PGID"@, decimal(f.gid as nat))
    } else {
        answers
    };
    let e2 = if app.lsio {
        e1.insert("TZ"@, f.timezone@)
    } else {
        e1
    };
    let e3 = match app.title {
        Some(t) => e2.insert("TITLE"@, t@),
        None => e2,
    };
    let e4 = match app.base {
        Some(b) => e3.insert(b.key@, crate::catalog::base_text(b.template@, "/app/"@ + app.slug@)),
        None => e3,
    };
    let e5 = match f.gpu {
        Some(gg) if app.draws => e4.insert("DRI_NODE"@, gg.node@).insert("DRINODE"@, gg.node@),
        _ => e4,
    };
    let e6 = with_pairs(e5, app.env@);
    let env = with_generated(e6, app.generated@, g);
    assert(env == env_view(rec.env@));
    assert forall|k: Seq<char>| fixed_key(k) implies env.contains_key(k) == e5.contains_key(k)
        && (e5.contains_key(k) ==> env[k] == e5[k]) by {
        lemma_pairs_keep(e5, app.env@, k);
        lemma_generated_keep(e6, app.generated@, g, k);
    }
    assert forall|i: int| 0 <= i < app.env@.len()
        && (forall|j: int| i < j < app.env@.len() ==> (#[trigger] app.env@[j]).0@ != app.env@[i].0@)
        && (forall|j: int| 0 <= j < app.generated@.len() ==> (#[trigger] app.generated@[j])@ != app.env@[i].0@)
        implies env.contains_key((#[trigger] app.env@[i]).0@) && env[app.env@[i].0@] == app.env@[i].1@ by {
        lemma_pairs_last(e5, app.env@, i);
        lemma_generated_keep(e6, app.generated@, g, app.env@[i].0@);
    }
    assert forall|i: int| 0 <= i < app.generated@.len() implies env.contains_key((#[trigger] app.generated@[i])@)
        && secret_text(env[app.generated@[i]@])
        && crate::engine::strings(rec.secrets@).contains(app.generated@[i]@) by {
        lemma_generated_some(e6, app.generated@, g, i);
        let secrets = crate::engine::strings(admitted.answers.secrets@) + app.generated@.map_values(|k: &str| k@);
        assert(secrets[crate::engine::strings(admitted.answers.secrets@).len() + i] == app.generated@[i]@);
    }
}

/// The render node is named to an app that is given one: when an app that
/// draws is handed a node, `DRI_NODE` and `DRINODE` both hold that node's
/// path; when it is handed none, neither is set. (Of an entry whose own
/// settings or generated keys, or whose answers, are not one of the two.)
pub proof fn law_render_node_is_named(
    app: App,
    answers: Map<Seq<char>, Seq<char>>,
    uid: u32,
    gid: u32,
    tz: Seq<char>,
    gpu: Option<crate::engine::Gpu>,
    generated: Seq<Seq<char>>,
)
    requires
        forall|i: int| 0 <= i < app.env@.len() ==> (#[trigger] app.env@[i]).0@ != "DRI_NODE"@ && app.env@[i].0@ != "DRINODE"@,
        forall|i: int| 0 <= i < app.generated@.len() ==> (#[trigger] app.generated@[i])@ != "DRI_NODE"@ && app.generated@[i]@ != "DRINODE"@,
        !answers.contains_key("DRI_NODE"@),
        !answers.contains_key("DRINODE"@),
        app.base matches Some(b) ==> b.key@ != "DRI_NODE"@ && b.key@ != "DRINODE"@,
    ensures
        ({
            let env = planned_env(app, answers, uid, gid, tz, gpu, generated);
            match gpu {
                Some(g) if app.draws => env.contains_key("DRI_NODE"@) && env["DRI_NODE"@] == g.node@
                    && env.contains_key("DRINODE"@) && env["DRINODE"@] == g.node@,
                _ => !env.contains_key("DRI_NODE"@) && !env.contains_key("DRINODE"@),
            }
        }),
{
    reveal_strlit("DRI_NODE");
    reveal_strlit("DRINODE");
    reveal_strlit("PUID");
    reveal_strlit("PGID");
    reveal_strlit("TZ");
    reveal_strlit("TITLE");
    let e1 = if app.ids {
        answers.insert("PUID"@, decimal(uid as nat)).insert("PGID"@, decimal(gid as nat))
    } else {
        answers
    };
    let e2 = if app.lsio {
        e1.insert("TZ"@, tz)
    } else {
        e1
    };
    let e3 = match app.title {
        Some(t) => e2.insert("TITLE"@, t@),
        None => e2,
    };
    let e4 = match app.base {
        Some(b) => e3.insert(b.key@, crate::catalog::base_text(b.template@, "/app/"@ + app.slug@)),
        None => e3,
    };
    let e5 = match gpu {
        Some(g) if app.draws => e4.insert("DRI_NODE"@, g.node@).insert("DRINODE"@, g.node@),
        _ => e4,
    };
    assert("DRI_NODE"@.len() == 8 && "DRINODE"@.len() == 7);
    assert("PUID"@.len() == 4 && "PGID"@.len() == 4 && "TZ"@.len() == 2 && "TITLE"@.len() == 5);
    assert("DRI_NODE"@ != "DRINODE"@);
    lemma_pairs_keep(e5, app.env@, "DRI_NODE"@);
    lemma_pairs_keep(e5, app.env@, "DRINODE"@);
    let e6 = with_pairs(e5, app.env@);
    lemma_generated_keep(e6, app.generated@, generated, "DRI_NODE"@);
    lemma_generated_keep(e6, app.generated@, generated, "DRINODE"@);
}

/// The proxy is never given a way to reach a streamed app: whatever else its
/// record says, the port lookup answers `None`, and so does the origin lookup
/// for a record with no origin port, which a streamed record never has.
pub proof fn law_streamed_is_never_dialled(apps: Map<Seq<char>, Installed>, slug: Seq<char>, tls_on: bool, host: Option<Seq<char>>)
    requires
        apps.contains_key(slug),
        apps[slug].flatpak is Some,
        apps[slug].origin_port is None,
    ensures
        upstream(apps, slug) is None,
        origin_url(tls_on, host, apps, slug) is None,
{
}

/// What a read gives back of a write: once a record is in the book under its
/// slug, the proxy is sent to exactly the port and scheme it recorded -- unless
/// it is a streamed app, which it is never sent to.
pub proof fn law_recorded_port_is_served(apps: Map<Seq<char>, Installed>, slug: Seq<char>, rec: Installed)
    ensures
        upstream(apps.insert(slug, rec), slug) == if rec.flatpak is Some {
            None
        } else {
            Some((rec.port, rec.tls))
        },
{
}

/// Ports are handed out without collision: the port `free_port` chooses is
/// one no installed app has, and once an app is recorded on it, it is taken.
pub proof fn law_ports_never_collide(apps: Map<Seq<char>, Installed>, p: u16, slug: Seq<char>, rec: Installed)
    requires
        !port_taken(apps, p as int),
        rec.port == p,
    ensures
        forall|k: Seq<char>| #[trigger] apps.contains_key(k) ==> apps[k].port != p,
        port_taken(apps.insert(slug, rec), p as int),
{
    assert(apps.insert(slug, rec)[slug].port == p);
}

/// Whatever an install planned, the container's state directory and the
/// shared home are mounted, and a mount the browser answered for comes first.
/// The entry cannot add a mount of its own beyond the socket it names.
pub proof fn law_planned_mounts_extend_the_answers(app: App, answers: Seq<(Seq<char>, Seq<char>, bool)>, f: Facts)
    ensures
        planned_mounts(app, answers, f).take(answers.len() as int) == answers,
        f.home matches Some(h) ==> planned_mounts(app, answers, f)[answers.len() as int] == crate::engine::mount_view(h),
{
    let m = planned_mounts(app, answers, f);
    assert(m.take(answers.len() as int) =~= answers);
}

} // verus!
