//! The catalog of installable applications.
//!
//! Every application WebDesk can install is described here, in the library. It
//! is deliberately not a file on disk and not something the browser can add
//! to: a container is a way to run arbitrary code as whoever owns the engine,
//! so the set of things that may be run is a property of the build. "Install
//! an app" means "choose one of these and fill in its blanks", and nothing
//! else.
//!
//! There are three kinds of entry, and each entry is exactly one of them: a
//! container image reached under `/app/<slug>/`, a service already running on
//! the host and reached the same way, and a Flatpak drawn on the host and
//! streamed into a window. The shape of each kind -- what a streamed entry or a
//! host service must *not* carry -- is stated on `catalog` and proved there.

use vstd::prelude::*;
use crate::text::{chars_of, replace, replace_chars, same, string_of};

verus! {

/// What kind of blank a parameter is, and how it reaches the container.
pub enum Kind {
    /// A plain string, passed as `-e KEY=value`.
    Text,
    /// The same, but never echoed back to the browser once stored.
    Secret,
    /// One of a fixed set of strings.
    Choice(Vec<&'static str>),
    /// `"true"` or `"false"`.
    Toggle,
    /// A directory on the host, passed as `-v value:at[:ro]` rather than as an
    /// environment variable, and validated hard.
    HostPath { at: &'static str, ro: bool },
    /// A TCP port for WebDesk itself to listen on, for an entry that needs an
    /// origin of its own. Never reaches the container.
    Port,
}

/// One blank an entry asks the installer to fill in.
pub struct Param {
    /// Environment variable name, or -- for a host path -- just an identifier.
    pub key: &'static str,
    pub label: &'static str,
    pub help: &'static str,
    pub kind: Kind,
    pub default: &'static str,
    pub required: bool,
}

/// How an application is told what prefix it is served under: `{prefix}` in
/// the template is replaced with `/app/<slug>`, without a trailing slash.
pub struct Base {
    pub key: &'static str,
    pub template: &'static str,
}

/// A host program a service cannot start without, and the package that
/// provides it under each package manager, where somebody has checked.
pub struct Prereq {
    /// The binary looked for on `PATH`.
    pub bin: &'static str,
    pub dnf: Option<&'static str>,
    pub apt: Option<&'static str>,
    pub pacman: Option<&'static str>,
    pub zypper: Option<&'static str>,
}

/// Where a Flatpak comes from, which decides what installing and updating
/// mean.
pub enum FlatpakSource {
    /// Flathub: `flatpak install` against the remote, and `flatpak update`.
    Flathub,
    /// A bundle from a GitHub repository's releases; upgrading is downloading
    /// the newest one again.
    Bundle { repo: &'static str },
}

/// A Flatpak-packaged application.
pub struct Flatpak {
    /// The application id, as `flatpak info` would be given it.
    pub id: &'static str,
    pub source: FlatpakSource,
    /// Host programs the unit needs besides the Flatpak itself.
    pub needs: Vec<Prereq>,
}

/// A service that runs on the host rather than in a container, adopted by
/// WebDesk and served under `/app/<slug>/` like any other app.
pub struct HostService {
    /// The systemd unit that serves it.
    pub unit: &'static str,
    /// The unit file written when the host has no such unit yet. Only
    /// `{user}` and `{uid}` are ever substituted into it.
    pub unit_body: &'static str,
    /// The Flatpak the service runs, if WebDesk can provide it.
    pub flatpak: Option<Flatpak>,
    /// What an operator must do when WebDesk cannot do it for them.
    pub provision: &'static str,
}

/// A Flatpak drawn on this host and streamed into a window.
pub struct Streamed {
    pub flatpak: Flatpak,
    /// The size of the headless output the compositor starts with.
    pub width: u16,
    pub height: u16,
}

/// One installable application.
pub struct App {
    pub slug: &'static str,
    pub name: &'static str,
    pub tagline: &'static str,
    /// Image reference without a tag; empty for an entry that is not a
    /// container.
    pub image: &'static str,
    /// The port the application listens on: inside the container, or on the
    /// host's loopback for a host service. Zero for a streamed entry.
    pub port: u16,
    pub icon: &'static str,
    pub host: Option<HostService>,
    pub streamed: Option<Streamed>,
    /// `None` when the application works out its own prefix.
    pub base: Option<Base>,
    /// This application cannot live under a path prefix and is served at the
    /// root of a port of its own.
    pub needs_origin: bool,
    /// Where the application keeps state, mounted from the host.
    pub config_at: Option<&'static str>,
    /// Settings that are ours to make rather than questions to ask.
    pub env: Vec<(&'static str, &'static str)>,
    /// Variables filled with a fresh random value at install time.
    pub generated: Vec<&'static str>,
    /// Follows the LinuxServer contract, so `TZ` means something.
    pub lsio: bool,
    /// Reads `PUID`/`PGID` to decide who owns the files it writes.
    pub ids: bool,
    /// The host's container socket, bound in at this path.
    pub socket: Option<&'static str>,
    /// `--shm-size`.
    pub shm: Option<&'static str>,
    /// Renders its own interface on this host, and so wants the render node
    /// and the host's fonts.
    pub draws: bool,
    /// `TITLE`, when the app is told what to call itself.
    pub title: Option<&'static str>,
    /// Speak TLS to this app's port.
    pub tls: bool,
    pub notes: &'static str,
    pub params: Vec<Param>,
}

/// The clock every LinuxServer image reads, read off the host.
pub const TZ_KEY: &'static str = "TZ";

pub const TERM_HUT_UNIT: &'static str = r#"[Unit]
Description=term.hut in web mode, served to WebDesk on loopback
Documentation=https://term-hut.hutsonlabs.com
After=network-online.target
Wants=network-online.target

[Service]
Type=simple
User={user}

# A system unit gets no login session, but the Flatpak's whole value here is
# flatpak-spawn --host, which talks to the portal on the *user* bus. Lingering
# (loginctl enable-linger {user}) keeps /run/user/{uid} and its bus alive with
# nobody logged in; these two point the service at them.
Environment=XDG_RUNTIME_DIR=/run/user/{uid}
Environment=DBUS_SESSION_BUS_ADDRESS=unix:path=/run/user/{uid}/bus

# GTK insists on a display even though web mode never opens a window, and
# EL10 ships no Xvfb at all. xwfb-run is the replacement -- a headless Wayland
# compositor plus Xwayland.
#
# --host 127.0.0.1 is the part that matters. WebDesk's sign-in is the only door
# to this terminal; bound to every interface it would have a second one with no
# lock on it. --no-token for the same reason: reaching this already means
# getting past WebDesk's session.
ExecStart=/usr/bin/xwfb-run -- /usr/bin/flatpak run com.hutsonlabs.termhut web --host 127.0.0.1 --port 6767 --no-token

# systemd cannot reach this app on its own. `flatpak run` hands the app to the
# session helper, which puts it in a systemd *scope* of its own -- outside this
# service's cgroup -- so stopping the service kills only xwfb-run and the
# launcher and leaves the terminal running and holding port 6767. The next
# start then finds a live instance, returns in under a second, and the unit
# goes `inactive (dead)` while the *old* build goes on serving. That is not a
# restart; it is a silent no-op that pins whatever version started first.
#
# `flatpak kill` reaches into the scope by app id, which is the one handle that
# does work. On Stop so the service really stops, and before Start (leading `-`
# so "nothing to kill" is not a failure) so a start always begins from nothing
# and `flatpak run` stays in the foreground where systemd can supervise it.
ExecStartPre=-/usr/bin/flatpak kill com.hutsonlabs.termhut
ExecStop=-/usr/bin/flatpak kill com.hutsonlabs.termhut

Restart=on-failure
RestartSec=3

[Install]
WantedBy=multi-user.target
"#;

/// What an operator must do to give this host term.hut by hand.
pub const TERM_HUT_PROVISION: &'static str = "Install the term.hut Flatpak and add a system unit named term-hut-web.service that runs `hut web --host 127.0.0.1 --port 6767 --no-token` as the user whose shell this should be, then `systemctl enable --now term-hut-web.service`. --host 127.0.0.1 is the part that matters: WebDesk's sign-in is the only door to this terminal, and a service bound to every interface has a second one with no lock on it.";

// ------------------------------------------------------------------ laws

/// The slug is safe as a URL path segment, a container name and a directory
/// name at once: lower-case ASCII letters, digits and `-`.
pub open spec fn safe_slug(s: Seq<char>) -> bool {
    s.len() > 0 && forall|i: int|
        0 <= i < s.len() ==> ('a' <= #[trigger] s[i] <= 'z' || '0' <= s[i] <= '9' || s[i] == '-')
}

/// The entry is exactly one of the three kinds: an image, a host service, or
/// a streamed Flatpak.
pub open spec fn one_kind(a: App) -> bool {
    ||| (a.image@.len() > 0 && a.host is None && a.streamed is None)
    ||| (a.image@.len() == 0 && a.host is Some && a.streamed is None)
    ||| (a.image@.len() == 0 && a.host is None && a.streamed is Some)
}

/// Whether an entry asks for a port of its own.
pub open spec fn asks_port(a: App) -> bool {
    exists|i: int| 0 <= i < a.params@.len() && #[trigger] a.params@[i].kind is Port
}

/// Whether `key` is one of the questions an entry asks.
pub open spec fn asks_key(a: App, key: Seq<char>) -> bool {
    exists|i: int| 0 <= i < a.params@.len() && #[trigger] a.params@[i].key@ == key
}

/// A streamed entry is described by what it has not got: nothing any part of
/// the container or proxy path could act on.
pub open spec fn streamed_is_empty(a: App) -> bool {
    a.streamed is Some ==> {
        &&& a.image@.len() == 0
        &&& a.port == 0
        &&& !a.tls
        &&& !a.needs_origin
        &&& a.base is None
        &&& a.host is None
        &&& a.config_at is None
        &&& a.env@.len() == 0
        &&& a.generated@.len() == 0
        &&& a.params@.len() == 0
        &&& a.socket is None
        &&& a.shm is None
        &&& !a.lsio && !a.ids
        &&& !a.draws
        &&& a.streamed->0.flatpak.id@.len() > 0
    }
}

/// A host entry carries nothing a container would need, and its port is out
/// of reach of the container port allocator.
pub open spec fn host_is_bare(a: App) -> bool {
    a.host is Some ==> {
        &&& a.image@.len() == 0
        &&& a.config_at is None
        &&& a.socket is None
        &&& a.shm is None
        &&& !a.lsio && !a.ids
        &&& a.env@.len() == 0
        &&& a.generated@.len() == 0
        &&& a.title is None
        &&& !a.needs_origin
        &&& a.params@.len() == 0
        &&& a.host->0.unit@.len() > 0
        &&& !a.draws
        &&& !(47000 <= a.port <= 47999)
    }
}

/// Every rule a single entry keeps.
pub open spec fn entry_ok(a: App) -> bool {
    &&& safe_slug(a.slug@)
    &&& one_kind(a)
    &&& streamed_is_empty(a)
    &&& host_is_bare(a)
    // Port 3001 is the Selkies contract: the https port, and an app that draws.
    &&& a.tls == (a.port == 3001)
    &&& a.draws == (a.port == 3001)
    // The engine socket is root on this host; no shipping entry holds it.
    &&& a.socket is None
    // The origin flag and the port question are useless apart.
    &&& a.needs_origin == asks_port(a)
    // A generated or fixed variable is never also a question.
    &&& (forall|i: int| 0 <= i < a.generated@.len() ==> !asks_key(a, #[trigger] a.generated@[i]@))
    &&& (forall|i: int| 0 <= i < a.env@.len() ==> !asks_key(a, (#[trigger] a.env@[i]).0@))
    // Every LinuxServer image reads the ids as well as the clock.
    &&& (a.lsio ==> a.ids)
    // Anything that is not streamed is dialled at its port.
    &&& (a.streamed is None ==> a.port > 0)
}

/// Two entries never share a slug.
pub open spec fn slugs_unique(apps: Seq<App>) -> bool {
    forall|i: int, j: int| 0 <= i < apps.len() && 0 <= j < apps.len() && i != j ==> #[trigger] apps[i].slug@ != #[trigger] apps[j].slug@
}

/// The slugs of the shipping catalog, in order.
pub open spec fn shipped_slugs() -> Seq<Seq<char>> {
    seq![
        "helium"@, "firefox"@, "onlyoffice"@, "inkscape"@, "vscodium-web"@, "term-hut-host"@,
        "gimp"@, "dbeaver"@, "remmina"@, "baobab"@, "localsend-app"@, "bitwarden"@,
    ]
}

/// Everything the shipping catalog promises of itself.
pub open spec fn catalog_ok(apps: Seq<App>) -> bool {
    &&& apps.map_values(|a: App| a.slug@) == shipped_slugs()
    &&& slugs_unique(apps)
    &&& forall|i: int| 0 <= i < apps.len() ==> entry_ok(#[trigger] apps[i])
}


// --------------------------------------------------------- what ships

/// A Selkies desktop entry, field by field: drawn in a container on the https
/// port 3001 with 1g of shared memory, titled with its own name, told the
/// installer's ids and the host's clock, keeping its state in `/config`, and
/// asking nothing.
pub open spec fn desktop_entry(a: App, slug: Seq<char>, name: Seq<char>, image: Seq<char>, icon: Seq<char>, tagline: Seq<char>) -> bool {
    &&& a.slug@ == slug
    &&& a.name@ == name
    &&& a.tagline@ == tagline
    &&& a.image@ == image
    &&& a.port == 3001
    &&& a.icon@ == icon
    &&& a.host is None
    &&& a.streamed is None
    &&& a.base is None
    &&& !a.needs_origin
    &&& (a.config_at matches Some(c) && c@ == "/config"@)
    &&& a.env@.len() == 0
    &&& a.generated@.len() == 0
    &&& a.lsio
    &&& a.ids
    &&& a.socket is None
    &&& (a.shm matches Some(m) && m@ == "1g"@)
    &&& a.draws
    &&& (a.title matches Some(t) && t@ == name)
    &&& a.tls
    &&& a.notes@ == DESKTOP_NOTES@
    &&& a.params@.len() == 0
}

/// A Flathub entry streamed from this host, field by field: a name, an id, an
/// icon and a first window size, and the empty answer everywhere else.
pub open spec fn flathub_entry(
    a: App,
    slug: Seq<char>,
    name: Seq<char>,
    id: Seq<char>,
    icon: Seq<char>,
    tagline: Seq<char>,
    width: u16,
    height: u16,
) -> bool {
    &&& a.slug@ == slug
    &&& a.name@ == name
    &&& a.tagline@ == tagline
    &&& a.image@.len() == 0
    &&& a.port == 0
    &&& a.icon@ == icon
    &&& a.host is None
    &&& (a.streamed matches Some(st) && st.flatpak.id@ == id && st.flatpak.source is Flathub
        && st.flatpak.needs@.len() == 0 && st.width == width && st.height == height)
    &&& a.base is None
    &&& !a.needs_origin
    &&& a.config_at is None
    &&& a.env@.len() == 0
    &&& a.generated@.len() == 0
    &&& !a.lsio
    &&& !a.ids
    &&& a.socket is None
    &&& a.shm is None
    &&& !a.draws
    &&& a.title is None
    &&& !a.tls
    &&& a.notes@ == STREAMED_NOTES@
    &&& a.params@.len() == 0
}

/// One parameter's text and whether it must be answered.
pub open spec fn param_is(p: Param, key: Seq<char>, label: Seq<char>, help: Seq<char>, default: Seq<char>, required: bool) -> bool {
    &&& p.key@ == key
    &&& p.label@ == label
    &&& p.help@ == help
    &&& p.default@ == default
    &&& p.required == required
}

/// The VSCodium entry, field by field: told its prefix through `CODE_ARGS`,
/// and asking for a workspace folder and two optional secrets, in that order.
pub open spec fn vscodium_entry(a: App) -> bool {
    &&& a.slug@ == "vscodium-web"@
    &&& a.name@ == "VSCodium"@
    &&& a.tagline@ == "VS Code without the telemetry, as a web editor rather than a drawn desktop."@
    &&& a.image@ == "lscr.io/linuxserver/vscodium-web"@
    &&& a.port == 8000
    &&& a.icon@ == "a-vscodium"@
    &&& a.host is None
    &&& a.streamed is None
    &&& (a.base matches Some(b) && b.key@ == "CODE_ARGS"@ && b.template@ == "--server-base-path={prefix}"@)
    &&& !a.needs_origin
    &&& (a.config_at matches Some(c) && c@ == "/config"@)
    &&& a.env@.len() == 0
    &&& a.generated@.len() == 0
    &&& a.lsio
    &&& a.ids
    &&& a.socket is None
    &&& a.shm is None
    &&& !a.draws
    &&& a.title is None
    &&& !a.tls
    &&& a.notes@ == "Its extensions and settings live in the app directory."@
    &&& a.params@.len() == 3
    &&& param_is(a.params@[0], "DEFAULT_WORKSPACE"@, "Workspace folder"@,
        "Directory on the host to open. Mounted into the editor."@, ""@, false)
    &&& (a.params@[0].kind matches Kind::HostPath { at, ro } && at@ == "/config/workspace"@ && !ro)
    &&& param_is(a.params@[1], "CONNECTION_TOKEN"@, "Connection token"@,
        "Optional. A secret the editor asks for; leave empty to run without one."@, ""@, false)
    &&& a.params@[1].kind is Secret
    &&& param_is(a.params@[2], "SUDO_PASSWORD"@, "sudo password"@,
        "Optional. Lets the editor's terminal use sudo inside the container only."@, ""@, false)
    &&& a.params@[2].kind is Secret
}

/// The term.hut entry, field by field: a host service on loopback port 6767,
/// run by `term-hut-web.service`, whose Flatpak comes as a release bundle and
/// needs `xwfb-run` on the host.
pub open spec fn term_hut_entry(a: App) -> bool {
    &&& a.slug@ == "term-hut-host"@
    &&& a.name@ == "term.hut"@
    &&& a.tagline@ == "An agent-aware terminal, run as a service on this host -- so its shell is the host's."@
    &&& a.image@.len() == 0
    &&& a.port == 6767
    &&& a.icon@ == "a-termhut"@
    &&& (a.host matches Some(h) && h.unit@ == "term-hut-web.service"@ && h.unit_body@ == TERM_HUT_UNIT@
        && h.provision@ == TERM_HUT_PROVISION@
        && (h.flatpak matches Some(f) && f.id@ == "com.hutsonlabs.termhut"@
            && (f.source matches FlatpakSource::Bundle { repo } && repo@ == "HutsonLabs/termhut.hutsonlabs.com"@)
            && f.needs@.len() == 1 && f.needs@[0].bin@ == "xwfb-run"@
            && (f.needs@[0].dnf matches Some(d) && d@ == "xwayland-run"@)
            && (f.needs@[0].apt matches Some(t) && t@ == "xwayland-run"@)
            && f.needs@[0].pacman is None && f.needs@[0].zypper is None))
    &&& a.streamed is None
    &&& a.base is None
    &&& !a.needs_origin
    &&& a.config_at is None
    &&& a.env@.len() == 0
    &&& a.generated@.len() == 0
    &&& !a.lsio
    &&& !a.ids
    &&& a.socket is None
    &&& a.shm is None
    &&& !a.draws
    &&& a.title is None
    &&& !a.tls
    &&& a.notes@ == "A desktop application designed for editing and terminal."@
    &&& a.params@.len() == 0
}

/// The entry the shipping catalog holds under `slug`, every field of it.
pub open spec fn shipped_entry(a: App, slug: Seq<char>) -> bool {
    &&& (slug == "helium"@ ==> desktop_entry(a, "helium"@, "Helium"@, "lscr.io/linuxserver/helium"@, "a-helium"@, "A quieter Chromium, with the tracking taken out."@))
    &&& (slug == "firefox"@ ==> desktop_entry(a, "firefox"@, "Firefox"@, "lscr.io/linuxserver/firefox"@, "a-firefox"@, "The browser, running on this host rather than on your machine."@))
    &&& (slug == "onlyoffice"@ ==> desktop_entry(a, "onlyoffice"@, "OnlyOffice"@, "lscr.io/linuxserver/onlyoffice"@, "a-onlyoffice"@, "Documents, spreadsheets and slides, close to the shapes Office makes."@))
    &&& (slug == "inkscape"@ ==> desktop_entry(a, "inkscape"@, "Inkscape"@, "lscr.io/linuxserver/inkscape"@, "a-inkscape"@, "Vector drawing, for the SVGs this desktop is drawn with."@))
    &&& (slug == "vscodium-web"@ ==> vscodium_entry(a))
    &&& (slug == "term-hut-host"@ ==> term_hut_entry(a))
    &&& (slug == "gimp"@ ==> flathub_entry(a, "gimp"@, "GIMP"@, "org.gimp.GIMP"@, "a-gimp"@, "Photo and image editing, on the machine the images are already on."@, 1600, 1000))
    &&& (slug == "dbeaver"@ ==> flathub_entry(a, "dbeaver"@, "DBeaver"@, "io.dbeaver.DBeaverCommunity"@, "a-dbeaver"@, "A database client, on the side of the firewall the database is on."@, 1600, 1000))
    &&& (slug == "remmina"@ ==> flathub_entry(a, "remmina"@, "Remmina"@, "org.remmina.Remmina"@, "a-remmina"@, "RDP, VNC and SSH out to the other machines this host can see."@, 1280, 800))
    &&& (slug == "baobab"@ ==> flathub_entry(a, "baobab"@, "Disk Analyzer"@, "org.gnome.baobab"@, "a-baobab"@, "Where the disk went, as a picture rather than a column of numbers."@, 1100, 750))
    &&& (slug == "localsend-app"@ ==> flathub_entry(a, "localsend-app"@, "LocalSend"@, "org.localsend.localsend_app"@, "a-localsend"@, "Send files to the machines beside this one, with no share to set up."@, 1280, 944))
    &&& (slug == "bitwarden"@ ==> flathub_entry(a, "bitwarden"@, "Bitwarden"@, "com.bitwarden.desktop"@, "a-bitwarden"@, "The password vault, on the host where the passwords get used."@, 1280, 768))
    &&& shipped_slugs().contains(slug)
}

// --------------------------------------------------------------- entries

/// The text a desktop entry shows under its name.
pub const DESKTOP_NOTES: &'static str = "A desktop application, drawn in the browser. Its state lives in the app directory, so it is still there next time.";

/// The text a streamed entry shows under its name.
pub const STREAMED_NOTES: &'static str = "Runs on this host as you, with your home directory, your fonts and your GPU, and is drawn into this window. Its files are your files.";

/// One Selkies desktop application, drawn in a container and streamed into
/// the browser over its https port.
///
/// These ask nothing at all: the title is the app's own name, the clock is the
/// host's and the identity is the installer's, so installing one is a single
/// press. `1g` of shared memory, because a real browser or office suite dies
/// on the 64 MB default.
fn desktop(
    slug: &'static str,
    name: &'static str,
    image: &'static str,
    icon: &'static str,
    tagline: &'static str,
) -> (a: App)
    requires
        safe_slug(slug@),
        image@.len() > 0,
    ensures
        desktop_entry(a, slug@, name@, image@, icon@, tagline@),
        entry_ok(a),
{
    App {
        slug,
        name,
        tagline,
        image,
        port: 3001,
        tls: true,
        icon,
        host: None,
        streamed: None,
        base: None,
        needs_origin: false,
        config_at: Some("/config"),
        env: Vec::new(),
        generated: Vec::new(),
        lsio: true,
        ids: true,
        socket: None,
        shm: Some("1g"),
        draws: true,
        title: Some(name),
        notes: DESKTOP_NOTES,
        params: Vec::new(),
    }
}

/// One Flathub application, drawn on this host and streamed into a window.
///
/// What is left of an entry once the container is gone: a name, an id, an
/// icon and a first window size. Every field the proxy or the installer would
/// act on is the empty answer.
fn flathub(
    slug: &'static str,
    name: &'static str,
    id: &'static str,
    icon: &'static str,
    tagline: &'static str,
    width: u16,
    height: u16,
) -> (a: App)
    requires
        safe_slug(slug@),
        id@.len() > 0,
    ensures
        flathub_entry(a, slug@, name@, id@, icon@, tagline@, width, height),
        entry_ok(a),
{
    proof {
        reveal_strlit("");
    }
    App {
        slug,
        name,
        tagline,
        streamed: Some(
            Streamed {
                flatpak: Flatpak { id, source: FlatpakSource::Flathub, needs: Vec::new() },
                width,
                height,
            },
        ),
        icon,
        image: "",
        port: 0,
        host: None,
        base: None,
        needs_origin: false,
        config_at: None,
        env: Vec::new(),
        generated: Vec::new(),
        lsio: false,
        ids: false,
        socket: None,
        shm: None,
        draws: false,
        title: None,
        tls: false,
        notes: STREAMED_NOTES,
        params: Vec::new(),
    }
}

/// VSCodium as a web editor: told its prefix through `CODE_ARGS`, asked for a
/// workspace folder and two optional secrets.
fn vscodium() -> (a: App)
    ensures
        vscodium_entry(a),
        entry_ok(a),
{
    proof {
        reveal_strlit("vscodium-web");
        reveal_strlit("lscr.io/linuxserver/vscodium-web");
    }
    let mut params: Vec<Param> = Vec::new();
    params.push(
        Param {
            key: "DEFAULT_WORKSPACE",
            label: "Workspace folder",
            help: "Directory on the host to open. Mounted into the editor.",
            kind: Kind::HostPath { at: "/config/workspace", ro: false },
            default: "",
            required: false,
        },
    );
    params.push(
        Param {
            key: "CONNECTION_TOKEN",
            label: "Connection token",
            help: "Optional. A secret the editor asks for; leave empty to run without one.",
            kind: Kind::Secret,
            default: "",
            required: false,
        },
    );
    params.push(
        Param {
            key: "SUDO_PASSWORD",
            label: "sudo password",
            help: "Optional. Lets the editor's terminal use sudo inside the container only.",
            kind: Kind::Secret,
            default: "",
            required: false,
        },
    );
    let a = App {
        slug: "vscodium-web",
        name: "VSCodium",
        tagline: "VS Code without the telemetry, as a web editor rather than a drawn desktop.",
        image: "lscr.io/linuxserver/vscodium-web",
        port: 8000,
        icon: "a-vscodium",
        host: None,
        streamed: None,
        base: Some(Base { key: "CODE_ARGS", template: "--server-base-path={prefix}" }),
        needs_origin: false,
        config_at: Some("/config"),
        env: Vec::new(),
        generated: Vec::new(),
        lsio: true,
        ids: true,
        socket: None,
        shm: None,
        draws: false,
        title: None,
        tls: false,
        notes: "Its extensions and settings live in the app directory.",
        params,
    };
    assert(!asks_port(a));
    a
}

/// term.hut, served by a unit on the host rather than from a container, and
/// provided as a Flatpak bundle when the host does not have it yet.
fn term_hut() -> (a: App)
    ensures
        term_hut_entry(a),
        entry_ok(a),
{
    proof {
        reveal_strlit("term-hut-host");
        reveal_strlit("term-hut-web.service");
        reveal_strlit("");
    }
    let mut needs: Vec<Prereq> = Vec::new();
    needs.push(
        Prereq {
            bin: "xwfb-run",
            dnf: Some("xwayland-run"),
            apt: Some("xwayland-run"),
            pacman: None,
            zypper: None,
        },
    );
    App {
        slug: "term-hut-host",
        name: "term.hut",
        tagline: "An agent-aware terminal, run as a service on this host -- so its shell is the host's.",
        image: "",
        port: 6767,
        icon: "a-termhut",
        host: Some(
            HostService {
                unit: "term-hut-web.service",
                flatpak: Some(
                    Flatpak {
                        id: "com.hutsonlabs.termhut",
                        source: FlatpakSource::Bundle { repo: "HutsonLabs/termhut.hutsonlabs.com" },
                        needs,
                    },
                ),
                unit_body: TERM_HUT_UNIT,
                provision: TERM_HUT_PROVISION,
            },
        ),
        streamed: None,
        base: None,
        needs_origin: false,
        config_at: None,
        env: Vec::new(),
        generated: Vec::new(),
        lsio: false,
        ids: false,
        socket: None,
        shm: None,
        draws: false,
        title: None,
        tls: false,
        notes: "A desktop application designed for editing and terminal.",
        params: Vec::new(),
    }
}

/// Appends an entry that keeps every rule to a list whose entries all do.
fn push_entry(v: &mut Vec<App>, a: App)
    requires
        forall|i: int| 0 <= i < old(v)@.len() ==> entry_ok(#[trigger] old(v)@[i]),
        forall|i: int| 0 <= i < old(v)@.len() ==> shipped_entry(#[trigger] old(v)@[i], old(v)@[i].slug@),
        entry_ok(a),
        shipped_entry(a, a.slug@),
    ensures
        final(v)@ == old(v)@.push(a),
        forall|i: int| 0 <= i < final(v)@.len() ==> entry_ok(#[trigger] final(v)@[i]),
        forall|i: int| 0 <= i < final(v)@.len() ==> shipped_entry(#[trigger] final(v)@[i], final(v)@[i].slug@),
{
    v.push(a);
}

proof fn lemma_shipped_slugs_distinct()
    ensures
        forall|i: int, j: int|
            0 <= i < shipped_slugs().len() && 0 <= j < shipped_slugs().len() && i != j
                ==> #[trigger] shipped_slugs()[i] != #[trigger] shipped_slugs()[j],
{
    reveal_strlit("helium");
    reveal_strlit("firefox");
    reveal_strlit("onlyoffice");
    reveal_strlit("inkscape");
    reveal_strlit("gimp");
    reveal_strlit("dbeaver");
    reveal_strlit("remmina");
    reveal_strlit("baobab");
    reveal_strlit("localsend-app");
    reveal_strlit("bitwarden");
    reveal_strlit("vscodium-web");
    reveal_strlit("term-hut-host");
    let s = shipped_slugs();
    assert forall|i: int, j: int| 0 <= i < s.len() && 0 <= j < s.len() && i != j implies #[trigger] s[i] != #[trigger] s[j] by {
        if s[i] == s[j] {
            assert(s[i].len() == s[j].len());
            assert(s[i][0] == s[j][0]);
            assert(s[i][1] == s[j][1]);
        }
    }
}

/// Every application this build can install, in the order the Apps window
/// lists them.
pub fn catalog() -> (apps: Vec<App>)
    ensures
        catalog_ok(apps@),
        forall|i: int| 0 <= i < apps@.len() ==> shipped_entry(#[trigger] apps@[i], shipped_slugs()[i]),
{
    proof {
        reveal_strlit("helium");
        reveal_strlit("firefox");
        reveal_strlit("onlyoffice");
        reveal_strlit("inkscape");
        reveal_strlit("gimp");
        reveal_strlit("dbeaver");
        reveal_strlit("remmina");
        reveal_strlit("baobab");
        reveal_strlit("localsend-app");
        reveal_strlit("bitwarden");
        reveal_strlit("vscodium-web");
        reveal_strlit("term-hut-host");
        reveal_strlit("lscr.io/linuxserver/helium");
        reveal_strlit("lscr.io/linuxserver/firefox");
        reveal_strlit("lscr.io/linuxserver/onlyoffice");
        reveal_strlit("lscr.io/linuxserver/inkscape");
        reveal_strlit("org.gimp.GIMP");
        reveal_strlit("io.dbeaver.DBeaverCommunity");
        reveal_strlit("org.remmina.Remmina");
        reveal_strlit("org.gnome.baobab");
        reveal_strlit("org.localsend.localsend_app");
        reveal_strlit("com.bitwarden.desktop");
        assert("helium"@[0] == 'h' && "firefox"@[0] == 'f' && "onlyoffice"@[0] == 'o' && "inkscape"@[0] == 'i');
        assert("vscodium-web"@[0] == 'v' && "term-hut-host"@[0] == 't' && "gimp"@[0] == 'g' && "dbeaver"@[0] == 'd');
        assert("remmina"@[0] == 'r' && "baobab"@[0] == 'b' && "localsend-app"@[0] == 'l' && "bitwarden"@[1] == 'i' && "baobab"@[1] == 'a');
    }
    let mut v: Vec<App> = Vec::new();
    push_entry(&mut v, desktop("helium", "Helium", "lscr.io/linuxserver/helium", "a-helium",
        "A quieter Chromium, with the tracking taken out."));
    push_entry(&mut v, desktop("firefox", "Firefox", "lscr.io/linuxserver/firefox", "a-firefox",
        "The browser, running on this host rather than on your machine."));
    push_entry(&mut v, desktop("onlyoffice", "OnlyOffice", "lscr.io/linuxserver/onlyoffice", "a-onlyoffice",
        "Documents, spreadsheets and slides, close to the shapes Office makes."));
    push_entry(&mut v, desktop("inkscape", "Inkscape", "lscr.io/linuxserver/inkscape", "a-inkscape",
        "Vector drawing, for the SVGs this desktop is drawn with."));
    push_entry(&mut v, vscodium());
    push_entry(&mut v, term_hut());
    push_entry(&mut v, flathub("gimp", "GIMP", "org.gimp.GIMP", "a-gimp",
        "Photo and image editing, on the machine the images are already on.", 1600, 1000));
    push_entry(&mut v, flathub("dbeaver", "DBeaver", "io.dbeaver.DBeaverCommunity", "a-dbeaver",
        "A database client, on the side of the firewall the database is on.", 1600, 1000));
    push_entry(&mut v, flathub("remmina", "Remmina", "org.remmina.Remmina", "a-remmina",
        "RDP, VNC and SSH out to the other machines this host can see.", 1280, 800));
    push_entry(&mut v, flathub("baobab", "Disk Analyzer", "org.gnome.baobab", "a-baobab",
        "Where the disk went, as a picture rather than a column of numbers.", 1100, 750));
    push_entry(&mut v, flathub("localsend-app", "LocalSend", "org.localsend.localsend_app", "a-localsend",
        "Send files to the machines beside this one, with no share to set up.", 1280, 944));
    push_entry(&mut v, flathub("bitwarden", "Bitwarden", "com.bitwarden.desktop", "a-bitwarden",
        "The password vault, on the host where the passwords get used.", 1280, 768));
    assert(v@.map_values(|a: App| a.slug@) =~= shipped_slugs());
    proof {
        lemma_shipped_slugs_distinct();
        assert forall|i: int, j: int| 0 <= i < v@.len() && 0 <= j < v@.len() && i != j implies #[trigger] v@[i].slug@ != #[trigger] v@[j].slug@ by {
            assert(v@[i].slug@ == v@.map_values(|a: App| a.slug@)[i]);
            assert(v@[j].slug@ == v@.map_values(|a: App| a.slug@)[j]);
        }
    }
    v
}


// ---------------------------------------------------------------- lookups

/// The entry with this slug, if the build has one.
pub fn find(slug: &str) -> (r: Option<App>)
    ensures
        match r {
            Some(a) => a.slug@ == slug@ && entry_ok(a) && shipped_slugs().contains(slug@) && shipped_entry(a, slug@),
            None => !shipped_slugs().contains(slug@),
        },
{
    let mut all = catalog();
    let want = chars_of(slug);
    let ghost slugs = all@.map_values(|a: App| a.slug@);
    let mut i: usize = 0;
    while i < all.len()
        invariant
            i <= all@.len(),
            catalog_ok(all@),
            forall|j: int| 0 <= j < all@.len() ==> shipped_entry(#[trigger] all@[j], shipped_slugs()[j]),
            slugs == all@.map_values(|a: App| a.slug@),
            slugs == shipped_slugs(),
            want@ == slug@,
            forall|j: int| 0 <= j < i ==> all@[j].slug@ != slug@,
        decreases all@.len() - i,
    {
        let here = chars_of(all[i].slug);
        if same(here.as_slice(), want.as_slice()) {
            assert(slugs[i as int] == all@[i as int].slug@);
            let a = all.remove(i);
            return Some(a);
        }
        i = i + 1;
    }
    proof {
        if shipped_slugs().contains(slug@) {
            let k = choose|k: int| 0 <= k < slugs.len() && slugs[k] == slug@;
            assert(all@[k].slug@ == slugs[k]);
        }
    }
    None
}

/// What `{prefix}` in a base template becomes.
pub open spec fn base_text(template: Seq<char>, prefix: Seq<char>) -> Seq<char> {
    replace(template, "{prefix}"@, prefix)
}

impl App {
    /// The variable this app's prefix is passed in and the value it carries,
    /// for an app that must be told; `None` for one that works it out.
    pub fn base_value(&self, prefix: &str) -> (r: Option<(&'static str, String)>)
        ensures
            match self.base {
                Some(b) => r matches Some(kv) && kv.0 == b.key && kv.1@ == base_text(b.template@, prefix@),
                None => r is None,
            },
    {
        match &self.base {
            Some(b) => {
                let pat = chars_of("{prefix}");
                proof {
                    reveal_strlit("{prefix}");
                }
                let v = replace_chars(chars_of(b.template).as_slice(), pat.as_slice(), chars_of(prefix).as_slice());
                Some((b.key, string_of(v.as_slice())))
            },
            None => None,
        }
    }

    /// The parameters this entry asks for. Everything else the container needs
    /// is decided by the installer, so an entry with nothing here installs on
    /// one press.
    pub fn all_params(&self) -> (r: &[Param])
        ensures
            r@ == self.params@,
    {
        self.params.as_slice()
    }
}

impl Kind {
    /// The word the install form knows this kind of blank by.
    pub fn name(&self) -> (r: &'static str)
        ensures
            r@ == match self {
                Kind::Text => "text"@,
                Kind::Secret => "secret"@,
                Kind::Choice(_) => "choice"@,
                Kind::Toggle => "toggle"@,
                Kind::HostPath { .. } => "path"@,
                Kind::Port => "port"@,
            },
    {
        match self {
            Kind::Text => "text",
            Kind::Secret => "secret",
            Kind::Choice(_) => "choice",
            Kind::Toggle => "toggle",
            Kind::HostPath { .. } => "path",
            Kind::Port => "port",
        }
    }
}

} // verus!
