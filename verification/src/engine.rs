//! The container engine, as a thin wrapper over its command line.
//!
//! Docker is what the target hosts have; Podman is accepted because every
//! subcommand used here takes the same arguments in both. Nothing here builds
//! a shell command from a string: every argument is a separate argv element,
//! so a value a user typed can never become an argument, let alone a command.
//! This module decides what the engine is asked; running it is the caller's.

use vstd::prelude::*;
use crate::text::{
    chars_of, contains, decimal, decimal_chars, ends_with, has_substring, has_suffix, join,
    join_chars, parse_bounded, parse_uint, same, setting, starts_with, string_of, tail_from, trim,
    trim_chars, has_prefix, failure_text, failure_message,
};

verus! {

/// Prefix of every container this program creates.
pub const PREFIX: &'static str = "webdesk-";

/// Marks a container as ours.
pub const LABEL: &'static str = "webdesk.managed=1";

/// The host's home directories, shared with every container app unless a
/// setting says otherwise.
pub const DEFAULT_HOME_DIR: &'static str = "/home";

/// Where the host keeps its fonts.
pub const DEFAULT_FONT_DIR: &'static str = "/usr/share/fonts";

/// Where the host's fonts appear inside: the directory fontconfig scans *in
/// addition* to the image's own, so the host's fonts are added rather than put
/// in front of the image's metric-compatible ones.
pub const FONTS_AT: &'static str = "/usr/local/share/fonts";

/// Where the host keeps its graphics devices.
pub const DEFAULT_GPU_DIR: &'static str = "/dev/dri";

/// Which engine runs the containers.
#[derive(Clone, Copy, PartialEq, Eq, Debug)]
pub enum Engine {
    Docker,
    Podman,
}

impl Engine {
    /// The program this engine is driven through.
    pub fn bin(&self) -> (r: &'static str)
        ensures
            r@ == match self {
                Engine::Docker => "docker"@,
                Engine::Podman => "podman"@,
            },
    {
        match self {
            Engine::Docker => "docker",
            Engine::Podman => "podman",
        }
    }

    /// What the Apps window calls it.
    pub fn name(&self) -> (r: &'static str)
        ensures
            r@ == match self {
                Engine::Docker => "docker"@,
                Engine::Podman => "podman (untested)"@,
            },
    {
        match self {
            Engine::Docker => "docker",
            Engine::Podman => "podman (untested)",
        }
    }
}

/// Which engine to use: the one `WD_CONTAINER_ENGINE` names when it is set,
/// otherwise Docker if the host has it, then Podman. `forced` is the
/// variable's value, `None` when it is unset.
pub open spec fn chosen_engine(forced: Option<Seq<char>>, has_docker: bool, has_podman: bool) -> Option<Engine> {
    match forced {
        Some(v) => if trim(v) == "docker"@ {
            Some(Engine::Docker)
        } else if trim(v) == "podman"@ {
            Some(Engine::Podman)
        } else {
            None
        },
        None => if has_docker {
            Some(Engine::Docker)
        } else if has_podman {
            Some(Engine::Podman)
        } else {
            None
        },
    }
}

/// A forced engine is the one named, whatever the host has: `docker` gives
/// Docker and `podman` gives Podman (around any spaces), and any other value
/// gives none. Unforced, Docker is chosen exactly when the host has it, and
/// Podman exactly when it has Podman and not Docker.
pub proof fn law_a_forced_engine_is_the_one_named(v: Seq<char>, has_docker: bool, has_podman: bool)
    ensures
        (chosen_engine(Some(v), has_docker, has_podman) == Some(Engine::Docker)) <==> trim(v) == "docker"@,
        (chosen_engine(Some(v), has_docker, has_podman) == Some(Engine::Podman)) <==> trim(v) == "podman"@,
        (chosen_engine(None, has_docker, has_podman) == Some(Engine::Docker)) <==> has_docker,
        (chosen_engine(None, has_docker, has_podman) == Some(Engine::Podman)) <==> (!has_docker && has_podman),
{
    reveal_strlit("docker");
    reveal_strlit("podman");
    assert("docker"@[0] == 'd' && "podman"@[0] == 'p');
}

/// Which engine this host has, preferring Docker. `None` means neither, which
/// is the one condition the Apps window reports as fatal.
pub fn detect(forced: Option<&str>, has_docker: bool, has_podman: bool) -> (r: Option<Engine>)
    ensures
        r == chosen_engine(
            match forced {
                Some(v) => Some(v@),
                None => None,
            },
            has_docker,
            has_podman,
        ),
{
    match forced {
        Some(v) => {
            let t = trim_chars(chars_of(v).as_slice());
            if same(t.as_slice(), chars_of("docker").as_slice()) {
                Some(Engine::Docker)
            } else if same(t.as_slice(), chars_of("podman").as_slice()) {
                Some(Engine::Podman)
            } else {
                None
            }
        },
        None => if has_docker {
            Some(Engine::Docker)
        } else if has_podman {
            Some(Engine::Podman)
        } else {
            None
        },
    }
}

/// What a `version` probe of the engine says: the server version, or why it
/// is not answering.
pub open spec fn probe_outcome(engine: Engine, ok: bool, stdout: Seq<char>, stderr: Seq<char>) -> Result<Seq<char>, Seq<char>> {
    if ok {
        if trim(stdout).len() == 0 {
            Ok("unknown"@)
        } else {
            Ok(trim(stdout))
        }
    } else {
        Err(failure_text(stderr, engine_bin(engine) + " is installed but not responding"@))
    }
}

/// The program name of an engine.
pub open spec fn engine_bin(e: Engine) -> Seq<char> {
    match e {
        Engine::Docker => "docker"@,
        Engine::Podman => "podman"@,
    }
}

/// The view of a string result.
pub open spec fn result_view(r: Result<String, String>) -> Result<Seq<char>, Seq<char>> {
    match r {
        Ok(s) => Ok(s@),
        Err(e) => Err(e@),
    }
}

/// Whether the engine is usable, from what its `version --format
/// {{.Server.Version}}` printed: a binary with a daemon that is not running
/// fails here rather than at install time.
pub fn probe(engine: Engine, ok: bool, stdout: &str, stderr: &str) -> (r: Result<String, String>)
    ensures
        result_view(r) == probe_outcome(engine, ok, stdout@, stderr@),
{
    if ok {
        let v = trim_chars(chars_of(stdout).as_slice());
        if v.len() == 0 {
            return Ok("unknown".to_owned());
        }
        return Ok(string_of(v.as_slice()));
    }
    let b = engine.bin();
    assert(b@ == engine_bin(engine));
    let mut fallback = chars_of(b);
    fallback.extend_from_slice(chars_of(" is installed but not responding").as_slice());
    assert(fallback@ == engine_bin(engine) + " is installed but not responding"@);
    Err(failure_message(stderr, string_of(fallback.as_slice())))
}

/// The engine's argv for a version probe.
pub fn probe_args() -> (r: Vec<String>)
    ensures
        strings(r@) == seq!["version"@, "--format"@, "{{.Server.Version}}"@],
{
    let mut r = Vec::new();
    r.push("version".to_owned());
    r.push("--format".to_owned());
    r.push("{{.Server.Version}}".to_owned());
    assert(strings(r@) =~= seq!["version"@, "--format"@, "{{.Server.Version}}"@]);
    r
}

/// The views of a sequence of strings.
pub open spec fn strings(v: Seq<String>) -> Seq<Seq<char>> {
    v.map_values(|s: String| s@)
}

/// The name every container for this slug is given.
pub open spec fn container_name_of(slug: Seq<char>) -> Seq<char> {
    "webdesk-"@ + slug
}

/// The container name for one app.
pub fn container_name(slug: &str) -> (r: String)
    ensures
        r@ == container_name_of(slug@),
{
    let mut v = chars_of(PREFIX);
    v.extend_from_slice(chars_of(slug).as_slice());
    string_of(v.as_slice())
}

/// A directory a setting names, shared at the same path inside as out, or
/// nothing when the setting is `off` or names no directory.
pub open spec fn shared_dir(want: Seq<char>, is_dir: bool) -> Option<(Seq<char>, Seq<char>, bool)> {
    if want == "off"@ || !is_dir {
        None
    } else {
        Some((want, want, false))
    }
}

/// The view of a mount.
pub open spec fn mount_view(m: (String, String, bool)) -> (Seq<char>, Seq<char>, bool) {
    (m.0@, m.1@, m.2)
}

/// The view of an optional mount.
pub open spec fn opt_mount_view(m: Option<(String, String, bool)>) -> Option<(Seq<char>, Seq<char>, bool)> {
    match m {
        Some(x) => Some(mount_view(x)),
        None => None,
    }
}

/// The host's home directories, mounted into every container at the same
/// path, read-write.
///
/// `want` is the directory `WD_HOME_MOUNT` names (or `/home`), and `is_dir`
/// whether the host really has it: binding a path the host does not have gets
/// an empty directory created under it by the engine, which is a confusing way
/// to discover a typo.
pub fn home_mount(want: &str, is_dir: bool) -> (r: Option<(String, String, bool)>)
    ensures
        opt_mount_view(r) == shared_dir(want@, is_dir),
{
    let w = chars_of(want);
    if same(w.as_slice(), chars_of("off").as_slice()) || !is_dir {
        return None;
    }
    Some((want.to_owned(), want.to_owned(), false))
}

/// The host's fonts, added read-only to an application that draws, at the
/// path fontconfig scans in addition to the image's own.
pub open spec fn fonts_shared(want: Seq<char>, is_dir: bool) -> Option<(Seq<char>, Seq<char>, bool)> {
    if want == "off"@ || !is_dir {
        None
    } else {
        Some((want, "/usr/local/share/fonts"@, true))
    }
}

/// The host's fonts, for an application that draws.
pub fn font_mount(want: &str, is_dir: bool) -> (r: Option<(String, String, bool)>)
    ensures
        opt_mount_view(r) == fonts_shared(want@, is_dir),
{
    let w = chars_of(want);
    if same(w.as_slice(), chars_of("off").as_slice()) || !is_dir {
        return None;
    }
    Some((want.to_owned(), FONTS_AT.to_owned(), true))
}

/// The number in `renderD128`, or `None` for anything that is not a render
/// node. Parsed rather than matched as a prefix, so that nodes sort by number.
pub open spec fn render_number(name: Seq<char>) -> Option<nat> {
    if starts_with(name, "renderD"@) {
        parse_bounded(name.skip(7), 0xffff_ffff)
    } else {
        None
    }
}

/// The number of a render node, or `None`.
pub fn node_key(name: &str) -> (r: Option<u32>)
    ensures
        match render_number(name@) {
            Some(n) => r == Some(n as u32),
            None => r is None,
        },
{
    let n = chars_of(name);
    let p = chars_of("renderD");
    proof {
        reveal_strlit("renderD");
    }
    if !has_prefix(n.as_slice(), p.as_slice()) {
        return None;
    }
    let rest = tail_from(n.as_slice(), 7);
    match parse_uint(rest.as_slice(), 0xffff_ffff) {
        Some(v) => Some(v as u32),
        None => None,
    }
}

/// One entry of the graphics device directory, as the host reports it.
pub struct NodeEntry {
    /// The file name, `renderD128` or `card0` or `by-path`.
    pub name: String,
    /// The full path, as it is passed to the engine.
    pub path: String,
    /// Whether it is a character device.
    pub is_char: bool,
    /// Its permission bits.
    pub mode: u32,
    /// The group that owns it.
    pub gid: u32,
}

/// The graphics device to give an application that draws, and the group it
/// needs in order to open it.
pub struct Gpu {
    /// The one render node, passed as `--device <path>:<path>`.
    pub node: String,
    /// Supplementary gids, passed as `--group-add`: the owning group, unless
    /// anybody may open the node already.
    pub groups: Vec<u32>,
}

/// A render node the engine may be handed: a character device named
/// `renderD<n>`, never the card node that drives the display.
pub open spec fn render_node(e: NodeEntry) -> bool {
    e.is_char && render_number(e.name@) is Some
}

/// The index of the lowest-numbered render node, the first one listed among
/// equals.
pub open spec fn lowest_node(es: Seq<NodeEntry>) -> Option<int>
    decreases es.len(),
{
    if es.len() == 0 {
        None
    } else {
        let before = lowest_node(es.drop_last());
        let last = es.last();
        if render_node(last) && (match before {
            Some(k) => render_number(last.name@)->0 < render_number(es[k].name@)->0,
            None => true,
        }) {
            Some(es.len() - 1)
        } else {
            before
        }
    }
}

proof fn lemma_lowest_in_range(es: Seq<NodeEntry>)
    ensures
        lowest_node(es) matches Some(k) ==> 0 <= k < es.len() && render_node(es[k]),
    decreases es.len(),
{
    if es.len() > 0 {
        lemma_lowest_in_range(es.drop_last());
    }
}

proof fn lemma_lowest_node(es: Seq<NodeEntry>)
    ensures
        lowest_node(es) is None <==> forall|j: int| 0 <= j < es.len() ==> !render_node(#[trigger] es[j]),
        lowest_node(es) matches Some(k) ==> 0 <= k < es.len() && render_node(es[k]) && forall|j: int|
            0 <= j < es.len() && render_node(#[trigger] es[j]) ==> render_number(es[k].name@)->0
                < render_number(es[j].name@)->0 || (render_number(es[k].name@)->0 == render_number(es[j].name@)->0 && k <= j),
    decreases es.len(),
{
    if es.len() > 0 {
        let rest = es.drop_last();
        lemma_lowest_node(rest);
        assert forall|j: int| 0 <= j < rest.len() implies #[trigger] rest[j] == es[j] by {}
        if lowest_node(rest) is None {
            assert forall|j: int| 0 <= j < rest.len() implies !render_node(#[trigger] es[j]) by {
                assert(!render_node(rest[j]));
            }
        }
        if let Some(k) = lowest_node(es) {
            assert forall|j: int| 0 <= j < es.len() && render_node(#[trigger] es[j]) implies render_number(es[k].name@)->0
                < render_number(es[j].name@)->0 || (render_number(es[k].name@)->0 == render_number(es[j].name@)->0 && k <= j) by {
                if j < rest.len() {
                    assert(rest[j] == es[j]);
                    assert(render_node(rest[j]));
                    if let Some(k0) = lowest_node(rest) {
                        assert(rest[k0] == es[k0]);
                    }
                }
            }
        }
    }
}

/// The render node handed over is the lowest-numbered one the directory
/// holds -- the first listed among equals -- and it comes with at most one
/// group. There is none only when the setting is `off`, the directory could
/// not be read, or it holds no render node at all.
pub proof fn law_gpu_is_the_lowest_render_node(want: Seq<char>, listing: Option<Seq<NodeEntry>>)
    ensures
        chosen_gpu(want, listing) matches Some((node, groups)) ==> (groups.len() <= 1 && listing is Some
            && exists|k: int| 0 <= k < listing->0.len() && #[trigger] listing->0[k].path@ == node && render_node(listing->0[k])
                && forall|j: int| 0 <= j < listing->0.len() && render_node(#[trigger] listing->0[j])
                    ==> render_number(listing->0[k].name@)->0 <= render_number(listing->0[j].name@)->0),
        chosen_gpu(want, listing) is None <==> (want == "off"@ || listing is None || forall|j: int|
            0 <= j < listing->0.len() ==> !render_node(#[trigger] listing->0[j])),
{
    if let Some(es) = listing {
        lemma_lowest_node(es);
        if let Some(k) = lowest_node(es) {
            assert(es[k].path@ == es[k].path@);
        }
    }
}

/// The groups a node needs passed with it: none when anybody may read and
/// write it, otherwise its owning group.
pub open spec fn node_groups(e: NodeEntry) -> Seq<u32> {
    if e.mode & 6 == 6 {
        Seq::<u32>::empty()
    } else {
        seq![e.gid]
    }
}

/// The graphics device for an application that draws, from the directory
/// `WD_GPU` names: `None` when the setting is `off`, when there is no such
/// readable directory (`listing` is `None`), or when it holds no render node.
///
/// One node, never several, even on a host that has several: a second node
/// visible inside the container defeats the images' own detection and drops
/// them back to CPU encoding.
pub open spec fn chosen_gpu(want: Seq<char>, listing: Option<Seq<NodeEntry>>) -> Option<(Seq<char>, Seq<u32>)> {
    if want == "off"@ {
        None
    } else {
        match listing {
            None => None,
            Some(es) => match lowest_node(es) {
                Some(k) => Some((es[k].path@, node_groups(es[k]))),
                None => None,
            },
        }
    }
}

/// The graphics device to share with an application that draws.
pub fn gpu(want: &str, listing: Option<&Vec<NodeEntry>>) -> (r: Option<Gpu>)
    ensures
        match chosen_gpu(
            want@,
            match listing {
                Some(l) => Some(l@),
                None => None,
            },
        ) {
            Some((node, groups)) => r matches Some(g) && g.node@ == node && g.groups@ == groups,
            None => r is None,
        },
{
    if same(chars_of(want).as_slice(), chars_of("off").as_slice()) {
        return None;
    }
    let es = match listing {
        Some(l) => l,
        None => return None,
    };
    let mut best: Option<usize> = None;
    let mut best_key: u32 = 0;
    for i in 0..es.len()
        invariant
            match best {
                Some(k) => lowest_node(es@.take(i as int)) == Some(k as int) && k < i
                    && render_number(es@[k as int].name@) == Some(best_key as nat),
                None => lowest_node(es@.take(i as int)) is None,
            },
    {
        proof {
            assert(es@.take(i + 1).drop_last() == es@.take(i as int));
            assert(es@.take(i + 1).last() == es@[i as int]);
            if let Some(k) = best {
                assert(es@.take(i + 1)[k as int] == es@[k as int]);
            }
        }
        let e = &es[i];
        if e.is_char {
            match node_key(e.name.as_str()) {
                Some(n) => {
                    let better = match best {
                        Some(_) => n < best_key,
                        None => true,
                    };
                    if better {
                        best = Some(i);
                        best_key = n;
                    }
                },
                None => {},
            }
        }
    }
    assert(es@.take(es@.len() as int) == es@);
    match best {
        Some(k) => {
            let e = &es[k];
            let mut groups: Vec<u32> = Vec::new();
            if e.mode & 6 != 6 {
                groups.push(e.gid);
            }
            assert(groups@ =~= node_groups(es@[k as int]));
            Some(Gpu { node: e.path.clone(), groups })
        },
        None => None,
    }
}


/// The relabelling suffix for one mount, if any.
///
/// `Z`, a private label, for the `/config` directory WebDesk made for this
/// container alone; the shared `z` for a directory a user named on a form. A
/// mount WebDesk adds unasked never relabels the host: the shared home
/// directories, the host's fonts and the engine socket get neither, because
/// relabelling happens to the source on the host -- read-only is no defence.
/// And nothing is relabelled at all on a host whose engine does not label.
pub open spec fn relabel_rule(relabel: bool, at: Seq<char>, home: Seq<char>) -> Option<char> {
    if !relabel || at == home || at == "/usr/local/share/fonts"@ || ends_with(at, ".sock"@) {
        None
    } else if at == "/config"@ {
        Some('Z')
    } else {
        Some('z')
    }
}

/// The relabelling suffix for a mount at `container_path`, given whether the
/// engine labels and which directory is the shared home.
pub fn relabel_for(relabel: bool, container_path: &str, home: &str) -> (r: Option<char>)
    ensures
        r == relabel_rule(relabel, container_path@, home@),
{
    let at = chars_of(container_path);
    if !relabel || same(at.as_slice(), chars_of(home).as_slice())
        || same(at.as_slice(), chars_of(FONTS_AT).as_slice())
        || has_suffix(at.as_slice(), chars_of(".sock").as_slice()) {
        return None;
    }
    if same(at.as_slice(), chars_of("/config").as_slice()) {
        Some('Z')
    } else {
        Some('z')
    }
}

/// Everything needed to create one container, assembled from a catalog entry
/// and the answers a user gave.
pub struct RunSpec {
    pub slug: String,
    pub image: String,
    pub host_port: u16,
    pub container_port: u16,
    pub env: Vec<(String, String)>,
    /// `(host path, container path, read-only)`
    pub mounts: Vec<(String, String, bool)>,
    /// `--shm-size`, for the desktop images that run a real browser or IDE.
    pub shm: Option<String>,
    /// Host device nodes to pass through, at the same path inside as out.
    pub devices: Vec<String>,
    /// Supplementary gids the container needs to open those devices.
    pub groups: Vec<u32>,
    /// Whether a `z`/`Z` suffix on a mount means anything on this host, as the
    /// engine answered when asked once for this install.
    pub relabel: bool,
    /// The host directory shared as everybody's home, which is never
    /// relabelled. Decided once, from `WD_HOME_MOUNT`, like `relabel`.
    pub shared_home: String,
}

/// The `-v` argument for one mount.
pub open spec fn mount_arg(host: Seq<char>, at: Seq<char>, ro: bool, z: Option<char>) -> Seq<char> {
    let opts: Seq<Seq<char>> = (if ro { seq!["ro"@] } else { Seq::empty() }) + (match z {
        Some(c) => seq![seq![c]],
        None => Seq::empty(),
    });
    if opts.len() == 0 {
        host + ":"@ + at
    } else {
        host + ":"@ + at + ":"@ + join(opts, ","@)
    }
}

/// `--device` for each node, at the same path inside as out.
pub open spec fn device_args(devs: Seq<String>) -> Seq<Seq<char>>
    decreases devs.len(),
{
    if devs.len() == 0 {
        Seq::empty()
    } else {
        device_args(devs.drop_last()) + seq!["--device"@, devs.last()@ + ":"@ + devs.last()@]
    }
}

/// `--group-add` for each gid, in decimal.
pub open spec fn group_args(gids: Seq<u32>) -> Seq<Seq<char>>
    decreases gids.len(),
{
    if gids.len() == 0 {
        Seq::empty()
    } else {
        group_args(gids.drop_last()) + seq!["--group-add"@, decimal(gids.last() as nat)]
    }
}

/// `-e KEY=value` for each variable.
pub open spec fn env_args(env: Seq<(String, String)>) -> Seq<Seq<char>>
    decreases env.len(),
{
    if env.len() == 0 {
        Seq::empty()
    } else {
        env_args(env.drop_last()) + seq!["-e"@, env.last().0@ + "="@ + env.last().1@]
    }
}

/// `-v host:at[:opts]` for each mount.
pub open spec fn mount_args(mounts: Seq<(String, String, bool)>, relabel: bool, home: Seq<char>) -> Seq<Seq<char>>
    decreases mounts.len(),
{
    if mounts.len() == 0 {
        Seq::empty()
    } else {
        let m = mounts.last();
        mount_args(mounts.drop_last(), relabel, home) + seq![
            "-v"@,
            mount_arg(m.0@, m.1@, m.2, relabel_rule(relabel, m.1@, home)),
        ]
    }
}

/// The argv that creates one container.
///
/// Named and labelled for its slug, restarted unless stopped, and published
/// on the loopback interface only -- the whole access-control story rests on
/// that one address. Then the shared memory size, the devices and their
/// groups, the environment and the mounts, and the image last. Nothing else:
/// no flag that loosens the sandbox is ever emitted.
pub open spec fn run_args(r: RunSpec) -> Seq<Seq<char>> {
    seq![
        "run"@, "-d"@, "--name"@, container_name_of(r.slug@), "--label"@, "webdesk.managed=1"@,
        "--label"@, "webdesk.slug="@ + r.slug@, "--restart"@, "unless-stopped"@, "-p"@,
        "127.0.0.1:"@ + decimal(r.host_port as nat) + ":"@ + decimal(r.container_port as nat),
    ] + (match r.shm {
        Some(s) => seq!["--shm-size"@, s@],
        None => Seq::empty(),
    }) + device_args(r.devices@) + group_args(r.groups@) + env_args(r.env@) + mount_args(
        r.mounts@,
        r.relabel,
        r.shared_home@,
    ) + seq![r.image@]
}

/// Appends a string holding exactly these characters.
fn push_arg(a: &mut Vec<String>, v: &[char])
    ensures
        strings(final(a)@) == strings(old(a)@).push(v@),
{
    let ghost before = strings(a@);
    a.push(string_of(v));
    assert(strings(a@) =~= before.push(v@));
}

impl RunSpec {
    /// The engine's argv for creating this container.
    pub fn args(&self) -> (r: Vec<String>)
        ensures
            strings(r@) == run_args(*self),
    {
        let mut a: Vec<String> = Vec::new();
        push_arg(&mut a, chars_of("run").as_slice());
        push_arg(&mut a, chars_of("-d").as_slice());
        push_arg(&mut a, chars_of("--name").as_slice());
        push_arg(&mut a, chars_of(container_name(self.slug.as_str()).as_str()).as_slice());
        push_arg(&mut a, chars_of("--label").as_slice());
        push_arg(&mut a, chars_of(LABEL).as_slice());
        push_arg(&mut a, chars_of("--label").as_slice());
        let mut sl = chars_of("webdesk.slug=");
        sl.extend_from_slice(chars_of(self.slug.as_str()).as_slice());
        push_arg(&mut a, sl.as_slice());
        push_arg(&mut a, chars_of("--restart").as_slice());
        push_arg(&mut a, chars_of("unless-stopped").as_slice());
        push_arg(&mut a, chars_of("-p").as_slice());
        let mut p = chars_of("127.0.0.1:");
        p.extend_from_slice(decimal_chars(self.host_port as u64).as_slice());
        p.extend_from_slice(chars_of(":").as_slice());
        p.extend_from_slice(decimal_chars(self.container_port as u64).as_slice());
        push_arg(&mut a, p.as_slice());
        let ghost head = strings(a@);
        match &self.shm {
            Some(shm) => {
                push_arg(&mut a, chars_of("--shm-size").as_slice());
                push_arg(&mut a, chars_of(shm.as_str()).as_slice());
            },
            None => {},
        }
        let ghost with_shm = strings(a@);
        for i in 0..self.devices.len()
            invariant
                strings(a@) == with_shm + device_args(self.devices@.take(i as int)),
        {
            let d = chars_of(self.devices[i].as_str());
            push_arg(&mut a, chars_of("--device").as_slice());
            let mut v = copy(d.as_slice());
            v.extend_from_slice(chars_of(":").as_slice());
            v.extend_from_slice(d.as_slice());
            push_arg(&mut a, v.as_slice());
            proof {
                let t = self.devices@.take(i + 1);
                assert(t.drop_last() == self.devices@.take(i as int));
                assert(t.last() == self.devices@[i as int]);
                assert(v@ == t.last()@ + ":"@ + t.last()@);
                assert(strings(a@) =~= with_shm + device_args(t));
            }
        }
        assert(self.devices@.take(self.devices@.len() as int) == self.devices@);
        let ghost with_dev = strings(a@);
        for i in 0..self.groups.len()
            invariant
                strings(a@) == with_dev + group_args(self.groups@.take(i as int)),
        {
            push_arg(&mut a, chars_of("--group-add").as_slice());
            push_arg(&mut a, decimal_chars(self.groups[i] as u64).as_slice());
            proof {
                assert(self.groups@.take(i + 1).drop_last() == self.groups@.take(i as int));
            }
        }
        assert(self.groups@.take(self.groups@.len() as int) == self.groups@);
        let ghost with_groups = strings(a@);
        for i in 0..self.env.len()
            invariant
                strings(a@) == with_groups + env_args(self.env@.take(i as int)),
        {
            push_arg(&mut a, chars_of("-e").as_slice());
            let mut v = chars_of(self.env[i].0.as_str());
            v.extend_from_slice(chars_of("=").as_slice());
            v.extend_from_slice(chars_of(self.env[i].1.as_str()).as_slice());
            push_arg(&mut a, v.as_slice());
            proof {
                let t = self.env@.take(i + 1);
                assert(t.drop_last() == self.env@.take(i as int));
                assert(t.last() == self.env@[i as int]);
                assert(v@ == t.last().0@ + "="@ + t.last().1@);
                assert(strings(a@) =~= with_groups + env_args(t));
            }
        }
        assert(self.env@.take(self.env@.len() as int) == self.env@);
        let ghost with_env = strings(a@);
        for i in 0..self.mounts.len()
            invariant
                strings(a@) == with_env + mount_args(self.mounts@.take(i as int), self.relabel, self.shared_home@),
        {
            let m = &self.mounts[i];
            push_arg(&mut a, chars_of("-v").as_slice());
            let v = mount_text(m.0.as_str(), m.1.as_str(), m.2, relabel_for(self.relabel, m.1.as_str(), self.shared_home.as_str()));
            push_arg(&mut a, v.as_slice());
            proof {
                assert(self.mounts@.take(i + 1).drop_last() == self.mounts@.take(i as int));
            }
        }
        assert(self.mounts@.take(self.mounts@.len() as int) == self.mounts@);
        push_arg(&mut a, chars_of(self.image.as_str()).as_slice());
        proof {
            let base = seq![
                "run"@, "-d"@, "--name"@, container_name_of(self.slug@), "--label"@, "webdesk.managed=1"@,
                "--label"@, "webdesk.slug="@ + self.slug@, "--restart"@, "unless-stopped"@, "-p"@,
                "127.0.0.1:"@ + decimal(self.host_port as nat) + ":"@ + decimal(self.container_port as nat),
            ];
            assert(head.len() == base.len());
            assert(head[0] == base[0]);
            assert(head[3] == base[3]);
            assert(head[5] == base[5]);
            assert(head[7] == base[7]);
            assert(head[11] == base[11]);
            assert(head =~= base);
            assert(strings(a@) =~= run_args(*self));
        }
        a
    }
}

/// A copy of some characters.
fn copy(v: &[char]) -> (r: Vec<char>)
    ensures
        r@ == v@,
{
    vstd::slice::slice_to_vec(v)
}

/// The `-v` argument for one mount.
fn mount_text(host: &str, at: &str, ro: bool, z: Option<char>) -> (r: Vec<char>)
    ensures
        r@ == mount_arg(host@, at@, ro, z),
{
    let mut opts: Vec<Vec<char>> = Vec::new();
    if ro {
        opts.push(chars_of("ro"));
    }
    match z {
        Some(c) => {
            let mut v = Vec::new();
            v.push(c);
            opts.push(v);
        },
        None => {},
    }
    proof {
        let want: Seq<Seq<char>> = (if ro { seq!["ro"@] } else { Seq::empty() }) + (match z {
            Some(c) => seq![seq![c]],
            None => Seq::empty(),
        });
        assert(crate::text::views(opts@) =~= want);
    }
    let mut r = chars_of(host);
    r.extend_from_slice(chars_of(":").as_slice());
    r.extend_from_slice(chars_of(at).as_slice());
    if opts.len() > 0 {
        r.extend_from_slice(chars_of(":").as_slice());
        r.extend_from_slice(join_chars(&opts, chars_of(",").as_slice()).as_slice());
    }
    r
}


/// Builds an argv from its views.
fn argv2(a: &str, b: String) -> (r: Vec<String>)
    ensures
        strings(r@) == seq![a@, b@],
{
    let mut r = Vec::new();
    r.push(a.to_owned());
    r.push(b);
    assert(strings(r@) =~= seq![a@, b@]);
    r
}

/// The engine's argv for fetching an image: the long part of an install.
pub fn pull(image: &str) -> (r: Vec<String>)
    ensures
        strings(r@) == seq!["pull"@, image@],
{
    argv2("pull", image.to_owned())
}

/// The engine's argv for starting an app's container.
pub fn start(slug: &str) -> (r: Vec<String>)
    ensures
        strings(r@) == seq!["start"@, container_name_of(slug@)],
{
    argv2("start", container_name(slug))
}

/// The engine's argv for stopping an app's container.
pub fn stop(slug: &str) -> (r: Vec<String>)
    ensures
        strings(r@) == seq!["stop"@, container_name_of(slug@)],
{
    argv2("stop", container_name(slug))
}

/// The engine's argv for deleting an app's container. Its state directory is
/// a separate decision, made by whoever removes the app.
pub fn remove(slug: &str) -> (r: Vec<String>)
    ensures
        strings(r@) == seq!["rm"@, "-f"@, container_name_of(slug@)],
{
    let mut r = Vec::new();
    r.push("rm".to_owned());
    r.push("-f".to_owned());
    r.push(container_name(slug));
    assert(strings(r@) =~= seq!["rm"@, "-f"@, container_name_of(slug@)]);
    r
}

/// The engine's argv for asking what state an app's container is in.
pub fn state_args(slug: &str) -> (r: Vec<String>)
    ensures
        strings(r@) == seq!["inspect"@, "-f"@, "{{.State.Status}}"@, container_name_of(slug@)],
{
    let mut r = Vec::new();
    r.push("inspect".to_owned());
    r.push("-f".to_owned());
    r.push("{{.State.Status}}".to_owned());
    r.push(container_name(slug));
    assert(strings(r@) =~= seq!["inspect"@, "-f"@, "{{.State.Status}}"@, container_name_of(slug@)]);
    r
}

/// The engine's argv for asking which security options it applies.
pub fn labels_args() -> (r: Vec<String>)
    ensures
        strings(r@) == seq!["info"@, "--format"@, "{{json .SecurityOptions}}"@],
{
    let mut r = Vec::new();
    r.push("info".to_owned());
    r.push("--format".to_owned());
    r.push("{{json .SecurityOptions}}".to_owned());
    assert(strings(r@) =~= seq!["info"@, "--format"@, "{{json .SecurityOptions}}"@]);
    r
}

/// The state word for a container: what `inspect` printed, trimmed, or
/// `missing` when it printed nothing or failed.
pub open spec fn state_word(ok: bool, stdout: Seq<char>) -> Seq<char> {
    if ok && trim(stdout).len() > 0 {
        trim(stdout)
    } else {
        "missing"@
    }
}

/// `running`, `exited`, `created`, ... or `missing` when there is no such
/// container. Never an error: a container removed behind our back is a state
/// to report, not a failure to handle. `ok` and `stdout` are the outcome of
/// running `state_args`.
pub fn state(ok: bool, stdout: &str) -> (r: String)
    ensures
        r@ == state_word(ok, stdout@),
{
    let t = trim_chars(chars_of(stdout).as_slice());
    if ok && t.len() > 0 {
        string_of(t.as_slice())
    } else {
        "missing".to_owned()
    }
}

/// Whether a `z`/`Z` suffix would mean anything: the kernel has SELinux and
/// the engine, asked, says it applies it. An engine that could not be asked
/// (`security_options` is `None`) is treated as not labelling -- the failure
/// that avoids is permanent and touches the host's files.
pub open spec fn labels_honoured(selinux: bool, security_options: Option<Seq<char>>) -> bool {
    selinux && match security_options {
        Some(s) => contains(s, "selinux"@),
        None => false,
    }
}

/// Does this engine actually label containers, or merely accept the suffix?
pub fn honours_labels(selinux: bool, security_options: Option<&str>) -> (r: bool)
    ensures
        r == labels_honoured(
            selinux,
            match security_options {
                Some(s) => Some(s@),
                None => None,
            },
        ),
{
    if !selinux {
        return false;
    }
    match security_options {
        Some(s) => has_substring(chars_of(s).as_slice(), chars_of("selinux").as_slice()),
        None => false,
    }
}

/// The line written to an install log before a command runs: `$ bin args...`.
pub open spec fn command_line(bin: Seq<char>, args: Seq<Seq<char>>) -> Seq<char> {
    "$ "@ + bin + " "@ + join(args, " "@)
}

/// The log line for one command.
pub fn log_line(bin: &str, args: &Vec<String>) -> (r: String)
    ensures
        r@ == command_line(bin@, strings(args@)),
{
    let mut parts: Vec<Vec<char>> = Vec::new();
    for i in 0..args.len()
        invariant
            crate::text::views(parts@) == strings(args@).take(i as int),
    {
        let ghost before = parts@;
        let c = chars_of(args[i].as_str());
        parts.push(c);
        assert(parts@ == before.push(c));
        assert(crate::text::views(parts@) =~= strings(args@).take(i + 1)) by {
            assert(crate::text::views(before) =~= strings(args@).take(i as int));
            assert(crate::text::views(before).len() == before.len());
            assert(before.len() == i);
            assert(parts@.len() == i + 1);
            assert forall|k: int| 0 <= k < i + 1 implies crate::text::views(parts@)[k]
                == strings(args@).take(i + 1)[k] by {
                if k < i {
                    assert(crate::text::views(parts@)[k] == parts@[k]@);
                    assert(parts@[k] == before[k]);
                    assert(crate::text::views(before)[k] == before[k]@);
                } else {
                    assert(parts@[k] == c);
                }
            }
        }
    }
    assert(strings(args@).take(args@.len() as int) =~= strings(args@));
    let mut v = chars_of("$ ");
    v.extend_from_slice(chars_of(bin).as_slice());
    v.extend_from_slice(chars_of(" ").as_slice());
    v.extend_from_slice(join_chars(&parts, chars_of(" ").as_slice()).as_slice());
    string_of(v.as_slice())
}

/// The published port is bound to the loopback interface only -- the whole
/// access-control story rests on that one address -- the container is named
/// and labelled for its slug, and the image is the last argument, so nothing
/// after it can be read as a flag to the engine.
pub proof fn law_loopback_and_image_last(r: RunSpec)
    ensures
        run_args(r)[0] == "run"@,
        run_args(r)[2] == "--name"@ && run_args(r)[3] == container_name_of(r.slug@),
        run_args(r)[7] == "webdesk.slug="@ + r.slug@,
        run_args(r)[10] == "-p"@,
        starts_with(run_args(r)[11], "127.0.0.1:"@),
        run_args(r).last() == r.image@,
{
    reveal_strlit("127.0.0.1:");
    let a = run_args(r);
    assert(a[11] == "127.0.0.1:"@ + decimal(r.host_port as nat) + ":"@ + decimal(r.container_port as nat));
    assert(a[11].take(10) =~= "127.0.0.1:"@);
}

/// `--device` for each node in turn: two arguments per node.
proof fn lemma_device_args(devs: Seq<String>)
    ensures
        device_args(devs).len() == 2 * devs.len(),
        forall|j: int| #![trigger device_args(devs)[2 * j]] #![trigger device_args(devs)[2 * j + 1]] 0 <= j < devs.len() ==> device_args(devs)[2 * j] == "--device"@
            && device_args(devs)[2 * j + 1] == devs[j]@ + ":"@ + devs[j]@,
    decreases devs.len(),
{
    if devs.len() > 0 {
        let rest = devs.drop_last();
        lemma_device_args(rest);
        assert forall|j: int| #![trigger device_args(devs)[2 * j]] #![trigger device_args(devs)[2 * j + 1]] 0 <= j < devs.len() implies device_args(devs)[2 * j] == "--device"@
            && device_args(devs)[2 * j + 1] == devs[j]@ + ":"@ + devs[j]@ by {
            if j < rest.len() {
                assert(device_args(rest)[2 * j + 1] == rest[j]@ + ":"@ + rest[j]@);
                assert(device_args(rest)[2 * j] == "--device"@);
                assert(device_args(devs)[2 * j] == device_args(rest)[2 * j]);
                assert(rest[j] == devs[j]);
            } else {
                assert(device_args(devs)[2 * j] == seq!["--device"@, devs.last()@ + ":"@ + devs.last()@][0]);
            }
        }
    }
}

/// `--group-add` for each gid in turn: two arguments per gid.
proof fn lemma_group_args(gids: Seq<u32>)
    ensures
        group_args(gids).len() == 2 * gids.len(),
        forall|j: int| #![trigger group_args(gids)[2 * j]] #![trigger group_args(gids)[2 * j + 1]] 0 <= j < gids.len() ==> group_args(gids)[2 * j] == "--group-add"@
            && group_args(gids)[2 * j + 1] == decimal(gids[j] as nat),
    decreases gids.len(),
{
    if gids.len() > 0 {
        let rest = gids.drop_last();
        lemma_group_args(rest);
        assert forall|j: int| #![trigger group_args(gids)[2 * j]] #![trigger group_args(gids)[2 * j + 1]] 0 <= j < gids.len() implies group_args(gids)[2 * j] == "--group-add"@
            && group_args(gids)[2 * j + 1] == decimal(gids[j] as nat) by {
            if j < rest.len() {
                assert(group_args(rest)[2 * j + 1] == decimal(rest[j] as nat));
                assert(group_args(rest)[2 * j] == "--group-add"@);
                assert(group_args(gids)[2 * j] == group_args(rest)[2 * j]);
                assert(rest[j] == gids[j]);
            } else {
                assert(group_args(gids)[2 * j] == seq!["--group-add"@, decimal(gids.last() as nat)][0]);
            }
        }
    }
}

/// `-e` for each variable in turn: two arguments per variable.
proof fn lemma_env_args(env: Seq<(String, String)>)
    ensures
        env_args(env).len() == 2 * env.len(),
        forall|j: int| #![trigger env_args(env)[2 * j]] #![trigger env_args(env)[2 * j + 1]] 0 <= j < env.len() ==> env_args(env)[2 * j] == "-e"@
            && env_args(env)[2 * j + 1] == env[j].0@ + "="@ + env[j].1@,
    decreases env.len(),
{
    if env.len() > 0 {
        let rest = env.drop_last();
        lemma_env_args(rest);
        assert forall|j: int| #![trigger env_args(env)[2 * j]] #![trigger env_args(env)[2 * j + 1]] 0 <= j < env.len() implies env_args(env)[2 * j] == "-e"@
            && env_args(env)[2 * j + 1] == env[j].0@ + "="@ + env[j].1@ by {
            if j < rest.len() {
                assert(env_args(rest)[2 * j + 1] == rest[j].0@ + "="@ + rest[j].1@);
                assert(env_args(rest)[2 * j] == "-e"@);
                assert(env_args(env)[2 * j] == env_args(rest)[2 * j]);
                assert(rest[j] == env[j]);
            } else {
                assert(env_args(env)[2 * j] == seq!["-e"@, env.last().0@ + "="@ + env.last().1@][0]);
            }
        }
    }
}

/// `-v` for each mount in turn: two arguments per mount.
proof fn lemma_mount_args(mounts: Seq<(String, String, bool)>, relabel: bool, home: Seq<char>)
    ensures
        mount_args(mounts, relabel, home).len() == 2 * mounts.len(),
        forall|j: int| #![trigger mount_args(mounts, relabel, home)[2 * j]] #![trigger mount_args(mounts, relabel, home)[2 * j + 1]] 0 <= j < mounts.len() ==> mount_args(mounts, relabel, home)[2 * j] == "-v"@
            && mount_args(mounts, relabel, home)[2 * j + 1]
                == mount_arg(mounts[j].0@, mounts[j].1@, mounts[j].2, relabel_rule(relabel, mounts[j].1@, home)),
    decreases mounts.len(),
{
    if mounts.len() > 0 {
        let rest = mounts.drop_last();
        lemma_mount_args(rest, relabel, home);
        assert forall|j: int| #![trigger mount_args(mounts, relabel, home)[2 * j]] #![trigger mount_args(mounts, relabel, home)[2 * j + 1]] 0 <= j < mounts.len() implies mount_args(mounts, relabel, home)[2 * j] == "-v"@
            && mount_args(mounts, relabel, home)[2 * j + 1]
                == mount_arg(mounts[j].0@, mounts[j].1@, mounts[j].2, relabel_rule(relabel, mounts[j].1@, home)) by {
            if j < rest.len() {
                assert(mount_args(rest, relabel, home)[2 * j + 1] == mount_arg(rest[j].0@, rest[j].1@, rest[j].2, relabel_rule(relabel, rest[j].1@, home)));
                assert(mount_args(rest, relabel, home)[2 * j] == "-v"@);
                assert(mount_args(mounts, relabel, home)[2 * j] == mount_args(rest, relabel, home)[2 * j]);
                assert(rest[j] == mounts[j]);
            }
        }
    }
}

/// One argument per element: the engine is given exactly one `--device` per
/// device, at the same path inside as out; one `--group-add` per group; one
/// `-e KEY=value` per variable; and one `-v` per mount -- in the order the
/// plan lists them, and nothing more.
pub proof fn law_one_argument_per_element(r: RunSpec)
    ensures
        device_args(r.devices@).len() == 2 * r.devices@.len(),
        forall|j: int| #![trigger device_args(r.devices@)[2 * j]] #![trigger device_args(r.devices@)[2 * j + 1]] 0 <= j < r.devices@.len() ==> device_args(r.devices@)[2 * j] == "--device"@
            && device_args(r.devices@)[2 * j + 1] == r.devices@[j]@ + ":"@ + r.devices@[j]@,
        group_args(r.groups@).len() == 2 * r.groups@.len(),
        forall|j: int| #![trigger group_args(r.groups@)[2 * j]] #![trigger group_args(r.groups@)[2 * j + 1]] 0 <= j < r.groups@.len() ==> group_args(r.groups@)[2 * j] == "--group-add"@
            && group_args(r.groups@)[2 * j + 1] == decimal(r.groups@[j] as nat),
        env_args(r.env@).len() == 2 * r.env@.len(),
        forall|j: int| #![trigger env_args(r.env@)[2 * j]] #![trigger env_args(r.env@)[2 * j + 1]] 0 <= j < r.env@.len() ==> env_args(r.env@)[2 * j] == "-e"@
            && env_args(r.env@)[2 * j + 1] == r.env@[j].0@ + "="@ + r.env@[j].1@,
        mount_args(r.mounts@, r.relabel, r.shared_home@).len() == 2 * r.mounts@.len(),
        forall|j: int| #![trigger mount_args(r.mounts@, r.relabel, r.shared_home@)[2 * j]] #![trigger mount_args(r.mounts@, r.relabel, r.shared_home@)[2 * j + 1]] 0 <= j < r.mounts@.len() ==> mount_args(r.mounts@, r.relabel, r.shared_home@)[2 * j] == "-v"@
            && mount_args(r.mounts@, r.relabel, r.shared_home@)[2 * j + 1]
                == mount_arg(r.mounts@[j].0@, r.mounts@[j].1@, r.mounts@[j].2, relabel_rule(r.relabel, r.mounts@[j].1@, r.shared_home@)),
        run_args(r).len() == 13 + (if r.shm is Some { 2int } else { 0int }) + 2 * r.devices@.len() + 2 * r.groups@.len()
            + 2 * r.env@.len() + 2 * r.mounts@.len(),
{
    lemma_device_args(r.devices@);
    lemma_group_args(r.groups@);
    lemma_env_args(r.env@);
    lemma_mount_args(r.mounts@, r.relabel, r.shared_home@);
}

/// The options a container is created with beyond its fixed head.
pub open spec fn option_word(w: Seq<char>) -> bool {
    w == "--shm-size"@ || w == "--device"@ || w == "--group-add"@ || w == "-e"@ || w == "-v"@
}

/// Pairs of an option and its value, every option one of `option_word`.
pub open spec fn options_only(s: Seq<Seq<char>>) -> bool {
    &&& s.len() % 2 == 0
    &&& forall|j: int| 0 <= j < s.len() / 2 ==> option_word(#[trigger] s[2 * j])
}

proof fn lemma_options_join(a: Seq<Seq<char>>, b: Seq<Seq<char>>)
    requires
        options_only(a),
        options_only(b),
    ensures
        options_only(a + b),
{
    assert forall|j: int| 0 <= j < (a + b).len() / 2 implies option_word(#[trigger] (a + b)[2 * j]) by {
        if 2 * j < a.len() {
            assert((a + b)[2 * j] == a[2 * j]);
        } else {
            let k = j - a.len() / 2;
            assert(2 * j - a.len() == 2 * k);
            assert((a + b)[2 * j] == b[2 * k]);
        }
    }
}

/// Nothing ever loosens the sandbox: after the fixed head -- `run -d`, the
/// name, the two labels, the restart policy and the loopback-only publish --
/// the argv is pairs of an option and its value, and every option is
/// `--shm-size`, `--device`, `--group-add`, `-e` or `-v`; then the image. No
/// capability, namespace, seccomp profile, privileged mode or device rule can
/// appear in an option's place.
pub proof fn law_nothing_loosens_the_sandbox(r: RunSpec)
    ensures
        run_args(r).len() >= 13,
        run_args(r).subrange(0, 12) == seq![
            "run"@, "-d"@, "--name"@, container_name_of(r.slug@), "--label"@, "webdesk.managed=1"@,
            "--label"@, "webdesk.slug="@ + r.slug@, "--restart"@, "unless-stopped"@, "-p"@,
            "127.0.0.1:"@ + decimal(r.host_port as nat) + ":"@ + decimal(r.container_port as nat),
        ],
        options_only(run_args(r).subrange(12, run_args(r).len() - 1)),
        run_args(r).last() == r.image@,
{
    law_one_argument_per_element(r);
    let shm: Seq<Seq<char>> = match r.shm {
        Some(s) => seq!["--shm-size"@, s@],
        None => Seq::empty(),
    };
    let d = device_args(r.devices@);
    let g = group_args(r.groups@);
    let e = env_args(r.env@);
    let m = mount_args(r.mounts@, r.relabel, r.shared_home@);
    assert(options_only(shm)) by {
        if r.shm is Some {
            assert(shm[0] == "--shm-size"@);
        }
    }
    assert(options_only(d)) by {
        assert forall|j: int| 0 <= j < d.len() / 2 implies option_word(#[trigger] d[2 * j]) by {
            assert(d[2 * j + 1] == r.devices@[j]@ + ":"@ + r.devices@[j]@);
        }
    }
    assert(options_only(g)) by {
        assert forall|j: int| 0 <= j < g.len() / 2 implies option_word(#[trigger] g[2 * j]) by {
            assert(g[2 * j + 1] == decimal(r.groups@[j] as nat));
        }
    }
    assert(options_only(e)) by {
        assert forall|j: int| 0 <= j < e.len() / 2 implies option_word(#[trigger] e[2 * j]) by {
            assert(e[2 * j + 1] == r.env@[j].0@ + "="@ + r.env@[j].1@);
        }
    }
    assert(options_only(m)) by {
        assert forall|j: int| 0 <= j < m.len() / 2 implies option_word(#[trigger] m[2 * j]) by {
            assert(m[2 * j + 1] == mount_arg(r.mounts@[j].0@, r.mounts@[j].1@, r.mounts@[j].2, relabel_rule(r.relabel, r.mounts@[j].1@, r.shared_home@)));
        }
    }
    lemma_options_join(shm, d);
    lemma_options_join(shm + d, g);
    lemma_options_join(shm + d + g, e);
    lemma_options_join(shm + d + g + e, m);
    let head = seq![
        "run"@, "-d"@, "--name"@, container_name_of(r.slug@), "--label"@, "webdesk.managed=1"@,
        "--label"@, "webdesk.slug="@ + r.slug@, "--restart"@, "unless-stopped"@, "-p"@,
        "127.0.0.1:"@ + decimal(r.host_port as nat) + ":"@ + decimal(r.container_port as nat),
    ];
    let a = run_args(r);
    assert(a == head + (shm + d + g + e + m) + seq![r.image@]);
    assert(a.subrange(0, 12) =~= head);
    assert(a.subrange(12, a.len() - 1) =~= shm + d + g + e + m);
}

/// What an engine command whose output is wanted came to: its trimmed output,
/// or its stderr -- or, when that is empty, a sentence naming the command.
pub open spec fn capture_outcome(first_arg: Seq<char>, ok: bool, stdout: Seq<char>, stderr: Seq<char>) -> Result<Seq<char>, Seq<char>> {
    if ok {
        Ok(trim(stdout))
    } else {
        Err(crate::text::failure_text(stderr, first_arg + " failed"@))
    }
}

/// The outcome of an engine command run for its output.
pub fn capture(first_arg: &str, ok: bool, stdout: &str, stderr: &str) -> (r: Result<String, String>)
    ensures
        crate::apps::res_view(r) == capture_outcome(first_arg@, ok, stdout@, stderr@),
{
    if ok {
        return Ok(string_of(trim_chars(chars_of(stdout).as_slice()).as_slice()));
    }
    let mut v = chars_of(first_arg);
    v.extend_from_slice(chars_of(" failed").as_slice());
    let fallback = string_of(v.as_slice());
    assert(fallback@ == first_arg@ + " failed"@);
    let e = crate::text::failure_message(stderr, fallback);
    assert(crate::apps::res_view(Err::<String, String>(e)) == Err::<Seq<char>, Seq<char>>(e@));
    Err(e)
}

/// The argv that creates the container a plan describes.
pub fn create(spec: &RunSpec) -> (r: Vec<String>)
    ensures
        strings(r@) == run_args(*spec),
{
    spec.args()
}

} // verus!
