//! Putting a Flatpak and the host programs it needs onto this host.
//!
//! The host packages are the delicate part: they are installed with the host's
//! own package manager, as root, and only after the person installing has been
//! told exactly which and agreed. Which packages those are is decided here, from
//! the catalog and from which programs the host already has -- never from a
//! request.

use vstd::prelude::*;
use crate::catalog::{Flatpak, FlatpakSource, Prereq};
use crate::text::{chars_of, string_of, join, join_chars, views, ends_with, has_suffix};
use crate::engine::strings;

verus! {

/// The remote Flathub is added from.
pub const FLATHUB_URL: &'static str = "https://dl.flathub.org/repo/flathub.flatpakrepo";

/// A host package manager WebDesk knows how to drive.
#[derive(Clone, Copy, PartialEq, Eq, Structural)]
pub enum Manager {
    Dnf,
    Apt,
    Pacman,
    Zypper,
}

/// The program a manager is run as.
pub open spec fn bin_of(m: Manager) -> Seq<char> {
    match m {
        Manager::Dnf => "dnf"@,
        Manager::Apt => "apt-get"@,
        Manager::Pacman => "pacman"@,
        Manager::Zypper => "zypper"@,
    }
}

/// The arguments that install packages without asking anything.
pub open spec fn args_of(m: Manager) -> Seq<Seq<char>> {
    match m {
        Manager::Pacman => seq!["-S"@, "--noconfirm"@],
        _ => seq!["install"@, "-y"@],
    }
}

/// The package that provides a prerequisite under a manager, where somebody
/// has checked.
pub open spec fn package_of(m: Manager, p: Prereq) -> Option<&'static str> {
    match m {
        Manager::Dnf => p.dnf,
        Manager::Apt => p.apt,
        Manager::Pacman => p.pacman,
        Manager::Zypper => p.zypper,
    }
}

impl Manager {
    /// The program this manager is run as.
    pub fn bin(&self) -> (r: &'static str)
        ensures
            r@ == bin_of(*self),
    {
        match self {
            Manager::Dnf => "dnf",
            Manager::Apt => "apt-get",
            Manager::Pacman => "pacman",
            Manager::Zypper => "zypper",
        }
    }

    /// The arguments that install without a prompt, before the package names.
    pub fn args(&self) -> (r: Vec<&'static str>)
        ensures
            r@.map_values(|s: &str| s@) == args_of(*self),
    {
        let r = match self {
            Manager::Pacman => vec!["-S", "--noconfirm"],
            _ => vec!["install", "-y"],
        };
        assert(r@.map_values(|s: &str| s@) =~= args_of(*self));
        r
    }

    /// The package providing `p` under this manager.
    pub fn package(&self, p: &Prereq) -> (r: Option<&'static str>)
        ensures
            r == package_of(*self, *p),
    {
        match self {
            Manager::Dnf => p.dnf,
            Manager::Apt => p.apt,
            Manager::Pacman => p.pacman,
            Manager::Zypper => p.zypper,
        }
    }
}

/// The first manager the host has, in the order dnf, apt, pacman, zypper. Each
/// flag says whether that manager's program was found.
pub fn manager(dnf: bool, apt: bool, pacman: bool, zypper: bool) -> (r: Option<Manager>)
    ensures
        r == if dnf {
            Some(Manager::Dnf)
        } else if apt {
            Some(Manager::Apt)
        } else if pacman {
            Some(Manager::Pacman)
        } else if zypper {
            Some(Manager::Zypper)
        } else {
            None::<Manager>
        },
{
    if dnf {
        Some(Manager::Dnf)
    } else if apt {
        Some(Manager::Apt)
    } else if pacman {
        Some(Manager::Pacman)
    } else if zypper {
        Some(Manager::Zypper)
    } else {
        None
    }
}

/// `flatpak` itself, which every host service that runs a Flatpak needs
/// first, packaged under that name everywhere.
pub open spec fn flatpak_need() -> Prereq {
    Prereq { bin: "flatpak", dnf: Some("flatpak"), apt: Some("flatpak"), pacman: Some("flatpak"), zypper: Some("flatpak") }
}

/// `flatpak` itself, as a prerequisite.
pub fn flatpak_prereq() -> (p: Prereq)
    ensures
        p == flatpak_need(),
{
    Prereq { bin: "flatpak", dnf: Some("flatpak"), apt: Some("flatpak"), pacman: Some("flatpak"), zypper: Some("flatpak") }
}

/// The prerequisites the host has not got, in order. `present[i]` says whether
/// `all[i]`'s program was found.
pub open spec fn wanted_of(all: Seq<Prereq>, present: Seq<bool>) -> Seq<Prereq>
    decreases all.len(),
{
    if all.len() == 0 {
        Seq::empty()
    } else {
        let rest = wanted_of(all.drop_last(), present);
        if present[all.len() - 1] {
            rest
        } else {
            rest.push(all.last())
        }
    }
}

/// The packages that provide the wanted programs, or the first one nobody
/// has named a package for.
pub open spec fn packages_for(m: Manager, wanted: Seq<Prereq>) -> Result<Seq<Seq<char>>, Seq<char>>
    decreases wanted.len(),
{
    if wanted.len() == 0 {
        Ok(Seq::empty())
    } else {
        match packages_for(m, wanted.drop_last()) {
            Err(e) => Err(e),
            Ok(rest) => match package_of(m, wanted.last()) {
                Some(p) => Ok(rest.push(p@)),
                None => Err("this host is missing "@ + wanted.last().bin@ + ", and WebDesk does not know which "@
                    + bin_of(m) + " package provides it"@),
            },
        }
    }
}

/// The programs of some prerequisites, joined with ` and `.
pub open spec fn names_of(ps: Seq<Prereq>) -> Seq<char> {
    join(ps.map_values(|p: Prereq| p.bin@), " and "@)
}

/// The host packages a host service needs installed first: for `flatpak` and
/// then each of `needs`, the package providing each program the host has not
/// got. Empty when it has them all; refused when something is missing and
/// there is no known manager, or no known package for it.
pub open spec fn missing_of(needs: Seq<Prereq>, present: Seq<bool>, m: Option<Manager>, flatpak: Prereq) -> Result<Seq<Seq<char>>, Seq<char>> {
    let wanted = wanted_of(seq![flatpak] + needs, present);
    if wanted.len() == 0 {
        Ok(Seq::empty())
    } else {
        match m {
            None => Err("this host is missing "@ + names_of(wanted) + " and has no package manager WebDesk knows"@),
            Some(mm) => packages_for(mm, wanted),
        }
    }
}

/// The programs of some prerequisites, joined with ` and `.
pub fn names(ps: &Vec<Prereq>) -> (r: String)
    ensures
        r@ == names_of(ps@),
{
    let mut parts: Vec<Vec<char>> = Vec::new();
    for i in 0..ps.len()
        invariant
            views(parts@) == ps@.take(i as int).map_values(|p: Prereq| p.bin@),
    {
        let ghost before = parts@;
        parts.push(chars_of(ps[i].bin));
        assert(views(parts@) =~= ps@.take(i + 1).map_values(|p: Prereq| p.bin@)) by {
            assert(views(before).len() == before.len());
            assert forall|k: int| 0 <= k < i + 1 implies #[trigger] views(parts@)[k] == ps@.take(i + 1).map_values(|p: Prereq| p.bin@)[k] by {
                if k < i {
                    assert(parts@[k] == before[k]);
                    assert(views(before)[k] == before[k]@);
                }
            }
        }
    }
    assert(ps@.take(ps@.len() as int) =~= ps@);
    string_of(join_chars(&parts, chars_of(" and ").as_slice()).as_slice())
}

fn copy_prereq(p: &Prereq) -> (r: Prereq)
    ensures
        r == *p,
{
    Prereq { bin: p.bin, dnf: p.dnf, apt: p.apt, pacman: p.pacman, zypper: p.zypper }
}

/// The host packages a host service needs. `present` says, for `flatpak` and
/// then for each of `needs`, whether its program was found; `m` is the host's
/// package manager.
pub fn missing_packages(needs: &Vec<Prereq>, present: &Vec<bool>, m: Option<Manager>) -> (r: Result<Vec<String>, String>)
    requires
        present@.len() == needs@.len() + 1,
    ensures
        match missing_of(needs@, present@, m, flatpak_need()) {
            Ok(ps) => r matches Ok(v) && strings(v@) == ps,
            Err(e) => r matches Err(x) && x@ == e,
        },
{
    let fp = flatpak_prereq();
    let mut all: Vec<Prereq> = Vec::new();
    all.push(fp);
    for i in 0..needs.len()
        invariant
            all@ == seq![fp] + needs@.take(i as int),
    {
        all.push(copy_prereq(&needs[i]));
        assert(all@ =~= seq![fp] + needs@.take(i + 1));
    }
    assert(needs@.take(needs@.len() as int) =~= needs@);
    let ghost whole = all@;
    let mut wanted: Vec<Prereq> = Vec::new();
    for i in 0..all.len()
        invariant
            all@ == whole,
            present@.len() == all@.len(),
            wanted@ == wanted_of(all@.take(i as int), present@),
    {
        assert(all@.take(i + 1).drop_last() == all@.take(i as int));
        assert(all@.take(i + 1).len() - 1 == i);
        if !present[i] {
            wanted.push(copy_prereq(&all[i]));
        }
    }
    assert(all@.take(all@.len() as int) == all@);
    if wanted.len() == 0 {
        return Ok(Vec::new());
    }
    let mm = match m {
        None => {
            let mut v = chars_of("this host is missing ");
            v.extend_from_slice(chars_of(names(&wanted).as_str()).as_slice());
            v.extend_from_slice(chars_of(" and has no package manager WebDesk knows").as_slice());
            return Err(string_of(v.as_slice()));
        },
        Some(mm) => mm,
    };
    let mut out: Vec<String> = Vec::new();
    assert(wanted@.take(0) =~= Seq::<Prereq>::empty());
    assert(strings(out@) =~= Seq::<Seq<char>>::empty());
    assert(wanted@ == wanted_of(seq![flatpak_need()] + needs@, present@));
    for i in 0..wanted.len()
        invariant
            wanted@ == wanted_of(seq![flatpak_need()] + needs@, present@),
            wanted@.len() > 0,
            m == Some(mm),
            packages_for(mm, wanted@.take(i as int)) == Ok::<Seq<Seq<char>>, Seq<char>>(strings(out@)),
    {
        assert(wanted@.take(i + 1).drop_last() == wanted@.take(i as int));
        match mm.package(&wanted[i]) {
            Some(pkg) => {
                let ghost before = out@;
                out.push(pkg.to_owned());
                assert(strings(out@) =~= strings(before).push(pkg@));
            },
            None => {
                let mut v = chars_of("this host is missing ");
                v.extend_from_slice(chars_of(wanted[i].bin).as_slice());
                v.extend_from_slice(chars_of(", and WebDesk does not know which ").as_slice());
                v.extend_from_slice(chars_of(mm.bin()).as_slice());
                v.extend_from_slice(chars_of(" package provides it").as_slice());
                proof {
                    lemma_packages_refusal(mm, wanted@, i as int + 1);
                }
                return Err(string_of(v.as_slice()));
            },
        }
    }
    assert(wanted@.take(wanted@.len() as int) == wanted@);
    Ok(out)
}

proof fn lemma_packages_refusal(m: Manager, w: Seq<Prereq>, i: int)
    requires
        0 <= i <= w.len(),
        packages_for(m, w.take(i)) is Err,
    ensures
        packages_for(m, w) == packages_for(m, w.take(i)),
    decreases w.len() - i,
{
    if i < w.len() {
        assert(w.drop_last().take(i) == w.take(i));
        lemma_packages_refusal(m, w.drop_last(), i);
    } else {
        assert(w.take(i) == w);
    }
}

/// One program to run, with its arguments.
pub struct Command {
    pub bin: String,
    pub args: Vec<String>,
}

/// A command, as text.
pub open spec fn command_view(c: Command) -> (Seq<char>, Seq<Seq<char>>) {
    (c.bin@, strings(c.args@))
}

fn command(bin: &str, args: Vec<String>) -> (c: Command)
    ensures
        c.bin@ == bin@,
        c.args@ == args@,
{
    Command { bin: bin.to_owned(), args }
}

/// The package manager's command that installs these packages.
pub fn install_packages(m: Manager, packages: &Vec<String>) -> (c: Command)
    ensures
        command_view(c) == (bin_of(m), args_of(m) + strings(packages@)),
{
    let fixed = m.args();
    let mut args: Vec<String> = Vec::new();
    for i in 0..fixed.len()
        invariant
            fixed@.map_values(|s: &str| s@) == args_of(m),
            strings(args@) == args_of(m).take(i as int),
    {
        let ghost before = args@;
        let a = fixed[i].to_owned();
        assert(a@ == fixed@[i as int]@);
        args.push(a);
        assert(strings(args@) =~= args_of(m).take(i + 1)) by {
            assert(fixed@.map_values(|s: &str| s@).len() == fixed@.len());
            assert(fixed@.map_values(|s: &str| s@)[i as int] == fixed@[i as int]@);
            assert(strings(args@) =~= strings(before).push(a@));
        }
    }
    assert(args_of(m).take(fixed@.len() as int) =~= args_of(m));
    let ghost head = args@;
    for i in 0..packages.len()
        invariant
            strings(head) == args_of(m),
            strings(args@) == args_of(m) + strings(packages@).take(i as int),
    {
        let ghost before = args@;
        args.push(packages[i].clone());
        assert(strings(args@) =~= strings(before).push(packages@[i as int]@));
        assert(strings(args@) =~= args_of(m) + strings(packages@).take(i + 1));
    }
    assert(strings(packages@).take(packages@.len() as int) =~= strings(packages@));
    command(m.bin(), args)
}

/// The architectures bundles are built for: the machine's own, when it is one
/// of the two.
pub fn arch_of(machine: &str) -> (r: Option<&'static str>)
    ensures
        r is Some ==> r->0@ == machine@,
        r is Some <==> (machine@ == "x86_64"@ || machine@ == "aarch64"@),
{
    let m = chars_of(machine);
    if crate::text::same(m.as_slice(), chars_of("x86_64").as_slice()) {
        Some("x86_64")
    } else if crate::text::same(m.as_slice(), chars_of("aarch64").as_slice()) {
        Some("aarch64")
    } else {
        None
    }
}

/// One file attached to a release.
pub struct Asset {
    pub name: Option<String>,
    pub url: Option<String>,
}

/// One release of a repository, newest first in the list the host fetched.
pub struct Release {
    pub tag: Option<String>,
    pub assets: Option<Vec<Asset>>,
}

/// Leading `v`s taken off a tag.
pub open spec fn strip_v(t: Seq<char>) -> Seq<char>
    decreases t.len(),
{
    if t.len() > 0 && t[0] == 'v' {
        strip_v(t.drop_first())
    } else {
        t
    }
}

/// An asset that is this architecture's bundle and says where to get it.
pub open spec fn bundle_asset(a: Asset, suffix: Seq<char>) -> bool {
    ends_with(
        match a.name {
            Some(n) => n@,
            None => Seq::empty(),
        },
        suffix,
    ) && a.url is Some
}

/// The index of the first matching asset in a list.
pub open spec fn first_asset(assets: Seq<Asset>, suffix: Seq<char>) -> Option<int> {
    if exists|j: int| 0 <= j < assets.len() && bundle_asset(#[trigger] assets[j], suffix) {
        Some(choose|j: int| 0 <= j < assets.len() && bundle_asset(#[trigger] assets[j], suffix) && forall|k: int| 0 <= k < j ==> !bundle_asset(#[trigger] assets[k], suffix))
    } else {
        None
    }
}

/// The assets of a release, none when it has no list.
pub open spec fn assets_of(r: Release) -> Seq<Asset> {
    match r.assets {
        Some(v) => v@,
        None => Seq::empty(),
    }
}

/// A release that carries a bundle for this architecture.
pub open spec fn has_bundle(r: Release, suffix: Seq<char>) -> bool {
    exists|j: int| 0 <= j < assets_of(r).len() && bundle_asset(#[trigger] assets_of(r)[j], suffix)
}

/// The newest bundle for an architecture: in the first release, in list order,
/// that carries one, the first asset whose name ends `_<arch>.flatpak` and has
/// an address -- with the release's tag, leading `v`s removed, as its version.
pub open spec fn bundle_choice(releases: Seq<Release>, arch: Seq<char>) -> Option<(Seq<char>, Seq<char>)> {
    let suffix = "_"@ + arch + ".flatpak"@;
    if exists|i: int| 0 <= i < releases.len() && has_bundle(#[trigger] releases[i], suffix) {
        let i = choose|i: int| 0 <= i < releases.len() && has_bundle(#[trigger] releases[i], suffix) && forall|k: int| 0 <= k < i ==> !has_bundle(#[trigger] releases[k], suffix);
        let j = choose|j: int| 0 <= j < assets_of(releases[i]).len() && bundle_asset(#[trigger] assets_of(releases[i])[j], suffix) && forall|k: int| 0 <= k < j ==> !bundle_asset(#[trigger] assets_of(releases[i])[k], suffix);
        Some((strip_v(match releases[i].tag {
            Some(t) => t@,
            None => Seq::empty(),
        }), assets_of(releases[i])[j].url->0@))
    } else {
        None
    }
}

fn strip_leading_v(t: &[char]) -> (r: Vec<char>)
    ensures
        r@ == strip_v(t@),
{
    let mut i: usize = 0;
    assert(t@.skip(0) =~= t@);
    while i < t.len() && t[i] == 'v'
        invariant
            i <= t@.len(),
            strip_v(t@) == strip_v(t@.skip(i as int)),
        decreases t@.len() - i,
    {
        assert(t@.skip(i as int).drop_first() == t@.skip(i + 1));
        i = i + 1;
    }
    let r = crate::text::tail_from(t, i);
    r
}

/// The newest bundle of a repository's releases for this architecture: its
/// version and its address. `releases` is the repository's last releases,
/// newest first, as fetched.
pub fn pick_bundle(releases: &Vec<Release>, arch: &str, repo: &str) -> (r: Result<(String, String), String>)
    ensures
        match bundle_choice(releases@, arch@) {
            Some((v, u)) => r matches Ok((rv, ru)) && rv@ == v && ru@ == u,
            None => r matches Err(e) && e@ == "no "@ + arch@ + " bundle in the last 30 releases of "@ + repo@,
        },
{
    let mut suffix = chars_of("_");
    suffix.extend_from_slice(chars_of(arch).as_slice());
    suffix.extend_from_slice(chars_of(".flatpak").as_slice());
    let ghost sfx = suffix@;
    assert(sfx == "_"@ + arch@ + ".flatpak"@);
    let mut i: usize = 0;
    while i < releases.len()
        invariant
            i <= releases@.len(),
            suffix@ == sfx,
            sfx == "_"@ + arch@ + ".flatpak"@,
            forall|k: int| 0 <= k < i ==> !has_bundle(#[trigger] releases@[k], sfx),
        decreases releases@.len() - i,
    {
        if let Some(assets) = &releases[i].assets {
            let mut j: usize = 0;
            while j < assets.len()
                invariant
                    j <= assets@.len(),
                    i < releases@.len(),
                    suffix@ == sfx,
                    sfx == "_"@ + arch@ + ".flatpak"@,
                    releases@[i as int].assets == Some(*assets),
                    forall|k: int| 0 <= k < i ==> !has_bundle(#[trigger] releases@[k], sfx),
                    forall|k: int| 0 <= k < j ==> !bundle_asset(#[trigger] assets@[k], sfx),
                decreases assets@.len() - j,
            {
                let name = match &assets[j].name {
                    Some(n) => chars_of(n.as_str()),
                    None => Vec::new(),
                };
                if has_suffix(name.as_slice(), suffix.as_slice()) {
                    if let Some(url) = &assets[j].url {
                        let tag = match &releases[i].tag {
                            Some(t) => chars_of(t.as_str()),
                            None => Vec::new(),
                        };
                        let version = strip_leading_v(tag.as_slice());
                        proof {
                            assert(bundle_asset(assets@[j as int], sfx));
                            assert(assets_of(releases@[i as int]) == assets@);
                            assert(has_bundle(releases@[i as int], sfx));
                            let ci = choose|ci: int| 0 <= ci < releases@.len() && has_bundle(#[trigger] releases@[ci], sfx) && forall|k: int| 0 <= k < ci ==> !has_bundle(#[trigger] releases@[k], sfx);
                            assert(ci == i) by {
                                if ci < i {
                                } else if ci > i {
                                    assert(!has_bundle(releases@[i as int], sfx));
                                }
                            }
                            let cj = choose|cj: int| 0 <= cj < assets_of(releases@[i as int]).len() && bundle_asset(#[trigger] assets_of(releases@[i as int])[cj], sfx) && forall|k: int| 0 <= k < cj ==> !bundle_asset(#[trigger] assets_of(releases@[i as int])[k], sfx);
                            assert(cj == j) by {
                                if cj > j {
                                    assert(!bundle_asset(assets_of(releases@[i as int])[j as int], sfx));
                                }
                            }
                        }
                        return Ok((string_of(version.as_slice()), url.clone()));
                    }
                }
                j = j + 1;
            }
            assert(!has_bundle(releases@[i as int], sfx)) by {
                assert(assets_of(releases@[i as int]) == assets@);
            }
        } else {
            assert(assets_of(releases@[i as int]).len() == 0);
        }
        i = i + 1;
    }
    let mut e = chars_of("no ");
    e.extend_from_slice(chars_of(arch).as_slice());
    e.extend_from_slice(chars_of(" bundle in the last 30 releases of ").as_slice());
    e.extend_from_slice(chars_of(repo).as_slice());
    Err(string_of(e.as_slice()))
}

/// The address the last 30 releases of a repository are listed at.
pub fn releases_url(repo: &str) -> (r: String)
    ensures
        r@ == "https://api.github.com/repos/"@ + repo@ + "/releases?per_page=30"@,
{
    let mut v = chars_of("https://api.github.com/repos/");
    v.extend_from_slice(chars_of(repo).as_slice());
    v.extend_from_slice(chars_of("/releases?per_page=30").as_slice());
    string_of(v.as_slice())
}

/// `flatpak remote-add --if-not-exists --system flathub <url>`.
pub fn ensure_flathub() -> (c: Command)
    ensures
        command_view(c) == ("flatpak"@, seq!["remote-add"@, "--if-not-exists"@, "--system"@, "flathub"@, FLATHUB_URL@]),
{
    let args = vec!["remote-add".to_owned(), "--if-not-exists".to_owned(), "--system".to_owned(), "flathub".to_owned(), FLATHUB_URL.to_owned()];
    assert(strings(args@) =~= seq!["remote-add"@, "--if-not-exists"@, "--system"@, "flathub"@, FLATHUB_URL@]);
    command("flatpak", args)
}

/// What providing a Flatpak comes to: nothing for one already installed; the
/// Flathub remote and an install from it; or, for a bundle, fetching the
/// repository's releases, which `bundle_commands` then turns into commands.
pub enum Provide {
    Nothing,
    Run(Vec<Command>),
    FetchReleases { repo: &'static str },
}

/// How a Flatpak is provided, given whether it is installed already.
pub fn provide(fp: &Flatpak, installed: bool) -> (r: Provide)
    ensures
        installed ==> r is Nothing,
        !installed ==> match fp.source {
            FlatpakSource::Flathub => r matches Provide::Run(cs) && cs@.map_values(|c: Command| command_view(c)) == seq![
                ("flatpak"@, seq!["remote-add"@, "--if-not-exists"@, "--system"@, "flathub"@, FLATHUB_URL@]),
                ("flatpak"@, seq!["install"@, "-y"@, "--system"@, "--noninteractive"@, "flathub"@, fp.id@]),
            ],
            FlatpakSource::Bundle { repo } => r matches Provide::FetchReleases { repo: r2 } && r2 == repo,
        },
{
    if installed {
        return Provide::Nothing;
    }
    match fp.source {
        FlatpakSource::Flathub => {
            let args = vec!["install".to_owned(), "-y".to_owned(), "--system".to_owned(), "--noninteractive".to_owned(), "flathub".to_owned(), fp.id.to_owned()];
            assert(strings(args@) =~= seq!["install"@, "-y"@, "--system"@, "--noninteractive"@, "flathub"@, fp.id@]);
            let cs = vec![ensure_flathub(), command("flatpak", args)];
            assert(cs@.map_values(|c: Command| command_view(c)) =~= seq![
                ("flatpak"@, seq!["remote-add"@, "--if-not-exists"@, "--system"@, "flathub"@, FLATHUB_URL@]),
                ("flatpak"@, seq!["install"@, "-y"@, "--system"@, "--noninteractive"@, "flathub"@, fp.id@]),
            ]);
            Provide::Run(cs)
        },
        FlatpakSource::Bundle { repo } => Provide::FetchReleases { repo },
    }
}

/// How a Flatpak is brought up to date: `flatpak update` for one from
/// Flathub, and for a bundle, fetching the releases again.
pub fn update(fp: &Flatpak) -> (r: Provide)
    ensures
        match fp.source {
            FlatpakSource::Flathub => r matches Provide::Run(cs) && cs@.map_values(|c: Command| command_view(c)) == seq![
                ("flatpak"@, seq!["update"@, "-y"@, "--system"@, "--noninteractive"@, fp.id@]),
            ],
            FlatpakSource::Bundle { repo } => r matches Provide::FetchReleases { repo: r2 } && r2 == repo,
        },
{
    match fp.source {
        FlatpakSource::Flathub => {
            let args = vec!["update".to_owned(), "-y".to_owned(), "--system".to_owned(), "--noninteractive".to_owned(), fp.id.to_owned()];
            assert(strings(args@) =~= seq!["update"@, "-y"@, "--system"@, "--noninteractive"@, fp.id@]);
            let cs = vec![command("flatpak", args)];
            assert(cs@.map_values(|c: Command| command_view(c)) =~= seq![
                ("flatpak"@, seq!["update"@, "-y"@, "--system"@, "--noninteractive"@, fp.id@]),
            ]);
            Provide::Run(cs)
        },
        FlatpakSource::Bundle { repo } => Provide::FetchReleases { repo },
    }
}

/// Download a bundle to `file` and install it from there: `curl` with a time
/// limit, then `flatpak install --reinstall`.
pub fn bundle_commands(url: &str, file: &str) -> (cs: Vec<Command>)
    ensures
        cs@.map_values(|c: Command| command_view(c)) == seq![
            ("curl"@, seq!["-fsSL"@, "--max-time"@, "900"@, "-o"@, file@, url@]),
            ("flatpak"@, seq!["install"@, "-y"@, "--system"@, "--reinstall"@, file@]),
        ],
{
    let get = vec!["-fsSL".to_owned(), "--max-time".to_owned(), "900".to_owned(), "-o".to_owned(), file.to_owned(), url.to_owned()];
    assert(strings(get@) =~= seq!["-fsSL"@, "--max-time"@, "900"@, "-o"@, file@, url@]);
    let put = vec!["install".to_owned(), "-y".to_owned(), "--system".to_owned(), "--reinstall".to_owned(), file.to_owned()];
    assert(strings(put@) =~= seq!["install"@, "-y"@, "--system"@, "--reinstall"@, file@]);
    let cs = vec![command("curl", get), command("flatpak", put)];
    assert(cs@.map_values(|c: Command| command_view(c)) =~= seq![
        ("curl"@, seq!["-fsSL"@, "--max-time"@, "900"@, "-o"@, file@, url@]),
        ("flatpak"@, seq!["install"@, "-y"@, "--system"@, "--reinstall"@, file@]),
    ]);
    cs
}

/// `flatpak uninstall -y --system --noninteractive <id>`: system-wide, because
/// that is how it was put on, and without a prompt nobody would read.
pub fn uninstall(id: &str) -> (c: Command)
    ensures
        command_view(c) == ("flatpak"@, seq!["uninstall"@, "-y"@, "--system"@, "--noninteractive"@, id@]),
{
    let args = vec!["uninstall".to_owned(), "-y".to_owned(), "--system".to_owned(), "--noninteractive".to_owned(), id.to_owned()];
    assert(strings(args@) =~= seq!["uninstall"@, "-y"@, "--system"@, "--noninteractive"@, id@]);
    command("flatpak", args)
}

/// What an uninstall came to: its stderr on failure, or a sentence naming it
/// when stderr was empty.
pub fn uninstall_outcome(id: &str, ok: bool, stderr: &str) -> (r: Result<(), String>)
    ensures
        ok ==> r is Ok,
        !ok ==> (r matches Err(e) && e@ == crate::text::failure_text(stderr@, "flatpak uninstall "@ + id@ + " failed"@)),
{
    if ok {
        return Ok(());
    }
    let mut v = chars_of("flatpak uninstall ");
    v.extend_from_slice(chars_of(id).as_slice());
    v.extend_from_slice(chars_of(" failed").as_slice());
    Err(crate::text::failure_message(stderr, string_of(v.as_slice())))
}

/// `flatpak info <id>`, which succeeds only for an installed app.
pub fn info(id: &str) -> (c: Command)
    ensures
        command_view(c) == ("flatpak"@, seq!["info"@, id@]),
{
    let args = vec!["info".to_owned(), id.to_owned()];
    assert(strings(args@) =~= seq!["info"@, id@]);
    command("flatpak", args)
}

/// `loginctl enable-linger <user>`, so a user's services outlive their
/// sessions.
pub fn enable_linger(user: &str) -> (c: Command)
    ensures
        command_view(c) == ("loginctl"@, seq!["enable-linger"@, user@]),
{
    let args = vec!["enable-linger".to_owned(), user.to_owned()];
    assert(strings(args@) =~= seq!["enable-linger"@, user@]);
    command("loginctl", args)
}

/// What a logged command's failure is reported as: the program, its first
/// argument, and how it exited.
pub fn logged_failure(bin: &str, args: &Vec<String>, status: &str) -> (r: String)
    ensures
        r@ == bin@ + " "@ + (if args@.len() > 0 {
            args@[0]@
        } else {
            Seq::empty()
        }) + " failed ("@ + status@ + ")"@,
{
    let mut v = chars_of(bin);
    v.extend_from_slice(chars_of(" ").as_slice());
    if args.len() > 0 {
        v.extend_from_slice(chars_of(args[0].as_str()).as_slice());
    }
    v.extend_from_slice(chars_of(" failed (").as_slice());
    v.extend_from_slice(chars_of(status).as_slice());
    v.extend_from_slice(chars_of(")").as_slice());
    string_of(v.as_slice())
}

/// `pkg` is the package `p`'s program comes in under `m`.
pub open spec fn provides(m: Manager, p: Prereq, pkg: Seq<char>) -> bool {
    package_of(m, p) is Some && package_of(m, p)->0@ == pkg
}

/// Only ever a package the catalog names: every host package that would be
/// installed is the package some wanted prerequisite names for this manager,
/// so a request can never add one. And a host with every program has nothing
/// to install.
pub proof fn law_packages_come_from_the_catalog(m: Manager, wanted: Seq<Prereq>)
    ensures
        packages_for(m, wanted) matches Ok(ps) ==> ps.len() == wanted.len() && forall|i: int|
            0 <= i < ps.len() ==> #[trigger] provides(m, wanted[i], ps[i]),
    decreases wanted.len(),
{
    if wanted.len() > 0 {
        law_packages_come_from_the_catalog(m, wanted.drop_last());
        if let Ok(ps) = packages_for(m, wanted) {
            assert(packages_for(m, wanted.drop_last()) is Ok);
            let rest = packages_for(m, wanted.drop_last())->Ok_0;
            assert(package_of(m, wanted.last()) is Some);
            assert(ps == rest.push(package_of(m, wanted.last())->0@));
            assert(rest.len() == wanted.drop_last().len());
            assert forall|i: int| 0 <= i < ps.len() implies #[trigger] provides(m, wanted[i], ps[i]) by {
                if i < rest.len() {
                    assert(ps[i] == rest[i]);
                    assert(wanted.drop_last()[i] == wanted[i]);
                    assert(provides(m, wanted.drop_last()[i], rest[i]));
                } else {
                    assert(wanted[i] == wanted.last());
                }
            }
        }
    }
}

/// A host that already has every program needs no package at all.
pub proof fn law_nothing_missing_nothing_installed(needs: Seq<Prereq>, present: Seq<bool>, m: Option<Manager>, fp: Prereq)
    requires
        present.len() == needs.len() + 1,
        forall|i: int| 0 <= i < present.len() ==> #[trigger] present[i],
    ensures
        missing_of(needs, present, m, fp) == Ok::<Seq<Seq<char>>, Seq<char>>(Seq::empty()),
{
    lemma_all_present(seq![fp] + needs, present);
}

proof fn lemma_packages_err(m: Manager, wanted: Seq<Prereq>)
    ensures
        packages_for(m, wanted) is Err <==> exists|i: int| 0 <= i < wanted.len() && package_of(m, #[trigger] wanted[i]) is None,
    decreases wanted.len(),
{
    if wanted.len() > 0 {
        let rest = wanted.drop_last();
        lemma_packages_err(m, rest);
        assert forall|i: int| 0 <= i < rest.len() implies #[trigger] rest[i] == wanted[i] by {}
        if exists|i: int| 0 <= i < wanted.len() && package_of(m, #[trigger] wanted[i]) is None {
            let i = choose|i: int| 0 <= i < wanted.len() && package_of(m, #[trigger] wanted[i]) is None;
            if i < rest.len() {
                assert(package_of(m, rest[i]) is None);
            } else {
                assert(wanted[i] == wanted.last());
            }
        }
        if packages_for(m, rest) is Err {
            let i = choose|i: int| 0 <= i < rest.len() && package_of(m, #[trigger] rest[i]) is None;
            assert(package_of(m, wanted[i]) is None);
        }
    }
}

proof fn lemma_wanted(all: Seq<Prereq>, present: Seq<bool>)
    requires
        present.len() >= all.len(),
    ensures
        forall|i: int| 0 <= i < all.len() && !present[i] ==> wanted_of(all, present).contains(#[trigger] all[i]),
        forall|j: int| #![trigger wanted_of(all, present)[j]] 0 <= j < wanted_of(all, present).len() ==> exists|i: int|
            0 <= i < all.len() && !present[i] && #[trigger] all[i] == wanted_of(all, present)[j],
    decreases all.len(),
{
    if all.len() > 0 {
        let rest = all.drop_last();
        let last = all.len() - 1;
        lemma_wanted(rest, present);
        let w0 = wanted_of(rest, present);
        let w = wanted_of(all, present);
        assert forall|i: int| 0 <= i < rest.len() implies #[trigger] rest[i] == all[i] by {}
        assert forall|i: int| 0 <= i < all.len() && !present[i] implies w.contains(#[trigger] all[i]) by {
            if i < last {
                assert(w0.contains(rest[i]));
                let k = choose|k: int| 0 <= k < w0.len() && w0[k] == rest[i];
                assert(w[k] == w0[k]);
            } else {
                assert(w[w0.len() as int] == all[i]);
            }
        }
        assert forall|j: int| #![trigger w[j]] 0 <= j < w.len() implies exists|i: int|
            0 <= i < all.len() && !present[i] && #[trigger] all[i] == w[j] by {
            if j < w0.len() {
                assert(w[j] == w0[j]);
                let i = choose|i: int| 0 <= i < rest.len() && !present[i] && #[trigger] rest[i] == w0[j];
                assert(all[i] == rest[i]);
            } else {
                assert(all[last] == w[j]);
            }
        }
    }
}

/// What a host service needs installed first is decided by what is absent:
/// every program the host lacks -- `flatpak` first, then the entry's own
/// needs -- is wanted, and nothing the host has. The packages are then one per
/// wanted program, each the package the catalog names for this manager. The
/// answer is a refusal exactly when something is wanted and either the host
/// has no package manager WebDesk knows or no package is named for one of the
/// wanted programs; with nothing wanted it is the empty list.
pub proof fn law_missing_packages_follow_the_needs(needs: Seq<Prereq>, present: Seq<bool>, m: Option<Manager>, fp: Prereq)
    requires
        present.len() == needs.len() + 1,
    ensures
        ({
            let all = seq![fp] + needs;
            let wanted = wanted_of(all, present);
            &&& forall|i: int| 0 <= i < all.len() && !present[i] ==> wanted.contains(#[trigger] all[i])
            &&& forall|j: int| #![trigger wanted[j]] 0 <= j < wanted.len() ==> exists|i: int|
                0 <= i < all.len() && !present[i] && #[trigger] all[i] == wanted[j]
            &&& (wanted.len() == 0 ==> missing_of(needs, present, m, fp) == Ok::<Seq<Seq<char>>, Seq<char>>(Seq::empty()))
            &&& (missing_of(needs, present, m, fp) matches Ok(ps) ==> ps.len() == wanted.len() && forall|j: int|
                0 <= j < ps.len() ==> m is Some && #[trigger] provides(m->0, wanted[j], ps[j]))
            &&& (missing_of(needs, present, m, fp) is Err <==> wanted.len() > 0 && (m is None || exists|j: int|
                0 <= j < wanted.len() && package_of(m->0, #[trigger] wanted[j]) is None))
        }),
{
    let all = seq![fp] + needs;
    lemma_wanted(all, present);
    let wanted = wanted_of(all, present);
    if let Some(mm) = m {
        law_packages_come_from_the_catalog(mm, wanted);
        lemma_packages_err(mm, wanted);
    }
}

proof fn lemma_all_present(all: Seq<Prereq>, present: Seq<bool>)
    requires
        present.len() >= all.len(),
        forall|i: int| 0 <= i < present.len() ==> #[trigger] present[i],
    ensures
        wanted_of(all, present).len() == 0,
    decreases all.len(),
{
    if all.len() > 0 {
        lemma_all_present(all.drop_last(), present);
        assert(present[all.len() - 1]);
    }
}

} // verus!
