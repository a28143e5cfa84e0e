use webdesk::apps::{
    app_url, check_path, check_scalar, fresh_secret, free_port, missing_deps, openable, origin_url_in,
    streamed_checks, streamed_record, StreamedCheck, timezone, upstream_in, user_session, validate, Book, Found,
    Installed, Manager, MAX_VALUE, PORT_HIGH, PORT_LOW,
};
use webdesk::auth::Identity;
use webdesk::catalog::{catalog, find, App, Kind, Param};
use webdesk::deps::{absent_for, Dep, Need};
use webdesk::table::Table;

const STATE: &str = "/var/lib/webdesk";

fn answers(pairs: &[(&str, &str)]) -> Table<String> {
    let mut t = Table::new();
    for (k, v) in pairs {
        t.insert(k.to_string(), v.to_string());
    }
    t
}

fn nowhere() -> Found {
    Found::Missing("No such file or directory (os error 2)".to_string())
}

fn no_paths() -> Table<Found> {
    Table::new()
}

/// A catalog entry with nothing interesting in it, for tests about a rule
/// rather than about a particular application.
fn demo_app() -> App {
    App {
        slug: "demo",
        name: "Demo",
        tagline: "",
        image: "example/demo",
        port: 80,
        icon: "a-box",
        host: None,
        streamed: None,
        base: None,
        needs_origin: false,
        config_at: Some("/config"),
        env: vec![],
        generated: vec![],
        lsio: true,
        ids: true,
        socket: None,
        shm: None,
        draws: false,
        title: None,
        tls: false,
        notes: "",
        params: vec![],
    }
}

/// An entry of the shape `needs_origin` exists for.
fn origin_app() -> App {
    App {
        slug: "origin-demo",
        needs_origin: true,
        base: None,
        lsio: false,
        ids: true,
        params: vec![Param {
            key: "WD_ORIGIN_PORT",
            label: "Port to serve it on",
            help: "",
            kind: Kind::Port,
            default: "61444",
            required: true,
        }],
        ..demo_app()
    }
}

fn ident(username: &str, uid: u32) -> Identity {
    Identity { username: username.into(), uid, gid: uid, home: format!("/home/{username}"), admin: false }
}

fn streamed(slug: &str, id: &str) -> Installed {
    Installed { flatpak: Some(id.into()), ..Installed::blank(slug) }
}

#[test]
fn a_relative_path_is_refused() {
    assert!(check_path("etc/passwd", &nowhere(), STATE).is_err());
    assert!(check_path("", &nowhere(), STATE).is_err());
}

#[test]
fn a_path_with_a_parent_step_is_refused() {
    let found = Found::At { canonical: "/etc".into(), is_dir: true };
    assert!(check_path("/var/tmp/../../etc", &found, STATE).is_err());
}

#[test]
fn a_path_with_a_colon_is_refused() {
    let found = Found::At { canonical: "/tmp/x:/etc".into(), is_dir: true };
    assert!(check_path("/tmp/x:/etc", &found, STATE).is_err());
}

#[test]
fn a_path_that_does_not_exist_is_refused() {
    assert!(check_path("/definitely/not/here/at/all", &nowhere(), STATE).is_err());
}

#[test]
fn the_root_of_the_filesystem_is_refused() {
    let found = Found::At { canonical: "/".into(), is_dir: true };
    assert!(check_path("/", &found, STATE).is_err());
}

#[test]
fn a_control_character_is_refused() {
    assert!(check_scalar("two\nlines").is_err());
    assert!(check_scalar(&"x".repeat(MAX_VALUE + 1)).is_err());
    assert!(check_scalar("Europe/London").is_ok());
}

#[test]
fn a_key_the_catalog_did_not_declare_never_reaches_the_engine() {
    let app = find("firefox").unwrap();
    let got = validate(
        &app,
        &answers(&[
            ("TZ", "Europe/London"),
            ("TITLE", "not-firefox"),
            ("PUID", "0"),
            ("PATH", "/evil"),
            ("LD_PRELOAD", "/evil.so"),
            ("SELKIES_ENCODER", "nonsense"),
            ("PASSWORD", "sneaky"),
        ]),
        &no_paths(),
        STATE,
    )
    .unwrap();
    assert!(got.env.len() == 0, "a desktop entry accepted a variable");
    assert!(got.mounts.is_empty());
}

#[test]
fn an_unanswered_optional_parameter_is_simply_absent() {
    let app = find("vscodium-web").unwrap();
    let got = validate(&app, &answers(&[]), &no_paths(), STATE).unwrap();
    assert!(!got.env.contains_key("CONNECTION_TOKEN"));
    assert!(!got.env.contains_key("SUDO_PASSWORD"));
}

#[test]
fn a_desktop_app_installs_without_asking_anything() {
    for slug in ["firefox", "helium", "onlyoffice", "inkscape"] {
        let a = find(slug).unwrap();
        assert_eq!(a.all_params().len(), 0, "{slug} still asks something");
        assert_eq!(a.title, Some(a.name), "{slug}");
        assert!(
            !a.title.unwrap().contains('-') || a.name.contains('-'),
            "{slug} looks like it is being told its slug"
        );
    }
}

#[test]
fn the_timezone_comes_off_the_host() {
    let cases = [
        timezone(Some("/usr/share/zoneinfo/Europe/London"), None),
        timezone(Some("../usr/share/zoneinfo/America/New_York"), Some((true, "Etc/UTC\n"))),
        timezone(None, Some((true, "Asia/Tokyo\n"))),
        timezone(Some("/etc/alternatives/localtime"), Some((false, ""))),
        timezone(None, None),
    ];
    for tz in cases.iter() {
        assert!(!tz.is_empty());
        assert!(!tz.starts_with('/'), "{tz} looks like a path, not a zone");
        assert!(tz == "Etc/UTC" || tz.contains('/'), "{tz} is not an IANA name");
    }
    assert_eq!(cases[0], "Europe/London");
    assert_eq!(cases[1], "America/New_York");
    assert_eq!(cases[2], "Asia/Tokyo");
    assert_eq!(cases[3], "Etc/UTC");
    assert_eq!(cases[4], "Etc/UTC");
}

#[test]
fn a_missing_required_parameter_stops_the_install() {
    let app = App {
        params: vec![Param {
            key: "NEEDED",
            label: "Needed",
            help: "",
            kind: Kind::Text,
            default: "",
            required: true,
        }],
        ..demo_app()
    };
    match validate(&app, &answers(&[]), &no_paths(), STATE) {
        Ok(_) => panic!("a missing required parameter was accepted"),
        Err(e) => assert!(e.contains("required"), "{e}"),
    }
}

#[test]
fn a_secret_is_recorded_as_one_so_it_is_never_echoed_back() {
    let app = find("vscodium-web").unwrap();
    let got = validate(&app, &answers(&[("CONNECTION_TOKEN", "hunter2")]), &no_paths(), STATE).unwrap();
    assert!(got.secrets.contains(&"CONNECTION_TOKEN".to_string()));
    assert_eq!(got.env.get("CONNECTION_TOKEN").map(String::as_str), Some("hunter2"));
}

#[test]
fn an_app_that_must_be_told_its_prefix_is_told_it_correctly() {
    let vsc = find("vscodium-web").unwrap();
    assert_eq!(
        vsc.base_value("/app/vscodium-web"),
        Some(("CODE_ARGS", "--server-base-path=/app/vscodium-web".to_string()))
    );
    assert_eq!(find("firefox").unwrap().base_value("/app/firefox"), None);
}

#[test]
fn the_terminal_is_never_told_a_prefix_the_proxy_has_already_stripped() {
    let hut = find("term-hut-host").unwrap();
    assert_eq!(hut.base_value("/app/term-hut-host"), None);
}

#[test]
fn a_host_entry_carries_nothing_a_container_would_need() {
    for a in catalog().iter().filter(|a| a.host.is_some()) {
        assert!(a.image.is_empty(), "{} is a host service with an image", a.slug);
        assert!(a.config_at.is_none(), "{} would be given a mount", a.slug);
        assert!(a.socket.is_none(), "{} would be given the engine socket", a.slug);
        assert!(a.shm.is_none(), "{}'s shm size would go nowhere", a.slug);
        assert!(!a.lsio && !a.ids, "{} would be sent settings nothing reads", a.slug);
        assert!(a.env.is_empty(), "{}'s environment would go nowhere", a.slug);
        assert!(a.generated.is_empty(), "{} would generate a key for nobody", a.slug);
        assert!(a.title.is_none(), "{} cannot be told what to call itself", a.slug);
        assert!(!a.needs_origin, "{} would ask for a port it does not choose", a.slug);
        assert_eq!(a.all_params().len(), 0, "{} asks a question it cannot apply", a.slug);
        assert!(!a.host.as_ref().unwrap().unit.is_empty(), "{} names no unit", a.slug);
    }
}

#[test]
fn a_host_service_port_is_out_of_reach_of_the_container_allocator() {
    for a in catalog().iter().filter(|a| a.host.is_some()) {
        assert!(
            !(PORT_LOW..=PORT_HIGH).contains(&a.port),
            "{} sits on {} inside the range free_port hands out",
            a.slug,
            a.port
        );
    }
}

#[test]
fn no_two_host_entries_claim_the_same_port() {
    let all = catalog();
    let hosts: Vec<&App> = all.iter().filter(|a| a.host.is_some()).collect();
    for (i, a) in hosts.iter().enumerate() {
        for b in hosts.iter().skip(i + 1) {
            assert_ne!(a.port, b.port, "{} and {} both expect port {}", a.slug, b.slug, a.port);
        }
    }
}

#[test]
fn the_desktop_apps_get_enough_shared_memory() {
    for slug in ["firefox", "helium", "onlyoffice", "inkscape"] {
        let a = find(slug).unwrap_or_else(|| panic!("{slug} missing"));
        assert_eq!(a.shm, Some("1g"), "{slug}");
        assert_eq!(a.port, 3001, "{slug}");
        assert!(a.tls, "{slug} is on 3001 but not marked tls");
    }
}

#[test]
fn only_the_desktop_apps_expect_tls() {
    for a in catalog().iter() {
        assert_eq!(a.tls, a.port == 3001, "{} disagrees about its scheme", a.slug);
    }
}

#[test]
fn only_the_drawing_apps_ask_for_a_render_node() {
    for a in catalog().iter() {
        assert_eq!(a.draws, a.port == 3001, "{} disagrees about drawing", a.slug);
    }
}

#[test]
fn a_host_service_is_never_given_a_device() {
    for a in catalog().iter().filter(|a| a.host.is_some()) {
        assert!(!a.draws, "{}'s render node would go nowhere", a.slug);
    }
}

#[test]
fn ports_are_handed_out_without_collision() {
    let mut book = Book::new();
    let first = free_port(&book).unwrap();
    book.apps.insert("a".into(), Installed { port: first, ..Installed::blank("a") });
    assert_ne!(free_port(&book).unwrap(), first);
}

#[test]
fn every_catalog_entry_is_well_formed() {
    let all = catalog();
    for (i, a) in all.iter().enumerate() {
        assert!(all.iter().skip(i + 1).all(|b| b.slug != a.slug), "duplicate slug {}", a.slug);
        assert!(
            a.slug.chars().all(|c| c.is_ascii_lowercase() || c.is_ascii_digit() || c == '-'),
            "{} is not a safe slug",
            a.slug
        );
        assert!(!a.image.contains(':'), "{} should carry no tag", a.slug);
        assert_eq!(
            a.image.is_empty(),
            a.host.is_some() || a.streamed.is_some(),
            "{} is a container with no image, or a host service or streamed entry with one",
            a.slug
        );
        if a.streamed.is_none() {
            assert!(a.port > 0, "{} has no port", a.slug);
        }
        if let Some(at) = a.config_at {
            assert!(at.starts_with('/'), "{}'s state directory is not absolute", a.slug);
        }
        for p in a.params.iter() {
            if let Kind::HostPath { at, .. } = p.kind {
                assert_ne!(Some(at), a.config_at, "{} must not mount its own state dir", a.slug);
            }
        }
        if let Some(b) = &a.base {
            assert!(b.template.contains("{prefix}"), "{} has a base with no {{prefix}}", a.slug);
        }
        if a.lsio {
            assert!(a.ids, "{} follows the lsio contract but is not sent PUID/PGID", a.slug);
        }
    }
}

#[test]
fn no_shipping_entry_is_given_the_engine_socket() {
    let all = catalog();
    let with: Vec<&str> = all.iter().filter(|a| a.socket.is_some()).map(|a| a.slug).collect();
    assert!(with.is_empty(), "an entry took the engine socket: {with:?}");
}

#[test]
fn an_app_given_an_origin_is_told_no_prefix() {
    let app = origin_app();
    assert!(app.needs_origin);
    assert_eq!(app.base_value("/app/origin-demo"), None);
}

#[test]
fn an_app_that_needs_an_origin_asks_which_port_and_nothing_else_does() {
    for a in catalog().iter() {
        let asks = a.params.iter().any(|p| matches!(p.kind, Kind::Port));
        assert_eq!(asks, a.needs_origin, "{}: needs_origin={} but asks for a port={}", a.slug, a.needs_origin, asks);
    }
}

#[test]
fn a_port_is_ignored_on_an_entry_that_did_not_ask_for_an_origin() {
    let app = App {
        needs_origin: false,
        params: vec![Param {
            key: "WD_ORIGIN_PORT",
            label: "Port",
            help: "",
            kind: Kind::Port,
            default: "61444",
            required: false,
        }],
        ..demo_app()
    };
    let got = validate(&app, &answers(&[("WD_ORIGIN_PORT", "61444")]), &no_paths(), STATE).unwrap();
    assert_eq!(got.origin_port, None, "a port was taken from an entry that never asked");
}

#[test]
fn a_port_answer_is_a_number_above_the_reserved_range() {
    let app = &origin_app();
    let got = validate(app, &answers(&[]), &no_paths(), STATE).unwrap();
    assert_eq!(got.origin_port, Some(61444));
    assert!(got.env.len() == 0, "the port reached the container");

    assert_eq!(
        validate(app, &answers(&[("WD_ORIGIN_PORT", "8443")]), &no_paths(), STATE).unwrap().origin_port,
        Some(8443)
    );
    for bad in ["80", "443", "1023", "0"] {
        assert!(validate(app, &answers(&[("WD_ORIGIN_PORT", bad)]), &no_paths(), STATE).is_err(), "{bad} was accepted");
    }
    assert!(validate(app, &answers(&[("WD_ORIGIN_PORT", "not-a-port")]), &no_paths(), STATE).is_err());
    assert!(validate(app, &answers(&[("WD_ORIGIN_PORT", "70000")]), &no_paths(), STATE).is_err());
}

#[test]
fn an_origin_app_is_opened_at_the_host_the_browser_used() {
    let rec = Installed { origin_port: Some(61444), ..Installed::blank("origin-demo") };
    assert_eq!(app_url(true, Some("desk.example.net:61443"), &rec), "https://desk.example.net:61444/");
    assert_eq!(app_url(true, Some("desk.example.net"), &rec), "https://desk.example.net:61444/");
    assert_eq!(app_url(true, Some("[::1]:61443"), &rec), "https://[::1]:61444/");
    assert_eq!(app_url(false, Some("[::1]:61443"), &rec), "http://[::1]:61444/");
    let plain = Installed { origin_port: None, ..Installed::blank("firefox") };
    assert_eq!(app_url(true, Some("[::1]:61443"), &plain), "/app/firefox/");
}

#[test]
fn a_generated_key_is_never_also_a_question() {
    for a in catalog().iter() {
        for key in a.generated.iter() {
            assert!(!a.params.iter().any(|p| p.key == *key), "{} both asks for and generates {key}", a.slug);
        }
        for (key, _) in a.env.iter() {
            assert!(!a.params.iter().any(|p| p.key == *key), "{} both asks for and fixes {key}", a.slug);
        }
    }
}

#[test]
fn the_signing_key_is_random_and_not_a_constant() {
    let (a, b) = (fresh_secret(), fresh_secret());
    assert_ne!(a, b);
    assert_eq!(a.len(), 64);
    assert!(a.chars().all(|c| c.is_ascii_hexdigit()));
}

#[test]
fn the_proxy_is_never_given_a_way_to_reach_a_streamed_app() {
    let mut book = Book::new();
    book.apps.insert("gimp".into(), streamed("gimp", "org.gimp.GIMP"));
    book.apps.insert("firefox".into(), Installed { port: 47000, tls: true, ..Installed::blank("firefox") });

    assert_eq!(upstream_in(&book, "gimp"), None);
    assert_eq!(upstream_in(&book, "firefox"), Some((47000, true)));
    assert_eq!(origin_url_in(true, Some("desk.example.net:61443"), &book, "gimp"), None);
}

#[test]
fn a_streamed_record_is_not_mistaken_for_a_container() {
    assert!(matches!(streamed("gimp", "org.gimp.GIMP").manager(), Manager::Session(id) if id == "org.gimp.GIMP"));
    assert!(matches!(Installed::blank("firefox").manager(), Manager::Engine));
    assert!(matches!(
        Installed { unit: Some("webdesk-term-hut.service".into()), ..Installed::blank("term-hut-host") }.manager(),
        Manager::Host(u) if u == "webdesk-term-hut.service"
    ));
}

#[test]
fn a_streamed_install_refuses_a_host_that_has_not_got_what_it_needs() {
    let cage = Dep {
        key: "cage",
        label: "Cage",
        why: "Without it there is no compositor to draw the application into.",
        need: Need::Streamed,
        prereq: webdesk::catalog::Prereq { bin: "cage", dnf: Some("cage"), apt: Some("cage"), pacman: Some("cage"), zypper: None },
    };
    let deps = vec![cage];
    let absent = absent_for(&deps, &vec![false], Need::Streamed);
    assert_eq!(absent, vec![0]);
    assert!(matches!(streamed_checks(&demo_app(), &Book::new(), false, absent.len()), StreamedCheck::MissingDeps));
    assert!(matches!(streamed_checks(&demo_app(), &Book::new(), false, 0), StreamedCheck::Go));
    let labels: Vec<String> = absent.iter().map(|i| deps[*i].label.to_string()).collect();
    let (error, detail) = missing_deps(&demo_app(), &labels);
    assert!(error.contains("Cage"), "{error}");
    assert_eq!(deps[absent[0]].key, "cage");
    assert!(detail.contains("Demo"));
}

#[test]
fn open_refuses_what_is_not_installed_and_what_it_could_not_start() {
    let refusal = |book: &Book, slug: &str| match openable(book, slug) {
        Ok(_) => panic!("{slug} was allowed to open"),
        Err(e) => e,
    };

    let mut book = Book::new();
    assert!(refusal(&book, "nothing-here").contains("not installed"));

    book.apps.insert("gone-away".into(), streamed("gone-away", "org.example.Gone"));
    let e = refusal(&book, "gone-away");
    assert!(e.contains("catalog"), "{e}");

    book.apps.insert("gone-container".into(), Installed { port: 47000, ..Installed::blank("gone-container") });
    assert!(openable(&book, "gone-container").is_ok());
}

#[test]
fn the_socket_path_is_built_from_the_session_and_never_from_the_request() {
    let slug = "gimp";
    let (mine, unit) = user_session(&ident("alice", 1000), slug);
    let (theirs, _) = user_session(&ident("bob", 1001), slug);

    assert_eq!(mine, webdesk::rfb::socket_path(1000, "gimp"));
    assert_eq!(theirs, webdesk::rfb::socket_path(1001, "gimp"));
    assert_ne!(mine, theirs, "two people would share one screen");
    assert_eq!(unit, webdesk::systemd::app_unit("gimp"));
    assert!(std::path::Path::new(&mine).starts_with(webdesk::rfb::socket_dir(1000)));
}

#[test]
fn a_flatpak_this_host_already_had_is_marked_so_removal_can_leave_it() {
    let ours = streamed("gimp", "org.gimp.GIMP");
    assert!(!ours.adopted, "a record must default to WebDesk having installed it");

    let theirs = streamed_record("gimp", "org.gimp.GIMP", "", 0, true);
    assert!(matches!(theirs.manager(), Manager::Session(_)));
    for r in [&ours, &theirs] {
        assert!(r.image.is_empty());
        assert_eq!(r.port, 0);
        assert!(!r.tls);
        assert!(r.unit.is_none());
        assert!(r.origin_port.is_none());
        assert!(r.mounts.is_empty() && r.devices.is_empty() && r.env.len() == 0);
    }
}

#[test]
fn a_streamed_entry_carries_nothing_the_proxy_could_read() {
    for a in catalog().iter().filter(|a| a.streamed.is_some()) {
        assert!(a.image.is_empty(), "{} is streamed and names an image", a.slug);
        assert_eq!(a.port, 0, "{} would be dialled at a port it does not have", a.slug);
        assert!(!a.tls, "{} would have the proxy attempt a handshake", a.slug);
        assert!(!a.needs_origin, "{} would open a listener for nothing", a.slug);
        assert!(a.base.is_none(), "{} would be told a prefix nothing serves", a.slug);
        assert!(a.host.is_none(), "{} is two kinds of entry at once", a.slug);
        assert!(a.config_at.is_none(), "{} would be given a mount", a.slug);
        assert!(a.socket.is_none(), "{} would be given the engine socket", a.slug);
        assert!(a.shm.is_none(), "{}'s shm size would go nowhere", a.slug);
        assert!(!a.lsio && !a.ids, "{} would be sent settings nothing reads", a.slug);
        assert!(!a.draws, "{}'s render node would go nowhere", a.slug);
        assert_eq!(a.all_params().len(), 0, "{} asks a question it cannot apply", a.slug);
        assert!(!a.streamed.as_ref().unwrap().flatpak.id.is_empty(), "{} names no application to install", a.slug);
    }
}

#[test]
fn a_taken_origin_port_is_refused_naming_the_first_holder() {
    let app = origin_app();
    let mut book = Book::new();
    for slug in ["zed", "alpha"] {
        let mut r = Installed::blank(slug);
        r.origin_port = Some(61444);
        r.port = if slug == "zed" { 47001 } else { 47002 };
        book.apps.insert(slug.to_string(), r);
    }
    let req = webdesk::apps::InstallReq {
        slug: "origin-demo".into(),
        params: answers(&[("WD_ORIGIN_PORT", "61444")]),
        tag: String::new(),
        accept_packages: false,
    };
    let admitted = webdesk::apps::first_checks(&app, &req, &book, &no_paths(), STATE).ok().unwrap();
    let facts = webdesk::apps::Facts {
        uid: 1000,
        gid: 1000,
        actor: "alice".into(),
        timezone: String::new(),
        home: None,
        shared_home: "/home".into(),
        fonts: None,
        config_dir: None,
        socket_exists: false,
        gpu: None,
        relabel: false,
        listen_port: Some(61443),
        now: 0,
    };
    let e = webdesk::apps::plan_install(&app, admitted, &book, &facts).err().unwrap();
    assert_eq!(e.status, 409);
    assert_eq!(e.message, "port 61444 is already serving alpha");
}
