use webdesk::apps::{
    act_refusal, assemble, close_refusal, display_name, first_checks, hex, host_checks, host_record,
    host_without_port, kind_word, listen_port, origin_ports, package_offer, plan_install, purge_allowed,
    removal_offer, row, streamed_record, Book, Facts, HostStep, InstallReq, Installed, Opened, opened,
};
use webdesk::auth::{admin_groups, authenticate, is_admin, resolve, Account, PamStep};
use webdesk::catalog::find;
use webdesk::engine::Gpu;
use webdesk::table::Table;
use webdesk::update::{behind, check, comparable, first_line, log_tail_start, path_dirs, unavailable, updater_args};
use webdesk::web::{asset_path, cleared_cookie, download_headers, download_name, headers_for, session_cookie};

fn facts() -> Facts {
    Facts {
        uid: 1000,
        gid: 1000,
        actor: "alice".into(),
        timezone: "Europe/London".into(),
        home: Some(("/home".into(), "/home".into(), false)),
        shared_home: "/home".into(),
        fonts: Some(("/usr/share/fonts".into(), "/usr/local/share/fonts".into(), true)),
        config_dir: Some("/var/lib/webdesk/appdata/firefox".into()),
        socket_exists: false,
        gpu: Some(Gpu { node: "/dev/dri/renderD128".into(), groups: vec![105] }),
        relabel: false,
        listen_port: Some(61443),
        now: 1700000000,
    }
}

#[test]
fn a_desktop_install_is_planned_from_the_catalog_and_the_host_alone() {
    let app = find("firefox").unwrap();
    let req = InstallReq { slug: "firefox".into(), params: Table::new(), tag: String::new(), accept_packages: false };
    let book = Book::new();
    let admitted = first_checks(&app, &req, &book, &Table::new(), "/var/lib/webdesk").ok().unwrap();
    assert_eq!(admitted.tag, "latest");
    assert_eq!(admitted.port, 47000);
    let (rec, spec) = assemble(&app, admitted, &book, &facts(), &vec![]).ok().unwrap();
    assert_eq!(rec.image, "lscr.io/linuxserver/firefox:latest");
    assert_eq!(rec.port, 47000);
    assert!(rec.tls);
    assert_eq!(rec.env.get("PUID").map(String::as_str), Some("1000"));
    assert_eq!(rec.env.get("PGID").map(String::as_str), Some("1000"));
    assert_eq!(rec.env.get("TZ").map(String::as_str), Some("Europe/London"));
    assert_eq!(rec.env.get("TITLE").map(String::as_str), Some("Firefox"));
    assert_eq!(rec.devices, vec!["/dev/dri/renderD128".to_string()]);
    assert_eq!(rec.env.get("DRI_NODE").map(String::as_str), Some("/dev/dri/renderD128"));
    assert_eq!(rec.env.get("DRINODE").map(String::as_str), Some("/dev/dri/renderD128"));
    assert_eq!(spec.groups, vec![105]);
    assert_eq!(spec.shm.as_deref(), Some("1g"));
    let mounts: Vec<&str> = rec.mounts.iter().map(|m| m.1.as_str()).collect();
    assert_eq!(mounts, vec!["/home", "/usr/local/share/fonts", "/config"]);
    assert_eq!(rec.actor, "alice");
    assert!(rec.unit.is_none() && rec.flatpak.is_none());
    let args = spec.args();
    assert_eq!(args.last().unwrap(), "lscr.io/linuxserver/firefox:latest");
}

#[test]
fn without_a_render_node_neither_node_variable_is_sent() {
    let app = find("firefox").unwrap();
    let req = InstallReq { slug: "firefox".into(), params: Table::new(), tag: String::new(), accept_packages: false };
    let book = Book::new();
    let admitted = first_checks(&app, &req, &book, &Table::new(), "/var/lib/webdesk").ok().unwrap();
    let f = Facts { gpu: None, ..facts() };
    let (rec, spec) = assemble(&app, admitted, &book, &f, &vec![]).ok().unwrap();
    assert!(rec.env.get("DRI_NODE").is_none());
    assert!(rec.env.get("DRINODE").is_none());
    assert!(rec.devices.is_empty());
    assert!(spec.groups.is_empty());
}

#[test]
fn an_unoffered_tag_and_a_second_install_are_refused() {
    let app = find("firefox").unwrap();
    let bad = InstallReq { slug: "firefox".into(), params: Table::new(), tag: "nightly".into(), accept_packages: false };
    let r = first_checks(&app, &bad, &Book::new(), &Table::new(), "/var/lib/webdesk");
    assert!(matches!(r, Err(ref e) if e.status == 400 && e.message == "nightly is not an offered tag"));
    let mut book = Book::new();
    book.apps.insert("firefox".into(), Installed::blank("firefox"));
    let again = InstallReq { slug: "firefox".into(), params: Table::new(), tag: "develop".into(), accept_packages: false };
    let r = first_checks(&app, &again, &book, &Table::new(), "/var/lib/webdesk");
    assert!(matches!(r, Err(ref e) if e.status == 409 && e.message == "Firefox is already installed"));
}

#[test]
fn generated_keys_are_fresh_and_recorded_as_secrets() {
    let app = find("vscodium-web").unwrap();
    let req = InstallReq { slug: "vscodium-web".into(), params: Table::new(), tag: String::new(), accept_packages: false };
    let book = Book::new();
    let admitted = first_checks(&app, &req, &book, &Table::new(), "/var/lib/webdesk").ok().unwrap();
    let f = Facts { config_dir: None, gpu: None, ..facts() };
    let (rec, _) = plan_install(&app, admitted, &book, &f).ok().unwrap();
    for key in app.generated.iter() {
        let v = rec.env.get(key).unwrap();
        assert_eq!(v.len(), 64);
        assert!(v.chars().all(|c| c.is_ascii_digit() || ('a'..='f').contains(&c)));
        assert!(rec.secrets.contains(&key.to_string()));
    }
}

#[test]
fn a_host_service_is_adopted_or_provided_or_refused() {
    let app = find("term-hut-host").unwrap();
    let book = Book::new();
    assert!(matches!(host_checks(&app, &book, true, false, true), Ok(HostStep::Adopt)));
    assert!(matches!(host_checks(&app, &book, true, false, false), Ok(HostStep::Provide)));
    let no_systemd = host_checks(&app, &book, false, false, false);
    assert!(matches!(no_systemd, Err(ref e) if e.message.contains("has no systemd")));
    let busy = host_checks(&app, &book, true, true, false);
    assert!(matches!(busy, Err(ref e) if e.message == "another install is already running"));
    let rec = host_record(&app, "webdesk-term-hut.service", "alice", 5);
    assert_eq!(rec.port, app.port);
    assert_eq!(kind_word(&rec), "host service");
}

#[test]
fn consent_to_host_packages_is_asked_in_the_catalogs_words() {
    let app = find("term-hut-host").unwrap();
    let (error, manager, detail) = package_offer(&app, &vec!["flatpak".into(), "cage".into()], Some("dnf"));
    assert!(error.ends_with("needs flatpak, cage on this host, which is not installed."));
    assert_eq!(manager, "dnf");
    assert!(detail.starts_with("WebDesk can install flatpak, cage with dnf, then install "));
}

#[test]
fn removing_a_streamed_app_asks_first_unless_it_was_found_here() {
    let ours = streamed_record("gimp", "org.gimp.GIMP", "alice", 1, false);
    let (e, id, _) = removal_offer(&ours, "GIMP", false).unwrap();
    assert_eq!(id, "org.gimp.GIMP");
    assert!(e.contains("uninstalls it for everyone"));
    assert!(removal_offer(&ours, "GIMP", true).is_none());
    let found = streamed_record("gimp", "org.gimp.GIMP", "alice", 1, true);
    assert!(removal_offer(&found, "GIMP", false).is_none());
    assert_eq!(kind_word(&found), "streamed app");
    assert!(act_refusal(&found, "gimp", "stop").unwrap().contains("nothing host-wide to stop"));
    assert!(close_refusal(&found, "gimp").is_none());
    assert!(close_refusal(&Installed::blank("firefox"), "firefox").is_some());
}

#[test]
fn opening_says_how_the_desk_shows_an_app() {
    let s = streamed_record("gimp", "org.gimp.GIMP", "alice", 1, false);
    assert!(matches!(opened(true, None, &s), Opened::Rfb { ws } if ws == "/ws/rfb/gimp"));
    assert!(matches!(opened(true, None, &Installed::blank("firefox")), Opened::Frame { url } if url == "/app/firefox/"));
}

#[test]
fn the_dock_row_never_echoes_a_secret() {
    let mut a = Installed::blank("vscodium-web");
    a.env.insert("CONNECTION_TOKEN".into(), "hunter2".into());
    a.env.insert("DEFAULT_WORKSPACE".into(), "/home".into());
    a.secrets.push("CONNECTION_TOKEN".into());
    let app = find("vscodium-web").unwrap();
    let r = row(&a, Some(&app), false, Some("desk"));
    assert_eq!(r.env, vec![("DEFAULT_WORKSPACE".to_string(), "/home".to_string())]);
    assert_eq!(r.transport, "frame");
    assert_eq!(r.url.as_deref(), Some("/app/vscodium-web/"));
    let gone = row(&Installed::blank("intellij-idea"), None, false, None);
    assert_eq!(gone.name, "intellij-idea");
    assert_eq!(gone.icon, "a-box");
    assert_eq!(display_name("intellij-idea", None), "intellij-idea");
}

#[test]
fn only_a_sane_slug_is_ever_purged() {
    assert!(purge_allowed("firefox"));
    assert!(purge_allowed("local_send-2"));
    assert!(!purge_allowed("../etc"));
    assert!(!purge_allowed("a/b"));
}

#[test]
fn the_listen_port_is_the_number_after_the_last_colon() {
    assert_eq!(listen_port("0.0.0.0:61443"), Some(61443));
    assert_eq!(listen_port("[::]:7788"), Some(7788));
    assert_eq!(listen_port("localhost"), None);
    assert_eq!(host_without_port("desk.example.net:61443"), "desk.example.net");
    assert_eq!(host_without_port("[::1]"), "[::1]");
}

#[test]
fn only_apps_with_an_origin_get_a_listener_at_start() {
    let mut book = Book::new();
    book.apps.insert("a".into(), Installed { origin_port: Some(61444), ..Installed::blank("a") });
    book.apps.insert("b".into(), Installed::blank("b"));
    assert_eq!(origin_ports(&book), vec![("a".to_string(), 61444)]);
}

#[test]
fn secrets_are_written_as_lower_case_hex() {
    assert_eq!(hex(&[0x00, 0x0f, 0xa5, 0xff]), "000fa5ff");
}

#[test]
fn the_admin_groups_are_read_from_a_comma_list() {
    assert_eq!(admin_groups(None), vec!["wheel", "sudo"]);
    assert_eq!(admin_groups(Some(" adm , ,wheel ")), vec!["adm", "wheel"]);
    assert!(admin_groups(Some("")).is_empty());
}

#[test]
fn an_administrator_is_in_a_group_that_exists() {
    assert!(is_admin(&vec![Some(10), None], Some(&vec![1000, 10])));
    assert!(!is_admin(&vec![Some(10), None], Some(&vec![1000])));
    assert!(!is_admin(&vec![None, None], Some(&vec![0, 10])));
    assert!(!is_admin(&vec![Some(10)], None));
}

#[test]
fn root_never_opens_a_session() {
    let root = Account { name: "root".into(), uid: 0, gid: 0, home: Some("/root".into()) };
    assert_eq!(resolve("root", Some(root), true).err().as_deref(), Some("refusing to open a session for root"));
    assert_eq!(resolve("ghost", None, false).err().as_deref(), Some("no such account: ghost"));
    let alice = Account { name: "alice".into(), uid: 1000, gid: 1000, home: Some("/home/alice".into()) };
    let i = resolve("alice", Some(alice), true).ok().unwrap();
    assert_eq!((i.username.as_str(), i.uid, i.home.as_str(), i.admin), ("alice", 1000, "/home/alice", true));
}

#[test]
fn a_failed_pam_step_is_named() {
    assert_eq!(authenticate(PamStep::Start, 4, true, "").err().as_deref(), Some("pam_start failed (code 4)"));
    assert_eq!(
        authenticate(PamStep::Authenticate, 7, true, "Authentication failure").err().as_deref(),
        Some("authentication failed: Authentication failure")
    );
    assert_eq!(authenticate(PamStep::Account, 13, true, "expired").err().as_deref(), Some("account unavailable: expired"));
    assert!(authenticate(PamStep::Account, 0, true, "").is_ok());
}

#[test]
fn updates_are_refused_where_they_cannot_work() {
    assert_eq!(
        unavailable(Some("OFF"), true, "/usr/local/libexec/webdesk-update", true).as_deref(),
        Some("updates are disabled on this host (WD_UPDATE=off)")
    );
    assert_eq!(unavailable(None, false, "/x", true).as_deref(), Some("the service is not running as root"));
    assert_eq!(unavailable(Some(""), true, "/x", false).as_deref(), Some("no updater installed at /x"));
    assert!(unavailable(None, true, "/x", true).is_none());
}

#[test]
fn a_build_is_behind_only_when_it_can_be_compared() {
    assert!(!comparable("unknown"));
    assert!(!comparable("abc123-dirty"));
    assert!(behind("abc123", "def456"));
    assert!(!behind("abc123", "abc123"));
    assert!(!behind("abc123-dirty", "def456"));
    assert_eq!(first_line("Fix the thing\r\n\nLonger body"), "Fix the thing");
    assert_eq!(first_line(""), "");
    assert!(check("abc", "", "m", "d").is_err());
    let c = check("abc", "def", "subject\nbody", "2024-01-01").ok().unwrap();
    assert!(c.behind && c.comparable);
    assert_eq!(c.message, "subject");
}

#[test]
fn the_update_log_tail_is_bounded() {
    assert_eq!(log_tail_start(10), 0);
    assert_eq!(log_tail_start(65536 + 10), 10);
}

#[test]
fn the_updater_is_told_who_asked() {
    let a = updater_args("alice", "abc", "/usr/local/libexec/webdesk-update");
    assert!(a.contains(&"WD_UPDATE_ACTOR=alice".to_string()));
    assert!(a.contains(&"WD_UPDATE_FROM=abc".to_string()));
    assert_eq!(a.last().unwrap(), "/usr/local/libexec/webdesk-update");
    assert_eq!(path_dirs(Some("/usr/bin::/bin")), vec!["/usr/bin", "/bin"]);
}

#[test]
fn the_session_cookie_is_set_and_cleared_the_same_way() {
    assert_eq!(session_cookie("abc"), "wd_session=abc; HttpOnly; SameSite=Strict; Path=/");
    assert_eq!(cleared_cookie(), "wd_session=; HttpOnly; SameSite=Strict; Path=/; Max-Age=0");
}

#[test]
fn a_download_is_named_by_the_last_part_of_its_path() {
    assert_eq!(download_name("/home/alice/notes.txt"), "notes.txt");
    assert_eq!(download_name("README"), "README");
    let (t, d) = headers_for("/home/alice/a.pdf", "application/pdf");
    assert_eq!(t, "application/pdf");
    assert_eq!(d, "inline; filename=\"a.pdf\"");
    let (t, _) = download_headers("/home/alice/README");
    assert_eq!(t, "application/octet-stream");
    let (t, _) = download_headers("/home/alice/page.html");
    assert_eq!(t, "text/html");
}

#[test]
fn the_root_serves_the_index_page() {
    assert_eq!(asset_path("/"), "index.html");
    assert_eq!(asset_path("//app.js"), "app.js");
}

#[test]
fn two_people_never_share_a_socket() {
    assert_eq!(webdesk::rfb::socket_path(1000, "gimp"), "/run/webdesk/rfb/1000/gimp.sock");
    assert_ne!(webdesk::rfb::socket_path(1000, "gimp"), webdesk::rfb::socket_path(100, "0/gimp"));
}
