use webdesk::apps::{host_checks, origin_ports, removal_plan, validate, Book, Installed};
use webdesk::catalog::find;
use webdesk::table::Table;

#[test]
fn origin_listeners_come_back_once_each_in_slug_order() {
    let mut book = Book::new();
    let mut z = Installed::blank("zeta");
    z.origin_port = Some(61500);
    let mut a = Installed::blank("alpha");
    a.origin_port = Some(61400);
    book.apps.insert("zeta".into(), z);
    book.apps.insert("mid".into(), Installed::blank("mid"));
    book.apps.insert("alpha".into(), a);
    assert_eq!(
        origin_ports(&book),
        vec![("alpha".to_string(), 61400), ("zeta".to_string(), 61500)]
    );
}

#[test]
fn a_secret_answer_is_a_variable_and_a_secret() {
    let app = find("vscodium-web").unwrap();
    let mut given = Table::new();
    given.insert("CONNECTION_TOKEN".to_string(), "  hunter2 ".to_string());
    given.insert("NOT_DECLARED".to_string(), "x".to_string());
    let a = validate(&app, &given, &Table::new(), "/var/lib/webdesk").ok().unwrap();
    assert_eq!(a.env.get("CONNECTION_TOKEN").map(String::as_str), Some("hunter2"));
    assert!(a.env.get("NOT_DECLARED").is_none());
    assert_eq!(a.secrets, vec!["CONNECTION_TOKEN".to_string()]);
    assert!(a.mounts.is_empty());
}

#[test]
fn the_first_parameter_that_refuses_gives_the_refusal() {
    let app = find("vscodium-web").unwrap();
    let mut given = Table::new();
    given.insert("DEFAULT_WORKSPACE".to_string(), "relative/dir".to_string());
    given.insert("SUDO_PASSWORD".to_string(), "a\u{7}b".to_string());
    let e = validate(&app, &given, &Table::new(), "/var/lib/webdesk").err().unwrap();
    assert_eq!(e, "relative/dir is not an absolute path");
}

#[test]
fn the_shipped_desktop_entries_are_what_the_catalog_says() {
    for slug in ["helium", "firefox", "onlyoffice", "inkscape"] {
        let a = find(slug).unwrap();
        assert_eq!(a.image, format!("lscr.io/linuxserver/{slug}"));
        assert_eq!(a.shm, Some("1g"));
        assert_eq!(a.port, 3001);
        assert!(a.tls && a.draws && a.all_params().is_empty());
        assert_eq!(a.title, Some(a.name));
    }
}

#[test]
fn a_removal_plan_follows_the_record() {
    let container = Installed::blank("helium");
    let p = removal_plan(&container, "helium", "Helium", true, false).ok().unwrap();
    assert!(p.remove_container && p.stop_unit.is_none() && p.uninstall.is_none() && p.note.is_none() && p.purge);

    let mut streamed = Installed::blank("gimp");
    streamed.flatpak = Some("org.gimp.GIMP".to_string());
    let offer = removal_plan(&streamed, "gimp", "GIMP", false, false).err().unwrap();
    assert_eq!(offer.1, "org.gimp.GIMP");
    let p = removal_plan(&streamed, "gimp", "GIMP", false, true).ok().unwrap();
    assert!(!p.remove_container && !p.purge);
    assert_eq!(p.stop_unit.as_deref(), Some("webdesk-app@gimp.service"));
    assert_eq!(p.uninstall.as_deref(), Some("org.gimp.GIMP"));

    streamed.adopted = true;
    let p = removal_plan(&streamed, "gimp", "GIMP", false, false).ok().unwrap();
    assert!(p.uninstall.is_none());
    assert_eq!(
        p.note.as_deref(),
        Some("org.gimp.GIMP was already installed on this host before GIMP was added here, so it has been left installed.")
    );

    let p = removal_plan(&container, "../etc", "x", true, false).ok().unwrap();
    assert!(!p.purge);
}

#[test]
fn a_taken_port_names_the_first_app_in_slug_order() {
    let app = find("term-hut-host").unwrap();
    let mut book = Book::new();
    let mut z = Installed::blank("zeta");
    z.port = 6767;
    let mut b = Installed::blank("beta");
    b.port = 6767;
    book.apps.insert("zeta".into(), z);
    book.apps.insert("beta".into(), b);
    let e = host_checks(&app, &book, true, false, true).err().unwrap();
    assert_eq!(e.status, 409);
    assert_eq!(e.message, "port 6767 is already serving beta");
}
