use webdesk::catalog::{catalog, find, Kind};

#[test]
fn an_entry_is_exactly_one_of_the_three_kinds() {
    for a in catalog().iter() {
        let kinds = [!a.image.is_empty(), a.host.is_some(), a.streamed.is_some()];
        let n = kinds.iter().filter(|k| **k).count();
        assert!(n <= 1, "{} is {n} kinds of entry at once, and only one of them would run", a.slug);
        assert_eq!(n, 1, "{} is none of the three kinds, so nothing would install it", a.slug);
    }
}

#[test]
fn a_streamed_entry_carries_the_empty_answers() {
    for a in catalog().iter().filter(|a| a.streamed.is_some()) {
        assert!(a.image.is_empty(), "{} is drawn on the host but names an image", a.slug);
        assert_eq!(a.port, 0, "{} publishes a port nothing is listening on", a.slug);
        assert!(!a.needs_origin, "{} would be given a listener of its own", a.slug);
        assert!(a.config_at.is_none(), "{} would be given a mount", a.slug);
        assert!(a.env.is_empty(), "{}'s environment would go nowhere", a.slug);
        assert!(a.generated.is_empty(), "{} would generate a key for nobody", a.slug);
        assert!(a.params.is_empty(), "{} asks a question it cannot apply", a.slug);
        assert!(a.socket.is_none(), "{} would be given the engine socket", a.slug);
        assert!(a.shm.is_none(), "{}'s shm size would go nowhere", a.slug);
    }
}

#[test]
fn every_slug_is_unique_and_safe_everywhere_it_is_used() {
    let all = catalog();
    for (i, a) in all.iter().enumerate() {
        assert!(all.iter().skip(i + 1).all(|b| b.slug != a.slug), "two entries are both called {}", a.slug);
        assert!(!a.slug.is_empty(), "{} has an empty slug", a.name);
        assert!(
            a.slug.chars().all(|c| c.is_ascii_lowercase() || c.is_ascii_digit() || c == '-'),
            "{} is not safe as a path, a container name and a directory at once",
            a.slug
        );
    }
}

#[test]
fn the_catalog_ships_its_twelve_entries_in_order() {
    let slugs: Vec<&str> = catalog().iter().map(|a| a.slug).collect();
    assert_eq!(
        slugs,
        vec![
            "helium", "firefox", "onlyoffice", "inkscape", "vscodium-web", "term-hut-host", "gimp", "dbeaver",
            "remmina", "baobab", "localsend-app", "bitwarden",
        ]
    );
}

#[test]
fn a_slug_the_build_has_not_got_is_not_found() {
    assert!(find("dockhand").is_none());
    assert!(find("").is_none());
    assert_eq!(find("gimp").map(|a| a.name), Some("GIMP"));
}

#[test]
fn every_kind_of_blank_has_a_name() {
    assert_eq!(Kind::Text.name(), "text");
    assert_eq!(Kind::Secret.name(), "secret");
    assert_eq!(Kind::Choice(vec!["a"]).name(), "choice");
    assert_eq!(Kind::Toggle.name(), "toggle");
    assert_eq!(Kind::HostPath { at: "/data", ro: true }.name(), "path");
    assert_eq!(Kind::Port.name(), "port");
}
