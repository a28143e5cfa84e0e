use webdesk::catalog::{catalog, Prereq};
use webdesk::flatpak::{arch_of, manager, missing_packages, pick_bundle, Asset, Manager, Release};

#[test]
fn a_prerequisite_is_either_named_or_deliberately_not() {
    for app in catalog().iter() {
        let Some(host) = &app.host else { continue };
        let Some(fp) = &host.flatpak else { continue };
        for p in fp.needs.iter() {
            assert!(!p.bin.is_empty(), "{} names a prerequisite with no binary", app.slug);
            assert!(
                p.dnf.is_some() || p.apt.is_some() || p.pacman.is_some() || p.zypper.is_some(),
                "{}: {} is installable nowhere, so it can never be provided",
                app.slug,
                p.bin
            );
        }
    }
}

#[test]
fn the_unit_runs_the_flatpak_the_entry_names() {
    for app in catalog().iter() {
        let Some(host) = &app.host else { continue };
        let Some(fp) = &host.flatpak else { continue };
        assert!(host.unit_body.contains(&format!("flatpak run {}", fp.id)), "{} would start something other than {}", app.slug, fp.id);
        assert!(host.unit_body.contains(&format!("flatpak kill {}", fp.id)), "{} could not stop {}", app.slug, fp.id);
        for p in fp.needs.iter() {
            assert!(host.unit_body.contains(p.bin), "{} declares {} but never runs it", app.slug, p.bin);
        }
    }
}

#[test]
fn nothing_served_from_the_host_is_also_offered_as_a_container() {
    let all = catalog();
    for app in all.iter().filter(|a| a.host.is_some()) {
        let twin = all.iter().find(|o| o.slug != app.slug && o.name == app.name && !o.image.is_empty());
        assert!(twin.is_none(), "{} is also in the catalog as a container, which is a fallback nobody asked for", app.name);
    }
}

#[test]
fn only_the_two_built_architectures_are_offered() {
    assert_eq!(arch_of("x86_64"), Some("x86_64"));
    assert_eq!(arch_of("aarch64"), Some("aarch64"));
    assert_eq!(arch_of("riscv64"), None);
    for machine in ["x86_64", "aarch64", "arm", "riscv64", "powerpc64"] {
        assert!(matches!(arch_of(machine), Some("x86_64") | Some("aarch64") | None));
    }
}

fn need(bin: &'static str, apt: Option<&'static str>) -> Prereq {
    Prereq { bin, dnf: Some(bin), apt, pacman: Some(bin), zypper: None }
}

#[test]
fn a_host_with_everything_needs_no_package() {
    let needs = vec![need("cage", Some("cage"))];
    assert_eq!(missing_packages(&needs, &vec![true, true], Some(Manager::Dnf)), Ok(vec![]));
}

#[test]
fn the_packages_asked_for_are_the_catalogs_for_this_manager() {
    let needs = vec![need("cage", Some("cage")), need("wayvnc", None)];
    assert_eq!(
        missing_packages(&needs, &vec![false, false, true], Some(Manager::Apt)),
        Ok(vec!["flatpak".to_string(), "cage".to_string()])
    );
    let e = missing_packages(&needs, &vec![true, true, false], Some(Manager::Apt)).unwrap_err();
    assert_eq!(e, "this host is missing wayvnc, and WebDesk does not know which apt-get package provides it");
    let e = missing_packages(&needs, &vec![false, true, true], None).unwrap_err();
    assert_eq!(e, "this host is missing flatpak and has no package manager WebDesk knows");
}

#[test]
fn the_first_package_manager_found_is_used() {
    assert!(manager(false, true, true, false) == Some(Manager::Apt));
    assert!(manager(false, false, false, false).is_none());
}

#[test]
fn the_newest_bundle_for_this_architecture_is_picked() {
    let rel = |tag: &str, names: &[&str]| Release {
        tag: Some(tag.to_string()),
        assets: Some(
            names
                .iter()
                .map(|n| Asset { name: Some(n.to_string()), url: Some(format!("https://example.com/{n}")) })
                .collect(),
        ),
    };
    let releases = vec![
        rel("v2.0.0", &["termhut_2.0.0_aarch64.flatpak"]),
        rel("v1.9.0", &["termhut_1.9.0_x86_64.flatpak", "termhut_1.9.0_aarch64.flatpak"]),
    ];
    assert_eq!(
        pick_bundle(&releases, "x86_64", "HutsonLabs/term-hut"),
        Ok(("1.9.0".to_string(), "https://example.com/termhut_1.9.0_x86_64.flatpak".to_string()))
    );
    assert_eq!(
        pick_bundle(&releases, "riscv64", "HutsonLabs/term-hut"),
        Err("no riscv64 bundle in the last 30 releases of HutsonLabs/term-hut".to_string())
    );
}
