use webdesk::catalog::{catalog, TERM_HUT_UNIT};
use webdesk::systemd::{app_unit, known, state, unit_path, unit_text, user_act_args, write_refusal};

#[test]
fn a_unit_that_is_not_there_is_absent_rather_than_an_error() {
    // What systemctl answers for a unit it has never heard of, and what is
    // left when it could not be asked at all.
    assert_eq!(state(Some("not-found"), Some("inactive")), "absent");
    assert!(!known(Some("not-found")));
    assert_eq!(state(None, None), "absent");
    assert!(!known(None));
}

#[test]
fn a_written_unit_names_the_user_and_nothing_else_is_substituted() {
    let text = unit_text(TERM_HUT_UNIT, "someone", 1234);
    assert!(!text.contains('{'), "a placeholder survived: {text}");
    assert!(text.contains("User=someone"));
    assert!(text.contains("XDG_RUNTIME_DIR=/run/user/1234"));
    assert!(text.contains("unix:path=/run/user/1234/bus"));
    assert!(text.contains("--host 127.0.0.1"));
    assert!(text.contains("--no-token"));
}

#[test]
fn every_host_entry_carries_a_unit_it_could_write() {
    for app in catalog().iter().filter(|a| a.host.is_some()) {
        let host = app.host.as_ref().unwrap();
        assert!(
            host.unit_body.contains("[Service]") && host.unit_body.contains("ExecStart="),
            "{} has no unit body to write",
            app.slug
        );
        assert!(host.unit_body.contains("[Install]"), "{} would not survive a reboot", app.slug);
    }
}

#[test]
fn every_state_is_one_the_dock_has_a_name_for() {
    const KNOWN: &[&str] = &["running", "exited", "restarting", "failed", "absent", "unknown"];
    for (load, active) in [
        (None, None),
        (Some("loaded"), Some("active")),
        (Some("loaded"), Some("deactivating")),
        (Some("loaded"), Some("failed")),
        (Some("loaded"), Some("inactive")),
        (Some("loaded"), Some("maintenance")),
        (Some("masked"), Some("active")),
    ] {
        assert!(KNOWN.contains(&state(load, active).as_str()));
    }
    assert_eq!(state(Some("loaded"), Some("active")), "running");
    assert_eq!(state(Some("loaded"), Some("reloading")), "restarting");
}

#[test]
fn a_unit_already_there_is_never_overwritten() {
    assert_eq!(unit_path("webdesk-term-hut.service"), "/etc/systemd/system/webdesk-term-hut.service");
    assert_eq!(
        write_refusal("/etc/systemd/system/x.service", true).as_deref(),
        Some("/etc/systemd/system/x.service already exists")
    );
    assert!(write_refusal("/etc/systemd/system/x.service", false).is_none());
}

#[test]
fn a_streamed_app_runs_in_the_openers_own_manager() {
    assert_eq!(app_unit("gimp"), "webdesk-app@gimp.service");
    assert_eq!(
        user_act_args("start", "alice", &app_unit("gimp")),
        vec!["--user", "--machine", "alice@", "start", "webdesk-app@gimp.service"]
    );
}
