use webdesk::engine::{
    container_name, detect, font_mount, gpu, home_mount, log_line, node_key, relabel_for, state, Engine,
    NodeEntry, RunSpec, FONTS_AT, LABEL,
};

fn spec() -> RunSpec {
    RunSpec {
        slug: "demo".into(),
        image: "lscr.io/linuxserver/demo:latest".into(),
        host_port: 47000,
        container_port: 8080,
        env: vec![("TZ".into(), "Etc/UTC".into())],
        mounts: vec![
            ("/srv/media".into(), "/media".into(), true),
            ("/var/lib/webdesk/appdata/demo".into(), "/config".into(), false),
        ],
        shm: Some("1g".into()),
        relabel: true,
        devices: vec!["/dev/dri/renderD128".into()],
        groups: vec![105],
        shared_home: "/home".into(),
    }
}

fn node(name: &str, is_char: bool, mode: u32, gid: u32) -> NodeEntry {
    NodeEntry { name: name.into(), path: format!("/dev/dri/{name}"), is_char, mode, gid }
}

#[test]
fn shm_size_is_passed_when_an_entry_asks_for_it() {
    let args = spec().args();
    let at = args.iter().position(|a| a == "--shm-size").expect("no --shm-size");
    assert_eq!(args[at + 1], "1g");
}

#[test]
fn nothing_ever_loosens_the_sandbox() {
    let args = spec().args().join(" ");
    for forbidden in [
        "--security-opt",
        "--privileged",
        "--cap-add",
        "--network=host",
        "--pid=host",
        "--ipc=host",
        "--device-cgroup-rule",
    ] {
        assert!(!args.contains(forbidden), "{forbidden} appeared in {args}");
    }
}

#[test]
fn a_device_is_passed_at_the_same_path_inside_as_out() {
    let args = spec().args();
    let at = args.iter().position(|a| a == "--device").expect("no --device");
    assert_eq!(args[at + 1], "/dev/dri/renderD128:/dev/dri/renderD128");
}

#[test]
fn the_group_that_opens_the_device_travels_with_it() {
    let args = spec().args();
    let at = args.iter().position(|a| a == "--group-add").expect("no --group-add");
    assert_eq!(args[at + 1], "105");
}

#[test]
fn an_app_that_does_not_draw_is_given_no_device_and_no_group() {
    let mut s = spec();
    s.devices.clear();
    s.groups.clear();
    let args = s.args().join(" ");
    assert!(!args.contains("--device"), "{args}");
    assert!(!args.contains("--group-add"), "{args}");
}

#[test]
fn the_card_node_is_never_offered() {
    let listing = vec![
        node("card0", true, 0o660, 44),
        node("by-path", false, 0o755, 0),
        node("renderD128", true, 0o660, 105),
    ];
    let g = gpu("/dev/dri", Some(&listing)).expect("a render node was there");
    assert!(g.node.contains("renderD"), "{} is not a render node", g.node);
    assert!(!g.node.contains("/card"), "{} is the modesetting node", g.node);
    let only_card = vec![node("card0", true, 0o666, 44)];
    assert!(gpu("/dev/dri", Some(&only_card)).is_none());
}

#[test]
fn render_nodes_are_ordered_by_number_and_not_by_name() {
    assert_eq!(node_key("renderD128"), Some(128));
    assert_eq!(node_key("renderD129"), Some(129));
    assert_eq!(node_key("renderD1280"), Some(1280));
    assert!(node_key("card0").is_none());
    assert!(node_key("renderD").is_none());
    assert!(node_key("by-path").is_none());
    let mut nodes = ["renderD1280", "renderD129", "renderD128"];
    nodes.sort_by_key(|n| node_key(n).unwrap());
    assert_eq!(nodes[0], "renderD128");
}

#[test]
fn exactly_one_render_node_is_ever_offered() {
    let listing = vec![
        node("renderD1280", true, 0o660, 106),
        node("renderD129", true, 0o660, 105),
        node("renderD128", true, 0o666, 105),
    ];
    let g = gpu("/dev/dri", Some(&listing)).unwrap();
    assert_eq!(g.node, "/dev/dri/renderD128");
    assert!(!g.node.is_empty());
    assert!(g.groups.len() <= 1, "one node cannot need two groups");
    assert!(g.groups.is_empty(), "a node anybody may open needs no group");
}

#[test]
fn host_fonts_are_added_to_the_images_rather_than_put_in_front_of_them() {
    let (host, at, ro) = font_mount("/usr/share/fonts", true).unwrap();
    assert!(ro, "an application has no business writing the host's fonts");
    assert_eq!(at, "/usr/local/share/fonts");
    assert_ne!(at, host, "the host path is the one path this must not use");
    assert!(font_mount("/usr/share/fonts", false).is_none());
}

#[test]
fn declining_the_fonts_is_honoured() {
    assert!(font_mount("off", true).is_none(), "WD_FONT_MOUNT=off still produced a mount");
}

#[test]
fn declining_the_gpu_is_honoured() {
    let listing = vec![node("renderD128", true, 0o660, 105)];
    assert!(gpu("off", Some(&listing)).is_none(), "WD_GPU=off still produced a device");
}

#[test]
fn no_shm_means_no_flag() {
    let mut s = spec();
    s.shm = None;
    assert!(!s.args().contains(&"--shm-size".to_string()));
}

#[test]
fn the_published_port_is_bound_to_loopback_only() {
    let args = spec().args();
    let at = args.iter().position(|a| a == "-p").expect("no -p");
    assert_eq!(args[at + 1], "127.0.0.1:47000:8080");
}

#[test]
fn the_image_is_the_last_argument() {
    let args = spec().args();
    assert_eq!(args.last().unwrap(), "lscr.io/linuxserver/demo:latest");
}

#[test]
fn a_read_only_mount_says_so() {
    let args = spec().args();
    let mounts: Vec<&String> =
        args.iter().enumerate().filter(|(i, _)| *i > 0 && args[i - 1] == "-v").map(|(_, v)| v).collect();
    assert!(mounts.iter().any(|m| m.starts_with("/srv/media:/media:ro")), "{mounts:?}");
    assert!(
        mounts.iter().any(|m| m.starts_with("/var/lib/webdesk/appdata/demo:/config") && !m.contains(":ro")),
        "{mounts:?}"
    );
}

#[test]
fn the_container_is_labelled_and_named_for_its_slug() {
    let args = spec().args();
    assert!(args.contains(&container_name("demo")));
    assert!(args.contains(&LABEL.to_string()));
    assert!(args.contains(&"webdesk.slug=demo".to_string()));
}

#[test]
fn selinux_relabelling_follows_the_mount() {
    assert_eq!(relabel_for(true, "/config", "/home"), Some('Z'));
    assert_eq!(relabel_for(true, "/media", "/home"), Some('z'));
}

#[test]
fn an_engine_that_does_not_label_is_sent_no_suffix() {
    assert_eq!(relabel_for(false, "/config", "/home"), None);
    assert_eq!(relabel_for(false, "/media", "/home"), None);
}

#[test]
fn a_mount_webdesk_adds_unasked_never_relabels_the_host() {
    assert_eq!(relabel_for(true, "/home", "/home"), None);
    assert_eq!(relabel_for(true, FONTS_AT, "/home"), None);
    assert_eq!(relabel_for(true, "/var/run/docker.sock", "/home"), None);
}

#[test]
fn read_only_is_no_defence_against_relabelling() {
    let (_, at, ro) = ("/usr/share/fonts", FONTS_AT, true);
    assert!(ro);
    assert_eq!(relabel_for(true, at, "/home"), None);
}

#[test]
fn a_shared_home_is_mounted_read_write_at_the_same_path() {
    let (host, at, ro) = home_mount("/home", true).unwrap();
    assert_eq!(host, at, "the shared home must appear at the path it has outside");
    assert!(!ro, "an app that cannot write a home directory cannot save a file");
    assert!(home_mount("off", true).is_none());
    assert!(home_mount("/home", false).is_none());
}

#[test]
fn the_engine_is_chosen_docker_first() {
    assert_eq!(detect(None, true, true).map(|e| e.name()), Some("docker"));
    assert_eq!(detect(None, false, true).map(|e| e.name()), Some("podman (untested)"));
    assert!(detect(None, false, false).is_none());
}

#[test]
fn a_container_that_is_gone_is_missing() {
    assert_eq!(state(true, "running\n"), "running");
    assert_eq!(state(false, ""), "missing");
    assert_eq!(state(true, "   "), "missing");
}

#[test]
fn the_install_log_names_the_command() {
    let args = vec!["pull".to_string(), "lscr.io/linuxserver/firefox:latest".to_string()];
    assert_eq!(log_line(Engine::Docker.bin(), &args), "$ docker pull lscr.io/linuxserver/firefox:latest");
}
