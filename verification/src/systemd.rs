//! The host's service manager, for the applications WebDesk does not run
//! itself.
//!
//! The engine module is the twin of this one: both are asked whether a thing
//! is there, what state it is in, and to make it the other state. A unit here
//! lives in `/etc/systemd/system` and would go on running if WebDesk were
//! uninstalled.
//!
//! **The unit is a constant.** Its name and body come from the catalog, so the
//! set of units that can exist is a property of the build. `unit_text`
//! substitutes two values and no others -- the user and the uid the service
//! runs as, taken from the session of whoever pressed Install.
//!
//! Everything degrades to a report rather than an error: a host without
//! systemd is a host where these entries cannot be installed, and the state of
//! a unit that is not there is `absent`.

use vstd::prelude::*;
use crate::text::{chars_of, string_of, decimal, decimal_chars, replace, replace_chars, trim, trim_chars, same, starts_with, has_prefix};
use crate::engine::strings;

verus! {

/// The directory system units WebDesk writes go in: local configuration, where
/// an operator editing it afterwards expects to find it.
pub const UNIT_DIR: &'static str = "/etc/systemd/system";

/// Whether this host has systemd to talk to: `systemctl` was found on `PATH`.
pub fn available(systemctl: Option<&str>) -> (b: bool)
    ensures
        b == systemctl is Some,
{
    systemctl.is_some()
}

/// What one `systemctl show --value` answer means: the trimmed output, or
/// nothing when systemd would not answer or answered with an empty value.
pub open spec fn property_of(ok: bool, stdout: Seq<char>) -> Option<Seq<char>> {
    if ok && trim(stdout).len() > 0 {
        Some(trim(stdout))
    } else {
        None
    }
}

/// The value of one property, from the outcome of running `property_args`.
pub fn property(ok: bool, stdout: &str) -> (r: Option<String>)
    ensures
        crate::apps::opt_string(r) == property_of(ok, stdout@),
{
    if !ok {
        return None;
    }
    let t = trim_chars(chars_of(stdout).as_slice());
    if t.len() == 0 {
        None
    } else {
        Some(string_of(t.as_slice()))
    }
}

/// `systemctl show <unit> --property <name> --value`: `show` exits 0 even for
/// a unit that does not exist, so the answer arrives as a value to read.
pub fn property_args(unit: &str, name: &str) -> (r: Vec<String>)
    ensures
        strings(r@) == seq!["show"@, unit@, "--property"@, name@, "--value"@],
{
    let r = vec!["show".to_owned(), unit.to_owned(), "--property".to_owned(), name.to_owned(), "--value".to_owned()];
    assert(strings(r@) =~= seq!["show"@, unit@, "--property"@, name@, "--value"@]);
    r
}

/// Whether systemd has a unit by this name loaded, from its `LoadState`.
pub fn known(load_state: Option<&str>) -> (b: bool)
    ensures
        b == (crate::apps::opt_str(load_state) == Some("loaded"@)),
{
    match load_state {
        Some(s) => same(chars_of(s).as_slice(), chars_of("loaded").as_slice()),
        None => false,
    }
}

/// A unit's state in the words the dock already knows from containers, with
/// `absent` for a unit that was never installed.
pub open spec fn state_of(load: Option<Seq<char>>, active: Option<Seq<char>>) -> Seq<char> {
    if load != Some("loaded"@) {
        "absent"@
    } else if active == Some("active"@) {
        "running"@
    } else if active == Some("activating"@) || active == Some("deactivating"@) || active == Some("reloading"@) {
        "restarting"@
    } else if active == Some("failed"@) {
        "failed"@
    } else if active == Some("inactive"@) {
        "exited"@
    } else {
        "unknown"@
    }
}

fn is_word(s: Option<&str>, w: &str) -> (b: bool)
    ensures
        b == (crate::apps::opt_str(s) == Some(w@)),
{
    match s {
        Some(x) => same(chars_of(x).as_slice(), chars_of(w).as_slice()),
        None => false,
    }
}

/// The state of a unit from its `LoadState` and `ActiveState`. Never an
/// error: a service stopped behind our back is a state to report.
pub fn state(load_state: Option<&str>, active_state: Option<&str>) -> (r: String)
    ensures
        r@ == state_of(crate::apps::opt_str(load_state), crate::apps::opt_str(active_state)),
{
    if !is_word(load_state, "loaded") {
        return "absent".to_owned();
    }
    if is_word(active_state, "active") {
        "running".to_owned()
    } else if is_word(active_state, "activating") || is_word(active_state, "deactivating") || is_word(
        active_state,
        "reloading",
    ) {
        "restarting".to_owned()
    } else if is_word(active_state, "failed") {
        "failed".to_owned()
    } else if is_word(active_state, "inactive") {
        "exited".to_owned()
    } else {
        "unknown".to_owned()
    }
}

/// Every word `state` can answer with.
pub open spec fn dock_words() -> Seq<Seq<char>> {
    seq!["running"@, "exited"@, "restarting"@, "failed"@, "absent"@, "unknown"@]
}

/// What the dock says of a host service follows systemd word for word: it is
/// `running` exactly when the unit is loaded and active, `exited` exactly when
/// it is loaded and inactive (a service that was stopped), `failed` exactly
/// when it is loaded and failed, `restarting` exactly when it is loaded and
/// activating, deactivating or reloading, and `absent` exactly when it is not
/// loaded.
pub proof fn law_state_follows_systemd(load: Option<Seq<char>>, active: Option<Seq<char>>)
    ensures
        (state_of(load, active) == "running"@) <==> (load == Some("loaded"@) && active == Some("active"@)),
        (state_of(load, active) == "exited"@) <==> (load == Some("loaded"@) && active == Some("inactive"@)),
        (state_of(load, active) == "failed"@) <==> (load == Some("loaded"@) && active == Some("failed"@)),
        (state_of(load, active) == "restarting"@) <==> (load == Some("loaded"@) && (active == Some("activating"@)
            || active == Some("deactivating"@) || active == Some("reloading"@))),
        (state_of(load, active) == "absent"@) <==> load != Some("loaded"@),
{
    reveal_strlit("running");
    reveal_strlit("exited");
    reveal_strlit("failed");
    reveal_strlit("restarting");
    reveal_strlit("absent");
    reveal_strlit("unknown");
    let w = seq!["running"@, "exited"@, "failed"@, "restarting"@, "absent"@, "unknown"@];
    assert(w[0].len() == 7 && w[1].len() == 6 && w[2].len() == 6 && w[3].len() == 10 && w[4].len() == 6 && w[5].len() == 7);
    assert(w[0][0] == 'r' && w[5][0] == 'u' && w[1][0] == 'e' && w[2][0] == 'f' && w[4][0] == 'a');
    reveal_strlit("active");
    reveal_strlit("inactive");
    reveal_strlit("activating");
    reveal_strlit("deactivating");
    reveal_strlit("reloading");
    reveal_strlit("loaded");
    let a = seq!["active"@, "inactive"@, "failed"@, "activating"@, "deactivating"@, "reloading"@];
    assert(a[0].len() == 6 && a[1].len() == 8 && a[2].len() == 6 && a[3].len() == 10 && a[4].len() == 12 && a[5].len() == 9);
    assert(a[0][0] == 'a' && a[2][0] == 'f' && a[1][0] == 'i' && a[3][0] == 'a');
}

/// Whatever systemd says, the state is a word the dock has a name for.
pub proof fn law_state_is_a_dock_word(load: Option<Seq<char>>, active: Option<Seq<char>>)
    ensures
        dock_words().contains(state_of(load, active)),
{
    let s = state_of(load, active);
    if s == "running"@ {
        assert(dock_words()[0] == s);
    } else if s == "exited"@ {
        assert(dock_words()[1] == s);
    } else if s == "restarting"@ {
        assert(dock_words()[2] == s);
    } else if s == "failed"@ {
        assert(dock_words()[3] == s);
    } else if s == "absent"@ {
        assert(dock_words()[4] == s);
    } else {
        assert(dock_words()[5] == s);
    }
}

/// `systemctl <verb> <unit>`.
pub fn act_args(verb: &str, unit: &str) -> (r: Vec<String>)
    ensures
        strings(r@) == seq![verb@, unit@],
{
    let r = vec![verb.to_owned(), unit.to_owned()];
    assert(strings(r@) =~= seq![verb@, unit@]);
    r
}

/// What one `systemctl` verb came to: stderr rather than the exit code on
/// failure, because only one of the failures that share an exit code is worth
/// showing somebody.
pub open spec fn act_outcome(verb: Seq<char>, unit: Seq<char>, ok: bool, stderr: Seq<char>) -> Result<(), Seq<char>> {
    if ok {
        Ok(())
    } else {
        Err(crate::text::failure_text(stderr, "systemctl "@ + verb + " "@ + unit + " failed"@))
    }
}

/// The outcome of running `act_args`.
pub fn act(verb: &str, unit: &str, ok: bool, stderr: &str) -> (r: Result<(), String>)
    ensures
        match act_outcome(verb@, unit@, ok, stderr@) {
            Ok(()) => r is Ok,
            Err(e) => r matches Err(m) && m@ == e,
        },
{
    if ok {
        return Ok(());
    }
    let mut v = chars_of("systemctl ");
    v.extend_from_slice(chars_of(verb).as_slice());
    v.extend_from_slice(chars_of(" ").as_slice());
    v.extend_from_slice(chars_of(unit).as_slice());
    v.extend_from_slice(chars_of(" failed").as_slice());
    Err(crate::text::failure_message(stderr, string_of(v.as_slice())))
}

/// The arguments that start a unit.
pub fn start(unit: &str) -> (r: Vec<String>)
    ensures
        strings(r@) == seq!["start"@, unit@],
{
    act_args("start", unit)
}

/// The arguments that stop a unit.
pub fn stop(unit: &str) -> (r: Vec<String>)
    ensures
        strings(r@) == seq!["stop"@, unit@],
{
    act_args("stop", unit)
}

/// Start it now and at every boot, in one call: a service gone after a reboot
/// is a bug report, not a feature.
pub fn enable_now(unit: &str) -> (r: Vec<String>)
    ensures
        strings(r@) == seq!["enable"@, "--now"@, unit@],
{
    let r = vec!["enable".to_owned(), "--now".to_owned(), unit.to_owned()];
    assert(strings(r@) =~= seq!["enable"@, "--now"@, unit@]);
    r
}

/// Make systemd read the unit files again.
pub fn reload() -> (r: Vec<String>)
    ensures
        strings(r@) == seq!["daemon-reload"@],
{
    let r = vec!["daemon-reload".to_owned()];
    assert(strings(r@) =~= seq!["daemon-reload"@]);
    r
}

/// `Path::join` of the unit directory and a unit name: the name itself when it
/// is absolute, and the two with a `/` between them otherwise.
pub open spec fn unit_path_of(unit: Seq<char>) -> Seq<char> {
    if starts_with(unit, "/"@) {
        unit
    } else {
        UNIT_DIR@ + "/"@ + unit
    }
}

/// Where a system unit lives.
pub fn unit_path(unit: &str) -> (r: String)
    ensures
        r@ == unit_path_of(unit@),
{
    let u = chars_of(unit);
    if has_prefix(u.as_slice(), chars_of("/").as_slice()) {
        return unit.to_owned();
    }
    let mut v = chars_of(UNIT_DIR);
    v.extend_from_slice(chars_of("/").as_slice());
    v.extend_from_slice(u.as_slice());
    string_of(v.as_slice())
}

/// A unit body with the identity it runs as substituted in: every `{user}`
/// becomes the user name and every `{uid}` the uid, and nothing else changes.
pub open spec fn unit_text_of(body: Seq<char>, user: Seq<char>, uid: u32) -> Seq<char> {
    replace(replace(body, "{user}"@, user), "{uid}"@, decimal(uid as nat))
}

/// The text written for a unit from the catalog.
pub fn unit_text(body: &str, user: &str, uid: u32) -> (r: String)
    ensures
        r@ == unit_text_of(body@, user@, uid),
{
    proof {
        reveal_strlit("{user}");
        reveal_strlit("{uid}");
    }
    let once = replace_chars(chars_of(body).as_slice(), chars_of("{user}").as_slice(), chars_of(user).as_slice());
    let twice = replace_chars(once.as_slice(), chars_of("{uid}").as_slice(), decimal_chars(uid as u64).as_slice());
    string_of(twice.as_slice())
}

/// A unit already on this host was put there by somebody and is very likely
/// serving the app right now, so it is refused rather than overwritten.
pub fn write_refusal(path: &str, exists: bool) -> (r: Option<String>)
    ensures
        match r {
            Some(m) => exists && m@ == path@ + " already exists"@,
            None => !exists,
        },
{
    if !exists {
        return None;
    }
    let mut v = chars_of(path);
    v.extend_from_slice(chars_of(" already exists").as_slice());
    Some(string_of(v.as_slice()))
}

/// The user unit that runs one streamed app in the session of whoever opened
/// it: one template, instantiated with the slug.
pub open spec fn app_unit_of(slug: Seq<char>) -> Seq<char> {
    "webdesk-app@"@ + slug + ".service"@
}

/// The one place a slug becomes a unit name, so that an open and a close can
/// never name different units.
pub fn app_unit(slug: &str) -> (r: String)
    ensures
        r@ == app_unit_of(slug@),
{
    let mut v = chars_of("webdesk-app@");
    v.extend_from_slice(chars_of(slug).as_slice());
    v.extend_from_slice(chars_of(".service").as_slice());
    string_of(v.as_slice())
}

/// `systemctl --user --machine <user>@ <verb> <unit>`: a verb sent to one
/// person's own service manager.
pub fn user_act_args(verb: &str, user: &str, unit: &str) -> (r: Vec<String>)
    ensures
        strings(r@) == seq!["--user"@, "--machine"@, user@ + "@"@, verb@, unit@],
{
    let mut m = chars_of(user);
    m.extend_from_slice(chars_of("@").as_slice());
    assert(m@ == user@ + "@"@);
    let who = string_of(m.as_slice());
    let r = vec!["--user".to_owned(), "--machine".to_owned(), who, verb.to_owned(), unit.to_owned()];
    assert(r@[2]@ == user@ + "@"@);
    assert(strings(r@) =~= seq!["--user"@, "--machine"@, user@ + "@"@, verb@, unit@]);
    r
}

proof fn lemma_replace_absent(s: Seq<char>, pat: Seq<char>, rep: Seq<char>)
    requires
        pat.len() > 0,
        !crate::text::contains(s, pat),
    ensures
        replace(s, pat, rep) == s,
    decreases s.len(),
{
    if s.len() >= pat.len() {
        assert(s.skip(0) =~= s);
        assert(s.take(pat.len() as int) != pat);
        let t = s.drop_first();
        assert(!crate::text::contains(t, pat)) by {
            if crate::text::contains(t, pat) {
                let i = choose|i: int| 0 <= i <= t.len() - pat.len() && #[trigger] t.skip(i).take(pat.len() as int) == pat;
                assert(s.skip(i + 1) =~= t.skip(i));
                assert(s.skip(i + 1).take(pat.len() as int) == pat);
            }
        }
        lemma_replace_absent(t, pat, rep);
        assert(seq![s[0]] + t =~= s);
    }
}

/// Nothing but the two placeholders is ever substituted: a unit body that
/// names neither the user nor the uid is written exactly as the catalog has it.
pub proof fn law_only_the_placeholders_change(body: Seq<char>, user: Seq<char>, uid: u32)
    ensures
        !crate::text::contains(body, "{user}"@) && !crate::text::contains(body, "{uid}"@) ==> unit_text_of(body, user, uid) == body,
{
    reveal_strlit("{user}");
    reveal_strlit("{uid}");
    if !crate::text::contains(body, "{user}"@) && !crate::text::contains(body, "{uid}"@) {
        lemma_replace_absent(body, "{user}"@, user);
        lemma_replace_absent(body, "{uid}"@, decimal(uid as nat));
    }
}

} // verus!
