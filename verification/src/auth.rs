//! Who is signed in, and whether they may change what the machine contains.
//!
//! Passwords are checked by PAM and accounts are looked up in the host's user
//! database; both are the host's business and are asked by the program around
//! this library. What is decided here is what their answers mean: which groups
//! are administrative, whether a person is in one, which accounts may open a
//! session at all, and what a failed PAM step is reported as.

use vstd::prelude::*;
use crate::text::{chars_of, string_of, split, split_chars, trim_each, views, decimal, decimal_chars};
use crate::engine::strings;

verus! {

/// The PAM service WebDesk authenticates against.
pub const PAM_SERVICE: &'static str = "linuxwebdesk";

/// The administrative groups when the environment does not name any.
pub const DEFAULT_ADMIN_GROUPS: &'static str = "wheel,sudo";

/// A signed-in person, as resolved from the host's user database.
pub struct Identity {
    pub username: String,
    pub uid: u32,
    pub gid: u32,
    pub home: String,
    /// Member of one of the administrative groups when the session opened.
    pub admin: bool,
}

/// What the host's user database says of one account. `home` is `None` when
/// the home directory is not valid text.
pub struct Account {
    pub name: String,
    pub uid: u32,
    pub gid: u32,
    pub home: Option<String>,
}

/// The pieces that are not empty, in order.
pub open spec fn kept(parts: Seq<Seq<char>>) -> Seq<Seq<char>>
    decreases parts.len(),
{
    if parts.len() == 0 {
        Seq::empty()
    } else if parts.last().len() == 0 {
        kept(parts.drop_last())
    } else {
        kept(parts.drop_last()).push(parts.last())
    }
}

/// The administrative groups a setting names: comma-separated, each trimmed,
/// empty names dropped. With no setting at all, `wheel` and `sudo`; a setting
/// that is present but names nothing makes nobody an administrator.
pub open spec fn groups_named(setting: Option<Seq<char>>) -> Seq<Seq<char>> {
    let text = match setting {
        Some(s) => s,
        None => DEFAULT_ADMIN_GROUPS@,
    };
    kept(crate::text::trim_all(split(text, ',')))
}

/// The administrative groups, from the value of the setting that names them.
pub fn admin_groups(setting: Option<&str>) -> (r: Vec<String>)
    ensures
        strings(r@) == groups_named(crate::apps::opt_str(setting)),
{
    let text = match setting {
        Some(s) => chars_of(s),
        None => chars_of(DEFAULT_ADMIN_GROUPS),
    };
    let parts = trim_each(&split_chars(text.as_slice(), ','));
    let ghost ps = views(parts@);
    let mut out: Vec<String> = Vec::new();
    for i in 0..parts.len()
        invariant
            ps == views(parts@),
            strings(out@) == kept(ps.take(i as int)),
    {
        assert(ps.take(i + 1).drop_last() == ps.take(i as int));
        assert(ps[i as int] == parts@[i as int]@);
        if parts[i].len() > 0 {
            let ghost before = out@;
            out.push(string_of(parts[i].as_slice()));
            assert(strings(out@) =~= strings(before).push(parts@[i as int]@));
        }
    }
    assert(ps.take(ps.len() as int) == ps);
    out
}

/// A person is an administrator when one of the groups they are in is one of
/// the administrative groups that exists on this host. `group_gids` holds the
/// gid of each administrative group, `None` for one the host has not got;
/// `mine` is the person's own group list, `None` when it could not be read --
/// which is treated as no membership, never as all of it.
pub open spec fn admin_by_groups(group_gids: Seq<Option<u32>>, mine: Option<Seq<u32>>) -> bool {
    match mine {
        None => false,
        Some(m) => shares(group_gids, m),
    }
}

/// Some gid of the person's is one of `group_gids`.
pub open spec fn shares(group_gids: Seq<Option<u32>>, m: Seq<u32>) -> bool {
    exists|i: int, j: int| 0 <= i < m.len() && 0 <= j < group_gids.len() && #[trigger] group_gids[j] == Some(#[trigger] m[i])
}

/// Whether this person may install, remove, start and stop apps and update
/// the desk.
pub fn is_admin(group_gids: &Vec<Option<u32>>, mine: Option<&Vec<u32>>) -> (b: bool)
    ensures
        b == admin_by_groups(group_gids@, match mine {
            Some(m) => Some(m@),
            None => None,
        }),
{
    match mine {
        Some(m) => shares_a_group(group_gids, m),
        None => false,
    }
}

fn shares_a_group(group_gids: &Vec<Option<u32>>, m: &Vec<u32>) -> (b: bool)
    ensures
        b == admin_by_groups(group_gids@, Some(m@)),
{
    let mut i: usize = 0;
    while i < m.len()
        invariant
            i <= m@.len(),
            forall|a: int, b: int| 0 <= a < i && 0 <= b < group_gids@.len() ==> #[trigger] group_gids@[b] != Some(#[trigger] m@[a]),
        decreases m@.len() - i,
    {
        let mut j: usize = 0;
        while j < group_gids.len()
            invariant
                i < m@.len(),
                j <= group_gids@.len(),
                forall|a: int, b: int| 0 <= a < i && 0 <= b < group_gids@.len() ==> #[trigger] group_gids@[b] != Some(#[trigger] m@[a]),
                forall|b: int| 0 <= b < j ==> #[trigger] group_gids@[b] != Some(m@[i as int]),
            decreases group_gids@.len() - j,
        {
            if group_gids[j] == Some(m[i]) {
                assert(shares(group_gids@, m@));
                return true;
            }
            j = j + 1;
        }
        i = i + 1;
    }
    assert forall|a: int, b: int| 0 <= a < m@.len() && 0 <= b < group_gids@.len() implies #[trigger] group_gids@[b] != Some(#[trigger] m@[a]) by {}
    false
}

/// Who a session is for, from what the user database said of the account:
/// nobody it does not know, never root, and never an account whose home
/// directory cannot be named.
pub open spec fn resolved(username: Seq<char>, account: Option<Account>, admin: bool) -> Result<(Seq<char>, u32, u32, Seq<char>, bool), Seq<char>> {
    match account {
        None => Err("no such account: "@ + username),
        Some(a) => if a.uid == 0 {
            Err("refusing to open a session for root"@)
        } else {
            match a.home {
                None => Err("home directory is not valid UTF-8"@),
                Some(h) => Ok((a.name@, a.uid, a.gid, h@, admin)),
            }
        },
    }
}

/// The identity a session opens as. `admin` is whether the account's groups
/// make it an administrator.
pub fn resolve(username: &str, account: Option<Account>, admin: bool) -> (r: Result<Identity, String>)
    ensures
        match resolved(username@, account, admin) {
            Ok((n, u, g, h, a)) => r matches Ok(i) && i.username@ == n && i.uid == u && i.gid == g && i.home@ == h && i.admin == a,
            Err(e) => r matches Err(m) && m@ == e,
        },
{
    let a = match account {
        None => {
            let mut v = chars_of("no such account: ");
            v.extend_from_slice(chars_of(username).as_slice());
            return Err(string_of(v.as_slice()));
        },
        Some(a) => a,
    };
    if a.uid == 0 {
        return Err("refusing to open a session for root".to_owned());
    }
    match a.home {
        None => Err("home directory is not valid UTF-8".to_owned()),
        Some(h) => Ok(Identity { username: a.name, uid: a.uid, gid: a.gid, home: h, admin }),
    }
}

/// The three PAM calls a sign-in makes, in order.
pub enum PamStep {
    Start,
    Authenticate,
    Account,
}

/// A signed decimal.
pub open spec fn signed(n: i32) -> Seq<char> {
    if n < 0 {
        "-"@ + decimal((-n) as nat)
    } else {
        decimal(n as nat)
    }
}

/// What one PAM call's return code means: success is `0`, and anything else
/// stops the sign-in with a sentence naming the step.
pub open spec fn pam_verdict(step: PamStep, rc: i32, handle_ok: bool, why: Seq<char>) -> Result<(), Seq<char>> {
    match step {
        PamStep::Start => if rc != 0 || !handle_ok {
            Err("pam_start failed (code "@ + signed(rc) + ")"@)
        } else {
            Ok(())
        },
        PamStep::Authenticate => if rc != 0 {
            Err("authentication failed: "@ + why)
        } else {
            Ok(())
        },
        PamStep::Account => if rc != 0 {
            Err("account unavailable: "@ + why)
        } else {
            Ok(())
        },
    }
}

/// The verdict on one step of a sign-in. `handle_ok` is whether `pam_start`
/// gave a handle, `why` is PAM's own description of a failure code.
pub fn authenticate(step: PamStep, rc: i32, handle_ok: bool, why: &str) -> (r: Result<(), String>)
    ensures
        match pam_verdict(step, rc, handle_ok, why@) {
            Ok(()) => r is Ok,
            Err(e) => r matches Err(m) && m@ == e,
        },
{
    match step {
        PamStep::Start => {
            if rc != 0 || !handle_ok {
                let mut v = chars_of("pam_start failed (code ");
                if rc < 0 {
                    v.extend_from_slice(chars_of("-").as_slice());
                    let n: i64 = -(rc as i64);
                    v.extend_from_slice(decimal_chars(n as u64).as_slice());
                } else {
                    v.extend_from_slice(decimal_chars(rc as u64).as_slice());
                }
                v.extend_from_slice(chars_of(")").as_slice());
                return Err(string_of(v.as_slice()));
            }
            Ok(())
        },
        PamStep::Authenticate => {
            if rc != 0 {
                let mut v = chars_of("authentication failed: ");
                v.extend_from_slice(chars_of(why).as_slice());
                return Err(string_of(v.as_slice()));
            }
            Ok(())
        },
        PamStep::Account => {
            if rc != 0 {
                let mut v = chars_of("account unavailable: ");
                v.extend_from_slice(chars_of(why).as_slice());
                return Err(string_of(v.as_slice()));
            }
            Ok(())
        },
    }
}

/// Root never gets a session, whatever the user database says of it, and an
/// account that opens one keeps the name, ids and home the database gave it.
pub proof fn law_root_never_signs_in(username: Seq<char>, account: Account, admin: bool)
    ensures
        account.uid == 0 ==> resolved(username, Some(account), admin) is Err,
        resolved(username, Some(account), admin) matches Ok(i) ==> i.0 == account.name@ && i.1 == account.uid
            && i.1 != 0 && i.2 == account.gid,
        resolved(username, None, admin) is Err,
{
}

/// A person whose group list could not be read is never an administrator, and
/// neither is anybody when no administrative group exists on the host.
pub proof fn law_admin_needs_a_real_group(group_gids: Seq<Option<u32>>, mine: Option<Seq<u32>>)
    ensures
        mine is None ==> !admin_by_groups(group_gids, mine),
        (forall|j: int| 0 <= j < group_gids.len() ==> #[trigger] group_gids[j] is None) ==> !admin_by_groups(group_gids, mine),
{
}

} // verus!
