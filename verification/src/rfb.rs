//! Where the pixels of a streamed app are served from.
//!
//! A streamed entry runs under a headless compositor with an RFB server on a
//! unix socket, one per user per app. The socket is the whole of somebody's
//! screen and keyboard, so its path is built from the uid of the session and
//! the slug, and from nothing a request could choose.

use vstd::prelude::*;
use crate::text::{chars_of, string_of, decimal, decimal_chars, digit_char};

verus! {

/// The directory every user's sockets live in, created `0700` for that user.
pub open spec fn socket_dir_of(uid: u32) -> Seq<char> {
    "/run/webdesk/rfb/"@ + decimal(uid as nat)
}

/// The socket for one user's copy of one app.
pub open spec fn socket_path_of(uid: u32, slug: Seq<char>) -> Seq<char> {
    socket_dir_of(uid) + "/"@ + slug + ".sock"@
}

/// Where the RFB server for this user's copy of this app listens.
pub fn socket_path(uid: u32, slug: &str) -> (r: String)
    ensures
        r@ == socket_path_of(uid, slug@),
{
    let mut v = chars_of("/run/webdesk/rfb/");
    v.extend_from_slice(decimal_chars(uid as u64).as_slice());
    v.extend_from_slice(chars_of("/").as_slice());
    v.extend_from_slice(chars_of(slug).as_slice());
    v.extend_from_slice(chars_of(".sock").as_slice());
    string_of(v.as_slice())
}

/// The directory `socket_path` lives in.
pub fn socket_dir(uid: u32) -> (r: String)
    ensures
        r@ == socket_dir_of(uid),
{
    let mut v = chars_of("/run/webdesk/rfb/");
    v.extend_from_slice(decimal_chars(uid as u64).as_slice());
    string_of(v.as_slice())
}

proof fn lemma_digit_char(d: nat)
    requires
        d < 10,
    ensures
        '0' <= digit_char(d) <= '9',
{
}

proof fn lemma_decimal_digits(n: nat)
    ensures
        decimal(n).len() > 0,
        forall|i: int| 0 <= i < decimal(n).len() ==> '0' <= #[trigger] decimal(n)[i] <= '9',
    decreases n,
{
    if n >= 10 {
        lemma_decimal_digits(n / 10);
        lemma_digit_char(n % 10);
    } else {
        lemma_digit_char(n);
    }
}

proof fn lemma_digit_char_injective(a: nat, b: nat)
    requires
        a < 10,
        b < 10,
        digit_char(a) == digit_char(b),
    ensures
        a == b,
{
}

proof fn lemma_decimal_injective(a: nat, b: nat)
    requires
        decimal(a) == decimal(b),
    ensures
        a == b,
    decreases a,
{
    lemma_decimal_digits(a / 10);
    lemma_decimal_digits(b / 10);
    if a < 10 && b < 10 {
        assert(decimal(a)[0] == digit_char(a));
        assert(decimal(b)[0] == digit_char(b));
        lemma_digit_char_injective(a, b);
    } else if a < 10 {
        assert(decimal(b).len() >= 2);
    } else if b < 10 {
        assert(decimal(a).len() >= 2);
    } else {
        assert(decimal(a).last() == digit_char(a % 10));
        assert(decimal(b).last() == digit_char(b % 10));
        lemma_digit_char_injective(a % 10, b % 10);
        assert(decimal(a / 10) == decimal(a).drop_last());
        assert(decimal(b / 10) == decimal(b).drop_last());
        lemma_decimal_injective(a / 10, b / 10);
    }
}

/// Two people never share one screen: different uids give different sockets,
/// whatever the slug, and every socket lies in its own user's directory.
pub proof fn law_socket_per_user(a: u32, b: u32, slug: Seq<char>)
    ensures
        a != b ==> socket_path_of(a, slug) != socket_path_of(b, slug),
        socket_path_of(a, slug).take(socket_dir_of(a).len() as int) == socket_dir_of(a),
        socket_path_of(a, slug)[socket_dir_of(a).len() as int] == '/',
{
    reveal_strlit("/");
    let pre = "/run/webdesk/rfb/"@;
    let da = decimal(a as nat);
    let db = decimal(b as nat);
    let ra = "/"@ + slug + ".sock"@;
    let pa = socket_path_of(a, slug);
    let pb = socket_path_of(b, slug);
    assert(pa == pre + da + ra);
    assert(pb == pre + db + ra);
    assert(pa.take(socket_dir_of(a).len() as int) =~= socket_dir_of(a));
    assert(pa[socket_dir_of(a).len() as int] == ra[0]);
    if a != b && pa == pb {
        lemma_decimal_digits(a as nat);
        lemma_decimal_digits(b as nat);
        let n: int = pre.len() as int;
        if da.len() < db.len() {
            assert(pa[n + da.len() as int] == '/');
            assert(pb[n + da.len() as int] == db[da.len() as int]);
        } else if db.len() < da.len() {
            assert(pb[n + db.len() as int] == '/');
            assert(pa[n + db.len() as int] == da[db.len() as int]);
        } else {
            assert forall|i: int| 0 <= i < da.len() implies da[i] == db[i] by {
                assert(pa[n + i] == da[i]);
                assert(pb[n + i] == db[i]);
            }
            assert(da =~= db);
            lemma_decimal_injective(a as nat, b as nat);
        }
    }
}

} // verus!
