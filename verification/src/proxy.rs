//! What the reverse proxy rewrites on the way to an app and on the way back.
//!
//! An app reached at `/app/<slug>/` shares WebDesk's origin, so two rules keep
//! it inside its own prefix: WebDesk's session cookie is stripped from what the
//! app is sent, and cookies the app sets are pinned to the app's own path, with
//! any attempt to set the session cookie dropped outright. Redirects are moved
//! back under the prefix, and `frame-ancestors` is removed from any policy the
//! app sends so the desktop may frame it.
//!
//! Every function here works on the text of one header value, as
//! `HeaderValue::to_str` hands it out, and answers with the text of the value
//! to send, or `None` where no header is to be sent at all. An input that
//! `to_str` would not have produced is treated the way the header would have
//! been: as something that cannot be read.

use vstd::prelude::*;
use crate::text::{
    after_first, after_first_of, eq_ignore_case, has_prefix, same_ignoring_case, starts_with,
    tail_from, has_prefix_ignoring_case, starts_with_ignore_case, chars_of, copy_chars, header_valid, header_visible, is_header_valid, is_header_visible, join,
    join_chars, same, split, split_chars, string_of, trim, trim_all, trim_chars, trim_each, views,
};

verus! {

/// The name of WebDesk's own session cookie.
pub const COOKIE: &'static str = "wd_session";

/// The pieces of a `Cookie` or `Set-Cookie` value: split on `;`, trimmed.
pub open spec fn attributes(text: Seq<char>) -> Seq<Seq<char>> {
    trim_all(split(text, ';'))
}

/// The name of one `name=value` cookie: what precedes the first `=`, trimmed.
pub open spec fn cookie_name(c: Seq<char>) -> Seq<char> {
    trim(split(c, '=')[0])
}

/// One cookie the app is allowed to be sent.
pub open spec fn forwarded(c: Seq<char>) -> bool {
    c.len() > 0 && cookie_name(c) != COOKIE@
}

/// Joined the way a `Cookie` header is written: `; ` between each pair.
pub open spec fn cookie_join(parts: Seq<Seq<char>>) -> Seq<char> {
    join(parts, "; "@)
}

/// The `Cookie` value an app is sent, given the one the browser sent.
///
/// Every cookie except WebDesk's own, in the order the browser sent them.
/// `None` when nothing is left to send, or when the text is not a readable
/// header value.
pub open spec fn stripped_cookie(text: Seq<char>) -> Option<Seq<char>> {
    let kept = attributes(text).filter(|c: Seq<char>| forwarded(c));
    if !header_visible(text) || kept.len() == 0 || !header_valid(cookie_join(kept)) {
        None
    } else {
        Some(cookie_join(kept))
    }
}

/// The view of an optional string.
pub open spec fn opt_view(o: Option<String>) -> Option<Seq<char>> {
    match o {
        Some(s) => Some(s@),
        None => None,
    }
}

/// The characters of the session cookie's name.
fn cookie_chars() -> (v: Vec<char>)
    ensures
        v@ == COOKIE@,
{
    chars_of(COOKIE)
}

/// The name part of one cookie.
fn name_of(c: &[char]) -> (r: Vec<char>)
    ensures
        r@ == cookie_name(c@),
{
    let pieces = split_chars(c, '=');
    assert(views(pieces@)[0] == pieces@[0]@);
    trim_chars(pieces[0].as_slice())
}

/// Drop WebDesk's session cookie from what an app is sent.
///
/// An app never has a reason to see it, and one that logged its request
/// headers would otherwise be writing session tokens to disk. A cookie whose
/// name merely begins the same way is somebody else's and is kept.
pub fn strip_session_cookie(text: &str) -> (r: Option<String>)
    ensures
        opt_view(r) == stripped_cookie(text@),
{
    let cs = chars_of(text);
    if !is_header_visible(cs.as_slice()) {
        return None;
    }
    let pieces = trim_each(&split_chars(cs.as_slice(), ';'));
    let ours = cookie_chars();
    let ghost all = views(pieces@);
    let ghost pred = |c: Seq<char>| forwarded(c);
    let mut kept: Vec<Vec<char>> = Vec::new();
    for i in 0..pieces.len()
        invariant
            all == views(pieces@),
            all == attributes(text@),
            ours@ == COOKIE@,
            pred == (|c: Seq<char>| forwarded(c)),
            views(kept@) == all.take(i as int).filter(pred),
    {
        let ghost before = views(kept@);
        proof {
            reveal_with_fuel(Seq::filter, 1);
            assert(all.take(i + 1).drop_last() == all.take(i as int));
            assert(all[i as int] == pieces@[i as int]@);
        }
        let mut keep = false;
        if pieces[i].len() > 0 {
            let name = name_of(pieces[i].as_slice());
            if !same(name.as_slice(), ours.as_slice()) {
                keep = true;
            }
        }
        assert(pieces@[i as int]@ == all[i as int]);
        assert(keep == forwarded(all[i as int]));
        assert(keep == pred(all[i as int]));
        if keep {
            kept.push(copy_chars(pieces[i].as_slice()));
            assert(views(kept@) =~= before.push(all[i as int]));
        }
        assert(all.take(i + 1).filter(pred) == if pred(all[i as int]) {
            all.take(i as int).filter(pred).push(all[i as int])
        } else {
            all.take(i as int).filter(pred)
        });
    }
    assert(all.take(all.len() as int) == all);
    if kept.len() == 0 {
        return None;
    }
    let sep = chars_of("; ");
    let joined = join_chars(&kept, sep.as_slice());
    if !is_header_valid(joined.as_slice()) {
        return None;
    }
    Some(string_of(joined.as_slice()))
}


/// A `Path=` attribute, whatever its case.
pub open spec fn is_path_attr(t: Seq<char>) -> bool {
    starts_with_ignore_case(t, "path="@)
}

/// The attribute every cookie an app sets is given: `Path=<prefix>/`.
pub open spec fn pinned_path(prefix: Seq<char>) -> Seq<char> {
    "Path="@ + prefix + "/"@
}

/// The attributes that are not empty.
pub open spec fn present(attrs: Seq<Seq<char>>) -> Seq<Seq<char>> {
    attrs.filter(|t: Seq<char>| t.len() > 0)
}

/// One attribute of a `Set-Cookie`, with a path replaced by the pinned one.
pub open spec fn pin(t: Seq<char>, prefix: Seq<char>) -> Seq<char> {
    if is_path_attr(t) {
        pinned_path(prefix)
    } else {
        t
    }
}

/// The attributes of a `Set-Cookie` with any path replaced by the pinned one.
pub open spec fn pinned_attrs(attrs: Seq<Seq<char>>, prefix: Seq<char>) -> Seq<Seq<char>> {
    present(attrs).map_values(|t: Seq<char>| pin(t, prefix))
}

proof fn lemma_present_push(a: Seq<Seq<char>>, x: Seq<char>, prefix: Seq<char>)
    ensures
        present(a.push(x)) == if x.len() > 0 { present(a).push(x) } else { present(a) },
        pinned_attrs(a.push(x), prefix) == if x.len() > 0 {
            pinned_attrs(a, prefix).push(pin(x, prefix))
        } else {
            pinned_attrs(a, prefix)
        },
{
    reveal_with_fuel(Seq::filter, 1);
    assert(a.push(x).drop_last() == a);
    if x.len() > 0 {
        assert(pinned_attrs(a.push(x), prefix) =~= pinned_attrs(a, prefix).push(pin(x, prefix)));
    }
}

/// Whether a `Set-Cookie` value carried a path of its own.
pub open spec fn has_path(attrs: Seq<Seq<char>>) -> bool {
    exists|i: int| 0 <= i < attrs.len() && #[trigger] is_path_attr(attrs[i])
}

/// The `Set-Cookie` value the browser is given, for one the app sent.
///
/// `None` when the app tried to set WebDesk's own session cookie. Otherwise
/// the same attributes in the same order, trimmed, with any `Path=` replaced
/// by the app's own prefix -- or that path added at the end when the app named
/// none.
pub open spec fn pinned_cookie(text: Seq<char>, prefix: Seq<char>) -> Option<Seq<char>> {
    let attrs = attributes(text);
    let parts = pinned_attrs(attrs, prefix);
    let all = if has_path(present(attrs)) {
        parts
    } else {
        parts.push(pinned_path(prefix))
    };
    if !header_visible(text) || cookie_name(text) == COOKIE@ || !header_valid(cookie_join(all)) {
        None
    } else {
        Some(cookie_join(all))
    }
}

/// Pin a cookie the app sets to the app's own path, and refuse one that would
/// impersonate the session cookie.
///
/// Without the pinning, an app setting `Path=/` would have its cookie sent to
/// WebDesk and to every other app -- both a privacy leak between apps and a
/// way for two apps with the same cookie name to log each other out.
pub fn rewrite_cookie(text: &str, prefix: &str) -> (r: Option<String>)
    ensures
        opt_view(r) == pinned_cookie(text@, prefix@),
{
    let cs = chars_of(text);
    if !is_header_visible(cs.as_slice()) {
        return None;
    }
    let name = name_of(cs.as_slice());
    let ours = cookie_chars();
    if same(name.as_slice(), ours.as_slice()) {
        return None;
    }
    let pieces = trim_each(&split_chars(cs.as_slice(), ';'));
    let mut want = chars_of("Path=");
    want.extend_from_slice(chars_of(prefix).as_slice());
    want.extend_from_slice(chars_of("/").as_slice());
    assert(want@ == pinned_path(prefix@));
    let path_attr = chars_of("path=");
    let ghost all = views(pieces@);
    let mut parts: Vec<Vec<char>> = Vec::new();
    let mut had_path = false;
    for i in 0..pieces.len()
        invariant
            all == views(pieces@),
            all == attributes(text@),
            path_attr@ == "path="@,
            want@ == pinned_path(prefix@),
            views(parts@) == pinned_attrs(all.take(i as int), prefix@),
            had_path == has_path(present(all.take(i as int))),
    {
        let ghost before = views(parts@);
        let ghost f0 = present(all.take(i as int));
        proof {
            assert(all.take(i + 1) == all.take(i as int).push(all[i as int]));
            lemma_present_push(all.take(i as int), all[i as int], prefix@);
            assert(all[i as int] == pieces@[i as int]@);
        }
        if pieces[i].len() > 0 {
            let is_path = has_prefix_ignoring_case(pieces[i].as_slice(), path_attr.as_slice());
            if is_path {
                had_path = true;
                parts.push(copy_chars(want.as_slice()));
            } else {
                parts.push(copy_chars(pieces[i].as_slice()));
            }
            proof {
                let f1 = present(all.take(i + 1));
                assert(f1 == f0.push(all[i as int]));
                assert(views(parts@) =~= pinned_attrs(all.take(i + 1), prefix@));
                if is_path {
                    assert(is_path_attr(f1[f1.len() - 1]));
                } else if has_path(f1) {
                    let k = choose|k: int| 0 <= k < f1.len() && #[trigger] is_path_attr(f1[k]);
                    if k < f0.len() {
                        assert(f0[k] == f1[k]);
                    }
                }
                if had_path && !is_path {
                    let k = choose|k: int| 0 <= k < f0.len() && #[trigger] is_path_attr(f0[k]);
                    assert(f1[k] == f0[k]);
                }
            }
        } else {
            proof {
                assert(present(all.take(i + 1)) == f0);
            }
        }
    }
    assert(all.take(all.len() as int) == all);
    let ghost pinned = views(parts@);
    if !had_path {
        parts.push(copy_chars(want.as_slice()));
        assert(views(parts@) =~= pinned.push(pinned_path(prefix@)));
    }
    let sep = chars_of("; ");
    let joined = join_chars(&parts, sep.as_slice());
    if !is_header_valid(joined.as_slice()) {
        return None;
    }
    Some(string_of(joined.as_slice()))
}


/// Where a redirect is sent, given where the app sent it.
///
/// An absolute path moves under the prefix; a full URL naming the app's own
/// loopback address moves too, keeping everything after the port; anything
/// else -- another host, a protocol-relative URL, a relative path -- is left
/// exactly as the app wrote it. A value that cannot be read, or whose
/// rewritten form would not be a valid header, is passed on unchanged.
pub open spec fn moved_location(text: Seq<char>, prefix: Seq<char>) -> Seq<char> {
    let moved = if starts_with(text, "//"@) {
        text
    } else if starts_with(text, "/"@) {
        prefix + "/"@ + text.skip(1)
    } else if starts_with(text, "http://127.0.0.1"@) {
        let rest = text.skip(16);
        let path = match after_first(rest, '/') {
            Some(p) => p,
            None => Seq::<char>::empty(),
        };
        prefix + "/"@ + path
    } else {
        text
    };
    if header_visible(text) && header_valid(moved) {
        moved
    } else {
        text
    }
}

/// Move a redirect back under the app's prefix. Absolute-path redirects are the
/// common case; a full URL is only touched when it points at the app itself.
pub fn rewrite_location(text: &str, prefix: &str) -> (r: String)
    ensures
        r@ == moved_location(text@, prefix@),
{
    let cs = chars_of(text);
    let slash = chars_of("/");
    let own = chars_of("http://127.0.0.1");
    proof {
        reveal_strlit("http://127.0.0.1");
        reveal_strlit("/");
        reveal_strlit("//");
    }
    let ghost t = text@;
    let ghost p = prefix@;
    let ghost want = if starts_with(t, "//"@) {
        t
    } else if starts_with(t, "/"@) {
        p + "/"@ + t.skip(1)
    } else if starts_with(t, "http://127.0.0.1"@) {
        let rest = t.skip(16);
        let path = match after_first(rest, '/') {
            Some(q) => q,
            None => Seq::<char>::empty(),
        };
        p + "/"@ + path
    } else {
        t
    };
    let moved: Vec<char> = if has_prefix(cs.as_slice(), chars_of("//").as_slice()) {
        copy_chars(cs.as_slice())
    } else if has_prefix(cs.as_slice(), slash.as_slice()) {
        let mut m = chars_of(prefix);
        m.extend_from_slice(slash.as_slice());
        m.extend_from_slice(tail_from(cs.as_slice(), 1).as_slice());
        m
    } else if has_prefix(cs.as_slice(), own.as_slice()) {
        let rest = tail_from(cs.as_slice(), 16);
        let mut m = chars_of(prefix);
        m.extend_from_slice(slash.as_slice());
        match after_first_of(rest.as_slice(), '/') {
            Some(p) => m.extend_from_slice(p.as_slice()),
            None => {},
        }
        m
    } else {
        copy_chars(cs.as_slice())
    };
    assert(moved@ =~= want);
    if is_header_visible(cs.as_slice()) && is_header_valid(moved.as_slice()) {
        string_of(moved.as_slice())
    } else {
        string_of(cs.as_slice())
    }
}

/// A policy directive that is about who may frame the page.
pub open spec fn frames(d: Seq<char>) -> bool {
    starts_with_ignore_case(d, "frame-ancestors"@)
}

/// One directive of a policy that is kept.
pub open spec fn kept_directive(d: Seq<char>) -> bool {
    d.len() > 0 && !frames(d)
}

/// A `Content-Security-Policy` with its `frame-ancestors` directive removed.
///
/// The rest of the app's policy is left exactly as it was, directive by
/// directive and in order. `None` when nothing is left of it.
pub open spec fn without_frame_ancestors(text: Seq<char>) -> Option<Seq<char>> {
    let kept = attributes(text).filter(|d: Seq<char>| kept_directive(d));
    if !header_visible(text) || kept.len() == 0 || !header_valid(cookie_join(kept)) {
        None
    } else {
        Some(cookie_join(kept))
    }
}

/// Remove a `frame-ancestors` directive so the app's own policy cannot stop it
/// being framed by the desktop that is serving it.
pub fn strip_frame_ancestors(text: &str) -> (r: Option<String>)
    ensures
        opt_view(r) == without_frame_ancestors(text@),
{
    let cs = chars_of(text);
    if !is_header_visible(cs.as_slice()) {
        return None;
    }
    let pieces = trim_each(&split_chars(cs.as_slice(), ';'));
    let fa = chars_of("frame-ancestors");
    let ghost all = views(pieces@);
    let ghost pred = |d: Seq<char>| kept_directive(d);
    let mut kept: Vec<Vec<char>> = Vec::new();
    for i in 0..pieces.len()
        invariant
            all == views(pieces@),
            all == attributes(text@),
            fa@ == "frame-ancestors"@,
            pred == (|d: Seq<char>| kept_directive(d)),
            views(kept@) == all.take(i as int).filter(pred),
    {
        let ghost before = views(kept@);
        proof {
            reveal_with_fuel(Seq::filter, 1);
            assert(all.take(i + 1).drop_last() == all.take(i as int));
            assert(all[i as int] == pieces@[i as int]@);
        }
        let keep = pieces[i].len() > 0 && !has_prefix_ignoring_case(pieces[i].as_slice(), fa.as_slice());
        assert(keep == pred(all[i as int]));
        if keep {
            kept.push(copy_chars(pieces[i].as_slice()));
            assert(views(kept@) =~= before.push(all[i as int]));
        }
    }
    assert(all.take(all.len() as int) == all);
    if kept.len() == 0 {
        return None;
    }
    let sep = chars_of("; ");
    let joined = join_chars(&kept, sep.as_slice());
    if !is_header_valid(joined.as_slice()) {
        return None;
    }
    Some(string_of(joined.as_slice()))
}

/// Whether a `Connection` value names `upgrade` among its tokens.
pub open spec fn names_upgrade(connection: Seq<char>) -> bool {
    exists|i: int|
        0 <= i < split(connection, ',').len() && eq_ignore_case(
            trim(#[trigger] split(connection, ',')[i]),
            "upgrade"@,
        )
}

/// Whether a request asks to change protocols: a `Connection` header that
/// names `upgrade` and an `Upgrade` header beside it. `connection` is `None`
/// when the header is absent or cannot be read.
pub fn wants_upgrade(connection: Option<&str>, has_upgrade: bool) -> (r: bool)
    ensures
        r == (has_upgrade && match connection {
            Some(c) => header_visible(c@) && names_upgrade(c@),
            None => false,
        }),
{
    let c = match connection {
        Some(c) => c,
        None => return false,
    };
    let cs = chars_of(c);
    if !is_header_visible(cs.as_slice()) {
        return false;
    }
    let tokens = split_chars(cs.as_slice(), ',');
    let up = chars_of("upgrade");
    let mut found = false;
    for i in 0..tokens.len()
        invariant
            views(tokens@) == split(c@, ','),
            up@ == "upgrade"@,
            found == exists|j: int| 0 <= j < i && eq_ignore_case(
                trim(#[trigger] split(c@, ',')[j]),
                "upgrade"@,
            ),
    {
        let t = trim_chars(tokens[i].as_slice());
        assert(views(tokens@)[i as int] == tokens@[i as int]@);
        if same_ignoring_case(t.as_slice(), up.as_slice()) {
            found = true;
        }
    }
    found && has_upgrade
}

/// The session token a `Cookie` value carries, if it carries WebDesk's.
///
/// The first cookie, in the order the browser sent them, whose trimmed text
/// has an `=` and whose name before it is exactly the session cookie's.
pub open spec fn token_in(pieces: Seq<Seq<char>>) -> Option<Seq<char>>
    decreases pieces.len(),
{
    if pieces.len() == 0 {
        None
    } else {
        let t = trim(pieces[0]);
        let parts = split(t, '=');
        if parts.len() > 1 && parts[0] == COOKIE@ {
            after_first(t, '=')
        } else {
            token_in(pieces.drop_first())
        }
    }
}

/// The session token in a `Cookie` value, if WebDesk's cookie is there.
pub fn session_token(raw: &str) -> (r: Option<String>)
    ensures
        opt_view(r) == token_in(split(raw@, ';')),
{
    let cs = chars_of(raw);
    let pieces = split_chars(cs.as_slice(), ';');
    let ours = cookie_chars();
    let ghost all = views(pieces@);
    let mut i: usize = 0;
    assert(all.skip(0) == all);
    while i < pieces.len()
        invariant
            all == views(pieces@),
            all == split(raw@, ';'),
            ours@ == COOKIE@,
            i <= all.len(),
            token_in(all) == token_in(all.skip(i as int)),
        decreases all.len() - i,
    {
        let t = trim_chars(pieces[i].as_slice());
        let parts = split_chars(t.as_slice(), '=');
        proof {
            assert(all[i as int] == pieces@[i as int]@);
            assert(all.skip(i as int)[0] == all[i as int]);
            assert(all.skip(i as int).drop_first() == all.skip(i + 1));
            assert(views(parts@)[0] == parts@[0]@);
        }
        if parts.len() > 1 && same(parts[0].as_slice(), ours.as_slice()) {
            let v = after_first_of(t.as_slice(), '=');
            return match v {
                Some(v) => Some(string_of(v.as_slice())),
                None => None,
            };
        }
        i = i + 1;
    }
    assert(all.skip(all.len() as int).len() == 0);
    None
}

/// What happens to one response header on its way back to the browser.
pub enum Relay {
    /// Not sent on.
    Drop,
    /// Sent on as the app wrote it.
    Keep,
    /// A `Set-Cookie`, pinned by `rewrite_cookie`.
    Cookie,
    /// A `Location`, moved by `rewrite_location`.
    Location,
    /// A policy, passed through `strip_frame_ancestors`.
    Policy,
}

/// Headers that describe one hop and must not be forwarded to the next.
pub open spec fn hop_by_hop(name: Seq<char>) -> bool {
    name == "connection"@ || name == "keep-alive"@ || name == "proxy-authenticate"@
        || name == "proxy-authorization"@ || name == "te"@ || name == "trailers"@
        || name == "transfer-encoding"@ || name == "upgrade"@
}

/// Whether a header name is one of the hop-by-hop ones.
pub fn is_hop_by_hop(name: &str) -> (r: bool)
    ensures
        r == hop_by_hop(name@),
{
    let n = chars_of(name);
    same(n.as_slice(), chars_of("connection").as_slice())
        || same(n.as_slice(), chars_of("keep-alive").as_slice())
        || same(n.as_slice(), chars_of("proxy-authenticate").as_slice())
        || same(n.as_slice(), chars_of("proxy-authorization").as_slice())
        || same(n.as_slice(), chars_of("te").as_slice())
        || same(n.as_slice(), chars_of("trailers").as_slice())
        || same(n.as_slice(), chars_of("transfer-encoding").as_slice())
        || same(n.as_slice(), chars_of("upgrade").as_slice())
}

/// The rule for one response header, by its lower-case name.
///
/// `x-frame-options` is never sent: it is advice about a page WebDesk is
/// serving. Hop-by-hop headers go only with a `101 Switching Protocols`, where
/// they are the upgrade. Cookies, redirects and policies are rewritten.
pub open spec fn relay_rule(name: Seq<char>, switching: bool) -> Relay {
    if name == "x-frame-options"@ {
        Relay::Drop
    } else if hop_by_hop(name) && !switching {
        Relay::Drop
    } else if name == "set-cookie"@ {
        Relay::Cookie
    } else if name == "location"@ {
        Relay::Location
    } else if name == "content-security-policy"@ || name == "content-security-policy-report-only"@ {
        Relay::Policy
    } else {
        Relay::Keep
    }
}

/// Each response header the proxy must rewrite goes to its rewriter, and only
/// that header: a `Set-Cookie` is pinned by `rewrite_cookie`, a `Location` is
/// moved under the prefix by `rewrite_location`, and the two policy headers go
/// through `strip_frame_ancestors` -- in an upgrade too. `X-Frame-Options` is
/// always dropped, a hop-by-hop header is dropped except in a `101` upgrade,
/// and every other header is kept as the app wrote it.
pub proof fn law_each_header_goes_to_its_rewriter(name: Seq<char>, switching: bool)
    ensures
        (relay_rule(name, switching) == Relay::Cookie) <==> name == "set-cookie"@,
        (relay_rule(name, switching) == Relay::Location) <==> name == "location"@,
        (relay_rule(name, switching) == Relay::Policy) <==> (name == "content-security-policy"@
            || name == "content-security-policy-report-only"@),
        (relay_rule(name, switching) == Relay::Drop) <==> (name == "x-frame-options"@ || (!switching && (name
            == "connection"@ || name == "keep-alive"@ || name == "proxy-authenticate"@ || name == "proxy-authorization"@
            || name == "te"@ || name == "trailers"@ || name == "transfer-encoding"@ || name == "upgrade"@))),
{
    reveal_strlit("x-frame-options");
    reveal_strlit("set-cookie");
    reveal_strlit("location");
    reveal_strlit("content-security-policy");
    reveal_strlit("content-security-policy-report-only");
    reveal_strlit("connection");
    reveal_strlit("keep-alive");
    reveal_strlit("proxy-authenticate");
    reveal_strlit("proxy-authorization");
    reveal_strlit("te");
    reveal_strlit("trailers");
    reveal_strlit("transfer-encoding");
    reveal_strlit("upgrade");
    let words = seq![
        "x-frame-options"@, "set-cookie"@, "location"@, "content-security-policy"@,
        "content-security-policy-report-only"@, "connection"@, "keep-alive"@, "proxy-authenticate"@,
        "proxy-authorization"@, "te"@, "trailers"@, "transfer-encoding"@, "upgrade"@,
    ];
    assert(words[0].len() == 15 && words[1].len() == 10 && words[2].len() == 8 && words[3].len() == 23);
    assert(words[4].len() == 35 && words[5].len() == 10 && words[6].len() == 10 && words[7].len() == 18);
    assert(words[8].len() == 19 && words[9].len() == 2 && words[10].len() == 8 && words[11].len() == 17);
    assert(words[12].len() == 7);
    assert(words[1][0] == 's' && words[5][0] == 'c' && words[6][0] == 'k');
    assert(words[2][0] == 'l' && words[10][0] == 't');
}

/// What to do with one response header from the app.
pub fn relay_header(name: &str, switching: bool) -> (r: Relay)
    ensures
        r == relay_rule(name@, switching),
{
    let n = chars_of(name);
    if same(n.as_slice(), chars_of("x-frame-options").as_slice()) {
        Relay::Drop
    } else if is_hop_by_hop(name) && !switching {
        Relay::Drop
    } else if same(n.as_slice(), chars_of("set-cookie").as_slice()) {
        Relay::Cookie
    } else if same(n.as_slice(), chars_of("location").as_slice()) {
        Relay::Location
    } else if same(n.as_slice(), chars_of("content-security-policy").as_slice())
        || same(n.as_slice(), chars_of("content-security-policy-report-only").as_slice()) {
        Relay::Policy
    } else {
        Relay::Keep
    }
}

/// The session cookie never reaches an app. Read back as a `Cookie` header,
/// what an app is sent is exactly the browser's cookies, in the order it sent
/// them, less WebDesk's own -- so none of the cookies an app can see is named
/// like the session cookie, and none is empty.
pub proof fn law_session_cookie_is_kept_back(text: Seq<char>)
    ensures
        stripped_cookie(text) matches Some(out) ==> {
            &&& attributes(out) == attributes(text).filter(|c: Seq<char>| forwarded(c))
            &&& forall|i: int| 0 <= i < attributes(out).len() ==> cookie_name(#[trigger] attributes(out)[i]) != COOKIE@ && attributes(out)[i].len() > 0
        },
{
    let pred = |c: Seq<char>| forwarded(c);
    let all = attributes(text);
    let kept = all.filter(pred);
    if let Some(out) = stripped_cookie(text) {
        let pieces = split(text, ';');
        crate::text::lemma_split_pieces(text, ';');
        assert forall|i: int| 0 <= i < kept.len() implies !(#[trigger] kept[i]).contains(';') && trim(kept[i]) == kept[i] && forwarded(kept[i]) by {
            all.lemma_filter_pred(pred, i);
            assert(kept.contains(kept[i]));
            all.lemma_filter_contains_rev(pred, kept[i]);
            let j = choose|j: int| 0 <= j < all.len() && all[j] == kept[i];
            assert(all[j] == trim(pieces[j]));
            crate::text::lemma_trim_inside(pieces[j], ';');
            crate::text::lemma_trim_twice(pieces[j]);
        }
        crate::text::lemma_join_split(kept);
        let sp = crate::text::spaced(kept);
        assert forall|i: int| 0 <= i < sp.len() implies trim(#[trigger] sp[i]) == kept[i] by {
            if i > 0 {
                crate::text::lemma_trim_space(kept[i]);
            }
        }
        assert(attributes(out) =~= kept);
    }
}

/// An app cannot set the session cookie: a `Set-Cookie` naming it is dropped,
/// whatever else it says.
pub proof fn law_app_cannot_set_the_session(text: Seq<char>, prefix: Seq<char>)
    ensures
        cookie_name(text) == COOKIE@ ==> pinned_cookie(text, prefix) is None,
{
}

/// Every cookie an app sets reaches the browser pinned to the app's own path:
/// the attributes it is given include `Path=<prefix>/`, and no other path.
pub proof fn law_app_cookie_is_pinned(text: Seq<char>, prefix: Seq<char>)
    ensures
        pinned_cookie(text, prefix) matches Some(out) ==> exists|all: Seq<Seq<char>>|
            out == #[trigger] cookie_join(all) && all.contains(pinned_path(prefix)) && forall|i: int|
                0 <= i < all.len() && is_path_attr(#[trigger] all[i]) ==> all[i] == pinned_path(prefix),
{
    let attrs = attributes(text);
    let ps = present(attrs);
    let parts = pinned_attrs(attrs, prefix);
    let all = if has_path(ps) {
        parts
    } else {
        parts.push(pinned_path(prefix))
    };
    assert forall|i: int| 0 <= i < parts.len() && is_path_attr(#[trigger] parts[i]) implies parts[i] == pinned_path(prefix) by {
        assert(parts[i] == pin(ps[i], prefix));
    }
    if has_path(ps) {
        let j = choose|j: int| 0 <= j < ps.len() && #[trigger] is_path_attr(ps[j]);
        assert(parts[j] == pin(ps[j], prefix));
        assert(all[j] == pinned_path(prefix));
    } else {
        assert(all[parts.len() as int] == pinned_path(prefix));
        assert forall|i: int| 0 <= i < all.len() && is_path_attr(#[trigger] all[i]) implies all[i] == pinned_path(prefix) by {
            if i < parts.len() {
                assert(all[i] == parts[i]);
            }
        }
    }
}

/// What happens to one request header on its way to an app, by its lower-case
/// name: hop-by-hop headers stay on this hop, the `Cookie` header loses the
/// session cookie, and everything else is passed on as it came.
pub enum Forward {
    Skip,
    Cookie,
    Keep,
}

/// The rule for one request header.
pub open spec fn forward_rule(name: Seq<char>) -> Forward {
    if hop_by_hop(name) {
        Forward::Skip
    } else if name == "cookie"@ {
        Forward::Cookie
    } else {
        Forward::Keep
    }
}

/// How one request header is relayed to an app.
pub fn forward_header(name: &str) -> (r: Forward)
    ensures
        r == forward_rule(name@),
{
    if is_hop_by_hop(name) {
        Forward::Skip
    } else if same(chars_of(name).as_slice(), chars_of("cookie").as_slice()) {
        Forward::Cookie
    } else {
        Forward::Keep
    }
}

/// What a query string adds to a path: `?` and the query, or nothing.
pub open spec fn query_part(query: Option<Seq<char>>) -> Seq<char> {
    match query {
        Some(q) => "?"@ + q,
        None => Seq::empty(),
    }
}

/// The path an app is asked for: origin-form, never an absolute URL, with the
/// prefix already taken off.
pub fn upstream_target(rest: &str, query: Option<&str>) -> (r: String)
    ensures
        r@ == "/"@ + rest@ + query_part(crate::apps::opt_str(query)),
{
    let mut v = chars_of("/");
    v.extend_from_slice(chars_of(rest).as_slice());
    if let Some(q) = query {
        v.extend_from_slice(chars_of("?").as_slice());
        v.extend_from_slice(chars_of(q).as_slice());
    }
    string_of(v.as_slice())
}

/// Where `/app/<slug>` without its slash is sent: the same place with one, so
/// that the app's relative links resolve under its prefix.
pub fn root_redirect(slug: &str, query: Option<&str>) -> (r: String)
    ensures
        r@ == "/app/"@ + slug@ + "/"@ + query_part(crate::apps::opt_str(query)),
{
    let mut v = chars_of("/app/");
    v.extend_from_slice(chars_of(slug).as_slice());
    v.extend_from_slice(chars_of("/").as_slice());
    if let Some(q) = query {
        v.extend_from_slice(chars_of("?").as_slice());
        v.extend_from_slice(chars_of(q).as_slice());
    }
    string_of(v.as_slice())
}

/// The `Host` an app is sent when the browser sent none: its own loopback
/// address.
pub fn loopback_host(port: u16) -> (r: String)
    ensures
        r@ == "127.0.0.1:"@ + crate::text::decimal(port as nat),
{
    let mut v = chars_of("127.0.0.1:");
    v.extend_from_slice(crate::text::decimal_chars(port as u64).as_slice());
    string_of(v.as_slice())
}

/// The scheme the browser used, as `X-Forwarded-Proto` tells the app.
pub fn forwarded_proto(scheme: Option<&str>) -> (r: &'static str)
    ensures
        r@ == if crate::apps::opt_str(scheme) == Some("https"@) {
            "https"@
        } else {
            "http"@
        },
{
    match scheme {
        Some(s) => if same(chars_of(s).as_slice(), chars_of("https").as_slice()) {
            "https"
        } else {
            "http"
        },
        None => "http",
    }
}

/// What the frame shows for a slug with no app behind it.
pub fn not_installed_text(slug: &str) -> (r: String)
    ensures
        r@ == "There is no app called \u{201c}"@ + slug@ + "\u{201d} on this host."@,
{
    let mut v = chars_of("There is no app called \u{201c}");
    v.extend_from_slice(chars_of(slug).as_slice());
    v.extend_from_slice(chars_of("\u{201d} on this host.").as_slice());
    string_of(v.as_slice())
}

/// What the frame shows for an app that did not answer.
pub fn unreachable_text(slug: &str) -> (r: String)
    ensures
        r@ == "\u{201c}"@ + slug@ + "\u{201d} did not answer. It is probably stopped \u{2014} open Apps to start it."@,
{
    let mut v = chars_of("\u{201c}");
    v.extend_from_slice(chars_of(slug).as_slice());
    v.extend_from_slice(chars_of("\u{201d} did not answer. It is probably stopped \u{2014} open Apps to start it.").as_slice());
    string_of(v.as_slice())
}

/// The app's policy cannot stop the desk framing it, and keeps everything
/// else: read back, what the browser is sent is the app's directives in order
/// with every `frame-ancestors` directive gone, whatever its case.
pub proof fn law_frame_ancestors_is_gone(text: Seq<char>)
    ensures
        without_frame_ancestors(text) matches Some(out) ==> {
            &&& attributes(out) == attributes(text).filter(|d: Seq<char>| kept_directive(d))
            &&& forall|i: int| 0 <= i < attributes(out).len() ==> !frames(#[trigger] attributes(out)[i])
        },
{
    let pred = |d: Seq<char>| kept_directive(d);
    let all = attributes(text);
    let kept = all.filter(pred);
    if let Some(out) = without_frame_ancestors(text) {
        let pieces = split(text, ';');
        crate::text::lemma_split_pieces(text, ';');
        assert forall|i: int| 0 <= i < kept.len() implies !(#[trigger] kept[i]).contains(';') && trim(kept[i]) == kept[i] && kept_directive(kept[i]) by {
            all.lemma_filter_pred(pred, i);
            assert(kept.contains(kept[i]));
            all.lemma_filter_contains_rev(pred, kept[i]);
            let j = choose|j: int| 0 <= j < all.len() && all[j] == kept[i];
            assert(all[j] == trim(pieces[j]));
            crate::text::lemma_trim_inside(pieces[j], ';');
            crate::text::lemma_trim_twice(pieces[j]);
        }
        crate::text::lemma_join_split(kept);
        let sp = crate::text::spaced(kept);
        assert forall|i: int| 0 <= i < sp.len() implies trim(#[trigger] sp[i]) == kept[i] by {
            if i > 0 {
                crate::text::lemma_trim_space(kept[i]);
            }
        }
        assert(attributes(out) =~= kept);
    }
}

} // verus!
