use webdesk::proxy::{
    is_hop_by_hop, rewrite_cookie, rewrite_location, session_token, strip_frame_ancestors, strip_session_cookie,
    wants_upgrade,
};

fn cookie_out(s: &str, prefix: &str) -> Option<String> {
    rewrite_cookie(s, prefix)
}

#[test]
fn session_cookie_never_reaches_the_app() {
    let got = strip_session_cookie("wd_session=secret; theme=dark").unwrap();
    assert_eq!(got, "theme=dark");
}

#[test]
fn a_cookie_header_of_only_the_session_is_dropped_entirely() {
    assert!(strip_session_cookie("wd_session=secret").is_none());
}

#[test]
fn a_cookie_named_like_ours_is_not_forwarded_but_a_similar_one_is() {
    assert_eq!(strip_session_cookie("wd_session_id=1; a=2").unwrap(), "wd_session_id=1; a=2");
}

#[test]
fn an_app_cannot_set_the_session_cookie() {
    assert!(cookie_out("wd_session=forged; Path=/", "/app/x").is_none());
}

#[test]
fn an_app_cookie_is_pinned_to_the_app() {
    assert_eq!(cookie_out("sid=abc; Path=/; HttpOnly", "/app/x").unwrap(), "sid=abc; Path=/app/x/; HttpOnly");
}

#[test]
fn a_cookie_with_no_path_still_gets_one() {
    assert_eq!(cookie_out("sid=abc; HttpOnly", "/app/x").unwrap(), "sid=abc; HttpOnly; Path=/app/x/");
}

#[test]
fn a_path_attribute_is_matched_whatever_its_case() {
    assert_eq!(cookie_out("sid=abc; PATH=/deep/link", "/app/x").unwrap(), "sid=abc; Path=/app/x/");
}

#[test]
fn an_absolute_redirect_moves_under_the_prefix() {
    assert_eq!(rewrite_location("/login?next=/x", "/app/x"), "/app/x/login?next=/x");
}

#[test]
fn a_redirect_to_the_apps_own_address_is_moved_too() {
    assert_eq!(rewrite_location("http://127.0.0.1:47000/setup", "/app/x"), "/app/x/setup");
}

#[test]
fn a_redirect_to_somewhere_else_is_left_alone() {
    for url in ["https://example.com/oauth", "//cdn.example.com/x", "relative/path"] {
        assert_eq!(rewrite_location(url, "/app/x"), url);
    }
}

#[test]
fn frame_ancestors_goes_and_the_rest_of_the_policy_stays() {
    let got = strip_frame_ancestors("default-src 'self'; frame-ancestors 'none'; img-src *").unwrap();
    assert_eq!(got, "default-src 'self'; img-src *");
}

#[test]
fn a_policy_that_was_only_frame_ancestors_is_dropped() {
    assert!(strip_frame_ancestors("frame-ancestors 'none'").is_none());
}

#[test]
fn an_upgrade_needs_both_headers() {
    assert!(!wants_upgrade(Some("keep-alive, Upgrade"), false), "no Upgrade header yet");
    assert!(wants_upgrade(Some("keep-alive, Upgrade"), true));
}

#[test]
fn the_session_token_is_read_from_the_cookie_header() {
    assert_eq!(session_token("theme=dark; wd_session=abc123").as_deref(), Some("abc123"));
    assert!(session_token("wd_session_id=1").is_none());
}

#[test]
fn hop_by_hop_headers_are_not_relayed() {
    assert!(is_hop_by_hop("connection"));
    assert!(is_hop_by_hop("transfer-encoding"));
    assert!(!is_hop_by_hop("content-type"));
}
