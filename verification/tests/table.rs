use webdesk::table::{key_before, Table};

#[test]
fn entries_are_walked_in_key_order() {
    let mut t = Table::new();
    t.insert("vscodium-web".to_string(), 1);
    t.insert("firefox".to_string(), 2);
    t.insert("gimp".to_string(), 3);
    t.insert("Zed".to_string(), 4);
    let keys: Vec<&str> = t.entries.iter().map(|(k, _)| k.as_str()).collect();
    assert_eq!(keys, vec!["Zed", "firefox", "gimp", "vscodium-web"]);
}

#[test]
fn a_write_is_what_a_read_gives_back() {
    let mut t = Table::new();
    t.insert("TZ".to_string(), "Etc/UTC".to_string());
    t.insert("TZ".to_string(), "Europe/London".to_string());
    assert_eq!(t.len(), 1);
    assert_eq!(t.get("TZ").map(String::as_str), Some("Europe/London"));
    t.remove("TZ");
    assert!(t.get("TZ").is_none());
    assert!(!t.contains_key("TZ"));
    t.remove("TZ");
    assert_eq!(t.len(), 0);
}

#[test]
fn keys_are_ordered_by_code_point() {
    assert!(key_before("", "a"));
    assert!(key_before("ab", "b"));
    assert!(key_before("a", "ab"));
    assert!(!key_before("a", "a"));
    assert!(!key_before("b", "ab"));
    assert!(key_before("Z", "a"));
}
