use grweb::session::{
    cleanup_sessions, format_session_id, generate_session_id, get_session_from_headers,
    session_id_from_cookie, Session, SessionStore,
};
use grweb::strmap::StrMap;

#[test]
fn values_read_back_what_was_stored() {
    let mut store = SessionStore::new();
    let s = Session::new(&mut store, None, 100);
    assert!(store.contains(s.id()));
    assert_eq!(s.get(&mut store, "user", 101), None);
    s.insert(&mut store, "user", "ann".to_string(), 102);
    assert_eq!(s.get(&mut store, "user", 103), Some("ann".to_string()));
    s.insert(&mut store, "user", "bo".to_string(), 104);
    assert_eq!(s.get(&mut store, "user", 105), Some("bo".to_string()));
    assert_eq!(s.remove(&mut store, "user", 106), Some("bo".to_string()));
    assert_eq!(s.get(&mut store, "user", 107), None);
    assert_eq!(s.remove(&mut store, "user", 108), None);
}

#[test]
fn sessions_are_separate() {
    let mut store = SessionStore::new();
    store.create_session_with_id("a".to_string(), 0);
    store.create_session_with_id("b".to_string(), 0);
    store.insert("a", "k", "1".to_string(), 1);
    assert_eq!(store.get("b", "k", 2), None);
    assert_eq!(store.get("a", "k", 2), Some("1".to_string()));
    // an unknown session takes no values
    store.insert("zzz", "k", "2".to_string(), 3);
    assert!(!store.contains("zzz"));
    assert_eq!(store.get("zzz", "k", 4), None);
}

#[test]
fn existing_sessions_are_reused() {
    let mut store = SessionStore::new();
    store.create_session_with_id("known".to_string(), 0);
    let s = Session::new(&mut store, Some("known"), 1);
    assert_eq!(s.id(), "known");
    let t = Session::new(&mut store, Some("unknown"), 1);
    assert_ne!(t.id(), "unknown");
    assert!(store.contains(t.id()));
}

#[test]
fn idle_sessions_expire() {
    let mut store = SessionStore::new();
    store.create_session_with_id("old".to_string(), 10);
    store.create_session_with_id("new".to_string(), 50);
    store.insert("old", "k", "v".to_string(), 20);
    cleanup_sessions(&mut store, 80, 60);
    // "old" was last touched at 20, exactly 60 ticks before
    assert!(!store.contains("old"));
    assert!(store.contains("new"));
    store.cleanup_expired(200, 1000);
    assert!(store.contains("new"));
    store.cleanup_expired(50, 0);
    assert!(!store.contains("new"));
}

#[test]
fn reads_refresh_the_access_time() {
    let mut store = SessionStore::new();
    store.create_session_with_id("s".to_string(), 0);
    assert_eq!(store.get("s", "missing", 90), None);
    store.cleanup_expired(100, 50);
    assert!(store.contains("s"));
}

#[test]
fn cookie_parsing() {
    assert_eq!(session_id_from_cookie("theme=dark; session_id=abc123; x=y"), Some("abc123".to_string()));
    assert_eq!(session_id_from_cookie("session_id=first;session_id=second"), Some("first".to_string()));
    assert_eq!(session_id_from_cookie("  session_id=  ;"), Some("".to_string()));
    assert_eq!(session_id_from_cookie("theme=dark"), None);
    assert_eq!(session_id_from_cookie(""), None);
}

#[test]
fn sessions_from_headers() {
    let mut store = SessionStore::new();
    store.create_session_with_id("abc".to_string(), 0);
    let mut h = StrMap::new();
    h.insert("Cookie".to_string(), "a=b; session_id=abc".to_string());
    let s = get_session_from_headers(&h, &mut store, 1);
    assert_eq!(s.id(), "abc");
    let empty = StrMap::new();
    let t = get_session_from_headers(&empty, &mut store, 1);
    assert_ne!(t.id(), "abc");
    assert!(store.contains(t.id()));
}

#[test]
fn cookie_values() {
    let mut store = SessionStore::new();
    store.create_session_with_id("xyz".to_string(), 0);
    let s = Session::new(&mut store, Some("xyz"), 0);
    assert_eq!(s.cookie_value(), "session_id=xyz; Path=/; HttpOnly");
}

#[test]
fn session_identifiers_are_hex() {
    assert_eq!(format_session_id(255, 16), "ff10");
    assert_eq!(format_session_id(0, 0), "00");
    let id = generate_session_id();
    assert!(id.len() >= 2);
    assert!(id.chars().all(|c| c.is_ascii_hexdigit() && !c.is_ascii_uppercase()));
    assert_ne!(generate_session_id(), id);
}

#[test]
fn stored_value_survives_unrelated_calls() {
    let mut store = SessionStore::new();
    let s = Session::new(&mut store, None, 0);
    store.create_session_with_id("other".to_string(), 0);
    s.insert(&mut store, "cart", "3 items".to_string(), 1);
    s.insert(&mut store, "theme", "dark".to_string(), 2);
    s.remove(&mut store, "theme", 3);
    store.insert("other", "cart", "empty".to_string(), 4);
    store.create_session_with_id("third".to_string(), 5);
    assert_eq!(s.get(&mut store, "theme", 6), None);
    cleanup_sessions(&mut store, 7, 100);
    assert_eq!(s.get(&mut store, "cart", 8), Some("3 items".to_string()));
    cleanup_sessions(&mut store, 500, 100);
    assert!(!store.contains(s.id()));
    assert_eq!(s.get(&mut store, "cart", 501), None);
}

#[test]
fn cookie_value_round_trips_through_headers() {
    let mut store = SessionStore::new();
    let s = Session::new(&mut store, None, 0);
    let mut h = StrMap::new();
    h.insert("Cookie".to_string(), format!("theme=dark; {}", s.cookie_value()));
    let t = get_session_from_headers(&h, &mut store, 1);
    assert_eq!(t.id(), s.id());
    assert_eq!(session_id_from_cookie(&s.cookie_value()), Some(s.id().to_string()));
}
