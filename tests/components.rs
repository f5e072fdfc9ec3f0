use signalbus::auth::{AuthStore, Permission, PermissionSet, TOKEN_ALPHABET, draw_token};
use signalbus::history::History;
use signalbus::pattern::{pattern_match, same_chars};
use signalbus::ratelimit::{RateLimiter, is_stale};
use signalbus::registry::Registry;
use signalbus::signal::{PersistentSignal, Signal, history_json};

fn signal(name: &str, timestamp: u64) -> Signal {
    Signal { name: name.to_string(), payload: None, timestamp }
}

#[test]
fn star_matches_everything() {
    assert!(pattern_match("*", "build:done"));
    assert!(pattern_match("*", ""));
}

#[test]
fn namespace_pattern_keeps_the_colon() {
    assert!(pattern_match("build:*", "build:done"));
    assert!(pattern_match("build:*", "build:"));
    assert!(!pattern_match("build:*", "builder"));
    assert!(!pattern_match("build:*", "build"));
    assert!(!pattern_match("build:*", "test:done"));
}

#[test]
fn literal_pattern_is_exact() {
    assert!(pattern_match("build:done", "build:done"));
    assert!(!pattern_match("build:done", "build:don"));
    assert!(!pattern_match("build", "build:done"));
    assert!(pattern_match("a*", "a*"));
    assert!(!pattern_match("a*", "ab"));
}

#[test]
fn matching_twice_agrees() {
    for (p, n) in [("*", "x"), ("a:*", "a:b"), ("a:*", "b"), ("x", "x"), ("x", "y")] {
        assert_eq!(pattern_match(p, n), pattern_match(p, n));
    }
}

#[test]
fn same_chars_compares_characters() {
    assert!(same_chars("héllo", "héllo"));
    assert!(!same_chars("hello", "hellO"));
    assert!(!same_chars("a", "ab"));
}

#[test]
fn history_is_bounded() {
    let mut h = History::new(1000);
    for i in 0..1005u64 {
        let id = h.append(signal("s", i), None);
        assert_eq!(id, i + 1);
        assert!(h.len() <= 1000);
    }
    assert_eq!(h.len(), 1000);
    let all = h.recent("*", 2000);
    assert_eq!(all.len(), 1000);
    assert_eq!(all[0].id, 1005);
    assert_eq!(all[999].id, 6);
}

#[test]
fn history_small_capacity_drops_oldest() {
    let mut h = History::new(2);
    h.append(signal("a", 1), None);
    h.append(signal("b", 2), None);
    h.append(signal("c", 3), None);
    let names: Vec<String> = h.recent("*", 10).into_iter().map(|p| p.signal.name).collect();
    assert_eq!(names, vec!["c".to_string(), "b".to_string()]);
}

#[test]
fn recent_takes_newest_matching_first() {
    let mut h = History::new(1000);
    for (i, n) in ["a", "b", "a", "c", "a", "a"].iter().enumerate() {
        h.append(signal(n, i as u64 + 1), None);
    }
    let got = h.recent("a", 3);
    let ids: Vec<u64> = got.iter().map(|p| p.id).collect();
    assert_eq!(ids, vec![6, 5, 3]);
    assert!(ids.windows(2).all(|w| w[0] > w[1]));
    assert_eq!(h.recent("a", 0).len(), 0);
    assert_eq!(h.recent("z", 5).len(), 0);
    assert_eq!(h.recent("a", 10).len(), 4);
}

#[test]
fn sweep_keeps_live_entries_in_order() {
    let mut h = History::new(1000);
    h.append(signal("a", 100), Some(10));
    h.append(signal("b", 100), None);
    h.append(signal("c", 100), Some(50));
    h.append(signal("d", 100), Some(0));
    h.sweep(110);
    let got = h.recent("*", 10);
    let ids: Vec<u64> = got.iter().map(|p| p.id).collect();
    assert_eq!(ids, vec![3, 2]);
    for p in &got {
        assert!(p.ttl.map_or(true, |t| p.signal.timestamp + t > 110));
    }
    let id = h.append(signal("e", 200), None);
    assert_eq!(id, 5);
}

#[test]
fn expiry_boundary() {
    let p = PersistentSignal { signal: signal("a", 100), id: 1, ttl: Some(10) };
    assert!(!p.is_expired(109));
    assert!(p.is_expired(110));
    let q = PersistentSignal { signal: signal("a", u64::MAX), id: 1, ttl: Some(u64::MAX) };
    assert!(!q.is_expired(u64::MAX));
}

#[test]
fn stale_window_edges() {
    assert!(!is_stale(0, 1000, 1));
    assert!(is_stale(0, 1001, 1));
    assert!(!is_stale(5000, 10, 0));
    assert!(!is_stale(0, u64::MAX, u64::MAX));
}

#[test]
fn rate_limiter_sliding_window() {
    let mut l = RateLimiter::new();
    l.set_rule("burst".to_string(), 2, 1);
    assert!(l.check("burst", 0));
    assert!(l.check("burst", 500));
    assert!(!l.check("burst", 900));
    assert!(!l.check("burst", 1000));
    assert!(l.check("burst", 1001));
    assert!(!l.check("burst", 1400));
    assert!(l.check("burst", 1501));
    assert!(l.check("other", 0));
}

#[test]
fn rate_limiter_first_rule_decides_and_replacement_keeps_place() {
    let mut l = RateLimiter::new();
    l.set_rule("a:*".to_string(), 1, 60);
    l.set_rule("*".to_string(), 5, 60);
    assert!(l.check("a:x", 0));
    assert!(!l.check("a:y", 1));
    assert!(l.check("b", 2));
    l.set_rule("a:*".to_string(), 3, 60);
    assert_eq!(l.len(), 2);
    let (p, m, w) = l.rule_at(0);
    assert_eq!((p.as_str(), m, w), ("a:*", 3, 60));
    assert!(l.check("a:z", 3));
    assert!(l.check("a:z", 4));
    assert!(!l.check("a:z", 5));
}

#[test]
fn rate_limiter_zero_max_refuses() {
    let mut l = RateLimiter::new();
    l.set_rule("x".to_string(), 0, 10);
    assert!(!l.check("x", 0));
}

#[test]
fn trim_forgets_old_admissions() {
    let mut l = RateLimiter::new();
    l.set_rule("x".to_string(), 2, 1);
    assert!(l.check("x", 0));
    assert!(l.check("x", 600));
    l.trim(1300);
    assert!(l.check("x", 1300));
    assert!(!l.check("x", 1400));
}

#[test]
fn tokens_have_the_documented_shape() {
    let t = draw_token();
    assert_eq!(t.chars().count(), 32);
    assert!(t.chars().all(|c| TOKEN_ALPHABET.contains(c)));
    assert!(t.chars().all(|c| c.is_ascii_alphanumeric()));
    assert_ne!(draw_token(), draw_token());
}

#[test]
fn permission_sets() {
    let mut s = PermissionSet::none();
    assert!(!s.contains(Permission::Read));
    s.insert(Permission::History);
    assert!(s.contains(Permission::History));
    assert!(!s.grants(Permission::Write));
    s.insert(Permission::Admin);
    assert!(s.grants(Permission::Write));
    assert!(PermissionSet::all().contains(Permission::RateLimit));
    assert!(PermissionSet::read_write().contains(Permission::Write));
    assert!(!PermissionSet::read_write().contains(Permission::History));
}

#[test]
fn token_validity_and_expiry() {
    let mut store = AuthStore::new(1000);
    let admin = store.default_admin_token().clone();
    assert!(store.authenticate(&admin, Some(Permission::Admin), u64::MAX));
    let t = store.generate_token("bob".to_string(), Some(10), 1000).expect("fresh token");
    assert!(store.authenticate(&t, None, 1000));
    assert!(store.authenticate(&t, Some(Permission::Write), 1010));
    assert!(!store.authenticate(&t, Some(Permission::Write), 1011));
    assert!(!store.authenticate(&t, Some(Permission::History), 1000));
    assert!(store.revoke_token(&t));
    assert!(!store.revoke_token(&t));
    assert!(!store.authenticate(&t, None, 1000));
    assert!(!store.authenticate("nope", None, 1000));
}

#[test]
fn issue_refuses_a_token_on_record() {
    let mut store = AuthStore::new(0);
    assert!(store.issue("abc".to_string(), "u".to_string(), None, 0));
    assert!(!store.issue("abc".to_string(), "v".to_string(), Some(1), 0));
    assert!(store.authenticate("abc", Some(Permission::Read), 5));
}

#[test]
fn expiry_saturates() {
    let mut store = AuthStore::new(0);
    let t = store.generate_token("u".to_string(), Some(u64::MAX), 5).unwrap();
    assert!(store.authenticate(&t, None, u64::MAX));
}

#[test]
fn login_checks_the_password() {
    let mut store = AuthStore::new(0);
    assert!(store.login("admin", "wrong", 0).is_none());
    assert!(store.login("nobody", "admin123", 0).is_none());
    let t = store.login("admin", "admin123", 100).expect("token");
    assert!(store.authenticate(&t, Some(Permission::Admin), 3700));
    assert!(!store.authenticate(&t, None, 3701));
}

#[test]
fn user_permissions_snapshot() {
    let mut store = AuthStore::new(0);
    let mut p = PermissionSet::none();
    p.insert(Permission::History);
    store.add_user("h".to_string(), "pw".to_string(), p);
    let t = store.generate_token("h".to_string(), None, 0).unwrap();
    store.add_user("h".to_string(), "pw".to_string(), PermissionSet::all());
    assert!(store.authenticate(&t, Some(Permission::History), 0));
    assert!(!store.authenticate(&t, Some(Permission::Write), 0));
    assert_eq!(store.user_permissions("unknown"), PermissionSet::read_write());
}

#[test]
fn fanout_counts_matching_listeners() {
    let mut r = Registry::new();
    let (tx1, rx1) = async_channel::bounded(100);
    let (tx2, rx2) = async_channel::bounded(1);
    let (tx3, rx3) = async_channel::bounded(100);
    r.subscribe("build:*".to_string(), tx1.clone());
    r.subscribe("build:*".to_string(), tx1);
    r.subscribe("*".to_string(), tx2);
    r.subscribe("test:*".to_string(), tx3);
    assert_eq!(r.len(), 4);
    assert_eq!(r.fanout(&signal("build:a", 1)), 3);
    assert_eq!(rx1.len(), 2);
    assert_eq!(rx2.len(), 1);
    assert_eq!(rx3.len(), 0);
    assert_eq!(r.fanout(&signal("build:b", 2)), 3);
    assert_eq!(rx2.len(), 1);
    drop(rx3);
    assert_eq!(r.fanout(&signal("test:c", 3)), 2);
}

#[test]
fn signal_new_checks_payload() {
    let s = Signal::new("n".to_string(), Some("{\"ok\":true}".to_string()), 7).expect("valid");
    assert_eq!(s.payload.as_deref(), Some("{\"ok\":true}"));
    assert_eq!(s.timestamp, 7);
    assert!(Signal::new("n".to_string(), Some("{oops".to_string()), 7).is_err());
    assert!(Signal::new("n".to_string(), None, 7).is_ok());
}

#[test]
fn signal_json_exact() {
    let s = Signal { name: "build:done".to_string(), payload: Some("{\"ok\":true}".to_string()), timestamp: 1736467200 };
    assert_eq!(s.to_json(), "{\"name\":\"build:done\",\"payload\":{\"ok\":true},\"timestamp\":1736467200}");
    let p = PersistentSignal { signal: signal("x", 3), id: 42, ttl: Some(60) };
    assert_eq!(p.to_json(), "{\"signal\":{\"name\":\"x\",\"payload\":null,\"timestamp\":3},\"id\":42,\"ttl\":60}");
    let q = PersistentSignal { signal: signal("x", 3), id: 1, ttl: None };
    assert_eq!(history_json(&vec![p.duplicate(), q]), format!("[{},{{\"signal\":{{\"name\":\"x\",\"payload\":null,\"timestamp\":3}},\"id\":1,\"ttl\":null}}]", p.to_json()));
}

#[test]
fn signal_json_escapes_names() {
    let s = signal("say \"hi\"\n", 0);
    let text = s.to_json();
    assert!(text.starts_with("{\"name\":\"say \\\"hi\\\"\\n\","));
}

#[test]
fn json_round_trip() {
    let s = Signal { name: "a\"b".to_string(), payload: Some("[1,2,{\"k\":null}]".to_string()), timestamp: 99 };
    let v: serde_json::Value = serde_json::from_str(&s.to_json()).unwrap();
    assert_eq!(v["name"], "a\"b");
    assert_eq!(v["payload"], serde_json::from_str::<serde_json::Value>("[1,2,{\"k\":null}]").unwrap());
    assert_eq!(v["timestamp"], 99);
    let p = PersistentSignal { signal: s, id: u64::MAX, ttl: None };
    let w: serde_json::Value = serde_json::from_str(&p.to_json()).unwrap();
    assert_eq!(w["id"].as_u64(), Some(u64::MAX));
    assert!(w["ttl"].is_null());
    assert_eq!(w["signal"], v);
}

#[test]
fn multi_line_payload_is_refused() {
    assert!(Signal::new("n".to_string(), Some("{\n\"ok\": true\n}".to_string()), 1).is_err());
    let s = Signal::new("n".to_string(), Some("{\"ok\": true}".to_string()), 1).unwrap();
    assert!(!s.to_json().contains('\n'));
}

#[test]
fn json_escapes_control_characters() {
    let s = signal("a\tb\u{1}c\\", 0);
    assert!(s.to_json().starts_with("{\"name\":\"a\\tb\\u0001c\\\\\","));
}

#[test]
fn fanout_offers_each_matching_listener_once() {
    let mut r = Registry::new();
    let (tx_a, rx_a) = async_channel::bounded(100);
    let (tx_b, rx_b) = async_channel::bounded(100);
    r.subscribe("build:*".to_string(), tx_a);
    r.subscribe("test:*".to_string(), tx_b);
    assert_eq!(r.fanout(&signal("build:done", 1)), 1);
    let got = rx_a.try_recv().unwrap();
    assert_eq!((got.name.as_str(), got.timestamp), ("build:done", 1));
    assert!(rx_a.try_recv().is_err());
    assert!(rx_b.try_recv().is_err());
}
