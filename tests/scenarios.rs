use signalbus::daemon::{AUTH_FAILED, DaemonState};
use signalbus::protocol::{Request, parse_request};
use signalbus::signal::Signal;

const NOW: u64 = 1_736_467_200;

fn signal(name: &str, timestamp: u64) -> Signal {
    Signal { name: name.to_string(), payload: None, timestamp }
}

fn admin(state: &DaemonState) -> String {
    state.default_admin_token().clone()
}

#[test]
fn basic_pub_sub() {
    let mut state = DaemonState::new(NOW);
    let t0 = admin(&state);
    let (tx, rx) = async_channel::bounded(100);
    let reply = state.respond_listen(&t0, "build:*".to_string(), tx, NOW);
    assert_eq!(reply, Ok("LISTENING\n".to_string()));
    let line = format!("EMIT|{}|{{\"name\":\"build:done\",\"payload\":null,\"timestamp\":1}}\n", t0);
    let (token, json, ttl) = match parse_request(&line) {
        Request::Emit { token, signal_json, ttl } => (token, signal_json, ttl),
        _ => panic!("not an emit"),
    };
    assert_eq!(json, "{\"name\":\"build:done\",\"payload\":null,\"timestamp\":1}");
    let reply = state.respond_emit(&token, Ok(signal("build:done", 1)), ttl, NOW, 0);
    assert_eq!(reply, "OK\n");
    let got = rx.try_recv().expect("one signal delivered");
    assert_eq!(got.name, "build:done");
    assert_eq!(got.timestamp, 1);
    assert!(rx.try_recv().is_err());
}

#[test]
fn wildcard_non_match() {
    let mut state = DaemonState::new(NOW);
    let t0 = admin(&state);
    let (tx, rx) = async_channel::bounded(100);
    assert!(state.respond_listen(&t0, "test:*".to_string(), tx, NOW).is_ok());
    assert_eq!(state.respond_emit(&t0, Ok(signal("build:done", 1)), None, NOW, 0), "OK\n");
    assert!(rx.try_recv().is_err());
}

#[test]
fn history_limit_and_order() {
    let mut state = DaemonState::new(NOW);
    let t0 = admin(&state);
    for (i, name) in ["a", "b", "a", "c", "a"].iter().enumerate() {
        assert_eq!(state.respond_emit(&t0, Ok(signal(name, i as u64 + 1)), None, NOW, 0), "OK\n");
    }
    let got = state.respond_history(&t0, "a", 10, NOW).expect("authorized");
    let stamps: Vec<u64> = got.iter().map(|p| p.signal.timestamp).collect();
    assert_eq!(stamps, vec![5, 3, 1]);
    assert_eq!(signalbus::signal::history_json(&got).matches("\"timestamp\":").count(), 3);
}

#[test]
fn ttl_sweep() {
    let mut state = DaemonState::new(NOW);
    let t0 = admin(&state);
    assert_eq!(state.respond_emit(&t0, Ok(signal("x", NOW)), Some(1), NOW, 0), "OK\n");
    assert_eq!(state.respond_history(&t0, "x", 10, NOW).unwrap().len(), 1);
    state.cleanup_expired(NOW + 61);
    let got = state.respond_history(&t0, "x", 10, NOW + 61).unwrap();
    assert!(got.is_empty());
    assert_eq!(signalbus::signal::history_json(&got), "[]");
}

#[test]
fn rate_limit_burst() {
    let mut state = DaemonState::new(NOW);
    let t0 = admin(&state);
    let (token, pattern, max, per) = match parse_request(&format!("RATE_LIMIT|{}|burst|2|1\n", t0)) {
        Request::RateLimit { token, pattern, max_signals, per_seconds } => (token, pattern, max_signals, per_seconds),
        _ => panic!("not a rate limit"),
    };
    assert_eq!(state.respond_rate_limit(&token, &pattern, max, per, NOW), "Rate limit configured successfully\n");
    assert_eq!(state.respond_emit(&t0, Ok(signal("burst", 1)), None, NOW, 10), "OK\n");
    assert_eq!(state.respond_emit(&t0, Ok(signal("burst", 2)), None, NOW, 20), "OK\n");
    assert_eq!(
        state.respond_emit(&t0, Ok(signal("burst", 3)), None, NOW, 30),
        "ERROR:Rate limit exceeded for signal: burst\n"
    );
    assert_eq!(state.respond_emit(&t0, Ok(signal("burst", 4)), None, NOW + 1, 1030), "OK\n");
}

#[test]
fn auth_and_revoke() {
    let mut state = DaemonState::new(NOW);
    let t0 = admin(&state);
    let reply = state.respond_login("admin", "admin123", NOW);
    assert!(reply.starts_with("TOKEN:"));
    let t1 = signalbus::client::token_from_reply(&reply).expect("a token");
    assert_eq!(t1.len(), 32);
    assert!(t1.chars().all(|c| c.is_ascii_alphanumeric()));
    assert_eq!(state.respond_emit(&t1, Ok(signal("s", 1)), None, NOW, 0), "OK\n");
    assert_eq!(state.respond_revoke_token(&t0, &t1, NOW), "OK\n");
    assert_eq!(state.respond_emit(&t1, Ok(signal("s", 2)), None, NOW, 0), AUTH_FAILED);
    assert_eq!(AUTH_FAILED, "ERROR:Authentication failed or insufficient permissions\n");
}
