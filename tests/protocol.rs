use signalbus::client::{
    create_token_request, emit_request, history_request, is_error_reply, join_commas, listen_request,
    login_request, rate_limit_request, revoke_token_request, show_rate_limits_request, token_from_reply,
};
use signalbus::daemon::{AUTH_FAILED, DaemonState, INVALID_CREDENTIALS};
use signalbus::auth::Permission;
use signalbus::protocol::{
    Request, append_decimal, parse_bounded, parse_permissions, parse_request, split_at_every, split_fields,
};
use signalbus::signal::Signal;

#[test]
fn splitn_keeps_pipes_in_the_last_field() {
    assert_eq!(split_fields("a|b|c|d", 3), vec!["a", "b", "c|d"]);
    assert_eq!(split_fields("abc", 2), vec!["abc"]);
    assert_eq!(split_fields("", 2), vec![""]);
    assert_eq!(split_fields("a|", 2), vec!["a", ""]);
    assert_eq!(split_fields("|x|", 1), vec!["|x|"]);
}

#[test]
fn split_at_every_comma() {
    assert_eq!(split_at_every("Read,Write", ','), vec!["Read", "Write"]);
    assert_eq!(split_at_every("", ','), vec![""]);
    assert_eq!(split_at_every(",a,", ','), vec!["", "a", ""]);
}

#[test]
fn numbers_parse_as_std_does() {
    assert_eq!(parse_bounded("42", u64::MAX), Some(42));
    assert_eq!(parse_bounded("+7", u64::MAX), Some(7));
    assert_eq!(parse_bounded("18446744073709551615", u64::MAX), Some(u64::MAX));
    assert_eq!(parse_bounded("18446744073709551616", u64::MAX), None);
    assert_eq!(parse_bounded("4294967296", u32::MAX as u64), None);
    assert_eq!(parse_bounded("", u64::MAX), None);
    assert_eq!(parse_bounded("+", u64::MAX), None);
    assert_eq!(parse_bounded("-1", u64::MAX), None);
    assert_eq!(parse_bounded("1 ", u64::MAX), None);
    assert_eq!(parse_bounded("007", u64::MAX), Some(7));
    for s in ["0", "12", "+3", "x", "99999999999999999999", "1_0"] {
        assert_eq!(parse_bounded(s, u64::MAX), s.parse::<u64>().ok());
    }
}

#[test]
fn decimal_text() {
    for n in [0u64, 7, 10, 1736467200, u64::MAX] {
        let mut s = String::from("x");
        append_decimal(&mut s, n);
        assert_eq!(s, format!("x{}", n));
    }
}

#[test]
fn permissions_from_text() {
    let p = parse_permissions("Read,History,Bogus");
    assert!(p.contains(Permission::Read));
    assert!(p.contains(Permission::History));
    assert!(!p.contains(Permission::Write));
    assert!(!p.contains(Permission::Admin));
    let q = parse_permissions("read, Write");
    assert!(!q.contains(Permission::Read));
    assert!(!q.contains(Permission::Write));
    assert!(parse_permissions("Admin").contains(Permission::Admin));
    assert!(parse_permissions("RateLimit").contains(Permission::RateLimit));
}

#[test]
fn parse_each_command() {
    match parse_request("LOGIN|admin|admin123\n") {
        Request::Login { user_id, password } => assert_eq!((user_id.as_str(), password.as_str()), ("admin", "admin123")),
        _ => panic!(),
    }
    match parse_request("LOGIN|u|p|q") {
        Request::Login { password, .. } => assert_eq!(password, "p|q"),
        _ => panic!(),
    }
    match parse_request("CREATE_TOKEN|t|bob|Read,Write|60\n") {
        Request::CreateToken { token, user_id, permissions, expires_in } => {
            assert_eq!((token.as_str(), user_id.as_str(), permissions.as_str(), expires_in), ("t", "bob", "Read,Write", Some(60)));
        },
        _ => panic!(),
    }
    match parse_request("CREATE_TOKEN|t|bob|Read|soon") {
        Request::CreateToken { expires_in, .. } => assert_eq!(expires_in, None),
        _ => panic!(),
    }
    match parse_request("REVOKE_TOKEN|a|b\n") {
        Request::RevokeToken { admin_token, token } => assert_eq!((admin_token.as_str(), token.as_str()), ("a", "b")),
        _ => panic!(),
    }
    match parse_request("EMIT|t|{\"a\":\"x|y\"}|30\n") {
        Request::Emit { token, signal_json, ttl } => {
            assert_eq!((token.as_str(), signal_json.as_str(), ttl), ("t", "{\"a\":\"x", None));
        },
        _ => panic!(),
    }
    match parse_request("EMIT|t|{}|30\n") {
        Request::Emit { ttl, .. } => assert_eq!(ttl, Some(30)),
        _ => panic!(),
    }
    match parse_request("LISTEN|t|a|b\n") {
        Request::Listen { token, pattern } => assert_eq!((token.as_str(), pattern.as_str()), ("t", "a|b")),
        _ => panic!(),
    }
    match parse_request("HISTORY|t|a|5\n") {
        Request::History { limit, .. } => assert_eq!(limit, 5),
        _ => panic!(),
    }
    match parse_request("HISTORY|t|a|many\n") {
        Request::History { limit, .. } => assert_eq!(limit, 10),
        _ => panic!(),
    }
    match parse_request("SHOW_RATE_LIMITS|tok\n") {
        Request::ShowRateLimits { token } => assert_eq!(token, "tok"),
        _ => panic!(),
    }
}

fn reply_of(line: &str) -> Option<String> {
    match parse_request(line) {
        Request::Invalid { reply } => Some(reply),
        _ => None,
    }
}

#[test]
fn malformed_requests_get_format_errors() {
    assert_eq!(reply_of("LOGIN|only\n").as_deref(), Some("ERROR:Invalid LOGIN format\n"));
    assert_eq!(reply_of("CREATE_TOKEN|t|u\n").as_deref(), Some("ERROR:Invalid CREATE_TOKEN format\n"));
    assert_eq!(reply_of("REVOKE_TOKEN|t\n").as_deref(), Some("ERROR:Invalid REVOKE_TOKEN format\n"));
    assert_eq!(reply_of("EMIT|t\n").as_deref(), Some("ERROR:Invalid EMIT format\n"));
    assert_eq!(reply_of("LISTEN|t\n").as_deref(), Some("ERROR:Invalid LISTEN format\n"));
    assert_eq!(reply_of("HISTORY|t|p\n").as_deref(), Some("ERROR:Invalid HISTORY format\n"));
    assert_eq!(reply_of("RATE_LIMIT|t|p|1\n").as_deref(), Some("ERROR:Invalid RATE_LIMIT format\n"));
    assert_eq!(reply_of("RATE_LIMIT|t|p|x|1\n").as_deref(), Some("ERROR:Invalid RATE_LIMIT number\n"));
    assert_eq!(reply_of("RATE_LIMIT|t|p|4294967296|1\n").as_deref(), Some("ERROR:Invalid RATE_LIMIT number\n"));
}

#[test]
fn unknown_commands_get_no_reply() {
    assert!(matches!(parse_request("HELLO|x\n"), Request::Unknown));
    assert!(matches!(parse_request("LOGIN\n"), Request::Unknown));
    assert!(matches!(parse_request(""), Request::Unknown));
    assert!(matches!(parse_request("SHOW_RATE_LIMITS\n"), Request::Unknown));
}

#[test]
fn responses_for_each_error() {
    let mut state = DaemonState::new(100);
    let t0 = state.default_admin_token().clone();
    assert_eq!(state.respond_login("admin", "nope", 100), INVALID_CREDENTIALS);
    assert_eq!(state.respond_revoke_token(&t0, "missing", 100), "ERROR:Token not found\n");
    assert_eq!(state.respond_revoke_token("bad", "missing", 100), AUTH_FAILED);
    assert_eq!(state.respond_emit("bad", Err("x".to_string()), None, 100, 0), AUTH_FAILED);
    assert_eq!(state.respond_emit(&t0, Err("expected value at line 1 column 1".to_string()), None, 100, 0), "ERROR:expected value at line 1 column 1\n");
    assert_eq!(state.respond_history("bad", "*", 10, 100).err().as_deref(), Some(AUTH_FAILED));
    assert_eq!(state.respond_rate_limit("bad", "*", 1, 1, 100), AUTH_FAILED);
    assert_eq!(state.respond_show_rate_limits("bad", 100), AUTH_FAILED);
    let (tx, _rx) = async_channel::bounded(100);
    assert_eq!(state.respond_listen("bad", "*".to_string(), tx, 100).err().as_deref(), Some(AUTH_FAILED));
    assert_eq!(state.respond_create_token("bad", "u", "Read", None, 100), AUTH_FAILED);
}

#[test]
fn create_token_grants_listed_permissions() {
    let mut state = DaemonState::new(100);
    let t0 = state.default_admin_token().clone();
    let reply = state.respond_create_token(&t0, "reader", "Read,History", Some(50), 100);
    assert!(reply.starts_with("New token created: "));
    let t = reply.trim_end().trim_start_matches("New token created: ").to_string();
    assert_eq!(t.len(), 32);
    assert!(state.authenticate(&t, Some(Permission::History), 150));
    assert!(!state.authenticate(&t, Some(Permission::History), 151));
    assert!(!state.authenticate(&t, Some(Permission::Write), 100));
    assert_eq!(state.respond_emit(&t, Ok(Signal { name: "n".to_string(), payload: None, timestamp: 1 }), None, 100, 0), AUTH_FAILED);
    assert_eq!(state.respond_create_token(&t, "x", "Admin", None, 100), AUTH_FAILED);
}

#[test]
fn rate_limit_listing() {
    let mut state = DaemonState::new(100);
    let t0 = state.default_admin_token().clone();
    assert_eq!(state.respond_show_rate_limits(&t0, 100), "No rate limits configured\n");
    state.respond_rate_limit(&t0, "burst", 2, 1, 100);
    state.respond_rate_limit(&t0, "build:*", 10, 60, 100);
    state.respond_rate_limit(&t0, "burst", 3, 5, 100);
    assert_eq!(
        state.respond_show_rate_limits(&t0, 100),
        "Configured rate limits:\n  burst: 3 signals per 5 seconds\n  build:*: 10 signals per 60 seconds\n"
    );
}

#[test]
fn publish_reports_listener_count() {
    let mut state = DaemonState::new(100);
    let (tx, rx) = async_channel::bounded(100);
    state.subscribe("a:*".to_string(), tx);
    let s = Signal { name: "a:b".to_string(), payload: None, timestamp: 5 };
    assert_eq!(state.publish(s, Some(9), 0), Ok(1));
    assert_eq!(rx.len(), 1);
    let got = state.get_recent_signals("*", 10);
    assert_eq!((got[0].id, got[0].ttl), (1, Some(9)));
    assert_eq!(state.add_to_history(Signal { name: "z".to_string(), payload: None, timestamp: 6 }, None), 2);
    state.set_rate_limit("z".to_string(), 1, 10);
    assert!(state.check_rate_limit("z", 0));
    assert!(!state.check_rate_limit("z", 1));
    state.cleanup_rate_limit_counters(20_000);
    assert!(state.check_rate_limit("z", 20_000));
    assert!(state.login("admin", "admin123", 100).is_some());
    assert!(state.generate_token("u".to_string(), None, 100).is_some());
    let t = state.generate_token("u".to_string(), None, 100).unwrap();
    assert!(state.revoke_token(&t));
}

#[test]
fn client_request_lines() {
    assert_eq!(login_request("u", "p"), "LOGIN|u|p\n");
    let perms = vec!["Read".to_string(), "Write".to_string()];
    assert_eq!(join_commas(&perms), "Read,Write");
    assert_eq!(join_commas(&vec![]), "");
    assert_eq!(create_token_request("t", "bob", &perms, Some(60)), "CREATE_TOKEN|t|bob|Read,Write|60\n");
    assert_eq!(create_token_request("t", "bob", &perms, None), "CREATE_TOKEN|t|bob|Read,Write\n");
    assert_eq!(revoke_token_request("a", "b"), "REVOKE_TOKEN|a|b\n");
    assert_eq!(emit_request("t", "{}", Some(5)), "EMIT|t|{}|5\n");
    assert_eq!(emit_request("t", "{}", None), "EMIT|t|{}\n");
    assert_eq!(listen_request("t", "a:*"), "LISTEN|t|a:*\n");
    assert_eq!(history_request("t", "a", 10), "HISTORY|t|a|10\n");
    assert_eq!(rate_limit_request("t", "burst", 2, 1), "RATE_LIMIT|t|burst|2|1\n");
    assert_eq!(show_rate_limits_request("t"), "SHOW_RATE_LIMITS|t\n");
}

#[test]
fn client_reply_reading() {
    assert_eq!(token_from_reply("TOKEN:abc\n").as_deref(), Some("abc"));
    assert_eq!(token_from_reply("TOKEN:abc").as_deref(), Some("abc"));
    assert_eq!(token_from_reply("ERROR:Invalid credentials\n"), None);
    assert!(is_error_reply("ERROR:x"));
    assert!(!is_error_reply("OK\n"));
}

#[test]
fn request_lines_parse_back() {
    match parse_request(&rate_limit_request("t", "burst", 2, 1)) {
        Request::RateLimit { token, pattern, max_signals, per_seconds } => {
            assert_eq!((token.as_str(), pattern.as_str(), max_signals, per_seconds), ("t", "burst", 2, 1));
        },
        _ => panic!(),
    }
    match parse_request(&history_request("t", "a:*", 3)) {
        Request::History { token, pattern, limit } => assert_eq!((token.as_str(), pattern.as_str(), limit), ("t", "a:*", 3)),
        _ => panic!(),
    }
}
