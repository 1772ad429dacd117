use nodedesk::agent::{authorize_at, AgentCtx, Denied};
use nodedesk::auth::{
    body_digest, constant_time_eq, hex, new_nonce, signature, unix_now, ReplayGuard, Throttle,
    LOCKOUT_NANOS, MAX_FAILURES, MAX_SKEW_SECS,
};

#[test]
fn signature_is_stable_and_key_dependent() {
    let a = signature("CODE", "GET", "/metrics", 1000, "n1", &body_digest(b""));
    let b = signature("CODE", "GET", "/metrics", 1000, "n1", &body_digest(b""));
    assert_eq!(a, b, "same inputs must produce the same signature");
    let other = signature("OTHER", "GET", "/metrics", 1000, "n1", &body_digest(b""));
    assert_ne!(a, other, "a different code must produce a different signature");
}

#[test]
fn signature_binds_method_path_body_and_nonce() {
    let base = signature("CODE", "GET", "/metrics", 1000, "n1", &body_digest(b""));
    assert_ne!(base, signature("CODE", "POST", "/metrics", 1000, "n1", &body_digest(b"")));
    assert_ne!(base, signature("CODE", "GET", "/power", 1000, "n1", &body_digest(b"")));
    assert_ne!(base, signature("CODE", "GET", "/metrics", 1001, "n1", &body_digest(b"")));
    assert_ne!(base, signature("CODE", "GET", "/metrics", 1000, "n2", &body_digest(b"")));
    assert_ne!(base, signature("CODE", "GET", "/metrics", 1000, "n1", &body_digest(b"x")));
}

#[test]
fn nonces_are_accepted_once() {
    let mut guard = ReplayGuard::default();
    let now = unix_now();
    assert!(guard.accept("nonce-a", now));
    assert!(!guard.accept("nonce-a", now), "replayed nonce must be rejected");
    assert!(guard.accept("nonce-b", now));
}

#[test]
fn throttle_locks_out_after_repeated_failures() {
    let mut throttle = Throttle::default();
    assert!(throttle.allowed("10.0.0.9"));
    for _ in 0..MAX_FAILURES {
        throttle.record_failure("10.0.0.9");
    }
    assert!(!throttle.allowed("10.0.0.9"), "peer must be locked out");
    assert!(throttle.allowed("10.0.0.10"), "lockout must not affect other peers");
}

#[test]
fn throttle_forgets_a_peer_after_success() {
    let mut throttle = Throttle::default();
    for _ in 0..(MAX_FAILURES - 1) {
        throttle.record_failure("10.0.0.11");
    }
    throttle.record_success("10.0.0.11");
    for _ in 0..(MAX_FAILURES - 1) {
        throttle.record_failure("10.0.0.11");
    }
    assert!(throttle.allowed("10.0.0.11"), "success must reset the failure count");
}

#[test]
fn constant_time_compare() {
    assert!(constant_time_eq(b"abc", b"abc"));
    assert!(!constant_time_eq(b"abc", b"abd"));
    assert!(!constant_time_eq(b"abc", b"abcd"));
}

#[test]
fn hex_encoding() {
    assert_eq!(hex(&[0x00, 0x0f, 0xff]), "000fff");
}

#[test]
fn sha256_digest_of_known_input() {
    // SHA-256 of the empty string.
    assert_eq!(
        body_digest(b""),
        "e3b0c44298fc1c149afbf4c8996fb92427ae41e4649b934ca495991b7852b855"
    );
    assert_eq!(
        body_digest(b"abc"),
        "ba7816bf8f01cfea414140de5dae2223b00361a396177a9cb410ff61f20015ad"
    );
}

#[test]
fn nonces_are_long_and_fresh() {
    let a = new_nonce();
    let b = new_nonce();
    assert_eq!(a.len(), 32);
    assert!(a.chars().all(|c| c.is_ascii_hexdigit()));
    assert_ne!(a, b);
}

#[test]
fn replay_guard_accepts_at_a_fixed_time() {
    let mut guard = ReplayGuard::new();
    assert!(guard.accept_at("n", 1000, 1000));
    assert!(!guard.accept_at("n", 1000, 1050));
    assert!(guard.accept_at("m", 1000, 1050));
}

#[test]
fn throttle_lockout_ends_after_its_time() {
    let mut throttle = Throttle::new();
    for _ in 0..MAX_FAILURES {
        throttle.record_failure_at("p", 1);
    }
    assert!(!throttle.allowed_at("p", 2));
    assert!(throttle.allowed_at("p", 1 + LOCKOUT_NANOS));
}

const CODE: &str = "TEST-CODE";

fn signed_headers(code: &str, method: &str, target: &str, ts: i64, nonce: &str, body: &[u8]) -> String {
    signature(code, method, target, ts, nonce, &body_digest(body))
}

#[test]
fn a_signed_request_is_accepted_once() {
    let mut ctx = AgentCtx::new(CODE.to_string());
    let ts = 5000i64;
    let sig = signed_headers(CODE, "GET", "/metrics", ts, "n-1", b"");
    let ts_text = ts.to_string();
    let ok = authorize_at(&mut ctx, "peer", "GET", "/metrics", Some(&ts_text), Some("n-1"), Some(&sig), b"", ts, 10);
    assert_eq!(ok, Ok(()));
    let again = authorize_at(&mut ctx, "peer", "GET", "/metrics", Some(&ts_text), Some("n-1"), Some(&sig), b"", ts, 20);
    assert_eq!(again, Err(Denied::Unauthorized), "a replayed request must be refused");
}

#[test]
fn unsigned_stale_and_tampered_requests_are_refused() {
    let mut ctx = AgentCtx::new(CODE.to_string());
    let ts = 5000i64;
    let ts_text = ts.to_string();
    let sig = signed_headers(CODE, "POST", "/power", ts, "n-2", b"{\"action\":\"lock\"}");
    assert_eq!(
        authorize_at(&mut ctx, "peer", "POST", "/power", None, None, None, b"", ts, 1),
        Err(Denied::Unauthorized)
    );
    assert_eq!(
        authorize_at(&mut ctx, "peer", "POST", "/power", Some(&ts_text), Some("n-2"), Some(&sig), b"{\"action\":\"shutdown\"}", ts, 2),
        Err(Denied::Unauthorized),
        "a tampered body must be refused"
    );
    assert_eq!(
        authorize_at(&mut ctx, "peer", "POST", "/metrics", Some(&ts_text), Some("n-2"), Some(&sig), b"{\"action\":\"lock\"}", ts, 3),
        Err(Denied::Unauthorized),
        "a signature must not transfer to another endpoint"
    );
    let late = ts + MAX_SKEW_SECS + 1;
    assert_eq!(
        authorize_at(&mut ctx, "peer", "POST", "/power", Some(&ts_text), Some("n-2"), Some(&sig), b"{\"action\":\"lock\"}", late, 4),
        Err(Denied::Unauthorized),
        "a stale timestamp must be refused"
    );
    let wrong = signed_headers("WRONG", "POST", "/power", ts, "n-2", b"{\"action\":\"lock\"}");
    assert_eq!(
        authorize_at(&mut ctx, "peer", "POST", "/power", Some(&ts_text), Some("n-2"), Some(&wrong), b"{\"action\":\"lock\"}", ts, 5),
        Err(Denied::Unauthorized)
    );
    assert_eq!(
        authorize_at(&mut ctx, "peer", "POST", "/power", Some(&ts_text), Some("n-2"), Some(&sig), b"{\"action\":\"lock\"}", ts, 6),
        Ok(())
    );
}

#[test]
fn repeated_failures_lock_the_peer_out() {
    let mut ctx = AgentCtx::new(CODE.to_string());
    let ts = 7000i64;
    let ts_text = ts.to_string();
    for i in 0..MAX_FAILURES {
        let r = authorize_at(&mut ctx, "guesser", "GET", "/metrics", Some(&ts_text), Some("x"), Some("bad"), b"", ts, i as u128);
        assert_eq!(r, Err(Denied::Unauthorized));
    }
    let sig = signed_headers(CODE, "GET", "/metrics", ts, "good", b"");
    assert_eq!(
        authorize_at(&mut ctx, "guesser", "GET", "/metrics", Some(&ts_text), Some("good"), Some(&sig), b"", ts, 100),
        Err(Denied::Throttled),
        "even a correct request waits out the lockout"
    );
    assert_eq!(
        authorize_at(&mut ctx, "other", "GET", "/metrics", Some(&ts_text), Some("good"), Some(&sig), b"", ts, 100),
        Ok(())
    );
}

#[test]
fn rotating_the_code_takes_effect_at_once() {
    let mut agent = Some(AgentCtx::new(CODE.to_string()));
    nodedesk::agent::rotate_access_code(&mut agent, "NEW-CODE");
    let ctx = agent.as_mut().unwrap();
    assert_eq!(ctx.code().unwrap(), "NEW-CODE");
    let ts = 9000i64;
    let ts_text = ts.to_string();
    let old_sig = signed_headers(CODE, "GET", "/metrics", ts, "r1", b"");
    assert_eq!(
        authorize_at(ctx, "p", "GET", "/metrics", Some(&ts_text), Some("r1"), Some(&old_sig), b"", ts, 1),
        Err(Denied::Unauthorized)
    );
    let new_sig = signed_headers("NEW-CODE", "GET", "/metrics", ts, "r2", b"");
    assert_eq!(
        authorize_at(ctx, "p", "GET", "/metrics", Some(&ts_text), Some("r2"), Some(&new_sig), b"", ts, 2),
        Ok(())
    );
}

#[test]
fn signatures_are_sixty_four_hex_digits() {
    let s = signature("CODE", "GET", "/metrics", 1000, "n1", &body_digest(b""));
    assert_eq!(s.len(), 64);
    assert!(s.chars().all(|c| c.is_ascii_hexdigit() && !c.is_ascii_uppercase()));
}
