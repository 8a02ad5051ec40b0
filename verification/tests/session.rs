use stripe_subscriber_role::services::session::{mint_session, verify_session, verify_session_at};

const SECRET: &str = "test-secret-do-not-use-in-production";

fn far_future() -> i64 {
    chrono::Utc::now().timestamp() + 3600
}

fn far_past() -> i64 {
    chrono::Utc::now().timestamp() - 3600
}

#[test]
fn verify_round_trip() {
    let cookie = mint_session("123", "Alice", far_future(), SECRET);
    let (id, name) = verify_session(&cookie, SECRET).expect("valid cookie should verify");
    assert_eq!(id, "123");
    assert_eq!(name, "Alice");
}

#[test]
fn verify_unicode_display_name() {
    let cookie = mint_session("123", "Aliçe 🦀", far_future(), SECRET);
    let (_, name) = verify_session(&cookie, SECRET).expect("unicode name should round-trip");
    assert_eq!(name, "Aliçe 🦀");
}

#[test]
fn verify_rejects_expired() {
    let cookie = mint_session("123", "Alice", far_past(), SECRET);
    assert!(verify_session(&cookie, SECRET).is_none());
}

#[test]
fn verify_rejects_tampered_signature() {
    let cookie = mint_session("123", "Alice", far_future(), SECRET);
    let mut tampered = cookie.clone();
    let last = tampered.pop().unwrap();
    let new_last = if last == '0' { '1' } else { '0' };
    tampered.push(new_last);
    assert!(verify_session(&tampered, SECRET).is_none());
}

#[test]
fn verify_rejects_wrong_secret() {
    let cookie = mint_session("123", "Alice", far_future(), SECRET);
    assert!(verify_session(&cookie, "different-secret").is_none());
}

#[test]
fn verify_rejects_id_swap() {
    let cookie = mint_session("alice", "Alice", far_future(), SECRET);
    let parts: Vec<&str> = cookie.splitn(4, ':').collect();
    let forged = format!("eve:{}:{}:{}", parts[1], parts[2], parts[3]);
    assert!(verify_session(&forged, SECRET).is_none());
}

#[test]
fn verify_rejects_malformed() {
    assert!(verify_session("", SECRET).is_none());
    assert!(verify_session("only-one-part", SECRET).is_none());
    assert!(verify_session("a:b:c", SECRET).is_none());
    assert!(verify_session("a:b:not-a-number:c", SECRET).is_none());
}

#[test]
fn cookie_is_spelled_out() {
    let cookie = mint_session("42", "A b/~é", -5, "k");
    assert!(cookie.starts_with("42:A%20b%2F~%C3%A9:-5:"));
    let sig = cookie.rsplit(':').next().unwrap();
    assert_eq!(sig.len(), 64);
    assert!(sig.chars().all(|c| c.is_ascii_digit() || ('a'..='f').contains(&c)));
}

#[test]
fn cookie_is_valid_through_its_last_second() {
    let cookie = mint_session("1", "n", 1000, SECRET);
    assert!(verify_session_at(&cookie, SECRET, 1000).is_some());
    assert!(verify_session_at(&cookie, SECRET, 1001).is_none());
}
