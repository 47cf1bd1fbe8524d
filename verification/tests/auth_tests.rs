use multi_contas::auth::{
    generate_recovery_codes, totp_uri_for, totp_verdict, AuthManager, AuthStore, LoginAttempt, MAX_LOGIN_ATTEMPTS,
};

const ALPHABET: &str = "ABCDEFGHJKLMNPQRSTUVWXYZ23456789";

fn stored(hash: &str, secret: Option<&str>, enabled: bool, codes: &[&str]) -> AuthStore {
    AuthStore {
        master_password_hash: hash.to_string(),
        email: "me@example.com".to_string(),
        mfa_secret: secret.map(|s| s.to_string()),
        mfa_enabled: enabled,
        recovery_codes: codes.iter().map(|c| c.to_string()).collect(),
        created_at: "t0".to_string(),
        updated_at: "t0".to_string(),
    }
}

#[test]
fn lockout_after_five_failures() {
    let mut m = AuthManager::new(None);
    for i in 1..MAX_LOGIN_ATTEMPTS {
        assert!(m.record_failed_attempt_at("alice", 1_000).is_ok(), "failure {} must not lock", i);
        assert!(m.check_lockout_at("alice", 1_000).is_ok());
    }
    let e = m.record_failed_attempt_at("alice", 1_000).unwrap_err();
    assert_eq!(e, "Too many failed attempts. Account locked for 5 minutes.");
    assert_eq!(m.failed_attempts("alice"), 5);
    let refused = m.check_lockout_at("alice", 1_000).unwrap_err();
    assert_eq!(refused, "Account locked. Try again in 300 seconds");
    let later = m.check_lockout_at("alice", 1_000 + 299_500).unwrap_err();
    assert_eq!(later, "Account locked. Try again in 0 seconds");
    // Another identifier is untouched.
    assert!(m.check_lockout_at("bob", 1_000).is_ok());
    assert_eq!(m.failed_attempts("bob"), 0);
}

#[test]
fn lock_ends_and_counting_restarts() {
    let mut m = AuthManager::new(None);
    for _ in 0..5 {
        let _ = m.record_failed_attempt_at("u", 10);
    }
    assert!(m.check_lockout_at("u", 10 + 300_000).is_ok());
    assert_eq!(m.failed_attempts("u"), 0);
    assert!(m.record_failed_attempt_at("u", 400_000).is_ok());
    assert_eq!(m.failed_attempts("u"), 1);
}

#[test]
fn reset_clears_the_count() {
    let mut m = AuthManager::new(None);
    let _ = m.record_failed_attempt_at("u", 1);
    let _ = m.record_failed_attempt_at("u", 1);
    m.reset_attempts("u");
    assert_eq!(m.failed_attempts("u"), 0);
    assert!(m.check_lockout_at("u", 1).is_ok());
    let a = LoginAttempt { count: 2, locked_until: None };
    assert_eq!(a.count, 2);
}

#[test]
fn not_configured_errors() {
    let m = AuthManager::new(None);
    assert!(!m.is_setup());
    assert_eq!(m.verify_password("x").unwrap_err(), "Auth not configured");
    assert_eq!(m.get_recovery_codes().unwrap_err(), "Auth not configured");
    assert_eq!(m.get_mfa_status().unwrap_err(), "Auth not configured");
    assert_eq!(m.get_totp_uri().unwrap_err(), "Auth not configured");
    assert_eq!(m.verify_totp("123456").unwrap_err(), "Auth not configured");
}

#[test]
fn setup_then_verify_password() {
    let mut m = AuthManager::new(None);
    let res = m.setup("s3cret!", "me@example.com").unwrap();
    assert!(m.is_setup());
    assert!(m.verify_password("s3cret!").is_ok());
    assert_eq!(m.verify_password("wrong").unwrap_err(), "Invalid password");
    assert_eq!(res.recovery_codes.len(), 10);
    for c in &res.recovery_codes {
        assert_eq!(c.chars().count(), 10);
        assert!(c.chars().all(|ch| ALPHABET.contains(ch)));
    }
    assert_eq!(m.get_recovery_codes().unwrap(), res.recovery_codes);
    assert_eq!(m.get_mfa_status().unwrap(), false);
    assert!(res.totp_uri.starts_with("otpauth://totp/BrowserWorkspace:"));
    assert!(res.totp_uri.contains(&format!("secret={}", res.mfa_secret)));
    assert_eq!(m.get_totp_uri().unwrap(), res.totp_uri);
    assert_eq!(m.setup("again", "me@example.com").unwrap_err(), "Auth already configured");
}

#[test]
fn change_password_and_recovery() {
    let mut m = AuthManager::new(None);
    let res = m.setup("old-pass", "me@example.com").unwrap();
    assert_eq!(m.change_password("nope", "new-pass").unwrap_err(), "Invalid password");
    m.change_password("old-pass", "new-pass").unwrap();
    assert!(m.verify_password("new-pass").is_ok());
    assert!(m.verify_password("old-pass").is_err());

    let code = res.recovery_codes[3].clone();
    m.recover_access(&code, "third-pass").unwrap();
    assert!(m.verify_password("third-pass").is_ok());
    assert_eq!(m.get_recovery_codes().unwrap().len(), 9);
    assert_eq!(m.recover_access(&code, "x").unwrap_err(), "Invalid recovery code");
}

#[test]
fn unparsable_hash_is_reported() {
    let m = AuthManager::new(Some(stored("not a phc string", None, false, &[])));
    let e = m.verify_password("x").unwrap_err();
    assert!(e.starts_with("Parse error: "), "{}", e);
}

#[test]
fn mfa_switches() {
    let mut m = AuthManager::new(None);
    let res = m.setup("pw", "me@example.com").unwrap();
    let uri = m.enable_mfa().unwrap();
    assert_eq!(uri, res.totp_uri);
    assert_eq!(m.get_mfa_status().unwrap(), true);
    assert!(m.verify_totp("000000").is_ok() || m.verify_totp("000000").is_err());
    m.disable_mfa().unwrap();
    assert_eq!(m.get_mfa_status().unwrap(), false);
    assert!(m.verify_totp("anything").is_ok());
}

#[test]
fn totp_errors_and_checked_variants() {
    let m = AuthManager::new(Some(stored("h", None, true, &[])));
    assert_eq!(m.verify_totp("1").unwrap_err(), "MFA not configured");
    assert_eq!(m.get_totp_uri().unwrap_err(), "MFA not configured");
    let bad = AuthManager::new(Some(stored("h", Some("not base32!"), true, &[])));
    assert_eq!(bad.verify_totp("1").unwrap_err(), "Invalid secret");
    assert!(bad.get_totp_uri_checked().is_none());
    // A secret that decodes to fewer than sixteen bytes cannot be checked.
    let short = AuthManager::new(Some(stored("h", Some("MFRGG"), true, &[])));
    assert!(short.verify_totp_checked("123456").is_none());
    assert!(!short.is_secret_usable());
}

#[test]
fn totp_uri_needs_a_long_secret_and_no_colon() {
    let secret = "JBSWY3DPEHPK3PXPJBSWY3DPEHPK3PXP";
    let uri = totp_uri_for(secret, "me@example.com").unwrap();
    assert_eq!(
        uri,
        "otpauth://totp/BrowserWorkspace:me%40example.com?secret=JBSWY3DPEHPK3PXPJBSWY3DPEHPK3PXP&issuer=BrowserWorkspace"
    );
    assert!(totp_uri_for(secret, "a:b").is_none());
    assert!(totp_uri_for("JBSWY3DP", "me@example.com").is_none());
}

#[test]
fn verdict_of_a_totp_check() {
    assert!(totp_verdict(Ok(true)).is_ok());
    assert_eq!(totp_verdict(Ok(false)).unwrap_err(), "Invalid TOTP code");
    assert_eq!(totp_verdict(Err("clock".to_string())).unwrap_err(), "TOTP error: clock");
}

#[test]
fn recovery_codes_are_well_formed() {
    let codes = generate_recovery_codes();
    assert_eq!(codes.len(), 10);
    assert!(codes.iter().all(|c| c.len() == 10 && c.chars().all(|ch| ALPHABET.contains(ch))));
}
