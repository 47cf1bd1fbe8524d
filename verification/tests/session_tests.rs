use multi_contas::session::{generate_secret, Claims, RefreshToken, SessionManager, SessionStore};

fn refresh_claims(sub: &str) -> Claims {
    Claims { sub: sub.to_string(), exp: 10, iat: 1, token_type: "refresh".to_string(), jti: "j".to_string() }
}

/// The claims of a token signed with `secret`, read without the expiry check.
fn payload(token: &str, secret: &str) -> serde_json::Value {
    let mut v = jsonwebtoken::Validation::default();
    v.validate_exp = false;
    jsonwebtoken::decode::<serde_json::Value>(token, &jsonwebtoken::DecodingKey::from_secret(secret.as_bytes()), &v)
        .unwrap()
        .claims
}

#[test]
fn sessions_are_issued_with_their_lifetimes() {
    let mut m = SessionManager::new("k".to_string(), None);
    let (access, refresh) = m.create_session_at("user-1", 1_700_000_000, 5).unwrap();
    let a = payload(&access, "k");
    assert_eq!(a["sub"], "user-1");
    assert_eq!(a["token_type"], "access");
    assert_eq!(a["iat"], 1_700_000_000u64);
    assert_eq!(a["exp"], 1_700_000_900u64);
    assert_eq!(a["jti"].as_str().unwrap().len(), 36);
    let r = payload(&refresh, "k");
    assert_eq!(r["token_type"], "refresh");
    assert_ne!(r["jti"], a["jti"]);
    assert_eq!(r["exp"], 1_700_604_800u64);
    assert_eq!(m.store.active_refresh_tokens.len(), 1);
    let rt = &m.store.active_refresh_tokens[0];
    assert_eq!(rt.token, refresh);
    assert_eq!(rt.created_at, "2023-11-14T22:13:20.000000005+00:00");
    assert_eq!(rt.expires_at, "2023-11-21T22:13:20.000000005+00:00");
}

#[test]
fn tokens_of_a_new_session_verify() {
    let mut m = SessionManager::new(generate_secret(), None);
    let (access, refresh) = m.create_session("u").unwrap();
    let c = m.verify_token(&access).unwrap();
    assert_eq!((c.sub.as_str(), c.token_type.as_str()), ("u", "access"));
    assert_eq!(c.exp, c.iat + 900);
    assert_eq!(m.verify_token(&refresh).unwrap().token_type, "refresh");
    let other = SessionManager::new("another secret".to_string(), None);
    assert!(other.verify_token(&access).unwrap_err().starts_with("Invalid token: "));
    assert!(m.verify_token("not a token").unwrap_err().starts_with("Invalid token: "));
}

#[test]
fn revoked_refresh_tokens_are_refused() {
    let mut m = SessionManager::new("k".to_string(), None);
    assert!(m.check_decoded("tok", Ok(Some(refresh_claims("u")))).is_ok());
    m.revoke_token("tok");
    assert!(m.is_revoked("tok"));
    assert_eq!(m.check_decoded("tok", Ok(Some(refresh_claims("u")))).unwrap_err(), "Token revoked");
    // An access token is not checked against the revoked set.
    let access = Claims { sub: "u".into(), exp: 1, iat: 0, token_type: "access".into(), jti: "j".into() };
    assert!(m.check_decoded("tok", Ok(Some(access))).is_ok());
    assert_eq!(m.check_decoded("x", Err("bad sig".into())).unwrap_err(), "Invalid token: bad sig");
    assert_eq!(m.check_decoded("x", Ok(None)).unwrap_err(), "Invalid token: malformed claims");
}

#[test]
fn refresh_works_once() {
    let mut m = SessionManager::new("k".to_string(), None);
    let (a, r) = m.refresh_session_at("rt", Ok(Some(refresh_claims("bob"))), 100, 0).unwrap();
    assert_eq!(payload(&a, "k")["sub"], "bob");
    assert_eq!(payload(&r, "k")["sub"], "bob");
    assert!(m.is_revoked("rt"));
    assert_eq!(m.refresh_session_at("rt", Ok(Some(refresh_claims("bob"))), 200, 0).unwrap_err(), "Token revoked");
    let access = Claims { sub: "bob".into(), exp: 1, iat: 0, token_type: "access".into(), jti: "j".into() };
    assert_eq!(m.refresh_session_at("other", Ok(Some(access)), 300, 0).unwrap_err(), "Invalid token type");
}

#[test]
fn reusing_a_rotated_refresh_token_revokes_the_family() {
    let mut m = SessionManager::new(generate_secret(), None);
    let (a, r) = m.create_session("u").unwrap();
    let (_a2, r2) = m.refresh_session(&r).unwrap();
    assert_ne!(r2, r);
    assert_eq!(m.verify_token(&r2).unwrap().sub, "u");
    assert!(m.is_revoked(&r));
    assert_eq!(m.refresh_session(&r).unwrap_err(), "Token revoked");
    assert!(m.is_revoked(&r2));
    assert_eq!(m.verify_token(&r2).unwrap_err(), "Token revoked");
    assert!(m.store.active_refresh_tokens.is_empty());
    assert_eq!(m.refresh_session(&a).unwrap_err(), "Invalid token type");
    assert!(!m.is_revoked(&a));
}

#[test]
fn stored_revocations_keep_the_last_hundred() {
    let mut m = SessionManager::new("k".to_string(), None);
    for i in 0..105 {
        m.revoke_token(&format!("t{}", i));
    }
    assert_eq!(m.store.revoked_tokens.len(), 100);
    assert_eq!(m.store.revoked_tokens[0], "t5");
    assert_eq!(m.store.revoked_tokens[99], "t104");
    assert!(m.is_revoked("t0"));
}

#[test]
fn revoke_all_revokes_the_tokens_handed_out() {
    let store = SessionStore {
        active_refresh_tokens: vec![
            RefreshToken { token: "a".into(), expires_at: "e".into(), created_at: "c".into() },
            RefreshToken { token: "b".into(), expires_at: "e".into(), created_at: "c".into() },
        ],
        revoked_tokens: vec!["old".into()],
    };
    let mut m = SessionManager::new("k".to_string(), Some(store));
    assert!(m.is_revoked("old"));
    m.revoke_all();
    assert!(m.store.active_refresh_tokens.is_empty());
    assert_eq!(m.store.revoked_tokens, vec!["old".to_string(), "a".to_string(), "b".to_string()]);
    assert!(m.is_revoked("a") && m.is_revoked("b") && m.is_revoked("old"));
}

#[test]
fn revoke_all_refuses_a_live_refresh_token() {
    let mut m = SessionManager::new(generate_secret(), None);
    let (_a, r) = m.create_session("u").unwrap();
    m.revoke_all();
    assert_eq!(m.refresh_session(&r).unwrap_err(), "Token revoked");
    let reloaded = SessionManager::new(m.secret.clone(), Some(SessionStore {
        active_refresh_tokens: Vec::new(),
        revoked_tokens: m.store.revoked_tokens.clone(),
    }));
    assert_eq!(reloaded.verify_token(&r).unwrap_err(), "Token revoked");
}

#[test]
fn secrets_are_three_uuids() {
    let s = generate_secret();
    assert_eq!(s.len(), 108);
    assert_ne!(s, generate_secret());
}
