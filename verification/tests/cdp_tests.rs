use multi_contas::cdp::{
    comment_outcome, comment_script, cookie_params, event_step, fingerprint_script, login_script, login_url,
    reply_step, select_ws_url, set_cookie_command_id, ws_address, ws_address_from_parts, ws_poll_step, CdpFrame,
    CdpTarget, CookieInput, ReadStep, COMMENT_BEFORE_TEXT, LOGIN_BEFORE_EMAIL, SPOOF_BEFORE_UA, SPOOF_TAIL,
};
use multi_contas::profile::FingerprintConfig;

fn target(kind: Option<&str>, url: Option<&str>) -> CdpTarget {
    CdpTarget { target_type: kind.map(|s| s.to_string()), ws_url: url.map(|s| s.to_string()) }
}

#[test]
fn page_target_is_preferred() {
    let ts = vec![target(Some("worker"), Some("ws://w")), target(Some("page"), Some("ws://p")), target(Some("page"), Some("ws://q"))];
    assert_eq!(select_ws_url(&ts), Some("ws://p".to_string()));
    let none_page = vec![target(Some("worker"), Some("ws://w")), target(None, Some("ws://x"))];
    assert_eq!(select_ws_url(&none_page), Some("ws://w".to_string()));
    let page_without_url = vec![target(Some("page"), None)];
    assert_eq!(select_ws_url(&page_without_url), Some(String::new()));
    assert_eq!(select_ws_url(&vec![]), None);
}

#[test]
fn polling_until_deadline() {
    let ts = vec![target(Some("page"), Some("ws://p"))];
    assert_eq!(ws_poll_step(Some(&ts), false), Ok(Some("ws://p".to_string())));
    assert_eq!(ws_poll_step(None, false), Ok(None));
    assert_eq!(ws_poll_step(Some(&vec![]), false), Ok(None));
    assert_eq!(ws_poll_step(None, true), Err("CDP timeout after 10s".to_string()));
}

#[test]
fn websocket_address_is_rebuilt() {
    assert_eq!(
        ws_address("ws://localhost:9333/devtools/page/ABC", 9222).unwrap(),
        "ws://localhost:9333/devtools/page/ABC"
    );
    assert_eq!(ws_address("ws://127.0.0.1/devtools/browser/x", 9444).unwrap(), "ws://127.0.0.1:9444/devtools/browser/x");
    assert!(ws_address("not a url", 1).unwrap_err().starts_with("URL parse: "));
    assert_eq!(ws_address_from_parts(None, None, "/p", 7), "ws://127.0.0.1:7/p");
    assert_eq!(ws_address_from_parts(Some("h"), Some(8), "", 7), "ws://h:8");
}

#[test]
fn fingerprint_script_uses_defaults_and_values() {
    let mut fp = FingerprintConfig::default_config();
    fp.user_agent = String::new();
    fp.platform = "Linux x86_64".to_string();
    fp.fonts = vec![];
    fp.hardware_concurrency = 12;
    fp.device_memory = 16;
    fp.canvas_noise = true;
    fp.audio_noise = false;
    let s = fingerprint_script(&fp);
    assert!(s.starts_with(SPOOF_BEFORE_UA));
    assert!(s.ends_with(SPOOF_TAIL));
    assert!(s.contains("const UA = \"Mozilla/5.0 (Windows NT 10.0; Win64; x64) AppleWebKit/537.36 (KHTML, like Gecko) Chrome/126.0.0.0 Safari/537.36\";"));
    assert!(s.contains("const PLATFORM = \"Linux x86_64\";"));
    assert!(s.contains("const HARDWARE_CONCURRENCY = 12;"));
    assert!(s.contains("const DEVICE_MEMORY = 16;"));
    assert!(s.contains("const FONTS = [\"Arial\",\"Courier New\",\"Georgia\",\"Times New Roman\",\"Verdana\",\"Segoe UI\",\"Roboto\",\"Open Sans\"];"));
    assert!(s.contains("const CANVAS_NOISE = true;"));
    assert!(s.contains("const AUDIO_NOISE = false;"));
    assert!(s.contains("Object.defineProperty(navigator, 'webdriver', { get: () => false, configurable: false });"));
}

#[test]
fn login_and_comment_scripts_quote_their_text() {
    let s = login_script("a\"b@c", "p");
    assert!(s.starts_with(LOGIN_BEFORE_EMAIL));
    assert!(s.contains("typeText(emailField, \"a\\\"b@c\");"));
    assert!(s.contains("typeText(passField, \"p\");"));
    let c = comment_script("olá");
    assert!(c.starts_with(COMMENT_BEFORE_TEXT));
    assert_eq!(c.matches("\"olá\"").count(), 2);
    assert_eq!(login_url(""), "https://accounts.google.com");
    assert_eq!(login_url("https://x"), "https://x");
}

#[test]
fn comment_outcomes() {
    assert!(comment_outcome(Some("SENT_BUTTON")).is_ok());
    assert!(comment_outcome(None).is_ok());
    assert_eq!(
        comment_outcome(Some("NO_INPUT")).unwrap_err(),
        "Caixa de comentário não encontrada (vídeo pode não ter iniciado ou não é comentável)"
    );
}

#[test]
fn cookie_defaults() {
    let c = CookieInput { name: Some("n".into()), value: None, domain: Some(".x".into()), path: None, secure: Some(true), http_only: None, same_site: None };
    let p = cookie_params(&c);
    assert_eq!(p.name, "n");
    assert_eq!(p.value, "");
    assert_eq!(p.domain, ".x");
    assert_eq!(p.path, "/");
    assert!(p.secure);
    assert!(!p.http_only);
    assert_eq!(p.same_site, "None");
    assert_eq!(set_cookie_command_id(0), 2);
    assert_eq!(set_cookie_command_id(5), 7);
}

#[test]
fn reading_frames() {
    let reply = CdpFrame::Json { id: Some(3), method: None };
    assert!(matches!(reply_step(&reply, 3), ReadStep::Answer));
    assert!(matches!(reply_step(&reply, 4), ReadStep::ReadOn));
    assert!(matches!(reply_step(&CdpFrame::NotJson, 3), ReadStep::ReadOn));
    match reply_step(&CdpFrame::Failed("closed".into()), 3) {
        ReadStep::GiveUp(m) => assert_eq!(m, "CDP read: closed"),
        _ => panic!("a failed read gives up"),
    }
    let ev = CdpFrame::Json { id: None, method: Some("Page.loadEventFired".into()) };
    assert!(matches!(event_step(&ev, "Page.loadEventFired"), ReadStep::Answer));
    assert!(matches!(event_step(&CdpFrame::Other, "Page.loadEventFired"), ReadStep::ReadOn));
    match event_step(&CdpFrame::Failed("x".into()), "e") {
        ReadStep::GiveUp(m) => assert_eq!(m, "CDP wait timeout"),
        _ => panic!("a failed read gives up"),
    }
}

#[test]
fn scripts_escape_text_as_json_strings() {
    let s = login_script("a\"b\\c", "p\nq\u{1}");
    let expected = format!("{}{}", LOGIN_BEFORE_EMAIL, "\"a\\\"b\\\\c\"");
    assert!(s.starts_with(&expected));
    assert!(s.contains("\"p\\nq\\u0001\""));
    let c = comment_script("olá\t!");
    assert!(c.starts_with(&format!("{}{}", COMMENT_BEFORE_TEXT, "\"olá\\t!\"")));
}

#[test]
fn fingerprint_script_canvas_callback_is_async() {
    let s = fingerprint_script(&FingerprintConfig::default_config());
    assert!(s.contains("toBlobOrig.call(this, async function(b) {"));
    assert!(!s.contains("toBlobOrig.call(this, function(b) {"));
}
