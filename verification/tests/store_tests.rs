use multi_contas::bookmark::BookmarkManager;
use multi_contas::extension::ExtensionManager;
use multi_contas::folder::FolderManager;
use multi_contas::proxy::{connection_test_result, ProxyManager};
use multi_contas::registry::ProfileRegistry;
use multi_contas::resource::{is_chrome_comm, parse_meminfo, parse_u64};

#[test]
fn proxies_keep_one_default() {
    let mut m = ProxyManager::new();
    let a = m.create("A".into(), "http".into(), "h1".into(), 8080, None, None, None, vec![], true);
    let b = m.create("B".into(), "socks5".into(), "h2".into(), 1080, None, None, None, vec![], true);
    let list = m.list();
    assert_eq!(list.iter().filter(|p| p.is_default).count(), 1);
    assert!(m.get(&b.id).unwrap().is_default);
    assert!(!m.get(&a.id).unwrap().is_default);
    m.set_default(&a.id);
    assert!(m.get(&a.id).unwrap().is_default);
    assert!(!m.get(&b.id).unwrap().is_default);
    assert_eq!(m.proxy_url(&b.id).unwrap(), "socks5://h2:1080");
    assert_eq!(m.proxy_url("zz").unwrap_err(), "Proxy not found");
    m.delete(&a.id);
    assert!(m.get(&a.id).is_none());
}

#[test]
fn proxy_test_results() {
    let ok = connection_test_result(Ok((42, Some("1.2.3.4".into()))));
    assert!(ok.success);
    assert_eq!(ok.latency_ms, Some(42));
    assert_eq!(ok.ip.as_deref(), Some("1.2.3.4"));
    let bad = connection_test_result(Err("refused".into()));
    assert!(!bad.success);
    assert_eq!(bad.error.as_deref(), Some("refused"));
    assert!(bad.latency_ms.is_none());
}

#[test]
fn folders() {
    let mut m = FolderManager::new();
    let f = m.create("Work", None, Some("#abc".into()));
    let g = m.create("Home", Some(f.id.clone()), None);
    assert_eq!(m.list_all().len(), 2);
    assert_eq!(g.parent_id.as_deref(), Some(f.id.as_str()));
    let u = m.update(&f.id, Some("Job".into()), None).unwrap();
    assert_eq!(u.name, "Job");
    assert_eq!(m.update("nope", None, None).unwrap_err(), "Folder not found");
    m.delete(&f.id);
    assert_eq!(m.list_all().len(), 1);
}

#[test]
fn bookmarks_and_sets() {
    let mut m = BookmarkManager::new();
    let b = m.create("p1", "Site", "https://s", None);
    let _c = m.create("p2", "Other", "https://o", None);
    assert_eq!(m.list("p1", None).len(), 1);
    let u = m.update(&b.id, Some("Site2".into()), None, None, Some(4)).unwrap();
    assert_eq!(u.name, "Site2");
    assert_eq!(u.sort_order, 4);
    let f = m.create_folder("p1", "F", None);
    assert_eq!(m.list_folders("p1").len(), 1);
    assert_eq!(f.name, "F");
    let s = m.create_set("p1", "S", vec![b.id.clone()]);
    assert_eq!(m.list_sets("p1").len(), 1);
    assert!(m.apply_set("p1", &s.id).is_ok());
    assert_eq!(m.apply_set("p1", "missing").unwrap_err(), "Set not found");
    m.delete_set(&s.id);
    assert!(m.list_sets("p1").is_empty());
    m.delete(&b.id);
    assert!(m.list("p1", None).is_empty());
}

#[test]
fn extension_catalog_and_states() {
    let mut m = ExtensionManager::new();
    m.add_to_catalog("e1".into(), "One".into(), "d".into(), "u".into(), false, false);
    m.add_to_catalog("e2".into(), "Two".into(), "d".into(), "u".into(), false, true);
    assert_eq!(m.list_catalog().len(), 2);
    assert_eq!(m.set_extension_state("p", "zz", true).unwrap_err(), "Extension not in catalog");
    assert_eq!(m.set_extension_state("p", "e2", true).unwrap_err(), "Extension is blocked");
    assert!(m.set_extension_state("p", "e2", false).is_ok());
    assert!(m.set_extension_state("p", "e1", true).is_ok());
    assert!(m.set_extension_state("p", "e1", false).is_ok());
    let states = m.list_profile_extensions("p");
    assert_eq!(states.len(), 2);
    let e1 = states.iter().find(|s| s.extension_id == "e1").unwrap();
    assert!(!e1.enabled);
    assert_eq!(e1.extension_name, "One");
    m.remove_from_catalog("e1");
    assert_eq!(m.list_catalog().len(), 1);
}

#[test]
fn registry_read_after_write() {
    let mut r = ProfileRegistry::new();
    r.insert("a", 9222, Some(7));
    r.set_ws_url("a", "ws://x");
    assert_eq!(r.get_port("a"), Some(9222));
    assert_eq!(r.get_ws_url("a").as_deref(), Some("ws://x"));
    r.insert("b", 9223, None);
    assert_eq!(r.len(), 2);
    assert_eq!(r.ids(), vec!["a".to_string(), "b".to_string()]);
    r.remove("a");
    assert!(r.get("a").is_none());
    assert_eq!(r.list(), vec![("b".to_string(), 9223)]);
}

#[test]
fn meminfo_is_read() {
    let content = "MemTotal:       16307272 kB\nMemFree:         1021712 kB\nMemAvailable:    8388608 kB\nBuffers: 1 kB\n";
    assert_eq!(parse_meminfo(content), Some(8192));
    assert_eq!(parse_meminfo("MemTotal: 1 kB\n"), None);
    assert_eq!(parse_meminfo("MemAvailable: lots\n"), None);
    assert_eq!(parse_meminfo("MemAvailable:\n"), None);
    assert_eq!(parse_u64(&"+42".chars().collect()), Some(42));
    assert_eq!(parse_u64(&"18446744073709551616".chars().collect()), None);
    assert_eq!(parse_u64(&"".chars().collect()), None);
    assert!(is_chrome_comm("chrome\n"));
    assert!(is_chrome_comm("chromium-browse"));
    assert!(!is_chrome_comm("firefox"));
}

#[test]
fn registry_listing_agrees_with_lookups() {
    let mut r = ProfileRegistry::new();
    r.insert("a", 9222, None);
    r.insert("b", 9223, Some(5));
    r.insert("a", 9224, None);
    for (id, port) in r.list() {
        assert_eq!(r.get_port(&id), Some(port));
    }
    assert_eq!(r.list().len(), 2);
    assert_eq!(r.get_port("a"), Some(9224));
}

#[test]
fn applying_a_set_copies_other_profiles_bookmarks() {
    let mut m = BookmarkManager::new();
    let a = m.create("p1", "Mine", "https://mine", None);
    let b = m.create("p2", "Theirs", "https://theirs", None);
    let s = m.create_set("p2", "S", vec![a.id.clone(), b.id.clone(), "gone".to_string()]);
    m.apply_set("p1", &s.id).unwrap();
    let mine = m.list("p1", None);
    assert_eq!(mine.len(), 2);
    assert_eq!(mine[0].id, a.id);
    let copy = &mine[1];
    assert_ne!(copy.id, b.id);
    assert_eq!((copy.name.as_str(), copy.url.as_str(), copy.profile_id.as_str()), ("Theirs", "https://theirs", "p1"));
    assert_eq!(m.list("p2", None).len(), 1);
}

#[test]
fn a_created_proxy_reads_back() {
    let mut m = ProxyManager::new();
    let c = m.create("Home".into(), "http".into(), "10.0.0.1".into(), 3128, Some("u".into()), Some("p".into()), None, vec!["localhost".into()], false);
    let g = m.get(&c.id).unwrap();
    assert_eq!(g.id, c.id);
    assert_eq!(g.name, "Home");
    assert_eq!(g.host, "10.0.0.1");
    assert_eq!(g.port, 3128);
    assert_eq!(g.username.as_deref(), Some("u"));
    assert_eq!(g.bypass_list, vec!["localhost".to_string()]);
    assert!(m.get("missing").is_none());
}

#[test]
fn registry_history_of_one_id() {
    let mut r = ProfileRegistry::new();
    r.insert("a", 9300, None);
    assert_eq!(r.get_port("a"), Some(9300));
    assert!(r.get_ws_url("a").is_none());
    r.set_pid("a", 41);
    assert_eq!(r.get("a").map(|x| x.pid), Some(Some(41)));
    r.insert("a", 9301, Some(5));
    assert_eq!(r.get_port("a"), Some(9301));
    assert_eq!(r.get("a").map(|x| x.pid), Some(Some(5)));
    r.remove("a");
    assert_eq!(r.get_port("a"), None);
    r.set_ws_url("a", "ws://late");
    assert!(r.get("a").is_none());
}
