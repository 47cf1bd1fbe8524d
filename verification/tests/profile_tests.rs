use multi_contas::profile::{
    chrome_candidates, launch_args_for, resolve_chrome, user_chrome_path, Credentials, Extension, HostOs, ProfileManager,
};
use multi_contas::registry::ProfileRegistry;

fn new_profile(m: &mut ProfileManager, name: &str) -> String {
    m.create("/data/profiles", name.to_string(), "#6366F1".to_string(), String::new(), vec![], None, None).id
}

#[test]
fn create_lists_and_deletes() {
    let mut m = ProfileManager::new();
    let id = new_profile(&mut m, "Profile A");
    let p = m.list().into_iter().find(|p| p.id == id).unwrap();
    assert_eq!(p.name, "Profile A");
    assert_eq!(p.status, "available");
    assert_eq!(p.id.len(), 36);
    assert!(p.local_dir == format!("/data/profiles/{}", id) || p.local_dir == format!("/data/profiles\\{}", id));
    assert!(p.last_opened_at.is_none());
    m.delete(&id);
    assert!(m.list().is_empty());
}

#[test]
fn second_open_is_refused_while_running() {
    let mut m = ProfileManager::new();
    let id = new_profile(&mut m, "Concurrency Profile");
    let mut reg = ProfileRegistry::new();
    assert!(m.open(&mut reg, &id, false, None, 9222).is_ok());
    assert_eq!(m.list()[0].status, "in_use");
    assert_eq!(m.open(&mut reg, &id, true, None, 9223).unwrap_err(), "Profile already open");
    assert_eq!(reg.get_port(&id), Some(9222));
    // A browser that is gone does not hold the profile.
    assert!(m.open(&mut reg, &id, false, None, 9224).is_ok());
    assert_eq!(reg.get_port(&id), Some(9224));
    assert_eq!(m.open(&mut reg, "missing", false, None, 9222).unwrap_err(), "Profile not found");
}

#[test]
fn close_frees_the_profile_and_registry() {
    let mut m = ProfileManager::new();
    let mut reg = ProfileRegistry::new();
    let id = new_profile(&mut m, "P");
    m.mark_opened(&id);
    reg.insert(&id, 9333, Some(42));
    assert_eq!(m.close(&id, &mut reg), Some(42));
    assert_eq!(m.list()[0].status, "available");
    assert!(reg.get(&id).is_none());
    assert_eq!(m.close(&id, &mut reg), None);
}

#[test]
fn recover_marks_orphans_available() {
    let mut m = ProfileManager::new();
    let a = new_profile(&mut m, "Orphan");
    let b = new_profile(&mut m, "Alive");
    m.mark_opened(&a);
    m.mark_opened(&b);
    let dirty = m.recover(&vec![b.clone()]);
    assert!(dirty);
    let list = m.list();
    assert_eq!(list.iter().find(|p| p.id == a).unwrap().status, "available");
    assert_eq!(list.iter().find(|p| p.id == b).unwrap().status, "in_use");
    assert!(!m.recover(&vec![b.clone()]));
}

#[test]
fn update_and_groups() {
    let mut m = ProfileManager::new();
    let id = new_profile(&mut m, "Old");
    let p = m.update(&id, Some("New".into()), None, Some("d".into()), Some(vec!["t".into()])).unwrap();
    assert_eq!(p.name, "New");
    assert_eq!(p.color, "#6366F1");
    assert_eq!(p.description, "d");
    assert_eq!(p.tags, vec!["t"]);
    assert!(m.update("nope", None, None, None, None).is_err());
    let g1 = m.create_group("A".into(), "#1".into());
    let g2 = m.create_group("B".into(), "#2".into());
    assert_eq!(g2.sort_order, g1.sort_order + 1);
    m.set_profile_group(&id, Some(g1.id.clone())).unwrap();
    m.delete_group(&g1.id);
    assert!(m.list()[0].group_id.is_none());
    assert_eq!(m.list_groups().len(), 1);
    let g = m.update_group(&g2.id, "B2".into(), "#3".into()).unwrap();
    assert_eq!(g.name, "B2");
}

#[test]
fn extensions_of_a_profile() {
    let mut m = ProfileManager::new();
    let id = new_profile(&mut m, "E");
    let ext = Extension { id: "x1".into(), name: "X".into(), description: String::new(), version: "1".into(), enabled: true, install_url: "/ext/x1".into() };
    let p = m.add_extension(&id, ext).unwrap();
    assert_eq!(p.extensions.len(), 1);
    let p = m.toggle_extension(&id, "x1", false).unwrap();
    assert!(!p.extensions[0].enabled);
    let p = m.remove_extension(&id, "x1").unwrap();
    assert!(p.extensions.is_empty());
}

#[test]
fn launch_arguments() {
    let mut m = ProfileManager::new();
    let id = m.create(
        "/d",
        "L".into(),
        "#1".into(),
        String::new(),
        vec![],
        Some(Credentials { email: "e".into(), password: "p".into(), url: "https://start".into() }),
        None,
    ).id;
    let p = m.list().into_iter().find(|p| p.id == id).unwrap();
    let args = launch_args_for(&p, "/d/x", None, 9333);
    assert_eq!(args[0], "--user-data-dir=/d/x");
    assert!(args.contains(&"--remote-debugging-port=9333".to_string()));
    assert!(args.contains(&"--no-first-run".to_string()));
}

#[test]
fn chrome_is_chosen_by_what_exists() {
    let cands = chrome_candidates(HostOs::Other);
    assert_eq!(cands.len(), 5);
    assert_eq!(cands[0], "/usr/bin/google-chrome");
    let none = vec![false; 5];
    assert_eq!(resolve_chrome(Some("/opt/c"), true, &cands, &none, None, false), "/opt/c");
    let mut third = vec![false; 5];
    third[2] = true;
    assert_eq!(resolve_chrome(Some("/opt/c"), false, &cands, &third, None, false), "/usr/bin/chromium");
    let user = user_chrome_path("C:\\Users\\me\\AppData\\Local");
    assert_eq!(user, "C:\\Users\\me\\AppData\\Local\\Google\\Chrome\\Application\\chrome.exe");
    assert_eq!(resolve_chrome(None, false, &cands, &none, Some(&user), true), user);
    assert_eq!(resolve_chrome(None, false, &cands, &none, Some(&user), false), "/usr/bin/google-chrome");
    assert_eq!(chrome_candidates(HostOs::Windows).len(), 3);
    assert_eq!(chrome_candidates(HostOs::MacOs)[2], "/usr/local/bin/google-chrome");
}

#[test]
fn opening_plans_the_launch_and_records_it() {
    let mut m = ProfileManager::new();
    let mut reg = ProfileRegistry::new();
    let id = new_profile(&mut m, "Profile A");
    let other = new_profile(&mut m, "Profile B");
    let plan = m.open(&mut reg, &id, false, None, 9555).unwrap();
    assert_eq!(plan.profile.id, id);
    assert_eq!(plan.profile.status, "available");
    let local = plan.profile.local_dir.clone();
    assert!(plan.profile_dir == format!("{}/chromium", local) || plan.profile_dir == format!("{}\\chromium", local));
    assert_eq!(plan.args[0], format!("--user-data-dir={}", plan.profile_dir));
    assert!(plan.args.contains(&"--remote-debugging-port=9555".to_string()));
    let p = m.list().into_iter().find(|p| p.id == id).unwrap();
    assert_eq!(p.status, "in_use");
    assert!(p.last_opened_at.is_some());
    assert_eq!(reg.get_port(&id), Some(9555));
    reg.set_pid(&id, 77);
    assert_eq!(reg.get(&id).unwrap().pid, Some(77));
    assert_eq!(m.list().into_iter().find(|p| p.id == other).unwrap().status, "available");
}

#[test]
fn a_failed_launch_is_undone() {
    let mut m = ProfileManager::new();
    let mut reg = ProfileRegistry::new();
    let id = new_profile(&mut m, "Profile A");
    let plan = m.open(&mut reg, &id, false, None, 9555).unwrap();
    m.abort_open(&mut reg, plan.profile);
    let p = m.list().into_iter().find(|p| p.id == id).unwrap();
    assert_eq!(p.status, "available");
    assert!(p.last_opened_at.is_none());
    assert_eq!(reg.get_port(&id), None);
}
