use multi_contas::csv::{escape_csv_field, parse_csv_line};
use multi_contas::profile::{Credentials, ProfileManager};
use multi_contas::transfer::{export_profiles_csv, import_profiles_csv, parse_import_rows};

#[test]
fn escape_plain_and_special_fields() {
    assert_eq!(escape_csv_field("plain"), "plain");
    assert_eq!(escape_csv_field("a;b"), "\"a;b\"");
    assert_eq!(escape_csv_field("say \"hi\""), "\"say \"\"hi\"\"\"");
    assert_eq!(escape_csv_field("two\nlines"), "\"two\nlines\"");
    assert_eq!(escape_csv_field(""), "");
}

#[test]
fn parse_fields_with_quotes() {
    assert_eq!(parse_csv_line("a;b;c"), vec!["a", "b", "c"]);
    assert_eq!(parse_csv_line("\"a;b\";c"), vec!["a;b", "c"]);
    assert_eq!(parse_csv_line("\"say \"\"hi\"\"\";x"), vec!["say \"hi\"", "x"]);
    assert_eq!(parse_csv_line(""), vec![""]);
    assert_eq!(parse_csv_line(";"), vec!["", ""]);
}

#[test]
fn escaped_fields_read_back() {
    let fields = vec!["x;y", "q\"uote", "", "plain"];
    let line: Vec<String> = fields.iter().map(|f| escape_csv_field(f)).collect();
    assert_eq!(parse_csv_line(&line.join(";")), fields);
}

#[test]
fn export_writes_header_and_rows() {
    let mut m = ProfileManager::new();
    let g = m.create_group("Team".to_string(), "#000".to_string());
    let p = m.create(
        "/tmp/profiles",
        "Ana;B".to_string(),
        "#111".to_string(),
        "desc".to_string(),
        vec!["t1".to_string(), "t2".to_string()],
        Some(Credentials { email: "a@b.c".into(), password: "p\"w".into(), url: "https://x".into() }),
        None,
    );
    m.set_profile_group(&p.id, Some(g.id.clone())).unwrap();
    let csv = export_profiles_csv(&m.list(), &m.list_groups());
    assert_eq!(
        csv,
        "name;color;description;tags;email;password;url;group\n\"Ana;B\";#111;desc;t1,t2;a@b.c;\"p\"\"w\";https://x;Team\n"
    );
}

#[test]
fn import_skips_header_short_and_nameless_lines() {
    let csv = "name;color;description;tags;email;password;url;group\n\
               Ana;;d; t1 , t2 ;a@b.c;pw;;G1\n\
               \n\
               only;three;fields\n\
               ;#fff;x;;;;;\n\
               Bia;#123;;;;;;\r\n";
    let rows = parse_import_rows(csv);
    assert_eq!(rows.len(), 2);
    assert_eq!(rows[0].name, "Ana");
    assert_eq!(rows[0].color, "#6366F1");
    assert_eq!(rows[0].tags, vec!["t1", "t2"]);
    let c = rows[0].credentials.as_ref().unwrap();
    assert_eq!(c.email, "a@b.c");
    assert_eq!(c.password, "pw");
    assert_eq!(c.url, "https://accounts.google.com");
    assert_eq!(rows[0].group_name, "G1");
    assert_eq!(rows[1].name, "Bia");
    assert_eq!(rows[1].color, "#123");
    assert!(rows[1].tags.is_empty());
    assert!(rows[1].credentials.is_none());
}

#[test]
fn import_creates_profiles_and_groups() {
    let mut m = ProfileManager::new();
    let existing = m.create_group("G1".to_string(), "#aaa".to_string());
    let csv = "h\nA;;;;;;;G1\nB;;;;;;;New\nC;;;;;;;\n";
    let n = import_profiles_csv(&mut m, "/tmp/p", csv);
    assert_eq!(n, 3);
    let profiles = m.list();
    assert_eq!(profiles.len(), 3);
    let a = profiles.iter().find(|p| p.name == "A").unwrap();
    assert_eq!(a.group_id.as_deref(), Some(existing.id.as_str()));
    let groups = m.list_groups();
    let new_group = groups.iter().find(|g| g.name == "New").unwrap();
    assert_eq!(new_group.color, "#6366F1");
    let b = profiles.iter().find(|p| p.name == "B").unwrap();
    assert_eq!(b.group_id.as_deref(), Some(new_group.id.as_str()));
    let c = profiles.iter().find(|p| p.name == "C").unwrap();
    assert!(c.group_id.is_none());
    assert_eq!(c.status, "available");
}

#[test]
fn export_then_import_keeps_the_fields() {
    let mut m = ProfileManager::new();
    m.create(
        "/tmp/p",
        "Zed".to_string(),
        "#222".to_string(),
        "a;b".to_string(),
        vec!["x".to_string()],
        Some(Credentials { email: "z@z".into(), password: "pw".into(), url: "https://u".into() }),
        None,
    );
    let csv = export_profiles_csv(&m.list(), &m.list_groups());
    let rows = parse_import_rows(&csv);
    assert_eq!(rows.len(), 1);
    assert_eq!(rows[0].name, "Zed");
    assert_eq!(rows[0].color, "#222");
    assert_eq!(rows[0].description, "a;b");
    assert_eq!(rows[0].tags, vec!["x"]);
    assert_eq!(rows[0].credentials.as_ref().unwrap().url, "https://u");
}

#[test]
fn import_keeps_existing_profiles_and_appends_rows_in_order() {
    let mut m = ProfileManager::new();
    m.create("/tmp/p", "Existing".to_string(), "#111".to_string(), String::new(), vec![], None, None);
    let csv = "name;color;description;tags;email;password;url;group\nOne;;d1;a, b;;;;\nTwo;#222;d2;;e@x;pw;;\n";
    assert_eq!(import_profiles_csv(&mut m, "/tmp/p", csv), 2);
    let list = m.list();
    assert_eq!(list.len(), 3);
    assert_eq!(list[0].name, "Existing");
    assert_eq!((list[1].name.as_str(), list[1].color.as_str(), list[1].description.as_str()), ("One", "#6366F1", "d1"));
    assert_eq!(list[1].tags, vec!["a".to_string(), "b".to_string()]);
    assert!(list[1].credentials.is_none());
    assert_eq!(list[2].name, "Two");
    let c = list[2].credentials.as_ref().unwrap();
    assert_eq!((c.email.as_str(), c.password.as_str(), c.url.as_str()), ("e@x", "pw", "https://accounts.google.com"));
}
