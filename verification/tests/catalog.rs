use gamut::catalog::{apps_from_entries, apps_from_parsed, chars_less, parse_entry, EntryRecord, ParsedEntry};

fn entry(name: &str, exec: &str) -> ParsedEntry {
    ParsedEntry {
        hidden: false,
        no_display: false,
        kind: Some("Application".to_string()),
        name: Some(name.to_string()),
        exec_line: Some(exec.to_string()),
        exec_words: Some(exec.split(' ').map(|w| w.to_string()).collect()),
    }
}

#[test]
fn entries_are_filtered_deduplicated_and_sorted() {
    let mut hidden = entry("Hidden", "/usr/bin/hidden");
    hidden.hidden = true;
    let mut nodisplay = entry("NoDisplay", "/usr/bin/nd");
    nodisplay.no_display = true;
    let mut link = entry("Link", "/usr/bin/link");
    link.kind = Some("Link".to_string());
    let mut untyped = entry("untyped", "/usr/bin/untyped");
    untyped.kind = None;
    let mut unnamed = entry("x", "/usr/bin/x");
    unnamed.name = None;
    let mut unsplit = entry("Broken", "/usr/bin/broken");
    unsplit.exec_words = None;
    let mut empty_words = entry("Empty", "");
    empty_words.exec_words = Some(Vec::new());

    let entries = vec![
        entry("firefox", "/usr/bin/firefox %u"),
        hidden,
        entry("Files", "/usr/bin/nautilus --new-window"),
        entry("Firefox", "/usr/bin/firefox %u"),
        nodisplay,
        entry("firefox", "/usr/bin/firefox %u"),
        link,
        untyped,
        unnamed,
        unsplit,
        empty_words,
        entry("Alacritty", "alacritty"),
        entry("Files", "/usr/bin/nautilus --new-window"),
    ];
    let apps = apps_from_parsed(&entries);
    let names: Vec<&str> = apps.iter().map(|a| a.name.as_str()).collect();
    assert_eq!(names, vec!["Alacritty", "Files", "firefox", "Firefox", "untyped"]);
    let files = &apps[1];
    assert_eq!(files.command, "/usr/bin/nautilus");
    assert_eq!(files.args, vec!["--new-window".to_string()]);
    assert_eq!(files.exec_line, "/usr/bin/nautilus --new-window");
    assert!(files.matches_query("NAUT"));
    assert_eq!(apps[2].args, vec!["%u".to_string()]);
    assert!(apps[0].args.is_empty());
}

#[test]
fn no_entries_no_apps() {
    assert!(apps_from_parsed(&Vec::new()).is_empty());
    assert!(apps_from_entries(&Vec::new()).is_empty());
}

#[test]
fn name_order_is_by_code_point() {
    let a: Vec<char> = "abc".chars().collect();
    let b: Vec<char> = "abd".chars().collect();
    let p: Vec<char> = "ab".chars().collect();
    assert!(chars_less(&a, &b));
    assert!(!chars_less(&b, &a));
    assert!(chars_less(&p, &a));
    assert!(!chars_less(&a, &a));
    assert!(!chars_less(&a, &p));
}

fn record(name: &str, exec: Option<&str>) -> EntryRecord {
    EntryRecord {
        hidden: false,
        no_display: false,
        kind: Some("Application".to_string()),
        name: Some(name.to_string()),
        default_name: Some(name.to_string()),
        exec_line: exec.map(|e| e.to_string()),
        icon: Some("web-browser".to_string()),
        path: "/usr/share/applications/app.desktop".to_string(),
        gettext_domain: None,
    }
}

#[test]
fn exec_lines_are_split_by_the_desktop_entry_rules() {
    let split = parse_entry(&record("Firefox", Some("\"/usr/bin/firefox %u --icon %i %c %k\"")));
    assert_eq!(
        split.exec_words,
        Some(vec![
            "/usr/bin/firefox".to_string(),
            "--icon".to_string(),
            "web-browser".to_string(),
            "Firefox".to_string(),
            "/usr/share/applications/app.desktop".to_string(),
        ])
    );
    assert_eq!(split.exec_line.as_deref(), Some("\"/usr/bin/firefox %u --icon %i %c %k\""));
    assert_eq!(parse_entry(&record("A", None)).exec_words, None);
    assert_eq!(parse_entry(&record("A", Some("%f"))).exec_words, None);
    assert_eq!(parse_entry(&record("A", Some("A=1 run"))).exec_words, None);
    assert_eq!(parse_entry(&record("A", Some("\"unmatched"))).exec_words, None);
}

#[test]
fn entries_read_from_disk_are_listed() {
    let mut hidden = record("Hidden", Some("/usr/bin/hidden"));
    hidden.hidden = true;
    let entries = vec![
        record("zed", Some("zed %U")),
        hidden,
        record("Alacritty", Some("alacritty")),
        record("Broken", Some("%u")),
        record("alacritty", Some("alacritty")),
    ];
    let apps = apps_from_entries(&entries);
    let names: Vec<&str> = apps.iter().map(|a| a.name.as_str()).collect();
    assert_eq!(names, vec!["Alacritty", "alacritty", "zed"]);
    assert_eq!(apps[2].command, "zed");
    assert!(apps[2].args.is_empty());
}
