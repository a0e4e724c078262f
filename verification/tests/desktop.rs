use gamut::desktop::{trim_label, DesktopApp};

#[test]
fn query_matching_is_case_insensitive() {
    let app = DesktopApp::new(
        "Firefox".to_string(),
        "/usr/bin/firefox --new-window".to_string(),
        "/usr/bin/firefox".to_string(),
        vec!["--new-window".to_string()],
    );

    assert!(app.matches_query("fire"));
    assert!(app.matches_query("NEW-WINDOW"));
    assert!(!app.matches_query("spotify"));
}

#[test]
fn trim_label_is_noop_for_short_text() {
    assert_eq!(trim_label("abc", 10), "abc");
}

#[test]
fn trim_label_truncates_and_appends_tilde() {
    assert_eq!(trim_label("abcdef", 4), "abc~");
}

#[test]
fn empty_query_matches_every_app() {
    let app = DesktopApp::new(
        "Files".to_string(),
        "/usr/bin/nautilus".to_string(),
        "/usr/bin/nautilus".to_string(),
        Vec::new(),
    );
    assert!(app.matches_query("   "));
    assert!(app.matches_query(""));
    assert!(app.matches_query("  FILES "));
    assert!(!app.matches_query("files\n/usr/bin/x"));
}

#[test]
fn trim_label_with_zero_budget_is_only_tilde() {
    assert_eq!(trim_label("abc", 0), "~");
    assert_eq!(trim_label("abc", 3), "abc");
    assert_eq!(trim_label("äöüß", 3), "äö~");
}

#[test]
fn matching_apps_keeps_list_order_up_to_the_limit() {
    let apps = vec![
        gamut::desktop::DesktopApp::new("Firefox".into(), "firefox %u".into(), "firefox".into(), vec![]),
        gamut::desktop::DesktopApp::new("Files".into(), "nautilus".into(), "nautilus".into(), vec![]),
        gamut::desktop::DesktopApp::new("Fire Tool".into(), "ft".into(), "ft".into(), vec![]),
    ];
    assert_eq!(gamut::desktop::matching_apps(&apps, " FIRE ", 10), vec![0, 2]);
    assert_eq!(gamut::desktop::matching_apps(&apps, "fire", 1), vec![0]);
    assert_eq!(gamut::desktop::matching_apps(&apps, "", 2), vec![0, 1]);
    assert!(gamut::desktop::matching_apps(&apps, "zzz", 5).is_empty());
}
