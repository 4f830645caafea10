use desx::dedupe::dedupe_and_disambiguate;
use desx::desktop_entry::{DesktopApp, Scope};

fn app(appid: &str, name: &str, exec: &str, scope: Scope) -> DesktopApp {
    DesktopApp {
        appid: appid.to_string(),
        name: name.to_string(),
        icon: None,
        exec_line: exec.to_string(),
        scope,
        categories: Vec::new(),
    }
}

#[test]
fn identical_name_and_exec_collapses_to_one() {
    let input = vec![
        app("com.google.Chrome", "Google Chrome", "chrome", Scope::System),
        app("google-chrome", "Google Chrome", "chrome", Scope::System),
    ];
    let out = dedupe_and_disambiguate(input);
    assert_eq!(out.len(), 1);
    assert_eq!(out[0].name, "Google Chrome");
}

#[test]
fn user_scope_wins_against_system() {
    let input = vec![
        app("chrome", "Chrome", "chrome", Scope::System),
        app("chrome", "Chrome", "chrome", Scope::User),
    ];
    let out = dedupe_and_disambiguate(input);
    assert_eq!(out.len(), 1);
    assert_eq!(out[0].scope, Scope::User);
}

#[test]
fn user_scope_wins_regardless_of_input_order() {
    let input = vec![
        app("chrome", "Chrome", "chrome", Scope::User),
        app("chrome", "Chrome", "chrome", Scope::System),
    ];
    let out = dedupe_and_disambiguate(input);
    assert_eq!(out.len(), 1);
    assert_eq!(out[0].scope, Scope::User);
}

#[test]
fn dedupe_same_name_different_exec_both_kept_and_disambiguated() {
    let input = vec![
        app("firefox", "Firefox", "firefox", Scope::System),
        app("firefox-beta", "Firefox", "firefox --beta", Scope::System),
    ];
    let out = dedupe_and_disambiguate(input);
    assert_eq!(out.len(), 2);
    let names: Vec<&str> = out.iter().map(|a| a.name.as_str()).collect();
    assert!(names.contains(&"Firefox (firefox)"));
    assert!(names.contains(&"Firefox (firefox --beta)"));
}

#[test]
fn unique_names_untouched() {
    let input = vec![
        app("firefox", "Firefox", "firefox", Scope::System),
        app("chrome", "Chrome", "chrome", Scope::System),
    ];
    let out = dedupe_and_disambiguate(input);
    assert_eq!(out.len(), 2);
    assert_eq!(out[0].name, "Firefox");
    assert_eq!(out[1].name, "Chrome");
}

#[test]
fn preserves_input_order() {
    let input = vec![
        app("zed", "Zed", "zed", Scope::System),
        app("alacritty", "Alacritty", "alacritty", Scope::System),
        app("firefox", "Firefox", "firefox", Scope::System),
    ];
    let out = dedupe_and_disambiguate(input);
    let names: Vec<&str> = out.iter().map(|a| a.name.as_str()).collect();
    assert_eq!(names, vec!["Zed", "Alacritty", "Firefox"]);
}

#[test]
fn empty_input() {
    assert!(dedupe_and_disambiguate(vec![]).is_empty());
}

#[test]
fn same_scope_tie_keeps_first_seen() {
    let first = DesktopApp {
        appid: "first-pkg".to_string(),
        ..app("chrome", "Chrome", "chrome", Scope::System)
    };
    let second = DesktopApp {
        appid: "second-pkg".to_string(),
        ..app("chrome", "Chrome", "chrome", Scope::System)
    };
    let out = dedupe_and_disambiguate(vec![first.clone(), second]);
    assert_eq!(out.len(), 1);
    assert_eq!(out[0].appid, "first-pkg");
}

#[test]
fn three_way_collision_user_wins() {
    let input = vec![
        app("chrome", "Chrome", "chrome", Scope::System),
        app("chrome", "Chrome", "chrome", Scope::System),
        app("chrome", "Chrome", "chrome", Scope::User),
    ];
    let out = dedupe_and_disambiguate(input);
    assert_eq!(out.len(), 1);
    assert_eq!(out[0].scope, Scope::User);
}

#[test]
fn chrome_bug_scenario() {
    let input = vec![
        app("com.google.Chrome", "Google Chrome", "google-chrome-stable", Scope::System),
        app("google-chrome", "Google Chrome", "google-chrome-stable", Scope::System),
    ];
    let out = dedupe_and_disambiguate(input);
    assert_eq!(out.len(), 1);
    assert_eq!(out[0].name, "Google Chrome");
}

#[test]
fn merged_record_keeps_its_first_position() {
    // The System entry comes first, the User entry that wins comes last:
    // the record stands where the launch first appeared.
    let input = vec![
        app("a", "Alpha", "alpha", Scope::System),
        app("b", "Bravo", "bravo", Scope::System),
        app("a-user", "Alpha", "alpha", Scope::User),
    ];
    let out = dedupe_and_disambiguate(input);
    let ids: Vec<&str> = out.iter().map(|a| a.appid.as_str()).collect();
    assert_eq!(ids, vec!["a-user", "b"]);
}

#[test]
fn user_tie_keeps_first_user() {
    let input = vec![
        app("sys", "Chrome", "chrome", Scope::System),
        app("user-1", "Chrome", "chrome", Scope::User),
        app("user-2", "Chrome", "chrome", Scope::User),
    ];
    let out = dedupe_and_disambiguate(input);
    assert_eq!(out.len(), 1);
    assert_eq!(out[0].appid, "user-1");
}

#[test]
fn suffix_uses_basename_and_args() {
    let input = vec![
        app("a", "Term", "/usr/bin/foot", Scope::System),
        app("b", "Term", "/usr/bin/kitty --single-instance", Scope::System),
    ];
    let out = dedupe_and_disambiguate(input);
    assert_eq!(out[0].name, "Term (foot)");
    assert_eq!(out[1].name, "Term (kitty --single-instance)");
    assert_eq!(out[0].exec_line, "/usr/bin/foot");
}
