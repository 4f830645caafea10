//! End-to-end checks: parse `.desktop` fixtures with
//! `freedesktop-desktop-entry`, read their fields, and feed them through
//! `entries_to_apps`, `dedupe_and_disambiguate` and the category filter.

use freedesktop_desktop_entry::{DesktopEntry, PathSource};
use freedesktop_icons::lookup;

use desx::category_filter::{apply, CategoryFilter};
use desx::dedupe::dedupe_and_disambiguate;
use desx::desktop_entry::Scope;
use desx::xdg::{entries_to_apps, EntryFields, PathOrigin};

const DIR: &str = "/fixtures/share/applications";

fn path_origin(path: &std::path::Path) -> PathOrigin {
    match PathSource::guess_from(path) {
        PathSource::Local => PathOrigin::Local,
        PathSource::LocalDesktop => PathOrigin::LocalDesktop,
        PathSource::LocalFlatpak => PathOrigin::LocalFlatpak,
        PathSource::LocalNix => PathOrigin::LocalNix,
        PathSource::Nix => PathOrigin::Nix,
        PathSource::System => PathOrigin::System,
        PathSource::SystemLocal => PathOrigin::SystemLocal,
        PathSource::SystemFlatpak => PathOrigin::SystemFlatpak,
        PathSource::SystemSnap => PathOrigin::SystemSnap,
        PathSource::Other(s) => PathOrigin::Other(s),
    }
}

fn fields(entry: &DesktopEntry) -> EntryFields {
    let no_locales: &[&str] = &[];
    EntryFields {
        appid: entry.appid.clone(),
        origin: path_origin(&entry.path),
        no_display: entry.no_display(),
        hidden: entry.hidden(),
        entry_type: entry.type_().map(|s| s.to_string()),
        name: entry.name(no_locales).map(|s| s.into_owned()),
        exec_line: entry.exec().map(|s| s.to_string()),
        icon: entry.icon().map(|s| s.to_string()),
        resolved_icon: entry
            .icon()
            .and_then(|n| lookup(n).find())
            .and_then(|p| p.to_str().map(|s| s.to_string())),
        categories: entry
            .categories()
            .unwrap_or_default()
            .into_iter()
            .map(|s| s.to_string())
            .collect(),
    }
}

fn load_fixture_entries(files: &[(&str, &str)]) -> Vec<EntryFields> {
    let no_locales: Option<&[&str]> = None;
    files
        .iter()
        .map(|(name, contents)| {
            let entry = DesktopEntry::from_str(format!("{DIR}/{name}"), contents, no_locales)
                .expect("fixture parses");
            fields(&entry)
        })
        .collect()
}

fn run_pipeline(files: &[(&str, &str)]) -> Vec<(String, String)> {
    let apps = entries_to_apps(load_fixture_entries(files));
    let apps = dedupe_and_disambiguate(apps);
    apps.into_iter().map(|a| (a.name, a.exec_line)).collect()
}

fn run_pipeline_filtered(files: &[(&str, &str)], filter: &str) -> Vec<String> {
    let apps = entries_to_apps(load_fixture_entries(files));
    let apps = dedupe_and_disambiguate(apps);
    let filter = CategoryFilter::parse(filter).unwrap();
    let mut names: Vec<String> = apply(apps, filter.as_ref())
        .into_iter()
        .map(|a| a.name)
        .collect();
    names.sort();
    names
}

#[test]
fn no_display_entries_are_filtered() {
    let out = run_pipeline(&[
        (
            "visible.desktop",
            "[Desktop Entry]\nType=Application\nName=Visible\nExec=visible\n",
        ),
        (
            "hidden.desktop",
            "[Desktop Entry]\nType=Application\nName=Hidden\nExec=hidden\nNoDisplay=true\n",
        ),
        (
            "truly-hidden.desktop",
            "[Desktop Entry]\nType=Application\nName=Gone\nExec=gone\nHidden=true\n",
        ),
    ]);
    let names: Vec<&str> = out.iter().map(|(n, _)| n.as_str()).collect();
    assert_eq!(names, vec!["Visible"]);
}

#[test]
fn non_application_entries_are_filtered() {
    let out = run_pipeline(&[
        (
            "app.desktop",
            "[Desktop Entry]\nType=Application\nName=Real App\nExec=real\n",
        ),
        (
            "link.desktop",
            "[Desktop Entry]\nType=Link\nName=Web Shortcut\nURL=https://example.com\n",
        ),
        (
            "directory.desktop",
            "[Desktop Entry]\nType=Directory\nName=Folder\n",
        ),
    ]);
    let names: Vec<&str> = out.iter().map(|(n, _)| n.as_str()).collect();
    assert_eq!(names, vec!["Real App"]);
}

#[test]
fn field_codes_are_stripped_from_exec() {
    let out = run_pipeline(&[(
        "ff.desktop",
        "[Desktop Entry]\nType=Application\nName=Firefox\nExec=firefox %u\n",
    )]);
    assert_eq!(out, vec![("Firefox".to_string(), "firefox".to_string())]);
}

#[test]
fn identical_name_and_exec_across_scopes_dedupe_user_wins() {
    let out = run_pipeline(&[
        (
            "com.google.Chrome.desktop",
            "[Desktop Entry]\nType=Application\nName=Google Chrome\nExec=google-chrome-stable %U\n",
        ),
        (
            "google-chrome.desktop",
            "[Desktop Entry]\nType=Application\nName=Google Chrome\nExec=google-chrome-stable %U\n",
        ),
    ]);
    assert_eq!(out.len(), 1);
    assert_eq!(out[0].0, "Google Chrome");
    assert_eq!(out[0].1, "google-chrome-stable");
}

#[test]
fn xdg_integration_same_name_different_exec_both_kept_and_disambiguated() {
    let out = run_pipeline(&[
        (
            "firefox.desktop",
            "[Desktop Entry]\nType=Application\nName=Firefox\nExec=firefox %u\n",
        ),
        (
            "firefox-beta.desktop",
            "[Desktop Entry]\nType=Application\nName=Firefox\nExec=firefox-beta %u\n",
        ),
    ]);
    assert_eq!(out.len(), 2);
    let names: Vec<String> = out.iter().map(|(n, _)| n.clone()).collect();
    assert!(names.iter().any(|n| n == "Firefox (firefox)"));
    assert!(names.iter().any(|n| n == "Firefox (firefox-beta)"));
}

#[test]
fn empty_exec_is_rejected() {
    let out = run_pipeline(&[(
        "broken.desktop",
        "[Desktop Entry]\nType=Application\nName=Broken\nExec=%u\n",
    )]);
    assert!(out.is_empty(), "expected no apps, got {:?}", out);
}

#[test]
fn missing_name_is_rejected() {
    let out = run_pipeline(&[(
        "anon.desktop",
        "[Desktop Entry]\nType=Application\nExec=anon\n",
    )]);
    assert!(out.is_empty(), "expected no apps, got {:?}", out);
}

fn category_fixture() -> Vec<(&'static str, &'static str)> {
    vec![
        (
            "quake.desktop",
            "[Desktop Entry]\nType=Application\nName=Quake\nExec=quake\nCategories=Game;ActionGame;\n",
        ),
        (
            "firefox.desktop",
            "[Desktop Entry]\nType=Application\nName=Firefox\nExec=firefox\nCategories=Network;WebBrowser;\n",
        ),
        (
            "gimp.desktop",
            "[Desktop Entry]\nType=Application\nName=Gimp\nExec=gimp\nCategories=Graphics;\n",
        ),
        (
            "uncategorized.desktop",
            "[Desktop Entry]\nType=Application\nName=Mystery\nExec=mystery\n",
        ),
    ]
}

#[test]
fn category_include_keeps_only_matching() {
    let out = run_pipeline_filtered(&category_fixture(), "game");
    assert_eq!(out, vec!["Quake"]);
}

#[test]
fn category_include_is_case_insensitive() {
    let out = run_pipeline_filtered(&category_fixture(), "GAME");
    assert_eq!(out, vec!["Quake"]);
}

#[test]
fn category_include_multiple() {
    let out = run_pipeline_filtered(&category_fixture(), "game,network");
    assert_eq!(out, vec!["Firefox", "Quake"]);
}

#[test]
fn category_exclude_drops_matching() {
    let out = run_pipeline_filtered(&category_fixture(), "-game");
    // Everything except Quake, including the uncategorized entry.
    assert_eq!(out, vec!["Firefox", "Gimp", "Mystery"]);
}

#[test]
fn category_exclude_multiple() {
    let out = run_pipeline_filtered(&category_fixture(), "-game,-graphics");
    assert_eq!(out, vec!["Firefox", "Mystery"]);
}

#[test]
fn category_include_excludes_uncategorized() {
    let out = run_pipeline_filtered(&category_fixture(), "network");
    assert_eq!(out, vec!["Firefox"]);
}

#[test]
fn multiple_apps_preserve_order() {
    let out = run_pipeline(&[
        (
            "a.desktop",
            "[Desktop Entry]\nType=Application\nName=Alpha\nExec=a\n",
        ),
        (
            "b.desktop",
            "[Desktop Entry]\nType=Application\nName=Bravo\nExec=b\n",
        ),
        (
            "c.desktop",
            "[Desktop Entry]\nType=Application\nName=Charlie\nExec=c\n",
        ),
    ]);
    let names: Vec<String> = out.iter().map(|(n, _)| n.clone()).collect();
    assert_eq!(names, vec!["Alpha", "Bravo", "Charlie"]);
}

#[test]
fn accepted_entries_keep_their_fields() {
    let apps = entries_to_apps(load_fixture_entries(&[(
        "org.example.Tool.desktop",
        "[Desktop Entry]\nType=Application\nName=Tool\nExec=/usr/bin/tool  %F  --x\nCategories=Utility;\n",
    )]));
    assert_eq!(apps.len(), 1);
    assert_eq!(apps[0].appid, "org.example.Tool");
    assert_eq!(apps[0].name, "Tool");
    assert_eq!(apps[0].exec_line, "/usr/bin/tool --x");
    assert_eq!(apps[0].categories, vec!["Utility".to_string(), String::new()]);
    assert_eq!(apps[0].icon, None);
}

fn plain_entry(name: &str, icon: Option<&str>, resolved: Option<&str>, origin: PathOrigin) -> EntryFields {
    EntryFields {
        appid: name.to_lowercase(),
        origin,
        no_display: false,
        hidden: false,
        entry_type: Some("Application".to_string()),
        name: Some(name.to_string()),
        exec_line: Some(name.to_lowercase()),
        icon: icon.map(|s| s.to_string()),
        resolved_icon: resolved.map(|s| s.to_string()),
        categories: Vec::new(),
    }
}

#[test]
fn scope_follows_directory_kind() {
    let apps = entries_to_apps(vec![
        plain_entry("A", None, None, PathOrigin::Local),
        plain_entry("B", None, None, PathOrigin::LocalFlatpak),
        plain_entry("C", None, None, PathOrigin::LocalNix),
        plain_entry("D", None, None, PathOrigin::System),
        plain_entry("E", None, None, PathOrigin::LocalDesktop),
        plain_entry("F", None, None, PathOrigin::Other("unknown".to_string())),
    ]);
    let scopes: Vec<Scope> = apps.iter().map(|a| a.scope).collect();
    assert_eq!(
        scopes,
        vec![Scope::User, Scope::User, Scope::User, Scope::System, Scope::System, Scope::System]
    );
}

#[test]
fn icon_is_the_resolved_path_of_a_named_icon() {
    let apps = entries_to_apps(vec![
        plain_entry("A", Some("a"), Some("/icons/a.png"), PathOrigin::System),
        plain_entry("B", Some("b"), None, PathOrigin::System),
        plain_entry("C", None, Some("/icons/stray.png"), PathOrigin::System),
    ]);
    assert_eq!(apps[0].icon.as_deref(), Some("/icons/a.png"));
    assert_eq!(apps[1].icon, None);
    assert_eq!(apps[2].icon, None);
}

#[test]
fn user_entry_wins_over_system_entry_end_to_end() {
    let apps = entries_to_apps(vec![
        plain_entry("Term", None, None, PathOrigin::System),
        plain_entry("Term", None, None, PathOrigin::Local),
    ]);
    let out = dedupe_and_disambiguate(apps);
    assert_eq!(out.len(), 1);
    assert_eq!(out[0].scope, Scope::User);
}
