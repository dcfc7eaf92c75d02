//! Desktop-entry admission, naming and the apps provider.

use omarchycastd::providers::apps::{exec_basename, index_apps, AppsProvider, DesktopInfo};
use omarchycastd::search::{Action, Activation, Query};

fn info(file: &str, name: &str) -> DesktopInfo {
    DesktopInfo {
        path: format!("/usr/share/applications/{file}"),
        file_name: Some(file.to_string()),
        appid: file.trim_end_matches(".desktop").to_string(),
        no_display: false,
        hidden: false,
        kind: Some("Application".into()),
        only_show_in: None,
        not_show_in: None,
        try_exec: None,
        try_exec_exists: false,
        command: Some(format!("/usr/bin/{} %U", name.to_lowercase())),
        name: Some(name.to_string()),
        generic_name: Some("Web Browser".into()),
        keywords: Some(vec!["web".into(), "internet".into()]),
        comment: None,
        icon: None,
    }
}

#[test]
fn exec_lines_yield_the_binary() {
    assert_eq!(exec_basename("/usr/bin/firefox %u"), Some("firefox".to_string()));
    assert_eq!(exec_basename("env FOO=1 %f"), Some("env".to_string()));
    assert_eq!(exec_basename("FOO=1 code --new-window"), Some("code".to_string()));
    assert_eq!(exec_basename("%U"), None);
}

#[test]
fn entries_are_filtered_and_deduplicated() {
    let desktop = vec!["Hyprland".to_string()];
    let mut hidden = info("hidden.desktop", "Hidden");
    hidden.no_display = true;
    let mut gnome_only = info("panel.desktop", "Panel");
    gnome_only.only_show_in = Some(vec!["GNOME".into()]);
    let mut not_here = info("nothere.desktop", "NotHere");
    not_here.not_show_in = Some(vec!["hyprland".into()]);
    let mut missing = info("missing.desktop", "Missing");
    missing.try_exec = Some("/nonexistent/bin".into());
    let mut link = info("link.desktop", "Link");
    link.kind = Some("Link".into());
    let user_firefox = info("firefox.desktop", "Firefox Nightly");
    let system_firefox = info("firefox.desktop", "Firefox");
    let mut here = info("here.desktop", "Here");
    here.only_show_in = Some(vec!["HYPRLAND".into()]);
    let entries = index_apps(
        &desktop,
        vec![hidden, gnome_only, not_here, missing, link, user_firefox, system_firefox, here],
    );
    let mut p = AppsProvider::new();
    p.set_entries(entries);
    let ids = p.ids();
    assert_eq!(ids, vec!["firefox.desktop".to_string(), "here.desktop".to_string()]);
    let rows = p.query(&Query::new(""), &vec![5, 9]);
    assert_eq!(rows.len(), 2);
    assert_eq!(rows[0].title, "Firefox Nightly");
    assert_eq!(rows[0].subtitle.as_deref(), Some("Web Browser"));
    assert_eq!(rows[1].score, 9);
    match p.activate("firefox.desktop", Action::Primary) {
        Ok(Activation::Launch { program, args }) => {
            assert_eq!(program, "gio");
            assert_eq!(args, vec!["launch".to_string(), "/usr/share/applications/firefox.desktop".to_string()]);
        }
        _ => panic!("apps launch through gio"),
    }
    assert_eq!(p.activate("nope.desktop", Action::Primary).err().unwrap(), "unknown app: nope.desktop");
    let found = p.query(&Query::new("nightly"), &vec![0, 0]);
    assert_eq!(found.len(), 1);
    assert!(found[0].score >= 100);
}
