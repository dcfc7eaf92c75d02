//! Settings: defaults, and the rules `sanitise` applies to every field.

use omarchycastd::config::{
    join_paths, shellexpand_home, Config, Providers, SearchPrefix, DEFAULT_HOTKEY, DEFAULT_SEARCH_URL,
};
use omarchycastd::limits::MAX_PROVIDER_RESULTS;

#[test]
fn sanitise_clamps_every_field_into_range() {
    let mut c = Config { hotkey: "K".repeat(500), ..Config::default() };
    c.providers.apps_limit = 9999;
    c.providers.notes_limit = 0;
    c.appearance.width = 1;
    c.appearance.rows_visible = 999;
    c.appearance.corner_radius = 10_000;
    c.sanitise();
    assert_eq!(c.hotkey, DEFAULT_HOTKEY);
    assert_eq!(c.providers.apps_limit, MAX_PROVIDER_RESULTS);
    assert_eq!(c.providers.notes_limit, 1);
    assert_eq!(c.appearance.width, 320);
    assert_eq!(c.appearance.rows_visible, 20);
    assert_eq!(c.appearance.corner_radius, 48);
}

#[test]
fn sanitise_resets_invalid_search_url() {
    let mut c = Config::default();
    c.providers.websearch_url = "not a url".into();
    c.sanitise();
    assert_eq!(c.providers.websearch_url, DEFAULT_SEARCH_URL);

    c.providers.websearch_url = "https://example.com/search".into();
    c.sanitise();
    assert_eq!(c.providers.websearch_url, DEFAULT_SEARCH_URL);

    c.providers.websearch_url = "https://example.com/search?q={query}".into();
    c.sanitise();
    assert_eq!(c.providers.websearch_url, "https://example.com/search?q={query}");
}

#[test]
fn sanitise_removes_invalid_prefixes() {
    let mut c = Config::default();
    c.providers.websearch_prefixes.push(SearchPrefix {
        prefix: "waytoolong".into(),
        name: "Bad".into(),
        url: "https://x.com/?q={query}".into(),
    });
    c.providers.websearch_prefixes.push(SearchPrefix {
        prefix: "ok".into(),
        name: "Good".into(),
        url: "https://good.com/?q={query}".into(),
    });
    c.sanitise();
    // "waytoolong" is > 3 chars, should be removed. "ok" is valid.
    let prefixes: Vec<&str> = c.providers.websearch_prefixes.iter().map(|p| p.prefix.as_str()).collect();
    assert!(prefixes.contains(&"ok"));
    assert!(!prefixes.contains(&"waytoolong"));
}

#[test]
fn sanitise_deduplicates_prefixes() {
    let mut c = Config::default();
    c.providers.websearch_prefixes.push(SearchPrefix {
        prefix: "x".into(),
        name: "Duplicate".into(),
        url: "https://dup.com/?q={query}".into(),
    });
    c.sanitise();
    let x_count = c.providers.websearch_prefixes.iter().filter(|p| p.prefix == "x").count();
    assert_eq!(x_count, 1);
}

#[test]
fn sanitise_resets_to_defaults_when_all_invalid() {
    let mut c = Config::default();
    c.providers.websearch_prefixes = vec![SearchPrefix {
        prefix: "!!!".into(),
        name: "Bad".into(),
        url: "not-a-url".into(),
    }];
    c.sanitise();
    assert!(!c.providers.websearch_prefixes.is_empty());
    // Should have fallen back to defaults
    assert!(c.providers.websearch_prefixes.iter().any(|p| p.prefix == "x"));
}

#[test]
fn default_prefixes_contain_x_and_g() {
    let p = Providers::default();
    assert!(p.websearch_prefixes.iter().any(|e| e.prefix == "x" && e.name == "X"));
    assert!(p.websearch_prefixes.iter().any(|e| e.prefix == "g" && e.name == "Google"));
}

#[test]
fn sanitise_normalises_a_kept_prefix() {
    let mut c = Config::default();
    c.providers.websearch_prefixes = vec![SearchPrefix {
        prefix: "  GH ".into(),
        name: "  GitHub  ".into(),
        url: " https://github.com/search?q={query} ".into(),
    }];
    c.sanitise();
    assert_eq!(c.providers.websearch_prefixes.len(), 1);
    assert_eq!(c.providers.websearch_prefixes[0].prefix, "gh");
    assert_eq!(c.providers.websearch_prefixes[0].name, "GitHub");
    assert_eq!(c.providers.websearch_prefixes[0].url, "https://github.com/search?q={query}");
}

#[test]
fn sanitise_drops_an_overlong_notes_directory_and_clamps_fonts() {
    let mut c = Config::default();
    c.providers.notes_directory = "d".repeat(5000);
    c.appearance.font_scale = 10;
    c.providers.websearch_limit = 0;
    c.sanitise();
    assert_eq!(c.providers.notes_directory, "");
    assert_eq!(c.appearance.font_scale, 70);
    assert_eq!(c.provider_limit("web"), 1);
}

#[test]
fn sanitising_twice_changes_nothing_more() {
    let mut c = Config { hotkey: "".into(), ..Config::default() };
    c.providers.plugins_limit = 0;
    c.appearance.width = 5000;
    c.sanitise();
    let hotkey = c.hotkey.clone();
    let width = c.appearance.width;
    let limit = c.providers.plugins_limit;
    let prefixes: Vec<String> = c.providers.websearch_prefixes.iter().map(|p| p.prefix.clone()).collect();
    c.sanitise();
    assert_eq!(c.hotkey, hotkey);
    assert_eq!(c.appearance.width, width);
    assert_eq!(c.providers.plugins_limit, limit);
    let again: Vec<String> = c.providers.websearch_prefixes.iter().map(|p| p.prefix.clone()).collect();
    assert_eq!(again, prefixes);
}

#[test]
fn provider_switches_and_limits() {
    let mut c = Config::default();
    c.providers.calculator = false;
    assert!(!c.provider_enabled("calc"));
    assert!(c.provider_enabled("date"));
    assert!(c.provider_enabled("something-else"));
    assert_eq!(c.provider_limit("apps"), 20);
    assert_eq!(c.provider_limit("calc"), 4);
}

#[test]
fn paths_join_like_std() {
    assert_eq!(join_paths("/home/u", "Notes"), "/home/u/Notes");
    assert_eq!(join_paths("/home/u/", "Notes"), "/home/u/Notes");
    assert_eq!(join_paths("/home/u", "/abs"), "/abs");
    assert_eq!(join_paths("", "Notes"), "Notes");
}

#[test]
fn tilde_expands_to_the_home_directory() {
    assert_eq!(shellexpand_home("~/notes", Some("/home/u".into())), "/home/u/notes");
    assert_eq!(shellexpand_home("~/notes", None), "~/notes");
    assert_eq!(shellexpand_home("/srv/notes", Some("/home/u".into())), "/srv/notes");
}

#[test]
fn notes_directory_prefers_the_configured_one() {
    let mut c = Config::default();
    assert_eq!(c.notes_directory_in(Some("/home/u".into())), "/home/u/Notes");
    assert_eq!(c.notes_directory_in(None), "./Notes");
    c.providers.notes_directory = "  ~/Documents/notes ".into();
    assert_eq!(c.notes_directory_in(Some("/home/u".into())), "/home/u/Documents/notes");
}
