//! What the daemon answers requests with.

use omarchycastd::config::Config;
use omarchycastd::daemon::{activation_request, launched_app, query_response, settings_update};
use omarchycastd::providers::websearch::WebsearchProvider;
use omarchycastd::search::{Activation, Registry};
use std::sync::Arc;

#[test]
fn queries_are_answered_with_ranked_rows() {
    let registry = Registry::new(vec![Arc::new(WebsearchProvider::new())]);
    let r = query_response(&registry, &Config::default(), "rust lifetimes");
    assert!(r.ok);
    let items = r.items.unwrap();
    assert_eq!(items.len(), 1);
    assert_eq!(items[0].provider, "web");
}

#[test]
fn activation_requests_are_bounded() {
    let registry = Registry::new(vec![Arc::new(WebsearchProvider::new())]);
    let long_id = "x".repeat(2000);
    let refused = activation_request(&registry, &long_id, "primary").err().unwrap();
    assert_eq!(refused.error.as_deref(), Some("activation request out of bounds"));
    let refused = activation_request(&registry, "web:search", &"a".repeat(40)).err().unwrap();
    assert!(!refused.ok);
    let malformed = activation_request(&registry, "nocolon", "primary").err().unwrap();
    assert_eq!(malformed.error.as_deref(), Some("malformed item id: nocolon"));
    match activation_request(&registry, "web:search:hello", "primary") {
        Ok(Activation::Launch { program, .. }) => assert_eq!(program, "xdg-open"),
        _ => panic!("web rows open the browser"),
    }
}

#[test]
fn new_settings_are_sanitised_and_rebind_only_on_change() {
    let mut incoming = Config::default();
    incoming.appearance.width = 1;
    let (config, rebind) = settings_update("CTRL + SPACE", incoming);
    assert_eq!(config.appearance.width, 320);
    assert!(!rebind);
    let incoming = Config { hotkey: "SUPER + K".into(), ..Config::default() };
    let (_, rebind) = settings_update("CTRL + SPACE", incoming);
    assert!(rebind);
}

#[test]
fn activation_for_an_unknown_provider_is_refused() {
    let registry = Registry::new(vec![Arc::new(WebsearchProvider::new())]);
    let refused = activation_request(&registry, "apps:firefox.desktop", "primary").err().unwrap();
    assert!(!refused.ok);
    assert_eq!(refused.error.as_deref(), Some("no provider named apps"));
}

#[test]
fn only_app_rows_count_a_launch() {
    assert_eq!(launched_app("apps:firefox.desktop").as_deref(), Some("firefox.desktop"));
    assert_eq!(launched_app("apps:a:b").as_deref(), Some("a:b"));
    assert_eq!(launched_app("web:default:x"), None);
    assert_eq!(launched_app("nocolon"), None);
}
