//! The web-search provider through its public API, the same way the registry
//! and the socket layer use it.

use omarchycastd::config::SearchPrefix;
use omarchycastd::providers::websearch::{build_url, engine_display_url, WebsearchProvider, DEFAULT_URL};
use omarchycastd::search::{Action, Activation, Provider, Query};
use std::sync::Arc;

fn prefix(p: &str, name: &str, url: &str) -> SearchPrefix {
    SearchPrefix { prefix: p.into(), name: name.into(), url: url.into() }
}

fn provider_with_prefixes() -> WebsearchProvider {
    let mut p = WebsearchProvider::new();
    p.set_prefixes(vec![
        prefix("x", "X", "https://x.com/search?q={query}"),
        prefix("g", "Google", "https://www.google.com/search?q={query}"),
    ]);
    p
}

fn opened_url(p: &WebsearchProvider, item_id: &str) -> String {
    let rest = item_id.strip_prefix("web:").unwrap();
    match p.activate(rest, Action::Primary).unwrap() {
        Activation::Launch { program, args } => {
            assert_eq!(program, "xdg-open");
            assert_eq!(args.len(), 1);
            args[0].clone()
        }
        _ => panic!("web activation must launch the browser"),
    }
}

#[test]
fn id_returns_web() {
    let p = WebsearchProvider::new();
    assert_eq!(p.id(), "web");
}

#[test]
fn query_empty_returns_no_items() {
    let p = WebsearchProvider::new();
    let q = Query::new("");
    assert!(p.query(&q).is_empty());
}

#[test]
fn query_whitespace_only_returns_no_items() {
    let p = WebsearchProvider::new();
    let q = Query::new("   ");
    assert!(p.query(&q).is_empty());
}

#[test]
fn query_nonempty_returns_single_item() {
    let p = WebsearchProvider::new();
    let q = Query::new("rust async");
    let items = p.query(&q);
    assert_eq!(items.len(), 1);
}

#[test]
fn query_default_item_has_correct_fields() {
    let p = WebsearchProvider::new();
    let q = Query::new("hello world");
    let item = &p.query(&q)[0];

    assert_eq!(item.id, "web:default:hello world");
    assert_eq!(item.provider, "web");
    assert_eq!(item.kind, "Web");
    assert_eq!(item.title, "Search web for: hello world");
    assert_eq!(item.subtitle.as_deref(), Some("Open in browser"));
    assert_eq!(item.glyph.as_deref(), Some("\u{1F310}"));
    assert!(item.accessory.is_none());
    assert!(item.icon.is_none());
}

#[test]
fn query_trims_input() {
    let p = WebsearchProvider::new();
    let q = Query::new("  padded  ");
    let item = &p.query(&q)[0];
    assert_eq!(item.id, "web:default:padded");
    assert_eq!(item.title, "Search web for: padded");
}

#[test]
fn prefix_x_routes_to_x_com() {
    let p = provider_with_prefixes();
    let q = Query::new("x rust async");
    let item = &p.query(&q)[0];

    assert_eq!(item.id, "web:x:rust async");
    assert_eq!(item.title, "Search X for: rust async");
    assert_eq!(item.subtitle.as_deref(), Some("x.com"));
}

#[test]
fn prefix_g_routes_to_google() {
    let p = provider_with_prefixes();
    let q = Query::new("g hello world");
    let item = &p.query(&q)[0];

    assert_eq!(item.id, "web:g:hello world");
    assert_eq!(item.title, "Search Google for: hello world");
    assert_eq!(item.subtitle.as_deref(), Some("www.google.com"));
}

#[test]
fn prefix_without_space_does_not_match() {
    let p = provider_with_prefixes();
    // "xyz" should NOT match prefix "x" because there's no space after it.
    let q = Query::new("xyz");
    let item = &p.query(&q)[0];
    assert_eq!(item.id, "web:default:xyz");
    assert_eq!(item.title, "Search web for: xyz");
}

#[test]
fn prefix_alone_is_empty_search_and_falls_through() {
    let p = provider_with_prefixes();
    // "x" alone has no space after it, so it is a default search.
    let q = Query::new("x");
    let item = &p.query(&q)[0];
    assert_eq!(item.id, "web:default:x");
}

#[test]
fn set_url_changes_default_template() {
    let mut p = WebsearchProvider::new();
    assert_eq!(p.current_url(), DEFAULT_URL);

    p.set_url("https://www.google.com/search?q={query}".into());
    assert_eq!(p.current_url(), "https://www.google.com/search?q={query}");
}

#[test]
fn set_prefixes_updates_list() {
    let mut p = WebsearchProvider::new();
    assert!(p.current_prefixes().is_empty());

    p.set_prefixes(vec![prefix("b", "Bing", "https://www.bing.com/search?q={query}")]);
    assert_eq!(p.current_prefixes().len(), 1);
    assert_eq!(p.current_prefixes()[0].prefix, "b");
}

#[test]
fn build_url_basic_substitution() {
    let url = build_url("https://duckduckgo.com/?q={query}", "rust");
    assert_eq!(url, "https://duckduckgo.com/?q=rust");
}

#[test]
fn build_url_spaces_become_plus() {
    let url = build_url("https://duckduckgo.com/?q={query}", "hello world");
    assert_eq!(url, "https://duckduckgo.com/?q=hello+world");
}

#[test]
fn build_url_multiple_spaces() {
    let url = build_url("https://x.com/s?q={query}", "a  b   c");
    assert_eq!(url, "https://x.com/s?q=a++b+++c");
}

#[test]
fn build_url_no_placeholder_returns_template_unchanged() {
    let url = build_url("https://x.com/static", "anything");
    assert_eq!(url, "https://x.com/static");
}

#[test]
fn build_url_multiple_placeholders_all_replaced() {
    let url = build_url("https://x.com/{query}/{query}", "hi");
    assert_eq!(url, "https://x.com/hi/hi");
}

#[test]
fn build_url_unicode_query() {
    let url = build_url("https://x.com/?q={query}", "日本語 テスト");
    assert_eq!(url, "https://x.com/?q=日本語+テスト");
}

#[test]
fn engine_display_url_extracts_host() {
    assert_eq!(engine_display_url("https://x.com/search?q={query}"), "x.com");
    assert_eq!(engine_display_url("https://www.google.com/search?q={query}"), "www.google.com");
    assert_eq!(engine_display_url("http://localhost:8080/s?q={query}"), "localhost:8080");
}

#[test]
fn reindex_does_not_panic() {
    let p = WebsearchProvider::new();
    p.reindex();
    let q = Query::new("test");
    assert_eq!(p.query(&q).len(), 1);
}

#[test]
fn provider_trait_object_query() {
    let p: Arc<dyn Provider> = Arc::new(WebsearchProvider::new());
    assert_eq!(p.id(), "web");
    let q = Query::new("trait test");
    let items = p.query(&q);
    assert_eq!(items.len(), 1);
    assert_eq!(items[0].provider, "web");
}

#[test]
fn prefix_query_still_single_item() {
    let p = provider_with_prefixes();
    let q = Query::new("x only one");
    let items = p.query(&q);
    assert_eq!(items.len(), 1);
}

#[test]
fn multiple_prefixes_first_match_wins() {
    let mut p = WebsearchProvider::new();
    p.set_prefixes(vec![
        prefix("x", "X", "https://x.com/?q={query}"),
        prefix("xy", "XY", "https://xy.com/?q={query}"),
    ]);
    // "xy term" does not start with "x " but with "xy ", so the second entry routes it.
    let q = Query::new("xy term");
    let item = &p.query(&q)[0];
    assert_eq!(item.id, "web:xy:term");
    assert_eq!(item.title, "Search XY for: term");
}

#[test]
fn full_query_activate_url_construction() {
    let mut provider = WebsearchProvider::new();
    provider.set_url("https://www.google.com/search?q={query}".into());

    let q = Query::new("rust async traits");
    let items = provider.query(&q);
    assert_eq!(items.len(), 1);

    let id = &items[0].id;
    assert_eq!(id, "web:default:rust async traits");

    let template = provider.current_url();
    let term = id.strip_prefix("web:default:").unwrap();
    let expected = template.replace("{query}", &term.replace(' ', "+"));
    assert_eq!(expected, "https://www.google.com/search?q=rust+async+traits");
    // The activation builds the same URL.
    assert_eq!(opened_url(&provider, id), expected);
}

#[test]
fn provider_respects_configured_url() {
    let mut provider = WebsearchProvider::new();
    assert_eq!(provider.current_url(), "https://duckduckgo.com/?q={query}");

    provider.set_url("https://www.bing.com/search?q={query}".into());
    assert_eq!(provider.current_url(), "https://www.bing.com/search?q={query}");

    provider.set_url("http://localhost:8080/search?term={query}".into());
    assert_eq!(provider.current_url(), "http://localhost:8080/search?term={query}");
}

#[test]
fn query_is_stable_across_calls() {
    let provider = WebsearchProvider::new();
    let q = Query::new("deterministic");

    let first = provider.query(&q);
    let second = provider.query(&q);

    assert_eq!(first.len(), second.len());
    assert_eq!(first[0].id, second[0].id);
    assert_eq!(first[0].title, second[0].title);
    assert_eq!(first[0].provider, second[0].provider);
    assert_eq!(first[0].kind, second[0].kind);
}

#[test]
fn different_queries_produce_different_ids() {
    let provider = WebsearchProvider::new();

    let a = provider.query(&Query::new("alpha"));
    let b = provider.query(&Query::new("beta"));

    assert_ne!(a[0].id, b[0].id);
    assert_eq!(a[0].id, "web:default:alpha");
    assert_eq!(b[0].id, "web:default:beta");
}

#[test]
fn reindex_is_idempotent_and_non_disruptive() {
    let mut provider = WebsearchProvider::new();
    provider.set_url("https://x.com/?q={query}".into());

    let before = provider.query(&Query::new("check"));
    provider.reindex();
    provider.reindex();
    let after = provider.query(&Query::new("check"));

    assert_eq!(before.len(), after.len());
    assert_eq!(before[0].id, after[0].id);
    assert_eq!(provider.current_url(), "https://x.com/?q={query}");
}

#[test]
fn provider_works_through_dyn_trait() {
    let provider: Arc<dyn Provider> = Arc::new(WebsearchProvider::new());

    assert_eq!(provider.id(), "web");

    let q = Query::new("dyn trait test");
    let items = provider.query(&q);
    assert_eq!(items.len(), 1);
    assert_eq!(items[0].provider, "web");
    assert_eq!(items[0].kind, "Web");

    provider.reindex();

    let items2 = provider.query(&Query::new("still works"));
    assert_eq!(items2.len(), 1);
}

#[test]
fn empty_query_never_produces_items() {
    let provider = WebsearchProvider::new();

    for raw in ["", "   ", "\t", "\n"] {
        let q = Query::new(raw);
        assert!(provider.query(&q).is_empty(), "expected no items for query {raw:?}");
    }
}

#[test]
fn long_query_still_produces_single_item() {
    let provider = WebsearchProvider::new();
    let long = "a".repeat(500);
    let q = Query::new(&long);
    let items = provider.query(&q);
    assert_eq!(items.len(), 1);
    assert!(items[0].id.starts_with("web:"));
    assert!(items[0].title.contains("Search web for:"));
}

#[test]
fn action_variant_does_not_affect_query() {
    let provider = WebsearchProvider::new();
    let q = Query::new("action test");

    let items = provider.query(&q);
    assert_eq!(items.len(), 1);

    let _ = Action::Primary;
    let _ = Action::Secondary;
    let items2 = provider.query(&q);
    assert_eq!(items, items2);
}

#[test]
fn prefixed_activation_opens_the_prefix_engine() {
    let p = provider_with_prefixes();
    let item = &p.query(&Query::new("g rust lang"))[0];
    assert_eq!(opened_url(&p, &item.id), "https://www.google.com/search?q=rust+lang");
}

#[test]
fn unknown_engine_falls_back_to_the_default_url() {
    let p = WebsearchProvider::new();
    assert_eq!(opened_url(&p, "web:gone:term"), "https://duckduckgo.com/?q=term");
}

#[test]
fn a_mapping_named_web_is_reached_through_the_registry() {
    let mut p = WebsearchProvider::new();
    p.set_prefixes(vec![prefix("web", "W", "https://w.example/?q={query}")]);
    let registry = omarchycastd::search::Registry::new(vec![Arc::new(p)]);
    match registry.activate("web:web:rust", Action::Primary).unwrap() {
        Activation::Launch { program, args } => {
            assert_eq!(program, "xdg-open");
            assert_eq!(args, vec!["https://w.example/?q=rust".to_string()]);
        }
        _ => panic!("web activation must launch the browser"),
    }
}
