//! Rows, the registry's merge and ranking, and the ranking arithmetic.

use omarchycastd::config::Config;
use omarchycastd::limits::{
    MAX_ACCESSORY_CHARS, MAX_GLYPH_CHARS, MAX_ITEM_ID_BYTES, MAX_SUBTITLE_CHARS, MAX_TITLE_CHARS,
};
use omarchycastd::providers::websearch::WebsearchProvider;
use omarchycastd::search::score::{combine, query_bonus};
use omarchycastd::search::{split_item_id, Action, Activation, Item, Provider, Query, Registry};
use std::sync::Arc;

#[test]
fn clamp_bounds_every_display_field() {
    let mut item = Item::new("apps", "Application", "x".repeat(5000), "T".repeat(5000));
    item.subtitle = Some("s".repeat(5000));
    item.accessory = Some("a".repeat(5000));
    item.glyph = Some("g".repeat(50));
    item.icon = Some("i".repeat(10_000));
    item.clamp();
    assert!(item.title.chars().count() <= MAX_TITLE_CHARS);
    assert!(item.subtitle.unwrap().chars().count() <= MAX_SUBTITLE_CHARS);
    assert!(item.accessory.unwrap().chars().count() <= MAX_ACCESSORY_CHARS);
    assert!(item.glyph.unwrap().chars().count() <= MAX_GLYPH_CHARS);
    assert!(item.icon.is_none(), "over-long icon path must be dropped");
    assert!(item.id.len() <= MAX_ITEM_ID_BYTES);
}

#[test]
fn clamp_strips_control_sequences_from_titles() {
    let mut item = Item::new("apps", "Application", "id".into(), "evil\u{1b}[2Jtitle".into());
    item.clamp();
    assert_eq!(item.title, "evil[2Jtitle");
}

/// A provider that always answers with one weak, unranked row.
struct WeakProvider {
    id: &'static str,
    title: &'static str,
}

impl Provider for WeakProvider {
    fn id(&self) -> &'static str {
        self.id
    }

    fn query(&self, q: &Query) -> Vec<Item> {
        if q.is_empty() {
            return Vec::new();
        }
        vec![Item::new(self.id, "Generic", "x".into(), self.title.to_string())]
    }

    fn activate(&self, _: &str, _: Action) -> Result<Activation, String> {
        Ok(Activation::Copy { text: String::new() })
    }
}

/// A provider that always answers with one pinned row.
struct StrongProvider;

impl Provider for StrongProvider {
    fn id(&self) -> &'static str {
        "pin"
    }

    fn query(&self, q: &Query) -> Vec<Item> {
        if q.is_empty() {
            return Vec::new();
        }
        let mut item = Item::new("pin", "Pinned", "answer".into(), "42".into());
        item.score = 1_000_000;
        vec![item]
    }

    fn activate(&self, _: &str, _: Action) -> Result<Activation, String> {
        Ok(Activation::Copy { text: "42".into() })
    }
}

#[test]
fn web_search_is_promoted_when_nothing_else_matches() {
    let web = Arc::new(WebsearchProvider::new());
    let registry = Registry::new(vec![web, Arc::new(WeakProvider { id: "fake", title: "Alpha unrelated" })]);
    let items = registry.query("quantic", &Config::default(), 10);
    assert!(!items.is_empty());
    assert_eq!(items[0].provider, "web");
}

#[test]
fn web_search_sits_last_behind_a_pinned_row() {
    let web = Arc::new(WebsearchProvider::new());
    let registry = Registry::new(vec![Arc::new(StrongProvider), web]);
    let items = registry.query("quantic", &Config::default(), 10);

    assert_eq!(items[0].provider, "pin");
    let web_index = items.iter().position(|i| i.provider == "web").expect("web present");
    assert!(web_index > 0, "web must not top the list behind a strong row");
}

#[test]
fn disabled_web_search_is_absent() {
    let web = Arc::new(WebsearchProvider::new());
    let registry = Registry::new(vec![web, Arc::new(WeakProvider { id: "fake", title: "Unrelated Thing" })]);
    let mut config = Config::default();
    config.providers.websearch = false;

    let items = registry.query("quantic", &config, 10);
    assert!(items.iter().all(|i| i.provider != "web"));
}

#[test]
fn prefix_of_the_whole_title_beats_a_word_prefix() {
    let q = "fire";
    assert!(query_bonus(q, "Firefox") > query_bonus(q, "Mozilla Firefox"));
    assert!(query_bonus(q, "Mozilla Firefox") > query_bonus(q, "Misfire"));
    assert_eq!(query_bonus("firefox", "Firefox"), 12_000);
    assert_eq!(query_bonus("", "Firefox"), 0);
}

#[test]
fn bonus_tiers_are_exact() {
    assert_eq!(query_bonus("fire", "Firefox"), 8_000);
    assert_eq!(query_bonus("fire", "Mozilla Firefox"), 3_000);
    assert_eq!(query_bonus("fire", "Misfire"), 0);
}

#[test]
fn combine_weighs_fuzzy_over_boost() {
    assert_eq!(combine(150, 7), 15_007);
    assert_eq!(combine(0, -3), -3);
}

#[test]
fn registry_routes_activation_by_provider_prefix() {
    let registry = Registry::new(vec![Arc::new(StrongProvider)]);
    match registry.activate("pin:answer", Action::Primary) {
        Ok(Activation::Copy { text }) => assert_eq!(text, "42"),
        _ => panic!("pin rows copy their answer"),
    }
    assert_eq!(registry.activate("no-colon", Action::Primary).err().unwrap(), "malformed item id: no-colon");
    assert_eq!(registry.activate("other:x", Action::Primary).err().unwrap(), "no provider named other");
}

#[test]
fn ids_split_at_the_first_colon() {
    assert_eq!(split_item_id("web:a:b"), Some(("web".to_string(), "a:b".to_string())));
    assert_eq!(split_item_id("plain"), None);
}

#[test]
fn query_and_action_parsing() {
    assert_eq!(Query::new("  hi  ").trimmed, "hi");
    assert!(Query::new("   ").is_empty());
    assert_eq!(Action::parse("secondary"), Action::Secondary);
    assert_eq!(Action::parse("anything"), Action::Primary);
}

#[test]
fn total_caps_the_merged_list() {
    let web = Arc::new(WebsearchProvider::new());
    let registry = Registry::new(vec![Arc::new(StrongProvider), web]);
    let items = registry.query("quantic", &Config::default(), 1);
    assert_eq!(items.len(), 1);
    assert_eq!(items[0].provider, "pin");
}
