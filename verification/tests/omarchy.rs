//! The Omarchy provider: JSONC, argv rules, entries and activation.

use omarchycastd::providers::omarchy::{
    command_entries, jsonc_to_json, menu_entries, merge_menus, parse_index, plain_argv, runnable_bare,
    theme_entries, CommandRow, MenuItem, OmarchyProvider,
};
use omarchycastd::search::{Action, Activation, Query};

#[test]
fn jsonc_stripper_preserves_urls_and_removes_comments() {
    let raw = r#"{
  // a comment
  "a": {"label": "L", "target": "https://x.y/z"}, /* block */
  "b": {"label": "M",},
}"#;
    let parsed: serde_json::Value = serde_json::from_str(&jsonc_to_json(raw)).expect("should parse");
    assert_eq!(parsed["a"]["target"].as_str(), Some("https://x.y/z"));
    assert_eq!(parsed.as_object().unwrap().len(), 2);
}

#[test]
fn shell_syntax_is_never_run_directly() {
    assert!(plain_argv("omarchy-launch-screensaver force").is_some());
    for bad in ["a | b", "a && b", "a $(x)", "sh -c 'x'", "a > /tmp/f"] {
        assert!(plain_argv(bad).is_none(), "{bad} must fall back to summon");
    }
}

#[test]
fn only_all_optional_signatures_run_bare() {
    assert!(runnable_bare(""));
    assert!(runnable_bare("[--status]"));
    assert!(runnable_bare("[smart|region] [--editor=<name>]"));
    assert!(!runnable_bare("<pid> [comm]"));
}

#[test]
fn jsonc_edge_cases() {
    assert_eq!(jsonc_to_json("[1, 2, ]"), "[1, 2 ]");
    assert_eq!(jsonc_to_json("{\"a\": \"x\\\"//y\"}"), "{\"a\": \"x\\\"//y\"}");
    assert_eq!(jsonc_to_json("1 /* never closed"), "1 ");
    assert_eq!(plain_argv("  a  b ").unwrap(), vec!["a".to_string(), "b".to_string()]);
    assert!(plain_argv("   ").is_none());
}

#[test]
fn jsonc_keeps_plain_json_and_string_contents() {
    assert_eq!(jsonc_to_json(r#"{"k":"é"}"#), r#"{"k":"é"}"#);
    assert_eq!(jsonc_to_json(r#"[", ]"]"#), r#"[", ]"]"#);
    assert_eq!(jsonc_to_json("{\"a\": \"ü /* x */\", // note\n \"b\": [1,],}"), "{\"a\": \"ü /* x */\", \n \"b\": [1]}");
}

fn item(label: &str, action: Option<&str>, target: Option<&str>) -> MenuItem {
    MenuItem {
        label: label.into(),
        action: action.map(str::to_string),
        target: target.map(str::to_string),
        aliases: vec![],
    }
}

#[test]
fn menu_entries_carry_breadcrumbs_and_runs() {
    let default = vec![
        ("system".to_string(), item("System", None, None)),
        ("system.suspend".to_string(), item("Suspend", Some("systemctl suspend"), None)),
        ("system.lock".to_string(), item("Lock", Some("a | b"), None)),
    ];
    let user = vec![("system.suspend".to_string(), item("Sleep", Some("systemctl suspend"), None))];
    let merged = merge_menus(vec![default, user]);
    let ids: Vec<&str> = merged.iter().map(|(id, _)| id.as_str()).collect();
    assert_eq!(ids, vec!["system", "system.lock", "system.suspend"]);
    let entries = menu_entries(&merged);
    assert_eq!(entries.len(), 3);

    let mut p = OmarchyProvider::new();
    p.set_entries(entries, theme_entries(vec!["nord".into(), "catppuccin".into(), "nord".into()]), vec![]);
    let rows = p.query(&Query::new("sleep"));
    let sleep = rows.iter().find(|r| r.title == "Sleep").expect("overlay label wins");
    assert_eq!(sleep.subtitle.as_deref(), Some("System \u{203a} Sleep"));
    let index = sleep.id.strip_prefix("oma:").unwrap();
    match p.activate(index, Action::Primary) {
        Ok(Activation::Launch { program, args }) => {
            assert_eq!(program, "systemctl");
            assert_eq!(args, vec!["suspend".to_string()]);
        }
        _ => panic!("plain actions run as argv"),
    }
    let system = p.query(&Query::new("System")).into_iter().find(|r| r.title == "System").unwrap();
    assert_eq!(system.subtitle.as_deref(), Some("Omarchy menu \u{203a} System"));
    match p.activate("1", Action::Primary) {
        Ok(Activation::Launch { program, args }) => {
            assert_eq!(program, "omarchy-menu");
            assert_eq!(args, vec!["summon".to_string(), "system.lock".to_string()]);
        }
        _ => panic!("shell actions summon the menu"),
    }
    let themes = p.query(&Query::new("theme"));
    assert!(themes.iter().any(|r| r.title == "Theme: catppuccin"));
    assert_eq!(p.activate("99", Action::Primary).err().unwrap(), "stale omarchy entry");
    assert_eq!(p.activate("x", Action::Primary).err().unwrap(), "invalid digit found in string");
    assert!(p.query(&Query::new("   ")).is_empty());
}

#[test]
fn only_runnable_commands_are_listed() {
    let rows = vec![
        CommandRow {
            route: "theme next".into(),
            summary: "Next theme".into(),
            args: "".into(),
            aliases: vec!["cycle".into()],
            hidden: false,
            requires_sudo: false,
        },
        CommandRow {
            route: "kill".into(),
            summary: "Kill".into(),
            args: "<pid>".into(),
            aliases: vec![],
            hidden: false,
            requires_sudo: false,
        },
        CommandRow {
            route: "secret".into(),
            summary: "Hidden".into(),
            args: "".into(),
            aliases: vec![],
            hidden: true,
            requires_sudo: false,
        },
    ];
    let entries = command_entries(&rows);
    assert_eq!(entries.len(), 1);
    let mut p = OmarchyProvider::new();
    p.set_entries(vec![], vec![], entries);
    match p.activate("0", Action::Primary) {
        Ok(Activation::Launch { program, args }) => {
            assert_eq!(program, "theme");
            assert_eq!(args, vec!["next".to_string()]);
        }
        _ => panic!("commands run as argv"),
    }
}

#[test]
fn indexes_parse_like_usize() {
    assert_eq!(parse_index("42"), Ok(42));
    assert_eq!(parse_index("+7"), Ok(7));
    assert_eq!(parse_index("").unwrap_err(), "cannot parse integer from empty string");
    assert_eq!(parse_index("-1").unwrap_err(), "invalid digit found in string");
    assert_eq!(parse_index("+").unwrap_err(), "invalid digit found in string");
    assert_eq!(parse_index("99999999999999999999999").unwrap_err(), "number too large to fit in target type");
}
