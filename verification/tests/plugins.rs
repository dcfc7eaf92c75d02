//! Plugins: argv rules, manifests, query-program output and activation.

use omarchycastd::providers::plugins::{
    manifest_order, MAX_PLUGINS,
    invocation_for, script_lines, valid_argv, Manifest, ManifestCommand, PluginsProvider, ScriptItem,
    MAX_ARGV_ITEMS, MAX_ARG_BYTES,
};
use omarchycastd::search::{Action, Activation, Query};

#[test]
fn argv_validation_rejects_the_dangerous_shapes() {
    assert!(valid_argv(&vec![]).is_err());
    assert!(valid_argv(&vec!["x".to_string(); MAX_ARGV_ITEMS + 1]).is_err());
    assert!(valid_argv(&vec!["a".repeat(MAX_ARG_BYTES + 1)]).is_err());
    assert!(valid_argv(&vec!["notify-send".to_string(), "hi".to_string()]).is_ok());
}

#[test]
fn script_items_require_exactly_one_action() {
    let both = (vec!["x".to_string()], Some("y".to_string()));
    let neither = (vec![], None);
    let copy = (vec![], Some("y".to_string()));
    for ((argv, copy_text), ok) in [(both, false), (neither, false), (copy, true)] {
        let valid = invocation_for(argv, copy_text).is_some();
        assert_eq!(valid, ok);
    }
}

fn manifest() -> Manifest {
    Manifest {
        name: "Tools\u{7}".into(),
        keyword: Some("TL".into()),
        query: vec!["tool-query".into()],
        commands: vec![
            ManifestCommand {
                title: "Say hi".into(),
                subtitle: None,
                argv: vec!["notify-send".into(), "hi".into()],
                copy: None,
                glyph: None,
            },
            ManifestCommand { title: "Broken".into(), subtitle: None, argv: vec![], copy: None, glyph: None },
            ManifestCommand {
                title: "Copy email".into(),
                subtitle: Some("work".into()),
                argv: vec![],
                copy: Some("me@example.com".into()),
                glyph: Some("@".into()),
            },
        ],
    }
}

#[test]
fn manifests_become_commands_and_sources() {
    let mut p = PluginsProvider::new();
    p.set_manifests(vec![manifest()]);
    let rows = p.static_items(&Query::new("say hi"));
    let hi = rows.iter().find(|r| r.title == "Say hi").expect("command is listed");
    assert_eq!(hi.subtitle.as_deref(), Some("Tools"));
    assert_eq!(hi.glyph.as_deref(), Some("\u{2699}"));
    let index = hi.id.strip_prefix("plug:").unwrap();
    match p.activate(index, Action::Primary) {
        Ok(Activation::Launch { program, args }) => {
            assert_eq!(program, "notify-send");
            assert_eq!(args, vec!["hi".to_string()]);
        }
        _ => panic!("exec commands launch"),
    }
    assert!(p.static_items(&Query::new("broken")).iter().all(|r| r.title != "Broken"));
    assert_eq!(p.activate("cmd:9", Action::Primary).err().unwrap(), "unknown command");
    assert_eq!(p.activate("what", Action::Primary).err().unwrap(), "unknown plugin item: what");

    assert_eq!(p.source_for(&Query::new("tl  weather ")), Some((0, "weather".to_string())));
    assert_eq!(p.source_for(&Query::new("tlweather")), None);
    assert_eq!(p.source(0).unwrap().argv(), vec!["tool-query".to_string()]);
}

#[test]
fn query_program_results_are_activated_by_index() {
    let mut p = PluginsProvider::new();
    p.set_manifests(vec![manifest()]);
    assert_eq!(p.activate("dyn:0", Action::Primary).err().unwrap(), "stale plugin result");
    let lines = script_lines(b"  {\"title\":\"a\"}  \n\n{\"title\":\"b\"}\n".to_vec()).unwrap();
    assert_eq!(lines, vec!["{\"title\":\"a\"}".to_string(), "{\"title\":\"b\"}".to_string()]);
    assert_eq!(script_lines(vec![0xff]), None);
    let parsed = vec![
        ScriptItem { title: "bad".into(), subtitle: None, accessory: None, argv: vec![], copy: None },
        ScriptItem {
            title: "Sunny".into(),
            subtitle: None,
            accessory: Some("21°".into()),
            argv: vec![],
            copy: Some("21 degrees".into()),
        },
    ];
    let items = p.dynamic_results(0, parsed);
    assert_eq!(items.len(), 1);
    assert_eq!(items[0].id, "plug:dyn:0");
    assert_eq!(items[0].subtitle.as_deref(), Some("Tools"));
    assert_eq!(items[0].score, 900_000);
    match p.activate("dyn:0", Action::Primary) {
        Ok(Activation::Copy { text }) => assert_eq!(text, "21 degrees"),
        _ => panic!("copy results copy"),
    }
}

#[test]
fn manifests_are_read_in_order_and_capped() {
    let found = vec!["/p/b.json".to_string(), "/p/a.json".to_string(), "/p/c.json".to_string(), "/p/a.json".to_string()];
    assert_eq!(manifest_order(found), vec!["/p/a.json".to_string(), "/p/b.json".to_string(), "/p/c.json".to_string()]);
    let many: Vec<String> = (0..100).rev().map(|i| format!("/p/{i:03}.json")).collect();
    let kept = manifest_order(many);
    assert_eq!(kept.len(), MAX_PLUGINS);
    assert_eq!(kept[0], "/p/000.json");
    assert_eq!(kept[MAX_PLUGINS - 1], format!("/p/{:03}.json", MAX_PLUGINS - 1));
}
