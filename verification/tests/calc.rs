//! The calculator's pre-filter, result handling and activation.

use omarchycastd::providers::calc::{eval_once, looks_like_maths, CalcProvider};
use omarchycastd::search::{Action, Activation, Query};

#[test]
fn only_maths_reaches_the_evaluator() {
    assert!(looks_like_maths("1920 * 0.85"));
    assert!(looks_like_maths("10 - 4"));
    assert!(looks_like_maths("5 km to mi"));
    assert!(looks_like_maths("100 IN cm"));
    assert!(!looks_like_maths("gnome-terminal-2"));
    assert!(!looks_like_maths("firefox"));
    assert!(!looks_like_maths("1+"));
    assert!(!looks_like_maths("pi * r"));
}

#[test]
fn echoed_or_empty_results_are_dropped() {
    assert_eq!(eval_once("2 + 2", Some(" 4 ".to_string())), Some("4".to_string()));
    assert_eq!(eval_once(" foo + ", Some("foo +".to_string())), None);
    assert_eq!(eval_once("1 / 0", Some("   ".to_string())), None);
    assert_eq!(eval_once("1 / 0", None), None);
}

#[test]
fn provider_shows_and_copies_the_result() {
    let mut p = CalcProvider::new();
    assert_eq!(p.activate("result", Action::Primary).err().unwrap(), "no calculation to copy");
    let q = Query::new("1920 * 0.85");
    assert!(p.wants(&q));
    let items = p.answer_query(&q, Some("1632".to_string()));
    assert_eq!(items.len(), 1);
    assert_eq!(items[0].id, "calc:result");
    assert_eq!(items[0].title, "1632");
    assert_eq!(items[0].subtitle.as_deref(), Some("1920 * 0.85"));
    assert_eq!(items[0].score, 1_000_000);
    match p.activate("result", Action::Primary) {
        Ok(Activation::Copy { text }) => assert_eq!(text, "1632"),
        _ => panic!("primary copies the result"),
    }
    match p.activate("result", Action::Secondary) {
        Ok(Activation::Copy { text }) => assert_eq!(text, "1920 * 0.85 = 1632"),
        _ => panic!("secondary copies the working"),
    }
    let none = p.answer_query(&Query::new("firefox"), Some("ignored".to_string()));
    assert!(none.is_empty());
    match p.activate("result", Action::Primary) {
        Ok(Activation::Copy { text }) => assert_eq!(text, "1632"),
        _ => panic!("the last result is kept"),
    }
}
