//! Date arithmetic and the date provider.

use omarchycastd::providers::date::{
    answer, civil_from_days, days_from_civil, days_in_month, eval_once, format_date, is_leap, parse_date, weekday,
    DateProvider, Prefer,
};
use omarchycastd::search::{Action, Activation, Query};

fn today_utc() -> i64 {
    let secs = std::time::SystemTime::now().duration_since(std::time::UNIX_EPOCH).unwrap().as_secs() as i64;
    secs.div_euclid(86_400)
}

#[test]
fn civil_round_trip() {
    for day in [0, 1, 20_000, -1, 19_000, 25_000] {
        let (y, m, d) = civil_from_days(day);
        assert_eq!(days_from_civil(y, m, d), day);
    }
}

#[test]
fn known_dates() {
    assert_eq!(days_from_civil(1970, 1, 1), 0);
    assert_eq!(weekday(0), "Thursday");
    assert_eq!(days_from_civil(2026, 10, 8) - days_from_civil(2026, 8, 28), 41);
}

#[test]
fn parses_the_phrasings_people_type() {
    let base = days_from_civil(2026, 8, 28);
    for text in ["october 8", "oct 8", "8 october", "2026-10-08", "October 8, 2026"] {
        assert_eq!(
            parse_date(&text.to_lowercase(), base, Prefer::Future),
            Some(days_from_civil(2026, 10, 8)),
            "{text}"
        );
    }
}

#[test]
fn bare_date_resolves_towards_the_question() {
    let base = days_from_civil(2026, 8, 28);
    // March has already passed in 2026, so "until" must mean 2027 and
    // "since" must mean the one earlier this year.
    assert_eq!(parse_date("march 1", base, Prefer::Future), Some(days_from_civil(2027, 3, 1)));
    assert_eq!(parse_date("march 1", base, Prefer::Past), Some(days_from_civil(2026, 3, 1)));
}

#[test]
fn neither_direction_ever_answers_negatively() {
    for today in [today_utc(), days_from_civil(2026, 8, 28), days_from_civil(2024, 2, 29)] {
        for query in ["days until march 1", "days since march 1", "days until october 8"] {
            let text = eval_once(query, today).expect(query);
            assert!(!text.starts_with('-'), "{query} answered {text}");
        }
    }
}

#[test]
fn rejects_impossible_dates() {
    let base = days_from_civil(2026, 8, 28);
    assert_eq!(parse_date("february 30", base, Prefer::Future), None);
    assert_eq!(parse_date("2026-02-30", base, Prefer::Future), None);
    assert_eq!(parse_date("notamonth 8", base, Prefer::Future), None);
}

#[test]
fn leap_day_is_accepted_only_in_leap_years() {
    let base = days_from_civil(2024, 1, 1);
    assert!(parse_date("2024-02-29", base, Prefer::Future).is_some());
    assert!(parse_date("2025-02-29", base, Prefer::Future).is_none());
}

#[test]
fn calendar_rules() {
    assert!(is_leap(2000) && is_leap(2024) && !is_leap(1900) && !is_leap(2026));
    assert!(is_leap(-4) && !is_leap(-100));
    assert_eq!(days_in_month(2024, 2), 29);
    assert_eq!(days_in_month(2026, 2), 28);
    assert_eq!(days_in_month(2026, 4), 30);
    assert_eq!(days_in_month(2026, 13), 0);
    assert_eq!(civil_from_days(-719_468), (0, 3, 1));
    assert_eq!(format_date(days_from_civil(2026, 10, 8)), "Thursday, 8 October 2026");
}

#[test]
fn relative_words_and_ordinals() {
    let base = days_from_civil(2026, 8, 28);
    assert_eq!(parse_date(" tomorrow ", base, Prefer::Past), Some(base + 1));
    assert_eq!(parse_date("yesterday", base, Prefer::Future), Some(base - 1));
    assert_eq!(parse_date("8th oct", base, Prefer::Future), Some(days_from_civil(2026, 10, 8)));
    assert_eq!(parse_date("oct oct 8", base, Prefer::Future), None);
    assert_eq!(parse_date("1 2 3 4", base, Prefer::Future), None);
}

#[test]
fn answers_each_phrasing() {
    let base = days_from_civil(2026, 8, 28);
    let a = answer("How many days until October 8", base).unwrap();
    assert_eq!(a.title, "41 days");
    assert_eq!(a.subtitle, "until Thursday, 8 October 2026");
    let b = answer("days since 2026-08-27", base).unwrap();
    assert_eq!(b.title, "1 day");
    let c = answer("2 weeks ago", base).unwrap();
    assert_eq!(c.title, format_date(base - 14));
    assert_eq!(c.subtitle, "14 days ago");
    let d = answer("3 days from now", base).unwrap();
    assert_eq!(d.subtitle, "3 days from today");
    assert!(answer("what time is it", base).is_none());
    assert_eq!(eval_once("days until october 8", base).unwrap(), "41 days (until Thursday, 8 October 2026)");
}

#[test]
fn provider_copies_the_last_answer() {
    let base = days_from_civil(2026, 8, 28);
    let mut p = DateProvider::new();
    assert_eq!(p.activate("answer", Action::Primary).err().unwrap(), "no date result to copy");
    assert!(p.answer_query(&Query::new("hello"), base).is_empty());
    let items = p.answer_query(&Query::new("days until october 8"), base);
    assert_eq!(items.len(), 1);
    assert_eq!(items[0].id, "date:answer");
    assert_eq!(items[0].title, "41 days");
    assert_eq!(items[0].score, 1_000_000);
    match p.activate("answer", Action::Primary) {
        Ok(Activation::Copy { text }) => assert_eq!(text, "41 days"),
        _ => panic!("activation copies the answer"),
    }
}

#[test]
fn the_next_day_number_is_the_next_calendar_day() {
    let next = |y: i64, m: i64, d: i64| civil_from_days(days_from_civil(y, m, d) + 1);
    assert_eq!(next(2024, 2, 28), (2024, 2, 29));
    assert_eq!(next(2024, 2, 29), (2024, 3, 1));
    assert_eq!(next(2023, 2, 28), (2023, 3, 1));
    assert_eq!(next(1900, 2, 28), (1900, 3, 1));
    assert_eq!(next(2000, 2, 28), (2000, 2, 29));
    assert_eq!(next(2023, 4, 30), (2023, 5, 1));
    assert_eq!(next(2023, 12, 31), (2024, 1, 1));
    assert_eq!(next(-1, 12, 31), (0, 1, 1));
}

#[test]
fn far_dates_are_counted_while_the_arithmetic_holds() {
    let far = parse_date("1000000000000000-01-01", 0, Prefer::Future).unwrap();
    assert_eq!(far, days_from_civil(1_000_000_000_000_000, 1, 1));
    assert_eq!(civil_from_days(far), (1_000_000_000_000_000, 1, 1));
    assert_eq!(parse_date("9000000000000000000-01-01", 0, Prefer::Future), None);
    let a = answer("2000000000000000 days from now", 0).unwrap();
    assert_eq!(a.title, format_date(2_000_000_000_000_000));
    assert_eq!(a.subtitle, "2000000000000000 days from today");
    assert!(answer("9000000000000000000 weeks ago", 0).is_none());
}

#[test]
fn asking_in_capitals_or_with_how_many_changes_nothing() {
    let base = days_from_civil(2026, 8, 28);
    let shown = |q: &str| answer(q, base).map(|a| (a.title, a.subtitle));
    for q in ["days until october 8", "3 weeks ago", "days since 2026-08-01"] {
        assert!(shown(q).is_some());
        assert_eq!(shown(&q.to_uppercase()), shown(q));
        assert_eq!(shown(&format!("how many {q}")), shown(q));
    }
}
