//! Ranking arithmetic shared by the providers and the registry.

use crate::text::{views, chars_of, has_prefix, seq_starts_with, split_words, to_lowercase, words, Sep};
use nucleo_matcher::pattern::{CaseMatching, Normalization, Pattern};
use nucleo_matcher::{Matcher, Utf32Str};
use vstd::prelude::*;

verus! {

/// Fuzzy relevance dominates the ordering; frecency breaks ties and nudges
/// familiar results upward.
pub fn combine(fuzzy: u32, boost: i64) -> (r: i64)
    requires
        i64::MIN <= fuzzy * 100 + boost <= i64::MAX,
    ensures
        r == fuzzy * 100 + boost,
{
    fuzzy as i64 * 100 + boost
}

/// The bonus `query_bonus` gives, over the lowercased query and title.
pub open spec fn bonus_for(query_lower: Seq<char>, title_lower: Seq<char>) -> i64 {
    if query_lower.len() == 0 {
        0
    } else if title_lower == query_lower {
        12_000
    } else if has_prefix(title_lower, query_lower) {
        8_000
    } else if exists|i: int|
        0 <= i < words(title_lower, Sep::Whitespace).len() && has_prefix(
            #[trigger] words(title_lower, Sep::Whitespace)[i],
            query_lower,
        ) {
        3_000
    } else {
        0
    }
}

/// Bonus for how the query sits in the title, applied uniformly by the
/// registry. Fuzzy scores land around 10k-20k after `combine`, so these move
/// near-ties without letting a prefix beat a clearly better textual match.
pub fn query_bonus(query_lower: &str, title: &str) -> (r: i64)
    ensures
        r == bonus_for(query_lower@, crate::text::unicode_lowercase(title@)),
        0 <= r <= 12_000,
{
    if query_lower.is_empty() {
        return 0;
    }
    let title_lower = to_lowercase(title);
    let t = chars_of(title_lower.as_str());
    let q = chars_of(query_lower);
    if t.len() == q.len() && seq_starts_with(&t, &q) {
        assert(t@.subrange(0, q@.len() as int) =~= t@);
        return 12_000;
    }
    if seq_starts_with(&t, &q) {
        assert(t@ != q@);
        return 8_000;
    }
    assert(t@ != q@) by {
        if t@ == q@ {
            assert(t@.subrange(0, q@.len() as int) =~= t@);
        }
    }
    let ws = split_words(&t, Sep::Whitespace);
    let mut i: usize = 0;
    while i < ws.len()
        invariant
            i <= ws.len(),
            views(ws@) == words(t@, Sep::Whitespace),
            t@ == crate::text::unicode_lowercase(title@),
            q@ == query_lower@,
            q@.len() > 0,
            t@ != q@,
            !has_prefix(t@, q@),
            forall|k: int| 0 <= k < i ==> !has_prefix(#[trigger] views(ws@)[k], q@),
        decreases ws.len() - i,
    {
        if seq_starts_with(&ws[i], &q) {
            assert(has_prefix(views(ws@)[i as int], q@));
            assert(has_prefix(words(t@, Sep::Whitespace)[i as int], q@));
            assert(t@ == crate::text::unicode_lowercase(title@));
            assert(bonus_for(query_lower@, t@) == 3_000);
            return 3_000;
        }
        i += 1;
    }
    0
}

/// How well `needle` fuzzily matches `haystack` under nucleo's default
/// matcher configuration, with smart case and smart normalisation; `None`
/// for no match. The matcher's scoring takes pages to state, so it is only
/// named here.
pub uninterp spec fn fuzzy_score(needle: Seq<char>, haystack: Seq<char>) -> Option<u32>;

#[verifier::external_type_specification]
#[verifier::external_body]
pub struct ExMatcher(nucleo_matcher::Matcher);

/// A nucleo matcher built with nucleo's default configuration. Its field is
/// private and `new_matcher` is the only way to make one, so every matcher
/// that reaches `score` scores by that configuration; what the matcher keeps
/// besides its configuration is scratch space that each scoring starts over.
pub struct ScoreMatcher {
    inner: Matcher,
}

/// `nucleo_matcher::Matcher::new` with `Config::DEFAULT`.
#[verifier::external_body]
pub fn new_matcher() -> ScoreMatcher {
    ScoreMatcher { inner: Matcher::new(nucleo_matcher::Config::DEFAULT) }
}

/// Scores `haystack` against the pattern `needle` (nucleo's
/// `Pattern::parse` with smart case and smart normalisation, then
/// `Pattern::score` on a default-configured matcher). The result is the
/// named `fuzzy_score` of the two texts.
#[verifier::external_body]
pub fn score(needle: &str, haystack: &str, matcher: &mut ScoreMatcher) -> (r: Option<u32>)
    ensures
        r == fuzzy_score(needle@, haystack@),
{
    let pattern = Pattern::parse(needle, CaseMatching::Smart, Normalization::Smart);
    let mut buf = Vec::new();
    pattern.score(Utf32Str::new(haystack, &mut buf), &mut matcher.inner)
}

/// A hit on a secondary field keeps two thirds of its score.
pub open spec fn penalised(s: u32) -> u32 {
    (s - s / 3) as u32
}

/// The best score across a primary field and secondary fields, a secondary
/// hit penalised so that a hit on the name always outranks one on keywords.
pub open spec fn best_field_score(needle: Seq<char>, primary: Seq<char>, secondary: Seq<Seq<char>>) -> Option<u32>
    decreases secondary.len(),
{
    if secondary.len() == 0 {
        fuzzy_score(needle, primary)
    } else {
        let best = best_field_score(needle, primary, secondary.drop_last());
        match fuzzy_score(needle, secondary.last()) {
            None => best,
            Some(s) => match best {
                None => Some(penalised(s)),
                Some(b) => Some(if b >= penalised(s) { b } else { penalised(s) }),
            },
        }
    }
}

/// Best score across several fields, with a penalty for matching a secondary
/// field so a hit on the app's name always outranks a hit on its keywords.
pub fn score_fields(needle: &str, primary: &str, secondary: &Vec<String>, matcher: &mut ScoreMatcher) -> (r: Option<u32>)
    ensures
        r == best_field_score(needle@, primary@, secondary@.map_values(|f: String| f@)),
{
    let ghost fields = secondary@.map_values(|f: String| f@);
    let mut best = score(needle, primary, matcher);
    let mut i: usize = 0;
    assert(fields.take(0) =~= Seq::<Seq<char>>::empty());
    while i < secondary.len()
        invariant
            i <= secondary.len(),
            fields == secondary@.map_values(|f: String| f@),
            best == best_field_score(needle@, primary@, fields.take(i as int)),
        decreases secondary.len() - i,
    {
        assert(fields.take(i + 1).drop_last() =~= fields.take(i as int));
        assert(fields.take(i + 1).last() == secondary@[i as int]@);
        if let Some(s) = score(needle, secondary[i].as_str(), matcher) {
            let pen = s - s / 3;
            best = match best {
                None => Some(pen),
                Some(b) => Some(if b >= pen { b } else { pen }),
            };
        }
        i += 1;
    }
    assert(fields.take(i as int) =~= fields);
    best
}

} // verus!
