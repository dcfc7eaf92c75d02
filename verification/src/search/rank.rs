//! Merging and ordering what the providers return.
//!
//! Each provider's rows are sorted and capped before merging, so one source with
//! hundreds of weak matches can't crowd the others out; then two corrections the
//! raw fuzzy score cannot see are applied (a title the query prefixes, and a
//! per-provider priority), every row is clamped, everything is sorted again, and
//! when nothing strong matched the web-search fallback is promoted to the top.

use super::score::{bonus_for, query_bonus};
use super::{clamped_item, Item, ItemView};
use crate::config::{provider_enabled_spec, provider_limit_spec, Config};
use crate::text::{chars_of, str_eq, unicode_lowercase};
use vstd::prelude::*;

verus! {

/// Rows with at least this score are pinned answers (calculator, dates).
pub const PINNED_SCORE: i64 = 500_000;

/// A query bonus (plus priority) of at least this much counts as a real match.
pub const STRONG_BONUS: i64 = 3_000;

pub open spec fn item_views(v: Seq<Item>) -> Seq<ItemView> {
    Seq::new(v.len(), |i: int| v[i]@)
}

/// Strict lexicographic order on character sequences, which is how `String`
/// compares (UTF-8 preserves code point order).
pub open spec fn chars_before(a: Seq<char>, b: Seq<char>) -> bool
    decreases a.len(),
{
    if a.len() == 0 {
        b.len() > 0
    } else if b.len() == 0 {
        false
    } else if a[0] != b[0] {
        a[0] < b[0]
    } else {
        chars_before(a.drop_first(), b.drop_first())
    }
}

/// `a` is listed before `b`: a higher score first, then the title alphabetically.
pub open spec fn item_before(a: ItemView, b: ItemView) -> bool {
    a.score > b.score || (a.score == b.score && chars_before(a.title, b.title))
}

/// Where a stable insertion puts `x`: before the first row it precedes.
pub open spec fn insert_pos(s: Seq<ItemView>, x: ItemView) -> int
    decreases s.len(),
{
    if s.len() == 0 {
        0
    } else if item_before(x, s[0]) {
        0
    } else {
        1 + insert_pos(s.drop_first(), x)
    }
}

/// Descending score, with the title as a stable tie-break: what a stable sort
/// by (score descending, title ascending) produces.
pub open spec fn sort_items(s: Seq<ItemView>) -> Seq<ItemView>
    decreases s.len(),
{
    if s.len() == 0 {
        s
    } else {
        let sorted = sort_items(s.drop_last());
        sorted.insert(insert_pos(sorted, s.last()), s.last())
    }
}

pub proof fn lemma_insert_pos_bounds(s: Seq<ItemView>, x: ItemView)
    ensures
        0 <= insert_pos(s, x) <= s.len(),
        forall|k: int| 0 <= k < insert_pos(s, x) ==> !item_before(x, #[trigger] s[k]),
        insert_pos(s, x) < s.len() ==> item_before(x, s[insert_pos(s, x)]),
    decreases s.len(),
{
    if s.len() > 0 && !item_before(x, s[0]) {
        lemma_insert_pos_bounds(s.drop_first(), x);
        assert forall|k: int| 0 <= k < insert_pos(s, x) implies !item_before(x, #[trigger] s[k]) by {
            if k > 0 {
                assert(s[k] == s.drop_first()[k - 1]);
            }
        }
    }
}

pub proof fn lemma_sort_len(s: Seq<ItemView>)
    ensures
        sort_items(s).len() == s.len(),
    decreases s.len(),
{
    if s.len() > 0 {
        lemma_sort_len(s.drop_last());
        lemma_insert_pos_bounds(sort_items(s.drop_last()), s.last());
    }
}

/// Lexicographic order is asymmetric.
pub proof fn lemma_chars_before_asym(a: Seq<char>, b: Seq<char>)
    ensures
        !(chars_before(a, b) && chars_before(b, a)),
        !chars_before(a, a),
    decreases a.len(),
{
    if a.len() > 0 && b.len() > 0 && a[0] == b[0] {
        lemma_chars_before_asym(a.drop_first(), b.drop_first());
    }
    if a.len() > 0 {
        lemma_chars_before_asym(a.drop_first(), a.drop_first());
    }
}

/// Lexicographic order is transitive.
pub proof fn lemma_chars_before_trans(a: Seq<char>, b: Seq<char>, c: Seq<char>)
    requires
        chars_before(a, b),
        chars_before(b, c),
    ensures
        chars_before(a, c),
    decreases a.len(),
{
    if a.len() > 0 && b.len() > 0 && c.len() > 0 && a[0] == b[0] && b[0] == c[0] {
        lemma_chars_before_trans(a.drop_first(), b.drop_first(), c.drop_first());
    }
}

/// Lexicographic order is total on distinct sequences.
pub proof fn lemma_chars_before_total(a: Seq<char>, b: Seq<char>)
    ensures
        a == b || chars_before(a, b) || chars_before(b, a),
    decreases a.len(),
{
    if a.len() > 0 && b.len() > 0 && a[0] == b[0] {
        lemma_chars_before_total(a.drop_first(), b.drop_first());
        if a.drop_first() == b.drop_first() {
            assert(a =~= seq![a[0]] + a.drop_first());
            assert(b =~= seq![b[0]] + b.drop_first());
        }
    } else if a.len() == 0 && b.len() == 0 {
        assert(a =~= b);
    }
}

pub proof fn lemma_item_before_order(a: ItemView, b: ItemView, c: ItemView)
    ensures
        !(item_before(a, b) && item_before(b, a)),
        item_before(a, b) && item_before(b, c) ==> item_before(a, c),
{
    lemma_chars_before_asym(a.title, b.title);
    if item_before(a, b) && item_before(b, c) && a.score == b.score && b.score == c.score {
        lemma_chars_before_trans(a.title, b.title, c.title);
    }
}

/// No row is listed after a row it precedes.
pub open spec fn is_sorted(s: Seq<ItemView>) -> bool {
    forall|i: int, j: int| 0 <= i < j < s.len() ==> !item_before(#[trigger] s[j], #[trigger] s[i])
}

/// Inserting at `insert_pos` keeps an ordered list ordered.
proof fn lemma_insert_sorted(prev: Seq<ItemView>, x: ItemView)
    requires
        is_sorted(prev),
    ensures
        is_sorted(prev.insert(insert_pos(prev, x), x)),
{
    lemma_insert_pos_bounds(prev, x);
    let p = insert_pos(prev, x);
    let r = prev.insert(p, x);
    assert forall|i: int, j: int| 0 <= i < j < r.len() implies !item_before(
        #[trigger] r[j],
        #[trigger] r[i],
    ) by {
        if i < p && j < p {
            assert(r[i] == prev[i] && r[j] == prev[j]);
        } else if i < p && j == p {
            assert(r[i] == prev[i]);
        } else if i < p && j > p {
            assert(r[i] == prev[i] && r[j] == prev[j - 1]);
        } else if i == p {
            assert(r[j] == prev[j - 1]);
            assert(item_before(x, prev[p]));
            if j - 1 > p {
                assert(!item_before(prev[j - 1], prev[p]));
            }
            lemma_item_before_order(prev[j - 1], x, prev[p]);
            lemma_item_before_order(x, prev[p], prev[p]);
        } else {
            assert(r[i] == prev[i - 1] && r[j] == prev[j - 1]);
        }
    }
}

proof fn lemma_insert_multiset(prev: Seq<ItemView>, p: int, x: ItemView)
    requires
        0 <= p <= prev.len(),
    ensures
        prev.insert(p, x).to_multiset() == prev.to_multiset().insert(x),
{
    broadcast use vstd::seq_lib::group_to_multiset_ensures;

}

/// Sorting yields an ordered list holding exactly the rows it was given.
pub proof fn lemma_sort_items_sorted(s: Seq<ItemView>)
    ensures
        is_sorted(sort_items(s)),
        sort_items(s).to_multiset() == s.to_multiset(),
        sort_items(s).len() == s.len(),
    decreases s.len(),
{
    lemma_sort_len(s);
    if s.len() == 0 {
        broadcast use vstd::seq_lib::group_to_multiset_ensures;

        assert(s.to_multiset() =~= vstd::multiset::Multiset::empty());
    } else {
        let prev = sort_items(s.drop_last());
        let x = s.last();
        lemma_sort_items_sorted(s.drop_last());
        lemma_insert_pos_bounds(prev, x);
        lemma_insert_sorted(prev, x);
        lemma_insert_multiset(prev, insert_pos(prev, x), x);
        assert(s =~= s.drop_last().push(x));
        assert(s.drop_last().push(x).to_multiset() == s.drop_last().to_multiset().insert(x)) by {
            broadcast use vstd::seq_lib::group_to_multiset_ensures;

        }
    }
}

pub open spec fn priority_of(id: Seq<char>) -> i64 {
    if id == "apps"@ {
        400
    } else if id == "note"@ {
        200
    } else if id == "plug"@ {
        100
    } else {
        0
    }
}

/// A row of provider `id` after the query bonus and the clamp.
pub open spec fn adjusted(v: ItemView, id: Seq<char>, q: Seq<char>) -> ItemView {
    if id != "web"@ && v.score < PINNED_SCORE {
        clamped_item(
            ItemView {
                score: (v.score + bonus_for(q, unicode_lowercase(v.title)) + priority_of(id)) as i64,
                ..v
            },
        )
    } else {
        clamped_item(v)
    }
}

/// Does this row count as something the providers really matched?
pub open spec fn is_strong(v: ItemView, id: Seq<char>, q: Seq<char>) -> bool {
    id != "web"@ && (v.score >= PINNED_SCORE || bonus_for(q, unicode_lowercase(v.title))
        + priority_of(id) >= STRONG_BONUS)
}

/// What one provider returned, before ranking.
pub struct ProviderRun {
    pub id: &'static str,
    pub items: Vec<Item>,
}

pub struct RunView {
    pub id: Seq<char>,
    pub items: Seq<ItemView>,
}

impl View for ProviderRun {
    type V = RunView;

    open spec fn view(&self) -> RunView {
        RunView { id: self.id@, items: item_views(self.items@) }
    }
}

pub open spec fn run_views(v: Seq<ProviderRun>) -> Seq<RunView> {
    Seq::new(v.len(), |i: int| v[i]@)
}

pub open spec fn min_nat(a: int, b: int) -> int {
    if a < b {
        a
    } else {
        b
    }
}

/// The rows a provider keeps: its best `limit`, in order.
pub open spec fn kept_rows(run: RunView, c: &Config) -> Seq<ItemView> {
    let sorted = sort_items(run.items);
    sorted.take(min_nat(sorted.len() as int, provider_limit_spec(c, run.id) as int))
}

/// A provider's contribution after capping, bonus and clamp.
pub open spec fn run_rows(run: RunView, q: Seq<char>, c: &Config) -> Seq<ItemView> {
    kept_rows(run, c).map_values(|v: ItemView| adjusted(v, run.id, q))
}

pub open spec fn run_strong(run: RunView, q: Seq<char>, c: &Config) -> bool {
    exists|k: int| 0 <= k < kept_rows(run, c).len() && is_strong(#[trigger] kept_rows(run, c)[k], run.id, q)
}

/// The enabled providers' contributions, in provider order.
pub open spec fn merged(runs: Seq<RunView>, q: Seq<char>, c: &Config) -> Seq<ItemView>
    decreases runs.len(),
{
    if runs.len() == 0 {
        Seq::empty()
    } else if provider_enabled_spec(c, runs.last().id) {
        merged(runs.drop_last(), q, c) + run_rows(runs.last(), q, c)
    } else {
        merged(runs.drop_last(), q, c)
    }
}

pub open spec fn any_strong(runs: Seq<RunView>, q: Seq<char>, c: &Config) -> bool
    decreases runs.len(),
{
    if runs.len() == 0 {
        false
    } else {
        any_strong(runs.drop_last(), q, c) || (provider_enabled_spec(c, runs.last().id)
            && run_strong(runs.last(), q, c))
    }
}

pub open spec fn is_web(v: ItemView) -> bool {
    v.provider == "web"@
}

/// The web rows of `s`, in order.
pub open spec fn web_rows(s: Seq<ItemView>) -> Seq<ItemView>
    decreases s.len(),
{
    if s.len() == 0 {
        s
    } else if is_web(s.last()) {
        web_rows(s.drop_last()).push(s.last())
    } else {
        web_rows(s.drop_last())
    }
}

/// The other rows of `s`, in order.
pub open spec fn other_rows(s: Seq<ItemView>) -> Seq<ItemView>
    decreases s.len(),
{
    if s.len() == 0 {
        s
    } else if !is_web(s.last()) {
        other_rows(s.drop_last()).push(s.last())
    } else {
        other_rows(s.drop_last())
    }
}

/// The web rows first, then the others, each group in its existing order.
pub open spec fn web_first(s: Seq<ItemView>) -> Seq<ItemView> {
    web_rows(s) + other_rows(s)
}

/// The final list: everything sorted, the web fallback promoted when nothing
/// strong matched, then at most `total` rows.
pub open spec fn ranked(runs: Seq<RunView>, q: Seq<char>, c: &Config, total: nat) -> Seq<ItemView> {
    let all = sort_items(merged(runs, q, c));
    let arranged = if any_strong(runs, q, c) {
        all
    } else {
        web_first(all)
    };
    arranged.take(min_nat(arranged.len() as int, total as int))
}

pub fn chars_lt(a: &Vec<char>, b: &Vec<char>) -> (r: bool)
    ensures
        r == chars_before(a@, b@),
{
    let mut i: usize = 0;
    assert(a@.skip(0) =~= a@);
    assert(b@.skip(0) =~= b@);
    while i < a.len() && i < b.len()
        invariant
            i <= a.len() && i <= b.len(),
            forall|k: int| 0 <= k < i ==> a@[k] == b@[k],
            chars_before(a@, b@) == chars_before(a@.skip(i as int), b@.skip(i as int)),
        decreases a.len() - i,
    {
        if a[i] != b[i] {
            return a[i] < b[i];
        }
        assert(a@.skip(i as int).drop_first() =~= a@.skip(i + 1));
        assert(b@.skip(i as int).drop_first() =~= b@.skip(i + 1));
        i += 1;
    }
    i == a.len() && i < b.len()
}

pub fn before(a: &Item, b: &Item) -> (r: bool)
    ensures
        r == item_before(a@, b@),
{
    if a.score != b.score {
        return a.score > b.score;
    }
    let x = chars_of(a.title.as_str());
    let y = chars_of(b.title.as_str());
    chars_lt(&x, &y)
}

/// Sorts rows by descending score, then title, keeping equal rows in order.
pub fn sort_rows(items: &Vec<Item>) -> (r: Vec<Item>)
    ensures
        item_views(r@) == sort_items(item_views(items@)),
{
    let ghost input = item_views(items@);
    let mut out: Vec<Item> = Vec::new();
    let mut i: usize = 0;
    let n = items.len();
    while i < n
        invariant
            i <= n == items.len(),
            input == item_views(items@),
            item_views(out@) == sort_items(input.take(i as int)),
        decreases n - i,
    {
        let x = items[i].duplicate();
        let ghost prev = item_views(out@);
        assert(input.take(i + 1).drop_last() =~= input.take(i as int));
        assert(input.take(i + 1).last() == x@);
        let mut j: usize = 0;
        proof {
            lemma_insert_pos_bounds(prev, x@);
            assert(prev.skip(0) =~= prev);
        }
        while j < out.len() && !before(&x, &out[j])
            invariant
                j <= out.len(),
                prev == item_views(out@),
                insert_pos(prev, x@) == j + insert_pos(prev.skip(j as int), x@),
            decreases out.len() - j,
        {
            assert(prev.skip(j as int)[0] == prev[j as int]);
            assert(prev.skip(j as int).drop_first() =~= prev.skip(j + 1));
            j += 1;
        }
        proof {
            if j < out.len() {
                assert(prev.skip(j as int)[0] == prev[j as int]);
            }
        }
        out.insert(j, x);
        assert(item_views(out@) =~= prev.insert(j as int, x@));
        i += 1;
    }
    assert(input.take(n as int) =~= input);
    out
}

pub proof fn lemma_web_rows_are_web(s: Seq<ItemView>)
    ensures
        forall|k: int| 0 <= k < web_rows(s).len() ==> is_web(#[trigger] web_rows(s)[k]),
        (exists|k: int| 0 <= k < s.len() && is_web(#[trigger] s[k])) ==> web_rows(s).len() > 0,
        web_rows(s).len() + other_rows(s).len() == s.len(),
    decreases s.len(),
{
    if s.len() > 0 {
        lemma_web_rows_are_web(s.drop_last());
        let t = s.drop_last();
        if exists|k: int| 0 <= k < s.len() && is_web(#[trigger] s[k]) {
            let k = choose|k: int| 0 <= k < s.len() && is_web(#[trigger] s[k]);
            if k < s.len() - 1 {
                assert(is_web(t[k]));
            }
        }
    }
}

pub proof fn lemma_web_first_multiset(s: Seq<ItemView>)
    ensures
        web_first(s).to_multiset() == s.to_multiset(),
    decreases s.len(),
{
    broadcast use vstd::multiset::group_multiset_axioms;
    broadcast use vstd::seq_lib::group_to_multiset_ensures;

    if s.len() > 0 {
        let t = s.drop_last();
        let x = s.last();
        lemma_web_first_multiset(t);
        vstd::seq_lib::lemma_multiset_commutative(web_rows(s), other_rows(s));
        vstd::seq_lib::lemma_multiset_commutative(web_rows(t), other_rows(t));
        assert(s =~= t.push(x));
    }
}

/// Never more rows than asked for.
pub proof fn lemma_ranked_bounded(runs: Seq<RunView>, q: Seq<char>, c: &Config, total: nat)
    ensures
        ranked(runs, q, c, total).len() <= total,
{
}

/// When no provider matched anything strongly (no pinned answer, no title
/// the query prefixes) and a web-search row is present, it is the first row.
pub proof fn lemma_web_promoted(runs: Seq<RunView>, q: Seq<char>, c: &Config, total: nat)
    requires
        !any_strong(runs, q, c),
        total > 0,
        exists|k: int| 0 <= k < merged(runs, q, c).len() && is_web(#[trigger] merged(runs, q, c)[k]),
    ensures
        ranked(runs, q, c, total).len() > 0,
        is_web(ranked(runs, q, c, total)[0]),
{
    let m = merged(runs, q, c);
    let all = sort_items(m);
    lemma_sort_items_sorted(m);
    let k = choose|k: int| 0 <= k < m.len() && is_web(#[trigger] m[k]);
    assert(m.to_multiset().count(m[k]) > 0) by {
        broadcast use vstd::seq_lib::group_to_multiset_ensures;
        assert(m.contains(m[k]));
    }
    assert(all.contains(m[k])) by {
        broadcast use vstd::seq_lib::group_to_multiset_ensures;
    }
    lemma_web_rows_are_web(all);
    assert(web_first(all)[0] == web_rows(all)[0]);
}

/// When something matched strongly, the list is fully ordered by score
/// (then title), so a pinned row stays above the web fallback.
pub proof fn lemma_ranked_sorted_when_strong(runs: Seq<RunView>, q: Seq<char>, c: &Config, total: nat)
    requires
        any_strong(runs, q, c),
    ensures
        is_sorted(ranked(runs, q, c, total)),
{
    let m = merged(runs, q, c);
    lemma_sort_items_sorted(m);
    let all = sort_items(m);
    let r = ranked(runs, q, c, total);
    assert forall|i: int, j: int| 0 <= i < j < r.len() implies !item_before(#[trigger] r[j], #[trigger] r[i]) by {
        assert(r[i] == all[i] && r[j] == all[j]);
    }
}

/// Every row of the final list is one of the merged rows of the enabled
/// providers; ranking never invents or duplicates a row.
pub proof fn lemma_ranked_from_merged(runs: Seq<RunView>, q: Seq<char>, c: &Config, total: nat)
    ensures
        forall|k: int| 0 <= k < ranked(runs, q, c, total).len() ==> merged(runs, q, c).contains(
            #[trigger] ranked(runs, q, c, total)[k],
        ),
{
    broadcast use vstd::seq_lib::group_to_multiset_ensures;

    let m = merged(runs, q, c);
    lemma_sort_items_sorted(m);
    let all = sort_items(m);
    lemma_web_first_multiset(all);
    let arranged = if any_strong(runs, q, c) {
        all
    } else {
        web_first(all)
    };
    assert(arranged.to_multiset() == m.to_multiset());
    let r = ranked(runs, q, c, total);
    assert forall|k: int| 0 <= k < r.len() implies m.contains(#[trigger] r[k]) by {
        assert(r[k] == arranged[k]);
        assert(arranged.contains(arranged[k]));
        assert(arranged.to_multiset().count(r[k]) > 0);
        assert(m.to_multiset().count(r[k]) > 0);
    }
}

/// The provider names that enabled providers returned rows with.
pub open spec fn source_provider(runs: Seq<RunView>, c: &Config, provider: Seq<char>) -> bool {
    exists|i: int, j: int|
        0 <= i < runs.len() && 0 <= j < runs[i].items.len() && provider_enabled_spec(c, runs[i].id)
            && #[trigger] runs[i].items[j].provider == provider
}

proof fn lemma_kept_row_source(run: RunView, c: &Config, kk: int)
    requires
        0 <= kk < kept_rows(run, c).len(),
    ensures
        exists|j: int| 0 <= j < run.items.len() && run.items[j] == kept_rows(run, c)[kk],
{
    broadcast use vstd::seq_lib::group_to_multiset_ensures;

    lemma_sort_items_sorted(run.items);
    let sorted = sort_items(run.items);
    let x = kept_rows(run, c)[kk];
    assert(x == sorted[kk]);
    assert(sorted.contains(x));
    assert(sorted.to_multiset().count(x) > 0);
    assert(run.items.to_multiset().count(x) > 0);
    assert(run.items.contains(x));
}

/// Each provider keeps its best rows: exactly `min(n, limit)` of the `n` it
/// returned, each one of them, and no row it drops is listed before a row it
/// keeps, that is, has a higher score, or the same score and a title earlier
/// in the alphabet.
pub proof fn lemma_kept_rows_are_the_best(run: RunView, c: &Config)
    ensures
        kept_rows(run, c).len() == if run.items.len() < provider_limit_spec(c, run.id) {
            run.items.len() as int
        } else {
            provider_limit_spec(c, run.id) as int
        },
        forall|x: ItemView| #[trigger]
            kept_rows(run, c).to_multiset().count(x) <= run.items.to_multiset().count(x),
        forall|x: ItemView, y: ItemView|
            #![trigger run.items.to_multiset().count(x), kept_rows(run, c).contains(y)]
            run.items.to_multiset().count(x) > kept_rows(run, c).to_multiset().count(x) && kept_rows(
                run,
                c,
            ).contains(y) ==> !(x.score > y.score || (x.score == y.score && chars_before(x.title, y.title))),
{
    broadcast use vstd::seq_lib::group_to_multiset_ensures;
    broadcast use vstd::seq_lib::lemma_multiset_commutative;

    lemma_sort_items_sorted(run.items);
    let sorted = sort_items(run.items);
    let k = min_nat(sorted.len() as int, provider_limit_spec(c, run.id) as int);
    let kept = sorted.take(k);
    let rest = sorted.skip(k);
    assert(kept == kept_rows(run, c));
    assert(kept + rest =~= sorted);
    assert(sorted.to_multiset() =~= kept.to_multiset().add(rest.to_multiset()));
    assert forall|x: ItemView, y: ItemView|
        #![trigger run.items.to_multiset().count(x), kept_rows(run, c).contains(y)]
        run.items.to_multiset().count(x) > kept_rows(run, c).to_multiset().count(x) && kept_rows(
            run,
            c,
        ).contains(y) implies !(x.score > y.score || (x.score == y.score && chars_before(x.title, y.title))) by {
        assert(rest.to_multiset().count(x) > 0);
        assert(rest.contains(x));
        let j = choose|j: int| 0 <= j < rest.len() && rest[j] == x;
        let i = choose|i: int| 0 <= i < kept.len() && kept[i] == y;
        assert(sorted[k + j] == x);
        assert(sorted[i] == y);
        assert(!item_before(sorted[k + j], sorted[i]));
    }
}

/// A merged row carries the provider name of a row an enabled provider
/// returned; nothing reaches the list from a disabled provider.
#[verifier::spinoff_prover]
pub proof fn lemma_merged_from_enabled(runs: Seq<RunView>, q: Seq<char>, c: &Config)
    ensures
        forall|k: int|
            0 <= k < merged(runs, q, c).len() ==> source_provider(
                runs,
                c,
                #[trigger] merged(runs, q, c)[k].provider,
            ),
    decreases runs.len(),
{
    if runs.len() > 0 {
        let t = runs.drop_last();
        lemma_merged_from_enabled(t, q, c);
        let last = runs.last();
        let m = merged(runs, q, c);
        let mt = merged(t, q, c);
        assert forall|k: int| 0 <= k < m.len() implies source_provider(runs, c, #[trigger] m[k].provider) by {
            if k < mt.len() {
                assert(m[k] == mt[k]);
                assert(source_provider(t, c, mt[k].provider));
                let (i, j) = choose|i: int, j: int|
                    0 <= i < t.len() && 0 <= j < t[i].items.len() && provider_enabled_spec(c, t[i].id)
                        && #[trigger] t[i].items[j].provider == mt[k].provider;
                assert(runs[i] == t[i]);
                assert(runs[i].items[j].provider == m[k].provider);
            } else {
                assert(provider_enabled_spec(c, last.id));
                let kk = k - mt.len();
                let kept = kept_rows(last, c);
                assert(m[k] == adjusted(kept[kk], last.id, q));
                lemma_kept_row_source(last, c, kk);
                let j = choose|j: int| 0 <= j < last.items.len() && last.items[j] == kept[kk];
                let i = runs.len() - 1;
                assert(runs[i] == last);
                assert(runs[i].items[j].provider == m[k].provider);
            }
        }
    }
}

fn priority(id: &str) -> (p: i64)
    ensures
        p == priority_of(id@),
{
    if str_eq(id, "apps") {
        400
    } else if str_eq(id, "note") {
        200
    } else if str_eq(id, "plug") {
        100
    } else {
        0
    }
}

/// Moves the web rows to the front, keeping each group's order.
fn promote_web(items: &Vec<Item>) -> (r: Vec<Item>)
    ensures
        item_views(r@) == web_first(item_views(items@)),
{
    let ghost all = item_views(items@);
    let mut web: Vec<Item> = Vec::new();
    let mut rest: Vec<Item> = Vec::new();
    let mut i: usize = 0;
    while i < items.len()
        invariant
            i <= items.len(),
            all == item_views(items@),
            item_views(web@) == web_rows(all.take(i as int)),
            item_views(rest@) == other_rows(all.take(i as int)),
        decreases items.len() - i,
    {
        let x = items[i].duplicate();
        assert(all.take(i + 1).drop_last() =~= all.take(i as int));
        assert(all.take(i + 1).last() == x@);
        if str_eq(x.provider, "web") {
            let ghost w = web@;
            web.push(x);
            assert(item_views(web@) =~= item_views(w).push(x@));
        } else {
            let ghost o = rest@;
            rest.push(x);
            assert(item_views(rest@) =~= item_views(o).push(x@));
        }
        i += 1;
    }
    assert(all.take(i as int) =~= all);
    let ghost w = web@;
    let ghost o = rest@;
    web.append(&mut rest);
    assert(item_views(web@) =~= item_views(w) + item_views(o));
    web
}

/// Merges and orders the rows of the given providers (disabled ones are
/// skipped) for a query whose lowercased text is `query_lower`.
pub fn rank(runs: &Vec<ProviderRun>, query_lower: &str, config: &Config, total: usize) -> (r: Vec<Item>)
    ensures
        item_views(r@) == ranked(run_views(runs@), query_lower@, config, total as nat),
{
    let ghost rv = run_views(runs@);
    let ghost q = query_lower@;
    let mut all: Vec<Item> = Vec::new();
    let mut strong = false;
    let mut i: usize = 0;
    while i < runs.len()
        invariant
            i <= runs.len(),
            rv == run_views(runs@),
            q == query_lower@,
            item_views(all@) == merged(rv.take(i as int), q, config),
            strong == any_strong(rv.take(i as int), q, config),
        decreases runs.len() - i,
    {
        let run = &runs[i];
        let ghost runv = rv[i as int];
        assert(rv.take(i + 1).drop_last() =~= rv.take(i as int));
        assert(rv.take(i + 1).last() == runv);
        if config.provider_enabled(run.id) {
            let mut kept = sort_rows(&run.items);
            let limit = config.provider_limit(run.id);
            kept.truncate(limit);
            proof {
                lemma_sort_len(runv.items);
                assert(item_views(kept@) =~= kept_rows(runv, config));
            }
            let ghost keptv = kept_rows(runv, config);
            let ghost base = item_views(all@);
            let ghost base_strong = strong;
            let scored = !str_eq(run.id, "web");
            let prio = priority(run.id);
            let mut j: usize = 0;
            while j < kept.len()
                invariant
                    j <= kept.len(),
                    item_views(kept@) == keptv,
                    keptv == kept_rows(runv, config),
                    runv.id == run.id@,
                    scored == (run.id@ != "web"@),
                    prio == priority_of(run.id@),
                    q == query_lower@,
                    item_views(all@) == base + run_rows(runv, q, config).take(j as int),
                    strong == (base_strong || exists|k: int|
                        0 <= k < j && is_strong(#[trigger] keptv[k], runv.id, q)),
                decreases kept.len() - j,
            {
                let mut item = kept[j].duplicate();
                let ghost v0 = item@;
                if scored {
                    if item.score < PINNED_SCORE {
                        let bonus = query_bonus(query_lower, item.title.as_str()) + prio;
                        item.score = item.score + bonus;
                        if bonus >= STRONG_BONUS {
                            strong = true;
                        }
                    } else {
                        strong = true;
                    }
                }
                item.clamp();
                assert(item@ == adjusted(v0, runv.id, q));
                let ghost a0 = all@;
                all.push(item);
                proof {
                    assert(item_views(all@) =~= item_views(a0).push(adjusted(v0, runv.id, q)));
                    assert(run_rows(runv, q, config).take(j + 1) =~= run_rows(runv, q, config).take(
                        j as int,
                    ).push(adjusted(v0, runv.id, q)));
                    if strong != (base_strong || exists|k: int|
                        0 <= k < j + 1 && is_strong(#[trigger] keptv[k], runv.id, q)) {
                        assert(is_strong(keptv[j as int], runv.id, q) == is_strong(v0, runv.id, q));
                    }
                }
                j += 1;
            }
            proof {
                assert(run_rows(runv, q, config).take(j as int) =~= run_rows(runv, q, config));
            }
        }
        i += 1;
    }
    assert(rv.take(i as int) =~= rv);
    let sorted = sort_rows(&all);
    let mut arranged = if strong {
        sorted
    } else {
        promote_web(&sorted)
    };
    arranged.truncate(total);
    arranged
}

} // verus!
