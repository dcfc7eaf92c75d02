//! Web-search fallback provider.
//!
//! Matches any non-empty query and offers a single "search the web" row.
//! Activation opens the configured search engine in the system browser via
//! `xdg-open`. The URL template is user-configurable and must contain the
//! literal `{query}` placeholder.
//!
//! Prefix routing: if the query starts with a configured prefix followed by a
//! space (e.g. "x rust async"), the search is routed to that engine instead of
//! the default.

use crate::config::{copy_prefixes, prefix_views, PrefixView, SearchPrefix};
use crate::search::{split_id, split_item_id, Action, Activation, Item, ItemView, Provider, Query};
use crate::search::rank::item_views;
use crate::text::{
    append_str, chars_of, concat, copy_str, has_prefix, seq_starts_with,
    string_from_chars, string_from_range, str_eq, trim,
};
use vstd::prelude::*;

verus! {

pub const DEFAULT_URL: &'static str = "https://duckduckgo.com/?q={query}";

pub const DEFAULT_NAME: &'static str = "Web";

pub const WEB_GLYPH: &'static str = "\u{1F310}";

pub struct WebsearchProvider {
    url: String,
    prefixes: Vec<SearchPrefix>,
}

/// `s` with every space turned into `+`.
pub open spec fn plus_for_space(s: Seq<char>) -> Seq<char> {
    s.map_values(|c: char| if c == ' ' { '+' } else { c })
}

/// `s` with every occurrence of `pat` replaced by `rep`, scanning left to
/// right without overlap, as `str::replace` does.
pub open spec fn replace_all(s: Seq<char>, pat: Seq<char>, rep: Seq<char>) -> Seq<char>
    decreases s.len(),
{
    if s.len() == 0 {
        s
    } else if pat.len() > 0 && has_prefix(s, pat) {
        rep + replace_all(s.skip(pat.len() as int), pat, rep)
    } else {
        seq![s[0]] + replace_all(s.drop_first(), pat, rep)
    }
}

/// The URL a search for `query` opens with `template`.
pub open spec fn url_for(template: Seq<char>, query: Seq<char>) -> Seq<char> {
    replace_all(template, "{query}"@, plus_for_space(query))
}

/// `s` with every leading copy of `p` removed, as `trim_start_matches` does.
pub open spec fn strip_leading(s: Seq<char>, p: Seq<char>) -> Seq<char>
    decreases s.len(),
{
    if p.len() > 0 && has_prefix(s, p) {
        strip_leading(s.skip(p.len() as int), p)
    } else {
        s
    }
}

/// The text before the first `/`.
pub open spec fn before_slash(s: Seq<char>) -> Seq<char>
    decreases s.len(),
{
    if s.len() == 0 || s[0] == '/' {
        Seq::empty()
    } else {
        seq![s[0]] + before_slash(s.drop_first())
    }
}

/// The short form of an engine URL shown in the subtitle, e.g. "x.com".
pub open spec fn display_url(url: Seq<char>) -> Seq<char> {
    before_slash(strip_leading(strip_leading(trim(url), "https://"@), "http://"@))
}

/// A prefix matches when the query starts with it followed by a space and
/// something is left to search for.
pub open spec fn routes(p: PrefixView, t: Seq<char>) -> bool {
    has_prefix(t, p.prefix.push(' ')) && t.len() > p.prefix.len() + 1
}

/// The first mapping, from `i` on, that routes the query.
pub open spec fn route_from(ps: Seq<PrefixView>, t: Seq<char>, i: int) -> Option<int>
    decreases ps.len() - i,
{
    if i < 0 || i >= ps.len() {
        None
    } else if routes(ps[i], t) {
        Some(i)
    } else {
        route_from(ps, t, i + 1)
    }
}

/// The row offered for a trimmed query.
pub open spec fn web_row(url: Seq<char>, ps: Seq<PrefixView>, t: Seq<char>) -> ItemView {
    match route_from(ps, t, 0) {
        Some(i) => {
            let p = ps[i];
            let term = t.skip(p.prefix.len() + 1int);
            ItemView {
                id: "web:"@ + p.prefix + ":"@ + term,
                provider: "web"@,
                kind: DEFAULT_NAME@,
                title: "Search "@ + p.name + " for: "@ + term,
                subtitle: Some(display_url(p.url)),
                icon: None,
                glyph: Some(WEB_GLYPH@),
                accessory: None,
                score: 0,
            }
        },
        None => ItemView {
            id: "web:default:"@ + t,
            provider: "web"@,
            kind: DEFAULT_NAME@,
            title: "Search web for: "@ + t,
            subtitle: Some("Open in browser"@),
            icon: None,
            glyph: Some(WEB_GLYPH@),
            accessory: None,
            score: 0,
        },
    }
}

/// What the provider answers to a trimmed query: nothing for an empty one,
/// else exactly one row.
pub open spec fn web_answer(url: Seq<char>, ps: Seq<PrefixView>, t: Seq<char>) -> Seq<ItemView> {
    if t.len() == 0 {
        Seq::empty()
    } else {
        seq![web_row(url, ps, t)]
    }
}

proof fn lemma_route_from(ps: Seq<PrefixView>, t: Seq<char>, i: int)
    requires
        0 <= i,
    ensures
        route_from(ps, t, i) matches Some(j) ==> i <= j < ps.len() && routes(ps[j], t) && forall|k: int|
            i <= k < j ==> !routes(#[trigger] ps[k], t),
        route_from(ps, t, i) is None ==> forall|k: int| i <= k < ps.len() ==> !routes(#[trigger] ps[k], t),
    decreases ps.len() - i,
{
    if i < ps.len() && !routes(ps[i], t) {
        lemma_route_from(ps, t, i + 1);
    }
}

/// An empty query gets no row; any other query gets exactly one web row,
/// whose engine is the first mapping (in list order) whose prefix and a
/// space begin the query, or the default engine when none does.
pub proof fn lemma_web_answer_shape(url: Seq<char>, ps: Seq<PrefixView>, t: Seq<char>)
    ensures
        t.len() == 0 ==> web_answer(url, ps, t).len() == 0,
        t.len() > 0 ==> {
            let rows = web_answer(url, ps, t);
            &&& rows.len() == 1
            &&& rows[0].provider == "web"@
            &&& rows[0].kind == DEFAULT_NAME@
            &&& match route_from(ps, t, 0) {
                Some(i) => 0 <= i < ps.len() && routes(ps[i], t) && (forall|k: int|
                    0 <= k < i ==> !routes(#[trigger] ps[k], t)) && rows[0].id == "web:"@ + ps[i].prefix + ":"@
                    + t.skip(ps[i].prefix.len() + 1int),
                None => (forall|k: int| 0 <= k < ps.len() ==> !routes(#[trigger] ps[k], t)) && rows[0].id
                    == "web:default:"@ + t,
            }
        },
{
    lemma_route_from(ps, t, 0);
}

/// The first mapping whose prefix is exactly `engine`.
pub open spec fn engine_index(ps: Seq<PrefixView>, engine: Seq<char>, i: int) -> Option<int>
    decreases ps.len() - i,
{
    if i < 0 || i >= ps.len() {
        None
    } else if ps[i].prefix == engine {
        Some(i)
    } else {
        engine_index(ps, engine, i + 1)
    }
}

/// The URL activating `id` opens. The registry has already removed the
/// provider's `web:`, so `id` is `<engine>:<term>`, or a bare term for the
/// default engine.
pub open spec fn activation_url(url: Seq<char>, ps: Seq<PrefixView>, id: Seq<char>) -> Seq<char> {
    let (engine, term) = match split_id(id) {
        Some((e, t)) => (e, t),
        None => ("default"@, id),
    };
    if engine == "default"@ {
        url_for(url, term)
    } else {
        match engine_index(ps, engine, 0) {
            Some(i) => url_for(ps[i].url, term),
            None => url_for(url, term),
        }
    }
}

fn plus_spaces(v: &Vec<char>) -> (r: Vec<char>)
    ensures
        r@ == plus_for_space(v@),
{
    let mut r: Vec<char> = Vec::new();
    let mut i: usize = 0;
    while i < v.len()
        invariant
            i <= v.len(),
            r@ == plus_for_space(v@.take(i as int)),
        decreases v.len() - i,
    {
        let c = if v[i] == ' ' {
            '+'
        } else {
            v[i]
        };
        r.push(c);
        assert(plus_for_space(v@.take(i + 1)) =~= plus_for_space(v@.take(i as int)).push(c));
        i += 1;
    }
    assert(v@.take(i as int) =~= v@);
    r
}

/// Replaces the `{query}` placeholder in `template` with the form-encoded
/// search term. Spaces become `+` (form-encoding), which every search engine
/// accepts in the query-string position.
pub fn build_url(template: &str, query: &str) -> (r: String)
    ensures
        r@ == url_for(template@, query@),
{
    let q = chars_of(query);
    let encoded = plus_spaces(&q);
    let t = chars_of(template);
    let pat = chars_of("{query}");
    proof {
        reveal_strlit("{query}");
    }
    let mut out: Vec<char> = Vec::new();
    let mut i: usize = 0;
    assert(t@.skip(0) =~= t@);
    assert(Seq::<char>::empty() + replace_all(t@, pat@, encoded@) =~= replace_all(
        t@,
        pat@,
        encoded@,
    ));
    while i < t.len()
        invariant
            i <= t.len(),
            pat@ == "{query}"@,
            pat@.len() == 7,
            out@ + replace_all(t@.skip(i as int), pat@, encoded@) == replace_all(t@, pat@, encoded@),
        decreases t.len() - i,
    {
        let ghost rest = t@.skip(i as int);
        if pat.len() <= t.len() - i && crate::text::matches_at(&t, &pat, i) {
            assert(rest.subrange(0, 7) =~= t@.subrange(i as int, i + 7));
            assert(rest.skip(7) =~= t@.skip(i + 7));
            let ghost o = out@;
            let mut k: usize = 0;
            while k < encoded.len()
                invariant
                    k <= encoded.len(),
                    out@ == o + encoded@.take(k as int),
                decreases encoded.len() - k,
            {
                out.push(encoded[k]);
                assert(encoded@.take(k + 1) =~= encoded@.take(k as int).push(encoded@[k as int]));
                k += 1;
            }
            assert(encoded@.take(k as int) =~= encoded@);
            assert(o + replace_all(rest, pat@, encoded@) =~= out@ + replace_all(
                t@.skip(i + 7),
                pat@,
                encoded@,
            ));
            i += 7;
        } else {
            proof {
                if rest.len() >= 7 {
                    assert(rest.subrange(0, 7) =~= t@.subrange(i as int, i + 7));
                }
            }
            assert(rest.drop_first() =~= t@.skip(i + 1));
            assert(out@ + replace_all(rest, pat@, encoded@) =~= out@.push(t[i as int])
                + replace_all(t@.skip(i + 1), pat@, encoded@));
            out.push(t[i]);
            i += 1;
        }
    }
    assert(t@.skip(i as int) =~= Seq::<char>::empty());
    assert(out@ + Seq::<char>::empty() =~= out@);
    string_from_chars(&out)
}

/// Removes every leading copy of `p` from `v[from..]`, returning where the
/// rest starts.
fn skip_leading(v: &Vec<char>, from: usize, p: &Vec<char>) -> (r: usize)
    requires
        from <= v.len(),
        p.len() > 0,
    ensures
        from <= r <= v.len(),
        v@.skip(r as int) == strip_leading(v@.skip(from as int), p@),
{
    let mut i = from;
    while p.len() <= v.len() - i && crate::text::matches_at(v, p, i)
        invariant
            from <= i <= v.len(),
            p.len() > 0,
            strip_leading(v@.skip(i as int), p@) == strip_leading(v@.skip(from as int), p@),
        decreases v.len() - i,
    {
        assert(v@.skip(i as int).subrange(0, p@.len() as int) =~= v@.subrange(
            i as int,
            i + p@.len(),
        ));
        assert(v@.skip(i as int).skip(p@.len() as int) =~= v@.skip(i + p@.len()));
        i = i + p.len();
    }
    proof {
        if i + p.len() <= v.len() {
            assert(v@.skip(i as int).subrange(0, p@.len() as int) =~= v@.subrange(
                i as int,
                i + p@.len(),
            ));
        }
    }
    i
}

/// Extracts a short display form from a URL for the subtitle, e.g.
/// "https://x.com/search?q={query}" → "x.com".
pub fn engine_display_url(url: &str) -> (r: String)
    ensures
        r@ == display_url(url@),
{
    let all = chars_of(url);
    let (a, b) = crate::text::trim_bounds(&all);
    let v = crate::text::slice_vec(&all, a, b);
    assert(v@ == trim(url@));
    assert(v@.skip(0) =~= v@);
    let https = chars_of("https://");
    let http = chars_of("http://");
    proof {
        reveal_strlit("https://");
        reveal_strlit("http://");
    }
    let s1 = skip_leading(&v, 0, &https);
    let s2 = skip_leading(&v, s1, &http);
    let mut j = s2;
    while j < v.len() && v[j] != '/'
        invariant
            s2 <= j <= v.len(),
            before_slash(v@.skip(s2 as int)) == v@.subrange(s2 as int, j as int) + before_slash(
                v@.skip(j as int),
            ),
        decreases v.len() - j,
    {
        assert(v@.skip(j as int).drop_first() =~= v@.skip(j + 1));
        assert(v@.subrange(s2 as int, j + 1) =~= v@.subrange(s2 as int, j as int).push(v@[j as int]));
        j += 1;
    }
    assert(before_slash(v@.skip(s2 as int)) =~= before_slash(v@.skip(s2 as int)));
    proof {
        if j < v.len() {
            assert(v@.skip(j as int)[0] == '/');
        }
        assert(v@.subrange(s2 as int, j as int) + Seq::<char>::empty() =~= v@.subrange(
            s2 as int,
            j as int,
        ));
    }
    string_from_range(&v, s2, j)
}

impl WebsearchProvider {
    pub closed spec fn url_view(&self) -> Seq<char> {
        self.url@
    }

    pub closed spec fn prefixes_view(&self) -> Seq<PrefixView> {
        prefix_views(self.prefixes@)
    }

    pub fn new() -> (r: Self)
        ensures
            r.url_view() == DEFAULT_URL@,
            r.prefixes_view() == Seq::<PrefixView>::empty(),
    {
        let r = WebsearchProvider { url: copy_str(DEFAULT_URL), prefixes: Vec::new() };
        assert(prefix_views(r.prefixes@) =~= Seq::<PrefixView>::empty());
        r
    }

    /// Updates the default search URL template.
    pub fn set_url(&mut self, url: String)
        ensures
            final(self).url_view() == url@,
            final(self).prefixes_view() == old(self).prefixes_view(),
    {
        self.url = url;
    }

    /// Updates the prefix-to-engine mapping list.
    pub fn set_prefixes(&mut self, prefixes: Vec<SearchPrefix>)
        ensures
            final(self).prefixes_view() == prefix_views(prefixes@),
            final(self).url_view() == old(self).url_view(),
    {
        self.prefixes = prefixes;
    }

    /// Returns the currently configured default URL template.
    pub fn current_url(&self) -> (r: String)
        ensures
            r@ == self.url_view(),
    {
        self.url.clone()
    }

    /// Returns the currently configured prefix list.
    pub fn current_prefixes(&self) -> (r: Vec<SearchPrefix>)
        ensures
            prefix_views(r@) == self.prefixes_view(),
    {
        copy_prefixes(&self.prefixes)
    }

    /// The row for a query, exactly as `web_answer` describes it.
    pub fn answer(&self, q: &Query) -> (r: Vec<Item>)
        ensures
            item_views(r@) == web_answer(self.url_view(), self.prefixes_view(), q.trimmed@),
    {
        let ghost ps = self.prefixes_view();
        let ghost t = q.trimmed@;
        if q.is_empty() {
            let r: Vec<Item> = Vec::new();
            assert(item_views(r@) =~= Seq::<ItemView>::empty());
            return r;
        }
        let tv = chars_of(q.trimmed.as_str());
        let mut i: usize = 0;
        while i < self.prefixes.len()
            invariant
                i <= self.prefixes.len(),
                ps == prefix_views(self.prefixes@),
                t == q.trimmed@,
                tv@ == t,
                route_from(ps, t, 0) == route_from(ps, t, i as int),
            decreases self.prefixes.len() - i,
        {
            let entry = &self.prefixes[i];
            assert(ps[i as int] == entry@);
            let mut marker = chars_of(entry.prefix.as_str());
            marker.push(' ');
            if seq_starts_with(&tv, &marker) && tv.len() > marker.len() {
                assert(route_from(ps, t, i as int) == Some(i as int));
                let term = string_from_range(&tv, marker.len(), tv.len());
                assert(term@ =~= t.skip(entry.prefix@.len() + 1int));
                let mut id = concat("web:", entry.prefix.as_str());
                append_str(&mut id, ":");
                append_str(&mut id, term.as_str());
                let mut title = concat("Search ", entry.name.as_str());
                append_str(&mut title, " for: ");
                append_str(&mut title, term.as_str());
                let item = Item {
                    id,
                    provider: "web",
                    kind: DEFAULT_NAME,
                    title,
                    subtitle: Some(engine_display_url(entry.url.as_str())),
                    icon: None,
                    glyph: Some(copy_str(WEB_GLYPH)),
                    accessory: None,
                    score: 0,
                };
                let mut r: Vec<Item> = Vec::new();
                r.push(item);
                assert(item_views(r@) =~= web_answer(self.url_view(), ps, t));
                return r;
            }
            assert(!routes(ps[i as int], t));
            i += 1;
        }
        let item = Item {
            id: concat("web:default:", q.trimmed.as_str()),
            provider: "web",
            kind: DEFAULT_NAME,
            title: concat("Search web for: ", q.trimmed.as_str()),
            subtitle: Some(copy_str("Open in browser")),
            icon: None,
            glyph: Some(copy_str(WEB_GLYPH)),
            accessory: None,
            score: 0,
        };
        let mut r: Vec<Item> = Vec::new();
        r.push(item);
        assert(item_views(r@) =~= web_answer(self.url_view(), ps, t));
        r
    }

    fn engine_url(&self, engine: &str) -> (r: String)
        ensures
            r@ == match engine_index(self.prefixes_view(), engine@, 0) {
                Some(i) => self.prefixes_view()[i].url,
                None => self.url_view(),
            },
    {
        let ghost ps = self.prefixes_view();
        let mut i: usize = 0;
        while i < self.prefixes.len()
            invariant
                i <= self.prefixes.len(),
                ps == prefix_views(self.prefixes@),
                engine_index(ps, engine@, 0) == engine_index(ps, engine@, i as int),
            decreases self.prefixes.len() - i,
        {
            assert(ps[i as int] == self.prefixes@[i as int]@);
            if str_eq(self.prefixes[i].prefix.as_str(), engine) {
                return self.prefixes[i].url.clone();
            }
            i += 1;
        }
        self.url.clone()
    }

    /// The URL activating `id` opens.
    pub fn url_to_open(&self, id: &str) -> (r: String)
        ensures
            r@ == activation_url(self.url_view(), self.prefixes_view(), id@),
    {
        match split_item_id(id) {
            Some((engine, term)) => {
                if str_eq(engine.as_str(), "default") {
                    build_url(self.url.as_str(), term.as_str())
                } else {
                    let template = self.engine_url(engine.as_str());
                    build_url(template.as_str(), term.as_str())
                }
            },
            None => build_url(self.url.as_str(), id),
        }
    }
}

impl Provider for WebsearchProvider {
    open spec fn answers(&self, q: Seq<char>, rows: Seq<ItemView>) -> bool {
        rows == web_answer(self.url_view(), self.prefixes_view(), q)
    }

    open spec fn activates(&self, id: Seq<char>, action: Action, r: Result<Activation, String>) -> bool {
        r matches Ok(Activation::Launch { program, args }) && program@ == "xdg-open"@ && args@.len() == 1
            && args@[0]@ == activation_url(self.url_view(), self.prefixes_view(), id)
    }

    fn id(&self) -> (r: &'static str)
        ensures
            r@ == "web"@,
    {
        "web"
    }

    fn query(&self, q: &Query) -> (r: Vec<Item>)
        ensures
            item_views(r@) == web_answer(self.url_view(), self.prefixes_view(), q.trimmed@),
    {
        self.answer(q)
    }

    /// Opens the search in the browser: `xdg-open` with the URL the row's id
    /// stands for.
    fn activate(&self, id: &str, _action: Action) -> (r: Result<Activation, String>)
        ensures
            r matches Ok(Activation::Launch { program, args }) && program@ == "xdg-open"@ && args@.len() == 1
                && args@[0]@ == activation_url(self.url_view(), self.prefixes_view(), id@),
    {
        let url = self.url_to_open(id);
        let mut args: Vec<String> = Vec::new();
        args.push(url);
        Ok(Activation::Launch { program: copy_str("xdg-open"), args })
    }

    fn reindex(&self) {
    }
}

} // verus!
