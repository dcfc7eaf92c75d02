//! User settings. Every field has a default, and `sanitise` clamps every
//! setting into its legal range, so a hand-edited file and a socket message get
//! the same rules. Reading and writing the JSON file happens in the program
//! around the library.

use crate::limits::{MAX_HOTKEY_CHARS, MAX_PATH_SETTING_CHARS, MAX_PROVIDER_RESULTS};
use crate::text::{ascii_lower_seq, lowercase_ascii, chars_of, concat, has_infix, has_prefix, is_alnum, is_ascii_alphanumeric, seq_contains, seq_starts_with, str_eq, string_from_chars, trim, trim_bounds, trim_chars, trim_str};
use vstd::prelude::*;

verus! {

pub const DEFAULT_HOTKEY: &'static str = "CTRL + SPACE";

pub const DEFAULT_SEARCH_URL: &'static str = "https://duckduckgo.com/?q={query}";

/// Most prefix mappings kept after sanitising.
pub const MAX_PREFIXES: usize = 10;

/// Longest prefix a mapping may use.
pub const MAX_PREFIX_LEN: usize = 3;

/// Longest engine name a mapping may show.
pub const MAX_NAME_LEN: usize = 30;

/// Longest search URL template accepted.
pub const MAX_URL_CHARS: usize = 512;

/// A prefix-to-engine mapping as characters.
pub struct PrefixView {
    pub prefix: Seq<char>,
    pub name: Seq<char>,
    pub url: Seq<char>,
}

/// A single prefix-to-engine mapping. Typing `<prefix> <term>` routes the
/// search to the engine described by `url`.
#[derive(Debug)]
pub struct SearchPrefix {
    /// 1–3 lowercase alphanumeric characters, e.g. "x", "g".
    pub prefix: String,
    /// Human-readable engine name shown in the result row, e.g. "X", "Google".
    pub name: String,
    /// URL template; must contain the literal `{query}` placeholder.
    pub url: String,
}

impl View for SearchPrefix {
    type V = PrefixView;

    open spec fn view(&self) -> PrefixView {
        PrefixView { prefix: self.prefix@, name: self.name@, url: self.url@ }
    }
}

impl DeepView for SearchPrefix {
    type V = PrefixView;

    open spec fn deep_view(&self) -> PrefixView {
        self@
    }
}

impl SearchPrefix {
    /// A field-for-field copy.
    pub fn duplicate(&self) -> (r: SearchPrefix)
        ensures
            r@ == self@,
    {
        SearchPrefix { prefix: self.prefix.clone(), name: self.name.clone(), url: self.url.clone() }
    }
}

impl Clone for SearchPrefix {
    fn clone(&self) -> (r: SearchPrefix)
        ensures
            r@ == self@,
    {
        self.duplicate()
    }
}

impl Default for SearchPrefix {
    fn default() -> (r: Self)
        ensures
            r@ == (PrefixView { prefix: Seq::empty(), name: Seq::empty(), url: DEFAULT_SEARCH_URL@ }),
    {
        SearchPrefix {
            prefix: String::new(),
            name: String::new(),
            url: copy(DEFAULT_SEARCH_URL),
        }
    }
}

fn copy(s: &str) -> (r: String)
    ensures
        r@ == s@,
{
    crate::text::copy_str(s)
}

/// The mappings a fresh configuration starts with.
pub open spec fn default_prefix_views() -> Seq<PrefixView> {
    seq![
        PrefixView { prefix: "x"@, name: "X"@, url: "https://x.com/search?q={query}"@ },
        PrefixView { prefix: "g"@, name: "Google"@, url: "https://www.google.com/search?q={query}"@ },
    ]
}

pub open spec fn prefix_views(v: Seq<SearchPrefix>) -> Seq<PrefixView> {
    Seq::new(v.len(), |i: int| v[i]@)
}

pub fn default_prefixes() -> (r: Vec<SearchPrefix>)
    ensures
        prefix_views(r@) == default_prefix_views(),
{
    let mut v: Vec<SearchPrefix> = Vec::new();
    v.push(
        SearchPrefix {
            prefix: copy("x"),
            name: copy("X"),
            url: copy("https://x.com/search?q={query}"),
        },
    );
    v.push(
        SearchPrefix {
            prefix: copy("g"),
            name: copy("Google"),
            url: copy("https://www.google.com/search?q={query}"),
        },
    );
    assert(prefix_views(v@) =~= default_prefix_views());
    v
}

pub fn copy_prefixes(v: &Vec<SearchPrefix>) -> (r: Vec<SearchPrefix>)
    ensures
        prefix_views(r@) == prefix_views(v@),
{
    let mut r: Vec<SearchPrefix> = Vec::new();
    let mut i: usize = 0;
    while i < v.len()
        invariant
            i <= v.len(),
            prefix_views(r@) == prefix_views(v@).take(i as int),
        decreases v.len() - i,
    {
        let ghost old_r = r@;
        r.push(v[i].duplicate());
        assert(prefix_views(r@) =~= prefix_views(old_r).push(v@[i as int]@));
        assert(prefix_views(v@).take(i + 1) =~= prefix_views(v@).take(i as int).push(
            v@[i as int]@,
        ));
        i += 1;
    }
    assert(prefix_views(v@).take(i as int) =~= prefix_views(v@));
    r
}

#[derive(Debug)]
pub struct Providers {
    pub apps: bool,
    pub calculator: bool,
    pub dates: bool,
    pub notes: bool,
    pub plugins: bool,
    pub omarchy: bool,
    pub websearch: bool,
    /// Cap per provider, applied before results are merged, so one chatty
    /// provider can't crowd out the others.
    pub apps_limit: usize,
    pub notes_limit: usize,
    pub plugins_limit: usize,
    pub omarchy_limit: usize,
    pub websearch_limit: usize,
    /// Where markdown notes live. Empty means the default, `~/Notes`.
    pub notes_directory: String,
    /// Default search engine URL template (used when no prefix matches).
    pub websearch_url: String,
    /// Prefix-to-engine mappings. Typing `<prefix> <term>` routes to that engine.
    pub websearch_prefixes: Vec<SearchPrefix>,
}

impl Default for Providers {
    fn default() -> (r: Self)
        ensures
            r.apps && r.calculator && r.dates && r.notes && r.plugins && r.omarchy && r.websearch,
            r.apps_limit == 20 && r.notes_limit == 8 && r.plugins_limit == 10,
            r.omarchy_limit == 8 && r.websearch_limit == 1,
            r.notes_directory@ == Seq::<char>::empty(),
            r.websearch_url@ == DEFAULT_SEARCH_URL@,
            prefix_views(r.websearch_prefixes@) == default_prefix_views(),
    {
        Providers {
            apps: true,
            calculator: true,
            dates: true,
            notes: true,
            plugins: true,
            omarchy: true,
            websearch: true,
            apps_limit: 20,
            notes_limit: 8,
            plugins_limit: 10,
            omarchy_limit: 8,
            websearch_limit: 1,
            notes_directory: String::new(),
            websearch_url: copy(DEFAULT_SEARCH_URL),
            websearch_prefixes: default_prefixes(),
        }
    }
}

impl Clone for Providers {
    fn clone(&self) -> (r: Self)
        ensures
            r.apps == self.apps && r.calculator == self.calculator && r.dates == self.dates,
            r.notes == self.notes && r.plugins == self.plugins && r.omarchy == self.omarchy,
            r.websearch == self.websearch,
            r.apps_limit == self.apps_limit && r.notes_limit == self.notes_limit,
            r.plugins_limit == self.plugins_limit && r.omarchy_limit == self.omarchy_limit,
            r.websearch_limit == self.websearch_limit,
            r.notes_directory@ == self.notes_directory@,
            r.websearch_url@ == self.websearch_url@,
            prefix_views(r.websearch_prefixes@) == prefix_views(self.websearch_prefixes@),
    {
        Providers {
            apps: self.apps,
            calculator: self.calculator,
            dates: self.dates,
            notes: self.notes,
            plugins: self.plugins,
            omarchy: self.omarchy,
            websearch: self.websearch,
            apps_limit: self.apps_limit,
            notes_limit: self.notes_limit,
            plugins_limit: self.plugins_limit,
            omarchy_limit: self.omarchy_limit,
            websearch_limit: self.websearch_limit,
            notes_directory: self.notes_directory.clone(),
            websearch_url: self.websearch_url.clone(),
            websearch_prefixes: copy_prefixes(&self.websearch_prefixes),
        }
    }
}

#[derive(Debug, Clone, Copy)]
pub struct Appearance {
    pub width: u32,
    pub rows_visible: u32,
    pub corner_radius: u32,
    /// When false the overlay uses its own palette instead of the Omarchy theme.
    pub follow_theme: bool,
    /// Tighter rows and paddings; the default is the comfortable layout.
    pub compact: bool,
    /// Percentage applied to every font size the theme provides.
    pub font_scale: u32,
}

impl Default for Appearance {
    fn default() -> (r: Self)
        ensures
            r.width == 720 && r.rows_visible == 8 && r.corner_radius == 16,
            r.follow_theme && !r.compact && r.font_scale == 100,
    {
        Appearance {
            width: 720,
            rows_visible: 8,
            corner_radius: 16,
            follow_theme: true,
            compact: false,
            font_scale: 100,
        }
    }
}

#[derive(Debug, Clone, Copy)]
pub struct Behaviour {
    pub hide_on_blur: bool,
    /// Escape clears a non-empty query before it dismisses the launcher.
    pub esc_clears_first: bool,
    pub show_recent_when_empty: bool,
    /// Cleared once the first-run tour has been shown, so it appears exactly once.
    pub tour_seen: bool,
}

impl Default for Behaviour {
    fn default() -> (r: Self)
        ensures
            r.hide_on_blur && r.esc_clears_first && r.show_recent_when_empty && !r.tour_seen,
    {
        Behaviour {
            hide_on_blur: true,
            esc_clears_first: true,
            show_recent_when_empty: true,
            tour_seen: false,
        }
    }
}

#[derive(Debug)]
pub struct Config {
    pub hotkey: String,
    pub providers: Providers,
    pub appearance: Appearance,
    pub behaviour: Behaviour,
}

impl Default for Config {
    fn default() -> (r: Self)
        ensures
            r.hotkey@ == DEFAULT_HOTKEY@,
            r.providers.apps && r.providers.calculator && r.providers.dates,
            r.providers.notes && r.providers.plugins && r.providers.omarchy,
            r.providers.websearch,
            r.providers.apps_limit == 20 && r.providers.notes_limit == 8,
            r.providers.plugins_limit == 10 && r.providers.omarchy_limit == 8,
            r.providers.websearch_limit == 1,
            r.providers.notes_directory@ == Seq::<char>::empty(),
            r.providers.websearch_url@ == DEFAULT_SEARCH_URL@,
            prefix_views(r.providers.websearch_prefixes@) == default_prefix_views(),
            r.appearance.width == 720 && r.appearance.rows_visible == 8,
            r.appearance.corner_radius == 16 && r.appearance.follow_theme,
            !r.appearance.compact && r.appearance.font_scale == 100,
            r.behaviour.hide_on_blur && r.behaviour.esc_clears_first,
            r.behaviour.show_recent_when_empty && !r.behaviour.tour_seen,
    {
        Config {
            hotkey: copy(DEFAULT_HOTKEY),
            providers: Providers::default(),
            appearance: Appearance::default(),
            behaviour: Behaviour::default(),
        }
    }
}

impl Clone for Config {
    fn clone(&self) -> (r: Self)
        ensures
            r.hotkey@ == self.hotkey@,
            r.appearance == self.appearance,
            r.behaviour == self.behaviour,
            r.providers.apps == self.providers.apps,
            r.providers.calculator == self.providers.calculator,
            r.providers.dates == self.providers.dates,
            r.providers.notes == self.providers.notes,
            r.providers.plugins == self.providers.plugins,
            r.providers.omarchy == self.providers.omarchy,
            r.providers.websearch == self.providers.websearch,
            r.providers.apps_limit == self.providers.apps_limit,
            r.providers.notes_limit == self.providers.notes_limit,
            r.providers.plugins_limit == self.providers.plugins_limit,
            r.providers.omarchy_limit == self.providers.omarchy_limit,
            r.providers.websearch_limit == self.providers.websearch_limit,
            r.providers.notes_directory@ == self.providers.notes_directory@,
            r.providers.websearch_url@ == self.providers.websearch_url@,
            prefix_views(r.providers.websearch_prefixes@) == prefix_views(
                self.providers.websearch_prefixes@,
            ),
    {
        Config {
            hotkey: self.hotkey.clone(),
            providers: self.providers.clone(),
            appearance: self.appearance,
            behaviour: self.behaviour,
        }
    }
}

pub open spec fn clamp_usize(v: usize, lo: usize, hi: usize) -> usize {
    if v < lo {
        lo
    } else if v > hi {
        hi
    } else {
        v
    }
}

pub open spec fn clamp_u32(v: u32, lo: u32, hi: u32) -> u32 {
    if v < lo {
        lo
    } else if v > hi {
        hi
    } else {
        v
    }
}

fn clamp_limit(v: usize) -> (r: usize)
    ensures
        r == clamp_usize(v, 1, MAX_PROVIDER_RESULTS),
{
    if v < 1 {
        1
    } else if v > MAX_PROVIDER_RESULTS {
        MAX_PROVIDER_RESULTS
    } else {
        v
    }
}

fn clamp_range(v: u32, lo: u32, hi: u32) -> (r: u32)
    requires
        lo <= hi,
    ensures
        r == clamp_u32(v, lo, hi),
{
    if v < lo {
        lo
    } else if v > hi {
        hi
    } else {
        v
    }
}

/// A valid search URL must be http(s), contain the `{query}` placeholder, and
/// be a reasonable length (all judged on the trimmed text).
pub open spec fn valid_url(url: Seq<char>) -> bool {
    let t = trim(url);
    (has_prefix(t, "http://"@) || has_prefix(t, "https://"@)) && has_infix(t, "{query}"@) && t.len()
        <= MAX_URL_CHARS
}

pub fn valid_search_url(url: &str) -> (b: bool)
    ensures
        b == valid_url(url@),
{
    let t = trim_str(url);
    let v = chars_of(t.as_str());
    let http = chars_of("http://");
    let https = chars_of("https://");
    let placeholder = chars_of("{query}");
    (seq_starts_with(&v, &http) || seq_starts_with(&v, &https)) && seq_contains(&v, &placeholder)
        && v.len() <= MAX_URL_CHARS
}

/// The hotkey setting is kept when it has visible content and at most
/// `MAX_HOTKEY_CHARS` characters.
pub open spec fn hotkey_acceptable(h: Seq<char>) -> bool {
    trim(h).len() > 0 && h.len() <= MAX_HOTKEY_CHARS
}


/// The key a mapping is known by: its prefix, trimmed and lowercased.
pub open spec fn prefix_key(p: PrefixView) -> Seq<char> {
    ascii_lower_seq(trim(p.prefix))
}

pub open spec fn prefix_valid(p: PrefixView) -> bool {
    let key = prefix_key(p);
    &&& key.len() > 0
    &&& key.len() <= MAX_PREFIX_LEN
    &&& forall|i: int| 0 <= i < key.len() ==> is_alnum(#[trigger] key[i])
    &&& trim(p.name).len() > 0
    &&& p.name.len() <= MAX_NAME_LEN
    &&& valid_url(p.url)
}

/// A kept mapping, in its normalised form.
pub open spec fn normalised(p: PrefixView) -> PrefixView {
    PrefixView { prefix: prefix_key(p), name: trim(p.name), url: trim(p.url) }
}

/// Keeps the valid mappings whose key was not taken by an earlier one.
pub open spec fn kept_prefixes(ps: Seq<PrefixView>, seen: Seq<Seq<char>>) -> Seq<PrefixView>
    decreases ps.len(),
{
    if ps.len() == 0 {
        Seq::empty()
    } else if prefix_valid(ps[0]) && !seen.contains(prefix_key(ps[0])) {
        seq![normalised(ps[0])] + kept_prefixes(ps.drop_first(), seen.push(prefix_key(ps[0])))
    } else {
        kept_prefixes(ps.drop_first(), seen)
    }
}

/// What `sanitise_prefixes` leaves: at most the first `MAX_PREFIXES` mappings
/// are considered, invalid and duplicate ones are dropped, and an empty result
/// falls back to the defaults.
pub open spec fn sanitised_prefixes(ps: Seq<PrefixView>) -> Seq<PrefixView> {
    let considered = if ps.len() > MAX_PREFIXES {
        ps.take(MAX_PREFIXES as int)
    } else {
        ps
    };
    let kept = kept_prefixes(considered, Seq::empty());
    if kept.len() == 0 {
        default_prefix_views()
    } else {
        kept
    }
}


fn all_alphanumeric(v: &Vec<char>) -> (b: bool)
    ensures
        b == forall|i: int| 0 <= i < v@.len() ==> is_alnum(#[trigger] v@[i]),
{
    let mut i: usize = 0;
    while i < v.len()
        invariant
            i <= v.len(),
            forall|k: int| 0 <= k < i ==> is_alnum(#[trigger] v@[k]),
        decreases v.len() - i,
    {
        if !is_ascii_alphanumeric(v[i]) {
            return false;
        }
        i += 1;
    }
    true
}

fn seen_before(seen: &Vec<Vec<char>>, key: &Vec<char>) -> (b: bool)
    ensures
        b == crate::text::views(seen@).contains(key@),
{
    let mut i: usize = 0;
    while i < seen.len()
        invariant
            i <= seen.len(),
            forall|k: int| 0 <= k < i ==> seen@[k]@ != key@,
        decreases seen.len() - i,
    {
        if seq_starts_with(&seen[i], key) && seen[i].len() == key.len() {
            assert(seen@[i as int]@.subrange(0, key@.len() as int) =~= seen@[i as int]@);
            assert(crate::text::views(seen@)[i as int] == key@);
            return true;
        }
        proof {
            if seen@[i as int]@ == key@ {
                assert(seen@[i as int]@.subrange(0, key@.len() as int) =~= seen@[i as int]@);
            }
        }
        i += 1;
    }
    proof {
        if crate::text::views(seen@).contains(key@) {
            let k = choose|k: int| 0 <= k < seen@.len() && crate::text::views(seen@)[k] == key@;
            assert(seen@[k]@ == key@);
        }
    }
    false
}

/// Validates and clamps the prefix list in place.
pub fn sanitise_prefixes(prefixes: &mut Vec<SearchPrefix>)
    ensures
        prefix_views(final(prefixes)@) == sanitised_prefixes(prefix_views(old(prefixes)@)),
{
    let ghost all = prefix_views(prefixes@);
    let n = if prefixes.len() > MAX_PREFIXES {
        MAX_PREFIXES
    } else {
        prefixes.len()
    };
    let ghost considered = all.take(n as int);
    assert(considered =~= (if all.len() > MAX_PREFIXES {
        all.take(MAX_PREFIXES as int)
    } else {
        all
    }));
    let mut kept: Vec<SearchPrefix> = Vec::new();
    let mut seen: Vec<Vec<char>> = Vec::new();
    let mut i: usize = 0;
    assert(considered.skip(0) =~= considered);
    assert(Seq::<PrefixView>::empty() + kept_prefixes(considered, Seq::empty()) =~= kept_prefixes(
        considered,
        Seq::empty(),
    ));
    assert(crate::text::views(seen@) =~= Seq::<Seq<char>>::empty());
    while i < n
        invariant
            i <= n <= prefixes.len(),
            all == prefix_views(prefixes@),
            considered == all.take(n as int),
            prefix_views(kept@) + kept_prefixes(considered.skip(i as int), crate::text::views(seen@))
                == kept_prefixes(considered, Seq::empty()),
        decreases n - i,
    {
        let p = &prefixes[i];
        let ghost pv = p@;
        assert(considered.skip(i as int)[0] == pv);
        assert(considered.skip(i as int).drop_first() =~= considered.skip(i + 1));
        let raw = chars_of(p.prefix.as_str());
        let trimmed = trim_chars(&raw);
        let key = lowercase_ascii(&trimmed);
        let valid_prefix = key.len() > 0 && key.len() <= MAX_PREFIX_LEN && all_alphanumeric(&key);
        let name_chars = chars_of(p.name.as_str());
        let trimmed_name = trim_chars(&name_chars);
        let valid_name = trimmed_name.len() > 0 && name_chars.len() <= MAX_NAME_LEN;
        let valid = valid_prefix && valid_name && valid_search_url(p.url.as_str());
        assert(valid == prefix_valid(pv));
        if valid && !seen_before(&seen, &key) {
            let entry = SearchPrefix {
                prefix: string_from_chars(&key),
                name: string_from_chars(&trimmed_name),
                url: trim_str(p.url.as_str()),
            };
            assert(entry@ == normalised(pv));
            let ghost old_kept = kept@;
            let ghost old_seen = seen@;
            kept.push(entry);
            seen.push(key);
            assert(prefix_views(kept@) =~= prefix_views(old_kept).push(normalised(pv)));
            assert(crate::text::views(seen@) =~= crate::text::views(old_seen).push(prefix_key(pv)));
            assert(prefix_views(old_kept).push(normalised(pv)) + kept_prefixes(
                considered.skip(i + 1),
                crate::text::views(seen@),
            ) =~= prefix_views(old_kept) + (seq![normalised(pv)] + kept_prefixes(
                considered.skip(i + 1),
                crate::text::views(old_seen).push(prefix_key(pv)),
            )));
        }
        i += 1;
    }
    assert(considered.skip(n as int) =~= Seq::<PrefixView>::empty());
    assert(prefix_views(kept@) + Seq::<PrefixView>::empty() =~= prefix_views(kept@));
    if kept.len() == 0 {
        *prefixes = default_prefixes();
    } else {
        *prefixes = kept;
    }
}

/// The relation `sanitise` establishes between a provider section before and after.
pub open spec fn providers_sanitised(old: &Providers, new: &Providers) -> bool {
    &&& new.apps_limit == clamp_usize(old.apps_limit, 1, MAX_PROVIDER_RESULTS)
    &&& new.notes_limit == clamp_usize(old.notes_limit, 1, MAX_PROVIDER_RESULTS)
    &&& new.plugins_limit == clamp_usize(old.plugins_limit, 1, MAX_PROVIDER_RESULTS)
    &&& new.omarchy_limit == clamp_usize(old.omarchy_limit, 1, MAX_PROVIDER_RESULTS)
    &&& new.websearch_limit == clamp_usize(old.websearch_limit, 1, MAX_PROVIDER_RESULTS)
    &&& new.notes_directory@ == (if old.notes_directory@.len() > MAX_PATH_SETTING_CHARS {
        Seq::<char>::empty()
    } else {
        old.notes_directory@
    })
    &&& new.websearch_url@ == (if valid_url(old.websearch_url@) {
        old.websearch_url@
    } else {
        DEFAULT_SEARCH_URL@
    })
    &&& prefix_views(new.websearch_prefixes@) == sanitised_prefixes(
        prefix_views(old.websearch_prefixes@),
    )
    &&& new.apps == old.apps && new.calculator == old.calculator && new.dates == old.dates
    &&& new.notes == old.notes && new.plugins == old.plugins && new.omarchy == old.omarchy
    &&& new.websearch == old.websearch
}

/// The relation `sanitise` establishes between an appearance section before and after.
pub open spec fn appearance_sanitised(old: Appearance, new: Appearance) -> bool {
    &&& new.width == clamp_u32(old.width, 320, 1600)
    &&& new.rows_visible == clamp_u32(old.rows_visible, 3, 20)
    &&& new.corner_radius == clamp_u32(old.corner_radius, 0, 48)
    &&& new.font_scale == clamp_u32(old.font_scale, 70, 160)
    &&& new.follow_theme == old.follow_theme
    &&& new.compact == old.compact
}

pub open spec fn sanitised_hotkey(h: Seq<char>) -> Seq<char> {
    if hotkey_acceptable(h) {
        h
    } else {
        DEFAULT_HOTKEY@
    }
}

fn sanitise_hotkey(hotkey: &str) -> (r: String)
    ensures
        r@ == sanitised_hotkey(hotkey@),
{
    let hotkey_chars = chars_of(hotkey);
    let (a, b) = trim_bounds(&hotkey_chars);
    if a == b || hotkey_chars.len() > MAX_HOTKEY_CHARS {
        copy(DEFAULT_HOTKEY)
    } else {
        copy(hotkey)
    }
}

fn sanitise_providers(p: &mut Providers)
    ensures
        providers_sanitised(old(p), final(p)),
{
    p.apps_limit = clamp_limit(p.apps_limit);
    p.notes_limit = clamp_limit(p.notes_limit);
    p.plugins_limit = clamp_limit(p.plugins_limit);
    p.omarchy_limit = clamp_limit(p.omarchy_limit);
    p.websearch_limit = clamp_limit(p.websearch_limit);
    let dir = chars_of(p.notes_directory.as_str());
    if dir.len() > MAX_PATH_SETTING_CHARS {
        p.notes_directory = String::new();
    }
    if !valid_search_url(p.websearch_url.as_str()) {
        p.websearch_url = copy(DEFAULT_SEARCH_URL);
    }
    sanitise_prefixes(&mut p.websearch_prefixes);
}

fn sanitise_appearance(a: Appearance) -> (r: Appearance)
    ensures
        appearance_sanitised(a, r),
{
    Appearance {
        width: clamp_range(a.width, 320, 1600),
        rows_visible: clamp_range(a.rows_visible, 3, 20),
        corner_radius: clamp_range(a.corner_radius, 0, 48),
        font_scale: clamp_range(a.font_scale, 70, 160),
        ..a
    }
}

impl Config {
    /// Clamps every setting into its legal range. Runs on load and on every
    /// config received over IPC, so no field is ever trusted merely because it
    /// deserialised: a hand-edited file and a socket message get the same rules.
    pub fn sanitise(&mut self)
        ensures
            final(self).hotkey@ == sanitised_hotkey(old(self).hotkey@),
            providers_sanitised(&old(self).providers, &final(self).providers),
            appearance_sanitised(old(self).appearance, final(self).appearance),
            final(self).behaviour == old(self).behaviour,
    {
        self.hotkey = sanitise_hotkey(self.hotkey.as_str());
        sanitise_providers(&mut self.providers);
        self.appearance = sanitise_appearance(self.appearance);
    }

    pub fn provider_enabled(&self, id: &str) -> (b: bool)
        ensures
            b == provider_enabled_spec(self, id@),
    {
        if str_eq(id, "apps") {
            self.providers.apps
        } else if str_eq(id, "calc") {
            self.providers.calculator
        } else if str_eq(id, "date") {
            self.providers.dates
        } else if str_eq(id, "note") {
            self.providers.notes
        } else if str_eq(id, "plug") {
            self.providers.plugins
        } else if str_eq(id, "oma") {
            self.providers.omarchy
        } else if str_eq(id, "web") {
            self.providers.websearch
        } else {
            true
        }
    }

    pub fn provider_limit(&self, id: &str) -> (n: usize)
        ensures
            n == provider_limit_spec(self, id@),
            n >= 1,
    {
        if str_eq(id, "apps") {
            max1(self.providers.apps_limit)
        } else if str_eq(id, "note") {
            max1(self.providers.notes_limit)
        } else if str_eq(id, "plug") {
            max1(self.providers.plugins_limit)
        } else if str_eq(id, "oma") {
            max1(self.providers.omarchy_limit)
        } else if str_eq(id, "web") {
            max1(self.providers.websearch_limit)
        } else {
            // Calculator and dates emit a single pinned row.
            4
        }
    }
}

fn max1(v: usize) -> (r: usize)
    ensures
        r == if v < 1 {
            1
        } else {
            v
        },
{
    if v < 1 {
        1
    } else {
        v
    }
}

pub open spec fn provider_enabled_spec(c: &Config, id: Seq<char>) -> bool {
    if id == "apps"@ {
        c.providers.apps
    } else if id == "calc"@ {
        c.providers.calculator
    } else if id == "date"@ {
        c.providers.dates
    } else if id == "note"@ {
        c.providers.notes
    } else if id == "plug"@ {
        c.providers.plugins
    } else if id == "oma"@ {
        c.providers.omarchy
    } else if id == "web"@ {
        c.providers.websearch
    } else {
        true
    }
}

pub open spec fn at_least_one(v: usize) -> usize {
    if v < 1 {
        1
    } else {
        v
    }
}

pub open spec fn provider_limit_spec(c: &Config, id: Seq<char>) -> usize {
    if id == "apps"@ {
        at_least_one(c.providers.apps_limit)
    } else if id == "note"@ {
        at_least_one(c.providers.notes_limit)
    } else if id == "plug"@ {
        at_least_one(c.providers.plugins_limit)
    } else if id == "oma"@ {
        at_least_one(c.providers.omarchy_limit)
    } else if id == "web"@ {
        at_least_one(c.providers.websearch_limit)
    } else {
        4
    }
}

/// The user's home directory, as `dirs::home_dir` finds it (from `$HOME` or
/// the password database), made a string. It depends on the environment, so
/// nothing is stated of it.
#[verifier::external_body]
pub(crate) fn home_dir() -> Option<String> {
    dirs::home_dir().map(|h| h.to_string_lossy().into_owned())
}

/// `Path::join` on Unix: an absolute `rel` replaces `base`; otherwise `rel`
/// is appended after a `/` unless `base` is empty or already ends in one.
pub open spec fn join_path(base: Seq<char>, rel: Seq<char>) -> Seq<char> {
    if rel.len() > 0 && rel[0] == '/' {
        rel
    } else if base.len() == 0 || base.last() == '/' {
        base + rel
    } else {
        base + "/"@ + rel
    }
}

pub fn join_paths(base: &str, rel: &str) -> (r: String)
    ensures
        r@ == join_path(base@, rel@),
{
    let b = chars_of(base);
    let rv = chars_of(rel);
    if rv.len() > 0 && rv[0] == '/' {
        return copy(rel);
    }
    if b.len() == 0 || b[b.len() - 1] == '/' {
        concat(base, rel)
    } else {
        let with_slash = concat(base, "/");
        concat(with_slash.as_str(), rel)
    }
}

/// A leading `~/` stands for the home directory, when there is one.
pub open spec fn expand_home(path: Seq<char>, home: Option<Seq<char>>) -> Seq<char> {
    if has_prefix(path, "~/"@) {
        match home {
            Some(h) => join_path(h, path.skip(2)),
            None => path,
        }
    } else {
        path
    }
}

/// Expands a leading `~` so the setting can be typed the way people write
/// paths, given the home directory.
pub fn shellexpand_home(path: &str, home: Option<String>) -> (r: String)
    ensures
        r@ == expand_home(path@, crate::text::opt_view(home)),
{
    let v = chars_of(path);
    let tilde = chars_of("~/");
    proof {
        reveal_strlit("~/");
    }
    if seq_starts_with(&v, &tilde) {
        match home {
            Some(h) => {
                let rest = string_from_chars(&crate::text::slice_vec(&v, 2, v.len()));
                assert(rest@ =~= path@.skip(2));
                join_paths(h.as_str(), rest.as_str())
            },
            None => copy(path),
        }
    } else {
        copy(path)
    }
}

/// Where notes live when none is configured: `Notes` in the home
/// directory, or in the working directory when there is no home.
pub open spec fn default_notes_directory(home: Option<Seq<char>>) -> Seq<char> {
    match home {
        Some(h) => join_path(h, "Notes"@),
        None => join_path("."@, "Notes"@),
    }
}

pub open spec fn notes_directory_spec(c: &Config, home: Option<Seq<char>>) -> Seq<char> {
    let configured = trim(c.providers.notes_directory@);
    if configured.len() == 0 {
        default_notes_directory(home)
    } else {
        expand_home(configured, home)
    }
}

pub fn default_notes_directory_in(home: Option<String>) -> (r: String)
    ensures
        r@ == default_notes_directory(crate::text::opt_view(home)),
{
    match home {
        Some(h) => join_paths(h.as_str(), "Notes"),
        None => join_paths(".", "Notes"),
    }
}

impl Config {
    /// The notes directory for the home directory `home`: the configured
    /// one with `~/` expanded, or `Notes` in the home directory.
    pub fn notes_directory_in(&self, home: Option<String>) -> (r: String)
        ensures
            r@ == notes_directory_spec(self, crate::text::opt_view(home)),
    {
        let configured = trim_str(self.providers.notes_directory.as_str());
        if configured.as_str().is_empty() {
            default_notes_directory_in(home)
        } else {
            shellexpand_home(configured.as_str(), home)
        }
    }

    /// The notes directory, for this process's home directory.
    pub fn notes_directory(&self) -> (r: String)
        ensures
            exists|home: Option<Seq<char>>| r@ == notes_directory_spec(self, home),
    {
        let home = home_dir();
        let ghost h = crate::text::opt_view(home);
        let r = self.notes_directory_in(home);
        assert(r@ == notes_directory_spec(self, h));
        r
    }
}

/// The user's configuration directory, as `dirs::config_dir` finds it
/// (from `$XDG_CONFIG_HOME` or `~/.config`), made a string. It depends on
/// the environment, so nothing is stated of it.
#[verifier::external_body]
pub(crate) fn config_dir() -> Option<String> {
    dirs::config_dir().map(|d| d.to_string_lossy().into_owned())
}

/// `rel` inside the configuration directory `base` (`/tmp` without one).
pub open spec fn in_config_dir(base: Option<Seq<char>>, rel: Seq<char>) -> Seq<char> {
    match base {
        Some(b) => join_path(b, rel),
        None => join_path("/tmp"@, rel),
    }
}

pub fn in_config_dir_of(base: Option<String>, rel: &str) -> (r: String)
    ensures
        r@ == in_config_dir(crate::text::opt_view(base), rel@),
{
    match base {
        Some(b) => join_paths(b.as_str(), rel),
        None => join_paths("/tmp", rel),
    }
}

/// Where the settings file lives.
pub fn config_path() -> (r: String)
    ensures
        exists|base: Option<Seq<char>>| r@ == in_config_dir(base, "omarchycast/config.json"@),
{
    let base = config_dir();
    let ghost b = crate::text::opt_view(base);
    let r = in_config_dir_of(base, "omarchycast/config.json");
    assert(r@ == in_config_dir(b, "omarchycast/config.json"@));
    r
}

/// A mapping as `sanitise` leaves it: valid and already normalised.
pub open spec fn normal_prefix(p: PrefixView) -> bool {
    prefix_valid(p) && normalised(p) == p
}

/// Valid, normalised mappings whose keys are all different and none of them
/// in `seen`.
pub open spec fn normal_prefixes(ps: Seq<PrefixView>, seen: Seq<Seq<char>>) -> bool {
    &&& forall|i: int| 0 <= i < ps.len() ==> normal_prefix(#[trigger] ps[i])
    &&& forall|i: int| 0 <= i < ps.len() ==> !seen.contains(prefix_key(#[trigger] ps[i]))
    &&& forall|i: int, j: int| 0 <= i < j < ps.len() ==> prefix_key(#[trigger] ps[i]) != prefix_key(#[trigger] ps[j])
}

proof fn lemma_normalised_is_normal(p: PrefixView)
    requires
        prefix_valid(p),
    ensures
        normal_prefix(normalised(p)),
        prefix_key(normalised(p)) == prefix_key(p),
{
    let key = prefix_key(p);
    assert forall|i: int| 0 <= i < key.len() implies !crate::text::is_ws(#[trigger] key[i]) by {
        assert(is_alnum(key[i]));
    }
    crate::text::lemma_trim_visible(key);
    crate::text::lemma_ascii_lower_idempotent(trim(p.prefix));
    crate::text::lemma_trim_idempotent(p.name);
    crate::text::lemma_trim_idempotent(p.url);
    assert(prefix_key(normalised(p)) == key);
}

proof fn lemma_kept_shape(ps: Seq<PrefixView>, seen: Seq<Seq<char>>)
    ensures
        normal_prefixes(kept_prefixes(ps, seen), seen),
        kept_prefixes(ps, seen).len() <= ps.len(),
    decreases ps.len(),
{
    if ps.len() > 0 {
        let rest = ps.drop_first();
        if prefix_valid(ps[0]) && !seen.contains(prefix_key(ps[0])) {
            let key0 = prefix_key(ps[0]);
            let seen2 = seen.push(key0);
            lemma_kept_shape(rest, seen2);
            lemma_normalised_is_normal(ps[0]);
            let k = kept_prefixes(ps, seen);
            let k2 = kept_prefixes(rest, seen2);
            assert(k == seq![normalised(ps[0])] + k2);
            assert forall|i: int| 0 <= i < k.len() implies normal_prefix(#[trigger] k[i]) by {
                if i > 0 {
                    assert(k[i] == k2[i - 1]);
                }
            }
            assert forall|i: int| 0 <= i < k.len() implies !seen.contains(prefix_key(#[trigger] k[i])) by {
                if i > 0 {
                    assert(k[i] == k2[i - 1]);
                    assert(!seen2.contains(prefix_key(k2[i - 1])));
                    if seen.contains(prefix_key(k[i])) {
                        let w = choose|w: int| 0 <= w < seen.len() && seen[w] == prefix_key(k[i]);
                        assert(seen2[w] == seen[w]);
                    }
                }
            }
            assert forall|i: int, j: int| 0 <= i < j < k.len() implies prefix_key(#[trigger] k[i]) != prefix_key(
                #[trigger] k[j],
            ) by {
                assert(k[j] == k2[j - 1]);
                if i == 0 {
                    assert(!seen2.contains(prefix_key(k2[j - 1])));
                    assert(seen2[seen.len() as int] == key0);
                } else {
                    assert(k[i] == k2[i - 1]);
                }
            }
        } else {
            lemma_kept_shape(rest, seen);
        }
    }
}

proof fn lemma_kept_fixed(ks: Seq<PrefixView>, seen: Seq<Seq<char>>)
    requires
        normal_prefixes(ks, seen),
    ensures
        kept_prefixes(ks, seen) == ks,
    decreases ks.len(),
{
    if ks.len() > 0 {
        let rest = ks.drop_first();
        let key0 = prefix_key(ks[0]);
        let seen2 = seen.push(key0);
        assert(normal_prefix(ks[0]));
        assert(!seen.contains(key0));
        assert(normal_prefixes(rest, seen2)) by {
            assert forall|i: int| 0 <= i < rest.len() implies normal_prefix(#[trigger] rest[i]) by {
                assert(rest[i] == ks[i + 1]);
            }
            assert forall|i: int| 0 <= i < rest.len() implies !seen2.contains(prefix_key(#[trigger] rest[i])) by {
                assert(rest[i] == ks[i + 1]);
                assert(prefix_key(ks[0]) != prefix_key(ks[i + 1]));
                if seen2.contains(prefix_key(rest[i])) {
                    let w = choose|w: int| 0 <= w < seen2.len() && seen2[w] == prefix_key(rest[i]);
                    if w < seen.len() {
                        assert(seen[w] == seen2[w]);
                    }
                }
            }
            assert forall|i: int, j: int| 0 <= i < j < rest.len() implies prefix_key(#[trigger] rest[i])
                != prefix_key(#[trigger] rest[j]) by {
                assert(rest[i] == ks[i + 1] && rest[j] == ks[j + 1]);
            }
        }
        lemma_kept_fixed(rest, seen2);
        assert(ks =~= seq![ks[0]] + rest);
    }
}

proof fn lemma_defaults_normal()
    ensures
        normal_prefixes(default_prefix_views(), Seq::empty()),
        valid_url(DEFAULT_SEARCH_URL@),
        hotkey_acceptable(DEFAULT_HOTKEY@),
{
    reveal_strlit("x");
    reveal_strlit("X");
    reveal_strlit("g");
    reveal_strlit("Google");
    reveal_strlit("https://x.com/search?q={query}");
    reveal_strlit("https://www.google.com/search?q={query}");
    reveal_strlit("https://duckduckgo.com/?q={query}");
    reveal_strlit("{query}");
    reveal_strlit("https://");
    reveal_strlit("CTRL + SPACE");
    let d = default_prefix_views();
    let x_url = "https://x.com/search?q={query}"@;
    let g_url = "https://www.google.com/search?q={query}"@;
    let ddg = "https://duckduckgo.com/?q={query}"@;
    crate::text::lemma_trim_visible("x"@);
    crate::text::lemma_trim_visible("X"@);
    crate::text::lemma_trim_visible("g"@);
    crate::text::lemma_trim_visible("Google"@);
    crate::text::lemma_trim_visible(x_url);
    crate::text::lemma_trim_visible(g_url);
    crate::text::lemma_trim_visible(ddg);
    crate::text::lemma_trim_visible("CTRL + SPACE"@);
    assert(x_url.subrange(0, 8) =~= "https://"@);
    assert(g_url.subrange(0, 8) =~= "https://"@);
    assert(ddg.subrange(0, 8) =~= "https://"@);
    assert(has_infix(x_url, "{query}"@)) by {
        assert(x_url.subrange(23, 23 + "{query}"@.len() as int) =~= "{query}"@);
    }
    assert(has_infix(g_url, "{query}"@)) by {
        assert(g_url.subrange(32, 32 + "{query}"@.len() as int) =~= "{query}"@);
    }
    assert(has_infix(ddg, "{query}"@)) by {
        assert(ddg.subrange(26, 26 + "{query}"@.len() as int) =~= "{query}"@);
    }
    assert(valid_url(x_url));
    assert(valid_url(g_url));
    assert(ascii_lower_seq("x"@) =~= "x"@);
    assert(ascii_lower_seq("g"@) =~= "g"@);
    assert(prefix_key(d[0]) == "x"@);
    assert(prefix_key(d[1]) == "g"@);
    assert(prefix_valid(d[0]));
    assert(prefix_valid(d[1]));
    assert(normalised(d[0]) == d[0]);
    assert(normalised(d[1]) == d[1]);
    assert(normal_prefix(d[0]));
    assert(normal_prefix(d[1]));
}

/// Sanitising the mapping list a second time keeps it as it is.
pub proof fn lemma_sanitised_prefixes_idempotent(ps: Seq<PrefixView>)
    ensures
        sanitised_prefixes(sanitised_prefixes(ps)) == sanitised_prefixes(ps),
{
    let considered = if ps.len() > MAX_PREFIXES {
        ps.take(MAX_PREFIXES as int)
    } else {
        ps
    };
    lemma_kept_shape(considered, Seq::empty());
    lemma_defaults_normal();
    let s = sanitised_prefixes(ps);
    assert(normal_prefixes(s, Seq::empty()));
    assert(s.len() <= MAX_PREFIXES && s.len() > 0);
    lemma_kept_fixed(s, Seq::empty());
}

/// Two configurations hold the same settings.
pub open spec fn same_settings(b: &Config, c: &Config) -> bool {
    &&& c.hotkey@ == b.hotkey@
    &&& c.providers.apps == b.providers.apps && c.providers.calculator == b.providers.calculator
    &&& c.providers.dates == b.providers.dates && c.providers.notes == b.providers.notes
    &&& c.providers.plugins == b.providers.plugins && c.providers.omarchy == b.providers.omarchy
    &&& c.providers.websearch == b.providers.websearch
    &&& c.providers.apps_limit == b.providers.apps_limit && c.providers.notes_limit == b.providers.notes_limit
    &&& c.providers.plugins_limit == b.providers.plugins_limit
    &&& c.providers.omarchy_limit == b.providers.omarchy_limit
    &&& c.providers.websearch_limit == b.providers.websearch_limit
    &&& c.providers.notes_directory@ == b.providers.notes_directory@
    &&& c.providers.websearch_url@ == b.providers.websearch_url@
    &&& prefix_views(c.providers.websearch_prefixes@) == prefix_views(b.providers.websearch_prefixes@)
    &&& c.appearance == b.appearance
    &&& c.behaviour == b.behaviour
}

/// What `sanitise` makes of `a` is `b`.
pub open spec fn sanitised_to(a: &Config, b: &Config) -> bool {
    &&& b.hotkey@ == sanitised_hotkey(a.hotkey@)
    &&& providers_sanitised(&a.providers, &b.providers)
    &&& appearance_sanitised(a.appearance, b.appearance)
    &&& b.behaviour == a.behaviour
}

/// Every setting `sanitise` leaves is already legal: sanitising a second
/// time, as happens when a loaded configuration is sent back over the
/// socket, changes nothing.
pub proof fn lemma_sanitise_is_idempotent(a: &Config, b: &Config, c: &Config)
    requires
        sanitised_to(a, b),
        sanitised_to(b, c),
    ensures
        same_settings(b, c),
{
    lemma_defaults_normal();
    lemma_sanitised_prefixes_idempotent(prefix_views(a.providers.websearch_prefixes@));
}

} // verus!
