//! Result rows, queries, activations, the provider interface and the registry
//! that merges and ranks what the providers return.


pub mod rank;
pub mod score;
pub mod store;


use crate::limits::{clamp_text, clamp_text_opt, clamped, clamped_opt, MAX_ACCESSORY_CHARS, MAX_GLYPH_CHARS, MAX_ICON_PATH_BYTES, MAX_ITEM_ID_BYTES, MAX_SUBTITLE_CHARS, MAX_TITLE_CHARS};
use crate::text::{byte_len, byte_len_exceeds, char_width, chars_of, concat, opt_view, string_from_chars, str_eq, to_lowercase, trim, trim_str, unicode_lowercase, utf8_width};
use crate::config::{provider_enabled_spec, Config};
use rank::{item_views, rank, ranked, run_views, ProviderRun, RunView};
use std::sync::Arc;
use vstd::prelude::*;

verus! {

/// What a row says, as characters: the model every contract speaks of.
pub struct ItemView {
    pub id: Seq<char>,
    pub provider: Seq<char>,
    pub kind: Seq<char>,
    pub title: Seq<char>,
    pub subtitle: Option<Seq<char>>,
    pub icon: Option<Seq<char>>,
    pub glyph: Option<Seq<char>>,
    pub accessory: Option<Seq<char>>,
    pub score: i64,
}

/// One row in the result list. `id` is namespaced by provider (`"apps:firefox.desktop"`)
/// so activation can be routed back without a second lookup table.
#[derive(Debug, PartialEq, Eq)]
pub struct Item {
    pub id: String,
    pub provider: &'static str,
    /// Human label for the right-hand pill: "Application", "Calculator", "Clipboard".
    pub kind: &'static str,
    pub title: String,
    pub subtitle: Option<String>,
    /// Absolute path to an icon file; the frontend runs it through `convertFileSrc`.
    pub icon: Option<String>,
    /// Fallback shown when `icon` is None.
    pub glyph: Option<String>,
    /// Right-aligned text, used by the calculator for the result.
    pub accessory: Option<String>,
    pub score: i64,
}

impl View for Item {
    type V = ItemView;

    open spec fn view(&self) -> ItemView {
        ItemView {
            id: self.id@,
            provider: self.provider@,
            kind: self.kind@,
            title: self.title@,
            subtitle: opt_view(self.subtitle),
            icon: opt_view(self.icon),
            glyph: opt_view(self.glyph),
            accessory: opt_view(self.accessory),
            score: self.score,
        }
    }
}

impl DeepView for Item {
    type V = ItemView;

    open spec fn deep_view(&self) -> ItemView {
        self@
    }
}

/// The longest prefix of `s` whose UTF-8 encoding fits in `max` bytes, which
/// is where truncating on a character boundary lands.
pub open spec fn byte_prefix(s: Seq<char>, max: nat) -> Seq<char>
    decreases s.len(),
{
    if s.len() == 0 || utf8_width(s[0]) > max {
        Seq::empty()
    } else {
        seq![s[0]] + byte_prefix(s.drop_first(), (max - utf8_width(s[0])) as nat)
    }
}

pub proof fn lemma_byte_prefix_fits(s: Seq<char>, max: nat)
    ensures
        byte_len(byte_prefix(s, max)) <= max,
        byte_prefix(s, max).len() <= s.len(),
    decreases s.len(),
{
    if s.len() > 0 && utf8_width(s[0]) <= max {
        let rest = byte_prefix(s.drop_first(), (max - utf8_width(s[0])) as nat);
        lemma_byte_prefix_fits(s.drop_first(), (max - utf8_width(s[0])) as nat);
        lemma_byte_len_cons(s[0], rest);
    }
}

pub proof fn lemma_byte_len_cons(c: char, s: Seq<char>)
    ensures
        byte_len(seq![c] + s) == utf8_width(c) + byte_len(s),
    decreases s.len(),
{
    if s.len() == 0 {
        assert((seq![c] + s).drop_last() =~= Seq::<char>::empty());
        assert((seq![c] + s).last() == c);
        assert(byte_len(Seq::<char>::empty()) == 0);
    } else {
        lemma_byte_len_cons(c, s.drop_last());
        assert((seq![c] + s).drop_last() =~= seq![c] + s.drop_last());
        assert((seq![c] + s).last() == s.last());
    }
}

/// A text short enough already is left whole.
pub proof fn lemma_byte_prefix_whole(s: Seq<char>, max: nat)
    requires
        byte_len(s) <= max,
    ensures
        byte_prefix(s, max) == s,
    decreases s.len(),
{
    if s.len() > 0 {
        lemma_byte_len_cons(s[0], s.drop_first());
        assert(seq![s[0]] + s.drop_first() =~= s);
        lemma_byte_prefix_whole(s.drop_first(), (max - utf8_width(s[0])) as nat);
    }
}

/// Truncates `s` to at most `max` bytes without splitting a character.
pub fn truncate_to_char_boundary(s: &str, max_bytes: usize) -> (r: String)
    ensures
        r@ == byte_prefix(s@, max_bytes as nat),
{
    let v = chars_of(s);
    let mut out: Vec<char> = Vec::new();
    let mut room = max_bytes;
    let mut i: usize = 0;
    let mut full = false;
    assert(v@.skip(0) =~= v@);
    assert(out@ + byte_prefix(s@, max_bytes as nat) =~= byte_prefix(s@, max_bytes as nat));
    while i < v.len() && !full
        invariant
            i <= v.len(),
            v@ == s@,
            out@ + byte_prefix(v@.skip(i as int), room as nat) == byte_prefix(s@, max_bytes as nat),
            full ==> byte_prefix(v@.skip(i as int), room as nat) == Seq::<char>::empty(),
        decreases v.len() - i + (if full { 0int } else { 1int }),
    {
        let w = char_width(v[i]);
        assert(v@.skip(i as int).drop_first() =~= v@.skip(i + 1));
        if w > room {
            full = true;
        } else {
            proof {
                assert(out@ + byte_prefix(v@.skip(i as int), room as nat) =~= out@.push(v@[i as int])
                    + byte_prefix(v@.skip(i + 1), (room - w) as nat));
            }
            out.push(v[i]);
            room = room - w;
            i += 1;
        }
    }
    assert(out@ + Seq::<char>::empty() =~= out@);
    string_from_chars(&out)
}

impl Item {
    pub fn new(provider: &'static str, kind: &'static str, id: String, title: String) -> (r: Self)
        ensures
            r@ == (ItemView {
                id: provider@ + ":"@ + id@,
                provider: provider@,
                kind: kind@,
                title: title@,
                subtitle: None,
                icon: None,
                glyph: None,
                accessory: None,
                score: 0,
            }),
    {
        let with_colon = concat(provider, ":");
        let full = concat(with_colon.as_str(), id.as_str());
        Item {
            id: full,
            provider,
            kind,
            title,
            subtitle: None,
            icon: None,
            glyph: None,
            accessory: None,
            score: 0,
        }
    }

    /// A field-for-field copy.
    pub fn duplicate(&self) -> (r: Item)
        ensures
            r@ == self@,
    {
        Item {
            id: self.id.clone(),
            provider: self.provider,
            kind: self.kind,
            title: self.title.clone(),
            subtitle: copy_opt(&self.subtitle),
            icon: copy_opt(&self.icon),
            glyph: copy_opt(&self.glyph),
            accessory: copy_opt(&self.accessory),
            score: self.score,
        }
    }

    /// Enforces the display-field limits in `limits`. Runs once per emitted
    /// item, immediately before serialisation.
    pub fn clamp(&mut self)
        ensures
            final(self)@ == clamped_item(old(self)@),
    {
        self.title = clamp_text(self.title.as_str(), MAX_TITLE_CHARS);
        let subtitle = take_opt(&mut self.subtitle);
        self.subtitle = clamp_text_opt(subtitle, MAX_SUBTITLE_CHARS);
        let glyph = take_opt(&mut self.glyph);
        self.glyph = clamp_text_opt(glyph, MAX_GLYPH_CHARS);
        let accessory = take_opt(&mut self.accessory);
        self.accessory = clamp_text_opt(accessory, MAX_ACCESSORY_CHARS);
        let too_long = match &self.icon {
            Some(i) => {
                let v = chars_of(i.as_str());
                byte_len_exceeds(&v, MAX_ICON_PATH_BYTES)
            },
            None => false,
        };
        if too_long {
            self.icon = None;
        }
        self.id = truncate_to_char_boundary(self.id.as_str(), MAX_ITEM_ID_BYTES);
    }
}

/// What `Item::clamp` makes of a row.
pub open spec fn clamped_item(v: ItemView) -> ItemView {
    ItemView {
        id: byte_prefix(v.id, MAX_ITEM_ID_BYTES as nat),
        title: clamped(v.title, MAX_TITLE_CHARS as nat),
        subtitle: clamped_opt(v.subtitle, MAX_SUBTITLE_CHARS as nat),
        glyph: clamped_opt(v.glyph, MAX_GLYPH_CHARS as nat),
        accessory: clamped_opt(v.accessory, MAX_ACCESSORY_CHARS as nat),
        icon: match v.icon {
            Some(i) => if byte_len(i) > MAX_ICON_PATH_BYTES {
                None
            } else {
                Some(i)
            },
            None => None,
        },
        ..v
    }
}

/// An optional text within `max` characters and free of control characters.
pub open spec fn bounded_opt(o: Option<Seq<char>>, max: nat) -> bool {
    match o {
        Some(t) => t.len() <= max && forall|i: int| 0 <= i < t.len() ==> !crate::text::is_ctrl(#[trigger] t[i]),
        None => true,
    }
}

proof fn lemma_clamped_opt_bounded(o: Option<Seq<char>>, max: nat)
    ensures
        bounded_opt(clamped_opt(o, max), max),
{
    if let Some(t) = o {
        crate::limits::lemma_clamped_bounds(t, max);
    }
}

/// A clamped row stays inside every display bound, whatever it held: title,
/// subtitle, glyph and accessory within their character limits and free of
/// control characters, the icon path within its byte limit (or dropped), and
/// the id within its byte limit.
pub proof fn lemma_clamped_item_bounded(v: ItemView)
    ensures
        clamped_item(v).title.len() <= MAX_TITLE_CHARS,
        forall|i: int| 0 <= i < clamped_item(v).title.len() ==> !crate::text::is_ctrl(#[trigger] clamped_item(v).title[i]),
        bounded_opt(clamped_item(v).subtitle, MAX_SUBTITLE_CHARS as nat),
        bounded_opt(clamped_item(v).glyph, MAX_GLYPH_CHARS as nat),
        bounded_opt(clamped_item(v).accessory, MAX_ACCESSORY_CHARS as nat),
        clamped_item(v).icon matches Some(i) ==> byte_len(i) <= MAX_ICON_PATH_BYTES,
        byte_len(clamped_item(v).id) <= MAX_ITEM_ID_BYTES,
{
    crate::limits::lemma_clamped_bounds(v.title, MAX_TITLE_CHARS as nat);
    lemma_clamped_opt_bounded(v.subtitle, MAX_SUBTITLE_CHARS as nat);
    lemma_clamped_opt_bounded(v.glyph, MAX_GLYPH_CHARS as nat);
    lemma_clamped_opt_bounded(v.accessory, MAX_ACCESSORY_CHARS as nat);
    lemma_byte_prefix_fits(v.id, MAX_ITEM_ID_BYTES as nat);
}

fn copy_opt(o: &Option<String>) -> (r: Option<String>)
    ensures
        opt_view(r) == opt_view(*o),
{
    match o {
        Some(s) => Some(s.clone()),
        None => None,
    }
}

fn take_opt(o: &mut Option<String>) -> (r: Option<String>)
    ensures
        opt_view(r) == opt_view(*old(o)),
        *final(o) is None,
{
    let r = copy_opt(o);
    *o = None;
    r
}

pub struct Query {
    pub trimmed: String,
}

impl Query {
    pub fn new(raw: &str) -> (q: Self)
        ensures
            q.trimmed@ == trim(raw@),
    {
        Query { trimmed: trim_str(raw) }
    }

    pub fn is_empty(&self) -> (b: bool)
        ensures
            b == (self.trimmed@.len() == 0),
    {
        self.trimmed.as_str().is_empty()
    }
}

#[derive(Debug, Clone, Copy, PartialEq, Eq, Structural)]
pub enum Action {
    Primary,
    Secondary,
}

/// The action a request's text names: `secondary`, or else the primary one.
pub open spec fn action_of(s: Seq<char>) -> Action {
    if s == "secondary"@ {
        Action::Secondary
    } else {
        Action::Primary
    }
}

impl Action {
    pub fn parse(s: &str) -> (a: Action)
        ensures
            a == action_of(s@),
    {
        if str_eq(s, "secondary") {
            Action::Secondary
        } else {
            Action::Primary
        }
    }
}

/// What activating a row asks the program to do. Providers decide; the
/// program around the library performs it.
pub enum Activation {
    /// Start `program` with `args`, detached from the daemon.
    Launch { program: String, args: Vec<String> },
    /// Put `text` on the clipboard.
    Copy { text: String },
    /// Create a note with this title in the notes directory, then open it.
    CreateNote { title: String },
}

pub trait Provider: Send + Sync {
    /// Whether `rows` is an answer this provider gives to the trimmed query
    /// `q`. A provider says what its answers are; one that does not may
    /// answer anything.
    open spec fn answers(&self, q: Seq<char>, rows: Seq<ItemView>) -> bool {
        true
    }

    /// Whether `r` is what activating `id` (without the provider prefix)
    /// with `action` gives. A provider says what its activations are; one
    /// that does not may give anything.
    open spec fn activates(&self, id: Seq<char>, action: Action, r: Result<Activation, String>) -> bool {
        true
    }

    fn id(&self) -> &'static str;

    /// Runs on every keystroke, so it must stay in the sub-millisecond range.
    /// Anything expensive belongs in `reindex`, not here.
    fn query(&self, q: &Query) -> (rows: Vec<Item>)
        ensures
            self.answers(q.trimmed@, item_views(rows@)),
    ;

    /// `id` has already had the `"<provider>:"` prefix stripped.
    fn activate(&self, id: &str, action: Action) -> (r: Result<Activation, String>)
        ensures
            self.activates(id@, action, r),
    ;

    /// Called at startup and whenever the filesystem watcher fires.
    fn reindex(&self) {
    }
}

/// Where the first `:` of an item id stands, if anywhere.
pub open spec fn first_colon(id: Seq<char>) -> Option<int> {
    if exists|i: int| 0 <= i < id.len() && id[i] == ':' {
        Some(choose|i: int| 0 <= i < id.len() && id[i] == ':' && forall|k: int| 0 <= k < i ==> id[k] != ':')
    } else {
        None
    }
}

/// An item id split at its first `:` into the provider id and the rest.
pub open spec fn split_id(id: Seq<char>) -> Option<(Seq<char>, Seq<char>)> {
    match first_colon(id) {
        Some(i) => Some((id.take(i), id.skip(i + 1))),
        None => None,
    }
}

/// Splits an item id at its first `:`.
pub fn split_item_id(id: &str) -> (r: Option<(String, String)>)
    ensures
        match r {
            Some((a, b)) => split_id(id@) == Some((a@, b@)),
            None => split_id(id@) is None,
        },
{
    let v = chars_of(id);
    let mut i: usize = 0;
    while i < v.len()
        invariant
            i <= v.len(),
            v@ == id@,
            forall|k: int| 0 <= k < i ==> v@[k] != ':',
        decreases v.len() - i,
    {
        if v[i] == ':' {
            let ghost at = i as int;
            proof {
                assert(exists|k: int| 0 <= k < id@.len() && id@[k] == ':') by {
                    assert(id@[at] == ':');
                }
                let c = choose|k: int|
                    0 <= k < id@.len() && id@[k] == ':' && forall|m: int| 0 <= m < k ==> id@[m] != ':';
                assert(0 <= at < id@.len() && id@[at] == ':' && forall|m: int| 0 <= m < at ==> id@[m] != ':');
                if c < at {
                    assert(v@[c] != ':');
                } else if c > at {
                    assert(id@[at] != ':');
                }
                assert(c == at);
            }
            let head = crate::text::string_from_range(&v, 0, i);
            let tail = crate::text::string_from_range(&v, i + 1, v.len());
            assert(head@ =~= id@.take(at));
            assert(tail@ =~= id@.skip(at + 1));
            return Some((head, tail));
        }
        i += 1;
    }
    None
}

pub struct Registry {
    providers: Vec<Arc<dyn Provider>>,
    ids: Vec<&'static str>,
}

/// The positions in `ids` of the providers that `config` enables, in order.
pub open spec fn enabled_positions(ids: Seq<Seq<char>>, config: &Config) -> Seq<int>
    decreases ids.len(),
{
    if ids.len() == 0 {
        Seq::empty()
    } else {
        let rest = enabled_positions(ids.drop_last(), config);
        if provider_enabled_spec(config, ids.last()) {
            rest.push(ids.len() - 1)
        } else {
            rest
        }
    }
}

/// Every enabled position is a position of `ids`, rising, and names an
/// enabled provider.
pub proof fn lemma_enabled_positions(ids: Seq<Seq<char>>, config: &Config)
    ensures
        forall|k: int|
            0 <= k < enabled_positions(ids, config).len() ==> 0 <= #[trigger] enabled_positions(ids, config)[k]
                < ids.len() && provider_enabled_spec(config, ids[enabled_positions(ids, config)[k]]),
        forall|k: int, l: int|
            0 <= k < l < enabled_positions(ids, config).len() ==> #[trigger] enabled_positions(ids, config)[k]
                < #[trigger] enabled_positions(ids, config)[l],
    decreases ids.len(),
{
    if ids.len() > 0 {
        let init = ids.drop_last();
        lemma_enabled_positions(init, config);
        let rest = enabled_positions(init, config);
        let pos = enabled_positions(ids, config);
        assert forall|k: int| 0 <= k < pos.len() implies 0 <= #[trigger] pos[k] < ids.len()
            && provider_enabled_spec(config, ids[pos[k]]) by {
            if k < rest.len() {
                assert(pos[k] == rest[k]);
                assert(init[rest[k]] == ids[rest[k]]);
            }
        }
        assert forall|k: int, l: int| 0 <= k < l < pos.len() implies #[trigger] pos[k] < #[trigger] pos[l] by {
            if l < rest.len() {
                assert(pos[k] == rest[k] && pos[l] == rest[l]);
            } else {
                assert(pos[k] == rest[k]);
            }
        }
    }
}

/// The first position of `p` in `ids` at or after `i`.
pub open spec fn first_with(ids: Seq<Seq<char>>, p: Seq<char>, i: int) -> Option<int>
    decreases ids.len() - i,
{
    if i < 0 || i >= ids.len() {
        None
    } else if ids[i] == p {
        Some(i)
    } else {
        first_with(ids, p, i + 1)
    }
}

impl Registry {
    #[verifier::type_invariant]
    spec fn ids_match(&self) -> bool {
        self.ids@.len() == self.providers@.len()
    }

    /// The id of each registered provider, in registration order.
    pub closed spec fn provider_ids(&self) -> Seq<Seq<char>> {
        self.ids@.map_values(|s: &'static str| s@)
    }

    /// The registered providers, in registration order.
    pub closed spec fn provider_list(&self) -> Seq<Arc<dyn Provider>> {
        self.providers@
    }

    pub open spec fn provider_count(&self) -> nat {
        self.provider_ids().len()
    }

    /// `runs` hold, in registration order, one run for each enabled
    /// provider: its id and rows that provider answers to `q`.
    pub open spec fn runs_for(&self, runs: Seq<RunView>, q: Seq<char>, config: &Config) -> bool {
        let pos = enabled_positions(self.provider_ids(), config);
        &&& runs.len() == pos.len()
        &&& forall|k: int|
            #![trigger runs[k]]
            0 <= k < runs.len() ==> runs[k].id == self.provider_ids()[pos[k]] && self.provider_list()[pos[k]].answers(
                q,
                runs[k].items,
            )
    }

    /// What activating the item `id` with `action` gives: a refusal of a
    /// malformed id or of an unknown provider, else what the first provider
    /// registered under that id gives for the rest of the id.
    pub open spec fn routes(&self, id: Seq<char>, action: Action, r: Result<Activation, String>) -> bool {
        match split_id(id) {
            None => r matches Err(e) && e@ == "malformed item id: "@ + id,
            Some((p, rest)) => match first_with(self.provider_ids(), p, 0) {
                None => r matches Err(e) && e@ == "no provider named "@ + p,
                Some(j) => self.provider_list()[j].activates(rest, action, r),
            },
        }
    }

    /// Registers `providers` in this order; each one's id is read once, here.
    pub fn new(providers: Vec<Arc<dyn Provider>>) -> (r: Self)
        ensures
            r.provider_count() == providers@.len(),
            r.provider_list() == providers@,
    {
        let mut ids: Vec<&'static str> = Vec::new();
        let mut i: usize = 0;
        while i < providers.len()
            invariant
                i <= providers.len(),
                ids@.len() == i,
            decreases providers.len() - i,
        {
            ids.push(providers[i].id());
            i += 1;
        }
        Registry { providers, ids }
    }

    pub fn providers(&self) -> (r: &[Arc<dyn Provider>])
        ensures
            r@ == self.provider_list(),
            r@.len() == self.provider_count(),
    {
        proof {
            use_type_invariant(self);
        }
        self.providers.as_slice()
    }

    /// Asks every enabled provider, in registration order, then merges and
    /// orders their rows (see `rank`).
    pub fn query(&self, raw: &str, config: &Config, total: usize) -> (items: Vec<Item>)
        ensures
            exists|runs: Seq<RunView>|
                self.runs_for(runs, trim(raw@), config) && item_views(items@) == ranked(
                    runs,
                    unicode_lowercase(trim(raw@)),
                    config,
                    total as nat,
                ),
    {
        proof {
            use_type_invariant(self);
        }
        let q = Query::new(raw);
        let query_lower = to_lowercase(q.trimmed.as_str());
        let ghost ids = self.provider_ids();
        let mut runs: Vec<ProviderRun> = Vec::new();
        let mut i: usize = 0;
        while i < self.providers.len()
            invariant
                i <= self.providers.len(),
                self.ids@.len() == self.providers@.len(),
                ids == self.provider_ids(),
                q.trimmed@ == trim(raw@),
                run_views(runs@).len() == enabled_positions(ids.take(i as int), config).len(),
                forall|k: int|
                    #![trigger run_views(runs@)[k]]
                    0 <= k < run_views(runs@).len() ==> run_views(runs@)[k].id
                        == ids[enabled_positions(ids.take(i as int), config)[k]]
                        && self.provider_list()[enabled_positions(ids.take(i as int), config)[k]].answers(
                        trim(raw@),
                        run_views(runs@)[k].items,
                    ),
            decreases self.providers.len() - i,
        {
            let id = self.ids[i];
            let ghost before = run_views(runs@);
            let ghost old_pos = enabled_positions(ids.take(i as int), config);
            proof {
                assert(ids.take(i + 1).drop_last() =~= ids.take(i as int));
                assert(ids.take(i + 1).last() == id@);
                lemma_enabled_positions(ids.take(i as int), config);
            }
            if config.provider_enabled(id) {
                let items = self.providers[i].query(&q);
                runs.push(ProviderRun { id, items });
                proof {
                    let new_pos = enabled_positions(ids.take(i + 1), config);
                    assert(new_pos == old_pos.push(i as int));
                    assert(run_views(runs@) =~= before.push(runs@[runs@.len() - 1]@));
                    assert forall|k: int| 0 <= k < run_views(runs@).len() implies run_views(runs@)[k].id
                        == ids[new_pos[k]] && self.provider_list()[new_pos[k]].answers(
                        trim(raw@),
                        run_views(runs@)[k].items,
                    ) by {
                        if k < before.len() {
                            assert(run_views(runs@)[k] == before[k]);
                            assert(new_pos[k] == old_pos[k]);
                        }
                    }
                }
            } else {
                proof {
                    assert(enabled_positions(ids.take(i + 1), config) == old_pos);
                }
            }
            i += 1;
        }
        proof {
            assert(ids.take(i as int) =~= ids);
        }
        let items = rank(&runs, query_lower.as_str(), config, total);
        proof {
            let rv = run_views(runs@);
            assert(self.runs_for(rv, trim(raw@), config));
        }
        items
    }

    /// Routes an activation to the provider named before the first `:` of `id`.
    pub fn activate(&self, id: &str, action: Action) -> (r: Result<Activation, String>)
        ensures
            self.routes(id@, action, r),
    {
        proof {
            use_type_invariant(self);
        }
        let (provider_id, rest) = match split_item_id(id) {
            Some(parts) => parts,
            None => return Err(concat("malformed item id: ", id)),
        };
        let ghost ids = self.provider_ids();
        let mut i: usize = 0;
        while i < self.providers.len()
            invariant
                i <= self.providers.len(),
                self.ids@.len() == self.providers@.len(),
                ids == self.provider_ids(),
                split_id(id@) == Some((provider_id@, rest@)),
                first_with(ids, provider_id@, 0) == first_with(ids, provider_id@, i as int),
            decreases self.providers.len() - i,
        {
            if str_eq(self.ids[i], provider_id.as_str()) {
                assert(ids[i as int] == provider_id@);
                return self.providers[i].activate(rest.as_str(), action);
            }
            i += 1;
        }
        Err(concat("no provider named ", provider_id.as_str()))
    }
}

} // verus!
