//! Desktop applications. The desktop entries are read (and their icons
//! resolved) around the library; which entries are offered, what they are
//! called and how they rank is decided here.

use crate::search::{Action, Activation, Item, ItemView, Query};
use crate::search::rank::item_views;
use crate::search::score::{best_field_score, new_matcher, score_fields};
use crate::text::{ascii_lower_seq, chars_eq, chars_of, concat, contains_char, copy_str, has_prefix, join, join_strings, lowercase_ascii, opt_view, split_words, str_eq, string_from_chars, string_views, views, words, Sep};
use vstd::prelude::*;

verus! {

pub const PROVIDER: &'static str = "apps";

/// The last component of `path`, as `Path::file_name` gives it (`None` for
/// a path ending in `..` or for the root). Its rules are std's, so it is
/// only named here.
pub uninterp spec fn file_name_of(path: Seq<char>) -> Option<Seq<char>>;

/// Calls `Path::file_name` on `path`; the result is the named file name.
#[verifier::external_body]
fn file_name(path: &str) -> (r: Option<String>)
    ensures
        opt_view(r) == file_name_of(path@),
{
    std::path::Path::new(path).file_name().and_then(|s| s.to_str()).map(|s| s.to_string())
}

/// A token of an Exec line that is the program rather than a `%f`-style
/// field code or an `VAR=value` assignment.
pub open spec fn is_program_token(tok: Seq<char>) -> bool {
    !has_prefix(tok, "%"@) && !tok.contains('=')
}

pub open spec fn first_program_token(toks: Seq<Seq<char>>, i: int) -> Option<Seq<char>>
    decreases toks.len() - i,
{
    if i < 0 || i >= toks.len() {
        None
    } else if is_program_token(toks[i]) {
        Some(toks[i])
    } else {
        first_program_token(toks, i + 1)
    }
}

/// The binary an Exec line runs, by its file name.
pub open spec fn exec_basename_spec(line: Seq<char>) -> Option<Seq<char>> {
    match first_program_token(words(line, Sep::Whitespace), 0) {
        Some(tok) => file_name_of(tok),
        None => None,
    }
}

/// Strip the `%f`/`%U`/… field codes so the Exec line yields a usable binary name.
pub fn exec_basename(line: &str) -> (r: Option<String>)
    ensures
        opt_view(r) == exec_basename_spec(line@),
{
    let v = chars_of(line);
    let toks = split_words(&v, Sep::Whitespace);
    let ghost tv = views(toks@);
    let mut i: usize = 0;
    while i < toks.len()
        invariant
            i <= toks.len(),
            tv == views(toks@),
            tv == words(line@, Sep::Whitespace),
            first_program_token(tv, 0) == first_program_token(tv, i as int),
        decreases toks.len() - i,
    {
        let tok = &toks[i];
        assert(tv[i as int] == tok@);
        let percent = tok.len() > 0 && tok[0] == '%';
        proof {
            reveal_strlit("%");
            if has_prefix(tok@, "%"@) {
                assert(tok@.subrange(0, 1)[0] == tok@[0]);
            }
            if percent {
                assert(tok@.subrange(0, 1) =~= "%"@);
            }
        }
        if !percent && !contains_char(tok, '=') {
            return file_name(string_from_chars(tok).as_str());
        }
        i += 1;
    }
    None
}

/// What the program reads from a desktop entry, as plain values.
pub struct DesktopInfo {
    /// Where the entry's file is.
    pub path: String,
    /// The file's name, e.g. `firefox.desktop`, when it has one.
    pub file_name: Option<String>,
    pub appid: String,
    pub no_display: bool,
    pub hidden: bool,
    /// The `Type` key.
    pub kind: Option<String>,
    pub only_show_in: Option<Vec<String>>,
    pub not_show_in: Option<Vec<String>>,
    pub try_exec: Option<String>,
    /// Whether the `TryExec` path exists.
    pub try_exec_exists: bool,
    /// The `Exec` line.
    pub command: Option<String>,
    /// The localized `Name`.
    pub name: Option<String>,
    /// The localized `GenericName`.
    pub generic_name: Option<String>,
    /// The localized `Keywords`.
    pub keywords: Option<Vec<String>>,
    /// The localized `Comment`.
    pub comment: Option<String>,
    /// The icon, resolved to a file.
    pub icon: Option<String>,
}

pub struct AppEntryView {
    pub id: Seq<char>,
    pub path: Seq<char>,
    pub name: Seq<char>,
    pub subtitle: Option<Seq<char>>,
    pub icon: Option<Seq<char>>,
    pub aliases: Seq<Seq<char>>,
}

/// An application that can be launched.
pub struct AppEntry {
    /// Desktop file id, e.g. `firefox.desktop`: also the frecency key.
    id: String,
    path: String,
    name: String,
    subtitle: Option<String>,
    icon: Option<String>,
    /// Secondary match fields: generic name, keywords, executable basename.
    aliases: Vec<String>,
}

impl View for AppEntry {
    type V = AppEntryView;

    closed spec fn view(&self) -> AppEntryView {
        AppEntryView {
            id: self.id@,
            path: self.path@,
            name: self.name@,
            subtitle: opt_view(self.subtitle),
            icon: opt_view(self.icon),
            aliases: string_views(self.aliases@),
        }
    }
}

pub open spec fn app_views(v: Seq<AppEntry>) -> Seq<AppEntryView> {
    Seq::new(v.len(), |i: int| v[i]@)
}

/// Two names are the same desktop, ASCII case ignored.
pub open spec fn same_desktop(a: Seq<char>, b: Seq<char>) -> bool {
    ascii_lower_seq(a) == ascii_lower_seq(b)
}

/// One of `names` is one of the desktops in use.
pub open spec fn names_current(names: Seq<Seq<char>>, desktop: Seq<Seq<char>>) -> bool {
    exists|i: int, j: int| 0 <= i < names.len() && 0 <= j < desktop.len() && same_desktop(#[trigger] desktop[j], #[trigger] names[i])
}

/// An entry is offered when it is a shown application for the current
/// desktop (`OnlyShowIn`/`NotShowIn`), its `TryExec` binary exists when
/// named by absolute path, and it has an Exec line.
pub open spec fn offered(info: DesktopInfo, desktop: Seq<Seq<char>>) -> bool {
    &&& !info.no_display && !info.hidden
    &&& opt_view(info.kind) == Some("Application"@)
    &&& match info.only_show_in {
        Some(only) => names_current(string_views(only@), desktop),
        None => true,
    }
    &&& match info.not_show_in {
        Some(not) => !names_current(string_views(not@), desktop),
        None => true,
    }
    &&& match info.try_exec {
        Some(t) => !(has_prefix(t@, "/"@) && !info.try_exec_exists),
        None => true,
    }
    &&& info.command is Some
}

pub open spec fn entry_id(info: DesktopInfo) -> Seq<char> {
    match info.file_name {
        Some(f) => f@,
        None => info.appid@,
    }
}

/// The secondary match fields: generic name, keywords joined by spaces,
/// the binary's name, whichever are there and not empty.
pub open spec fn aliases_of(info: DesktopInfo) -> Seq<Seq<char>> {
    let a0: Seq<Seq<char>> = match info.generic_name {
        Some(g) => seq![g@],
        None => Seq::empty(),
    };
    let a1 = match info.keywords {
        Some(k) => a0.push(join(string_views(k@), " "@)),
        None => a0,
    };
    let a2 = match info.command {
        Some(e) => match exec_basename_spec(e@) {
            Some(b) => a1.push(b),
            None => a1,
        },
        None => a1,
    };
    a2.filter(|a: Seq<char>| a.len() > 0)
}

pub open spec fn app_entry(info: DesktopInfo) -> AppEntryView {
    AppEntryView {
        id: entry_id(info),
        path: info.path@,
        name: match info.name {
            Some(n) => n@,
            None => info.appid@,
        },
        subtitle: match info.comment {
            Some(c) => Some(c@),
            None => opt_view(info.generic_name),
        },
        icon: opt_view(info.icon),
        aliases: aliases_of(info),
    }
}

pub open spec fn ids_of(es: Seq<AppEntryView>) -> Seq<Seq<char>> {
    Seq::new(es.len(), |i: int| es[i].id)
}

/// The offered entries, in order, the first one with a given id winning
/// (so `~/.local/share` overrides `/usr/share`).
pub open spec fn indexed_apps(desktop: Seq<Seq<char>>, infos: Seq<DesktopInfo>) -> Seq<AppEntryView>
    decreases infos.len(),
{
    if infos.len() == 0 {
        Seq::empty()
    } else {
        let es = indexed_apps(desktop, infos.drop_last());
        let info = infos.last();
        if offered(info, desktop) && !ids_of(es).contains(entry_id(info)) {
            es.push(app_entry(info))
        } else {
            es
        }
    }
}

/// Every indexed application comes from one of the given desktop entries,
/// and never from one marked `Hidden=true` or `NoDisplay=true`, nor from one
/// without an `Exec` line.
pub proof fn lemma_indexed_apps_are_shown_entries(desktop: Seq<Seq<char>>, infos: Seq<DesktopInfo>)
    ensures
        forall|k: int|
            0 <= k < indexed_apps(desktop, infos).len() ==> exists|j: int|
                0 <= j < infos.len() && #[trigger] indexed_apps(desktop, infos)[k] == app_entry(infos[j])
                    && !infos[j].hidden && !infos[j].no_display && infos[j].command is Some,
    decreases infos.len(),
{
    if infos.len() > 0 {
        let init = infos.drop_last();
        lemma_indexed_apps_are_shown_entries(desktop, init);
        let es = indexed_apps(desktop, init);
        assert forall|k: int| 0 <= k < indexed_apps(desktop, infos).len() implies exists|j: int|
            0 <= j < infos.len() && #[trigger] indexed_apps(desktop, infos)[k] == app_entry(infos[j])
                && !infos[j].hidden && !infos[j].no_display && infos[j].command is Some by {
            if k < es.len() {
                let j = choose|j: int|
                    0 <= j < init.len() && #[trigger] es[k] == app_entry(init[j]) && !init[j].hidden
                        && !init[j].no_display && init[j].command is Some;
                assert(indexed_apps(desktop, infos)[k] == es[k]);
                assert(infos[j] == init[j]);
            } else {
                let j = infos.len() - 1;
                assert(indexed_apps(desktop, infos)[k] == app_entry(infos[j]));
            }
        }
    }
}

fn eq_ignore_ascii_case(a: &String, b: &String) -> (r: bool)
    ensures
        r == same_desktop(a@, b@),
{
    let x = lowercase_ascii(&chars_of(a.as_str()));
    let y = lowercase_ascii(&chars_of(b.as_str()));
    chars_eq(&x, &y)
}

fn any_current(names: &Vec<String>, desktop: &Vec<String>) -> (r: bool)
    ensures
        r == names_current(string_views(names@), string_views(desktop@)),
{
    let ghost nv = string_views(names@);
    let ghost dv = string_views(desktop@);
    let mut i: usize = 0;
    while i < names.len()
        invariant
            i <= names.len(),
            nv == string_views(names@),
            dv == string_views(desktop@),
            forall|a: int, b: int| 0 <= a < i && 0 <= b < dv.len() ==> !same_desktop(#[trigger] dv[b], #[trigger] nv[a]),
        decreases names.len() - i,
    {
        let mut j: usize = 0;
        while j < desktop.len()
            invariant
                i < names.len(),
                j <= desktop.len(),
                nv == string_views(names@),
                dv == string_views(desktop@),
                forall|a: int, b: int| 0 <= a < i && 0 <= b < dv.len() ==> !same_desktop(#[trigger] dv[b], #[trigger] nv[a]),
                forall|b: int| 0 <= b < j ==> !same_desktop(#[trigger] dv[b], nv[i as int]),
            decreases desktop.len() - j,
        {
            if eq_ignore_ascii_case(&desktop[j], &names[i]) {
                assert(same_desktop(dv[j as int], nv[i as int]));
                return true;
            }
            j += 1;
        }
        i += 1;
    }
    false
}

fn is_offered(info: &DesktopInfo, desktop: &Vec<String>) -> (r: bool)
    ensures
        r == offered(*info, string_views(desktop@)),
{
    if info.no_display || info.hidden {
        return false;
    }
    match &info.kind {
        Some(k) => {
            if !str_eq(k.as_str(), "Application") {
                return false;
            }
        },
        None => return false,
    }
    if let Some(only) = &info.only_show_in {
        if !any_current(only, desktop) {
            return false;
        }
    }
    if let Some(not) = &info.not_show_in {
        if any_current(not, desktop) {
            return false;
        }
    }
    if let Some(t) = &info.try_exec {
        if crate::text::starts_with(t.as_str(), "/") && !info.try_exec_exists {
            return false;
        }
    }
    info.command.is_some()
}

fn id_taken(out: &Vec<AppEntry>, id: &String) -> (r: bool)
    ensures
        r == ids_of(app_views(out@)).contains(id@),
{
    let ghost ids = ids_of(app_views(out@));
    let mut i: usize = 0;
    while i < out.len()
        invariant
            i <= out.len(),
            ids == ids_of(app_views(out@)),
            forall|k: int| 0 <= k < i ==> ids[k] != id@,
        decreases out.len() - i,
    {
        if str_eq(out[i].id.as_str(), id.as_str()) {
            assert(ids[i as int] == id@);
            return true;
        }
        i += 1;
    }
    false
}

fn aliases_for(info: &DesktopInfo) -> (r: Vec<String>)
    ensures
        string_views(r@) == aliases_of(*info),
{
    let mut all: Vec<String> = Vec::new();
    if let Some(g) = &info.generic_name {
        all.push(g.clone());
    }
    let ghost a0 = string_views(all@);
    assert(a0 =~= match info.generic_name {
        Some(g) => seq![g@],
        None => Seq::<Seq<char>>::empty(),
    });
    if let Some(k) = &info.keywords {
        all.push(join_strings(k, " "));
    }
    let ghost a1 = string_views(all@);
    assert(a1 =~= match info.keywords {
        Some(k) => a0.push(join(string_views(k@), " "@)),
        None => a0,
    });
    if let Some(e) = &info.command {
        if let Some(b) = exec_basename(e.as_str()) {
            all.push(b);
        }
    }
    let ghost a2 = string_views(all@);
    assert(a2 =~= match info.command {
        Some(e) => match exec_basename_spec(e@) {
            Some(b) => a1.push(b),
            None => a1,
        },
        None => a1,
    });
    let mut kept: Vec<String> = Vec::new();
    let mut i: usize = 0;
    assert(a2.take(0).filter(|a: Seq<char>| a.len() > 0) =~= Seq::<Seq<char>>::empty());
    while i < all.len()
        invariant
            i <= all.len(),
            a2 == string_views(all@),
            string_views(kept@) == a2.take(i as int).filter(|a: Seq<char>| a.len() > 0),
        decreases all.len() - i,
    {
        proof {
            assert(a2.take(i + 1).drop_last() =~= a2.take(i as int));
            a2.take(i as int).lemma_filter_push(a2[i as int], |a: Seq<char>| a.len() > 0);
            assert(a2.take(i as int).push(a2[i as int]) =~= a2.take(i + 1));
        }
        if !all[i].as_str().is_empty() {
            let ghost before = kept@;
            kept.push(all[i].clone());
            assert(string_views(kept@) =~= string_views(before).push(all@[i as int]@));
        }
        i += 1;
    }
    assert(a2.take(i as int) =~= a2);
    kept
}

/// The applications offered, from the desktop entries found (in search-path
/// order) and the desktops in use.
pub fn index_apps(desktop: &Vec<String>, infos: Vec<DesktopInfo>) -> (r: Vec<AppEntry>)
    ensures
        app_views(r@) == indexed_apps(string_views(desktop@), infos@),
{
    let ghost all = infos@;
    let total = infos.len();
    let mut infos = infos;
    let mut out: Vec<AppEntry> = Vec::new();
    let mut k: usize = 0;
    assert(all.take(0) =~= Seq::<DesktopInfo>::empty());
    assert(app_views(out@) =~= Seq::<AppEntryView>::empty());
    while infos.len() > 0
        invariant
            k + infos@.len() == all.len(),
            all.len() == total,
            infos@ == all.skip(k as int),
            app_views(out@) == indexed_apps(string_views(desktop@), all.take(k as int)),
        decreases infos.len(),
    {
        let ghost cur = infos@;
        let info = infos.remove(0);
        assert(cur[0] == info);
        assert(all.skip(k as int)[0] == all[k as int]);
        assert(all.take(k + 1).drop_last() =~= all.take(k as int));
        assert(all.take(k + 1).last() == info);
        if is_offered(&info, desktop) {
            let id = match &info.file_name {
                Some(f) => f.clone(),
                None => info.appid.clone(),
            };
            if !id_taken(&out, &id) {
                let aliases = aliases_for(&info);
                let name = match &info.name {
                    Some(n) => n.clone(),
                    None => info.appid.clone(),
                };
                let subtitle = match &info.comment {
                    Some(c) => Some(c.clone()),
                    None => match &info.generic_name {
                        Some(g) => Some(g.clone()),
                        None => None,
                    },
                };
                let icon = match &info.icon {
                    Some(i) => Some(i.clone()),
                    None => None,
                };
                let e = AppEntry { id, path: info.path.clone(), name, subtitle, icon, aliases };
                assert(e@ == app_entry(info));
                let ghost before = out@;
                out.push(e);
                assert(app_views(out@) =~= app_views(before).push(e@));
            }
        }
        assert(infos@ =~= all.skip(k + 1));
        k += 1;
    }
    assert(all.take(k as int) =~= all);
    out
}

/// The row for an entry with score `score`.
pub open spec fn app_row(e: AppEntryView, score: i64) -> ItemView {
    ItemView {
        id: PROVIDER@ + ":"@ + e.id,
        provider: PROVIDER@,
        kind: "Application"@,
        title: e.name,
        subtitle: e.subtitle,
        icon: e.icon,
        glyph: Some("\u{25a2}"@),
        accessory: None,
        score,
    }
}

/// The rows of the first `n` entries for the query `q`: with an empty
/// query every entry, ranked by its frecency boost alone; otherwise the
/// entries matching by name or alias, the fuzzy score dominating the boost.
pub open spec fn app_rows_upto(es: Seq<AppEntryView>, q: Seq<char>, boosts: Seq<i64>, n: int) -> Seq<ItemView>
    decreases n,
{
    if n <= 0 {
        Seq::empty()
    } else {
        let rows = app_rows_upto(es, q, boosts, n - 1);
        let e = es[n - 1];
        if q.len() == 0 {
            rows.push(app_row(e, boosts[n - 1]))
        } else {
            match best_field_score(q, e.name, e.aliases) {
                Some(s) => rows.push(app_row(e, (s * 100 + boosts[n - 1]) as i64)),
                None => rows,
            }
        }
    }
}

/// The largest fuzzy score times 100, which a boost must leave room for.
pub const MAX_FUZZY_POINTS: i64 = 429_496_729_500;

pub struct AppsProvider {
    entries: Vec<AppEntry>,
}

impl AppsProvider {
    pub closed spec fn entries_view(&self) -> Seq<AppEntryView> {
        app_views(self.entries@)
    }

    pub fn new() -> (r: Self)
        ensures
            r.entries_view() == Seq::<AppEntryView>::empty(),
    {
        let r = AppsProvider { entries: Vec::new() };
        assert(r.entries_view() =~= Seq::<AppEntryView>::empty());
        r
    }

    pub fn set_entries(&mut self, entries: Vec<AppEntry>)
        ensures
            final(self).entries_view() == app_views(entries@),
    {
        self.entries = entries;
    }

    /// The entries' ids, whose usage gives their frecency boosts.
    pub fn ids(&self) -> (r: Vec<String>)
        ensures
            string_views(r@) == ids_of(self.entries_view()),
    {
        let mut out: Vec<String> = Vec::new();
        let mut i: usize = 0;
        while i < self.entries.len()
            invariant
                i <= self.entries.len(),
                out@.len() == i,
                forall|k: int| 0 <= k < i ==> #[trigger] out@[k]@ == self.entries@[k]@.id,
            decreases self.entries.len() - i,
        {
            out.push(self.entries[i].id.clone());
            i += 1;
        }
        assert(string_views(out@) =~= ids_of(self.entries_view()));
        out
    }

    /// The rows for `q`, `boosts[i]` being the frecency boost of entry `i`.
    pub fn query(&self, q: &Query, boosts: &Vec<i64>) -> (items: Vec<Item>)
        requires
            boosts@.len() == self.entries_view().len(),
            forall|i: int| 0 <= i < boosts@.len() ==> #[trigger] boosts@[i] <= i64::MAX - MAX_FUZZY_POINTS,
        ensures
            item_views(items@) == app_rows_upto(self.entries_view(), q.trimmed@, boosts@, boosts@.len() as int),
    {
        let ghost es = app_views(self.entries@);
        let mut items: Vec<Item> = Vec::new();
        let mut matcher = new_matcher();
        let empty = q.is_empty();
        let mut i: usize = 0;
        while i < self.entries.len()
            invariant
                i <= self.entries.len(),
                es == app_views(self.entries@),
                boosts@.len() == self.entries@.len(),
                forall|k: int| 0 <= k < boosts@.len() ==> #[trigger] boosts@[k] <= i64::MAX - MAX_FUZZY_POINTS,
                empty == (q.trimmed@.len() == 0),
                item_views(items@) == app_rows_upto(es, q.trimmed@, boosts@, i as int),
            decreases self.entries.len() - i,
        {
            let e = &self.entries[i];
            assert(es[i as int] == e@);
            let boost = boosts[i];
            let score = if empty {
                Some(boost)
            } else {
                match score_fields(q.trimmed.as_str(), e.name.as_str(), &e.aliases, &mut matcher) {
                    Some(s) => Some(s as i64 * 100 + boost),
                    None => None,
                }
            };
            assert(e.aliases@.map_values(|f: String| f@) =~= e@.aliases);
            if let Some(score) = score {
                let mut item = Item::new(PROVIDER, "Application", e.id.clone(), e.name.clone());
                item.subtitle = match &e.subtitle {
                    Some(s) => Some(s.clone()),
                    None => None,
                };
                item.icon = match &e.icon {
                    Some(s) => Some(s.clone()),
                    None => None,
                };
                item.glyph = Some(copy_str("\u{25a2}"));
                item.score = score;
                let ghost before = items@;
                items.push(item);
                assert(item_views(items@) =~= item_views(before).push(items@[items@.len() - 1]@));
            }
            i += 1;
        }
        items
    }

    /// Launches the first entry with this `id` through `gio launch`, which
    /// handles Exec field codes, `Terminal=` and `DBusActivatable=`.
    pub fn activate(&self, id: &str, _action: Action) -> (r: Result<Activation, String>)
        ensures
            (exists|i: int| 0 <= i < self.entries_view().len() && self.entries_view()[i].id == id@) ==> (r matches Ok(
                Activation::Launch { program, args },
            ) && program@ == "gio"@ && args@.len() == 2 && args@[0]@ == "launch"@ && exists|i: int|
                0 <= i < self.entries_view().len() && self.entries_view()[i].id == id@ && (forall|k: int|
                    0 <= k < i ==> #[trigger] self.entries_view()[k].id != id@) && args@[1]@
                    == self.entries_view()[i].path),
            !(exists|i: int| 0 <= i < self.entries_view().len() && self.entries_view()[i].id == id@) ==> (r matches Err(
                e,
            ) && e@ == "unknown app: "@ + id@),
    {
        let ghost es = app_views(self.entries@);
        let mut i: usize = 0;
        while i < self.entries.len()
            invariant
                i <= self.entries.len(),
                es == app_views(self.entries@),
                forall|k: int| 0 <= k < i ==> es[k].id != id@,
            decreases self.entries.len() - i,
        {
            if str_eq(self.entries[i].id.as_str(), id) {
                assert(es[i as int].id == id@);
                let mut args: Vec<String> = Vec::new();
                args.push(copy_str("launch"));
                args.push(self.entries[i].path.clone());
                return Ok(Activation::Launch { program: copy_str("gio"), args });
            }
            i += 1;
        }
        Err(concat("unknown app: ", id))
    }
}

} // verus!
