//! User plugins: a JSON manifest in `~/.config/omarchycast/plugins/` adds
//! static commands, fuzzy-matched like applications, and optionally a query
//! program run when the query starts with the plugin's keyword, which prints
//! one JSON object per line.
//!
//! Everything a plugin supplies is untrusted input: every field goes through
//! the same clamps as the built-in providers, and a command is only ever an
//! argv (never a shell string) of bounded size. Reading manifests and running
//! the query program happen around the library; what is indexed, which rows
//! show and what activation does is decided here.

use crate::limits::{clamp_text, clamped, MAX_TITLE_CHARS};
use crate::providers::omarchy::{parse_index, parse_index_spec};
use crate::search::{Action, Activation, Item, ItemView, Query};
use crate::search::rank::item_views;
use crate::sorted::{insert_sorted, keys_sorted, pairs_map};
use crate::search::score::{best_field_score, new_matcher, score_fields};
use crate::text::{
    utf8_text,
    byte_len, byte_len_exceeds, chars_of, concat, copy_str, copy_strings, decimal, has_prefix,
    lines, lines_of, opt_view, seq_starts_with, slice_vec, string_from_chars, string_views,
    to_lowercase, trim, trim_chars, unicode_lowercase, usize_to_string, views,
};
use vstd::prelude::*;

verus! {

pub const PROVIDER: &'static str = "plug";

/// Most manifests read.
pub const MAX_PLUGINS: usize = 64;

/// The manifest files that are read: the paths found, each once, in
/// ascending order, and of those the first `MAX_PLUGINS`.
pub fn manifest_order(paths: Vec<String>) -> (r: Vec<String>)
    ensures
        exists|sorted: Seq<(Seq<char>, ())>|
            #![trigger keys_sorted(sorted)]
            keys_sorted(sorted) && pairs_map(sorted).dom() == string_views(paths@).to_set() && string_views(r@)
                == sorted.take(
                if sorted.len() < MAX_PLUGINS {
                    sorted.len() as int
                } else {
                    MAX_PLUGINS as int
                },
            ).map_values(|p: (Seq<char>, ())| p.0),
{
    let ghost nv = string_views(paths@);
    let total = paths.len();
    let mut paths = paths;
    let mut set: Vec<(String, ())> = Vec::new();
    let mut k: usize = 0;
    assert(pairs_map(set@.map_values(|p: (String, ())| (p.0@, p.1))).dom() =~= nv.take(0).to_set());
    while paths.len() > 0
        invariant
            k + paths@.len() == nv.len(),
            nv.len() == total,
            string_views(paths@) == nv.skip(k as int),
            keys_sorted(set@.map_values(|p: (String, ())| (p.0@, p.1))),
            pairs_map(set@.map_values(|p: (String, ())| (p.0@, p.1))).dom() == nv.take(k as int).to_set(),
        decreases paths.len(),
    {
        let ghost cur = paths@;
        let path = paths.remove(0);
        assert(string_views(cur)[0] == path@);
        assert(nv.skip(k as int)[0] == nv[k as int]);
        let ghost path_v = path@;
        insert_sorted(&mut set, path, ());
        assert(nv.take(k + 1) =~= nv.take(k as int).push(path_v));
        proof {
            nv.take(k as int).lemma_push_to_set_commute(path_v);
        }
        assert(string_views(paths@) =~= string_views(cur).drop_first());
        assert(string_views(paths@) =~= nv.skip(k + 1));
        k += 1;
    }
    assert(nv.take(k as int) =~= nv);
    let ghost sorted = set@.map_values(|p: (String, ())| (p.0@, p.1));
    let n = if set.len() < MAX_PLUGINS {
        set.len()
    } else {
        MAX_PLUGINS
    };
    let mut out: Vec<String> = Vec::new();
    let mut i: usize = 0;
    while i < n
        invariant
            i <= n <= set.len(),
            sorted == set@.map_values(|p: (String, ())| (p.0@, p.1)),
            string_views(out@) == sorted.take(i as int).map_values(|p: (Seq<char>, ())| p.0),
        decreases n - i,
    {
        out.push(set[i].0.clone());
        assert(sorted.take(i + 1).map_values(|p: (Seq<char>, ())| p.0) =~= sorted.take(i as int).map_values(
            |p: (Seq<char>, ())| p.0,
        ).push(sorted[i as int].0));
        assert(string_views(out@) =~= string_views(out@.drop_last()).push(out@[i as int]@));
        i += 1;
    }
    assert(keys_sorted(sorted));
    out
}

/// Most commands one manifest contributes.
pub const MAX_COMMANDS_PER_PLUGIN: usize = 128;

/// Most items in an argv.
pub const MAX_ARGV_ITEMS: usize = 64;

/// Longest argument, in bytes.
pub const MAX_ARG_BYTES: usize = 4096;

/// Most lines of a query program's output looked at.
pub const MAX_DYNAMIC_ITEMS: usize = 32;

/// Longest text a row may copy.
pub const MAX_COPY_CHARS: usize = 8192;

/// Longest plugin name kept.
pub const MAX_PLUGIN_NAME_CHARS: usize = 48;

/// Longest keyword kept.
pub const MAX_KEYWORD_CHARS: usize = 24;

/// The directory manifests are read from.
pub fn plugins_dir() -> (r: String)
    ensures
        exists|base: Option<Seq<char>>| r@ == crate::config::in_config_dir(base, "omarchycast/plugins"@),
{
    let base = crate::config::config_dir();
    let ghost b = opt_view(base);
    let r = crate::config::in_config_dir_of(base, "omarchycast/plugins");
    assert(r@ == crate::config::in_config_dir(b, "omarchycast/plugins"@));
    r
}

/// Why an argv is refused, if it is.
pub open spec fn argv_problem(argv: Seq<Seq<char>>) -> Option<Seq<char>> {
    if argv.len() == 0 {
        Some("empty command"@)
    } else if argv.len() > MAX_ARGV_ITEMS {
        Some("too many arguments"@)
    } else if exists|i: int| 0 <= i < argv.len() && byte_len(#[trigger] argv[i]) > MAX_ARG_BYTES {
        Some("argument too long"@)
    } else {
        None
    }
}

/// An argv is run only when it is non-empty, has at most `MAX_ARGV_ITEMS`
/// items and no item longer than `MAX_ARG_BYTES` bytes.
pub fn valid_argv(argv: &Vec<String>) -> (r: Result<(), String>)
    ensures
        match argv_problem(string_views(argv@)) {
            None => r is Ok,
            Some(e) => r matches Err(m) && m@ == e,
        },
{
    if argv.len() == 0 {
        return Err(copy_str("empty command"));
    }
    if argv.len() > MAX_ARGV_ITEMS {
        return Err(copy_str("too many arguments"));
    }
    let ghost sv = string_views(argv@);
    let mut i: usize = 0;
    while i < argv.len()
        invariant
            i <= argv.len(),
            0 < argv.len() <= MAX_ARGV_ITEMS,
            sv == string_views(argv@),
            forall|k: int| 0 <= k < i ==> byte_len(#[trigger] sv[k]) <= MAX_ARG_BYTES,
        decreases argv.len() - i,
    {
        let a = chars_of(argv[i].as_str());
        if byte_len_exceeds(&a, MAX_ARG_BYTES) {
            assert(byte_len(sv[i as int]) > MAX_ARG_BYTES);
            return Err(copy_str("argument too long"));
        }
        i += 1;
    }
    Ok(())
}

/// One action a row can perform. Argv only: a plugin never hands over a
/// shell string to interpret.
pub enum Invocation {
    Exec(Vec<String>),
    Copy(String),
}

pub enum InvocationView {
    Exec(Seq<Seq<char>>),
    Copy(Seq<char>),
}

impl View for Invocation {
    type V = InvocationView;

    open spec fn view(&self) -> InvocationView {
        match self {
            Invocation::Exec(a) => InvocationView::Exec(string_views(a@)),
            Invocation::Copy(t) => InvocationView::Copy(t@),
        }
    }
}

/// The one action of a command or result: copying (clamped) text when it
/// names only that, running its argv when it names only that and the argv
/// is valid; none when it names both, neither, or an invalid argv.
pub open spec fn invocation_spec(argv: Seq<Seq<char>>, copy: Option<Seq<char>>) -> Option<InvocationView> {
    if argv.len() == 0 && copy is Some {
        Some(InvocationView::Copy(clamped(copy.unwrap(), MAX_COPY_CHARS as nat)))
    } else if copy is None && argv_problem(argv) is None {
        Some(InvocationView::Exec(argv))
    } else {
        None
    }
}

pub fn invocation_for(argv: Vec<String>, copy: Option<String>) -> (r: Option<Invocation>)
    ensures
        match r {
            Some(i) => invocation_spec(string_views(argv@), opt_view(copy)) == Some(i@),
            None => invocation_spec(string_views(argv@), opt_view(copy)) is None,
        },
{
    if argv.len() == 0 {
        if let Some(text) = &copy {
            return Some(Invocation::Copy(clamp_text(text.as_str(), MAX_COPY_CHARS)));
        }
    }
    if copy.is_none() && valid_argv(&argv).is_ok() {
        return Some(Invocation::Exec(argv));
    }
    None
}

fn copy_invocation(i: &Invocation) -> (r: Invocation)
    ensures
        r@ == i@,
{
    match i {
        Invocation::Exec(a) => Invocation::Exec(copy_strings(a)),
        Invocation::Copy(t) => Invocation::Copy(t.clone()),
    }
}

/// What activating an invocation asks for: running its argv (checked once
/// more), or copying its text.
pub open spec fn invocation_outcome(i: InvocationView) -> Result<(Seq<char>, Seq<Seq<char>>), Seq<char>> {
    match i {
        InvocationView::Exec(argv) => match argv_problem(argv) {
            Some(e) => Err(e),
            None => Ok((argv[0], argv.skip(1))),
        },
        InvocationView::Copy(t) => Ok((Seq::empty(), seq![t])),
    }
}

/// The activation an invocation asks for.
pub open spec fn activation_matches(r: Result<Activation, String>, i: InvocationView) -> bool {
    match i {
        InvocationView::Exec(argv) => match argv_problem(argv) {
            Some(e) => r matches Err(m) && m@ == e,
            None => r matches Ok(Activation::Launch { program, args }) && program@ == argv[0]
                && string_views(args@) == argv.skip(1),
        },
        InvocationView::Copy(t) => r matches Ok(Activation::Copy { text }) && text@ == t,
    }
}

fn activate_invocation(invocation: &Invocation) -> (r: Result<Activation, String>)
    ensures
        activation_matches(r, invocation@),
{
    match invocation {
        Invocation::Exec(argv) => {
            match valid_argv(argv) {
                Ok(()) => {},
                Err(e) => return Err(e),
            }
            let program = argv[0].clone();
            let mut args: Vec<String> = Vec::new();
            let mut k: usize = 1;
            while k < argv.len()
                invariant
                    1 <= k <= argv.len(),
                    string_views(args@) == string_views(argv@).skip(1).take(k - 1),
                decreases argv.len() - k,
            {
                let ghost before = args@;
                let next = argv[k].clone();
                assert(next@ == string_views(argv@).skip(1)[k - 1]);
                args.push(next);
                assert(string_views(args@) =~= string_views(before).push(next@));
                assert(string_views(argv@).skip(1).take(k as int) =~= string_views(argv@).skip(1).take(k - 1).push(
                    next@,
                ));
                k += 1;
            }
            assert(string_views(argv@).skip(1).take(k - 1) =~= string_views(argv@).skip(1));
            Ok(Activation::Launch { program, args })
        },
        Invocation::Copy(text) => Ok(Activation::Copy { text: text.clone() }),
    }
}

// --------------------------------------------------------------- manifests

/// A static command as a manifest lists it.
pub struct ManifestCommand {
    pub title: String,
    pub subtitle: Option<String>,
    pub argv: Vec<String>,
    pub copy: Option<String>,
    pub glyph: Option<String>,
}

/// A plugin manifest.
pub struct Manifest {
    pub name: String,
    pub keyword: Option<String>,
    pub query: Vec<String>,
    pub commands: Vec<ManifestCommand>,
}

pub struct StaticCommandView {
    pub plugin: Seq<char>,
    pub title: Seq<char>,
    pub subtitle: Option<Seq<char>>,
    pub glyph: Option<Seq<char>>,
    pub invocation: InvocationView,
}

/// A command contributed by a plugin.
pub struct StaticCommand {
    plugin: String,
    title: String,
    subtitle: Option<String>,
    glyph: Option<String>,
    invocation: Invocation,
}

impl View for StaticCommand {
    type V = StaticCommandView;

    closed spec fn view(&self) -> StaticCommandView {
        StaticCommandView {
            plugin: self.plugin@,
            title: self.title@,
            subtitle: opt_view(self.subtitle),
            glyph: opt_view(self.glyph),
            invocation: self.invocation@,
        }
    }
}

pub struct DynamicSourceView {
    pub plugin: Seq<char>,
    pub keyword: Seq<char>,
    pub argv: Seq<Seq<char>>,
}

/// A plugin's query program, run when the query starts with its keyword.
pub struct DynamicSource {
    plugin: String,
    keyword: String,
    argv: Vec<String>,
}

impl View for DynamicSource {
    type V = DynamicSourceView;

    closed spec fn view(&self) -> DynamicSourceView {
        DynamicSourceView { plugin: self.plugin@, keyword: self.keyword@, argv: string_views(self.argv@) }
    }
}

impl DynamicSource {
    /// The query program's argv, to which the needle is appended.
    pub fn argv(&self) -> (r: Vec<String>)
        ensures
            string_views(r@) == self@.argv,
    {
        copy_strings(&self.argv)
    }
}

pub open spec fn command_views(v: Seq<StaticCommand>) -> Seq<StaticCommandView> {
    Seq::new(v.len(), |i: int| v[i]@)
}

pub open spec fn source_views(v: Seq<DynamicSource>) -> Seq<DynamicSourceView> {
    Seq::new(v.len(), |i: int| v[i]@)
}

/// The commands a manifest's command list contributes (at most
/// `MAX_COMMANDS_PER_PLUGIN` looked at; one with no valid action is
/// skipped without taking the rest with it).
pub open spec fn manifest_commands(plugin: Seq<char>, cs: Seq<ManifestCommand>) -> Seq<StaticCommandView>
    decreases cs.len(),
{
    if cs.len() == 0 {
        Seq::empty()
    } else {
        let rest = manifest_commands(plugin, cs.drop_last());
        let c = cs.last();
        match invocation_spec(string_views(c.argv@), opt_view(c.copy)) {
            Some(inv) => rest.push(
                StaticCommandView {
                    plugin,
                    title: clamped(c.title@, MAX_TITLE_CHARS as nat),
                    subtitle: opt_view(c.subtitle),
                    glyph: opt_view(c.glyph),
                    invocation: inv,
                },
            ),
            None => rest,
        }
    }
}

pub open spec fn plugin_name(m: Manifest) -> Seq<char> {
    clamped(m.name@, MAX_PLUGIN_NAME_CHARS as nat)
}

pub open spec fn first_commands(m: Manifest) -> Seq<ManifestCommand> {
    if m.commands@.len() > MAX_COMMANDS_PER_PLUGIN {
        m.commands@.take(MAX_COMMANDS_PER_PLUGIN as int)
    } else {
        m.commands@
    }
}

/// The query program a manifest contributes, if it names a keyword that is
/// not empty once clamped and lowercased, and a valid argv.
pub open spec fn manifest_source(m: Manifest) -> Option<DynamicSourceView> {
    match m.keyword {
        Some(k) => {
            let kw = unicode_lowercase(clamped(k@, MAX_KEYWORD_CHARS as nat));
            if kw.len() > 0 && argv_problem(string_views(m.query@)) is None {
                Some(DynamicSourceView { plugin: plugin_name(m), keyword: kw, argv: string_views(m.query@) })
            } else {
                None
            }
        },
        None => None,
    }
}

/// What the manifests contribute, in order; a manifest whose name is empty
/// once clamped contributes nothing.
pub open spec fn indexed(ms: Seq<Manifest>) -> (Seq<StaticCommandView>, Seq<DynamicSourceView>)
    decreases ms.len(),
{
    if ms.len() == 0 {
        (Seq::empty(), Seq::empty())
    } else {
        let (cs, ss) = indexed(ms.drop_last());
        let m = ms.last();
        if plugin_name(m).len() == 0 {
            (cs, ss)
        } else {
            (
                cs + manifest_commands(plugin_name(m), first_commands(m)),
                match manifest_source(m) {
                    Some(s) => ss.push(s),
                    None => ss,
                },
            )
        }
    }
}

// ---------------------------------------------------------- script output

/// The non-blank lines, trimmed, among the first `MAX_DYNAMIC_ITEMS` lines
/// of a text.
pub open spec fn result_lines(ls: Seq<Seq<char>>) -> Seq<Seq<char>>
    decreases ls.len(),
{
    if ls.len() == 0 {
        Seq::empty()
    } else if trim(ls.last()).len() == 0 {
        result_lines(ls.drop_last())
    } else {
        result_lines(ls.drop_last()).push(trim(ls.last()))
    }
}

pub open spec fn script_lines_spec(output: Seq<u8>) -> Option<Seq<Seq<char>>> {
    if vstd::utf8::valid_utf8(output) {
        let ls = lines_of(vstd::utf8::decode_utf8(output));
        Some(result_lines(if ls.len() > MAX_DYNAMIC_ITEMS { ls.take(MAX_DYNAMIC_ITEMS as int) } else { ls }))
    } else {
        None
    }
}

/// The lines of a query program's output that are worth parsing: none when
/// it is not UTF-8, else the non-blank ones among the first
/// `MAX_DYNAMIC_ITEMS`, trimmed.
pub fn script_lines(output: Vec<u8>) -> (r: Option<Vec<String>>)
    ensures
        match r {
            Some(v) => script_lines_spec(output@) == Some(string_views(v@)),
            None => script_lines_spec(output@) is None,
        },
{
    let ghost bytes = output@;
    let text = match utf8_text(output) {
        Some(t) => t,
        None => return None,
    };
    let v = chars_of(text.as_str());
    let ls = lines(&v);
    let ghost all = views(ls@);
    let ghost first = if all.len() > MAX_DYNAMIC_ITEMS { all.take(MAX_DYNAMIC_ITEMS as int) } else { all };
    let n = if ls.len() > MAX_DYNAMIC_ITEMS {
        MAX_DYNAMIC_ITEMS
    } else {
        ls.len()
    };
    let mut out: Vec<String> = Vec::new();
    let mut i: usize = 0;
    assert(first.take(0) =~= Seq::<Seq<char>>::empty());
    while i < n
        invariant
            i <= n <= ls.len(),
            all == views(ls@),
            n == first.len(),
            forall|k: int| 0 <= k < n ==> first[k] == all[k],
            string_views(out@) == result_lines(first.take(i as int)),
        decreases n - i,
    {
        assert(first.take(i + 1).drop_last() =~= first.take(i as int));
        assert(first.take(i + 1).last() == ls@[i as int]@);
        let t = trim_chars(&ls[i]);
        if t.len() > 0 {
            let ghost before = out@;
            out.push(string_from_chars(&t));
            assert(string_views(out@) =~= string_views(before).push(t@));
        }
        i += 1;
    }
    assert(first.take(i as int) =~= first);
    Some(out)
}

/// One line of a query program's output, as parsed.
pub struct ScriptItem {
    pub title: String,
    pub subtitle: Option<String>,
    pub accessory: Option<String>,
    pub argv: Vec<String>,
    pub copy: Option<String>,
}

pub open spec fn dynamic_row(plugin: Seq<char>, index: int, s: ScriptItem) -> ItemView {
    ItemView {
        id: PROVIDER@ + ":"@ + ("dyn:"@ + decimal(index)),
        provider: PROVIDER@,
        kind: "Plugin"@,
        title: s.title@,
        subtitle: match opt_view(s.subtitle) {
            Some(t) => Some(t),
            None => Some(plugin),
        },
        icon: None,
        glyph: Some("\u{2699}"@),
        accessory: opt_view(s.accessory),
        score: (900_000 - index) as i64,
    }
}

/// The results of a query program: the items with one valid action, in
/// printed order, ranked like calculator answers, and the actions they run.
pub open spec fn dynamic_results_spec(plugin: Seq<char>, items: Seq<ScriptItem>) -> (Seq<ItemView>, Seq<InvocationView>)
    decreases items.len(),
{
    if items.len() == 0 {
        (Seq::empty(), Seq::empty())
    } else {
        let (rows, invs) = dynamic_results_spec(plugin, items.drop_last());
        let s = items.last();
        match invocation_spec(string_views(s.argv@), opt_view(s.copy)) {
            Some(inv) => (rows.push(dynamic_row(plugin, invs.len() as int, s)), invs.push(inv)),
            None => (rows, invs),
        }
    }
}

proof fn lemma_dynamic_counts(plugin: Seq<char>, items: Seq<ScriptItem>)
    ensures
        dynamic_results_spec(plugin, items).0.len() == dynamic_results_spec(plugin, items).1.len(),
        dynamic_results_spec(plugin, items).1.len() <= items.len(),
    decreases items.len(),
{
    if items.len() > 0 {
        lemma_dynamic_counts(plugin, items.drop_last());
    }
}

// ----------------------------------------------------------------- provider

pub open spec fn command_row(index: int, c: StaticCommandView, relevance: u32) -> ItemView {
    ItemView {
        id: PROVIDER@ + ":"@ + ("cmd:"@ + decimal(index)),
        provider: PROVIDER@,
        kind: "Plugin"@,
        title: c.title,
        subtitle: match c.subtitle {
            Some(s) => Some(s),
            None => Some(c.plugin),
        },
        icon: None,
        glyph: match c.glyph {
            Some(g) => Some(g),
            None => Some("\u{2699}"@),
        },
        accessory: None,
        score: (relevance * 100) as i64,
    }
}

/// The rows of the first `n` commands matching `q` by title, or weaker, by
/// plugin name.
pub open spec fn command_rows_upto(cs: Seq<StaticCommandView>, q: Seq<char>, n: int) -> Seq<ItemView>
    decreases n,
{
    if n <= 0 {
        Seq::empty()
    } else {
        let rows = command_rows_upto(cs, q, n - 1);
        match best_field_score(q, cs[n - 1].title, seq![cs[n - 1].plugin]) {
            Some(s) => rows.push(command_row(n - 1, cs[n - 1], s)),
            None => rows,
        }
    }
}

/// The first source whose keyword the query starts with, followed by a
/// space, and the rest of the query after that space, trimmed.
pub open spec fn source_for(q: Seq<char>, ss: Seq<DynamicSourceView>, i: int) -> Option<(int, Seq<char>)>
    decreases ss.len() - i,
{
    if i < 0 || i >= ss.len() {
        None
    } else {
        let k = ss[i].keyword;
        if has_prefix(q, k) && has_prefix(q.skip(k.len() as int), " "@) {
            Some((i, trim(q.skip(k.len() as int + 1))))
        } else {
            source_for(q, ss, i + 1)
        }
    }
}

/// What activating a plugin row asks for.
pub open spec fn plugin_activation(
    id: Seq<char>,
    cs: Seq<StaticCommandView>,
    last: Seq<InvocationView>,
) -> Result<InvocationView, Seq<char>> {
    if has_prefix(id, "cmd:"@) {
        match parse_index_spec(id.skip(4)) {
            Err(e) => Err(e),
            Ok(i) => if i < cs.len() {
                Ok(cs[i].invocation)
            } else {
                Err("unknown command"@)
            },
        }
    } else if has_prefix(id, "dyn:"@) {
        match parse_index_spec(id.skip(4)) {
            Err(e) => Err(e),
            Ok(i) => if i < last.len() {
                Ok(last[i])
            } else {
                Err("stale plugin result"@)
            },
        }
    } else {
        Err("unknown plugin item: "@ + id)
    }
}

pub struct PluginsProvider {
    commands: Vec<StaticCommand>,
    sources: Vec<DynamicSource>,
    /// The actions of the last query program's results, so activation
    /// refers to what is on screen instead of running the program again.
    last_dynamic: Vec<Invocation>,
}

impl PluginsProvider {
    pub closed spec fn commands_view(&self) -> Seq<StaticCommandView> {
        command_views(self.commands@)
    }

    pub closed spec fn sources_view(&self) -> Seq<DynamicSourceView> {
        source_views(self.sources@)
    }

    pub closed spec fn last_dynamic_view(&self) -> Seq<InvocationView> {
        Seq::new(self.last_dynamic@.len(), |i: int| self.last_dynamic@[i]@)
    }

    pub fn new() -> (r: Self)
        ensures
            r.commands_view() == Seq::<StaticCommandView>::empty(),
            r.sources_view() == Seq::<DynamicSourceView>::empty(),
            r.last_dynamic_view() == Seq::<InvocationView>::empty(),
    {
        let r = PluginsProvider { commands: Vec::new(), sources: Vec::new(), last_dynamic: Vec::new() };
        assert(r.commands_view() =~= Seq::<StaticCommandView>::empty());
        assert(r.sources_view() =~= Seq::<DynamicSourceView>::empty());
        assert(r.last_dynamic_view() =~= Seq::<InvocationView>::empty());
        r
    }

    /// Indexes the manifests read from the plugins directory.
    pub fn set_manifests(&mut self, manifests: Vec<Manifest>)
        ensures
            (final(self).commands_view(), final(self).sources_view()) == indexed(manifests@),
            final(self).last_dynamic_view() == old(self).last_dynamic_view(),
    {
        let ghost ms = manifests@;
        let mut manifests = manifests;
        let total = manifests.len();
        let mut commands: Vec<StaticCommand> = Vec::new();
        let mut sources: Vec<DynamicSource> = Vec::new();
        let mut k: usize = 0;
        assert(ms.take(0) =~= Seq::<Manifest>::empty());
        assert(command_views(commands@) =~= Seq::<StaticCommandView>::empty());
        assert(source_views(sources@) =~= Seq::<DynamicSourceView>::empty());
        while manifests.len() > 0
            invariant
                k + manifests@.len() == ms.len(),
                ms.len() == total,
                manifests@ == ms.skip(k as int),
                (command_views(commands@), source_views(sources@)) == indexed(ms.take(k as int)),
            decreases manifests.len(),
        {
            let ghost cur = manifests@;
            let m = manifests.remove(0);
            assert(cur[0] == m);
            assert(ms.skip(k as int)[0] == ms[k as int]);
            assert(ms.take(k + 1).drop_last() =~= ms.take(k as int));
            assert(ms.take(k + 1).last() == m);
            let plugin = clamp_text(m.name.as_str(), MAX_PLUGIN_NAME_CHARS);
            if !plugin.as_str().is_empty() {
                let ghost cs0 = command_views(commands@);
                let ghost fc = first_commands(m);
                let ghost mc = m.commands@;
                let limit = if m.commands.len() > MAX_COMMANDS_PER_PLUGIN {
                    MAX_COMMANDS_PER_PLUGIN
                } else {
                    m.commands.len()
                };
                let mut cmds = m.commands;
                let mut j: usize = 0;
                assert(fc.take(0) =~= Seq::<ManifestCommand>::empty());
                assert(cs0 + manifest_commands(plugin@, fc.take(0)) =~= cs0);
                while j < limit
                    invariant
                        j <= limit <= mc.len(),
                        limit == fc.len(),
                        cmds@ == mc.skip(j as int),
                        forall|x: int| 0 <= x < limit ==> #[trigger] fc[x] == mc[x],
                        command_views(commands@) == cs0 + manifest_commands(plugin@, fc.take(j as int)),
                    decreases limit - j,
                {
                    let ghost c_cur = cmds@;
                    let c = cmds.remove(0);
                    assert(c_cur[0] == c);
                    assert(mc.skip(j as int)[0] == mc[j as int]);
                    assert(fc.take(j + 1).drop_last() =~= fc.take(j as int));
                    assert(fc.take(j + 1).last() == c);
                    let title = clamp_text(c.title.as_str(), MAX_TITLE_CHARS);
                    let ManifestCommand { title: _, subtitle, argv, copy, glyph } = c;
                    if let Some(invocation) = invocation_for(argv, copy) {
                        let cmd = StaticCommand { plugin: plugin.clone(), title, subtitle, glyph, invocation };
                        let ghost before = commands@;
                        commands.push(cmd);
                        assert(command_views(commands@) =~= command_views(before).push(cmd@));
                    }
                    assert(cmds@ =~= mc.skip(j + 1));
                    j += 1;
                }
                assert(fc.take(j as int) =~= fc);
                match &m.keyword {
                    Some(kw) => {
                        let clamped_kw = clamp_text(kw.as_str(), MAX_KEYWORD_CHARS);
                        let keyword = to_lowercase(clamped_kw.as_str());
                        if !keyword.as_str().is_empty() && valid_argv(&m.query).is_ok() {
                            let src = DynamicSource { plugin: plugin.clone(), keyword, argv: copy_strings(&m.query) };
                            let ghost before = sources@;
                            sources.push(src);
                            assert(source_views(sources@) =~= source_views(before).push(src@));
                        }
                    },
                    None => {},
                }
            }
            assert(manifests@ =~= ms.skip(k + 1));
            k += 1;
        }
        assert(ms.take(k as int) =~= ms);
        self.commands = commands;
        self.sources = sources;
    }

    /// The query program the query addresses, if any, and the needle it is
    /// handed: the rest of the query after the keyword and a space.
    pub fn source_for(&self, q: &Query) -> (r: Option<(usize, String)>)
        ensures
            q.trimmed@.len() == 0 ==> r is None,
            q.trimmed@.len() > 0 ==> match source_for(q.trimmed@, self.sources_view(), 0) {
                Some((i, needle)) => r matches Some((j, n)) && j == i && n@ == needle,
                None => r is None,
            },
    {
        if q.is_empty() {
            return None;
        }
        let qv = chars_of(q.trimmed.as_str());
        let ghost ss = source_views(self.sources@);
        let mut i: usize = 0;
        while i < self.sources.len()
            invariant
                i <= self.sources.len(),
                ss == source_views(self.sources@),
                qv@ == q.trimmed@,
                source_for(qv@, ss, 0) == source_for(qv@, ss, i as int),
            decreases self.sources.len() - i,
        {
            let kw = chars_of(self.sources[i].keyword.as_str());
            assert(ss[i as int].keyword == kw@);
            proof {
                reveal_strlit(" ");
            }
            if seq_starts_with(&qv, &kw) && qv.len() > kw.len() && qv[kw.len()] == ' ' {
                let rest = slice_vec(&qv, kw.len() + 1, qv.len());
                let needle = trim_chars(&rest);
                proof {
                    reveal_strlit(" ");
                    assert(qv@.skip(kw@.len() as int).subrange(0, 1) =~= seq![' ']);
                    assert(" "@ =~= seq![' ']);
                    assert(has_prefix(qv@.skip(kw@.len() as int), " "@));
                    assert(rest@ =~= qv@.skip(kw@.len() as int + 1));
                    assert(ss.len() == self.sources@.len());
                    assert(source_for(qv@, ss, i as int) == Some((i as int, needle@)));
                }
                return Some((i, string_from_chars(&needle)));
            }
            proof {
                if has_prefix(qv@, kw@) && has_prefix(qv@.skip(kw@.len() as int), " "@) {
                    assert(qv@.skip(kw@.len() as int).subrange(0, 1)[0] == qv@[kw@.len() as int]);
                }
            }
            i += 1;
        }
        None
    }

    /// The query program of source `index`.
    pub fn source(&self, index: usize) -> (r: Option<&DynamicSource>)
        ensures
            index < self.sources_view().len() ==> (r matches Some(s) && s@ == self.sources_view()[index as int]),
            index >= self.sources_view().len() ==> r is None,
    {
        if index < self.sources.len() {
            Some(&self.sources[index])
        } else {
            None
        }
    }

    /// The rows for what the query program of source `index` printed, parsed
    /// line by line (lines that did not parse left out). Their actions
    /// become the ones `dyn:` rows activate.
    pub fn dynamic_results(&mut self, index: usize, parsed: Vec<ScriptItem>) -> (items: Vec<Item>)
        requires
            index < old(self).sources_view().len(),
            parsed@.len() <= i64::MAX,
        ensures
            item_views(items@) == dynamic_results_spec(old(self).sources_view()[index as int].plugin, parsed@).0,
            final(self).last_dynamic_view() == dynamic_results_spec(
                old(self).sources_view()[index as int].plugin,
                parsed@,
            ).1,
            final(self).commands_view() == old(self).commands_view(),
            final(self).sources_view() == old(self).sources_view(),
    {
        let plugin = self.sources[index].plugin.clone();
        assert(plugin@ == self.sources_view()[index as int].plugin);
        let ghost ps = parsed@;
        let total = parsed.len();
        let mut parsed = parsed;
        let mut invocations: Vec<Invocation> = Vec::new();
        let mut items: Vec<Item> = Vec::new();
        let mut k: usize = 0;
        assert(ps.take(0) =~= Seq::<ScriptItem>::empty());
        while parsed.len() > 0
            invariant
                k + parsed@.len() == ps.len(),
                ps.len() == total,
                total <= i64::MAX,
                parsed@ == ps.skip(k as int),
                invocations@.len() <= k,
                item_views(items@) == dynamic_results_spec(plugin@, ps.take(k as int)).0,
                Seq::new(invocations@.len(), |i: int| invocations@[i]@) == dynamic_results_spec(plugin@, ps.take(k as int)).1,
            decreases parsed.len(),
        {
            let ghost cur = parsed@;
            let s = parsed.remove(0);
            assert(cur[0] == s);
            assert(ps.skip(k as int)[0] == ps[k as int]);
            assert(ps.take(k + 1).drop_last() =~= ps.take(k as int));
            assert(ps.take(k + 1).last() == s);
            let ScriptItem { title, subtitle, accessory, argv, copy } = s;
            if let Some(invocation) = invocation_for(argv, copy) {
                let index = invocations.len();
                let ghost before_inv = Seq::new(invocations@.len(), |i: int| invocations@[i]@);
                let ghost inv_v = invocation@;
                invocations.push(invocation);
                assert(Seq::new(invocations@.len(), |i: int| invocations@[i]@) =~= before_inv.push(inv_v));
                proof {
                    lemma_dynamic_counts(plugin@, ps.take(k as int));
                }
                let mut item = Item::new(PROVIDER, "Plugin", concat("dyn:", usize_to_string(index).as_str()), title);
                item.subtitle = match subtitle {
                    Some(t) => Some(t),
                    None => Some(plugin.clone()),
                };
                item.accessory = accessory;
                item.glyph = Some(copy_str("\u{2699}"));
                item.score = 900_000 - index as i64;
                let ghost before = items@;
                items.push(item);
                assert(item_views(items@) =~= item_views(before).push(items@[items@.len() - 1]@));
            }
            assert(parsed@ =~= ps.skip(k + 1));
            k += 1;
        }
        assert(ps.take(k as int) =~= ps);
        self.last_dynamic = invocations;
        items
    }

    /// The rows of the static commands matching `q`.
    pub fn static_items(&self, q: &Query) -> (items: Vec<Item>)
        ensures
            q.trimmed@.len() == 0 ==> item_views(items@) == Seq::<ItemView>::empty(),
            q.trimmed@.len() > 0 ==> item_views(items@) == command_rows_upto(
                self.commands_view(),
                q.trimmed@,
                self.commands_view().len() as int,
            ),
    {
        let mut items: Vec<Item> = Vec::new();
        if q.is_empty() {
            assert(item_views(items@) =~= Seq::<ItemView>::empty());
            return items;
        }
        let ghost cs = command_views(self.commands@);
        let mut matcher = new_matcher();
        let mut i: usize = 0;
        while i < self.commands.len()
            invariant
                i <= self.commands.len(),
                cs == command_views(self.commands@),
                item_views(items@) == command_rows_upto(cs, q.trimmed@, i as int),
            decreases self.commands.len() - i,
        {
            let c = &self.commands[i];
            assert(cs[i as int] == c@);
            let mut secondary: Vec<String> = Vec::new();
            secondary.push(c.plugin.clone());
            assert(secondary@.map_values(|f: String| f@) =~= seq![c@.plugin]);
            if let Some(relevance) = score_fields(q.trimmed.as_str(), c.title.as_str(), &secondary, &mut matcher) {
                let mut item = Item::new(PROVIDER, "Plugin", concat("cmd:", usize_to_string(i).as_str()), c.title.clone());
                item.subtitle = match &c.subtitle {
                    Some(s) => Some(s.clone()),
                    None => Some(c.plugin.clone()),
                };
                item.glyph = match &c.glyph {
                    Some(g) => Some(g.clone()),
                    None => Some(copy_str("\u{2699}")),
                };
                item.score = relevance as i64 * 100;
                let ghost before = items@;
                items.push(item);
                assert(item_views(items@) =~= item_views(before).push(items@[items@.len() - 1]@));
            }
            i += 1;
        }
        items
    }

    /// Runs or copies what the row `id` stands for.
    pub fn activate(&self, id: &str, _action: Action) -> (r: Result<Activation, String>)
        ensures
            match plugin_activation(id@, self.commands_view(), self.last_dynamic_view()) {
                Ok(inv) => activation_matches(r, inv),
                Err(e) => r matches Err(m) && m@ == e,
            },
    {
        let v = chars_of(id);
        let cmd = chars_of("cmd:");
        let dyn_ = chars_of("dyn:");
        proof {
            reveal_strlit("cmd:");
            reveal_strlit("dyn:");
        }
        if seq_starts_with(&v, &cmd) {
            let rest = string_from_chars(&slice_vec(&v, 4, v.len()));
            assert(rest@ =~= id@.skip(4));
            let index = match parse_index(rest.as_str()) {
                Ok(n) => n,
                Err(e) => return Err(e),
            };
            if index >= self.commands.len() {
                return Err(copy_str("unknown command"));
            }
            assert(command_views(self.commands@)[index as int] == self.commands@[index as int]@);
            return activate_invocation(&self.commands[index].invocation);
        }
        if seq_starts_with(&v, &dyn_) {
            let rest = string_from_chars(&slice_vec(&v, 4, v.len()));
            assert(rest@ =~= id@.skip(4));
            let index = match parse_index(rest.as_str()) {
                Ok(n) => n,
                Err(e) => return Err(e),
            };
            if index >= self.last_dynamic.len() {
                return Err(copy_str("stale plugin result"));
            }
            let invocation = copy_invocation(&self.last_dynamic[index]);
            return activate_invocation(&invocation);
        }
        Err(concat("unknown plugin item: ", id))
    }
}

} // verus!
