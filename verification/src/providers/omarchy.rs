//! Omarchy itself, searchable: every entry of the Omarchy menu, every
//! documented `omarchy` command that can run without arguments, and one row
//! per installed theme.
//!
//! The sources (`omarchy commands --json`, the menu definition files, the
//! theme directories) are read around the library; what becomes an entry,
//! how an entry runs and which entries a query finds is decided here.
//!
//! Menu actions are simple command strings by construction; anything that
//! smells of shell syntax is not executed directly: activation falls back to
//! summoning the menu at that entry, which is the surface built to run it.

use crate::search::{Action, Activation, Item, ItemView, Query};
use crate::search::rank::{item_views};
use crate::search::score::{best_field_score, fuzzy_score, new_matcher, score_fields};
use crate::sorted::{insert_sorted, keys_sorted, pairs_map};
use crate::text::{append_str, chars_of, concat, copy_str, decimal, is_digit, is_ws, is_whitespace, join, join_strings, opt_view, split_pieces, split_words, string_from_chars, string_views, views, words, Sep};
use vstd::prelude::*;

verus! {

pub const PROVIDER: &'static str = "oma";

/// Most entries kept in the index.
pub const MAX_ENTRIES: usize = 1500;

// ---------------------------------------------------------------- commands

/// Whether the brackets seen so far leave an unbracketed `<placeholder>`.
pub open spec fn bare_from(s: Seq<char>, depth: nat) -> bool
    decreases s.len(),
{
    if s.len() == 0 {
        true
    } else if s[0] == '[' {
        bare_from(s.drop_first(), depth + 1)
    } else if s[0] == ']' {
        bare_from(s.drop_first(), if depth > 0 { (depth - 1) as nat } else { 0 })
    } else if s[0] == '<' && depth == 0 {
        false
    } else {
        bare_from(s.drop_first(), depth)
    }
}

/// Only commands whose whole signature is optional can be run from a launcher
/// row: `[--status]` yes, `<pid>` no. Placeholders inside an optional
/// bracket, like `[--editor=<name>]`, do not disqualify a command.
pub fn runnable_bare(args: &str) -> (b: bool)
    ensures
        b == bare_from(args@, 0),
{
    let v = chars_of(args);
    let mut depth: u64 = 0;
    let mut i: usize = 0;
    assert(v@.skip(0) =~= v@);
    while i < v.len()
        invariant
            i <= v.len(),
            v@ == args@,
            depth <= i,
            bare_from(args@, 0) == bare_from(v@.skip(i as int), depth as nat),
        decreases v.len() - i,
    {
        let c = v[i];
        assert(v@.skip(i as int).drop_first() =~= v@.skip(i + 1));
        if c == '[' {
            depth += 1;
        } else if c == ']' {
            if depth > 0 {
                depth -= 1;
            }
        } else if c == '<' && depth == 0 {
            return false;
        }
        i += 1;
    }
    true
}

// -------------------------------------------------------------------- menu

/// Characters that make an action shell syntax rather than a plain command.
pub open spec fn is_shell_char(c: char) -> bool {
    c == '|' || c == '&' || c == ';' || c == '<' || c == '>' || c == '(' || c == ')' || c == '$'
        || c == '`' || c == '"' || c == '\'' || c == '\\' || c == '*' || c == '?' || c == '{'
        || c == '~' || c == '\n'
}

/// The argv of an action that is a plain space-separated command; none for
/// anything with shell syntax, which is left to the menu itself.
pub open spec fn plain_argv_spec(action: Seq<char>) -> Option<Seq<Seq<char>>> {
    if exists|i: int| 0 <= i < action.len() && is_shell_char(#[trigger] action[i]) {
        None
    } else if words(action, Sep::Whitespace).len() == 0 {
        None
    } else {
        Some(words(action, Sep::Whitespace))
    }
}

fn strings_of(ws: &Vec<Vec<char>>) -> (r: Vec<String>)
    ensures
        string_views(r@) == views(ws@),
{
    let mut out: Vec<String> = Vec::new();
    let mut i: usize = 0;
    while i < ws.len()
        invariant
            i <= ws.len(),
            out@.len() == i,
            forall|k: int| 0 <= k < i ==> #[trigger] out@[k]@ == ws@[k]@,
        decreases ws.len() - i,
    {
        out.push(string_from_chars(&ws[i]));
        i += 1;
    }
    assert(string_views(out@) =~= views(ws@));
    out
}

/// True when an action is a plain space-separated command we can run as
/// argv; the argv then holds no shell syntax at all.
pub fn plain_argv(action: &str) -> (r: Option<Vec<String>>)
    ensures
        match r {
            Some(argv) => plain_argv_spec(action@) == Some(string_views(argv@)),
            None => plain_argv_spec(action@) is None,
        },
        r is Some ==> forall|i: int| 0 <= i < action@.len() ==> !is_shell_char(#[trigger] action@[i]),
{
    let v = chars_of(action);
    let mut i: usize = 0;
    while i < v.len()
        invariant
            i <= v.len(),
            v@ == action@,
            forall|k: int| 0 <= k < i ==> !is_shell_char(#[trigger] v@[k]),
        decreases v.len() - i,
    {
        let c = v[i];
        if c == '|' || c == '&' || c == ';' || c == '<' || c == '>' || c == '(' || c == ')' || c == '$'
            || c == '`' || c == '"' || c == '\'' || c == '\\' || c == '*' || c == '?' || c == '{'
            || c == '~' || c == '\n' {
            assert(is_shell_char(action@[i as int]));
            return None;
        }
        i += 1;
    }
    let ws = split_words(&v, Sep::Whitespace);
    if ws.len() == 0 {
        return None;
    }
    Some(strings_of(&ws))
}

/// `s` from a line comment on: up to, not including, the next newline.
pub open spec fn skip_line(s: Seq<char>) -> Seq<char>
    decreases s.len(),
{
    if s.len() == 0 || s[0] == '\n' {
        s
    } else {
        skip_line(s.drop_first())
    }
}

/// `s` from inside a block comment on: past the closing `*/`, or nothing
/// when the comment is never closed.
pub open spec fn skip_block(s: Seq<char>) -> Seq<char>
    decreases s.len(),
{
    if s.len() < 2 {
        Seq::empty()
    } else if s[0] == '*' && s[1] == '/' {
        s.skip(2)
    } else {
        skip_block(s.drop_first())
    }
}

pub proof fn lemma_skip_line_len(s: Seq<char>)
    ensures
        skip_line(s).len() <= s.len(),
    decreases s.len(),
{
    if s.len() > 0 && s[0] != '\n' {
        lemma_skip_line_len(s.drop_first());
    }
}

pub proof fn lemma_skip_block_len(s: Seq<char>)
    ensures
        skip_block(s).len() <= s.len(),
    decreases s.len(),
{
    if s.len() >= 2 && !(s[0] == '*' && s[1] == '/') {
        lemma_skip_block_len(s.drop_first());
    }
}

/// A JSONC text with its `//` and `/* */` comments outside strings removed;
/// everything else, string contents included, is kept as it is. A backslash
/// inside a string carries the character after it along unread.
pub open spec fn strip_comments(s: Seq<char>, in_string: bool) -> Seq<char>
    decreases s.len(),
{
    if s.len() == 0 {
        Seq::empty()
    } else if in_string {
        if s[0] == '\\' && s.len() > 1 {
            seq![s[0], s[1]] + strip_comments(s.skip(2), true)
        } else {
            seq![s[0]] + strip_comments(s.drop_first(), s[0] != '"')
        }
    } else if s[0] == '"' {
        seq!['"'] + strip_comments(s.drop_first(), true)
    } else if s[0] == '/' && s.len() > 1 && s[1] == '/' {
        proof {
            lemma_skip_line_len(s.drop_first());
        }
        strip_comments(skip_line(s.drop_first()), false)
    } else if s[0] == '/' && s.len() > 1 && s[1] == '*' {
        proof {
            lemma_skip_block_len(s.skip(2));
        }
        strip_comments(skip_block(s.skip(2)), false)
    } else {
        seq![s[0]] + strip_comments(s.drop_first(), false)
    }
}

/// The next character of `s` that is not whitespace closes an object or an
/// array.
pub open spec fn closes_next(s: Seq<char>) -> bool
    decreases s.len(),
{
    if s.len() == 0 {
        false
    } else if is_ws(s[0]) {
        closes_next(s.drop_first())
    } else {
        s[0] == '}' || s[0] == ']'
    }
}

/// A text with its trailing commas outside strings removed: `, }` and `, ]`
/// are legal JSONC but not JSON. Strings are kept as they are.
pub open spec fn drop_trailing_commas(s: Seq<char>, in_string: bool) -> Seq<char>
    decreases s.len(),
{
    if s.len() == 0 {
        Seq::empty()
    } else if in_string {
        if s[0] == '\\' && s.len() > 1 {
            seq![s[0], s[1]] + drop_trailing_commas(s.skip(2), true)
        } else {
            seq![s[0]] + drop_trailing_commas(s.drop_first(), s[0] != '"')
        }
    } else if s[0] == '"' {
        seq!['"'] + drop_trailing_commas(s.drop_first(), true)
    } else if s[0] == ',' && closes_next(s.drop_first()) {
        drop_trailing_commas(s.drop_first(), false)
    } else {
        seq![s[0]] + drop_trailing_commas(s.drop_first(), false)
    }
}

/// What `jsonc_to_json` makes of a text: comments outside strings removed,
/// then trailing commas outside strings.
pub open spec fn jsonc_spec(raw: Seq<char>) -> Seq<char> {
    drop_trailing_commas(strip_comments(raw, false), false)
}

/// Strips `//` and `/* */` comments outside strings, then trailing commas, so
/// serde_json can parse the menu's JSONC. String-aware: a URL inside an
/// action survives.
pub fn jsonc_to_json(raw: &str) -> (r: String)
    ensures
        r@ == jsonc_spec(raw@),
{
    let v = chars_of(raw);
    let ghost b = v@;
    let n = v.len();
    let mut out: Vec<char> = Vec::new();
    let mut i: usize = 0;
    let mut in_string = false;
    assert(b.skip(0) =~= b);
    while i < n
        invariant
            n == v@.len(),
            b == v@,
            i <= n,
            out@ + strip_comments(b.skip(i as int), in_string) == strip_comments(b, false),
        decreases n - i,
    {
        let c = v[i];
        let ghost rest = b.skip(i as int);
        let ghost before = out@;
        assert(rest[0] == c);
        assert(rest.drop_first() =~= b.skip(i + 1));
        if in_string {
            out.push(c);
            if c == '\\' && i + 1 < n {
                out.push(v[i + 1]);
                assert(rest[1] == b[i + 1]);
                assert(rest.skip(2) =~= b.skip(i + 2));
                assert(out@ + strip_comments(b.skip(i + 2), true) =~= before + strip_comments(rest, true));
                i += 2;
            } else {
                if c == '"' {
                    in_string = false;
                }
                assert(out@ + strip_comments(b.skip(i + 1), in_string) =~= before + strip_comments(rest, true));
                i += 1;
            }
        } else if c == '"' {
            in_string = true;
            out.push('"');
            assert(out@ + strip_comments(b.skip(i + 1), true) =~= before + strip_comments(rest, false));
            i += 1;
        } else if c == '/' && i + 1 < n && v[i + 1] == '/' {
            assert(rest[1] == b[i + 1]);
            let ghost start = i;
            i += 1;
            while i < n && v[i] != '\n'
                invariant
                    n == v@.len(),
                    b == v@,
                    start < i <= n,
                    rest == b.skip(start as int),
                    rest.len() >= 1,
                    skip_line(rest.drop_first()) == skip_line(b.skip(i as int)),
                decreases n - i,
            {
                assert(b.skip(i as int).drop_first() =~= b.skip(i + 1));
                i += 1;
            }
            proof {
                if i < n {
                    assert(b.skip(i as int)[0] == b[i as int]);
                }
                assert(skip_line(b.skip(i as int)) == b.skip(i as int));
                assert(strip_comments(rest, false) == strip_comments(skip_line(rest.drop_first()), false));
            }
        } else if c == '/' && i + 1 < n && v[i + 1] == '*' {
            assert(rest[1] == b[i + 1]);
            assert(rest.skip(2) =~= b.skip(i + 2));
            let ghost start = i;
            i += 2;
            while n - i > 1 && !(v[i] == '*' && v[i + 1] == '/')
                invariant
                    n == v@.len(),
                    b == v@,
                    start < i <= n,
                    rest == b.skip(start as int),
                    skip_block(rest.skip(2)) == skip_block(b.skip(i as int)),
                decreases n - i,
            {
                assert(b.skip(i as int).drop_first() =~= b.skip(i + 1));
                i += 1;
            }
            if n - i > 1 {
                assert(b.skip(i as int).skip(2) =~= b.skip(i + 2));
                assert(b.skip(i as int)[0] == b[i as int] && b.skip(i as int)[1] == b[i + 1]);
                i += 2;
            } else {
                assert(b.skip(n as int) =~= Seq::<char>::empty());
                i = n;
            }
            assert(strip_comments(rest, false) == strip_comments(skip_block(rest.skip(2)), false));
        } else {
            out.push(c);
            assert(out@ + strip_comments(b.skip(i + 1), false) =~= before + strip_comments(rest, false));
            i += 1;
        }
    }
    assert(b.skip(i as int) =~= Seq::<char>::empty());
    assert(out@ + Seq::<char>::empty() =~= out@);
    let ghost s = out@;
    let m = out.len();
    let mut cleaned: Vec<char> = Vec::new();
    let mut idx: usize = 0;
    let mut quoted = false;
    assert(s.skip(0) =~= s);
    while idx < m
        invariant
            m == out@.len(),
            s == out@,
            idx <= m,
            cleaned@ + drop_trailing_commas(s.skip(idx as int), quoted) == drop_trailing_commas(s, false),
        decreases m - idx,
    {
        let c = out[idx];
        let ghost rest = s.skip(idx as int);
        let ghost before = cleaned@;
        assert(rest[0] == c);
        assert(rest.drop_first() =~= s.skip(idx + 1));
        if quoted {
            cleaned.push(c);
            if c == '\\' && idx + 1 < m {
                cleaned.push(out[idx + 1]);
                assert(rest[1] == s[idx + 1]);
                assert(rest.skip(2) =~= s.skip(idx + 2));
                assert(cleaned@ + drop_trailing_commas(s.skip(idx + 2), true) =~= before
                    + drop_trailing_commas(rest, true));
                idx += 2;
            } else {
                if c == '"' {
                    quoted = false;
                }
                assert(cleaned@ + drop_trailing_commas(s.skip(idx + 1), quoted) =~= before
                    + drop_trailing_commas(rest, true));
                idx += 1;
            }
        } else if c == '"' {
            quoted = true;
            cleaned.push('"');
            assert(cleaned@ + drop_trailing_commas(s.skip(idx + 1), true) =~= before
                + drop_trailing_commas(rest, false));
            idx += 1;
        } else {
            let mut drop = false;
            if c == ',' {
                let mut j = idx + 1;
                while j < m && is_whitespace(out[j])
                    invariant
                        m == out@.len(),
                        s == out@,
                        idx < j <= m,
                        closes_next(s.skip(idx + 1)) == closes_next(s.skip(j as int)),
                    decreases m - j,
                {
                    assert(s.skip(j as int)[0] == s[j as int]);
                    assert(s.skip(j as int).drop_first() =~= s.skip(j + 1));
                    j += 1;
                }
                proof {
                    if j < m {
                        assert(s.skip(j as int)[0] == s[j as int]);
                    } else {
                        assert(s.skip(j as int) =~= Seq::<char>::empty());
                    }
                }
                if j < m && (out[j] == '}' || out[j] == ']') {
                    drop = true;
                }
            }
            if !drop {
                cleaned.push(c);
            }
            assert(cleaned@ + drop_trailing_commas(s.skip(idx + 1), false) =~= before
                + drop_trailing_commas(rest, false));
            idx += 1;
        }
    }
    assert(s.skip(idx as int) =~= Seq::<char>::empty());
    assert(cleaned@ + Seq::<char>::empty() =~= cleaned@);
    string_from_chars(&cleaned)
}

// ------------------------------------------------------------------ entries

/// How an entry runs.
pub enum Run {
    /// Argv executed detached: menu actions and bare `omarchy` routes.
    Argv(Vec<String>),
    /// Open the Omarchy menu at this id; used when an action isn't plain argv.
    Summon(String),
}

pub enum RunView {
    Argv(Seq<Seq<char>>),
    Summon(Seq<char>),
}

pub struct EntryView {
    pub title: Seq<char>,
    pub subtitle: Seq<char>,
    pub keywords: Seq<char>,
    pub glyph: Seq<char>,
    pub run: RunView,
}

/// One searchable Omarchy entry.
pub struct Entry {
    title: String,
    subtitle: String,
    keywords: String,
    glyph: &'static str,
    run: Run,
}

impl View for Run {
    type V = RunView;

    open spec fn view(&self) -> RunView {
        match self {
            Run::Argv(a) => RunView::Argv(string_views(a@)),
            Run::Summon(id) => RunView::Summon(id@),
        }
    }
}

impl View for Entry {
    type V = EntryView;

    closed spec fn view(&self) -> EntryView {
        EntryView {
            title: self.title@,
            subtitle: self.subtitle@,
            keywords: self.keywords@,
            glyph: self.glyph@,
            run: self.run@,
        }
    }
}

pub open spec fn entry_views(v: Seq<Entry>) -> Seq<EntryView> {
    Seq::new(v.len(), |i: int| v[i]@)
}

// ----------------------------------------------------------- commands rows

/// One row of `omarchy commands --json`.
pub struct CommandRow {
    pub route: String,
    pub summary: String,
    pub args: String,
    pub aliases: Vec<String>,
    pub hidden: bool,
    pub requires_sudo: bool,
}

/// A command is offered when it is visible, needs no sudo and runs bare.
pub open spec fn command_offered(c: CommandRow) -> bool {
    !c.hidden && !c.requires_sudo && bare_from(c.args@, 0)
}

pub open spec fn command_entry(c: CommandRow) -> EntryView {
    EntryView {
        title: c.route@,
        subtitle: c.summary@,
        keywords: join(string_views(c.aliases@), " "@) + " "@ + c.summary@,
        glyph: "\u{f303}"@,
        run: RunView::Argv(words(c.route@, Sep::Whitespace)),
    }
}

/// The entries of the offered commands, in listing order.
pub open spec fn command_entries_spec(rows: Seq<CommandRow>) -> Seq<EntryView>
    decreases rows.len(),
{
    if rows.len() == 0 {
        Seq::empty()
    } else if command_offered(rows.last()) {
        command_entries_spec(rows.drop_last()).push(command_entry(rows.last()))
    } else {
        command_entries_spec(rows.drop_last())
    }
}

fn strings_of_chars(ws: &Vec<Vec<char>>) -> (r: Vec<String>)
    ensures
        string_views(r@) == views(ws@),
{
    strings_of(ws)
}

/// Entries for the commands that can run from a launcher row.
pub fn command_entries(rows: &Vec<CommandRow>) -> (r: Vec<Entry>)
    ensures
        entry_views(r@) == command_entries_spec(rows@),
{
    let mut out: Vec<Entry> = Vec::new();
    let mut i: usize = 0;
    while i < rows.len()
        invariant
            i <= rows.len(),
            entry_views(out@) == command_entries_spec(rows@.take(i as int)),
        decreases rows.len() - i,
    {
        let c = &rows[i];
        assert(rows@.take(i + 1).drop_last() =~= rows@.take(i as int));
        assert(rows@.take(i + 1).last() == *c);
        if !c.hidden && !c.requires_sudo && runnable_bare(c.args.as_str()) {
            let route = chars_of(c.route.as_str());
            let argv = strings_of_chars(&split_words(&route, Sep::Whitespace));
            let mut keywords = join_strings(&c.aliases, " ");
            append_str(&mut keywords, " ");
            append_str(&mut keywords, c.summary.as_str());
            let e = Entry {
                title: c.route.clone(),
                subtitle: c.summary.clone(),
                keywords,
                glyph: "\u{f303}",
                run: Run::Argv(argv),
            };
            assert(e@ == command_entry(*c));
            let ghost before = out@;
            out.push(e);
            assert(entry_views(out@) =~= entry_views(before).push(e@));
        }
        i += 1;
    }
    assert(rows@.take(i as int) =~= rows@);
    out
}

// -------------------------------------------------------------- menu items

/// One item of the Omarchy menu definition.
pub struct MenuItem {
    pub label: String,
    pub action: Option<String>,
    pub target: Option<String>,
    pub aliases: Vec<String>,
}

/// A menu definition file: item ids and items, as the file lists them.
pub open spec fn pairs_view(v: Seq<(String, MenuItem)>) -> Seq<(Seq<char>, MenuItem)> {
    v.map_values(|p: (String, MenuItem)| (p.0@, p.1))
}

/// All files' pairs, in file order.
pub open spec fn all_pairs(files: Seq<Vec<(String, MenuItem)>>) -> Seq<(Seq<char>, MenuItem)>
    decreases files.len(),
{
    if files.len() == 0 {
        Seq::empty()
    } else {
        all_pairs(files.drop_last()) + pairs_view(files.last()@)
    }
}

proof fn lemma_pairs_map_push(s: Seq<(Seq<char>, MenuItem)>, x: (Seq<char>, MenuItem))
    ensures
        pairs_map(s.push(x)) == pairs_map(s).insert(x.0, x.1),
{
    assert(s.push(x).drop_last() =~= s);
}

/// The menu: the files merged, a later file's item overriding an earlier
/// one with the same id (the extensions file overlays the default menu),
/// listed by id in ascending order.
pub fn merge_menus(files: Vec<Vec<(String, MenuItem)>>) -> (r: Vec<(String, MenuItem)>)
    ensures
        keys_sorted(pairs_view(r@)),
        pairs_map(pairs_view(r@)) == pairs_map(all_pairs(files@)),
{
    let ghost all = files@;
    let total = files.len();
    let mut files = files;
    let mut out: Vec<(String, MenuItem)> = Vec::new();
    let mut f: usize = 0;
    assert(pairs_view(out@) =~= Seq::<(Seq<char>, MenuItem)>::empty());
    assert(pairs_map(pairs_view(out@)) =~= pairs_map(all_pairs(all.take(0))));
    while files.len() > 0
        invariant
            f + files@.len() == all.len(),
            all.len() == total,
            files@ == all.skip(f as int),
            keys_sorted(pairs_view(out@)),
            pairs_map(pairs_view(out@)) == pairs_map(all_pairs(all.take(f as int))),
        decreases files.len(),
    {
        let ghost rest_files = files@;
        let mut file = files.remove(0);
        let ghost fv = pairs_view(file@);
        assert(rest_files[0] == all[f as int]);
        assert(file@ == all[f as int]@);
        let n = file.len();
        let mut j: usize = 0;
        let ghost base = all_pairs(all.take(f as int));
        assert(fv.take(0) =~= Seq::<(Seq<char>, MenuItem)>::empty());
        assert(base + fv.take(0) =~= base);
        while file.len() > 0
            invariant
                j + file@.len() == fv.len(),
                fv.len() == n,
                pairs_view(file@) == fv.skip(j as int),
                keys_sorted(pairs_view(out@)),
                pairs_map(pairs_view(out@)) == pairs_map(base + fv.take(j as int)),
            decreases file.len(),
        {
            let ghost cur = file@;
            let (key, item) = file.remove(0);
            assert(pairs_view(cur)[0] == (key@, item));
            assert(fv.skip(j as int)[0] == fv[j as int]);
            assert(fv[j as int] == (key@, item));
            assert(pairs_view(file@) =~= pairs_view(cur).drop_first());
            assert(base + fv.take(j + 1) =~= (base + fv.take(j as int)).push((key@, item)));
            proof {
                lemma_pairs_map_push(base + fv.take(j as int), (key@, item));
            }
            insert_sorted(&mut out, key, item);
            assert(fv.skip(j + 1) =~= fv.skip(j as int).drop_first());
            j += 1;
        }
        assert(fv.take(j as int) =~= fv);
        assert(all.take(f + 1).drop_last() =~= all.take(f as int));
        assert(all.skip(f + 1) =~= all.skip(f as int).drop_first());
        assert(files@ =~= rest_files.drop_first());
        f += 1;
    }
    assert(all.take(f as int) =~= all);
    out
}

/// The ids that the segments of an id name in turn: `a`, `a.b`, `a.b.c`.
pub open spec fn prefixes(segs: Seq<Seq<char>>) -> Seq<Seq<char>>
    decreases segs.len(),
{
    if segs.len() == 0 {
        Seq::empty()
    } else {
        let p = prefixes(segs.drop_last());
        let prev = if p.len() == 0 {
            Seq::<char>::empty()
        } else {
            p.last()
        };
        p.push(if prev.len() == 0 { segs.last() } else { prev + "."@ + segs.last() })
    }
}

/// The labels of those of `ids` that the menu has.
pub open spec fn labels_of(m: Map<Seq<char>, MenuItem>, ids: Seq<Seq<char>>) -> Seq<Seq<char>>
    decreases ids.len(),
{
    if ids.len() == 0 {
        Seq::empty()
    } else if m.contains_key(ids.last()) {
        labels_of(m, ids.drop_last()).push(m[ids.last()].label@)
    } else {
        labels_of(m, ids.drop_last())
    }
}

/// The path to an item through the menu, "System › Suspend".
pub open spec fn breadcrumb_spec(m: Map<Seq<char>, MenuItem>, id: Seq<char>) -> Seq<char> {
    join(labels_of(m, prefixes(crate::text::pieces(id, Sep::Char('.')))), " \u{203a} "@)
}

/// How a menu item runs: its action as argv when that is plain, else by
/// summoning the menu at it; a target is opened; an item with neither is a
/// submenu, summoned.
pub open spec fn menu_run(id: Seq<char>, item: MenuItem) -> RunView {
    match item.action {
        Some(a) => match plain_argv_spec(a@) {
            Some(argv) => RunView::Argv(argv),
            None => RunView::Summon(id),
        },
        None => match item.target {
            Some(t) => RunView::Argv(seq!["xdg-open"@, t@]),
            None => RunView::Summon(id),
        },
    }
}

pub open spec fn menu_entry(m: Map<Seq<char>, MenuItem>, id: Seq<char>, item: MenuItem) -> EntryView {
    let submenu = item.action is None && item.target is None;
    EntryView {
        title: item.label@,
        subtitle: if submenu {
            "Omarchy menu \u{203a} "@ + breadcrumb_spec(m, id)
        } else {
            breadcrumb_spec(m, id)
        },
        keywords: join(string_views(item.aliases@), " "@) + " "@ + id.map_values(
            |c: char| if c == '.' { ' ' } else { c },
        ),
        glyph: "\u{eb6c}"@,
        run: menu_run(id, item),
    }
}

/// The entries of the labelled items of `pairs`, in order, breadcrumbs
/// looked up in the menu `m`.
pub open spec fn menu_entries_of(m: Map<Seq<char>, MenuItem>, pairs: Seq<(Seq<char>, MenuItem)>) -> Seq<EntryView>
    decreases pairs.len(),
{
    if pairs.len() == 0 {
        Seq::empty()
    } else if pairs.last().1.label@.len() > 0 {
        menu_entries_of(m, pairs.drop_last()).push(menu_entry(m, pairs.last().0, pairs.last().1))
    } else {
        menu_entries_of(m, pairs.drop_last())
    }
}

/// The label of the item `id`, looked up the way the map does: the last
/// pair with that id.
fn lookup_label(pairs: &Vec<(String, MenuItem)>, id: &Vec<char>) -> (r: Option<String>)
    ensures
        match r {
            Some(l) => pairs_map(pairs_view(pairs@)).contains_key(id@) && l@ == pairs_map(
                pairs_view(pairs@),
            )[id@].label@,
            None => !pairs_map(pairs_view(pairs@)).contains_key(id@),
        },
{
    let ghost pv = pairs_view(pairs@);
    let mut i = pairs.len();
    assert(pv.take(i as int) =~= pv);
    while i > 0
        invariant
            i <= pairs.len(),
            pv == pairs_view(pairs@),
            pairs_map(pv).contains_key(id@) == pairs_map(pv.take(i as int)).contains_key(id@),
            pairs_map(pv).contains_key(id@) ==> pairs_map(pv)[id@] == pairs_map(pv.take(i as int))[id@],
        decreases i,
    {
        assert(pv.take(i as int).drop_last() =~= pv.take(i - 1));
        assert(pv.take(i as int).last() == pv[i - 1]);
        let k = chars_of(pairs[i - 1].0.as_str());
        if crate::text::chars_eq(&k, id) {
            return Some(pairs[i - 1].1.label.clone());
        }
        i -= 1;
    }
    assert(pv.take(0) =~= Seq::<(Seq<char>, MenuItem)>::empty());
    None
}

fn breadcrumb(pairs: &Vec<(String, MenuItem)>, id: &str) -> (r: String)
    ensures
        r@ == breadcrumb_spec(pairs_map(pairs_view(pairs@)), id@),
{
    let ghost m = pairs_map(pairs_view(pairs@));
    let v = chars_of(id);
    let segs = split_pieces(&v, Sep::Char('.'));
    let ghost sv = views(segs@);
    let mut parts: Vec<String> = Vec::new();
    let mut prefix: Vec<char> = Vec::new();
    let mut i: usize = 0;
    assert(sv.take(0) =~= Seq::<Seq<char>>::empty());
    while i < segs.len()
        invariant
            i <= segs.len(),
            sv == views(segs@),
            m == pairs_map(pairs_view(pairs@)),
            prefix@ == (if prefixes(sv.take(i as int)).len() == 0 {
                Seq::<char>::empty()
            } else {
                prefixes(sv.take(i as int)).last()
            }),
            string_views(parts@) == labels_of(m, prefixes(sv.take(i as int))),
        decreases segs.len() - i,
    {
        let ghost before = prefix@;
        assert(sv.take(i + 1).drop_last() =~= sv.take(i as int));
        assert(sv.take(i + 1).last() == segs@[i as int]@);
        if prefix.len() > 0 {
            prefix.push('.');
        }
        let seg = &segs[i];
        let mut k: usize = 0;
        let ghost mid = prefix@;
        while k < seg.len()
            invariant
                k <= seg.len(),
                prefix@ == mid + seg@.take(k as int),
            decreases seg.len() - k,
        {
            prefix.push(seg[k]);
            assert(seg@.take(k + 1) =~= seg@.take(k as int).push(seg@[k as int]));
            k += 1;
        }
        proof {
            assert(seg@.take(k as int) =~= seg@);
            reveal_strlit(".");
            if before.len() > 0 {
                assert(prefix@ =~= before + "."@ + seg@);
            } else {
                assert(prefix@ =~= seg@);
            }
        }
        let ghost ps = prefixes(sv.take(i + 1));
        assert(ps.last() == prefix@);
        assert(ps.drop_last() == prefixes(sv.take(i as int)));
        if let Some(label) = lookup_label(pairs, &prefix) {
            let ghost old_parts = parts@;
            parts.push(label);
            assert(string_views(parts@) =~= string_views(old_parts).push(label@));
        }
        i += 1;
    }
    assert(sv.take(i as int) =~= sv);
    join_strings(&parts, " \u{203a} ")
}

fn dots_to_spaces(id: &str) -> (r: String)
    ensures
        r@ == id@.map_values(|c: char| if c == '.' { ' ' } else { c }),
{
    let v = chars_of(id);
    let mut out: Vec<char> = Vec::new();
    let mut i: usize = 0;
    while i < v.len()
        invariant
            i <= v.len(),
            v@ == id@,
            out@ == v@.take(i as int).map_values(|c: char| if c == '.' { ' ' } else { c }),
        decreases v.len() - i,
    {
        let c = v[i];
        out.push(if c == '.' { ' ' } else { c });
        assert(v@.take(i + 1).map_values(|c: char| if c == '.' { ' ' } else { c }) =~= v@.take(
            i as int,
        ).map_values(|c: char| if c == '.' { ' ' } else { c }).push(if c == '.' { ' ' } else { c }));
        i += 1;
    }
    assert(v@.take(i as int) =~= v@);
    string_from_chars(&out)
}

fn copy_opt(o: &Option<String>) -> (r: Option<String>)
    ensures
        opt_view(r) == opt_view(*o),
{
    match o {
        Some(s) => Some(s.clone()),
        None => None,
    }
}

/// The entries for the labelled items of the merged menu `pairs`, in order.
pub fn menu_entries(pairs: &Vec<(String, MenuItem)>) -> (r: Vec<Entry>)
    ensures
        entry_views(r@) == menu_entries_of(pairs_map(pairs_view(pairs@)), pairs_view(pairs@)),
{
    let ghost m = pairs_map(pairs_view(pairs@));
    let ghost pv = pairs_view(pairs@);
    let mut out: Vec<Entry> = Vec::new();
    let mut i: usize = 0;
    while i < pairs.len()
        invariant
            i <= pairs.len(),
            m == pairs_map(pairs_view(pairs@)),
            pv == pairs_view(pairs@),
            entry_views(out@) == menu_entries_of(m, pv.take(i as int)),
        decreases pairs.len() - i,
    {
        let id = &pairs[i].0;
        let item = &pairs[i].1;
        assert(pv.take(i + 1).drop_last() =~= pv.take(i as int));
        assert(pv.take(i + 1).last() == (id@, *item));
        if !item.label.as_str().is_empty() {
            let run = match &item.action {
                Some(a) => match plain_argv(a.as_str()) {
                    Some(argv) => Run::Argv(argv),
                    None => Run::Summon(id.clone()),
                },
                None => match &item.target {
                    Some(t) => {
                        let mut argv: Vec<String> = Vec::new();
                        argv.push(copy_str("xdg-open"));
                        argv.push(t.clone());
                        proof {
                            reveal_strlit("xdg-open");
                        }
                        assert(string_views(argv@) =~= seq!["xdg-open"@, t@]);
                        Run::Argv(argv)
                    },
                    None => Run::Summon(id.clone()),
                },
            };
            let crumb = breadcrumb(pairs, id.as_str());
            let subtitle = if item.action.is_none() && item.target.is_none() {
                concat("Omarchy menu \u{203a} ", crumb.as_str())
            } else {
                crumb
            };
            let mut keywords = join_strings(&item.aliases, " ");
            append_str(&mut keywords, " ");
            append_str(&mut keywords, dots_to_spaces(id.as_str()).as_str());
            let e = Entry { title: item.label.clone(), subtitle, keywords, glyph: "\u{eb6c}", run };
            assert(e@ == menu_entry(m, id@, *item));
            let ghost before = out@;
            out.push(e);
            assert(entry_views(out@) =~= entry_views(before).push(e@));
        }
        i += 1;
    }
    assert(pv.take(i as int) =~= pv);
    out
}

// ------------------------------------------------------------------- themes

pub open spec fn theme_entry(name: Seq<char>) -> EntryView {
    EntryView {
        title: "Theme: "@ + name,
        subtitle: "Switch the Omarchy theme"@,
        keywords: "theme style appearance"@,
        glyph: "\u{e22b}"@,
        run: RunView::Argv(seq!["omarchy"@, "theme"@, "set"@, name]),
    }
}

/// One entry per installed theme: the names found, each once, in ascending
/// order.
pub fn theme_entries(names: Vec<String>) -> (r: Vec<Entry>)
    ensures
        exists|sorted: Seq<(Seq<char>, ())>|
            #![trigger keys_sorted(sorted)]
            keys_sorted(sorted) && pairs_map(sorted).dom() == string_views(names@).to_set()
                && entry_views(r@) == sorted.map_values(|p: (Seq<char>, ())| theme_entry(p.0)),
{
    let ghost nv = string_views(names@);
    let total = names.len();
    let mut names = names;
    let mut set: Vec<(String, ())> = Vec::new();
    let mut k: usize = 0;
    assert(pairs_map(set@.map_values(|p: (String, ())| (p.0@, p.1))).dom() =~= nv.take(0).to_set());
    while names.len() > 0
        invariant
            k + names@.len() == nv.len(),
            nv.len() == total,
            string_views(names@) == nv.skip(k as int),
            keys_sorted(set@.map_values(|p: (String, ())| (p.0@, p.1))),
            pairs_map(set@.map_values(|p: (String, ())| (p.0@, p.1))).dom() == nv.take(k as int).to_set(),
        decreases names.len(),
    {
        let ghost cur = names@;
        let name = names.remove(0);
        assert(string_views(cur)[0] == name@);
        assert(nv.skip(k as int)[0] == nv[k as int]);
        let ghost name_v = name@;
        insert_sorted(&mut set, name, ());
        assert(nv.take(k + 1) =~= nv.take(k as int).push(name_v));
        proof {
            nv.take(k as int).lemma_push_to_set_commute(name_v);
        }
        assert(string_views(names@) =~= string_views(cur).drop_first());
        assert(string_views(names@) =~= nv.skip(k + 1));
        k += 1;
    }
    assert(nv.take(k as int) =~= nv);
    let ghost sorted = set@.map_values(|p: (String, ())| (p.0@, p.1));
    let mut out: Vec<Entry> = Vec::new();
    let mut i: usize = 0;
    while i < set.len()
        invariant
            i <= set.len(),
            sorted == set@.map_values(|p: (String, ())| (p.0@, p.1)),
            out@.len() == i,
            forall|j: int| 0 <= j < i ==> #[trigger] out@[j]@ == theme_entry(sorted[j].0),
        decreases set.len() - i,
    {
        let name = &set[i].0;
        let mut argv: Vec<String> = Vec::new();
        argv.push(copy_str("omarchy"));
        argv.push(copy_str("theme"));
        argv.push(copy_str("set"));
        argv.push(name.clone());
        let e = Entry {
            title: concat("Theme: ", name.as_str()),
            subtitle: copy_str("Switch the Omarchy theme"),
            keywords: copy_str("theme style appearance"),
            glyph: "\u{e22b}",
            run: Run::Argv(argv),
        };
        assert(string_views(argv@) =~= seq!["omarchy"@, "theme"@, "set"@, name@]);
        assert(e@ == theme_entry(sorted[i as int].0));
        out.push(e);
        i += 1;
    }
    assert(entry_views(out@) =~= sorted.map_values(|p: (Seq<char>, ())| theme_entry(p.0)));
    out
}

// ----------------------------------------------------------------- provider

pub const INVALID_DIGIT: &'static str = "invalid digit found in string";
pub const EMPTY_NUMBER: &'static str = "cannot parse integer from empty string";
pub const NUMBER_TOO_LARGE: &'static str = "number too large to fit in target type";

/// Reads decimal digits onto `acc` the way `usize::from_str` does: a
/// non-digit is an error, and so is a value past `usize::MAX`, whichever
/// comes first.
pub open spec fn digits_then(d: Seq<char>, acc: int) -> Result<int, Seq<char>>
    decreases d.len(),
{
    if d.len() == 0 {
        Ok(acc)
    } else if !is_digit(d[0]) {
        Err(INVALID_DIGIT@)
    } else if acc * 10 + (d[0] as int - '0' as int) > usize::MAX {
        Err(NUMBER_TOO_LARGE@)
    } else {
        digits_then(d.drop_first(), acc * 10 + (d[0] as int - '0' as int))
    }
}

/// `usize::from_str`, with the messages its errors display.
pub open spec fn parse_index_spec(s: Seq<char>) -> Result<int, Seq<char>> {
    if s.len() == 0 {
        Err(EMPTY_NUMBER@)
    } else if (s[0] == '+' || s[0] == '-') && s.len() == 1 {
        Err(INVALID_DIGIT@)
    } else if s[0] == '+' {
        digits_then(s.drop_first(), 0)
    } else {
        digits_then(s, 0)
    }
}

pub fn parse_index(id: &str) -> (r: Result<usize, String>)
    ensures
        match parse_index_spec(id@) {
            Ok(n) => r matches Ok(v) && v == n,
            Err(e) => r matches Err(m) && m@ == e,
        },
{
    let v = chars_of(id);
    if v.len() == 0 {
        return Err(copy_str(EMPTY_NUMBER));
    }
    if (v[0] == '+' || v[0] == '-') && v.len() == 1 {
        return Err(copy_str(INVALID_DIGIT));
    }
    let mut i: usize = if v[0] == '+' {
        1
    } else {
        0
    };
    let ghost d = v@.skip(i as int);
    assert(parse_index_spec(id@) == digits_then(d, 0)) by {
        if v@[0] == '+' {
            assert(d =~= v@.drop_first());
        } else {
            assert(d =~= v@);
        }
    }
    let mut acc: usize = 0;
    while i < v.len()
        invariant
            i <= v.len(),
            v@ == id@,
            digits_then(d, 0) == digits_then(v@.skip(i as int), acc as int),
            parse_index_spec(id@) == digits_then(d, 0),
        decreases v.len() - i,
    {
        let c = v[i];
        assert(v@.skip(i as int)[0] == c);
        assert(v@.skip(i as int).drop_first() =~= v@.skip(i + 1));
        if !('0' <= c && c <= '9') {
            return Err(copy_str(INVALID_DIGIT));
        }
        let digit = (c as u32 - '0' as u32) as usize;
        let next = match acc.checked_mul(10) {
            Some(t) => t.checked_add(digit),
            None => None,
        };
        match next {
            Some(n) => {
                acc = n;
            },
            None => {
                return Err(copy_str(NUMBER_TOO_LARGE));
            },
        }
        i += 1;
    }
    assert(v@.skip(i as int) =~= Seq::<char>::empty());
    Ok(acc)
}

/// The row shown for the entry at `index`, whose fields scored `relevance`.
pub open spec fn omarchy_row(index: int, e: EntryView, relevance: u32) -> ItemView {
    ItemView {
        id: PROVIDER@ + ":"@ + decimal(index),
        provider: PROVIDER@,
        kind: "Omarchy"@,
        title: e.title,
        subtitle: Some(e.subtitle),
        icon: None,
        glyph: Some(e.glyph),
        accessory: None,
        score: (relevance * 100) as i64,
    }
}

/// The rows of the first `n` entries that match `q` by title, or weaker,
/// by subtitle or keywords.
pub open spec fn omarchy_rows_upto(es: Seq<EntryView>, q: Seq<char>, n: int) -> Seq<ItemView>
    decreases n,
{
    if n <= 0 {
        Seq::empty()
    } else {
        let rows = omarchy_rows_upto(es, q, n - 1);
        match best_field_score(q, es[n - 1].title, seq![es[n - 1].subtitle, es[n - 1].keywords]) {
            Some(s) => rows.push(omarchy_row(n - 1, es[n - 1], s)),
            None => rows,
        }
    }
}

pub open spec fn omarchy_rows(q: Seq<char>, es: Seq<EntryView>) -> Seq<ItemView> {
    if q.len() == 0 {
        Seq::empty()
    } else {
        omarchy_rows_upto(es, q, es.len() as int)
    }
}

/// Among the rows of the first `n` entries, an entry whose keywords match
/// the query has a row, scored at least two thirds of that keyword match.
proof fn lemma_keyword_rows_upto(es: Seq<EntryView>, q: Seq<char>, n: int, i: int, s: u32)
    requires
        0 <= i < n <= es.len(),
        fuzzy_score(q, es[i].keywords) == Some(s),
    ensures
        exists|k: int|
            #![trigger omarchy_rows_upto(es, q, n)[k]]
            0 <= k < omarchy_rows_upto(es, q, n).len() && omarchy_rows_upto(es, q, n)[k].id == PROVIDER@ + ":"@
                + decimal(i) && omarchy_rows_upto(es, q, n)[k].title == es[i].title && 3 * omarchy_rows_upto(
                es,
                q,
                n,
            )[k].score >= 200 * s,
    decreases n,
{
    let rows = omarchy_rows_upto(es, q, n - 1);
    if i < n - 1 {
        lemma_keyword_rows_upto(es, q, n - 1, i, s);
        let k = choose|k: int|
            #![trigger omarchy_rows_upto(es, q, n - 1)[k]]
            0 <= k < rows.len() && rows[k].id == PROVIDER@ + ":"@ + decimal(i) && rows[k].title == es[i].title
                && 3 * rows[k].score >= 200 * s;
        match best_field_score(q, es[n - 1].title, seq![es[n - 1].subtitle, es[n - 1].keywords]) {
            Some(b) => {
                assert(omarchy_rows_upto(es, q, n)[k] == rows[k]);
            },
            None => {
                assert(omarchy_rows_upto(es, q, n)[k] == rows[k]);
            },
        }
    } else {
        let e = es[n - 1];
        let fields = seq![e.subtitle, e.keywords];
        assert(fields.drop_last() =~= seq![e.subtitle]);
        assert(fields.last() == e.keywords);
        let best = best_field_score(q, e.title, fields);
        assert(best matches Some(b) && b >= s - s / 3);
        let b = best.unwrap();
        let k = rows.len() as int;
        assert(omarchy_rows_upto(es, q, n) == rows.push(omarchy_row(n - 1, e, b)));
        let row = omarchy_rows_upto(es, q, n)[k];
        assert(row == omarchy_row(n - 1, e, b));
        assert(row.score == b * 100);
        assert(3 * (b * 100) >= 200 * s) by (nonlinear_arith)
            requires
                b >= s - s / 3,
        ;
        assert(row.id == PROVIDER@ + ":"@ + decimal(i));
        assert(row.title == es[i].title);
    }
}

/// An entry whose keywords (a command's aliases, a menu entry's id) fuzzily
/// match a non-empty query is offered, with a score of at least two thirds
/// of that keyword match.
pub proof fn lemma_keywords_are_searched(q: Seq<char>, es: Seq<EntryView>, i: int, s: u32)
    requires
        q.len() > 0,
        0 <= i < es.len(),
        fuzzy_score(q, es[i].keywords) == Some(s),
    ensures
        exists|k: int|
            #![trigger omarchy_rows(q, es)[k]]
            0 <= k < omarchy_rows(q, es).len() && omarchy_rows(q, es)[k].id == PROVIDER@ + ":"@ + decimal(i)
                && omarchy_rows(q, es)[k].title == es[i].title && 3 * omarchy_rows(q, es)[k].score >= 200 * s,
{
    let n = es.len() as int;
    lemma_keyword_rows_upto(es, q, n, i, s);
    let rows = omarchy_rows_upto(es, q, n);
    assert(omarchy_rows(q, es) == rows);
    let k = choose|k: int|
        #![trigger omarchy_rows_upto(es, q, n)[k]]
        0 <= k < rows.len() && rows[k].id == PROVIDER@ + ":"@ + decimal(i) && rows[k].title == es[i].title && 3
            * rows[k].score >= 200 * s;
    assert(omarchy_rows(q, es)[k] == rows[k]);
}

/// What activating the entry `id` (its index) runs: its argv, or the menu
/// summoned at it.
pub open spec fn omarchy_launch(id: Seq<char>, es: Seq<EntryView>) -> Result<(Seq<char>, Seq<Seq<char>>), Seq<char>> {
    match parse_index_spec(id) {
        Err(e) => Err(e),
        Ok(i) => if i >= es.len() {
            Err("stale omarchy entry"@)
        } else {
            match es[i].run {
                RunView::Argv(a) => if a.len() == 0 {
                    Err("empty command"@)
                } else {
                    Ok((a[0], a.skip(1)))
                },
                RunView::Summon(m) => Ok(("omarchy-menu"@, seq!["summon"@, m])),
            }
        },
    }
}

/// At most `MAX_ENTRIES` entries, the first ones kept.
pub open spec fn capped(s: Seq<EntryView>) -> Seq<EntryView> {
    if s.len() > MAX_ENTRIES {
        s.take(MAX_ENTRIES as int)
    } else {
        s
    }
}

pub struct OmarchyProvider {
    entries: Vec<Entry>,
}

impl OmarchyProvider {
    pub closed spec fn entries_view(&self) -> Seq<EntryView> {
        entry_views(self.entries@)
    }

    /// A provider with an empty index; the sources are read in the
    /// background and handed to `set_entries`.
    pub fn new() -> (r: Self)
        ensures
            r.entries_view() == Seq::<EntryView>::empty(),
    {
        let r = OmarchyProvider { entries: Vec::new() };
        assert(r.entries_view() =~= Seq::<EntryView>::empty());
        r
    }

    /// The index: menu entries, then themes, then commands, at most
    /// `MAX_ENTRIES` of them.
    pub fn set_entries(&mut self, menu: Vec<Entry>, themes: Vec<Entry>, commands: Vec<Entry>)
        ensures
            final(self).entries_view() == capped(entry_views(menu@) + entry_views(themes@) + entry_views(commands@)),
    {
        let ghost all = entry_views(menu@) + entry_views(themes@) + entry_views(commands@);
        let mut fresh = menu;
        let mut themes = themes;
        let mut commands = commands;
        let ghost m0 = fresh@;
        let ghost t0 = themes@;
        let ghost c0 = commands@;
        fresh.append(&mut themes);
        fresh.append(&mut commands);
        assert(fresh@ =~= m0 + t0 + c0);
        assert(entry_views(fresh@) =~= all);
        fresh.truncate(MAX_ENTRIES);
        assert(entry_views(fresh@) =~= capped(all));
        self.entries = fresh;
    }

    pub fn query(&self, q: &Query) -> (items: Vec<Item>)
        ensures
            item_views(items@) == omarchy_rows(q.trimmed@, self.entries_view()),
    {
        let mut items: Vec<Item> = Vec::new();
        if q.is_empty() {
            assert(item_views(items@) =~= Seq::<ItemView>::empty());
            return items;
        }
        let ghost es = entry_views(self.entries@);
        let mut matcher = new_matcher();
        let mut i: usize = 0;
        while i < self.entries.len()
            invariant
                i <= self.entries.len(),
                es == entry_views(self.entries@),
                item_views(items@) == omarchy_rows_upto(es, q.trimmed@, i as int),
            decreases self.entries.len() - i,
        {
            let e = &self.entries[i];
            assert(es[i as int] == e@);
            let mut secondary: Vec<String> = Vec::new();
            secondary.push(e.subtitle.clone());
            secondary.push(e.keywords.clone());
            assert(secondary@.map_values(|f: String| f@) =~= seq![e@.subtitle, e@.keywords]);
            if let Some(relevance) = score_fields(q.trimmed.as_str(), e.title.as_str(), &secondary, &mut matcher) {
                let mut item = Item::new(PROVIDER, "Omarchy", crate::text::usize_to_string(i), e.title.clone());
                item.subtitle = Some(e.subtitle.clone());
                item.glyph = Some(copy_str(e.glyph));
                item.score = relevance as i64 * 100;
                let ghost before = items@;
                items.push(item);
                assert(item_views(items@) =~= item_views(before).push(items@[items@.len() - 1]@));
            }
            i += 1;
        }
        items
    }

    /// Runs the entry whose index is `id`. An entry whose argv is empty (a
    /// command listed with a blank route) is refused rather than run.
    pub fn activate(&self, id: &str, _action: Action) -> (r: Result<Activation, String>)
        ensures
            match omarchy_launch(id@, self.entries_view()) {
                Ok((p, a)) => r matches Ok(Activation::Launch { program, args }) && program@ == p
                    && string_views(args@) == a,
                Err(e) => r matches Err(m) && m@ == e,
            },
    {
        let index = match parse_index(id) {
            Ok(n) => n,
            Err(e) => return Err(e),
        };
        if index >= self.entries.len() {
            return Err(copy_str("stale omarchy entry"));
        }
        let e = &self.entries[index];
        assert(entry_views(self.entries@)[index as int] == e@);
        match &e.run {
            Run::Argv(argv) => {
                if argv.len() == 0 {
                    return Err(copy_str("empty command"));
                }
                let program = argv[0].clone();
                let mut args: Vec<String> = Vec::new();
                let mut k: usize = 1;
                while k < argv.len()
                    invariant
                        1 <= k <= argv.len(),
                        string_views(args@) == string_views(argv@).skip(1).take(k - 1),
                    decreases argv.len() - k,
                {
                    let ghost before = args@;
                    let next = argv[k].clone();
                    assert(next@ == string_views(argv@).skip(1)[k - 1]);
                    args.push(next);
                    assert(string_views(args@) =~= string_views(before).push(next@));
                    assert(string_views(argv@).skip(1).take(k as int) =~= string_views(argv@).skip(1).take(k - 1).push(next@));
                    k += 1;
                }
                assert(string_views(argv@).skip(1).take(k - 1) =~= string_views(argv@).skip(1));
                Ok(Activation::Launch { program, args })
            },
            Run::Summon(menu_id) => {
                let mut args: Vec<String> = Vec::new();
                args.push(copy_str("summon"));
                args.push(menu_id.clone());
                assert(string_views(args@) =~= seq!["summon"@, menu_id@]);
                Ok(Activation::Launch { program: copy_str("omarchy-menu"), args })
            },
        }
    }
}

} // verus!
