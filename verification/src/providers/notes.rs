//! Markdown notes, opened in the omacastnotes popup.
//!
//! Titles are matched fuzzily and body text literally: a fuzzy match against a
//! whole document scores almost anything, which buries the notes you meant.
//! Reading the notes directory and writing new notes happen around the
//! library; what a note is called, what it shows and which notes a query
//! finds is decided here.

use crate::search::{Action, Activation, Item, ItemView, Query};
use crate::search::rank::item_views;
use crate::search::score::{fuzzy_score, new_matcher, score};
use crate::text::{
    ascii_lower, chars_of, concat, copy_str, has_infix, has_prefix, int_to_string, is_alnum,
    join, join_words, lines, lines_of, opt_view, seq_contains, seq_starts_with, slice_vec,
    split_words, string_from_chars, trim_bounds, to_ascii_lowercase, to_lowercase, trim, trim_chars, trim_start,
    unicode_lowercase, views, words, Sep,
};
use vstd::prelude::*;

verus! {

pub const PROVIDER: &'static str = "note";

/// `note <title>` offers to create a note with that title.
pub const KEYWORD: &'static str = "note";

/// The program notes are opened in.
pub const VIEWER: &'static str = "omacastnotes";

/// Only the start of a note is searched; nobody looks for a note by its tail.
pub const BODY_WINDOW: usize = 8192;

/// How many leading lines are searched for a `# heading`.
pub const TITLE_LINES: usize = 20;

/// How many leading lines are searched for a preview line.
pub const PREVIEW_LINES: usize = 40;

/// Longest preview, in characters, before it is cut and marked with `…`.
pub const MAX_PREVIEW_CHARS: usize = 90;

/// Longest file name stem a title is turned into.
pub const MAX_SLUG_CHARS: usize = 60;

/// `Notes` in the home directory (the working directory when there is none).
pub fn default_directory() -> (r: String)
    ensures
        exists|home: Option<Seq<char>>| r@ == crate::config::default_notes_directory(home),
{
    let home = crate::config::home_dir();
    let ghost h = opt_view(home);
    let r = crate::config::default_notes_directory_in(home);
    assert(r@ == crate::config::default_notes_directory(h));
    r
}

/// The file name of `path` without its extension, as `Path::file_stem`
/// gives it. Its rules (hidden files, `..`, trailing separators) are std's,
/// so it is only named here.
pub uninterp spec fn file_stem_of(path: Seq<char>) -> Option<Seq<char>>;

/// Calls `Path::file_stem` on `path`; the result is the named stem.
#[verifier::external_body]
fn file_stem(path: &str) -> (r: Option<String>)
    ensures
        opt_view(r) == file_stem_of(path@),
{
    std::path::Path::new(path).file_stem().and_then(|s| s.to_str()).map(|s| s.to_string())
}

/// The text of a `# heading` line, if the line is one with visible text.
pub open spec fn heading_of(line: Seq<char>) -> Option<Seq<char>> {
    let l = trim(line);
    if has_prefix(l, "# "@) && trim(l.skip(2)).len() > 0 {
        Some(trim(l.skip(2)))
    } else {
        None
    }
}

/// The first heading among `lines[i..limit]`.
pub open spec fn first_heading(lines: Seq<Seq<char>>, i: int, limit: int) -> Option<Seq<char>>
    decreases limit - i,
{
    if i >= limit || i >= lines.len() || i < 0 {
        None
    } else {
        match heading_of(lines[i]) {
            Some(h) => Some(h),
            None => first_heading(lines, i + 1, limit),
        }
    }
}

/// A file name made readable: dashes and underscores become spaces.
pub open spec fn readable_stem(stem: Seq<char>) -> Seq<char> {
    stem.map_values(|c: char| if c == '-' || c == '_' { ' ' } else { c })
}

/// A note's title: its first `# heading` within `TITLE_LINES` lines, else a
/// readable form of its file name.
pub open spec fn title_spec(path: Seq<char>, contents: Seq<char>) -> Seq<char> {
    match first_heading(lines_of(contents), 0, TITLE_LINES as int) {
        Some(h) => h,
        None => match file_stem_of(path) {
            Some(stem) => readable_stem(stem),
            None => "Untitled"@,
        },
    }
}

/// First `# heading`, else a readable form of the filename.
pub fn title_for(path: &str, contents: &str) -> (r: String)
    ensures
        r@ == title_spec(path@, contents@),
{
    let v = chars_of(contents);
    let ls = lines(&v);
    let ghost all = views(ls@);
    let hash = chars_of("# ");
    proof {
        reveal_strlit("# ");
    }
    let mut i: usize = 0;
    while i < ls.len() && i < TITLE_LINES
        invariant
            all == views(ls@),
            all == lines_of(contents@),
            hash@ == "# "@,
            i <= ls.len(),
            first_heading(all, 0, TITLE_LINES as int) == first_heading(all, i as int, TITLE_LINES as int),
        decreases ls.len() - i,
    {
        let l = trim_chars(&ls[i]);
        assert(all[i as int] == ls@[i as int]@);
        proof {
            reveal_strlit("# ");
        }
        if seq_starts_with(&l, &hash) {
            let rest = slice_vec(&l, 2, l.len());
            assert(rest@ =~= l@.skip(2));
            let h = trim_chars(&rest);
            if h.len() > 0 {
                return string_from_chars(&h);
            }
        }
        i += 1;
    }
    match file_stem(path) {
        Some(stem) => {
            let s = chars_of(stem.as_str());
            let mut out: Vec<char> = Vec::new();
            let mut k: usize = 0;
            while k < s.len()
                invariant
                    k <= s.len(),
                    out@ == readable_stem(s@.take(k as int)),
                decreases s.len() - k,
            {
                let c = s[k];
                out.push(
                    if c == '-' || c == '_' {
                        ' '
                    } else {
                        c
                    },
                );
                assert(readable_stem(s@.take(k + 1)) =~= readable_stem(s@.take(k as int)).push(
                    if c == '-' || c == '_' {
                        ' '
                    } else {
                        c
                    },
                ));
                k += 1;
            }
            assert(s@.take(k as int) =~= s@);
            string_from_chars(&out)
        },
        None => copy_str("Untitled"),
    }
}

/// A line's preview: its words joined by single spaces, cut to 89
/// characters and `…` when longer than 90; none for blank lines and headings.
pub open spec fn preview_of_line(line: Seq<char>) -> Option<Seq<char>> {
    let l = trim(line);
    if l.len() == 0 || l[0] == '#' {
        None
    } else {
        let collapsed = join(words(l, Sep::Whitespace), " "@);
        Some(
            if collapsed.len() > MAX_PREVIEW_CHARS {
                collapsed.take(MAX_PREVIEW_CHARS - 1) + "\u{2026}"@
            } else {
                collapsed
            },
        )
    }
}

pub open spec fn first_preview(lines: Seq<Seq<char>>, i: int, limit: int) -> Option<Seq<char>>
    decreases limit - i,
{
    if i >= limit || i >= lines.len() || i < 0 {
        None
    } else {
        match preview_of_line(lines[i]) {
            Some(p) => Some(p),
            None => first_preview(lines, i + 1, limit),
        }
    }
}

/// The first non-heading, non-empty line within `PREVIEW_LINES` lines, or
/// nothing.
pub open spec fn preview_spec(contents: Seq<char>) -> Seq<char> {
    match first_preview(lines_of(contents), 0, PREVIEW_LINES as int) {
        Some(p) => p,
        None => Seq::empty(),
    }
}

/// The first non-heading, non-empty line, which is what the note is actually about.
pub fn preview_for(contents: &str) -> (r: String)
    ensures
        r@ == preview_spec(contents@),
{
    let v = chars_of(contents);
    let ls = lines(&v);
    let ghost all = views(ls@);
    let mut i: usize = 0;
    while i < ls.len() && i < PREVIEW_LINES
        invariant
            all == views(ls@),
            all == lines_of(contents@),
            i <= ls.len(),
            first_preview(all, 0, PREVIEW_LINES as int) == first_preview(all, i as int, PREVIEW_LINES as int),
        decreases ls.len() - i,
    {
        let l = trim_chars(&ls[i]);
        assert(all[i as int] == ls@[i as int]@);
        if l.len() > 0 && l[0] != '#' {
            let ws = split_words(&l, Sep::Whitespace);
            let collapsed = join_words(&ws, 0);
            assert(views(ws@).skip(0) =~= views(ws@));
            if collapsed.len() > MAX_PREVIEW_CHARS {
                let mut cut = slice_vec(&collapsed, 0, MAX_PREVIEW_CHARS - 1);
                cut.push('\u{2026}');
                proof {
                    reveal_strlit("\u{2026}");
                }
                assert(cut@ =~= collapsed@.take(MAX_PREVIEW_CHARS - 1) + "\u{2026}"@);
                return string_from_chars(&cut);
            }
            return string_from_chars(&collapsed);
        }
        i += 1;
    }
    String::new()
}

/// The slug before its ends are trimmed, and whether it ends in a dash (or
/// is empty): letters and digits lowercased, every run of anything else one
/// dash.
pub open spec fn slug_raw(s: Seq<char>) -> (Seq<char>, bool)
    decreases s.len(),
{
    if s.len() == 0 {
        (Seq::empty(), true)
    } else {
        let (p, last_dash) = slug_raw(s.drop_last());
        let c = s.last();
        if is_alnum(c) {
            (p.push(ascii_lower(c)), false)
        } else if !last_dash {
            (p.push('-'), true)
        } else {
            (p, last_dash)
        }
    }
}

pub open spec fn trim_start_dash(s: Seq<char>) -> Seq<char>
    decreases s.len(),
{
    if s.len() > 0 && s[0] == '-' {
        trim_start_dash(s.drop_first())
    } else {
        s
    }
}

pub open spec fn trim_end_dash(s: Seq<char>) -> Seq<char>
    decreases s.len(),
{
    if s.len() > 0 && s.last() == '-' {
        trim_end_dash(s.drop_last())
    } else {
        s
    }
}

/// A file name stem for a title: lowercase letters, digits and single
/// dashes, at most `MAX_SLUG_CHARS` characters, `"note"` when nothing is
/// left.
pub open spec fn slug_spec(title: Seq<char>) -> Seq<char> {
    let t = trim_end_dash(trim_start_dash(slug_raw(title).0));
    if t.len() == 0 {
        "note"@
    } else if t.len() > MAX_SLUG_CHARS {
        t.take(MAX_SLUG_CHARS as int)
    } else {
        t
    }
}

/// A filename that is safe, readable and stable for a given title.
pub fn slugify(title: &str) -> (r: String)
    ensures
        r@ == slug_spec(title@),
{
    let v = chars_of(title);
    let mut slug: Vec<char> = Vec::new();
    let mut last_dash = true;
    let mut i: usize = 0;
    while i < v.len()
        invariant
            i <= v.len(),
            (slug@, last_dash) == slug_raw(v@.take(i as int)),
        decreases v.len() - i,
    {
        let c = v[i];
        assert(v@.take(i + 1).drop_last() =~= v@.take(i as int));
        if ('0' <= c && c <= '9') || ('a' <= c && c <= 'z') || ('A' <= c && c <= 'Z') {
            slug.push(to_ascii_lowercase(c));
            last_dash = false;
        } else if !last_dash {
            slug.push('-');
            last_dash = true;
        }
        i += 1;
    }
    assert(v@.take(i as int) =~= v@);
    let ghost raw = slug@;
    let mut a: usize = 0;
    assert(raw.skip(0) =~= raw);
    while a < slug.len() && slug[a] == '-'
        invariant
            a <= slug.len(),
            raw == slug@,
            trim_start_dash(raw) == trim_start_dash(raw.skip(a as int)),
        decreases slug.len() - a,
    {
        assert(raw.skip(a as int).drop_first() =~= raw.skip(a + 1));
        a += 1;
    }
    let ghost started = raw.skip(a as int);
    let mut b: usize = slug.len();
    assert(started.take(started.len() as int) =~= started);
    while b > a && slug[b - 1] == '-'
        invariant
            a <= b <= slug.len(),
            raw == slug@,
            started == raw.skip(a as int),
            trim_start_dash(raw) == started,
            trim_end_dash(started) == trim_end_dash(started.take(b - a)),
        decreases b,
    {
        assert(started.take(b - a).drop_last() =~= started.take(b - 1 - a));
        b -= 1;
    }
    assert(slug@.subrange(a as int, b as int) =~= started.take(b - a));
    if b == a {
        return copy_str("note");
    }
    let end = if b - a > MAX_SLUG_CHARS {
        a + MAX_SLUG_CHARS
    } else {
        b
    };
    let kept = slice_vec(&slug, a, end);
    assert(kept@ =~= slug_spec(title@));
    string_from_chars(&kept)
}

/// Two dashes in a row at `i`.
pub open spec fn dash_pair(s: Seq<char>, i: int) -> bool {
    s[i] == '-' && s[i + 1] == '-'
}

/// A character a slug may hold.
pub open spec fn slug_char(c: char) -> bool {
    ('a' <= c && c <= 'z') || ('0' <= c && c <= '9') || c == '-'
}

proof fn lemma_slug_raw(s: Seq<char>)
    ensures
        forall|i: int| 0 <= i < slug_raw(s).0.len() ==> slug_char(#[trigger] slug_raw(s).0[i]),
        forall|i: int| 0 <= i < slug_raw(s).0.len() - 1 ==> !#[trigger] dash_pair(slug_raw(s).0, i),
        slug_raw(s).1 == (slug_raw(s).0.len() == 0 || slug_raw(s).0.last() == '-'),
    decreases s.len(),
{
    if s.len() > 0 {
        lemma_slug_raw(s.drop_last());
        let (p, _) = slug_raw(s.drop_last());
        let c = s.last();
        if is_alnum(c) {
            assert(slug_char(ascii_lower(c)));
        }
        assert forall|i: int| 0 <= i < slug_raw(s).0.len() implies slug_char(#[trigger] slug_raw(s).0[i]) by {
            if i < p.len() {
                assert(slug_raw(s).0[i] == p[i]);
            }
        }
        assert forall|i: int| 0 <= i < slug_raw(s).0.len() - 1 implies !#[trigger] dash_pair(slug_raw(s).0, i) by {
            if i + 1 < p.len() {
                assert(dash_pair(p, i) == dash_pair(slug_raw(s).0, i));
            }
        }
    }
}

proof fn lemma_trim_start_dash(s: Seq<char>)
    ensures
        exists|k: int| 0 <= k <= s.len() && trim_start_dash(s) == #[trigger] s.skip(k),
        trim_start_dash(s).len() > 0 ==> trim_start_dash(s)[0] != '-',
    decreases s.len(),
{
    if s.len() > 0 && s[0] == '-' {
        lemma_trim_start_dash(s.drop_first());
        let k = choose|k: int| 0 <= k <= s.drop_first().len() && trim_start_dash(s.drop_first()) == #[trigger] s.drop_first().skip(k);
        assert(s.drop_first().skip(k) =~= s.skip(k + 1));
    } else {
        assert(s.skip(0) =~= s);
    }
}

proof fn lemma_trim_end_dash(s: Seq<char>)
    ensures
        exists|k: int| 0 <= k <= s.len() && trim_end_dash(s) == #[trigger] s.take(k),
    decreases s.len(),
{
    if s.len() > 0 && s.last() == '-' {
        lemma_trim_end_dash(s.drop_last());
        let k = choose|k: int| 0 <= k <= s.drop_last().len() && trim_end_dash(s.drop_last()) == #[trigger] s.drop_last().take(k);
        assert(s.drop_last().take(k) =~= s.take(k));
    } else {
        assert(s.take(s.len() as int) =~= s);
    }
}

/// A slug is safe as a file name and readable: never empty, at most
/// `MAX_SLUG_CHARS` characters, only lowercase ASCII letters, digits and
/// dashes, never a leading dash and never two dashes in a row. So it cannot
/// name a hidden file, a parent directory or another directory.
pub proof fn lemma_slug_is_safe(title: Seq<char>)
    ensures
        0 < slug_spec(title).len() <= MAX_SLUG_CHARS,
        forall|i: int| 0 <= i < slug_spec(title).len() ==> slug_char(#[trigger] slug_spec(title)[i]),
        slug_spec(title)[0] != '-',
        forall|i: int| 0 <= i < slug_spec(title).len() - 1 ==> !#[trigger] dash_pair(slug_spec(title), i),
{
    let raw = slug_raw(title).0;
    lemma_slug_raw(title);
    lemma_trim_start_dash(raw);
    let started = trim_start_dash(raw);
    let a = choose|k: int| 0 <= k <= raw.len() && started == #[trigger] raw.skip(k);
    lemma_trim_end_dash(started);
    let t = trim_end_dash(started);
    let b = choose|k: int| 0 <= k <= started.len() && t == #[trigger] started.take(k);
    assert forall|i: int| 0 <= i < t.len() implies t[i] == raw[a + i] by {
        assert(t[i] == started[i]);
    }
    if t.len() == 0 {
        reveal_strlit("note");
        assert(slug_spec(title) == "note"@);
        assert forall|i: int| 0 <= i < slug_spec(title).len() - 1 implies !#[trigger] dash_pair(slug_spec(title), i) by {
            assert(slug_spec(title)[i] != '-');
        }
    } else {
        assert(t[0] == started[0]);
        assert forall|i: int| 0 <= i < slug_spec(title).len() implies slug_spec(title)[i] == raw[a + i] by {
            assert(slug_spec(title)[i] == t[i]);
        }
        assert forall|i: int| 0 <= i < slug_spec(title).len() - 1 implies !#[trigger] dash_pair(slug_spec(title), i) by {
            assert(slug_spec(title)[i] == raw[a + i]);
            assert(slug_spec(title)[i + 1] == raw[a + i + 1]);
            assert(!dash_pair(raw, a + i));
        }
    }
}

/// What a note shows and is searched by.
pub struct NoteView {
    pub path: Seq<char>,
    pub title: Seq<char>,
    pub subtitle: Seq<char>,
    pub body_lower: Seq<char>,
}

/// One note: where it is, its title and preview, and the lowercased start
/// of its text.
pub struct Note {
    path: String,
    title: String,
    subtitle: String,
    body_lower: String,
}

impl View for Note {
    type V = NoteView;

    closed spec fn view(&self) -> NoteView {
        NoteView {
            path: self.path@,
            title: self.title@,
            subtitle: self.subtitle@,
            body_lower: self.body_lower@,
        }
    }
}

/// The part of a note's text that is searched.
pub open spec fn body_window(contents: Seq<char>) -> Seq<char> {
    if contents.len() > BODY_WINDOW {
        contents.take(BODY_WINDOW as int)
    } else {
        contents
    }
}

/// The note stored at `path` with text `contents`.
pub open spec fn note_spec(path: Seq<char>, contents: Seq<char>) -> NoteView {
    NoteView {
        path,
        title: title_spec(path, contents),
        subtitle: preview_spec(contents),
        body_lower: unicode_lowercase(body_window(contents)),
    }
}

impl Note {
    /// The note stored at `path` whose text is `contents`.
    pub fn read(path: String, contents: &str) -> (n: Note)
        ensures
            n@ == note_spec(path@, contents@),
    {
        let title = title_for(path.as_str(), contents);
        let subtitle = preview_for(contents);
        let v = chars_of(contents);
        let window = if v.len() > BODY_WINDOW {
            slice_vec(&v, 0, BODY_WINDOW)
        } else {
            slice_vec(&v, 0, v.len())
        };
        assert(window@ =~= body_window(contents@));
        let w = string_from_chars(&window);
        let body_lower = to_lowercase(w.as_str());
        Note { path, title, subtitle, body_lower }
    }
}

pub open spec fn note_views(v: Seq<Note>) -> Seq<NoteView> {
    Seq::new(v.len(), |i: int| v[i]@)
}

/// The title after `note `, when the query asks to create a note.
pub open spec fn capture_of(q: Seq<char>) -> Option<Seq<char>> {
    if has_prefix(q, KEYWORD@) && has_prefix(q.skip(4), " "@) && trim_start(q.skip(5)).len() > 0 {
        Some(trim_start(q.skip(5)))
    } else {
        None
    }
}

/// The row offering to create a note titled `title` in `directory`.
pub open spec fn create_row(title: Seq<char>, directory: Seq<char>) -> ItemView {
    ItemView {
        id: PROVIDER@ + ":"@ + ("new:"@ + title),
        provider: PROVIDER@,
        kind: "Note"@,
        title: "New note: "@ + title,
        subtitle: Some("Create in "@ + directory),
        icon: None,
        glyph: Some("\u{270e}"@),
        accessory: None,
        score: 900_000,
    }
}

/// How well a note answers `needle`: a fuzzy title match, or weaker
/// evidence, the needle appearing in the start of its text.
pub open spec fn relevance(n: NoteView, needle: Seq<char>) -> Option<i64> {
    match fuzzy_score(needle, n.title) {
        Some(s) => Some((s * 100) as i64),
        None => if has_infix(n.body_lower, unicode_lowercase(needle)) {
            Some(20_000)
        } else {
            None
        },
    }
}

pub open spec fn note_row(n: NoteView, relevance: i64) -> ItemView {
    ItemView {
        id: PROVIDER@ + ":"@ + n.path,
        provider: PROVIDER@,
        kind: "Note"@,
        title: n.title,
        subtitle: if n.subtitle.len() > 0 {
            Some(n.subtitle)
        } else {
            None
        },
        icon: None,
        glyph: Some("\u{1f5c9}"@),
        accessory: None,
        score: relevance,
    }
}

/// The rows of the notes that answer `needle`, in the notes' order.
pub open spec fn matching_rows(notes: Seq<NoteView>, needle: Seq<char>) -> Seq<ItemView>
    decreases notes.len(),
{
    if notes.len() == 0 {
        Seq::empty()
    } else {
        let rows = matching_rows(notes.drop_last(), needle);
        match relevance(notes.last(), needle) {
            Some(r) => rows.push(note_row(notes.last(), r)),
            None => rows,
        }
    }
}

/// What the notes provider shows for the query `q`: the offer to create a
/// note, pinned first, then the notes matching the title being typed (or the
/// whole query), once that has two characters.
pub open spec fn notes_rows(q: Seq<char>, directory: Seq<char>, notes: Seq<NoteView>) -> Seq<ItemView> {
    let head = match capture_of(q) {
        Some(t) => seq![create_row(t, directory)],
        None => Seq::empty(),
    };
    let needle = match capture_of(q) {
        Some(t) => t,
        None => q,
    };
    if needle.len() < 2 {
        head
    } else {
        head + matching_rows(notes, needle)
    }
}

/// What activating a note row asks for: creating the note for a `new:` row,
/// else opening the note's file in the viewer.
pub open spec fn note_activation(id: Seq<char>) -> (bool, Seq<char>) {
    if has_prefix(id, "new:"@) {
        (true, id.skip(4))
    } else {
        (false, id)
    }
}

pub struct NotesProvider {
    directory: String,
    notes: Vec<Note>,
}

impl NotesProvider {
    pub closed spec fn directory_view(&self) -> Seq<char> {
        self.directory@
    }

    pub closed spec fn notes_view(&self) -> Seq<NoteView> {
        note_views(self.notes@)
    }

    /// A provider for `directory`, with no notes read yet.
    pub fn new(directory: String) -> (r: Self)
        ensures
            r.directory_view() == directory@,
            r.notes_view() == Seq::<NoteView>::empty(),
    {
        let r = NotesProvider { directory, notes: Vec::new() };
        assert(r.notes_view() =~= Seq::<NoteView>::empty());
        r
    }

    pub fn directory(&self) -> (r: String)
        ensures
            r@ == self.directory_view(),
    {
        self.directory.clone()
    }

    /// Points the provider at `directory`. Returns whether it changed, in
    /// which case the notes must be read again.
    pub fn set_directory(&mut self, directory: String) -> (changed: bool)
        ensures
            changed == (directory@ != old(self).directory_view()),
            final(self).directory_view() == directory@,
            final(self).notes_view() == old(self).notes_view(),
    {
        if crate::text::str_eq(self.directory.as_str(), directory.as_str()) {
            return false;
        }
        self.directory = directory;
        true
    }

    /// Replaces the notes with freshly read ones.
    pub fn set_notes(&mut self, notes: Vec<Note>)
        ensures
            final(self).notes_view() == note_views(notes@),
            final(self).directory_view() == old(self).directory_view(),
    {
        self.notes = notes;
    }

    pub fn query(&self, q: &Query) -> (items: Vec<Item>)
        ensures
            item_views(items@) == notes_rows(q.trimmed@, self.directory_view(), self.notes_view()),
    {
        let qv = chars_of(q.trimmed.as_str());
        let kw = chars_of(KEYWORD);
        proof {
            reveal_strlit("note");
            reveal_strlit(" ");
        }
        let mut capture: Option<Vec<char>> = None;
        if seq_starts_with(&qv, &kw) && qv.len() > 4 && qv[4] == ' ' {
            let rest = slice_vec(&qv, 5, qv.len());
            let (a, _) = trim_bounds(&rest);
            if a < rest.len() {
                let t = slice_vec(&rest, a, rest.len());
                proof {
                    reveal_strlit("note");
                    reveal_strlit(" ");
                    assert(qv@.skip(4).subrange(0, 1) =~= seq![' ']);
                    assert(" "@ =~= seq![' ']);
                    assert(has_prefix(q.trimmed@.skip(4), " "@));
                    assert(rest@ =~= qv@.skip(5));
                    assert(t@ == trim_start(q.trimmed@.skip(5)));
                    assert(has_prefix(q.trimmed@, KEYWORD@));
                }
                capture = Some(t);
            }
        }
        proof {
            if capture is None && has_prefix(q.trimmed@, KEYWORD@) && has_prefix(q.trimmed@.skip(4), " "@) {
                assert(qv@.skip(4).subrange(0, 1)[0] == qv@[4]);
            }
        }
        assert(match capture {
            Some(t) => capture_of(q.trimmed@) == Some(t@),
            None => capture_of(q.trimmed@) is None,
        });
        let mut items: Vec<Item> = Vec::new();
        if let Some(t) = &capture {
            let title = string_from_chars(t);
            let id = concat("new:", title.as_str());
            let shown = concat("New note: ", title.as_str());
            let mut item = Item::new(PROVIDER, "Note", id, shown);
            item.subtitle = Some(concat("Create in ", self.directory.as_str()));
            item.glyph = Some(copy_str("\u{270e}"));
            item.score = 900_000;
            items.push(item);
        }
        let ghost head = item_views(items@);
        let needle = match capture {
            Some(t) => t,
            None => qv,
        };
        if needle.len() < 2 {
            return items;
        }
        let needle_str = string_from_chars(&needle);
        let lowered = to_lowercase(needle_str.as_str());
        let body_needle = chars_of(lowered.as_str());
        let mut matcher = new_matcher();
        let ghost all = note_views(self.notes@);
        let mut i: usize = 0;
        while i < self.notes.len()
            invariant
                i <= self.notes.len(),
                all == note_views(self.notes@),
                needle_str@ == needle@,
                body_needle@ == unicode_lowercase(needle@),
                item_views(items@) == head + matching_rows(all.take(i as int), needle@),
            decreases self.notes.len() - i,
        {
            let note = &self.notes[i];
            assert(all.take(i + 1).drop_last() =~= all.take(i as int));
            assert(all.take(i + 1).last() == note@);
            let title_score = score(needle_str.as_str(), note.title.as_str(), &mut matcher);
            let relevance: Option<i64> = match title_score {
                Some(s) => Some(s as i64 * 100),
                None => {
                    let body = chars_of(note.body_lower.as_str());
                    if seq_contains(&body, &body_needle) {
                        Some(20_000)
                    } else {
                        None
                    }
                },
            };
            if let Some(r) = relevance {
                let mut item = Item::new(PROVIDER, "Note", note.path.clone(), note.title.clone());
                item.subtitle = if note.subtitle.as_str().is_empty() {
                    None
                } else {
                    Some(note.subtitle.clone())
                };
                item.glyph = Some(copy_str("\u{1f5c9}"));
                item.score = r;
                let ghost before = items@;
                items.push(item);
                assert(item_views(items@) =~= item_views(before).push(items@[items@.len() - 1]@));
            }
            i += 1;
        }
        assert(all.take(i as int) =~= all);
        items
    }

    /// Creating a note for a `new:` row (the program then opens it), else
    /// opening the note's file in the viewer.
    pub fn activate(&self, id: &str, _action: Action) -> (r: Result<Activation, String>)
        ensures
            note_activation(id@).0 ==> (r matches Ok(Activation::CreateNote { title }) && title@ == note_activation(id@).1),
            !note_activation(id@).0 ==> (r matches Ok(Activation::Launch { program, args }) && program@ == VIEWER@
                && args@.len() == 1 && args@[0]@ == id@),
    {
        let v = chars_of(id);
        let marker = chars_of("new:");
        if seq_starts_with(&v, &marker) {
            proof {
                reveal_strlit("new:");
            }
            let title = crate::text::string_from_range(&v, 4, v.len());
            assert(title@ =~= id@.skip(4));
            Ok(Activation::CreateNote { title })
        } else {
            let mut args: Vec<String> = Vec::new();
            args.push(copy_str(id));
            Ok(Activation::Launch { program: copy_str(VIEWER), args })
        }
    }
}

/// The title a new note is created with: the requested one trimmed, which
/// must not be empty.
pub fn new_note_title(title: &str) -> (r: Result<String, String>)
    ensures
        trim(title@).len() > 0 ==> (r matches Ok(t) && t@ == trim(title@)),
        trim(title@).len() == 0 ==> (r matches Err(e) && e@ == "a note needs a title"@),
{
    let t = crate::text::trim_str(title);
    if t.as_str().is_empty() {
        Err(copy_str("a note needs a title"))
    } else {
        Ok(t)
    }
}

/// The file name for a note titled `title`: its slug, then `-<n>` when a
/// file of the plain name exists already, then `.md`.
pub open spec fn note_file_name_spec(title: Seq<char>, suffix: Option<u32>) -> Seq<char> {
    match suffix {
        None => slug_spec(title) + ".md"@,
        Some(n) => slug_spec(title) + "-"@ + crate::text::decimal(n as int) + ".md"@,
    }
}

pub fn note_file_name(title: &str, suffix: Option<u32>) -> (r: String)
    ensures
        r@ == note_file_name_spec(title@, suffix),
{
    let mut name = slugify(title);
    if let Some(n) = suffix {
        crate::text::append_str(&mut name, "-");
        crate::text::append_str(&mut name, int_to_string(n as i64).as_str());
    }
    crate::text::append_str(&mut name, ".md");
    name
}

/// What a new note starts with: its title as a heading and a blank line.
pub fn note_template(title: &str) -> (r: String)
    ensures
        r@ == "# "@ + title@ + "\n\n"@,
{
    let head = concat("# ", title);
    concat(head.as_str(), "\n\n")
}

} // verus!
