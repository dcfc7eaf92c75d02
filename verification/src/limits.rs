//! Hard bounds for everything that crosses a trust boundary.
//!
//! The daemon reads from a socket, from configuration, and from files on disk,
//! and hands text to a QML consumer. Each of those is a place where "however big
//! it happens to be" turns into an allocation, so every one of them gets a
//! ceiling here rather than a scattered magic number.

use crate::text::{chars_of, is_control, is_ctrl, opt_view, string_from_chars};
use vstd::prelude::*;

verus! {

/// A single request line. Anything longer is refused without being buffered.
pub const MAX_REQUEST_BYTES: usize = 64 * 1024;

/// A serialised response. Larger means a provider misbehaved; send an error instead.
pub const MAX_RESPONSE_BYTES: usize = 1024 * 1024;

/// Simultaneous socket clients. The real consumer is a single overlay.
pub const MAX_CLIENTS: usize = 8;

pub const MAX_QUERY_CHARS: usize = 512;

pub const MAX_ITEM_ID_BYTES: usize = 1024;

pub const MAX_ACTION_BYTES: usize = 32;

/// Total rows returned, and the ceiling a per-provider setting may request.
pub const MAX_RESULTS: usize = 50;

pub const MAX_PROVIDER_RESULTS: usize = 40;

pub const MAX_TITLE_CHARS: usize = 200;

pub const MAX_SUBTITLE_CHARS: usize = 300;

pub const MAX_ACCESSORY_CHARS: usize = 64;

pub const MAX_GLYPH_CHARS: usize = 8;

pub const MAX_ICON_PATH_BYTES: usize = 4096;

pub const MAX_ERROR_CHARS: usize = 300;

pub const MAX_CONFIG_BYTES: u64 = 64 * 1024;

pub const MAX_NOTE_BYTES: u64 = 1024 * 1024;

pub const MAX_NOTES: usize = 2000;

pub const MAX_HYPR_CONFIG_BYTES: u64 = 1024 * 1024;

pub const MAX_HOTKEY_CHARS: usize = 64;

pub const MAX_PATH_SETTING_CHARS: usize = 4096;

/// The characters of `s` with every control character left out.
pub open spec fn strip_controls(s: Seq<char>) -> Seq<char>
    decreases s.len(),
{
    if s.len() == 0 {
        s
    } else if is_ctrl(s.last()) {
        strip_controls(s.drop_last())
    } else {
        strip_controls(s.drop_last()).push(s.last())
    }
}

/// What `clamp_text` makes of `s`: control characters removed, then at most
/// `max` characters kept.
pub open spec fn clamped(s: Seq<char>, max: nat) -> Seq<char> {
    let t = strip_controls(s);
    if t.len() <= max {
        t
    } else {
        t.take(max as int)
    }
}

pub proof fn lemma_strip_controls_clean(s: Seq<char>)
    ensures
        forall|i: int|
            0 <= i < strip_controls(s).len() ==> !is_ctrl(#[trigger] strip_controls(s)[i]),
        strip_controls(s).len() <= s.len(),
    decreases s.len(),
{
    if s.len() > 0 {
        lemma_strip_controls_clean(s.drop_last());
    }
}

/// Clamping bounds: the result holds no control character, is at most
/// `max` characters long, and clamping it again changes nothing.
pub proof fn lemma_clamped_bounds(s: Seq<char>, max: nat)
    ensures
        clamped(s, max).len() <= max,
        forall|i: int| 0 <= i < clamped(s, max).len() ==> !is_ctrl(#[trigger] clamped(s, max)[i]),
        clamped(clamped(s, max), max) == clamped(s, max),
{
    lemma_strip_controls_clean(s);
    let c = clamped(s, max);
    lemma_strip_controls_identity(c);
}

/// Stripping a text that holds no control character leaves it as it was.
pub proof fn lemma_strip_controls_identity(s: Seq<char>)
    requires
        forall|i: int| 0 <= i < s.len() ==> !is_ctrl(#[trigger] s[i]),
    ensures
        strip_controls(s) == s,
    decreases s.len(),
{
    if s.len() > 0 {
        let t = s.drop_last();
        assert forall|i: int| 0 <= i < t.len() implies !is_ctrl(#[trigger] t[i]) by {
            assert(t[i] == s[i]);
        }
        lemma_strip_controls_identity(t);
        assert(!is_ctrl(s[s.len() - 1]));
        assert(t.push(s.last()) =~= s);
    }
}

/// Truncates on a character boundary and strips control characters, which have
/// no business in a search result and can misrepresent what a row says.
pub fn clamp_text(value: &str, max_chars: usize) -> (r: String)
    ensures
        r@ == clamped(value@, max_chars as nat),
{
    let v = chars_of(value);
    let mut out: Vec<char> = Vec::new();
    let mut i: usize = 0;
    while i < v.len()
        invariant
            i <= v.len(),
            v@ == value@,
            out@ == clamped(v@.take(i as int), max_chars as nat),
        decreases v.len() - i,
    {
        let ghost pre = v@.take(i as int);
        assert(v@.take(i + 1).drop_last() =~= pre);
        let c = v[i];
        if !is_control(c) && out.len() < max_chars {
            out.push(c);
        }
        proof {
            let t = strip_controls(pre);
            if !is_ctrl(c) {
                assert(strip_controls(v@.take(i + 1)) == t.push(c));
                if t.len() < max_chars {
                    assert(t.push(c).len() <= max_chars);
                } else {
                    assert(t.push(c).take(max_chars as int) =~= t.take(max_chars as int));
                }
            }
        }
        i += 1;
    }
    assert(v@.take(i as int) =~= value@);
    string_from_chars(&out)
}

/// What `clamp_text_opt` makes of an optional text: clamped, and absent when
/// nothing is left.
pub open spec fn clamped_opt(value: Option<Seq<char>>, max: nat) -> Option<Seq<char>> {
    match value {
        None => None,
        Some(v) => if clamped(v, max).len() == 0 {
            None
        } else {
            Some(clamped(v, max))
        },
    }
}

pub fn clamp_text_opt(value: Option<String>, max_chars: usize) -> (r: Option<String>)
    ensures
        opt_view(r) == clamped_opt(opt_view(value), max_chars as nat),
{
    match value {
        None => None,
        Some(v) => {
            let c = clamp_text(v.as_str(), max_chars);
            if c.as_str().is_empty() {
                None
            } else {
                Some(c)
            }
        },
    }
}

} // verus!
