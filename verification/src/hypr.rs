//! Hotkey installation.
//!
//! Wayland gives no client-side global hotkey, so the binding lives in the
//! compositor's config: one small file of ours, and a single `dofile` line
//! added to `hyprland.lua`, so the change is obvious and trivially
//! reversible. Writing the files and reloading Hyprland happen around the
//! library; what is written is decided here.

use crate::text::{append_str, chars_of, has_infix, is_alnum, slice_vec, string_from_chars, to_uppercase, trim_str, unicode_uppercase, trim, byte_len, byte_len_exceeds, seq_contains};
use vstd::prelude::*;

verus! {

pub const PLUGIN_ID: &'static str = "io.github.aditya-raj-tiwari.omarchycast";

/// Marks the line this program added to `hyprland.lua`.
pub const MARKER: &'static str = "-- Added by omarchycast:";

/// Longest hotkey, in bytes.
pub const MAX_HOTKEY_BYTES: usize = 64;

/// A character a hotkey may hold: ASCII letters and digits, `+`, space and
/// `_`. No quote, backslash or newline, so a hotkey cannot leave the Lua
/// string it is written into.
pub open spec fn hotkey_char(c: char) -> bool {
    is_alnum(c) || c == '+' || c == ' ' || c == '_'
}

/// The hotkey as it is bound: trimmed and uppercased.
pub open spec fn cleaned_hotkey(hotkey: Seq<char>) -> Seq<char> {
    unicode_uppercase(trim(hotkey))
}

/// Rejects anything that isn't a plain `MOD + KEY` combination, so a settings
/// value can never turn into arbitrary Lua inside the user's config.
pub fn validate_hotkey(hotkey: &str) -> (r: Result<String, String>)
    ensures
        ({
            let c = cleaned_hotkey(hotkey@);
            if c.len() == 0 || byte_len(c) > MAX_HOTKEY_BYTES {
                r matches Err(e) && e@ == "hotkey must be between 1 and 64 characters"@
            } else if !(forall|i: int| 0 <= i < c.len() ==> hotkey_char(#[trigger] c[i])) {
                r matches Err(e) && e@ == "hotkey may only contain letters, digits, '+' and spaces"@
            } else {
                r matches Ok(h) && h@ == c
            }
        }),
        r matches Ok(h) ==> forall|i: int| 0 <= i < h@.len() ==> hotkey_char(#[trigger] h@[i]),
{
    let trimmed = trim_str(hotkey);
    let cleaned = to_uppercase(trimmed.as_str());
    let v = chars_of(cleaned.as_str());
    if v.len() == 0 || byte_len_exceeds(&v, MAX_HOTKEY_BYTES) {
        return Err(crate::text::copy_str("hotkey must be between 1 and 64 characters"));
    }
    let mut i: usize = 0;
    while i < v.len()
        invariant
            i <= v.len(),
            v@ == cleaned_hotkey(hotkey@),
            v@.len() > 0 && byte_len(v@) <= MAX_HOTKEY_BYTES,
            forall|k: int| 0 <= k < i ==> hotkey_char(#[trigger] v@[k]),
        decreases v.len() - i,
    {
        let c = v[i];
        if !(crate::text::is_ascii_alphanumeric(c) || c == '+' || c == ' ' || c == '_') {
            assert(!hotkey_char(v@[i as int]));
            return Err(crate::text::copy_str("hotkey may only contain letters, digits, '+' and spaces"));
        }
        i += 1;
    }
    Ok(cleaned)
}

/// The binding file for `hotkey`.
pub open spec fn binding_contents_spec(hotkey: Seq<char>) -> Seq<char> {
    "-- Managed by Omarchycast. This file is rewritten whenever the hotkey is\n"@
        + "-- changed from the launcher's settings panel, so edit it there instead.\n"@ + "--\n"@
        + "-- If this key is already bound by an Omarchy default, add\n"@ + "--     hl.unbind(\""@ + hotkey
        + "\")\n"@ + "-- to ~/.config/hypr/bindings.lua; unbinding it here would cancel the\n"@
        + "-- binding below, because unbinds are applied after binds.\n"@ + "o.bind(\""@ + hotkey
        + "\", \"Omarchycast\", \"omarchy-shell shell toggle "@ + PLUGIN_ID@ + "\")\n"@
}

/// The binding file's contents. Deliberately no `hl.unbind`: Omarchy's DSL
/// applies unbinds after binds, so unbinding the key being bound would
/// silently remove the binding.
pub fn binding_contents(hotkey: &str) -> (r: String)
    ensures
        r@ == binding_contents_spec(hotkey@),
{
    let mut out = crate::text::copy_str(
        "-- Managed by Omarchycast. This file is rewritten whenever the hotkey is\n",
    );
    append_str(&mut out, "-- changed from the launcher's settings panel, so edit it there instead.\n");
    append_str(&mut out, "--\n");
    append_str(&mut out, "-- If this key is already bound by an Omarchy default, add\n");
    append_str(&mut out, "--     hl.unbind(\"");
    append_str(&mut out, hotkey);
    append_str(&mut out, "\")\n");
    append_str(&mut out, "-- to ~/.config/hypr/bindings.lua; unbinding it here would cancel the\n");
    append_str(&mut out, "-- binding below, because unbinds are applied after binds.\n");
    append_str(&mut out, "o.bind(\"");
    append_str(&mut out, hotkey);
    append_str(&mut out, "\", \"Omarchycast\", \"omarchy-shell shell toggle ");
    append_str(&mut out, PLUGIN_ID);
    append_str(&mut out, "\")\n");
    out
}

/// What installing `hotkey` writes into the binding file: the validated
/// hotkey's binding, or why the hotkey is refused.
pub fn install_hotkey(hotkey: &str) -> (r: Result<String, String>)
    ensures
        match validate_hotkey_spec(hotkey@) {
            Ok(h) => r matches Ok(c) && c@ == binding_contents_spec(h),
            Err(e) => r matches Err(m) && m@ == e,
        },
{
    match validate_hotkey(hotkey) {
        Ok(h) => Ok(binding_contents(h.as_str())),
        Err(e) => Err(e),
    }
}

/// What `validate_hotkey` gives.
pub open spec fn validate_hotkey_spec(hotkey: Seq<char>) -> Result<Seq<char>, Seq<char>> {
    let c = cleaned_hotkey(hotkey);
    if c.len() == 0 || byte_len(c) > MAX_HOTKEY_BYTES {
        Err("hotkey must be between 1 and 64 characters"@)
    } else if !(forall|i: int| 0 <= i < c.len() ==> hotkey_char(#[trigger] c[i])) {
        Err("hotkey may only contain letters, digits, '+' and spaces"@)
    } else {
        Ok(c)
    }
}

/// `s` without its trailing newlines.
pub open spec fn trim_end_newlines(s: Seq<char>) -> Seq<char>
    decreases s.len(),
{
    if s.len() > 0 && s.last() == '\n' {
        trim_end_newlines(s.drop_last())
    } else {
        s
    }
}

/// The two lines that make `hyprland.lua` load the binding file.
pub open spec fn source_lines() -> Seq<char> {
    "\n"@ + MARKER@ + " loads the launcher hotkey. Remove these two lines to uninstall it.\n"@
        + "dofile(os.getenv(\"HOME\") .. \"/.config/hypr/omarchycast.lua\")\n"@
}

/// The new `hyprland.lua`, or none when it already loads the binding file.
pub open spec fn sourced_config_spec(existing: Seq<char>) -> Option<Seq<char>> {
    if has_infix(existing, MARKER@) {
        None
    } else {
        Some(trim_end_newlines(existing) + source_lines())
    }
}

/// Appends the `dofile` line to `hyprland.lua` exactly once: the new text
/// of the file, or none when it is already there.
pub fn sourced_config(existing: &str) -> (r: Option<String>)
    ensures
        crate::text::opt_view(r) == sourced_config_spec(existing@),
{
    let v = chars_of(existing);
    if seq_contains(&v, &chars_of(MARKER)) {
        return None;
    }
    let mut j = v.len();
    assert(v@.take(j as int) =~= v@);
    while j > 0 && v[j - 1] == '\n'
        invariant
            j <= v.len(),
            trim_end_newlines(v@) == trim_end_newlines(v@.take(j as int)),
        decreases j,
    {
        assert(v@.take(j as int).drop_last() =~= v@.take(j - 1));
        j -= 1;
    }
    let mut out = string_from_chars(&slice_vec(&v, 0, j));
    append_str(&mut out, "\n");
    append_str(&mut out, MARKER);
    append_str(&mut out, " loads the launcher hotkey. Remove these two lines to uninstall it.\n");
    append_str(&mut out, "dofile(os.getenv(\"HOME\") .. \"/.config/hypr/omarchycast.lua\")\n");
    Some(out)
}

/// Sourcing is done at most once: the text it produces already carries the
/// marker, so it is never appended a second time.
pub proof fn lemma_sourcing_is_idempotent(existing: Seq<char>)
    ensures
        sourced_config_spec(existing) matches Some(updated) ==> sourced_config_spec(updated) is None,
{
    if let Some(updated) = sourced_config_spec(existing) {
        let t = trim_end_newlines(existing);
        let at: int = t.len() as int + 1;
        reveal_strlit("\n");
        reveal_strlit("-- Added by omarchycast:");
        assert(updated == t + "\n"@ + MARKER@ + (" loads the launcher hotkey. Remove these two lines to uninstall it.\n"@
            + "dofile(os.getenv(\"HOME\") .. \"/.config/hypr/omarchycast.lua\")\n"@));
        assert(updated.subrange(at, at + MARKER@.len() as int) =~= MARKER@);
    }
}

} // verus!
