//! The rules behind reading and writing files another process could be
//! racing us for, and behind starting other programs. Every read is capped
//! before it allocates and validated through the descriptor it reads from;
//! every write lands in an exclusive temporary file beside the target and is
//! renamed over it. The system calls happen around the library; the checks,
//! names and modes they use are decided here.

use crate::text::{append_str, concat, copy_str, copy_strings, decimal, string_views, u64_to_string};
use vstd::prelude::*;

verus! {

/// Why an opened file is refused, if it is: it must be a regular file owned
/// by this user.
pub open spec fn opened_problem(path: Seq<char>, is_file: bool, owner: u32, me: u32) -> Option<Seq<char>> {
    if !is_file {
        Some(path + " is not a regular file"@)
    } else if owner != me {
        Some(path + " is owned by uid "@ + decimal(owner as int) + ", not "@ + decimal(me as int))
    } else {
        None
    }
}

/// Validates an opened file through its own descriptor's metadata, so the
/// answer cannot change between the check and the read.
pub fn check_opened(path: &str, is_file: bool, owner: u32, me: u32) -> (r: Result<(), String>)
    ensures
        match opened_problem(path@, is_file, owner, me) {
            None => r is Ok,
            Some(e) => r matches Err(m) && m@ == e,
        },
{
    if !is_file {
        return Err(concat(path, " is not a regular file"));
    }
    if owner != me {
        let mut m = concat(path, " is owned by uid ");
        append_str(&mut m, u64_to_string(owner as u64).as_str());
        append_str(&mut m, ", not ");
        append_str(&mut m, u64_to_string(me as u64).as_str());
        return Err(m);
    }
    Ok(())
}

/// A file over the limit is refused instead of truncated, so no caller ever
/// parses a fragment of a bigger file.
pub fn check_size(path: &str, size: u64, limit: u64) -> (r: Result<(), String>)
    ensures
        size <= limit ==> r is Ok,
        size > limit ==> (r matches Err(m) && m@ == path@ + " is "@ + decimal(size as int) + " bytes, over the "@
            + decimal(limit as int) + " byte limit"@),
{
    if size > limit {
        let mut m = concat(path, " is ");
        append_str(&mut m, u64_to_string(size).as_str());
        append_str(&mut m, " bytes, over the ");
        append_str(&mut m, u64_to_string(limit).as_str());
        append_str(&mut m, " byte limit");
        return Err(m);
    }
    Ok(())
}

/// A file that grew past the limit between the size check and the read is
/// refused too.
pub fn check_read_len(path: &str, read: u64, limit: u64) -> (r: Result<(), String>)
    ensures
        read <= limit ==> r is Ok,
        read > limit ==> (r matches Err(m) && m@ == path@ + " grew past the "@ + decimal(limit as int)
            + " byte limit while being read"@),
{
    if read > limit {
        let mut m = concat(path, " grew past the ");
        append_str(&mut m, u64_to_string(limit).as_str());
        append_str(&mut m, " byte limit while being read");
        return Err(m);
    }
    Ok(())
}

/// The mode an atomic rewrite gives the file: the existing regular file's
/// permission bits, so a rewrite never widens access, or private (0600) for
/// a new file.
pub fn inherited_mode(existing_is_file: Option<bool>, existing_mode: u32) -> (m: u32)
    ensures
        existing_is_file == Some(true) ==> m == existing_mode % 4096,
        existing_is_file != Some(true) ==> m == 0o600,
{
    match existing_is_file {
        Some(true) => existing_mode % 4096,
        _ => 0o600,
    }
}

/// A directory just created for private data is tightened to 0700 when it
/// is ours and open to group or others.
pub fn needs_tightening(is_dir: bool, owner: u32, me: u32, mode: u32) -> (b: bool)
    ensures
        b == (is_dir && owner == me && mode % 64 != 0),
{
    is_dir && owner == me && mode % 64 != 0
}

/// The exclusive temporary file beside a target named `name`.
pub fn temp_name(name: &str, pid: u32, nonce: u32) -> (r: String)
    ensures
        r@ == "."@ + name@ + "."@ + decimal(pid as int) + "."@ + decimal(nonce as int) + ".tmp"@,
{
    let mut out = concat(".", name);
    append_str(&mut out, ".");
    append_str(&mut out, u64_to_string(pid as u64).as_str());
    append_str(&mut out, ".");
    append_str(&mut out, u64_to_string(nonce as u64).as_str());
    append_str(&mut out, ".tmp");
    out
}

/// The ways to start `program` with `args`, in order: in its own systemd
/// user scope, so it gets an independent cgroup and survives the daemon;
/// else directly, the best available without systemd.
pub fn launch_attempts(program: &str, args: &Vec<String>) -> (r: Vec<(String, Vec<String>)>)
    ensures
        r@.len() == 2,
        r@[0].0@ == "systemd-run"@,
        string_views(r@[0].1@) == seq!["--user"@, "--collect"@, "--scope"@, "--quiet"@, "--"@, program@]
            + string_views(args@),
        r@[1].0@ == program@,
        string_views(r@[1].1@) == string_views(args@),
{
    let mut scoped: Vec<String> = Vec::new();
    scoped.push(copy_str("--user"));
    scoped.push(copy_str("--collect"));
    scoped.push(copy_str("--scope"));
    scoped.push(copy_str("--quiet"));
    scoped.push(copy_str("--"));
    scoped.push(copy_str(program));
    let ghost head = string_views(scoped@);
    let mut i: usize = 0;
    while i < args.len()
        invariant
            i <= args.len(),
            scoped@.len() == 6 + i,
            forall|k: int| 0 <= k < 6 ==> #[trigger] scoped@[k]@ == head[k],
            forall|k: int| 0 <= k < i ==> #[trigger] scoped@[6 + k]@ == args@[k]@,
            head.len() == 6,
        decreases args.len() - i,
    {
        let ghost before = scoped@;
        scoped.push(args[i].clone());
        assert(forall|k: int| 0 <= k < before.len() ==> #[trigger] scoped@[k] == before[k]);
        i += 1;
    }
    assert(head =~= seq!["--user"@, "--collect"@, "--scope"@, "--quiet"@, "--"@, program@]);
    assert(string_views(scoped@) =~= head + string_views(args@)) by {
        assert forall|k: int| 0 <= k < scoped@.len() implies #[trigger] string_views(scoped@)[k] == (head
            + string_views(args@))[k] by {
            if k < 6 {
                assert(scoped@[k]@ == head[k]);
            } else {
                assert(scoped@[6 + (k - 6)]@ == args@[k - 6]@);
            }
        }
    }
    let mut attempts: Vec<(String, Vec<String>)> = Vec::new();
    attempts.push((copy_str("systemd-run"), scoped));
    attempts.push((copy_str(program), copy_strings(args)));
    attempts
}

} // verus!
