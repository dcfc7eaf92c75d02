//! The socket protocol: newline-delimited JSON, one request per line, one
//! response per line. The socket itself, and turning lines into values and
//! back, live around the library; the message types, the line framing with
//! its size cap, the client cap and the runtime directory rules are here.

use crate::config::{join_path, join_paths, Config};
use crate::limits::{clamp_text, clamped, MAX_CLIENTS, MAX_ERROR_CHARS, MAX_REQUEST_BYTES, MAX_RESPONSE_BYTES};
use crate::search::Item;
use crate::text::{append_str, byte_len, chars_of, concat, utf8_text};
use vstd::prelude::*;

verus! {

/// A request, tagged by `op` on the wire.
pub enum Request {
    Ping,
    Query { text: String },
    Activate { id: String, action: String },
    Config,
    SetConfig { config: Config },
    Reindex,
}

/// A request with the caller-chosen id its response carries back, so the
/// overlay can discard a response for a query the user has already typed
/// past. The field is `rid`, not `id`: `Activate` has an `id` of its own.
pub struct Envelope {
    pub rid: u64,
    pub request: Request,
}

pub struct Response {
    pub rid: u64,
    pub ok: bool,
    pub error: Option<String>,
    pub items: Option<Vec<Item>>,
    pub config: Option<Config>,
}

impl Response {
    pub fn ok() -> (r: Self)
        ensures
            r.rid == 0,
            r.ok,
            r.error is None,
            r.items is None,
            r.config is None,
    {
        Response { rid: 0, ok: true, error: None, items: None, config: None }
    }

    /// A failure carrying `message`. Error strings can embed
    /// attacker-influenced text (a path, an id), so they are bounded like
    /// every other field the UI displays.
    pub fn error(message: &str) -> (r: Self)
        ensures
            r.rid == 0,
            !r.ok,
            r.error matches Some(e) && e@ == clamped(message@, MAX_ERROR_CHARS as nat),
            r.items is None,
            r.config is None,
    {
        let text = clamp_text(message, MAX_ERROR_CHARS);
        Response { rid: 0, ok: false, error: Some(text), items: None, config: None }
    }
}

/// An error response's text is at most `MAX_ERROR_CHARS` characters and
/// holds no control characters, whatever the message.
pub proof fn lemma_error_text_bounded(message: Seq<char>)
    ensures
        clamped(message, MAX_ERROR_CHARS as nat).len() <= MAX_ERROR_CHARS,
        forall|i: int|
            0 <= i < clamped(message, MAX_ERROR_CHARS as nat).len() ==> !crate::text::is_ctrl(
                #[trigger] clamped(message, MAX_ERROR_CHARS as nat)[i],
            ),
{
    crate::limits::lemma_clamped_bounds(message, MAX_ERROR_CHARS as nat);
}

// ------------------------------------------------------------ line framing

/// What one more byte from the socket does to the line being read.
pub enum LineStep {
    /// The line goes on.
    Pending,
    /// A newline ended this line (without it).
    Line(Vec<u8>),
    /// The line would exceed `MAX_REQUEST_BYTES`; the connection is refused.
    TooLong,
}

/// Reads `\n`-terminated lines of at most `MAX_REQUEST_BYTES` bytes, one
/// byte at a time, so that an overlong line is refused without ever being
/// buffered beyond the cap.
pub struct LineReader {
    pending: Vec<u8>,
}

impl LineReader {
    /// The line read so far never exceeds the cap.
    #[verifier::type_invariant]
    spec fn within_cap(&self) -> bool {
        self.pending@.len() <= MAX_REQUEST_BYTES
    }

    /// The bytes of the line read so far.
    pub closed spec fn pending_bytes(&self) -> Seq<u8> {
        self.pending@
    }

    pub fn new() -> (r: Self)
        ensures
            r.pending_bytes() == Seq::<u8>::empty(),
    {
        LineReader { pending: Vec::new() }
    }

    pub fn push(&mut self, byte: u8) -> (step: LineStep)
        ensures
            old(self).pending_bytes().len() <= MAX_REQUEST_BYTES,
            final(self).pending_bytes().len() <= MAX_REQUEST_BYTES,
            byte == 10 ==> (step matches LineStep::Line(l) && l@ == old(self).pending_bytes()
                && final(self).pending_bytes() == Seq::<u8>::empty()),
            byte != 10 && old(self).pending_bytes().len() >= MAX_REQUEST_BYTES ==> (step is TooLong
                && final(self).pending_bytes() == old(self).pending_bytes()),
            byte != 10 && old(self).pending_bytes().len() < MAX_REQUEST_BYTES ==> (step is Pending
                && final(self).pending_bytes() == old(self).pending_bytes().push(byte)),
    {
        proof {
            use_type_invariant(&*self);
        }
        if byte == 10 {
            let mut line: Vec<u8> = Vec::new();
            std::mem::swap(&mut line, &mut self.pending);
            return LineStep::Line(line);
        }
        if self.pending.len() >= MAX_REQUEST_BYTES {
            return LineStep::TooLong;
        }
        let mut line: Vec<u8> = Vec::new();
        std::mem::swap(&mut line, &mut self.pending);
        line.push(byte);
        self.pending = line;
        LineStep::Pending
    }

    /// At the end of the stream: the last line, if it has any bytes.
    pub fn finish(&mut self) -> (r: Option<Vec<u8>>)
        ensures
            old(self).pending_bytes().len() == 0 ==> r is None,
            old(self).pending_bytes().len() > 0 ==> (r matches Some(l) && l@ == old(self).pending_bytes()),
            final(self).pending_bytes() == Seq::<u8>::empty(),
    {
        let mut line: Vec<u8> = Vec::new();
        std::mem::swap(&mut line, &mut self.pending);
        if line.len() == 0 {
            None
        } else {
            Some(line)
        }
    }
}

/// The text of a line, if it is UTF-8; a line that is not ends the
/// connection.
pub fn line_text(bytes: Vec<u8>) -> (r: Option<String>)
    ensures
        match r {
            Some(s) => vstd::utf8::valid_utf8(bytes@) && s@ == vstd::utf8::decode_utf8(bytes@),
            None => !vstd::utf8::valid_utf8(bytes@),
        },
{
    utf8_text(bytes)
}

/// Whether a request line is blank, and skipped.
pub fn is_blank(line: &str) -> (b: bool)
    ensures
        b == (crate::text::trim(line@).len() == 0),
{
    crate::text::trim_str(line).as_str().is_empty()
}

/// The line sent for a response encoded as `encoded`: it, unless it is
/// longer than `MAX_RESPONSE_BYTES` bytes, in which case `too_large` (the
/// encoding of a bounded error) goes instead; then a newline. The client is
/// a UI reading line by line and must never face a flood.
pub fn reply_line(encoded: String, too_large: String) -> (r: String)
    ensures
        r@ == (if byte_len(encoded@) > MAX_RESPONSE_BYTES {
            too_large@
        } else {
            encoded@
        }) + "\n"@,
{
    let v = chars_of(encoded.as_str());
    let mut out = if crate::text::byte_len_exceeds(&v, MAX_RESPONSE_BYTES) {
        too_large
    } else {
        encoded
    };
    append_str(&mut out, "\n");
    out
}

/// What is sent when even an error response cannot be encoded.
pub const ENCODING_FAILED: &'static str = "{\"rid\":0,\"ok\":false,\"error\":\"encoding failed\"}";

// -------------------------------------------------------------- client cap

/// How many clients are being served.
pub struct ClientCounter {
    in_use: usize,
}

/// One claimed place among the `MAX_CLIENTS` a daemon serves at once.
pub struct ClientSlot {
    held: (),
}

impl ClientCounter {
    /// Never more clients than the cap.
    #[verifier::type_invariant]
    spec fn within_cap(&self) -> bool {
        self.in_use <= MAX_CLIENTS
    }

    pub closed spec fn in_use(&self) -> nat {
        self.in_use as nat
    }

    pub fn new() -> (r: Self)
        ensures
            r.in_use() == 0,
    {
        ClientCounter { in_use: 0 }
    }
}

impl ClientSlot {
    /// Claims a slot, or refuses when the daemon is already at capacity.
    pub fn claim(counter: &mut ClientCounter) -> (r: Option<ClientSlot>)
        ensures
            old(counter).in_use() <= MAX_CLIENTS,
            old(counter).in_use() < MAX_CLIENTS ==> (r is Some && final(counter).in_use() == old(counter).in_use() + 1),
            old(counter).in_use() >= MAX_CLIENTS ==> (r is None && final(counter).in_use() == old(counter).in_use()),
            final(counter).in_use() <= MAX_CLIENTS,
    {
        proof {
            use_type_invariant(&*counter);
        }
        if counter.in_use >= MAX_CLIENTS {
            return None;
        }
        counter.in_use = counter.in_use + 1;
        Some(ClientSlot { held: () })
    }

    /// Gives the slot back when its client is gone.
    pub fn release(self, counter: &mut ClientCounter)
        ensures
            old(counter).in_use() > 0 ==> final(counter).in_use() == old(counter).in_use() - 1,
            old(counter).in_use() == 0 ==> final(counter).in_use() == 0,
    {
        proof {
            use_type_invariant(&*counter);
        }
        let ClientSlot { .. } = self;
        if counter.in_use > 0 {
            counter.in_use = counter.in_use - 1;
        }
    }
}

// --------------------------------------------------------- runtime directory

/// The digits of `n` in base 8.
pub open spec fn octal_digits(n: nat) -> Seq<char>
    decreases n,
{
    if n < 8 {
        seq![crate::text::digit_char(n as int)]
    } else {
        octal_digits((n / 8) as nat).push(crate::text::digit_char((n % 8) as int))
    }
}

fn push_octal(out: &mut Vec<char>, n: u32)
    ensures
        final(out)@ == old(out)@ + octal_digits(n as nat),
    decreases n,
{
    if n >= 8 {
        push_octal(out, n / 8);
    }
    let d = n % 8;
    let c = if d == 0 {
        '0'
    } else if d == 1 {
        '1'
    } else if d == 2 {
        '2'
    } else if d == 3 {
        '3'
    } else if d == 4 {
        '4'
    } else if d == 5 {
        '5'
    } else if d == 6 {
        '6'
    } else {
        '7'
    };
    assert(c == crate::text::digit_char(d as int));
    out.push(c);
    proof {
        if n >= 8 {
            assert(old(out)@ + octal_digits(n as nat) =~= old(out)@ + octal_digits((n / 8) as nat) + seq![c]);
        } else {
            assert(old(out)@ + octal_digits(n as nat) =~= old(out)@.push(c));
        }
    }
}

/// Why a runtime directory is refused for the socket, if it is: it must
/// belong to this user and be closed to everyone else.
pub open spec fn runtime_dir_problem(dir: Seq<char>, owner: u32, me: u32, mode: u32) -> Option<Seq<char>> {
    if owner != me {
        Some(dir + " is not owned by this user"@)
    } else if mode % 64 != 0 {
        Some(dir + " is accessible to other users (mode "@ + octal_digits((mode % 4096) as nat) + ")"@)
    } else {
        None
    }
}

/// Only `$XDG_RUNTIME_DIR` is acceptable for the socket, and only when it is
/// owned by this user with no access for group or others: the shared temp
/// directory would let any local user pre-create or replace the path.
pub fn check_runtime_dir(dir: &str, owner: u32, me: u32, mode: u32) -> (r: Result<(), String>)
    ensures
        match runtime_dir_problem(dir@, owner, me, mode) {
            None => r is Ok,
            Some(e) => r matches Err(m) && m@ == e,
        },
{
    if owner != me {
        return Err(concat(dir, " is not owned by this user"));
    }
    if mode % 64 != 0 {
        let mut out = concat(dir, " is accessible to other users (mode ");
        let mut digits: Vec<char> = Vec::new();
        push_octal(&mut digits, mode % 4096);
        append_str(&mut out, crate::text::string_from_chars(&digits).as_str());
        append_str(&mut out, ")");
        return Err(out);
    }
    Ok(())
}

/// The socket's path inside the runtime directory.
pub fn socket_file(dir: &str) -> (r: String)
    ensures
        r@ == join_path(dir@, "omarchycast.sock"@),
{
    join_paths(dir, "omarchycast.sock")
}

} // verus!
