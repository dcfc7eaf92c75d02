//! The protocol's message framing, responses, client cap and socket rules.

use omarchycastd::ipc::{
    check_runtime_dir, is_blank, line_text, reply_line, socket_file, ClientCounter, ClientSlot, LineReader,
    LineStep, Response,
};
use omarchycastd::limits::{MAX_CLIENTS, MAX_ERROR_CHARS, MAX_REQUEST_BYTES, MAX_RESPONSE_BYTES};

#[test]
fn error_text_is_bounded() {
    let long = "e".repeat(10_000);
    let r = Response::error(&long);
    assert!(r.error.unwrap().chars().count() <= MAX_ERROR_CHARS);
}

#[test]
fn client_slots_enforce_the_cap() {
    let mut counter = ClientCounter::new();
    let mut held = Vec::new();
    for _ in 0..MAX_CLIENTS {
        held.push(ClientSlot::claim(&mut counter).expect("slot within cap"));
    }
    assert!(ClientSlot::claim(&mut counter).is_none(), "over-cap claim must fail");
    held.pop().unwrap().release(&mut counter);
    assert!(ClientSlot::claim(&mut counter).is_some(), "released slot must be reusable");
}

fn feed(reader: &mut LineReader, bytes: &[u8]) -> Vec<Vec<u8>> {
    let mut lines = Vec::new();
    for &b in bytes {
        match reader.push(b) {
            LineStep::Line(l) => lines.push(l),
            LineStep::Pending => {}
            LineStep::TooLong => panic!("unexpected overflow"),
        }
    }
    lines
}

#[test]
fn lines_are_cut_at_newlines() {
    let mut reader = LineReader::new();
    let lines = feed(&mut reader, b"{\"op\":\"ping\"}\n{\"op\":\"config\"}\ntail");
    assert_eq!(lines, vec![b"{\"op\":\"ping\"}".to_vec(), b"{\"op\":\"config\"}".to_vec()]);
    assert_eq!(reader.finish(), Some(b"tail".to_vec()));
    assert_eq!(reader.finish(), None);
}

#[test]
fn an_overlong_line_is_refused_at_the_cap() {
    let mut reader = LineReader::new();
    for _ in 0..MAX_REQUEST_BYTES {
        assert!(matches!(reader.push(b'x'), LineStep::Pending));
    }
    assert!(matches!(reader.push(b'x'), LineStep::TooLong));
    match reader.push(b'\n') {
        LineStep::Line(l) => assert_eq!(l.len(), MAX_REQUEST_BYTES),
        _ => panic!("a newline ends the line"),
    }
}

#[test]
fn line_text_requires_utf8() {
    assert_eq!(line_text(b"caf\xc3\xa9".to_vec()), Some("café".to_string()));
    assert_eq!(line_text(vec![0xff, 0xfe]), None);
    assert!(is_blank("  \t "));
    assert!(!is_blank(" x "));
}

#[test]
fn oversized_replies_are_replaced() {
    assert_eq!(reply_line("{\"ok\":true}".into(), "small".into()), "{\"ok\":true}\n");
    let big = "x".repeat(MAX_RESPONSE_BYTES + 1);
    assert_eq!(reply_line(big, "{\"ok\":false}".into()), "{\"ok\":false}\n");
}

#[test]
fn responses_start_clean() {
    let ok = Response::ok();
    assert!(ok.ok && ok.error.is_none() && ok.items.is_none() && ok.config.is_none() && ok.rid == 0);
    let err = Response::error("bad \u{1b}thing");
    assert!(!err.ok);
    assert_eq!(err.error.as_deref(), Some("bad thing"));
}

#[test]
fn runtime_directory_must_be_private() {
    assert!(check_runtime_dir("/run/user/1000", 1000, 1000, 0o40700).is_ok());
    assert_eq!(check_runtime_dir("/run/user/1000", 0, 1000, 0o700).unwrap_err(), "/run/user/1000 is not owned by this user");
    assert_eq!(
        check_runtime_dir("/tmp", 1000, 1000, 0o41777).unwrap_err(),
        "/tmp is accessible to other users (mode 1777)"
    );
    assert_eq!(socket_file("/run/user/1000"), "/run/user/1000/omarchycast.sock");
}

#[test]
fn oversized_request_lines_are_refused() {
    // One byte over the limit, no newline yet: must be refused, not buffered on.
    let mut reader = LineReader::new();
    let big = vec![b'x'; MAX_REQUEST_BYTES + 1];
    let mut refused = false;
    for b in big {
        if let LineStep::TooLong = reader.push(b) {
            refused = true;
            break;
        }
    }
    assert!(refused);
}

#[test]
fn bounded_lines_within_the_limit_pass() {
    let mut reader = LineReader::new();
    let lines = feed(&mut reader, b"{\"op\":\"ping\"}\n");
    assert_eq!(lines.len(), 1);
    assert_eq!(line_text(lines[0].clone()).unwrap(), "{\"op\":\"ping\"}");
}
