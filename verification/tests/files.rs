//! The file-safety rules and launch plans.

use omarchycastd::files::{
    check_opened, check_read_len, check_size, inherited_mode, launch_attempts, needs_tightening, temp_name,
};

#[test]
fn opened_files_must_be_regular_and_ours() {
    assert!(check_opened("/c", true, 1000, 1000).is_ok());
    assert_eq!(check_opened("/c", false, 1000, 1000).unwrap_err(), "/c is not a regular file");
    assert_eq!(check_opened("/c", true, 0, 1000).unwrap_err(), "/c is owned by uid 0, not 1000");
}

#[test]
fn sizes_are_capped() {
    assert!(check_size("/c", 5, 1024).is_ok());
    assert_eq!(check_size("/c", 5, 4).unwrap_err(), "/c is 5 bytes, over the 4 byte limit");
    assert_eq!(check_read_len("/c", 5, 4).unwrap_err(), "/c grew past the 4 byte limit while being read");
    assert!(check_read_len("/c", 4, 4).is_ok());
}

#[test]
fn modes_and_names() {
    assert_eq!(inherited_mode(Some(true), 0o100640), 0o640);
    assert_eq!(inherited_mode(Some(false), 0o40755), 0o600);
    assert_eq!(inherited_mode(None, 0), 0o600);
    assert!(needs_tightening(true, 1, 1, 0o755));
    assert!(!needs_tightening(true, 1, 1, 0o700));
    assert!(!needs_tightening(true, 1, 2, 0o777));
    assert_eq!(temp_name("config.json", 42, 7), ".config.json.42.7.tmp");
}

#[test]
fn programs_start_in_their_own_scope_first() {
    let attempts = launch_attempts("gio", &vec!["launch".to_string(), "x.desktop".to_string()]);
    assert_eq!(attempts[0].0, "systemd-run");
    assert_eq!(
        attempts[0].1,
        vec!["--user", "--collect", "--scope", "--quiet", "--", "gio", "launch", "x.desktop"]
            .into_iter()
            .map(String::from)
            .collect::<Vec<_>>()
    );
    assert_eq!(attempts[1].0, "gio");
    assert_eq!(attempts[1].1, vec!["launch".to_string(), "x.desktop".to_string()]);
}
