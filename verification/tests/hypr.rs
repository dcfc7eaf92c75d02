//! Hotkey validation and the files the hotkey installation writes.

use omarchycastd::hypr::{binding_contents, install_hotkey, sourced_config, validate_hotkey, MARKER};

#[test]
fn accepts_ordinary_combinations() {
    assert_eq!(validate_hotkey(" ctrl + space ").unwrap(), "CTRL + SPACE");
    assert_eq!(validate_hotkey("SUPER + K").unwrap(), "SUPER + K");
}

#[test]
fn rejects_anything_that_could_inject_lua() {
    for bad in ["\") os.execute(\"rm -rf /", "SUPER + \"", "a\nb", ""] {
        assert!(validate_hotkey(bad).is_err(), "accepted {bad:?}");
    }
}

#[test]
fn refusals_say_why() {
    assert_eq!(validate_hotkey("").unwrap_err(), "hotkey must be between 1 and 64 characters");
    assert_eq!(validate_hotkey(&"K".repeat(65)).unwrap_err(), "hotkey must be between 1 and 64 characters");
    assert_eq!(validate_hotkey("SUPER + ;").unwrap_err(), "hotkey may only contain letters, digits, '+' and spaces");
    assert_eq!(validate_hotkey("super_l + k").unwrap(), "SUPER_L + K");
}

#[test]
fn binding_file_binds_the_hotkey() {
    let contents = binding_contents("CTRL + SPACE");
    assert!(contents.starts_with("-- Managed by Omarchycast."));
    assert!(contents.contains(
        "o.bind(\"CTRL + SPACE\", \"Omarchycast\", \"omarchy-shell shell toggle io.github.aditya-raj-tiwari.omarchycast\")\n"
    ));
    assert!(contents.contains("--     hl.unbind(\"CTRL + SPACE\")\n"));
    assert_eq!(install_hotkey(" ctrl + space ").unwrap(), contents);
    assert!(install_hotkey("a\"b").is_err());
}

#[test]
fn sourcing_is_added_exactly_once() {
    let updated = sourced_config("-- my config\n\n\n").expect("not sourced yet");
    assert!(updated.starts_with("-- my config\n-- Added by omarchycast:"));
    assert!(updated.ends_with("dofile(os.getenv(\"HOME\") .. \"/.config/hypr/omarchycast.lua\")\n"));
    assert!(updated.contains(MARKER));
    assert_eq!(sourced_config(&updated), None);
}
