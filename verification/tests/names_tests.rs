use explorer_core::error::{CoreError, NameError};
use explorer_core::names::validate_entry_name;

fn refused(name: &str) -> Option<NameError> {
    match validate_entry_name(name) {
        Ok(()) => None,
        Err(CoreError::InvalidName(e)) => Some(e),
        Err(other) => panic!("unexpected error {other:?}"),
    }
}

#[test]
fn ordinary_names_are_accepted() {
    assert_eq!(refused("notes.txt"), None);
    assert_eq!(refused("My Folder"), None);
    assert_eq!(refused("  padded"), None);
    assert_eq!(refused("\tname\n"), None);
    assert_eq!(refused("CONSOLE"), None);
    assert_eq!(refused("COM0"), None);
    assert_eq!(refused("LPT10"), None);
    assert_eq!(refused("con-notes"), None);
    assert_eq!(refused(".hidden"), None);
    assert_eq!(refused("日本語"), None);
}

#[test]
fn empty_names_are_refused() {
    assert_eq!(refused(""), Some(NameError::Empty));
    assert_eq!(refused("   "), Some(NameError::Empty));
    assert_eq!(refused("\u{3000}\u{2003}"), Some(NameError::Empty));
}

#[test]
fn trailing_period_is_refused() {
    assert_eq!(refused("report."), Some(NameError::TrailingSpaceOrPeriod));
    assert_eq!(refused("."), Some(NameError::TrailingSpaceOrPeriod));
    assert_eq!(refused(".."), Some(NameError::TrailingSpaceOrPeriod));
    assert_eq!(refused("a. "), Some(NameError::TrailingSpaceOrPeriod));
}

#[test]
fn trailing_space_is_refused() {
    assert_eq!(refused("foo "), Some(NameError::TrailingSpaceOrPeriod));
    assert_eq!(refused("  padded  "), Some(NameError::TrailingSpaceOrPeriod));
}

#[test]
fn refused_characters() {
    for name in ["a<b", "a>b", "a:b", "a\"b", "a/b", "a\\b", "a|b", "a?b", "a*b", "a\u{1}b", "a\u{7f}b", "a\u{9f}b"] {
        assert_eq!(refused(name), Some(NameError::InvalidCharacters), "{name:?}");
    }
}

#[test]
fn reserved_device_names_are_refused() {
    for name in ["CON", "con", "Prn", "aux.txt", "NUL.tar.gz", "com1", "COM9.log", "lpt1", "Lpt5"] {
        assert_eq!(refused(name), Some(NameError::ReservedDeviceName), "{name:?}");
    }
}

#[test]
fn rules_apply_in_order() {
    assert_eq!(refused("con."), Some(NameError::TrailingSpaceOrPeriod));
    assert_eq!(refused("con:"), Some(NameError::InvalidCharacters));
}
