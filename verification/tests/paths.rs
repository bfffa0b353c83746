//! The path rules: what is accepted, what is rejected, and the error
//! kind a rejection carries.

use neotron_sdk::Error;
use neotron_sdk::Path;

#[test]
fn full_absolute_path_is_valid() {
    let p = Path::new("HD0:/DOCUMENTS/JUNE/SALES.TXT").unwrap();
    assert!(p.is_absolute_path());
    assert_eq!(p.as_str(), "HD0:/DOCUMENTS/JUNE/SALES.TXT");
}

#[test]
fn relative_path_is_valid() {
    let p = Path::new("DOCUMENTS/JUNE/SALES.TXT").unwrap();
    assert!(!p.is_absolute_path());
}

#[test]
fn bare_drive_is_valid() {
    let p = Path::new("HD0:").unwrap();
    assert!(p.is_absolute_path());
}

#[test]
fn empty_path_is_invalid() {
    assert_eq!(Path::new("").unwrap_err(), Error::InvalidPath);
}

#[test]
fn rootless_absolute_path_is_invalid() {
    assert_eq!(Path::new("/FOO").unwrap_err(), Error::InvalidPath);
}

#[test]
fn relative_part_after_drive_is_invalid() {
    assert_eq!(Path::new("HD0:FOO").unwrap_err(), Error::InvalidPath);
}

#[test]
fn separator_inside_drive_is_invalid() {
    assert_eq!(Path::new("A/B:/C").unwrap_err(), Error::InvalidPath);
}

#[test]
fn second_drive_separator_is_invalid() {
    assert_eq!(Path::new("HD0:/A:B").unwrap_err(), Error::InvalidPath);
}

#[test]
fn control_characters_are_invalid() {
    assert_eq!(Path::new("BAD\u{1}NAME").unwrap_err(), Error::InvalidPath);
    assert_eq!(Path::new("BAD\u{7f}NAME").unwrap_err(), Error::InvalidPath);
    assert_eq!(Path::new("BAD\u{85}NAME").unwrap_err(), Error::InvalidPath);
}

#[test]
fn other_unicode_is_accepted() {
    assert!(Path::new("Documents/Sales in \u{20ac}.xls").is_ok());
    assert!(neotron_sdk::validate_path("caf\u{e9}.txt"));
}
