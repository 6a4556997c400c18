use nr_adf_lib::errors::Error;
use nr_adf_lib::fs::amiga_dos_options::InternationalMode;
use nr_adf_lib::fs::name::{check_name, hash_name};

#[test]
fn check_name_fails_with_an_invalid_name() {
    assert_eq!(check_name("foo:bar"), Err(Error::InvalidNameError));
    assert_eq!(check_name("foo/bar"), Err(Error::InvalidNameError));
}

#[test]
fn check_name_pass_with_a_valid_name() {
    assert_eq!(check_name("foo"), Ok(()));
    assert_eq!(check_name("amiga"), Ok(()));
}

#[test]
fn hash_name_is_ok() {
    assert_eq!(hash_name("foo", InternationalMode::Off), 15);
    assert_eq!(hash_name("bar", InternationalMode::Off), 24);
}

#[test]
fn check_name_rejects_control_characters_and_separators() {
    assert_eq!(check_name("a:b"), Err(Error::InvalidNameError));
    assert_eq!(check_name("tab\there"), Err(Error::InvalidNameError));
    assert_eq!(check_name("\u{1f}"), Err(Error::InvalidNameError));
    assert_eq!(check_name(" "), Ok(()));
    assert_eq!(check_name(""), Ok(()));
}

#[test]
fn hash_name_folds_case() {
    assert_eq!(
        hash_name("FOO", InternationalMode::Off),
        hash_name("foo", InternationalMode::Off)
    );
    assert_eq!(hash_name("", InternationalMode::Off), 0);
    // 'a' alone: (1 * 13 + 0x41) & 0x7ff = 78, and 78 % 72 = 6.
    assert_eq!(hash_name("a", InternationalMode::Off), 6);
    assert_eq!(hash_name("A", InternationalMode::On), 6);
}

#[test]
fn hash_name_international_mode_folds_latin1_letters() {
    // U+00E9 is two bytes in UTF-8, 0xc3 0xa9: neither is folded.
    let plain = hash_name("\u{e9}", InternationalMode::Off);
    let intl = hash_name("\u{e9}", InternationalMode::On);
    // (2 * 13 + 0xc3) & 0x7ff = 221; (221 * 13 + 0xa9) & 0x7ff = 3042 & 0x7ff = 994; 994 % 72 = 58.
    assert_eq!(plain, 58);
    assert_eq!(intl, 58);
}
