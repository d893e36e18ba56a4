use mu_rust_ex::con_in::{classify_key, InputKey};
use mu_rust_ex::conout::console_units;
use mu_rust_ex::protocol_utility::RustProtocolError;

#[test]
fn console_units_pass_printable_ascii_through() {
    let units = console_units("Hi\r\n", 1024);
    assert_eq!(units, vec![0x48u16, 0x69, 0x0D, 0x0A, 0]);
}

#[test]
fn console_units_replace_unprintable_bytes() {
    // A two-byte UTF-8 character becomes two placeholder units.
    let units = console_units("é!", 1024);
    assert_eq!(units, vec![0xFEu16, 0xFE, 0x21, 0]);
    let tab = console_units("\t", 1024);
    assert_eq!(tab, vec![0xFEu16, 0]);
}

#[test]
fn console_units_truncate_to_the_cap() {
    let units = console_units("abcdef", 3);
    assert_eq!(units, vec![0x61u16, 0x62, 0x63, 0]);
    let empty = console_units("abc", 0);
    assert_eq!(empty, vec![0u16]);
}

#[test]
fn classify_zero_character_as_control_key() {
    assert_eq!(classify_key(0, 0x17), Ok(InputKey::Ctrl(0x17)));
}

#[test]
fn classify_scalar_values_as_characters() {
    assert_eq!(classify_key(0x41, 0), Ok(InputKey::Char('A')));
    assert_eq!(classify_key(0x4e2d, 9), Ok(InputKey::Char('中')));
}

#[test]
fn classify_rejects_surrogate_codes() {
    assert_eq!(
        classify_key(0xD800, 0),
        Err(RustProtocolError::InvalidParameter)
    );
}
