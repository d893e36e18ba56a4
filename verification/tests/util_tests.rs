use mu_rust_ex::image_authentication::efi_cert_x509_guid;
use mu_rust_ex::protocol_utility::EfiGuid;
use mu_rust_ex::util::{DebugBuffer, DebugGuid};

#[test]
fn dump_renders_one_partial_row() {
    let data = vec![0x00u8, 0x41, 0xFF];
    let dump = DebugBuffer::new(&data).render();
    let text = String::from_utf8(dump).unwrap();
    let mut expected = String::from("0x0000:  ");
    expected += "00 41 FF ";
    expected += &"   ".repeat(5);
    expected += "- ";
    expected += &"   ".repeat(8);
    expected += "  ";
    expected += ".A.";
    expected += &" ".repeat(13);
    expected += "\n";
    assert_eq!(text, expected);
}

#[test]
fn dump_renders_full_rows_with_divider_and_offsets() {
    let data: Vec<u8> = (0u8..32).collect();
    let dump = DebugBuffer::new(&data).render();
    let text = String::from_utf8(dump).unwrap();
    let lines: Vec<&str> = text.lines().collect();
    assert_eq!(lines.len(), 2);
    assert!(lines[0].starts_with("0x0000:  00 01 02 03 04 05 06 07 - 08 09 0A 0B 0C 0D 0E 0F  "));
    assert!(lines[1].starts_with("0x0010:  10 11 12 13 14 15 16 17 - 18 19 1A 1B 1C 1D 1E 1F  "));
}

#[test]
fn dump_of_empty_buffer_is_empty() {
    let data: Vec<u8> = Vec::new();
    assert!(DebugBuffer::new(&data).render().is_empty());
}

#[test]
fn dump_ascii_column_shows_printable_bytes() {
    let data = b"Hi!~\x7f\x1f".to_vec();
    let dump = DebugBuffer::new(&data).render();
    let text = String::from_utf8(dump).unwrap();
    // 0x7F is within the printable range this dump uses; 0x1F is not.
    assert!(text.contains("Hi!~\x7f."));
}

#[test]
fn guid_renders_known_names() {
    let text = DebugGuid::from(efi_cert_x509_guid()).render();
    assert_eq!(String::from_utf8(text).unwrap(), "EFI_CERT_X509_GUID");
}

#[test]
fn guid_renders_unknown_fields_in_hex() {
    // The global-variable namespace identifier, not one of the named ones.
    let g = EfiGuid::from_fields(0x8BE4DF61, 0x93CA, 0x11D2, 0xAA, 0x0D,
        &[0x00, 0xE0, 0x98, 0x03, 0x2B, 0x8C]);
    let text = DebugGuid::from(g).render();
    assert_eq!(
        String::from_utf8(text).unwrap(),
        "UNKNOWN(8BE4DF61-93CA-11D2-AA0D-00E098032B8C)"
    );
}
