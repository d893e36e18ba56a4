use mu_rust_ex::image_authentication::{
    efi_cert_sha256_guid, efi_cert_x509_guid, SignatureList, SignatureListElement,
};
use mu_rust_ex::protocol_utility::{EfiGuid, RustProtocolError};

fn push_le32(v: &mut Vec<u8>, x: u32) {
    v.extend_from_slice(&x.to_le_bytes());
}

/// A list with the given header and elements, sized consistently.
fn build_list(list_type: &EfiGuid, header: &[u8], elements: &[(&EfiGuid, &[u8])]) -> Vec<u8> {
    let sig_size = if elements.is_empty() { 16 } else { 16 + elements[0].1.len() as u32 };
    let total = 28 + header.len() as u32 + elements.len() as u32 * sig_size;
    let mut v = Vec::new();
    v.extend_from_slice(list_type.as_bytes());
    push_le32(&mut v, total);
    push_le32(&mut v, header.len() as u32);
    push_le32(&mut v, sig_size);
    v.extend_from_slice(header);
    for (owner, data) in elements {
        v.extend_from_slice(owner.as_bytes());
        v.extend_from_slice(data);
    }
    v
}

#[test]
fn efi_sig_list_from_bytes_should_fail_for_buffer_too_small() {
    let test_buffer: &[u8] = &[0x62, 0x12, 0x13, 0x14];
    assert!(SignatureList::from_bytes(test_buffer).is_err());
}

#[test]
fn sig_list_parses_type_header_and_elements() {
    let owner = efi_cert_sha256_guid();
    let bytes = build_list(
        &efi_cert_x509_guid(),
        &[0xAA, 0xBB],
        &[(&owner, &[1, 2, 3, 4]), (&owner, &[5, 6, 7, 8])],
    );
    let list = SignatureList::from_bytes(&bytes).unwrap();
    assert_eq!(list.list_type, efi_cert_x509_guid());
    assert_eq!(list.header.as_deref(), Some(&[0xAAu8, 0xBB][..]));
    assert_eq!(list.elements.len(), 2);
    assert_eq!(list.elements[0].owner, owner);
    assert_eq!(list.elements[0].data, vec![1, 2, 3, 4]);
    assert_eq!(list.elements[1].data, vec![5, 6, 7, 8]);
}

#[test]
fn sig_list_without_header_has_none() {
    let owner = efi_cert_sha256_guid();
    let bytes = build_list(&efi_cert_sha256_guid(), &[], &[(&owner, &[9])]);
    let list = SignatureList::from_bytes(&bytes).unwrap();
    assert!(list.header.is_none());
    assert_eq!(list.elements.len(), 1);
    assert_eq!(list.elements[0].data, vec![9]);
}

#[test]
fn sig_list_too_small_for_header_is_invalid_parameter() {
    let bytes = [0u8; 27];
    assert!(matches!(
        SignatureList::from_bytes(&bytes),
        Err(RustProtocolError::InvalidParameter)
    ));
}

#[test]
fn sig_list_rejects_zero_signature_size() {
    let owner = efi_cert_sha256_guid();
    let mut bytes = build_list(&efi_cert_x509_guid(), &[], &[(&owner, &[1])]);
    // Overwrite the declared signature size with zero.
    bytes[24..28].copy_from_slice(&0u32.to_le_bytes());
    assert!(matches!(
        SignatureList::from_bytes(&bytes),
        Err(RustProtocolError::BadBufferSize)
    ));
}

#[test]
fn sig_list_rejects_declared_size_beyond_buffer() {
    let owner = efi_cert_sha256_guid();
    let bytes = build_list(&efi_cert_x509_guid(), &[], &[(&owner, &[1])]);
    // Drop the final byte so the declared size overruns the buffer.
    let truncated = &bytes[..bytes.len() - 1];
    assert!(matches!(
        SignatureList::from_bytes(truncated),
        Err(RustProtocolError::BadBufferSize)
    ));
}

#[test]
fn sig_list_rejects_misaligned_element_area() {
    let owner = efi_cert_sha256_guid();
    let mut bytes = build_list(&efi_cert_x509_guid(), &[], &[(&owner, &[1, 2, 3])]);
    // Declare a signature size that does not divide the element area.
    bytes[24..28].copy_from_slice(&18u32.to_le_bytes());
    assert!(matches!(
        SignatureList::from_bytes(&bytes),
        Err(RustProtocolError::BadBufferSize)
    ));
}

#[test]
fn sig_list_without_room_for_an_element_is_rejected() {
    // The declared sizes must leave room for at least one element.
    let bytes = build_list(&efi_cert_x509_guid(), &[0x11], &[]);
    assert!(matches!(
        SignatureList::from_bytes(&bytes),
        Err(RustProtocolError::BadBufferSize)
    ));
}

#[test]
fn sig_element_needs_sixteen_bytes() {
    assert!(matches!(
        SignatureListElement::from_bytes(&[0u8; 15]),
        Err(RustProtocolError::BadBufferSize)
    ));
    let owner = efi_cert_x509_guid();
    let mut bytes = Vec::new();
    bytes.extend_from_slice(owner.as_bytes());
    bytes.push(0x7F);
    let el = SignatureListElement::from_bytes(&bytes).unwrap();
    assert_eq!(el.owner, owner);
    assert_eq!(el.data, vec![0x7F]);
}
