use mu_rust_ex::os_str::OsStr;
use mu_rust_ex::os_string::OsString;

#[test]
fn test_os_str() {
    let path = [0x4e2du16, 0x56fdu16, 0x0u16];
    let path_osstr_nul = OsStr::from_u16_slice(&path[..]);
    let path_osstr = OsStr::from_u16_slice_with_nul(&path[..]);
    assert!(path_osstr.eq_str("中国"));
    assert!(path_osstr_nul.eq_str("中国\0"));
    assert_ne!(path_osstr, path_osstr_nul);
    assert!(!path_osstr.eq_str("中1"));
}

#[test]
fn os_str_len_and_emptiness() {
    let units = [0x61u16, 0x62u16];
    let s = OsStr::new(&units[..]);
    assert_eq!(s.len(), 2);
    assert!(!s.is_empty());
    let none: [u16; 0] = [];
    assert!(OsStr::new(&none[..]).is_empty());
}

#[test]
fn os_str_iter_and_slice() {
    let units = [0x61u16, 0x62u16, 0x63u16];
    let s = OsStr::from_u16_slice(&units[..]);
    assert_eq!(s.as_u16_slice(), &units[..]);
    let collected: Vec<u16> = s.iter().copied().collect();
    assert_eq!(collected, vec![0x61, 0x62, 0x63]);
}

#[test]
fn os_str_to_utf8_round_trips() {
    let units = [0x4e2du16, 0x56fdu16, 0x41u16];
    let s = OsStr::from_u16_slice(&units[..]);
    let bytes = s.to_utf8().unwrap();
    assert_eq!(core::str::from_utf8(&bytes), Ok("中国A"));
}

#[test]
fn os_str_nul_prefix_stops_at_first_nul() {
    let units = [0x61u16, 0x0u16, 0x62u16];
    let s = OsStr::from_u16_slice_with_nul(&units[..]);
    assert_eq!(s.len(), 1);
    assert!(s.eq_str("a"));
}

#[test]
fn os_string_from_str_appends_nul() {
    let s = OsString::from_str("ab");
    assert_eq!(s.as_u16_slice(), &[0x61u16, 0x62, 0][..]);
}

#[test]
fn os_string_from_str_stops_before_wide_character() {
    let s = OsString::from_str("a😀b");
    assert_eq!(s.as_u16_slice(), &[0x61u16, 0][..]);
}

#[test]
fn os_string_push_appends_units() {
    let mut s = OsString::new();
    assert_eq!(s.len(), 0);
    let units = [0x4e2du16];
    s.push(&OsStr::new(&units[..]));
    s.push(&OsStr::new(&units[..]));
    assert_eq!(s.as_u16_slice(), &[0x4e2du16, 0x4e2d][..]);
}

#[test]
fn os_str_to_os_string_round_trip() {
    let units = [0x10u16, 0x20u16];
    let owned = OsStr::new(&units[..]).to_os_string();
    assert_eq!(owned.as_os_str(), OsStr::new(&units[..]));
    assert_eq!(OsString::default().len(), 0);
}
