use mu_rust_ex::auth_variable::EfiAuthVariable2;
use mu_rust_ex::rustified::{Time, TIME_ADJUST_DAYLIGHT, TIME_IN_DAYLIGHT};
use mu_rust_ex::variable::{efi_global_variable_guid, EfiVariable};
use r_efi::efi;

#[test]
fn auth_var_2_should_create_digest_to_sign() {
    let test_var = EfiAuthVariable2 {
        variable: EfiVariable {
            name: String::from("TestVar"),
            guid: efi_global_variable_guid(),
            data: Vec::<u8>::from([0xDEu8, 0xADu8, 0xBEu8, 0xEFu8]),
            attributes: (efi::VARIABLE_NON_VOLATILE | efi::VARIABLE_BOOTSERVICE_ACCESS),
        },
        time: Time { year: 2022, month: 04, day: 18, ..Default::default() }.to_efi(),
    };

    assert_eq!(
        test_var.get_tbs_data().unwrap(),
        &[
            0x54, 0x00, 0x65, 0x00, 0x73, 0x00, 0x74, 0x00, 0x56, 0x00, 0x61, 0x00, 0x72, 0x00,
            0x61, 0xDF, 0xE4, 0x8B, 0xCA, 0x93, 0xD2, 0x11, 0xAA, 0x0D, 0x00, 0xE0, 0x98, 0x03,
            0x2B, 0x8C, 0x03, 0x00, 0x00, 0x00, 0xE6, 0x07, 0x04, 0x12, 0x00, 0x00, 0x00, 0x00,
            0x00, 0x00, 0x00, 0x00, 0x00, 0x00, 0x00, 0x00, 0xDE, 0xAD, 0xBE, 0xEF
        ]
    );
}

#[test]
fn tbs_size_matches_layout() {
    let v = EfiAuthVariable2 {
        variable: EfiVariable {
            name: String::from("ab"),
            guid: efi_global_variable_guid(),
            data: vec![1, 2, 3],
            attributes: 0,
        },
        time: Time::default().to_efi(),
    };
    // Two name units, sixteen identifier bytes, four attribute bytes,
    // sixteen timestamp bytes, three payload bytes.
    assert_eq!(v.get_tbs_data_size(), 2 * 2 + 16 + 4 + 16 + 3);
    assert_eq!(v.get_tbs_data().unwrap().len(), v.get_tbs_data_size());
}

#[test]
fn tbs_buffer_overwrites_previous_content() {
    let v = EfiAuthVariable2 {
        variable: EfiVariable {
            name: String::new(),
            guid: efi_global_variable_guid(),
            data: vec![],
            attributes: 0x01020304,
        },
        time: Time::default().to_efi(),
    };
    let mut buffer = vec![0xFFu8; 3];
    let n = v.get_tbs_data_buffer(&mut buffer).unwrap();
    assert_eq!(n, 36);
    assert_eq!(buffer.len(), 36);
    // Attributes are little-endian right after the identifier.
    assert_eq!(&buffer[16..20], &[0x04, 0x03, 0x02, 0x01]);
}

#[test]
fn time_daylight_validation() {
    let mut raw = Time::default().to_efi();
    raw.daylight = TIME_ADJUST_DAYLIGHT | TIME_IN_DAYLIGHT;
    assert!(Time::try_from_efi(&raw).is_ok());

    // "In daylight" without "adjusts for daylight" is refused.
    raw.daylight = TIME_IN_DAYLIGHT;
    assert!(Time::try_from_efi(&raw).is_err());

    // Unknown bits are refused.
    raw.daylight = 0x04;
    assert!(Time::try_from_efi(&raw).is_err());

    raw.daylight = 0;
    let t = Time::try_from_efi(&raw).unwrap();
    assert_eq!(t, Time::default());
}

#[test]
fn time_round_trip_through_raw_layout() {
    let t = Time {
        year: 1999,
        month: 12,
        day: 31,
        hour: 23,
        minute: 59,
        second: 58,
        nanosecond: 7,
        timezone: -300,
        daylight: TIME_ADJUST_DAYLIGHT,
    };
    let raw = t.to_efi();
    assert_eq!(raw.pad1, 0);
    assert_eq!(raw.pad2, 0);
    assert_eq!(Time::try_from_efi(&raw).unwrap(), t);
}
