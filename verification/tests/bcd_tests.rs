use wifl::bcd::{
    bcd_begin, bcd_step, BcdFailure, BcdPhase, BcdStep, bcd_script_succeeded, blkid_value, efi_boot_filename, gpt_device_cuts_cleanly,
    guid_cuts_cleanly, hivex_available, make_gpt_device, parse_guid, GuidError,
};
use wifl::text::IntErrorKind;

#[test]
fn efi_boot_filename_per_architecture() {
    assert_eq!(efi_boot_filename("arm64"), "bootaa64.efi");
    assert_eq!(efi_boot_filename("x86"), "bootia32.efi");
    assert_eq!(efi_boot_filename("amd64"), "bootx64.efi");
    assert_eq!(efi_boot_filename(""), "bootx64.efi");
}

#[test]
fn parse_guid_mixed_endian_layout() {
    let b = parse_guid("01234567-89ab-cdef-0123-456789abcdef").unwrap();
    assert_eq!(
        b,
        [
            0x67, 0x45, 0x23, 0x01, 0xab, 0x89, 0xef, 0xcd, 0x01, 0x23, 0x45, 0x67, 0x89, 0xab,
            0xcd, 0xef
        ]
    );
}

#[test]
fn parse_guid_braces_and_upper_case() {
    let a = parse_guid("{01234567-89AB-CDEF-0123-456789ABCDEF}").unwrap();
    let b = parse_guid("01234567-89ab-cdef-0123-456789abcdef").unwrap();
    assert_eq!(a, b);
}

#[test]
fn parse_guid_wrong_part_count() {
    match parse_guid("{0123-4567}") {
        Err(GuidError::Invalid(t)) => assert_eq!(t, "0123-4567"),
        other => panic!("unexpected {:?}", other),
    }
}

#[test]
fn parse_guid_bad_digit() {
    assert!(matches!(
        parse_guid("0123456z-89ab-cdef-0123-456789abcdef"),
        Err(GuidError::Number(IntErrorKind::InvalidDigit))
    ));
}

#[test]
fn parse_guid_field_overflow() {
    assert!(matches!(
        parse_guid("112345678-89ab-cdef-0123-456789abcdef"),
        Err(GuidError::Number(IntErrorKind::PosOverflow))
    ));
}

#[test]
fn parse_guid_empty_field() {
    assert!(matches!(
        parse_guid("01234567--cdef-0123-456789abcdef"),
        Err(GuidError::Number(IntErrorKind::Empty))
    ));
}

#[test]
fn parse_guid_tail_length() {
    match parse_guid("01234567-89ab-cdef-0123-456789abcde") {
        Err(GuidError::TailLength(t)) => assert_eq!(t, "456789abcde"),
        other => panic!("unexpected {:?}", other),
    }
}

#[test]
fn guid_tail_cut_inside_char_is_not_accepted() {
    let g = "01234567-89ab-cdef-0123-aaaaaaa\u{e9}aaa";
    assert!(!guid_cuts_cleanly(g));
    assert!(guid_cuts_cleanly("01234567-89ab-cdef-0123-456789abcdef"));
    assert!(guid_cuts_cleanly("bad"));
    assert!(guid_cuts_cleanly("01234567-89ab-cdef-0123-aaaaaaaa\u{e9}aa"));
    assert!(!gpt_device_cuts_cleanly(g, "x"));
    assert!(!gpt_device_cuts_cleanly("01234567-89ab-cdef-0123-456789abcdef", g));
    assert!(gpt_device_cuts_cleanly("bad", g));
}

#[test]
fn guid_tail_with_wide_char_after_cut() {
    // The cut after byte 8 falls between characters; the last four bytes
    // are not hexadecimal.
    assert!(matches!(
        parse_guid("01234567-89ab-cdef-0123-aaaaaaaa\u{e9}aa"),
        Err(GuidError::Number(IntErrorKind::InvalidDigit))
    ));
}

#[test]
fn gpt_device_layout() {
    let d = make_gpt_device(
        "01234567-89ab-cdef-0123-456789abcdef",
        "{fedcba98-7654-3210-fedc-ba9876543210}",
    )
    .unwrap();
    let part = parse_guid("01234567-89ab-cdef-0123-456789abcdef").unwrap();
    let disk = parse_guid("fedcba98-7654-3210-fedc-ba9876543210").unwrap();
    assert_eq!(d.len(), 88);
    assert_eq!(&d[16..20], &[6, 0, 0, 0]);
    assert_eq!(&d[24..28], &[0x48, 0, 0, 0]);
    assert_eq!(&d[32..48], &part);
    assert_eq!(&d[64..80], &disk);
    for (i, b) in d.iter().enumerate() {
        if !(16..20).contains(&i) && !(24..28).contains(&i) && !(32..48).contains(&i)
            && !(64..80).contains(&i)
        {
            assert_eq!(*b, 0, "byte {}", i);
        }
    }
}

#[test]
fn gpt_device_reports_first_bad_guid() {
    match make_gpt_device("bad", "also-bad") {
        Err(GuidError::Invalid(t)) => assert_eq!(t, "bad"),
        other => panic!("unexpected {:?}", other),
    }
    match make_gpt_device("01234567-89ab-cdef-0123-456789abcdef", "x") {
        Err(GuidError::Invalid(t)) => assert_eq!(t, "x"),
        other => panic!("unexpected {:?}", other),
    }
}

#[test]
fn blkid_value_trims_and_rejects_empty() {
    assert_eq!(blkid_value("  0f1e2d3c-01\n").as_deref(), Some("0f1e2d3c-01"));
    assert_eq!(blkid_value("\n"), None);
    assert_eq!(blkid_value(""), None);
}

#[test]
fn hivex_probe_answer() {
    assert!(hivex_available("1"));
    assert!(hivex_available(" 1\n"));
    assert!(!hivex_available(""));
    assert!(!hivex_available("11"));
}

#[test]
fn bcd_script_outcome() {
    assert!(bcd_script_succeeded(true, "objects added\nok\n"));
    assert!(!bcd_script_succeeded(false, "ok\n"));
    assert!(!bcd_script_succeeded(true, "failed\n"));
    assert!(!bcd_script_succeeded(true, "k"));
}

#[test]
fn guid_round_trip() {
    let b: [u8; 16] = [
        0x4d, 0xb8, 0x12, 0xb0, 0x7c, 0xc4, 0xd5, 0x4e, 0xb7, 0x22, 0xc0, 0xc4, 0x21, 0x63, 0xe5,
        0x69,
    ];
    let a = u32::from_le_bytes([b[0], b[1], b[2], b[3]]);
    let bb = u16::from_le_bytes([b[4], b[5]]);
    let c = u16::from_le_bytes([b[6], b[7]]);
    let d = u16::from_be_bytes([b[8], b[9]]);
    let mut e: u64 = 0;
    for x in &b[10..16] {
        e = e * 256 + *x as u64;
    }
    let g = format!("{:08x}-{:04x}-{:04x}-{:04x}-{:012x}", a, bb, c, d, e);
    assert_eq!(g, "b012b84d-c47c-4ed5-b722-c0c42163e569");
    assert_eq!(parse_guid(&g).unwrap(), b);
    assert_eq!(parse_guid(&g.to_uppercase()).unwrap(), b);
    assert_eq!(parse_guid(&format!("{{{}}}", g)).unwrap(), b);
}

#[test]
fn bcd_creation_order() {
    let mut p = bcd_begin();
    let mut seen = Vec::new();
    while let BcdPhase::Running(s) = p {
        seen.push(s);
        p = bcd_step(p, true);
    }
    assert_eq!(p, BcdPhase::Done);
    assert_eq!(
        seen,
        vec![
            BcdStep::ProbeHivex,
            BcdStep::CheckTemplate,
            BcdStep::ReadDiskGuid,
            BcdStep::ReadPartGuid,
            BcdStep::CheckDevice,
            BcdStep::CopyTemplate,
            BcdStep::WriteScript,
            BcdStep::RunScript
        ]
    );
    let mut p = bcd_begin();
    p = bcd_step(p, true);
    p = bcd_step(p, false);
    assert_eq!(p, BcdPhase::Failed(BcdFailure::TemplateMissing));
    assert_eq!(bcd_step(p, true), p);
    let mut p = bcd_begin();
    for _ in 0..2 {
        p = bcd_step(p, true);
    }
    assert_eq!(bcd_step(p, false), BcdPhase::Failed(BcdFailure::NoDiskGuid));
}
