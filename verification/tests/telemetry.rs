use zebras::{PrinterInfo, PrinterStatus};

#[test]
fn status_with_error_bits_decodes_exactly_those_bits() {
    let response = "  PRINTER STATUS                          \n\
                    ERRORS:         1 00000000 00000005      \n\
                    WARNINGS:       0 00000000 00000000      \n";
    let status = PrinterStatus::parse(response).unwrap();
    assert!(status.errors.contains(0x00000001));
    assert!(status.errors.contains(0x00000004));
    assert!(!status.errors.contains(0x00000002));
    assert!(!status.errors.contains(0x00000008));
    let descs = status.errors.to_descriptions();
    assert_eq!(
        descs,
        vec![
            "Media out or not loaded".to_string(),
            "Head open / Cover open".to_string()
        ]
    );
    assert!(!status.is_ok());
    assert!(status.has_errors());
    assert!(!status.has_warnings());
}

#[test]
fn status_without_labels_is_ok() {
    let status = PrinterStatus::parse("nothing to see here\njust text\n").unwrap();
    assert!(status.errors.is_empty());
    assert!(status.warnings.is_empty());
    assert!(status.is_ok());
    assert!(status.errors.to_descriptions().is_empty());
    assert!(status.warnings.to_descriptions().is_empty());
}

#[test]
fn status_with_warning_bits_sets_warnings() {
    let response = "ERRORS: 0 00000000 00000000\nWARNINGS: 1 00000000 00000003\n";
    let status = PrinterStatus::parse(response).unwrap();
    assert!(status.is_ok() == false);
    assert!(!status.has_errors());
    assert!(status.has_warnings());
    assert_eq!(
        status.warnings.to_descriptions(),
        vec![
            "Need to calibrate media".to_string(),
            "Clean printhead".to_string()
        ]
    );
}

#[test]
fn status_with_malformed_hex_fails_with_the_token() {
    let err = PrinterStatus::parse("ERRORS: 1 00000000 XYZ\n").unwrap_err();
    assert_eq!(err, "Invalid hex value: XYZ");
}

#[test]
fn status_with_short_labeled_line_fails() {
    let err = PrinterStatus::parse("ERRORS: 1\n").unwrap_err();
    assert_eq!(err, "Missing hex value");
}

#[test]
fn descriptions_come_in_bit_position_order() {
    let flags = zebras::ErrorFlags::from_hex(0x0000_1009);
    assert_eq!(
        flags.to_descriptions(),
        vec![
            "Media out or not loaded".to_string(),
            "Cutter fault".to_string(),
            "Printer paused".to_string()
        ]
    );
}

#[test]
fn unknown_status_bits_are_ignored() {
    let flags = zebras::ErrorFlags::from_hex(0x8000_0000);
    assert!(!flags.is_empty());
    assert!(flags.to_descriptions().is_empty());
}

#[test]
fn serial_number_takes_quoted_line_content() {
    assert_eq!(
        PrinterInfo::parse_serial_number("\"ZBR1234567\"\n"),
        Some("ZBR1234567".to_string())
    );
}

#[test]
fn serial_number_takes_first_plain_line_and_skips_tags() {
    assert_eq!(
        PrinterInfo::parse_serial_number("<STX>\nZBR001\n"),
        Some("ZBR001".to_string())
    );
    assert_eq!(PrinterInfo::parse_serial_number("\n\n"), None);
}

#[test]
fn hardware_address_reformats_twelve_hex_digits() {
    assert_eq!(
        PrinterInfo::parse_hardware_address("001122AABBCC"),
        Some("00:11:22:AA:BB:CC".to_string())
    );
}

#[test]
fn hardware_address_passes_non_hex_line_through() {
    assert_eq!(
        PrinterInfo::parse_hardware_address("ZZ1122AABBCC"),
        Some("ZZ1122AABBCC".to_string())
    );
}

#[test]
fn odometer_reads_two_lines() {
    let info = PrinterInfo::parse_odometer(" 12345 \n 678 \n").unwrap();
    assert_eq!(info.total_print_length, "12345");
    assert_eq!(info.total_labels, "678");
    assert_eq!(PrinterInfo::parse_odometer("only one line"), None);
}

#[test]
fn printhead_life_reads_two_lines() {
    let info = PrinterInfo::parse_printhead_life("1000\n50\n").unwrap();
    assert_eq!(info.used_inches, "1000");
    assert_eq!(info.total_labels, "50");
    assert_eq!(PrinterInfo::parse_printhead_life(""), None);
}

#[test]
fn plug_and_play_joins_nonempty_trimmed_lines() {
    let s = PrinterInfo::parse_plug_and_play("  MFG:Zebra  \n\n  MDL:ZT410  \n").unwrap();
    assert_eq!(s, "MFG:Zebra\nMDL:ZT410");
    assert_eq!(PrinterInfo::parse_plug_and_play("  \n \n"), None);
}

#[test]
fn host_status_reads_positional_lines() {
    let h = PrinterInfo::parse_host_status("COMM\n1\n0\n200\n42\n").unwrap();
    assert_eq!(h.communication_mode, "COMM");
    assert!(h.paper_out);
    assert!(!h.pause);
    assert_eq!(h.label_length, "200");
    assert_eq!(h.labels_remaining, "42");
}

#[test]
fn host_status_defaults_missing_fifth_line() {
    let h = PrinterInfo::parse_host_status("COMM\n0\n1\n200\n").unwrap();
    assert!(!h.paper_out);
    assert!(h.pause);
    assert_eq!(h.labels_remaining, "0");
    assert_eq!(PrinterInfo::parse_host_status("a\nb\nc\n"), None);
}

#[test]
fn sensor_media_status_defaults_missing_lines() {
    let m = PrinterInfo::parse_sensor_media_status("GAP\n").unwrap();
    assert_eq!(m.media_type, "GAP");
    assert_eq!(m.sensor_profile, "Unknown");
    assert!(!m.media_detected);
    assert!(!m.ribbon_detected);
    let m = PrinterInfo::parse_sensor_media_status("GAP\nPROFILE\n1\n1\n").unwrap();
    assert!(m.media_detected);
    assert!(m.ribbon_detected);
    assert_eq!(PrinterInfo::parse_sensor_media_status(""), None);
}

#[test]
fn alerts_decode_known_codes_and_keep_raw_text() {
    let a = PrinterInfo::parse_alerts("1\n3\nCUSTOM\n").unwrap();
    assert_eq!(
        a.active_alerts,
        vec![
            "Head Open".to_string(),
            "Media Out".to_string(),
            "CUSTOM".to_string()
        ]
    );
    assert_eq!(a.raw_codes, "1\n3\nCUSTOM\n");
}

#[test]
fn alerts_absent_when_reply_is_empty_or_zero() {
    assert_eq!(PrinterInfo::parse_alerts(""), None);
    assert_eq!(PrinterInfo::parse_alerts("  0  "), None);
    assert_eq!(PrinterInfo::parse_alerts("0\n0\n"), None);
}

#[test]
fn supplies_status_parses_optional_percentage() {
    let s = PrinterInfo::parse_supplies_status("OK\nLOW\n75\n").unwrap();
    assert_eq!(s.media_status, "OK");
    assert_eq!(s.ribbon_status, "LOW");
    assert_eq!(s.media_remaining_percent, Some(75));
    let s = PrinterInfo::parse_supplies_status("OK\n").unwrap();
    assert_eq!(s.ribbon_status, "Unknown");
    assert_eq!(s.media_remaining_percent, None);
    let s = PrinterInfo::parse_supplies_status("OK\nLOW\nmany\n").unwrap();
    assert_eq!(s.media_remaining_percent, None);
}

#[test]
fn battery_capacity_extracts_digits_and_charging_markers() {
    let b = PrinterInfo::parse_battery_capacity("87 CHARGING\n").unwrap();
    assert_eq!(b.charge_percent, "87%");
    assert!(b.charging);
    let b = PrinterInfo::parse_battery_capacity("FULL\n").unwrap();
    assert_eq!(b.charge_percent, "FULL");
    assert!(!b.charging);
    assert_eq!(PrinterInfo::parse_battery_capacity("   \n"), None);
    assert_eq!(PrinterInfo::parse_battery_capacity(""), None);
}

#[test]
fn label_dimensions_reads_two_lines() {
    let d = PrinterInfo::parse_label_dimensions("800\n1200\n").unwrap();
    assert_eq!(d.width, "800");
    assert_eq!(d.height, "1200");
    assert_eq!(PrinterInfo::parse_label_dimensions("800"), None);
}

#[test]
fn firmware_version_is_trimmed_reply() {
    assert_eq!(
        PrinterInfo::parse_firmware_version("  V72.19.x  \n"),
        Some("V72.19.x".to_string())
    );
    assert_eq!(PrinterInfo::parse_firmware_version("   \n "), None);
}

#[test]
fn memory_status_parses_three_sizes() {
    let m = PrinterInfo::parse_memory_status("1024,768,512\n").unwrap();
    assert_eq!(m.total_ram_kb, 1024);
    assert_eq!(m.max_available_kb, 768);
    assert_eq!(m.current_available_kb, 512);
    assert_eq!(m.used_kb(), 256);
    assert_eq!(m.usage_percent(), 33);
}

#[test]
fn memory_status_rejects_malformed_triples() {
    assert_eq!(PrinterInfo::parse_memory_status("1024,768\n"), None);
    assert_eq!(PrinterInfo::parse_memory_status("1024,768,many\n"), None);
    assert_eq!(PrinterInfo::parse_memory_status(""), None);
    assert_eq!(PrinterInfo::parse_memory_status("1024,768,512,9\n"), None);
}

#[test]
fn memory_usage_is_zero_when_nothing_available() {
    let m = zebras::MemoryStatus {
        total_ram_kb: 0,
        max_available_kb: 0,
        current_available_kb: 0,
    };
    assert_eq!(m.used_kb(), 0);
    assert_eq!(m.usage_percent(), 0);
}

#[test]
fn default_printer_info_has_no_fields_decoded() {
    let info = PrinterInfo::default();
    assert_eq!(info.serial_number, None);
    assert_eq!(info.memory_status, None);
    assert_eq!(info.alerts, None);
}

#[test]
fn named_flag_masks_match_their_bits() {
    let status = PrinterStatus::parse("ERRORS: 1 00000000 00000005\n").unwrap();
    assert!(status.errors.contains(zebras::ErrorFlags::MEDIA_OUT));
    assert!(status.errors.contains(zebras::ErrorFlags::HEAD_OPEN));
    assert!(!status.errors.contains(zebras::ErrorFlags::RIBBON_OUT));
    let w = zebras::WarningFlags::from_hex(0x2);
    assert!(w.contains(zebras::WarningFlags::CLEAN_PRINTHEAD));
    assert!(!w.contains(zebras::WarningFlags::NEED_TO_CALIBRATE_MEDIA));
}

#[test]
fn status_report_is_ok_line_when_clear() {
    let status = PrinterStatus::parse("all good\n").unwrap();
    assert_eq!(status.status_report(), "Printer Status: OK");
}

#[test]
fn status_report_lists_errors_and_warnings_under_titles() {
    let status = PrinterStatus::parse("ERRORS: 1 0 00000001\nWARNINGS: 1 0 00000002\n").unwrap();
    assert_eq!(
        status.status_report(),
        "Printer Status:\n\nErrors:\n  - Media out or not loaded\n\nWarnings:\n  - Clean printhead\n"
    );
}

#[test]
fn battery_recognizes_short_charging_marker() {
    let b = PrinterInfo::parse_battery_capacity("90 CHG\n").unwrap();
    assert_eq!(b.charge_percent, "90%");
    assert!(b.charging);
}
