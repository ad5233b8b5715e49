use freemkv::info::{
    base64_decode, base64_encode, drive_report_lines, drive_toml, feature_file_name, feature_line,
    feature_needs_mask, firmware_version, format_date, hex_dump, issue_body, issue_title,
    parse_drive_info_args, profile_name, read_buffer_needs_mask, sanitize_component,
    splice_masked, submission_lines, toml_basic_unescape, toml_escape, DriveIdentity,
    DriveInfoArgs,
};

fn v(args: &[&str]) -> Vec<String> {
    args.iter().map(|s| s.to_string()).collect()
}

fn identity() -> DriveIdentity {
    DriveIdentity {
        vendor_id: "HL-DT-ST ".to_string(),
        product_id: "BD-RE  BH16NS55 ".to_string(),
        product_revision: "1.05".to_string(),
        vendor_specific: " NM00000 ".to_string(),
        serial_number: "K1234".to_string(),
        firmware_date: "20211231".to_string(),
    }
}

#[test]
fn sanitize_component_blocks_path_traversal() {
    assert!(!sanitize_component("../../etc/passwd").contains('/'));
    assert!(!sanitize_component("..\\..\\windows").contains('\\'));
    assert_ne!(sanitize_component(".."), "..");
    assert_ne!(sanitize_component("."), ".");
    for bad in ["a/b", "a\\b", "a\0b", "/abs", "lead/../x"] {
        let s = sanitize_component(bad);
        assert!(
            !s.contains('/') && !s.contains('\\') && !s.contains('\0'),
            "{s:?}"
        );
    }
}

#[test]
fn sanitize_component_collapses_and_trims_dashes() {
    assert_eq!(sanitize_component("a   b"), "a-b");
    assert_eq!(sanitize_component("a---b"), "a-b");
    assert_eq!(sanitize_component("a / / b"), "a-b");
    assert_eq!(sanitize_component("-lead-"), "lead");
    assert_eq!(sanitize_component("HL-DT-ST BD"), "hl-dt-st-bd");
    assert_eq!(sanitize_component(""), "drive");
    assert_eq!(sanitize_component("///"), "drive");
    assert_eq!(sanitize_component("Foo_Bar1"), "foo_bar1");
}

#[test]
fn toml_escape_round_trips_to_parseable_toml() {
    let cases = [
        r#"HL-DT-ST"#,
        r#"BAD"VENDOR"#,
        r#"C:\firmware\v2"#,
        "line1\nline2",
        "tab\there\r\n",
        "nul\0byte",
        r#"both \ and " here"#,
        "ünïcödé",
    ];
    for raw in cases {
        let escaped = toml_escape(raw);
        assert!(
            !escaped.chars().any(|c| c == '\n' || c == '\r'),
            "escaped value still contains a raw newline: {escaped:?}"
        );
        let line = format!("manufacturer = \"{escaped}\"\n");
        let body = line
            .trim_end()
            .strip_prefix("manufacturer = \"")
            .and_then(|s| s.strip_suffix('"'))
            .expect("well-formed key = \"...\" line");
        assert_eq!(
            toml_basic_unescape(body),
            raw,
            "round-trip failed for {raw:?} (escaped {escaped:?})"
        );
    }
}

#[test]
fn format_date_non_ascii_passes_through() {
    let s = "20\u{00e9}1231";
    assert_eq!(format_date(s), s);
}

#[test]
fn base64_encode_rfc4648_vectors() {
    assert_eq!(base64_encode(b""), "");
    assert_eq!(base64_encode(b"f"), "Zg==");
    assert_eq!(base64_encode(b"fo"), "Zm8=");
    assert_eq!(base64_encode(b"foo"), "Zm9v");
    assert_eq!(base64_encode(b"foob"), "Zm9vYg==");
    assert_eq!(base64_encode(b"fooba"), "Zm9vYmE=");
    assert_eq!(base64_encode(b"foobar"), "Zm9vYmFy");
}

#[test]
fn base64_round_trips_arbitrary_lengths() {
    for len in 0..40usize {
        let data: Vec<u8> = (0..len)
            .map(|i| (i as u8).wrapping_mul(37).wrapping_add(11))
            .collect();
        assert_eq!(
            base64_decode(&base64_encode(&data)),
            data,
            "round-trip failed at len {len}"
        );
    }
}

#[test]
fn format_date_standard_yyyymmdd() {
    assert_eq!(format_date("20211231"), "2021-12-31");
    assert_eq!(format_date("19991009"), "1999-10-09");
}

#[test]
fn format_date_too_short_passes_through() {
    assert_eq!(format_date("2021"), "2021");
    assert_eq!(format_date(""), "");
}

#[test]
fn hex_dump_formats_lowercase_and_wraps_at_32() {
    assert_eq!(hex_dump(&[0x00, 0x0f, 0xa0, 0xff]), "00 0f a0 ff");
    let data: Vec<u8> = (0..33u8).collect();
    let dump = hex_dump(&data);
    assert!(dump.contains('\n'), "should wrap after 32 bytes: {dump}");
    assert!(dump.starts_with("00 01 02"), "{dump}");
}

#[test]
fn format_date_two_digit_year_form() {
    assert_eq!(format_date("211231120000"), "2012-31-12");
    assert_eq!(format_date("2112311"), "2112311");
}

#[test]
fn hex_dump_second_line_is_indented() {
    let data: Vec<u8> = (0..33u8).collect();
    let dump = hex_dump(&data);
    assert!(dump.ends_with("\n  20"), "{dump}");
    assert_eq!(hex_dump(&[]), "");
}

#[test]
fn base64_decode_skips_padding_and_foreign_characters() {
    assert_eq!(base64_decode("Zm9v\nYmFy"), b"foobar".to_vec());
    assert_eq!(base64_decode("Zg=="), b"f".to_vec());
    assert_eq!(base64_decode(""), Vec::<u8>::new());
}

#[test]
fn toml_escape_writes_controls_as_unicode_escapes() {
    assert_eq!(toml_escape("a\"b\\c"), "a\\\"b\\\\c");
    assert_eq!(toml_escape("\n\t\r"), "\\n\\t\\r");
    assert_eq!(toml_escape("\u{1}"), "\\u0001");
    assert_eq!(toml_basic_unescape("\\u00e9\\n"), "é\n");
}

#[test]
fn drive_info_args_parse_each_option() {
    match parse_drive_info_args(&v(&["-d", "/dev/sg1", "--share", "-m", "-q", "--verbose"])) {
        DriveInfoArgs::Report(o) => {
            assert_eq!(o.device.as_deref(), Some("/dev/sg1"));
            assert!(o.share && o.mask && o.quiet && o.verbose);
        }
        other => panic!("unexpected {other:?}"),
    }
    match parse_drive_info_args(&v(&[])) {
        DriveInfoArgs::Report(o) => {
            assert!(o.device.is_none() && !o.share && !o.mask && !o.quiet && !o.verbose)
        }
        other => panic!("unexpected {other:?}"),
    }
}

#[test]
fn drive_info_args_refuse_bad_input() {
    assert!(matches!(parse_drive_info_args(&v(&["--device"])), DriveInfoArgs::MissingDevice));
    assert!(matches!(parse_drive_info_args(&v(&["-s", "-h", "--bogus"])), DriveInfoArgs::Help));
    match parse_drive_info_args(&v(&["--share", "--log-level", "3"])) {
        DriveInfoArgs::UnknownOption(o) => assert_eq!(o, "--log-level"),
        other => panic!("unexpected {other:?}"),
    }
}

#[test]
fn firmware_version_joins_trimmed_parts() {
    assert_eq!(firmware_version(&identity()), "1.05/NM00000");
}

#[test]
fn profile_name_is_a_safe_lowercase_component() {
    assert_eq!(profile_name(&identity()), "hl-dt-st-bd-re-bh16ns55-1-05-nm00000");
    let evil = DriveIdentity {
        vendor_id: "../..".to_string(),
        product_id: "/".to_string(),
        product_revision: "".to_string(),
        vendor_specific: "".to_string(),
        serial_number: "".to_string(),
        firmware_date: "".to_string(),
    };
    assert_eq!(profile_name(&evil), "drive");
}

#[test]
fn feature_file_and_line_use_four_hex_digits() {
    assert_eq!(feature_file_name(0x0108), "gc_0108.bin");
    assert_eq!(feature_file_name(0xabc), "gc_0abc.bin");
    assert_eq!(
        feature_line(0x010c, "gc_010c.bin", "Firmware Information"),
        "0x010C = \"gc_010c.bin\"  # Firmware Information"
    );
}

#[test]
fn masking_decisions_and_splice() {
    assert!(feature_needs_mask(0x0108, true, 5));
    assert!(!feature_needs_mask(0x0108, true, 4));
    assert!(!feature_needs_mask(0x0108, false, 20));
    assert!(!feature_needs_mask(0x0109, true, 20));
    assert!(read_buffer_needs_mask(true, 12));
    assert!(!read_buffer_needs_mask(true, 11));
    let mut data = vec![1u8, 2, 3, 4, 5, 6, 7];
    splice_masked(&mut data, 4, &[0, 0]);
    assert_eq!(data, vec![1, 2, 3, 4, 0, 0, 7]);
}

#[test]
fn drive_toml_has_every_table() {
    let id = identity();
    let lines = vec![feature_line(0x0108, "gc_0108.bin", "Serial")];
    let toml = drive_toml(&id, "K\"1", "Linux", true, &lines, true, false);
    let expected = "# HL-DT-ST BD-RE  BH16NS55 1.05 — freemkv drive-info\n\n\
[drive]\n\
manufacturer = \"HL-DT-ST\"\n\
product = \"BD-RE  BH16NS55\"\n\
revision = \"1.05\"\n\
serial = \"K\\\"1\"\n\
firmware_date = \"2021-12-31\"\n\
platform = \"Linux\"\n\
profile_matched = true\n\n\
[files]\n\
inquiry = \"inquiry.bin\"\n\
mode_2a = \"mode_2a.bin\"\n\n\
[features]\n\
0x0108 = \"gc_0108.bin\"  # Serial\n\
\n[read_buffer]\n\
0xF1 = \"rb_f1.bin\"\n";
    assert_eq!(toml, expected);
    let plain = drive_toml(&id, "K1", "Linux", false, &Vec::new(), false, false);
    assert!(plain.ends_with("[features]\n"), "{plain}");
    assert!(plain.contains("profile_matched = false\n"));
}

#[test]
fn issue_text_carries_identity_and_data() {
    let id = identity();
    let zip: Vec<u8> = (0..100u8).collect();
    let body = issue_body(&id, "K1", "Linux", "supported", 3, &[0, 1, 2, 3, 0x5b], &[], &zip);
    assert!(body.starts_with("## Drive Profile\n\n```\nManufacturer:    HL-DT-ST\n"));
    assert!(body.contains("Firmware:        1.05/NM00000\n"));
    assert!(body.contains("Features captured: 3\n\n"));
    assert!(body.contains("INQUIRY[4] (additional length): 0x5B\n"));
    assert!(body.contains("INQUIRY (5 bytes):\n  00 01 02 03 5b\n"));
    assert!(body.contains("GET_CONFIG 010C: not available\n"));
    let b64 = base64_encode(&zip);
    let first = &b64[..76];
    assert!(body.contains(&format!("```\n{first}\n{}\n```", &b64[76..])));
    assert!(body.ends_with("---\n*Captured by `freemkv drive-info --share`*\n"));
    assert_eq!(issue_title(&id), "Drive profile: HL-DT-ST BD-RE  BH16NS55");
}

#[test]
fn drive_report_lines_align_values() {
    let id = identity();
    let lines = drive_report_lines(&id, "/dev/sg0", "K1", "Linux", "supported");
    assert_eq!(lines.len(), 12);
    assert_eq!(lines[0], "Drive");
    assert_eq!(lines[1], "  Device:              /dev/sg0");
    assert_eq!(lines[2], "  Manufacturer:        HL-DT-ST");
    assert_eq!(lines[6], "  Firmware date:       2021-12-31");
    assert_eq!(lines[7], "");
    assert_eq!(lines[10], "  Firmware version:    1.05/NM00000");
    let summary = submission_lines(&id, "K1", "Linux", "supported", 4);
    assert_eq!(summary[0], "Drive profile:");
    assert_eq!(summary[1], "  Drive:    HL-DT-ST BD-RE  BH16NS55 1.05");
    assert_eq!(summary[6], "  Features: 4 captured");
}

#[test]
fn sanitizing_a_sanitized_name_keeps_it() {
    for s in ["HL-DT-ST BD", "../../etc", "", "Foo_Bar1", "a---b"] {
        let once = sanitize_component(s);
        assert_eq!(sanitize_component(&once), once);
    }
}

#[test]
fn plain_text_escapes_to_itself() {
    assert_eq!(toml_escape("HL-DT-ST BD-RE ünï"), "HL-DT-ST BD-RE ünï");
}

#[test]
fn base64_length_and_padding() {
    for n in 0..12usize {
        let data = vec![0xabu8; n];
        let e = base64_encode(&data);
        assert_eq!(e.len(), 4 * ((n + 2) / 3));
        let pad = (3 - n % 3) % 3;
        assert!(e.ends_with(&"=".repeat(pad)));
        assert_eq!(e.matches('=').count(), pad);
    }
}
