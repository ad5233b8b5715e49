use freemkv::disc_info::{
    codec_name, disc_name, disc_title_line, encryption_key, format_audio, format_label,
    format_subtitle, format_video, format_volume_id, label_indent, label_prefix,
    parse_disc_info_args, purpose_key, qualifier_key, title_lines, AudioStream, Codec, Disc,
    DiscFormat, DiscInfoArgs, Hdr, Purpose, Qualifier, Stream, SubtitleStream, Title,
    VideoStream,
};
use freemkv::lang::lang_name;
use freemkv::strings;

fn v(args: &[&str]) -> Vec<String> {
    args.iter().map(|s| s.to_string()).collect()
}

fn video() -> VideoStream {
    VideoStream {
        pid: 0x1011,
        codec: Codec::Named("HEVC".to_string()),
        resolution: "2160p".to_string(),
        frame_rate: None,
        hdr: Hdr::Sdr,
        bt2020: false,
        secondary: false,
        label: String::new(),
    }
}

fn audio() -> AudioStream {
    AudioStream {
        pid: 0x1100,
        codec: Codec::Named("TrueHD".to_string()),
        channels: "7.1".to_string(),
        language: "eng".to_string(),
        sample_rate: "48kHz".to_string(),
        secondary: false,
        purpose: Purpose::Normal,
        label: String::new(),
    }
}

fn subtitle() -> SubtitleStream {
    SubtitleStream { language: "eng".to_string(), forced: false, qualifier: Qualifier::Unqualified }
}

fn title(playlist: &str) -> Title {
    Title {
        playlist: playlist.to_string(),
        duration_secs: 7530,
        size_gb: "53.7".to_string(),
        clip_count: 0,
        streams: vec![
            Stream::Video(video()),
            Stream::Audio(audio()),
            Stream::Subtitle(subtitle()),
        ],
    }
}

fn synthetic_disc() -> Disc {
    Disc { titles: vec![title("00800.mpls")] }
}

#[test]
fn title_lines_lists_encrypted_disc_without_key() {
    let disc = synthetic_disc();
    let lines = title_lines(&disc, false, false, false);
    let joined = lines.join("\n");
    assert!(
        !joined.contains("E7022"),
        "title list must not surface the no-key error, got:\n{joined}"
    );
    assert!(
        joined.contains("00800.mpls"),
        "expected the title's playlist, got:\n{joined}"
    );
    assert!(
        joined.contains("2h 05m"),
        "expected the formatted duration, got:\n{joined}"
    );
    assert!(joined.contains("HEVC"), "expected the video codec, got:\n{joined}");
    assert!(
        joined.contains("English"),
        "expected the audio/subtitle language, got:\n{joined}"
    );
}

#[test]
fn title_lines_empty_disc_reports_no_titles() {
    let mut disc = synthetic_disc();
    disc.titles.clear();
    let lines = title_lines(&disc, true, false, false);
    assert_eq!(lines, vec![strings::get("disc.no_titles")]);
}

#[test]
fn title_lines_basic_omits_streams() {
    let disc = synthetic_disc();
    let joined = title_lines(&disc, false, false, true).join("\n");
    assert!(joined.contains("00800.mpls"));
    assert!(
        !joined.contains("HEVC"),
        "basic mode must omit stream rows, got:\n{joined}"
    );
}

#[test]
fn label_alignment_preserves_english_layout() {
    assert_eq!(label_indent("Subtitle"), 17);
    assert_eq!(label_indent("Video"), 14);
    assert_eq!(label_indent("Audio"), 14);
    assert_eq!(label_prefix("Video", 17), "      Video:     ");
    assert_eq!(label_prefix("Subtitle", 17), "      Subtitle:  ");
}

#[test]
fn label_alignment_holds_for_longer_localized_label() {
    let indent = label_indent("Sottotitoli");
    assert_eq!(indent, 20);
    let prefix = label_prefix("Sottotitoli", indent);
    assert_eq!(prefix.chars().count(), indent);
    assert!(prefix.starts_with("      Sottotitoli:"));
    assert!(prefix.ends_with("  "));
}

#[test]
fn title_row_layout() {
    let lines = title_lines(&synthetic_disc(), false, false, true);
    assert_eq!(lines[0], "Titles");
    assert_eq!(lines[1], "");
    assert_eq!(lines[2], "   1. 00800.mpls      2h 05m   53.7 GB  0 clips");
}

#[test]
fn title_list_shows_five_unless_full() {
    let disc = Disc { titles: (0..7).map(|i| title(&format!("0080{i}.mpls"))).collect() };
    let short = title_lines(&disc, false, false, true);
    assert!(short.iter().any(|l| l == "  ... and 2 more (use --full to show all)"));
    assert!(!short.iter().any(|l| l.contains("00805.mpls")));
    let full = title_lines(&disc, true, false, true);
    assert!(full.iter().any(|l| l.contains("00806.mpls")));
    assert!(!full.iter().any(|l| l.contains("more")));
}

#[test]
fn stream_lines_align_under_labels() {
    let lines = title_lines(&synthetic_disc(), false, false, false);
    let video_line = lines.iter().find(|l| l.contains("HEVC")).unwrap();
    assert!(video_line.starts_with("      Video:     "), "{video_line}");
    let sub_line = lines.iter().find(|l| l.starts_with("      Subtitle:")).unwrap();
    assert_eq!(sub_line, "      Subtitle:  English");
}

#[test]
fn stream_formatting() {
    assert_eq!(codec_name(&Codec::Ac3), "DD");
    assert_eq!(codec_name(&Codec::Ac3Plus), "DD+");
    assert_eq!(codec_name(&Codec::Unknown(0x9)), "0x09");
    assert!(format_video(&video(), false).contains("HEVC"));
    let a = format_audio(&audio(), false);
    assert!(a.starts_with("English TrueHD 7.1"), "{a}");
    let mut s = subtitle();
    s.forced = true;
    s.qualifier = Qualifier::Sdh;
    assert_eq!(format_subtitle(&s), "English (forced, SDH)");
    assert_eq!(purpose_key(Purpose::Commentary), Some("stream.purpose.commentary"));
    assert_eq!(qualifier_key(Qualifier::Forced), None);
    assert_eq!(qualifier_key(Qualifier::DescriptiveService), Some("stream.qualifier.descriptive_service"));
}

#[test]
fn language_names_come_from_iso_codes() {
    assert_eq!(lang_name("eng"), "English");
    assert_eq!(lang_name("de"), "German");
    assert_eq!(lang_name("qqq"), "qqq");
    assert_eq!(lang_name(""), "?");
}

#[test]
fn volume_id_becomes_a_title() {
    assert_eq!(format_volume_id("SAMPLE_FILM"), "Sample Film");
    assert_eq!(format_volume_id("TEST_DISC"), "Test Disc");
    assert_eq!(format_volume_id("__A__b  "), "A B");
    assert_eq!(format_volume_id(""), "");
}

#[test]
fn disc_name_prefers_metadata_title() {
    assert_eq!(disc_name(&Some("Film".to_string()), "VOL").as_deref(), Some("Film"));
    assert_eq!(disc_name(&None, "MY_DISC").as_deref(), Some("My Disc"));
    assert_eq!(disc_name(&None, ""), None);
    assert_eq!(disc_title_line(&None, "MY_DISC").as_deref(), Some("Disc: My Disc"));
}

#[test]
fn unknown_format_is_not_blu_ray() {
    assert_eq!(format_label(DiscFormat::Uhd), "4K UHD");
    assert_eq!(format_label(DiscFormat::BluRay), "Blu-ray");
    assert_eq!(format_label(DiscFormat::Dvd), "DVD");
    assert_eq!(format_label(DiscFormat::Unknown), "Unknown");
    assert_eq!(encryption_key(true, true), Some("disc.css_encrypted"));
    assert_eq!(encryption_key(true, false), Some("disc.aacs_encrypted"));
    assert_eq!(encryption_key(false, true), None);
}

#[test]
fn disc_info_args_parse_each_option() {
    match parse_disc_info_args(&v(&["-d", "/dev/sg3", "-q", "--full", "-b", "--log-file", "x.log"])) {
        DiscInfoArgs::List(o) => {
            assert_eq!(o.device.as_deref(), Some("/dev/sg3"));
            assert!(o.quiet && o.full && o.basic && !o.verbose);
        }
        other => panic!("unexpected {other:?}"),
    }
    match parse_disc_info_args(&v(&["--log-level", "2"])) {
        DiscInfoArgs::List(o) => assert!(o.verbose),
        other => panic!("unexpected {other:?}"),
    }
    match parse_disc_info_args(&v(&["--log-level", "x"])) {
        DiscInfoArgs::List(o) => assert!(!o.verbose),
        other => panic!("unexpected {other:?}"),
    }
    match parse_disc_info_args(&v(&["--log-level"])) {
        DiscInfoArgs::List(o) => assert!(!o.verbose),
        other => panic!("unexpected {other:?}"),
    }
}

#[test]
fn disc_info_args_refuse_bad_input() {
    assert!(matches!(parse_disc_info_args(&v(&["-d"])), DiscInfoArgs::MissingDevice));
    assert!(matches!(parse_disc_info_args(&v(&["--help", "-d"])), DiscInfoArgs::Help));
    match parse_disc_info_args(&v(&["--share"])) {
        DiscInfoArgs::UnknownOption(o) => assert_eq!(o, "--share"),
        other => panic!("unexpected {other:?}"),
    }
}

#[test]
fn title_row_matches_documented_layout() {
    let mut t = title("00800.mpls");
    t.duration_secs = 9300;
    t.size_gb = "88.8".to_string();
    t.clip_count = 1;
    let lines = title_lines(&Disc { titles: vec![t] }, false, false, true);
    assert_eq!(lines[2], "   1. 00800.mpls      2h 35m   88.8 GB  1 clip");
    let mut d = title("VTS_02_3.VOB");
    d.duration_secs = 7140;
    d.size_gb = "5.8".to_string();
    let lines = title_lines(&Disc { titles: vec![d] }, false, false, true);
    assert_eq!(lines[2], "   1. VTS_02_3.VOB    1h 59m    5.8 GB  0 clips");
}

#[test]
fn full_layout_ends_with_more_line_only_when_titles_are_left_out() {
    let disc = Disc { titles: (0..7).map(|i| title(&format!("0080{i}.mpls"))).collect() };
    let short = title_lines(&disc, false, false, false);
    let n = short.len();
    assert_eq!(short[n - 2], "  ... and 2 more (use --full to show all)");
    assert_eq!(short[n - 1], "");
    assert_eq!(short.iter().filter(|l| l.contains(".mpls")).count(), 5);
    let full = title_lines(&disc, true, false, false);
    assert_eq!(full.iter().filter(|l| l.contains(".mpls")).count(), 7);
    assert!(!full.iter().any(|l| l.contains("more")));
}
