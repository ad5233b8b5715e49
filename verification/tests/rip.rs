use freemkv::disc_info::Purpose;
use freemkv::output::{Level, Output};
use freemkv::pipe::{
    audio_purpose_key, audio_summary_label, copy_progress_start, copy_progress_step,
    copy_should_continue, eta_text, fmt_err, hms_text, interrupted_error, is_url_token,
    job_file_name, ms_text, mux_was_interrupted, parse_flags, plan_jobs, progress_due, rip_plan,
    sanitize_name, title_in_range, video_summary_label, JobPlan, RipPlan, SpeedSample, UrlKind,
};
use freemkv::pipe::{job_step, title_out_of_range_error, title_range_warning};
use freemkv::strings;

fn v(args: &[&str]) -> Vec<String> {
    args.iter().map(|s| s.to_string()).collect()
}

#[test]
fn copy_halts_on_first_interrupt() {
    assert!(copy_should_continue(false), "no interrupt → keep going");
    assert!(!copy_should_continue(true), "interrupt → halt the copy");
}

#[test]
fn mux_bails_when_interrupt_arrives_during_final_read() {
    assert!(!mux_was_interrupted(false, false), "clean finish → finalize");
    assert!(mux_was_interrupted(true, false), "mid-loop SIGINT → bail");
    assert!(
        mux_was_interrupted(false, true),
        "SIGINT during the final read (flag set, loop flag stale) → still bail"
    );
    assert!(mux_was_interrupted(true, true), "both → bail");
}

#[test]
fn stream_info_uses_dedicated_keys() {
    assert_ne!(strings::get("disc.streams"), "disc.streams");
    assert_ne!(strings::get("disc.duration"), "disc.duration");
    assert_ne!(strings::get("disc.streams"), strings::get("disc.titles"));
    assert_ne!(strings::get("disc.duration"), strings::get("disc.format"));
}

#[test]
fn url_token_detection() {
    assert!(is_url_token("disc://"));
    assert!(is_url_token("mkv://out.mkv"));
    assert!(!is_url_token("1"));
    assert!(!is_url_token("keydb.cfg"));
    assert!(!is_url_token("/path/out.mkv"));
}

#[test]
fn title_one_based_value_accepted() {
    let f = parse_flags(&v(&["-t", "1", "-t", "3"])).unwrap();
    assert_eq!(f.title_nums, vec![1, 3]);
}

#[test]
fn duplicate_title_flags_dedup() {
    let f = parse_flags(&v(&["-t", "1", "-t", "1"])).unwrap();
    assert_eq!(f.title_nums, vec![1]);
    let f = parse_flags(&v(&["-t", "3", "-t", "1", "-t", "3"])).unwrap();
    assert_eq!(f.title_nums, vec![1, 3]);
}

#[test]
fn disc_multiple_titles_build_one_job_each() {
    let plan = plan_jobs(&None, true, &[1usize, 3usize], true, "mkv://scratch");
    match plan {
        JobPlan::PerTitle { indices, stem } => {
            assert_eq!(indices.len(), 2, "both -t 1 and -t 3 must produce a job");
            assert_eq!(indices[0], 0);
            assert_eq!(indices[1], 2);
            let a = job_file_name(&stem, indices[0], "mkv");
            let b = job_file_name(&stem, indices[1], "mkv");
            assert_ne!(a, b);
            assert!(a.contains("_t1."), "got {a}");
            assert!(b.contains("_t3."), "got {b}");
        }
        other => panic!("unexpected {other:?}"),
    }
}

#[test]
fn disc_multiple_titles_to_file_dest_rejected() {
    let plan = plan_jobs(&None, true, &[1usize, 2usize], false, "mkv://movie.mkv");
    assert!(
        matches!(plan, JobPlan::NeedsDir(_)),
        "multi-title disc to a file dest must be rejected, not silently turned into a dir"
    );
    assert!(!std::path::Path::new("movie.mkv").is_dir());
}

#[test]
fn out_of_range_title_is_failure() {
    assert!(title_in_range(0, 3), "first title is in range");
    assert!(title_in_range(2, 3), "last title is in range");
    assert!(!title_in_range(3, 3), "one past the end is out of range");
    assert!(!title_in_range(99, 3), "far past the end is out of range");
    assert!(!title_in_range(0, 0), "no titles → any index out of range");
}

#[test]
fn disc_single_title_is_single_file_job() {
    match plan_jobs(&None, true, &[2usize], false, "mkv://out.mkv") {
        JobPlan::Single(idx, dest) => {
            assert_eq!(idx, Some(1));
            assert_eq!(dest, "mkv://out.mkv");
        }
        other => panic!("unexpected {other:?}"),
    }
}

#[test]
fn title_zero_rejected() {
    let err = parse_flags(&v(&["-t", "0"])).unwrap_err();
    assert!(err.contains('0'), "got: {err}");
}

#[test]
fn title_non_numeric_rejected() {
    let err = parse_flags(&v(&["-t", "main"])).unwrap_err();
    assert!(!err.is_empty());
}

#[test]
fn title_missing_value_rejected() {
    assert!(parse_flags(&v(&["-t"])).is_err());
    assert!(parse_flags(&v(&["-t", "disc://"])).is_err());
}

#[test]
fn keydb_missing_value_rejected() {
    assert!(parse_flags(&v(&["-k"])).is_err());
    assert!(parse_flags(&v(&["-k", "disc://"])).is_err());
}

#[test]
fn keydb_value_accepted() {
    let f = parse_flags(&v(&["-k", "/etc/keydb.cfg"])).unwrap();
    assert_eq!(f.keydb_path.as_deref(), Some("/etc/keydb.cfg"));
}

#[test]
fn unknown_flag_is_rejected() {
    assert!(parse_flags(&v(&["--titel", "1"])).is_err());
    assert!(parse_flags(&v(&["--qiet"])).is_err());
    assert!(parse_flags(&v(&["-x"])).is_err());
    let err = parse_flags(&v(&["--bogus"])).unwrap_err();
    assert!(err.contains("--bogus"), "got: {err}");
    assert!(parse_flags(&v(&["disc://", "mkv://out.mkv"])).is_ok());
    assert!(parse_flags(&v(&["-t", "1", "disc://"])).is_ok());
}

#[test]
fn boolean_flags_parse() {
    let f = parse_flags(&v(&["--raw", "--multipass", "-v", "-q"])).unwrap();
    assert!(f.raw && f.multipass && f.verbose && f.quiet);
    assert!(f.title_nums.is_empty());
}

#[test]
fn parse_flag_errors_name_the_problem() {
    assert_eq!(
        parse_flags(&v(&["--title"])).unwrap_err(),
        "--title needs a value (e.g. -t 1)"
    );
    assert_eq!(
        parse_flags(&v(&["-k"])).unwrap_err(),
        "-k needs a value (e.g. -k keydb.cfg)"
    );
    assert_eq!(
        parse_flags(&v(&["-t", "x1"])).unwrap_err(),
        "Invalid title number 'x1' (titles start at 1)"
    );
    assert!(parse_flags(&v(&["-"])).is_ok());
}

#[test]
fn fmt_err_names_missing_key_by_hash() {
    assert_eq!(
        fmt_err("E7022: abc123 "),
        "No decryption key for this disc (disc hash abc123). Add its key to keydb.cfg."
    );
    assert_eq!(fmt_err("E1001: no drive"), "Error: E1001: no drive");
}

#[test]
fn rip_plan_refuses_schemeless_dest_and_raw_mux() {
    let f = parse_flags(&v(&["--raw"])).unwrap();
    match rip_plan(&f, UrlKind::Disc, UrlKind::Unknown, "out.mkv") {
        RipPlan::Reject(m) => assert!(m.contains("no URL scheme"), "{m}"),
        other => panic!("unexpected {other:?}"),
    }
    match rip_plan(&f, UrlKind::Iso, UrlKind::Mkv, "mkv://o.mkv") {
        RipPlan::Reject(m) => assert!(m.starts_with("--raw cannot be used for muxing"), "{m}"),
        other => panic!("unexpected {other:?}"),
    }
    assert!(matches!(rip_plan(&f, UrlKind::Disc, UrlKind::Iso, "iso://d.iso"), RipPlan::DiscToIso));
    let m = parse_flags(&v(&["--multipass"])).unwrap();
    assert!(matches!(
        rip_plan(&m, UrlKind::Disc, UrlKind::Mkv, "mkv://o.mkv"),
        RipPlan::Titles { is_disc: true, warn_multipass: true }
    ));
    assert!(matches!(
        rip_plan(&m, UrlKind::Iso, UrlKind::Mkv, "mkv://o.mkv"),
        RipPlan::Titles { is_disc: false, warn_multipass: false }
    ));
}

#[test]
fn scanned_source_jobs_follow_playlist_name() {
    let titles = Some(v(&["00800.mpls", "00801.mpls", "00802.mpls"]));
    match plan_jobs(&titles, false, &[], false, "mkv://out/") {
        JobPlan::PerTitle { indices, stem } => {
            assert_eq!(indices, vec![0, 1, 2]);
            assert_eq!(stem, "00800mpls");
        }
        other => panic!("unexpected {other:?}"),
    }
    match plan_jobs(&titles, false, &[2], false, "mkv://one.mkv") {
        JobPlan::Single(idx, dest) => {
            assert_eq!(idx, Some(1));
            assert_eq!(dest, "mkv://one.mkv");
        }
        other => panic!("unexpected {other:?}"),
    }
    match plan_jobs(&Some(v(&[""])), false, &[], true, "mkv://out/") {
        JobPlan::PerTitle { stem, .. } => assert_eq!(stem, "disc"),
        other => panic!("unexpected {other:?}"),
    }
    match plan_jobs(&None, false, &[], false, "mkv://o.mkv") {
        JobPlan::Single(idx, _) => assert_eq!(idx, None),
        other => panic!("unexpected {other:?}"),
    }
}

#[test]
fn sanitize_name_keeps_safe_characters() {
    assert_eq!(sanitize_name("  My Movie: Part 2 "), "My_Movie_Part_2");
    assert_eq!(sanitize_name("???"), "disc");
    assert_eq!(job_file_name("Movie", 0, "mkv"), "Movie_t1.mkv");
}

#[test]
fn interrupted_mux_reports_incomplete_output() {
    let (lines, err) = interrupted_error(&Output::new(false, false));
    assert_eq!(lines, vec![String::new(), strings::get("error.interrupted_incomplete")]);
    assert_eq!(err, "Interrupted");
    let (lines, _) = interrupted_error(&Output::new(true, true));
    assert!(lines.is_empty());
}

#[test]
fn progress_line_every_half_second() {
    assert!(!progress_due(false, 0, 499_999_999));
    assert!(progress_due(false, 0, 500_000_000));
    assert!(!progress_due(true, 0, 5_000_000_000));
    assert!(!progress_due(false, 10, 5));
}

#[test]
fn copy_reporter_samples_speed_between_lines() {
    let s0 = copy_progress_start();
    let first = copy_progress_step(&s0, 600_000_000, 1000, false, false);
    assert_eq!(first.draw, Some(SpeedSample::First));
    assert!(first.keep_going);
    let quiet_soon = copy_progress_step(&first.state, 700_000_000, 2000, false, false);
    assert_eq!(quiet_soon.draw, None);
    assert_eq!(quiet_soon.state, first.state);
    let second = copy_progress_step(&first.state, 1_200_000_000, 3000, false, true);
    assert_eq!(second.draw, Some(SpeedSample::Delta { bytes: 2000, nanos: 600_000_000 }));
    assert!(!second.keep_going);
    let quiet = copy_progress_step(&s0, 9_000_000_000, 1, true, false);
    assert_eq!(quiet.draw, None);
}

#[test]
fn clock_texts() {
    assert_eq!(hms_text(7530), "2:05:30");
    assert_eq!(hms_text(59), "0:00:59");
    assert_eq!(ms_text(125), "2:05");
    assert_eq!(ms_text(3725), "62:05");
    assert_eq!(eta_text(3600), "1:00:00");
    assert_eq!(eta_text(59), "0:59");
}

#[test]
fn stream_summary_labels() {
    assert_eq!(audio_purpose_key(Purpose::Score), Some("stream.purpose.score"));
    assert_eq!(audio_purpose_key(Purpose::Normal), None);
    assert_eq!(
        audio_summary_label(Purpose::Commentary, true, "Director"),
        " — Commentary, secondary, Director"
    );
    assert_eq!(audio_summary_label(Purpose::Normal, false, ""), "");
    assert_eq!(video_summary_label(""), "");
    assert_eq!(video_summary_label("3D"), " — 3D");
}

#[test]
fn output_levels_quiet_wins() {
    let q = Output::new(true, true);
    assert!(q.is_quiet());
    assert!(q.shows(Level::Always));
    assert!(!q.shows(Level::Normal));
    let n = Output::new(false, false);
    assert!(n.shows(Level::Normal) && !n.shows(Level::Verbose));
    let vb = Output::new(true, false);
    assert!(vb.shows(Level::Verbose));
    assert_eq!(vb.level(), Level::Verbose);
}

#[test]
fn schemeless_dest_gets_scheme_guidance() {
    let f = parse_flags(&v(&["/dev/sr0", "output.mkv"])).unwrap();
    match rip_plan(&f, UrlKind::Unknown, UrlKind::Unknown, "output.mkv") {
        RipPlan::Reject(m) => {
            assert!(m.contains("no URL scheme"), "{m}");
            assert!(!m.contains("unknown://") && !m.contains(".unknown"), "{m}");
        }
        other => panic!("unexpected {other:?}"),
    }
    match rip_plan(&f, UrlKind::Iso, UrlKind::Unknown, "/path/out.mkv") {
        RipPlan::Reject(m) => assert!(m.contains("'/path/out.mkv' has no URL scheme"), "{m}"),
        other => panic!("unexpected {other:?}"),
    }
}

#[test]
fn raw_mux_rejected_for_both_containers() {
    let f = parse_flags(&v(&["disc:///dev/sg99", "m2ts://out.m2ts", "--raw"])).unwrap();
    for dest in [UrlKind::Mkv, UrlKind::M2ts] {
        match rip_plan(&f, UrlKind::Disc, dest, "x") {
            RipPlan::Reject(m) => assert!(m.contains("--raw cannot be used for muxing"), "{m}"),
            other => panic!("unexpected {other:?}"),
        }
    }
    assert!(matches!(rip_plan(&f, UrlKind::Disc, UrlKind::Null, "null://"), RipPlan::DiscToIso));
}

#[test]
fn logging_and_key_service_flags_pass_through() {
    let f = parse_flags(&v(&[
        "--log-level",
        "3",
        "--log-file",
        "freemkv-debug.log",
        "disc://",
        "mkv://Movie.mkv",
    ]))
    .unwrap();
    assert!(f.title_nums.is_empty() && !f.verbose);
    assert!(parse_flags(&v(&[
        "--key-url",
        "https://keys.example/keys",
        "--key-auth",
        "tok",
        "disc://",
        "mkv://out.mkv",
    ]))
    .is_ok());
    let f = parse_flags(&v(&["--log-file", "-t", "2"])).unwrap();
    assert!(f.title_nums.is_empty());
    let f = parse_flags(&v(&["--key-auth", "disc://", "-t", "2"])).unwrap();
    assert_eq!(f.title_nums, vec![2]);
    assert!(parse_flags(&v(&["--log-level"])).is_ok());
}

#[test]
fn halted_copy_is_a_failure() {
    assert_eq!(freemkv::pipe::copy_outcome(true), (false, Some("rip.interrupted")));
    assert_eq!(freemkv::pipe::copy_outcome(false), (true, None));
}

#[test]
fn job_results_and_title_messages() {
    assert!(job_step(true, true, true));
    assert!(!job_step(true, false, false));
    assert!(!job_step(true, true, false));
    assert!(!job_step(false, true, true));
    assert_eq!(title_range_warning(4, 3), "Title 5 does not exist (source has 3 titles)");
    assert_eq!(
        title_out_of_range_error(0, 0),
        "Title 1 is out of range (disc has 0 titles)"
    );
}
