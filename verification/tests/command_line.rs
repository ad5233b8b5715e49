use freemkv::cli::{
    collect_urls, fatal_text, has_flag, inclusive_last_lba, info_plan, is_url, log_plan,
    parse_update_keys, route, split_language, InfoPlan, LogPlan, Route,
};
use freemkv::pipe::UrlKind;

fn v(args: &[&str]) -> Vec<String> {
    args.iter().map(|s| s.to_string()).collect()
}

#[test]
fn inclusive_last_lba_matches_count() {
    assert_eq!(inclusive_last_lba(100, 1), 100);
    assert_eq!(inclusive_last_lba(100, 5), 104);
    assert_eq!(inclusive_last_lba(100, 0), 100);
    assert_eq!(inclusive_last_lba(0, 0), 0);
    assert_eq!(inclusive_last_lba(u32::MAX, 1), u32::MAX);
    assert_eq!(inclusive_last_lba(u32::MAX - 1, 5), u32::MAX);
    assert_eq!(inclusive_last_lba(u32::MAX, 1000), u32::MAX);
}

#[test]
fn plain_two_urls() {
    assert_eq!(
        collect_urls(&v(&["disc://", "mkv://out.mkv"])),
        v(&["disc://", "mkv://out.mkv"])
    );
}

#[test]
fn value_flag_takes_non_url_value() {
    assert_eq!(
        collect_urls(&v(&["disc://", "mkv://out.mkv", "-t", "1"])),
        v(&["disc://", "mkv://out.mkv"])
    );
    assert_eq!(
        collect_urls(&v(&["-k", "keydb.cfg", "disc://", "mkv://out.mkv"])),
        v(&["disc://", "mkv://out.mkv"])
    );
}

#[test]
fn value_flag_does_not_swallow_positional_url() {
    assert_eq!(
        collect_urls(&v(&["-k", "disc://", "mkv://out.mkv"])),
        v(&["disc://", "mkv://out.mkv"])
    );
    assert_eq!(
        collect_urls(&v(&["-t", "disc://", "mkv://out.mkv"])),
        v(&["disc://", "mkv://out.mkv"])
    );
}

#[test]
fn boolean_flags_ignored() {
    assert_eq!(
        collect_urls(&v(&["--multipass", "disc://", "iso://d.iso", "--raw"])),
        v(&["disc://", "iso://d.iso"])
    );
}

#[test]
fn key_url_value_is_not_a_positional() {
    assert_eq!(
        collect_urls(&v(&[
            "disc://",
            "mkv://out.mkv",
            "--key-url",
            "https://keys.example/keys",
        ])),
        v(&["disc://", "mkv://out.mkv"])
    );
    assert_eq!(
        collect_urls(&v(&[
            "--key-url",
            "https://keys.example/keys",
            "--key-auth",
            "tok",
            "disc://",
            "mkv://out.mkv",
        ])),
        v(&["disc://", "mkv://out.mkv"])
    );
}

#[test]
fn key_auth_token_value_consumed() {
    assert_eq!(
        collect_urls(&v(&["--key-auth", "tok", "disc://", "mkv://out.mkv"])),
        v(&["disc://", "mkv://out.mkv"])
    );
}

#[test]
fn url_detection_needs_scheme_separator() {
    assert!(is_url("disc://"));
    assert!(is_url("https://x"));
    assert!(!is_url("out.mkv"));
    assert!(!is_url(":/"));
}

#[test]
fn language_flag_is_taken_out() {
    let r = split_language(&v(&["freemkv", "--language", "de", "disc://", "mkv://a.mkv"]));
    assert_eq!(r.args, v(&["freemkv", "disc://", "mkv://a.mkv"]));
    assert_eq!(r.language.as_deref(), Some("de"));
    assert!(r.missing_value.is_empty());
}

#[test]
fn language_flag_does_not_swallow_url_or_flag() {
    let r = split_language(&v(&["freemkv", "--language", "disc://", "mkv://a.mkv"]));
    assert_eq!(r.args, v(&["freemkv", "disc://", "mkv://a.mkv"]));
    assert!(r.language.is_none());
    assert_eq!(r.missing_value, v(&["--language"]));
    let r = split_language(&v(&["freemkv", "--lang", "--verbose"]));
    assert_eq!(r.args, v(&["freemkv", "--verbose"]));
    assert_eq!(r.missing_value, v(&["--lang"]));
    let r = split_language(&v(&["freemkv", "--lang"]));
    assert_eq!(r.missing_value, v(&["--lang"]));
}

#[test]
fn log_plan_is_off_by_default() {
    assert_eq!(log_plan(&v(&["freemkv", "disc://"]), false), LogPlan::Off);
}

#[test]
fn log_plan_maps_levels_and_paths() {
    assert_eq!(
        log_plan(&v(&["freemkv", "--log-level", "2"]), false),
        LogPlan::File {
            directive: Some("error,freemkv=info,libfreemkv=info".to_string()),
            path: "log.txt".to_string()
        }
    );
    assert_eq!(
        log_plan(&v(&["freemkv", "--log-level", "9", "--log-file", "/tmp/x.log"]), false),
        LogPlan::File {
            directive: Some("error,freemkv=trace,libfreemkv=trace".to_string()),
            path: "/tmp/x.log".to_string()
        }
    );
    assert_eq!(
        log_plan(&v(&["freemkv", "--log-file", "a.log"]), false),
        LogPlan::File {
            directive: Some("error,freemkv=debug,libfreemkv=debug".to_string()),
            path: "a.log".to_string()
        }
    );
    assert_eq!(
        log_plan(&v(&["freemkv", "--log-level", "0"]), false),
        LogPlan::File {
            directive: Some("error,freemkv=warn,libfreemkv=warn".to_string()),
            path: "log.txt".to_string()
        }
    );
    assert_eq!(
        log_plan(&v(&["freemkv"]), true),
        LogPlan::File { directive: None, path: "log.txt".to_string() }
    );
}

#[test]
fn route_selects_subcommands() {
    assert!(matches!(route(&v(&["freemkv"])), Route::Usage));
    assert!(matches!(route(&v(&["freemkv", "help"])), Route::Help));
    assert!(matches!(route(&v(&["freemkv", "-V"])), Route::Version));
    match route(&v(&["freemkv", "info", "disc://", "--full"])) {
        Route::Info(a) => assert_eq!(a, v(&["disc://", "--full"])),
        other => panic!("unexpected {other:?}"),
    }
    match route(&v(&["freemkv", "verify"])) {
        Route::Verify(a) => assert!(a.is_empty()),
        other => panic!("unexpected {other:?}"),
    }
    match route(&v(&["freemkv", "update-keys", "--url", "u"])) {
        Route::UpdateKeys(a) => assert_eq!(a, v(&["--url", "u"])),
        other => panic!("unexpected {other:?}"),
    }
}

#[test]
fn route_dispatches_by_url_count() {
    match route(&v(&["freemkv", "-k", "disc://", "mkv://o.mkv"])) {
        Route::Rip { source, dest, args } => {
            assert_eq!(source, "disc://");
            assert_eq!(dest, "mkv://o.mkv");
            assert_eq!(args, v(&["-k", "disc://", "mkv://o.mkv"]));
        }
        other => panic!("unexpected {other:?}"),
    }
    match route(&v(&["freemkv", "--verbose", "disc://", "--full"])) {
        Route::InfoUrl(a) => assert_eq!(a, v(&["disc://", "--verbose", "--full"])),
        other => panic!("unexpected {other:?}"),
    }
    assert!(matches!(route(&v(&["freemkv", "--raw"])), Route::BadUsage));
    assert!(matches!(route(&v(&["freemkv", "a://", "b://", "c://"])), Route::BadUsage));
}

#[test]
fn update_keys_takes_last_url() {
    assert_eq!(parse_update_keys(&v(&["--url", "a", "-u", "b"])).as_deref(), Some("b"));
    assert_eq!(parse_update_keys(&v(&["--url"])), None);
    assert_eq!(parse_update_keys(&v(&["--url", "a", "--url"])), None);
    assert_eq!(parse_update_keys(&v(&[])), None);
}

#[test]
fn has_flag_matches_either_form() {
    assert!(has_flag(&v(&["-x", "-s"]), "--share", "-s"));
    assert!(!has_flag(&v(&["--shares"]), "--share", "-s"));
}

#[test]
fn info_plan_routes_drive_urls() {
    match info_plan(&v(&["disc:///dev/sg2", "--share"]), UrlKind::Disc, &Some("/dev/sg2".to_string())) {
        InfoPlan::DriveReport(a) => assert_eq!(a, v(&["-d", "/dev/sg2", "--share"])),
        other => panic!("unexpected {other:?}"),
    }
    match info_plan(&v(&["disc://", "--full"]), UrlKind::Disc, &None) {
        InfoPlan::DiscListing(a) => assert_eq!(a, v(&["--full"])),
        other => panic!("unexpected {other:?}"),
    }
}

#[test]
fn info_plan_handles_other_kinds() {
    assert!(matches!(info_plan(&v(&[]), UrlKind::Disc, &None), InfoPlan::Usage));
    assert!(matches!(
        info_plan(&v(&["iso://d.iso", "-f"]), UrlKind::Iso, &None),
        InfoPlan::IsoListing { full: true }
    ));
    assert!(matches!(
        info_plan(&v(&["iso://d.iso"]), UrlKind::Iso, &None),
        InfoPlan::IsoListing { full: false }
    ));
    assert!(matches!(info_plan(&v(&["mkv://a.mkv"]), UrlKind::Mkv, &None), InfoPlan::FileInfo));
    assert!(matches!(info_plan(&v(&["a.mkv"]), UrlKind::Unknown, &None), InfoPlan::InvalidUrl));
    assert!(matches!(info_plan(&v(&["null://"]), UrlKind::Null, &None), InfoPlan::Unsupported));
}

#[test]
fn fatal_block_names_operation_and_cause() {
    let (header, hint) = fatal_text("error.op_verify", "Error: E1");
    assert_eq!(header, "Verify failed: Error: E1.");
    assert_eq!(
        hint,
        "  For a diagnostic log, re-run with --log-level 3 (writes ./log.txt)."
    );
}
