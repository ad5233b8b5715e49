//! The message catalog: every user-facing line is looked up by a dotted key,
//! and `{name}` placeholders are filled from named arguments.
use vstd::prelude::*;
use crate::text::{chars_of, matches_at, push_all, push_str, str_eq, string_from, string_of};

verus! {

/// The English catalog, as (key, template) pairs.
pub open spec fn catalog() -> Seq<(&'static str, &'static str)> {
    seq![
        ("disc.video", "Video"),
        ("disc.audio", "Audio"),
        ("disc.subtitle", "Subtitle"),
        ("app.opt_quiet", "Suppress output"),
        ("app.opt_verbose", "Show more detail"),
        ("app.unknown_option", "Unknown option: {opt}"),
        ("disc.aacs_encrypted", "AACS: Encrypted"),
        ("disc.clip", "clip"),
        ("disc.clips", "clips"),
        ("disc.css_encrypted", "CSS: Encrypted"),
        ("disc.disc", "Disc"),
        ("disc.dolby_vision_el", "Dolby Vision EL"),
        ("disc.duration", "Duration"),
        ("disc.forced", "forced"),
        ("disc.format", "Format"),
        ("disc.format_unknown", "Unknown"),
        ("disc.more_titles", "  ... and {count} more (use --full to show all)"),
        ("disc.no_titles", "No titles found"),
        ("disc.scanning", "Scanning disc..."),
        ("disc.streams", "Streams"),
        ("disc.titles", "Titles"),
        ("disc.usage", "Usage: freemkv info disc:// [--device PATH] [--full] [--basic] [--quiet]"),
        ("drive.captured", "Captured {code} {name} ({bytes} bytes)"),
        ("drive.device", "Device"),
        ("drive.device_desc", "Drive device path (e.g. /dev/sg0)"),
        ("drive.firmware_date", "Firmware date"),
        ("drive.firmware_version", "Firmware version"),
        ("drive.header", "Drive"),
        ("drive.manufacturer", "Manufacturer"),
        ("drive.mask_desc", "Mask serial numbers"),
        ("drive.platform", "Platform"),
        ("drive.platform_header", "Platform"),
        ("drive.product", "Product"),
        ("drive.profile", "Profile"),
        ("drive.revision", "Revision"),
        ("drive.serial", "Serial number"),
        ("drive.share_desc", "Capture the drive profile for submission"),
        ("drive.share_hint", "Run with --share to capture this drive's profile."),
        ("drive.share_usage", "Usage: freemkv info disc:// --share [--mask]"),
        ("drive.submit_drive", "Drive"),
        ("drive.submit_features", "Features"),
        ("drive.submit_firmware", "Firmware"),
        ("drive.submit_header", "Drive profile"),
        ("drive.submit_issue_body", "Issue body:"),
        ("drive.submit_issue_title", "Issue title: {title}"),
        ("drive.submit_manual", "Open a new issue and paste the text below:"),
        ("drive.submit_packaging", "Packaging profile..."),
        ("drive.submit_platform", "Platform"),
        ("drive.submit_profile", "Profile"),
        ("drive.submit_saved", "Profile saved in {dir}/"),
        ("drive.submit_serial", "Serial"),
        ("drive.submit_zip", "Archive: {path}"),
        ("drive.supported", "supported"),
        ("drive.unknown", "unknown"),
        ("drive.zip_failed", "failed: {error}"),
        ("error.E7022", "No decryption key for this disc (disc hash {hash}). Add its key to keydb.cfg."),
        ("error.cannot_create_dir", "Cannot create directory {path}: {error}"),
        ("error.cannot_write", "Cannot write {path}: {error}"),
        ("error.dest_needs_scheme", "'{dest}' has no URL scheme — use scheme://path (e.g. mkv://{dest})"),
        ("error.fatal_diagnostic_hint", "For a diagnostic log, re-run with --log-level 3 (writes ./log.txt)."),
        ("error.fatal_header", "{op} failed: {cause}"),
        ("error.flag_needs_value", "{flag} needs a value (e.g. {example})"),
        ("error.generic", "Error: {detail}"),
        ("error.interrupted_incomplete", "Interrupted — the output file is incomplete."),
        ("error.invalid_title", "Invalid title number '{value}' (titles start at 1)"),
        ("error.multi_title_needs_dir", "Several titles need a directory destination, not '{dest}' (end it with /)"),
        ("error.no_drive", "No optical drive found"),
        ("error.no_titles", "no titles found on the disc"),
        ("error.op_info", "Info"),
        ("error.op_update_keys", "Key update"),
        ("error.op_verify", "Verify"),
        ("error.open_failed", "Cannot open {device}: {error}"),
        ("error.raw_mux_invalid", "--raw cannot be used for muxing (mkv:// or m2ts://); use iso:// for a raw copy"),
        ("error.scan_failed", "Scan failed: {error}"),
        ("error.title_out_of_range", "Title {num} is out of range (disc has {count} titles)"),
        ("error.unknown_flag", "Unknown flag: {flag}"),
        ("keys.saved", "Saved to {path}"),
        ("keys.updated", "Updated keys: {entries} entries ({bytes} bytes)"),
        ("keys.usage", "Usage: freemkv update-keys --url <keydb-url>"),
        ("rip.complete", "Complete: {size} {unit} in {time}s ({speed} MB/s)"),
        ("rip.damage_lost", "~{time} lost ({movie_time} in main title)"),
        ("rip.damage_lost_movie", "~{time} lost"),
        ("rip.damage_none", "no damage"),
        ("rip.disc_label", "Disc: {name} ({size} GB)"),
        ("rip.drive", "Drive: {device}"),
        ("rip.failed", "FAILED"),
        ("rip.interrupted", "Interrupted"),
        ("rip.mapfile_summary", "Good: {good} GB, unreadable: {unreadable} MB, pending: {pending} MB"),
        ("rip.multipass_ignored", "--multipass only applies to disc:// to iso:// copies; ignoring it."),
        ("rip.ok", "OK"),
        ("rip.opening", "Opening {device}... "),
        ("rip.output", "Output: {path}"),
        ("rip.title_info", "Title {num}: {duration}, {size} GB"),
        ("rip.titles_summary", "{selected} of {total} titles selected"),
        ("rip.warning_title_range", "Title {num} does not exist (source has {count} titles)"),
        ("stream.purpose.commentary", "Commentary"),
        ("stream.purpose.descriptive", "Descriptive Audio"),
        ("stream.purpose.ime", "IME"),
        ("stream.purpose.score", "Score"),
        ("stream.qualifier.descriptive_service", "Descriptive Service"),
        ("stream.qualifier.sdh", "SDH"),
        ("stream.secondary", "secondary"),
        ("verify.bad", "Bad"),
        ("verify.chapter", "chapter {num} at {min}:{sec}"),
        ("verify.disc_summary", "{name}: {size} GB ({sectors} sectors)"),
        ("verify.failed", "FAILED"),
        ("verify.good", "Good"),
        ("verify.ok", "OK"),
        ("verify.only_disc", "verify only works with disc:// sources"),
        ("verify.opening", "Opening drive... "),
        ("verify.perfect", "Perfect — every sector read cleanly."),
        ("verify.progress", "{pct}%  {speed} MB/s  ({done}/{total})"),
        ("verify.range", "{status}: {start}-{end} ({size} GB){chapter}, {count} sectors"),
        ("verify.recovered", "Recovered"),
        ("verify.results", "Results:"),
        ("verify.scanning", "Scanning disc... "),
        ("verify.slow", "Slow"),
        ("verify.status_bad", "BAD"),
        ("verify.status_recovered", "RECOVERED"),
        ("verify.status_slow", "SLOW"),
        ("verify.unrecoverable", "{count} unrecoverable sectors in {clusters} clusters"),
        ("verify.verdict", "Readable: {pct}% in {min}:{sec}"),
        ("verify.verifying", "Verifying..."),
        ("verify.warn", "WARN ({error})"),
    ]
}

/// The catalog with each entry taken by its view.
pub open spec fn catalog_view() -> Seq<(Seq<char>, Seq<char>)> {
    catalog().map_values(|e: (&'static str, &'static str)| (e.0@, e.1@))
}

/// The value of the first entry whose key is `key`.
pub open spec fn lookup(entries: Seq<(Seq<char>, Seq<char>)>, key: Seq<char>) -> Option<Seq<char>>
    decreases entries.len(),
{
    if entries.len() == 0 {
        None
    } else if entries[0].0 == key {
        Some(entries[0].1)
    } else {
        lookup(entries.skip(1), key)
    }
}

/// The message for `key`: its catalog template, or the key itself when the
/// catalog has no such entry.
pub open spec fn message(key: Seq<char>) -> Seq<char> {
    match lookup(catalog_view(), key) {
        Some(v) => v,
        None => key,
    }
}

/// `s` with every non-overlapping occurrence of `pat`, scanned left to right,
/// replaced by `rep` (`str::replace`). An empty pattern changes nothing.
pub open spec fn replace_all(s: Seq<char>, pat: Seq<char>, rep: Seq<char>) -> Seq<char>
    decreases s.len(),
{
    if pat.len() == 0 || s.len() < pat.len() {
        s
    } else if s.take(pat.len() as int) == pat {
        rep + replace_all(s.skip(pat.len() as int), pat, rep)
    } else {
        seq![s[0]] + replace_all(s.skip(1), pat, rep)
    }
}

/// The placeholder `{name}`.
pub open spec fn placeholder(name: Seq<char>) -> Seq<char> {
    seq!['{'] + name + seq!['}']
}

/// `template` with each `{name}` of `args`, in order, replaced by its value.
pub open spec fn fill_args(template: Seq<char>, args: Seq<(Seq<char>, Seq<char>)>) -> Seq<char>
    decreases args.len(),
{
    if args.len() == 0 {
        template
    } else {
        fill_args(replace_all(template, placeholder(args[0].0), args[0].1), args.skip(1))
    }
}

pub open spec fn arg_views(args: Seq<(&str, &str)>) -> Seq<(Seq<char>, Seq<char>)> {
    args.map_values(|a: (&str, &str)| (a.0@, a.1@))
}

fn catalog_table() -> (t: Vec<(&'static str, &'static str)>)
    ensures
        t@ == catalog(),
{
    let t = vec![
        ("disc.video", "Video"),
        ("disc.audio", "Audio"),
        ("disc.subtitle", "Subtitle"),
        ("app.opt_quiet", "Suppress output"),
        ("app.opt_verbose", "Show more detail"),
        ("app.unknown_option", "Unknown option: {opt}"),
        ("disc.aacs_encrypted", "AACS: Encrypted"),
        ("disc.clip", "clip"),
        ("disc.clips", "clips"),
        ("disc.css_encrypted", "CSS: Encrypted"),
        ("disc.disc", "Disc"),
        ("disc.dolby_vision_el", "Dolby Vision EL"),
        ("disc.duration", "Duration"),
        ("disc.forced", "forced"),
        ("disc.format", "Format"),
        ("disc.format_unknown", "Unknown"),
        ("disc.more_titles", "  ... and {count} more (use --full to show all)"),
        ("disc.no_titles", "No titles found"),
        ("disc.scanning", "Scanning disc..."),
        ("disc.streams", "Streams"),
        ("disc.titles", "Titles"),
        ("disc.usage", "Usage: freemkv info disc:// [--device PATH] [--full] [--basic] [--quiet]"),
        ("drive.captured", "Captured {code} {name} ({bytes} bytes)"),
        ("drive.device", "Device"),
        ("drive.device_desc", "Drive device path (e.g. /dev/sg0)"),
        ("drive.firmware_date", "Firmware date"),
        ("drive.firmware_version", "Firmware version"),
        ("drive.header", "Drive"),
        ("drive.manufacturer", "Manufacturer"),
        ("drive.mask_desc", "Mask serial numbers"),
        ("drive.platform", "Platform"),
        ("drive.platform_header", "Platform"),
        ("drive.product", "Product"),
        ("drive.profile", "Profile"),
        ("drive.revision", "Revision"),
        ("drive.serial", "Serial number"),
        ("drive.share_desc", "Capture the drive profile for submission"),
        ("drive.share_hint", "Run with --share to capture this drive's profile."),
        ("drive.share_usage", "Usage: freemkv info disc:// --share [--mask]"),
        ("drive.submit_drive", "Drive"),
        ("drive.submit_features", "Features"),
        ("drive.submit_firmware", "Firmware"),
        ("drive.submit_header", "Drive profile"),
        ("drive.submit_issue_body", "Issue body:"),
        ("drive.submit_issue_title", "Issue title: {title}"),
        ("drive.submit_manual", "Open a new issue and paste the text below:"),
        ("drive.submit_packaging", "Packaging profile..."),
        ("drive.submit_platform", "Platform"),
        ("drive.submit_profile", "Profile"),
        ("drive.submit_saved", "Profile saved in {dir}/"),
        ("drive.submit_serial", "Serial"),
        ("drive.submit_zip", "Archive: {path}"),
        ("drive.supported", "supported"),
        ("drive.unknown", "unknown"),
        ("drive.zip_failed", "failed: {error}"),
        ("error.E7022", "No decryption key for this disc (disc hash {hash}). Add its key to keydb.cfg."),
        ("error.cannot_create_dir", "Cannot create directory {path}: {error}"),
        ("error.cannot_write", "Cannot write {path}: {error}"),
        ("error.dest_needs_scheme", "'{dest}' has no URL scheme — use scheme://path (e.g. mkv://{dest})"),
        ("error.fatal_diagnostic_hint", "For a diagnostic log, re-run with --log-level 3 (writes ./log.txt)."),
        ("error.fatal_header", "{op} failed: {cause}"),
        ("error.flag_needs_value", "{flag} needs a value (e.g. {example})"),
        ("error.generic", "Error: {detail}"),
        ("error.interrupted_incomplete", "Interrupted — the output file is incomplete."),
        ("error.invalid_title", "Invalid title number '{value}' (titles start at 1)"),
        ("error.multi_title_needs_dir", "Several titles need a directory destination, not '{dest}' (end it with /)"),
        ("error.no_drive", "No optical drive found"),
        ("error.no_titles", "no titles found on the disc"),
        ("error.op_info", "Info"),
        ("error.op_update_keys", "Key update"),
        ("error.op_verify", "Verify"),
        ("error.open_failed", "Cannot open {device}: {error}"),
        ("error.raw_mux_invalid", "--raw cannot be used for muxing (mkv:// or m2ts://); use iso:// for a raw copy"),
        ("error.scan_failed", "Scan failed: {error}"),
        ("error.title_out_of_range", "Title {num} is out of range (disc has {count} titles)"),
        ("error.unknown_flag", "Unknown flag: {flag}"),
        ("keys.saved", "Saved to {path}"),
        ("keys.updated", "Updated keys: {entries} entries ({bytes} bytes)"),
        ("keys.usage", "Usage: freemkv update-keys --url <keydb-url>"),
        ("rip.complete", "Complete: {size} {unit} in {time}s ({speed} MB/s)"),
        ("rip.damage_lost", "~{time} lost ({movie_time} in main title)"),
        ("rip.damage_lost_movie", "~{time} lost"),
        ("rip.damage_none", "no damage"),
        ("rip.disc_label", "Disc: {name} ({size} GB)"),
        ("rip.drive", "Drive: {device}"),
        ("rip.failed", "FAILED"),
        ("rip.interrupted", "Interrupted"),
        ("rip.mapfile_summary", "Good: {good} GB, unreadable: {unreadable} MB, pending: {pending} MB"),
        ("rip.multipass_ignored", "--multipass only applies to disc:// to iso:// copies; ignoring it."),
        ("rip.ok", "OK"),
        ("rip.opening", "Opening {device}... "),
        ("rip.output", "Output: {path}"),
        ("rip.title_info", "Title {num}: {duration}, {size} GB"),
        ("rip.titles_summary", "{selected} of {total} titles selected"),
        ("rip.warning_title_range", "Title {num} does not exist (source has {count} titles)"),
        ("stream.purpose.commentary", "Commentary"),
        ("stream.purpose.descriptive", "Descriptive Audio"),
        ("stream.purpose.ime", "IME"),
        ("stream.purpose.score", "Score"),
        ("stream.qualifier.descriptive_service", "Descriptive Service"),
        ("stream.qualifier.sdh", "SDH"),
        ("stream.secondary", "secondary"),
        ("verify.bad", "Bad"),
        ("verify.chapter", "chapter {num} at {min}:{sec}"),
        ("verify.disc_summary", "{name}: {size} GB ({sectors} sectors)"),
        ("verify.failed", "FAILED"),
        ("verify.good", "Good"),
        ("verify.ok", "OK"),
        ("verify.only_disc", "verify only works with disc:// sources"),
        ("verify.opening", "Opening drive... "),
        ("verify.perfect", "Perfect — every sector read cleanly."),
        ("verify.progress", "{pct}%  {speed} MB/s  ({done}/{total})"),
        ("verify.range", "{status}: {start}-{end} ({size} GB){chapter}, {count} sectors"),
        ("verify.recovered", "Recovered"),
        ("verify.results", "Results:"),
        ("verify.scanning", "Scanning disc... "),
        ("verify.slow", "Slow"),
        ("verify.status_bad", "BAD"),
        ("verify.status_recovered", "RECOVERED"),
        ("verify.status_slow", "SLOW"),
        ("verify.unrecoverable", "{count} unrecoverable sectors in {clusters} clusters"),
        ("verify.verdict", "Readable: {pct}% in {min}:{sec}"),
        ("verify.verifying", "Verifying..."),
        ("verify.warn", "WARN ({error})"),
    ];
    assert(t@ =~= catalog());
    t
}

/// The message for `key`; the key itself when the catalog lacks it.
pub fn get(key: &str) -> (r: String)
    ensures
        r@ == message(key@),
{
    let t = catalog_table();
    let ghost entries = catalog_view();
    let mut i: usize = 0;
    assert(entries.skip(0) =~= entries);
    while i < t.len()
        invariant
            i <= t.len(),
            t@ == catalog(),
            entries == catalog_view(),
            lookup(entries, key@) == lookup(entries.skip(i as int), key@),
        decreases t.len() - i,
    {
        let (k, v) = t[i];
        proof {
            assert(entries.skip(i as int)[0] == (k@, v@));
            assert(entries.skip(i as int).skip(1) =~= entries.skip(i + 1));
        }
        if str_eq(k, key) {
            return string_from(v);
        }
        i = i + 1;
    }
    assert(entries.skip(t.len() as int).len() == 0);
    string_from(key)
}

/// `s` with each occurrence of `pat` replaced by `rep`.
pub fn replace_chars(s: &Vec<char>, pat: &Vec<char>, rep: &Vec<char>) -> (r: Vec<char>)
    ensures
        r@ == replace_all(s@, pat@, rep@),
{
    if pat.len() == 0 {
        return s.clone();
    }
    let mut out: Vec<char> = Vec::new();
    let mut i: usize = 0;
    assert(s@.skip(0) =~= s@);
    assert(out@ + replace_all(s@, pat@, rep@) =~= replace_all(s@, pat@, rep@));
    while i < s.len()
        invariant
            i <= s.len(),
            pat@.len() > 0,
            out@ + replace_all(s@.skip(i as int), pat@, rep@) == replace_all(s@, pat@, rep@),
        decreases s.len() - i,
    {
        let ghost rest = s@.skip(i as int);
        if s.len() - i < pat.len() {
            // Too short for another match: the rest is copied unchanged.
            let ghost before = out@;
            let mut j = i;
            while j < s.len()
                invariant
                    i <= j <= s.len(),
                    out@ == before + s@.subrange(i as int, j as int),
                decreases s.len() - j,
            {
                out.push(s[j]);
                j = j + 1;
                assert(out@ =~= before + s@.subrange(i as int, j as int));
            }
            assert(rest =~= s@.subrange(i as int, s.len() as int));
            assert(s@.skip(s.len() as int) =~= Seq::<char>::empty());
            assert(out@ + replace_all(s@.skip(s.len() as int), pat@, rep@) =~= out@);
            i = s.len();
        } else if matches_at(s, pat, i) {
            proof {
                assert(rest.take(pat@.len() as int) =~= s@.subrange(i as int, i + pat@.len()));
                assert(rest.skip(pat@.len() as int) =~= s@.skip(i + pat@.len()));
                assert(out@ + rep@ + replace_all(s@.skip(i + pat@.len()), pat@, rep@) =~= out@
                    + (rep@ + replace_all(rest.skip(pat@.len() as int), pat@, rep@)));
            }
            push_all(&mut out, rep);
            i = i + pat.len();
        } else {
            proof {
                assert(rest.take(pat@.len() as int) =~= s@.subrange(i as int, i + pat@.len()));
                assert(rest.skip(1) =~= s@.skip(i + 1));
                assert(out@.push(s@[i as int]) + replace_all(s@.skip(i + 1), pat@, rep@) =~= out@
                    + (seq![rest[0]] + replace_all(rest.skip(1), pat@, rep@)));
            }
            out.push(s[i]);
            i = i + 1;
        }
    }
    assert(s@.skip(s.len() as int) =~= Seq::<char>::empty());
    assert(out@ + replace_all(s@.skip(s.len() as int), pat@, rep@) =~= out@);
    out
}

/// The message for `key` with each `{name}` of `args`, in order, replaced by
/// its value.
pub fn fmt(key: &str, args: &[(&str, &str)]) -> (r: String)
    ensures
        r@ == fill_args(message(key@), arg_views(args@)),
{
    let m = get(key);
    let mut cur = chars_of(m.as_str());
    let ghost all = arg_views(args@);
    let mut i: usize = 0;
    assert(all.skip(0) =~= all);
    while i < args.len()
        invariant
            i <= args.len(),
            all == arg_views(args@),
            fill_args(message(key@), all) == fill_args(cur@, all.skip(i as int)),
        decreases args.len() - i,
    {
        let (name, value) = args[i];
        let mut pat: Vec<char> = Vec::new();
        pat.push('{');
        push_str(&mut pat, name);
        pat.push('}');
        let rep = chars_of(value);
        proof {
            assert(pat@ =~= placeholder(name@));
            assert(all.skip(i as int)[0] == (name@, value@));
            assert(all.skip(i as int).skip(1) =~= all.skip(i + 1));
        }
        cur = replace_chars(&cur, &pat, &rep);
        i = i + 1;
    }
    assert(all.skip(args.len() as int).len() == 0);
    string_of(&cur)
}


/// The stream-group labels of the title list (the first catalog entries).
pub proof fn lemma_stream_labels()
    ensures
        message("disc.video"@) == "Video"@,
        message("disc.audio"@) == "Audio"@,
        message("disc.subtitle"@) == "Subtitle"@,
{
    reveal_strlit("disc.video");
    reveal_strlit("disc.audio");
    reveal_strlit("disc.subtitle");
    let e = catalog_view();
    assert(e[0] == ("disc.video"@, "Video"@));
    assert(e[1] == ("disc.audio"@, "Audio"@));
    assert(e[2] == ("disc.subtitle"@, "Subtitle"@));
    assert(e.skip(1)[0] == e[1]);
    assert(e.skip(1).skip(1)[0] == e[2]);
    assert("disc.video"@[5] != "disc.audio"@[5]);
    assert("disc.video"@.len() != "disc.subtitle"@.len());
    assert("disc.audio"@.len() != "disc.subtitle"@.len());
    reveal_with_fuel(lookup, 3);
}

} // verus!
