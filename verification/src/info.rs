//! Drive-profile formatting: the directory name built from untrusted
//! INQUIRY strings, the firmware date, hex dumps, and the `drive.toml` and
//! issue texts of a captured profile.
use vstd::prelude::*;
use crate::lang::{lower_of, str_to_lowercase};
use crate::strings::{get, message};
use crate::base64::b64_encoded;
use crate::toml::escaped;
use crate::text::{
    dec, fill, fmt_dec, push_all, push_str, spaces, str_eq, trim, trim_str, views, ascii_lower, chars_of, fmt_hex, is_alnum, is_ascii_alnum, is_ascii_digit, is_ascii_lower,
    join, join_chars, hex, pad_left, padded_left, string_of, to_lower_ascii,
};

pub use crate::base64::{base64_decode, base64_encode};
pub use crate::toml::{toml_basic_unescape, toml_escape};

verus! {

// ── Profile directory name ─────────────────────────────────────────────────

/// One left-to-right pass: ASCII alphanumerics (lower-cased) and `_` are kept;
/// every other character becomes `-`, a run of them a single `-`.
/// `last_dash` records whether the previous output character was such a `-`.
pub open spec fn scan_component(s: Seq<char>, last_dash: bool) -> Seq<char>
    decreases s.len(),
{
    if s.len() == 0 {
        Seq::empty()
    } else if is_ascii_alnum(s[0]) {
        seq![ascii_lower(s[0])] + scan_component(s.skip(1), false)
    } else if s[0] == '_' {
        seq!['_'] + scan_component(s.skip(1), false)
    } else if last_dash {
        scan_component(s.skip(1), true)
    } else {
        seq!['-'] + scan_component(s.skip(1), true)
    }
}

pub open spec fn trim_start_dashes(s: Seq<char>) -> Seq<char>
    decreases s.len(),
{
    if s.len() > 0 && s[0] == '-' {
        trim_start_dashes(s.skip(1))
    } else {
        s
    }
}

pub open spec fn trim_end_dashes(s: Seq<char>) -> Seq<char>
    decreases s.len(),
{
    if s.len() > 0 && s.last() == '-' {
        trim_end_dashes(s.drop_last())
    } else {
        s
    }
}

/// `str::trim_matches('-')`.
pub open spec fn trim_dashes(s: Seq<char>) -> Seq<char> {
    trim_end_dashes(trim_start_dashes(s))
}

/// The fallback name for an input with nothing usable in it.
pub open spec fn drive_word() -> Seq<char> {
    seq!['d', 'r', 'i', 'v', 'e']
}

pub open spec fn sanitized(s: Seq<char>) -> Seq<char> {
    let t = trim_dashes(scan_component(s, false));
    if t.len() == 0 {
        drive_word()
    } else {
        t
    }
}

/// The characters a sanitized component may hold.
pub open spec fn component_char(c: char) -> bool {
    is_ascii_digit(c) || is_ascii_lower(c) || c == '_' || c == '-'
}

/// A safe single path component: non-empty, made of lower-case ASCII
/// alphanumerics, `_` and `-` only, with no leading, trailing or doubled `-`.
pub open spec fn is_safe_component(t: Seq<char>) -> bool {
    &&& t.len() > 0
    &&& forall|i: int| 0 <= i < t.len() ==> component_char(#[trigger] t[i])
    &&& t[0] != '-'
    &&& t.last() != '-'
    &&& forall|i: int| 0 <= i < t.len() - 1 ==> !(#[trigger] t[i] == '-' && t[i + 1] == '-')
}

pub open spec fn no_double_dash(t: Seq<char>) -> bool {
    forall|i: int| 0 <= i < t.len() - 1 ==> !(#[trigger] t[i] == '-' && t[i + 1] == '-')
}

pub open spec fn all_component_chars(t: Seq<char>) -> bool {
    forall|i: int| 0 <= i < t.len() ==> component_char(#[trigger] t[i])
}

proof fn lemma_scan_props(s: Seq<char>, last_dash: bool)
    ensures
        all_component_chars(scan_component(s, last_dash)),
        no_double_dash(scan_component(s, last_dash)),
        last_dash && scan_component(s, last_dash).len() > 0 ==> scan_component(s, last_dash)[0]
            != '-',
    decreases s.len(),
{
    if s.len() > 0 {
        let c = s[0];
        let next_dash = !(is_ascii_alnum(c) || c == '_');
        lemma_scan_props(s.skip(1), next_dash);
        let rest = scan_component(s.skip(1), next_dash);
        let out = scan_component(s, last_dash);
        if is_ascii_alnum(c) || c == '_' || !last_dash {
            let h = if is_ascii_alnum(c) {
                ascii_lower(c)
            } else if c == '_' {
                '_'
            } else {
                '-'
            };
            assert(out == seq![h] + rest);
            assert forall|i: int| 0 <= i < out.len() implies component_char(#[trigger] out[i]) by {
                if i > 0 {
                    assert(out[i] == rest[i - 1]);
                }
            }
            assert forall|i: int| 0 <= i < out.len() - 1 implies !(#[trigger] out[i] == '-'
                && out[i + 1] == '-') by {
                if i > 0 {
                    assert(out[i] == rest[i - 1]);
                    assert(out[i + 1] == rest[i]);
                } else {
                    assert(out[1] == rest[0]);
                }
            }
        }
    }
}

proof fn lemma_trim_start_dashes(s: Seq<char>)
    ensures
        exists|k: int| 0 <= k <= s.len() && #[trigger] s.skip(k) == trim_start_dashes(s),
        trim_start_dashes(s).len() > 0 ==> trim_start_dashes(s)[0] != '-',
    decreases s.len(),
{
    if s.len() > 0 && s[0] == '-' {
        lemma_trim_start_dashes(s.skip(1));
        let k = choose|k: int| 0 <= k <= s.skip(1).len() && #[trigger] s.skip(1).skip(k)
            == trim_start_dashes(s.skip(1));
        assert(s.skip(1).skip(k) =~= s.skip(k + 1));
    } else {
        assert(s.skip(0) =~= s);
    }
}

proof fn lemma_trim_end_dashes(s: Seq<char>)
    ensures
        exists|k: int| 0 <= k <= s.len() && #[trigger] s.take(k) == trim_end_dashes(s),
        trim_end_dashes(s).len() > 0 ==> trim_end_dashes(s).last() != '-',
    decreases s.len(),
{
    if s.len() > 0 && s.last() == '-' {
        lemma_trim_end_dashes(s.drop_last());
        let k = choose|k: int| 0 <= k <= s.drop_last().len() && #[trigger] s.drop_last().take(k)
            == trim_end_dashes(s.drop_last());
        assert(s.drop_last().take(k) =~= s.take(k));
    } else {
        assert(s.take(s.len() as int) =~= s);
    }
}

/// A component made safe by `sanitized` is safe.
pub proof fn lemma_sanitized_is_safe(s: Seq<char>)
    ensures
        is_safe_component(sanitized(s)),
{
    let out = scan_component(s, false);
    lemma_scan_props(s, false);
    let a = trim_start_dashes(out);
    lemma_trim_start_dashes(out);
    let ka = choose|k: int| 0 <= k <= out.len() && #[trigger] out.skip(k) == a;
    let t = trim_end_dashes(a);
    lemma_trim_end_dashes(a);
    let kt = choose|k: int| 0 <= k <= a.len() && #[trigger] a.take(k) == t;
    assert forall|i: int| 0 <= i < t.len() implies t[i] == out[ka + i] by {
        assert(t[i] == a[i]);
    }
    if t.len() > 0 {
        assert(t[0] == a[0]);
        assert forall|i: int| 0 <= i < t.len() implies component_char(#[trigger] t[i]) by {
            assert(t[i] == out[ka + i]);
        }
        assert forall|i: int| 0 <= i < t.len() - 1 implies !(#[trigger] t[i] == '-' && t[i + 1]
            == '-') by {
            assert(t[i] == out[ka + i]);
            assert(t[i + 1] == out[ka + i + 1]);
        }
    } else {
        let d = drive_word();
        assert forall|i: int| 0 <= i < d.len() implies component_char(#[trigger] d[i]) by {}
    }
}

/// The pass leaves a safe text as it is.
proof fn lemma_scan_identity(t: Seq<char>, last_dash: bool)
    requires
        all_component_chars(t),
        no_double_dash(t),
        last_dash ==> (t.len() == 0 || t[0] != '-'),
    ensures
        scan_component(t, last_dash) == t,
    decreases t.len(),
{
    if t.len() > 0 {
        let c = t[0];
        let rest = t.skip(1);
        assert(component_char(c));
        assert forall|i: int| 0 <= i < rest.len() implies component_char(#[trigger] rest[i]) by {
            assert(rest[i] == t[i + 1]);
        }
        assert forall|i: int| 0 <= i < rest.len() - 1 implies !(#[trigger] rest[i] == '-' && rest[i
            + 1] == '-') by {
            assert(rest[i] == t[i + 1]);
            assert(rest[i + 1] == t[i + 2]);
        }
        if rest.len() > 0 {
            assert(rest[0] == t[1]);
        }
        let next_dash = !(is_ascii_alnum(c) || c == '_');
        lemma_scan_identity(rest, next_dash);
        assert(t =~= seq![c] + rest);
    }
}

/// Sanitizing is idempotent: a sanitized name comes back unchanged.
pub proof fn lemma_sanitize_idempotent(s: Seq<char>)
    ensures
        sanitized(sanitized(s)) == sanitized(s),
{
    let t = sanitized(s);
    lemma_sanitized_is_safe(s);
    lemma_scan_identity(t, false);
    assert(trim_start_dashes(t) == t);
    assert(trim_end_dashes(t) == t);
}

/// Reduce an untrusted firmware-derived string to a safe single path component:
/// lowercase ASCII alphanumerics, `-`, and `_` only; every other character
/// (spaces, `/`, `\`, `.`, NUL, non-ASCII) becomes `-`; runs of `-` collapse to
/// one; and leading/trailing `-` are trimmed. The result can never be `.`,
/// `..`, contain a separator, or escape the working directory. Falls back to
/// `drive` if empty.
pub fn sanitize_component(s: &str) -> (r: String)
    ensures
        r@ == sanitized(s@),
        is_safe_component(r@),
        sanitized(r@) == r@,
{
    proof {
        lemma_sanitize_idempotent(s@);
    }
    let cs = chars_of(s);
    let mut out: Vec<char> = Vec::new();
    let mut last_dash = false;
    let mut i: usize = 0;
    assert(cs@.skip(0) =~= cs@);
    while i < cs.len()
        invariant
            i <= cs.len(),
            cs@ == s@,
            out@ + scan_component(cs@.skip(i as int), last_dash) == scan_component(s@, false),
        decreases cs.len() - i,
    {
        let c = cs[i];
        let ghost before = out@;
        let ghost ld = last_dash;
        let ghost rest = cs@.skip(i as int);
        assert(rest[0] == c);
        assert(rest.skip(1) =~= cs@.skip(i + 1));
        if is_alnum(c) {
            out.push(to_lower_ascii(c));
            last_dash = false;
        } else if c == '_' {
            out.push('_');
            last_dash = false;
        } else {
            if !last_dash {
                out.push('-');
            }
            last_dash = true;
        }
        assert(out@ + scan_component(cs@.skip(i + 1), last_dash) =~= before + scan_component(
            rest,
            ld,
        ));
        i = i + 1;
    }
    assert(cs@.skip(cs.len() as int) =~= Seq::<char>::empty());
    assert(out@ + Seq::<char>::empty() =~= out@);
    // Trim the leading and trailing dashes.
    let mut lo: usize = 0;
    assert(out@.skip(0) =~= out@);
    while lo < out.len() && out[lo] == '-'
        invariant
            lo <= out.len(),
            trim_start_dashes(out@) == trim_start_dashes(out@.skip(lo as int)),
        decreases out.len() - lo,
    {
        assert(out@.skip(lo as int).skip(1) =~= out@.skip(lo + 1));
        lo = lo + 1;
    }
    let mut hi: usize = out.len();
    assert(out@.skip(lo as int) =~= out@.subrange(lo as int, hi as int));
    while hi > lo && out[hi - 1] == '-'
        invariant
            lo <= hi <= out.len(),
            trim_dashes(out@) == trim_end_dashes(out@.subrange(lo as int, hi as int)),
        decreases hi - lo,
    {
        assert(out@.subrange(lo as int, hi as int).drop_last() =~= out@.subrange(
            lo as int,
            hi - 1,
        ));
        hi = hi - 1;
    }
    let mut t: Vec<char> = Vec::new();
    let mut j: usize = lo;
    while j < hi
        invariant
            lo <= j <= hi,
            hi <= out.len(),
            t@ == out@.subrange(lo as int, j as int),
        decreases hi - j,
    {
        t.push(out[j]);
        j = j + 1;
        assert(t@ =~= out@.subrange(lo as int, j as int));
    }
    proof {
        lemma_sanitized_is_safe(s@);
    }
    if t.len() == 0 {
        let mut d: Vec<char> = Vec::new();
        d.push('d');
        d.push('r');
        d.push('i');
        d.push('v');
        d.push('e');
        assert(d@ =~= drive_word());
        string_of(&d)
    } else {
        string_of(&t)
    }
}

// ── Firmware date ──────────────────────────────────────────────────────────

/// A drive firmware date (`YYYYMMDD...`, or `21YYMMDD....` with a two-digit
/// year) as `YYYY-MM-DD`. Text that is shorter than eight characters or not
/// ASCII passes through unchanged (for ASCII text the byte and character
/// lengths agree).
pub open spec fn formatted_date(s: Seq<char>) -> Seq<char> {
    if !vstd::utf8::is_ascii_chars(s) || s.len() < 8 {
        s
    } else if s[0] == '2' && s[1] == '1' && s.len() >= 12 {
        seq!['2', '0'] + s.subrange(2, 4) + seq!['-'] + s.subrange(4, 6) + seq!['-'] + s.subrange(
            6,
            8,
        )
    } else {
        s.subrange(0, 4) + seq!['-'] + s.subrange(4, 6) + seq!['-'] + s.subrange(6, 8)
    }
}

fn push_range(v: &mut Vec<char>, s: &Vec<char>, from: usize, to: usize)
    requires
        from <= to <= s.len(),
    ensures
        final(v)@ == old(v)@ + s@.subrange(from as int, to as int),
{
    let mut i = from;
    while i < to
        invariant
            from <= i <= to,
            to <= s.len(),
            v@ == old(v)@ + s@.subrange(from as int, i as int),
        decreases to - i,
    {
        v.push(s[i]);
        i = i + 1;
        assert(v@ =~= old(v)@ + s@.subrange(from as int, i as int));
    }
}

pub fn format_date(fw_date: &str) -> (r: String)
    ensures
        r@ == formatted_date(fw_date@),
{
    let cs = chars_of(fw_date);
    if cs.len() < 8 || !fw_date.is_ascii() {
        return string_of(&cs);
    }
    let mut out: Vec<char> = Vec::new();
    if cs[0] == '2' && cs[1] == '1' && cs.len() >= 12 {
        out.push('2');
        out.push('0');
        push_range(&mut out, &cs, 2, 4);
    } else {
        push_range(&mut out, &cs, 0, 4);
    }
    out.push('-');
    push_range(&mut out, &cs, 4, 6);
    out.push('-');
    push_range(&mut out, &cs, 6, 8);
    proof {
        if cs@[0] == '2' && cs@[1] == '1' && cs@.len() >= 12 {
            assert(out@ =~= formatted_date(fw_date@));
        } else {
            assert(out@ =~= formatted_date(fw_date@));
        }
    }
    string_of(&out)
}

// ── Hex dump ───────────────────────────────────────────────────────────────

/// A byte as two lower-case hex digits (`{:02x}`).
pub open spec fn hex_byte(b: u8) -> Seq<char> {
    pad_left(hex(b as nat, false), 2, '0')
}

/// The bytes of one line, as hex pairs separated by spaces.
pub open spec fn hex_line(c: Seq<u8>) -> Seq<char> {
    join(c.map_values(|b: u8| hex_byte(b)), seq![' '])
}

/// The lines of a dump: one per 32 bytes, the last one possibly shorter.
pub open spec fn dump_lines(s: Seq<u8>) -> Seq<Seq<char>>
    decreases s.len(),
{
    if s.len() == 0 {
        Seq::empty()
    } else if s.len() <= 32 {
        seq![hex_line(s)]
    } else {
        seq![hex_line(s.take(32))] + dump_lines(s.skip(32))
    }
}

/// The dump: its lines joined by a newline and a two-space indent.
pub open spec fn hex_dumped(s: Seq<u8>) -> Seq<char> {
    join(dump_lines(s), seq!['\n', ' ', ' '])
}

fn hex_pair(b: u8) -> (r: Vec<char>)
    ensures
        r@ == hex_byte(b),
{
    let h = fmt_hex(b as u64, false);
    padded_left(&h, 2, '0')
}

fn hex_line_of(s: &[u8], from: usize, to: usize) -> (r: Vec<char>)
    requires
        from <= to <= s.len(),
    ensures
        r@ == hex_line(s@.subrange(from as int, to as int)),
{
    let ghost c = s@.subrange(from as int, to as int);
    let mut parts: Vec<Vec<char>> = Vec::new();
    let mut i = from;
    while i < to
        invariant
            from <= i <= to,
            to <= s.len(),
            c == s@.subrange(from as int, to as int),
            parts@.len() == i - from,
            forall|k: int| 0 <= k < i - from ==> (#[trigger] parts@[k])@ == hex_byte(c[k]),
        decreases to - i,
    {
        parts.push(hex_pair(s[i]));
        i = i + 1;
    }
    let mut sep: Vec<char> = Vec::new();
    sep.push(' ');
    assert(sep@ =~= seq![' ']);
    assert(parts@.map_values(|p: Vec<char>| p@) =~= c.map_values(|b: u8| hex_byte(b)));
    join_chars(&parts, &sep)
}

/// Bytes as lower-case hex pairs, 32 to a line, continuation lines indented
/// by two spaces.
pub fn hex_dump(data: &[u8]) -> (r: String)
    ensures
        r@ == hex_dumped(data@),
{
    let mut lines: Vec<Vec<char>> = Vec::new();
    let mut i: usize = 0;
    let ghost all = dump_lines(data@);
    assert(data@.skip(0) =~= data@);
    while i < data.len()
        invariant
            i <= data.len(),
            all == dump_lines(data@),
            lines@.map_values(|p: Vec<char>| p@) + dump_lines(data@.skip(i as int)) == all,
        decreases data.len() - i,
    {
        let ghost rest = data@.skip(i as int);
        let ghost before = lines@.map_values(|p: Vec<char>| p@);
        let end: usize = if data.len() - i <= 32 {
            data.len()
        } else {
            i + 32
        };
        let line = hex_line_of(data, i, end);
        lines.push(line);
        proof {
            assert(lines@.map_values(|p: Vec<char>| p@) =~= before.push(line@));
            if rest.len() <= 32 {
                assert(rest =~= data@.subrange(i as int, end as int));
                assert(data@.skip(end as int) =~= Seq::<u8>::empty());
            } else {
                assert(rest.take(32) =~= data@.subrange(i as int, end as int));
                assert(rest.skip(32) =~= data@.skip(end as int));
            }
            assert(before.push(line@) + dump_lines(data@.skip(end as int)) =~= before
                + dump_lines(rest));
        }
        i = end;
    }
    assert(data@.skip(data.len() as int) =~= Seq::<u8>::empty());
    assert(lines@.map_values(|p: Vec<char>| p@) + Seq::<Seq<char>>::empty() =~= lines@.map_values(
        |p: Vec<char>| p@,
    ));
    let mut sep: Vec<char> = Vec::new();
    sep.push('\n');
    sep.push(' ');
    sep.push(' ');
    assert(sep@ =~= seq!['\n', ' ', ' ']);
    let r = join_chars(&lines, &sep);
    string_of(&r)
}


// ── Drive-info arguments ───────────────────────────────────────────────────

/// Options of the drive report (`info disc:// --share`).
#[derive(Debug)]
pub struct DriveInfoOptions {
    pub device: Option<String>,
    pub share: bool,
    pub mask: bool,
    pub quiet: bool,
    pub verbose: bool,
}

/// What the drive-report arguments ask for.
#[derive(Debug)]
pub enum DriveInfoArgs {
    /// Report the drive with these options.
    Report(DriveInfoOptions),
    /// `--help` / `-h`: print the option list.
    Help,
    /// `--device` / `-d` was the last argument.
    MissingDevice,
    /// An argument that is no option of this command.
    UnknownOption(String),
}

/// The outcome of the argument scan, over plain values.
pub enum DriveInfoScan {
    Report(Option<Seq<char>>, bool, bool, bool, bool),
    Help,
    MissingDevice,
    UnknownOption(Seq<char>),
}

/// The argument scan from position `i` with the options read so far
/// (device, share, mask, quiet, verbose). The first `--help`, missing device
/// or unknown option ends the scan.
pub open spec fn drive_info_scan(
    args: Seq<Seq<char>>,
    i: int,
    device: Option<Seq<char>>,
    share: bool,
    mask: bool,
    quiet: bool,
    verbose: bool,
) -> DriveInfoScan
    decreases args.len() + 2 - i,
{
    if i < 0 || i >= args.len() {
        DriveInfoScan::Report(device, share, mask, quiet, verbose)
    } else {
        let a = args[i];
        if a == "--device"@ || a == "-d"@ {
            if i + 1 < args.len() {
                drive_info_scan(args, i + 2, Some(args[i + 1]), share, mask, quiet, verbose)
            } else {
                DriveInfoScan::MissingDevice
            }
        } else if a == "--share"@ || a == "-s"@ {
            drive_info_scan(args, i + 1, device, true, mask, quiet, verbose)
        } else if a == "--mask"@ || a == "-m"@ {
            drive_info_scan(args, i + 1, device, share, true, quiet, verbose)
        } else if a == "--quiet"@ || a == "-q"@ {
            drive_info_scan(args, i + 1, device, share, mask, true, verbose)
        } else if a == "--verbose"@ || a == "-v"@ {
            drive_info_scan(args, i + 1, device, share, mask, quiet, true)
        } else if a == "--help"@ || a == "-h"@ {
            DriveInfoScan::Help
        } else {
            DriveInfoScan::UnknownOption(a)
        }
    }
}

pub open spec fn drive_info_args_view(r: DriveInfoArgs) -> DriveInfoScan {
    match r {
        DriveInfoArgs::Report(o) => DriveInfoScan::Report(
            match o.device {
                Some(d) => Some(d@),
                None => None,
            },
            o.share,
            o.mask,
            o.quiet,
            o.verbose,
        ),
        DriveInfoArgs::Help => DriveInfoScan::Help,
        DriveInfoArgs::MissingDevice => DriveInfoScan::MissingDevice,
        DriveInfoArgs::UnknownOption(a) => DriveInfoScan::UnknownOption(a@),
    }
}

/// Parse the arguments of the drive report.
pub fn parse_drive_info_args(args: &[String]) -> (r: DriveInfoArgs)
    ensures
        drive_info_args_view(r) == drive_info_scan(views(args@), 0, None, false, false, false, false),
{
    let ghost all = views(args@);
    let ghost total = drive_info_scan(all, 0, None, false, false, false, false);
    let mut device: Option<String> = None;
    let mut share = false;
    let mut mask = false;
    let mut quiet = false;
    let mut verbose = false;
    let mut i: usize = 0;
    while i < args.len()
        invariant
            i <= args.len(),
            all == views(args@),
            total == drive_info_scan(all, 0, None, false, false, false, false),
            total == drive_info_scan(
                all,
                i as int,
                match device {
                    Some(d) => Some(d@),
                    None => None,
                },
                share,
                mask,
                quiet,
                verbose,
            ),
        decreases args.len() - i,
    {
        let a = args[i].as_str();
        assert(all[i as int] == a@);
        if str_eq(a, "--device") || str_eq(a, "-d") {
            if i + 1 < args.len() {
                assert(all[i + 1] == args@[i + 1]@);
                device = Some(args[i + 1].clone());
                i = i + 2;
            } else {
                return DriveInfoArgs::MissingDevice;
            }
        } else if str_eq(a, "--share") || str_eq(a, "-s") {
            share = true;
            i = i + 1;
        } else if str_eq(a, "--mask") || str_eq(a, "-m") {
            mask = true;
            i = i + 1;
        } else if str_eq(a, "--quiet") || str_eq(a, "-q") {
            quiet = true;
            i = i + 1;
        } else if str_eq(a, "--verbose") || str_eq(a, "-v") {
            verbose = true;
            i = i + 1;
        } else if str_eq(a, "--help") || str_eq(a, "-h") {
            return DriveInfoArgs::Help;
        } else {
            return DriveInfoArgs::UnknownOption(args[i].clone());
        }
    }
    DriveInfoArgs::Report(DriveInfoOptions { device, share, mask, quiet, verbose })
}


// ── Drive report ───────────────────────────────────────────────────────────

/// The identity strings a drive reports (INQUIRY and GET_CONFIG), as the
/// firmware gave them.
#[derive(Debug)]
pub struct DriveIdentity {
    pub vendor_id: String,
    pub product_id: String,
    pub product_revision: String,
    pub vendor_specific: String,
    pub serial_number: String,
    pub firmware_date: String,
}

/// `revision/vendor-specific`, each trimmed.
pub open spec fn firmware_version_text(id: DriveIdentity) -> Seq<char> {
    trim(id.product_revision@) + "/"@ + trim(id.vendor_specific@)
}

pub fn firmware_version(id: &DriveIdentity) -> (r: String)
    ensures
        r@ == firmware_version_text(*id),
{
    let mut v = chars_of(trim_str(id.product_revision.as_str()).as_str());
    push_str(&mut v, "/");
    push_str(&mut v, trim_str(id.vendor_specific.as_str()).as_str());
    string_of(&v)
}

/// `"  <label>:<gap spaces><value>"`, the label looked up by `key`.
pub open spec fn field_text(key: Seq<char>, gap: nat, value: Seq<char>) -> Seq<char> {
    "  "@ + message(key) + ":"@ + fill(gap, ' ') + value
}

fn field_line(key: &str, gap: usize, value: &str) -> (r: String)
    ensures
        r@ == field_text(key@, gap as nat, value@),
{
    let mut v = chars_of("  ");
    push_str(&mut v, get(key).as_str());
    push_str(&mut v, ":");
    let sp = spaces(gap);
    push_all(&mut v, &sp);
    push_str(&mut v, value);
    string_of(&v)
}

fn add_line(lines: &mut Vec<String>, l: String)
    ensures
        views(final(lines)@) == views(old(lines)@).push(l@),
{
    lines.push(l);
    assert(views(lines@) =~= views(old(lines)@).push(l@));
}

/// The drive report: identity, then platform, firmware and profile.
pub open spec fn drive_report_text(
    id: DriveIdentity,
    device_path: Seq<char>,
    serial: Seq<char>,
    platform: Seq<char>,
    profile_status: Seq<char>,
) -> Seq<Seq<char>> {
    seq![
        message("drive.header"@),
        field_text("drive.device"@, 14, device_path),
        field_text("drive.manufacturer"@, 8, trim(id.vendor_id@)),
        field_text("drive.product"@, 13, trim(id.product_id@)),
        field_text("drive.revision"@, 12, trim(id.product_revision@)),
        field_text("drive.serial"@, 7, serial),
        field_text("drive.firmware_date"@, 7, formatted_date(id.firmware_date@)),
        Seq::empty(),
        message("drive.platform_header"@),
        field_text("drive.platform"@, 6, platform),
        field_text("drive.firmware_version"@, 4, firmware_version_text(id)),
        field_text("drive.profile"@, 13, profile_status),
    ]
}

/// The lines of the drive report. `serial` is the serial number as shown
/// (masked or not), `profile_status` the localized profile state.
pub fn drive_report_lines(
    id: &DriveIdentity,
    device_path: &str,
    serial: &str,
    platform: &str,
    profile_status: &str,
) -> (r: Vec<String>)
    ensures
        views(r@) == drive_report_text(*id, device_path@, serial@, platform@, profile_status@),
{
    let mut lines: Vec<String> = Vec::new();
    add_line(&mut lines, get("drive.header"));
    add_line(&mut lines, field_line("drive.device", 14, device_path));
    add_line(&mut lines, field_line("drive.manufacturer", 8, trim_str(id.vendor_id.as_str()).as_str()));
    add_line(&mut lines, field_line("drive.product", 13, trim_str(id.product_id.as_str()).as_str()));
    add_line(
        &mut lines,
        field_line("drive.revision", 12, trim_str(id.product_revision.as_str()).as_str()),
    );
    add_line(&mut lines, field_line("drive.serial", 7, serial));
    add_line(
        &mut lines,
        field_line("drive.firmware_date", 7, format_date(id.firmware_date.as_str()).as_str()),
    );
    add_line(&mut lines, string_of(&Vec::new()));
    add_line(&mut lines, get("drive.platform_header"));
    add_line(&mut lines, field_line("drive.platform", 6, platform));
    add_line(&mut lines, field_line("drive.firmware_version", 4, firmware_version(id).as_str()));
    add_line(&mut lines, field_line("drive.profile", 13, profile_status));
    assert(views(lines@) =~= drive_report_text(*id, device_path@, serial@, platform@, profile_status@));
    lines
}

/// The summary printed after a capture: drive, serial, platform, firmware,
/// profile state and the number of captured features.
pub open spec fn submission_text(
    id: DriveIdentity,
    serial: Seq<char>,
    platform: Seq<char>,
    profile_status: Seq<char>,
    features: nat,
) -> Seq<Seq<char>> {
    seq![
        message("drive.submit_header"@) + ":"@,
        field_text(
            "drive.submit_drive"@,
            4,
            trim(id.vendor_id@) + " "@ + trim(id.product_id@) + " "@ + trim(id.product_revision@),
        ),
        field_text("drive.submit_serial"@, 3, serial),
        field_text("drive.submit_platform"@, 1, platform),
        field_text("drive.submit_firmware"@, 1, firmware_version_text(id)),
        field_text("drive.submit_profile"@, 2, profile_status),
        field_text("drive.submit_features"@, 1, dec(features) + " captured"@),
    ]
}

fn identity_words(id: &DriveIdentity) -> (r: String)
    ensures
        r@ == trim(id.vendor_id@) + " "@ + trim(id.product_id@) + " "@ + trim(id.product_revision@),
{
    let mut v = chars_of(trim_str(id.vendor_id.as_str()).as_str());
    push_str(&mut v, " ");
    push_str(&mut v, trim_str(id.product_id.as_str()).as_str());
    push_str(&mut v, " ");
    push_str(&mut v, trim_str(id.product_revision.as_str()).as_str());
    string_of(&v)
}

pub fn submission_lines(
    id: &DriveIdentity,
    serial: &str,
    platform: &str,
    profile_status: &str,
    features: usize,
) -> (r: Vec<String>)
    ensures
        views(r@) == submission_text(*id, serial@, platform@, profile_status@, features as nat),
{
    let mut lines: Vec<String> = Vec::new();
    let mut head = chars_of(get("drive.submit_header").as_str());
    push_str(&mut head, ":");
    add_line(&mut lines, string_of(&head));
    add_line(&mut lines, field_line("drive.submit_drive", 4, identity_words(id).as_str()));
    add_line(&mut lines, field_line("drive.submit_serial", 3, serial));
    add_line(&mut lines, field_line("drive.submit_platform", 1, platform));
    add_line(&mut lines, field_line("drive.submit_firmware", 1, firmware_version(id).as_str()));
    add_line(&mut lines, field_line("drive.submit_profile", 2, profile_status));
    let mut count = fmt_dec(features as u64);
    push_str(&mut count, " captured");
    add_line(&mut lines, field_line("drive.submit_features", 1, string_of(&count).as_str()));
    assert(views(lines@) =~= submission_text(*id, serial@, platform@, profile_status@, features as nat));
    lines
}


// ── Captured profile ───────────────────────────────────────────────────────

/// The profile directory name: the lower-cased, trimmed vendor, product,
/// revision and vendor-specific strings joined by `-`, sanitized to a safe
/// path component.
pub open spec fn profile_name_text(id: DriveIdentity) -> Seq<char> {
    sanitized(
        trim(lower_of(id.vendor_id@)) + "-"@ + trim(lower_of(id.product_id@)) + "-"@ + trim(
            lower_of(id.product_revision@),
        ) + "-"@ + trim(lower_of(id.vendor_specific@)),
    )
}

fn lower_trimmed(s: &str) -> (r: String)
    ensures
        r@ == trim(lower_of(s@)),
{
    trim_str(str_to_lowercase(s).as_str())
}

pub fn profile_name(id: &DriveIdentity) -> (r: String)
    ensures
        r@ == profile_name_text(*id),
        is_safe_component(r@),
{
    let mut v = chars_of(lower_trimmed(id.vendor_id.as_str()).as_str());
    push_str(&mut v, "-");
    push_str(&mut v, lower_trimmed(id.product_id.as_str()).as_str());
    push_str(&mut v, "-");
    push_str(&mut v, lower_trimmed(id.product_revision.as_str()).as_str());
    push_str(&mut v, "-");
    push_str(&mut v, lower_trimmed(id.vendor_specific.as_str()).as_str());
    sanitize_component(string_of(&v).as_str())
}

/// The file a captured GET_CONFIG feature is saved to: `gc_<code>.bin`, the
/// code as four lower-case hex digits.
pub open spec fn feature_file_text(code: u16) -> Seq<char> {
    "gc_"@ + pad_left(hex(code as nat, false), 4, '0') + ".bin"@
}

pub fn feature_file_name(code: u16) -> (r: String)
    ensures
        r@ == feature_file_text(code),
{
    let mut v = chars_of("gc_");
    let h = padded_left(&fmt_hex(code as u64, false), 4, '0');
    push_all(&mut v, &h);
    push_str(&mut v, ".bin");
    string_of(&v)
}

/// The `[features]` entry of a captured feature:
/// `0x<CODE> = "<file>"  # <name>`, the code as four upper-case hex digits.
pub open spec fn feature_line_text(code: u16, file: Seq<char>, name: Seq<char>) -> Seq<char> {
    "0x"@ + pad_left(hex(code as nat, true), 4, '0') + " = \""@ + file + "\"  # "@ + name
}

pub fn feature_line(code: u16, file: &str, name: &str) -> (r: String)
    ensures
        r@ == feature_line_text(code, file@, name@),
{
    let mut v = chars_of("0x");
    let h = padded_left(&fmt_hex(code as u64, true), 4, '0');
    push_all(&mut v, &h);
    push_str(&mut v, " = \"");
    push_str(&mut v, file);
    push_str(&mut v, "\"  # ");
    push_str(&mut v, name);
    string_of(&v)
}

/// Whether a captured feature carries the serial number to mask: feature
/// `0x0108` with data beyond its four-byte header, when masking is asked for.
pub fn feature_needs_mask(code: u16, mask: bool, len: usize) -> (r: bool)
    ensures
        r == (code == 0x0108 && mask && len > 4),
{
    code == 0x0108 && mask && len > 4
}

/// Whether the vendor READ_BUFFER data is to be masked: its first twelve
/// bytes hold the serial number.
pub fn read_buffer_needs_mask(mask: bool, len: usize) -> (r: bool)
    ensures
        r == (mask && len >= 12),
{
    mask && len >= 12
}

/// Overwrite `data` from `at` with `masked`.
pub fn splice_masked(data: &mut Vec<u8>, at: usize, masked: &[u8])
    requires
        at + masked@.len() <= old(data)@.len(),
    ensures
        final(data)@ == old(data)@.take(at as int) + masked@ + old(data)@.skip(at + masked@.len()),
{
    let mut k: usize = 0;
    while k < masked.len()
        invariant
            k <= masked@.len(),
            at + masked@.len() <= old(data)@.len(),
            data@.len() == old(data)@.len(),
            data@ == old(data)@.take(at as int) + masked@.take(k as int) + old(data)@.skip(at + k),
        decreases masked.len() - k,
    {
        assert(at + k < data.len());
        data.set(at + k, masked[k]);
        k = k + 1;
        assert(data@ =~= old(data)@.take(at as int) + masked@.take(k as int) + old(data)@.skip(
            at + k,
        ));
    }
    assert(masked@.take(masked@.len() as int) =~= masked@);
}

/// `name = "<escaped value>"` and a newline.
pub open spec fn quoted_entry(name: Seq<char>, value: Seq<char>) -> Seq<char> {
    name + " = \""@ + escaped(value) + "\"\n"@
}

fn push_quoted(v: &mut Vec<char>, name: &str, value: &str)
    ensures
        final(v)@ == old(v)@ + quoted_entry(name@, value@),
{
    let mut e = chars_of(name);
    push_str(&mut e, " = \"");
    push_str(&mut e, toml_escape(value).as_str());
    push_str(&mut e, "\"\n");
    push_all(v, &e);
}

pub open spec fn bool_text(b: bool) -> Seq<char> {
    if b {
        "true"@
    } else {
        "false"@
    }
}

/// Each line followed by a newline.
pub open spec fn lines_block(ls: Seq<Seq<char>>) -> Seq<char>
    decreases ls.len(),
{
    if ls.len() == 0 {
        Seq::empty()
    } else {
        lines_block(ls.drop_last()) + ls.last() + "\n"@
    }
}

fn push_lines(v: &mut Vec<char>, ls: &Vec<String>)
    ensures
        final(v)@ == old(v)@ + lines_block(views(ls@)),
{
    let ghost all = views(ls@);
    let mut i: usize = 0;
    assert(old(v)@ + lines_block(all.take(0)) =~= old(v)@);
    while i < ls.len()
        invariant
            i <= ls.len(),
            all == views(ls@),
            v@ == old(v)@ + lines_block(all.take(i as int)),
        decreases ls.len() - i,
    {
        push_str(v, ls[i].as_str());
        push_str(v, "\n");
        proof {
            assert(all.take(i + 1).drop_last() =~= all.take(i as int));
            assert(all.take(i + 1).last() == ls@[i as int]@);
        }
        i = i + 1;
        assert(v@ =~= old(v)@ + lines_block(all.take(i as int)));
    }
    assert(all.take(ls.len() as int) =~= all);
}

/// The `[read_buffer]` table, present when either vendor buffer was read.
pub open spec fn read_buffer_section(f1: bool, mode6: bool) -> Seq<char> {
    if f1 || mode6 {
        "\n[read_buffer]\n"@ + (if f1 {
            "0xF1 = \"rb_f1.bin\"\n"@
        } else {
            Seq::empty()
        }) + (if mode6 {
            "mode6 = \"rb_mode6.bin\"\n"@
        } else {
            Seq::empty()
        })
    } else {
        Seq::empty()
    }
}

/// The `drive.toml` of a captured profile. Every value taken from the drive
/// is escaped for a TOML basic string.
pub open spec fn drive_toml_text(
    id: DriveIdentity,
    serial: Seq<char>,
    platform: Seq<char>,
    profile_matched: bool,
    feature_lines: Seq<Seq<char>>,
    has_rb_f1: bool,
    has_rb_mode6: bool,
) -> Seq<char> {
    "# "@ + trim(id.vendor_id@) + " "@ + trim(id.product_id@) + " "@ + trim(id.product_revision@)
        + " — freemkv drive-info\n\n"@ + "[drive]\n"@ + quoted_entry(
        "manufacturer"@,
        trim(id.vendor_id@),
    ) + quoted_entry("product"@, trim(id.product_id@)) + quoted_entry(
        "revision"@,
        trim(id.product_revision@),
    ) + quoted_entry("serial"@, serial) + quoted_entry(
        "firmware_date"@,
        formatted_date(id.firmware_date@),
    ) + quoted_entry("platform"@, platform) + "profile_matched = "@ + bool_text(profile_matched)
        + "\n\n"@ + "[files]\n"@ + "inquiry = \"inquiry.bin\"\n"@ + "mode_2a = \"mode_2a.bin\"\n\n"@
        + "[features]\n"@ + lines_block(feature_lines) + read_buffer_section(has_rb_f1, has_rb_mode6)
}

pub fn drive_toml(
    id: &DriveIdentity,
    serial: &str,
    platform: &str,
    profile_matched: bool,
    feature_lines: &Vec<String>,
    has_rb_f1: bool,
    has_rb_mode6: bool,
) -> (r: String)
    ensures
        r@ == drive_toml_text(
            *id,
            serial@,
            platform@,
            profile_matched,
            views(feature_lines@),
            has_rb_f1,
            has_rb_mode6,
        ),
{
    let vendor = trim_str(id.vendor_id.as_str());
    let product = trim_str(id.product_id.as_str());
    let revision = trim_str(id.product_revision.as_str());
    let mut v = chars_of("# ");
    push_str(&mut v, vendor.as_str());
    push_str(&mut v, " ");
    push_str(&mut v, product.as_str());
    push_str(&mut v, " ");
    push_str(&mut v, revision.as_str());
    push_str(&mut v, " — freemkv drive-info\n\n");
    push_str(&mut v, "[drive]\n");
    push_quoted(&mut v, "manufacturer", vendor.as_str());
    push_quoted(&mut v, "product", product.as_str());
    push_quoted(&mut v, "revision", revision.as_str());
    push_quoted(&mut v, "serial", serial);
    push_quoted(&mut v, "firmware_date", format_date(id.firmware_date.as_str()).as_str());
    push_quoted(&mut v, "platform", platform);
    push_str(&mut v, "profile_matched = ");
    push_str(&mut v, if profile_matched {
        "true"
    } else {
        "false"
    });
    push_str(&mut v, "\n\n");
    push_str(&mut v, "[files]\n");
    push_str(&mut v, "inquiry = \"inquiry.bin\"\n");
    push_str(&mut v, "mode_2a = \"mode_2a.bin\"\n\n");
    push_str(&mut v, "[features]\n");
    push_lines(&mut v, feature_lines);
    let ghost body = v@;
    if has_rb_f1 || has_rb_mode6 {
        push_str(&mut v, "\n[read_buffer]\n");
        let ghost head = v@;
        if has_rb_f1 {
            push_str(&mut v, "0xF1 = \"rb_f1.bin\"\n");
        } else {
            assert(v@ =~= v@ + Seq::<char>::empty());
        }
        let ghost mid = v@;
        if has_rb_mode6 {
            push_str(&mut v, "mode6 = \"rb_mode6.bin\"\n");
        } else {
            assert(v@ =~= v@ + Seq::<char>::empty());
        }
        assert(v@ =~= body + read_buffer_section(has_rb_f1, has_rb_mode6));
    } else {
        assert(v@ =~= body + read_buffer_section(has_rb_f1, has_rb_mode6));
    }
    string_of(&v)
}


// ── Issue text ─────────────────────────────────────────────────────────────

/// `s` cut into lines of `w` characters (the last one possibly shorter),
/// each followed by a newline.
pub open spec fn chunk_lines(s: Seq<char>, w: nat) -> Seq<char>
    decreases s.len(),
{
    if s.len() == 0 || w == 0 {
        Seq::empty()
    } else if s.len() <= w {
        s + "\n"@
    } else {
        s.take(w as int) + "\n"@ + chunk_lines(s.skip(w as int), w)
    }
}

/// The base64 text of the profile zip in lines of 76 characters.
fn zip_lines(zip: &[u8]) -> (r: Vec<char>)
    ensures
        r@ == chunk_lines(b64_encoded(zip@), 76),
{
    let b = chars_of(base64_encode(zip).as_str());
    let ghost all = chunk_lines(b@, 76);
    let mut out: Vec<char> = Vec::new();
    let mut i: usize = 0;
    assert(b@.skip(0) =~= b@);
    assert(out@ + all =~= all);
    while i < b.len()
        invariant
            i <= b.len(),
            all == chunk_lines(b@, 76),
            out@ + chunk_lines(b@.skip(i as int), 76) == all,
        decreases b.len() - i,
    {
        let ghost rest = b@.skip(i as int);
        let ghost before = out@;
        let end: usize = if b.len() - i <= 76 {
            b.len()
        } else {
            i + 76
        };
        push_range(&mut out, &b, i, end);
        push_str(&mut out, "\n");
        proof {
            if rest.len() <= 76 {
                assert(rest =~= b@.subrange(i as int, end as int));
                assert(b@.skip(end as int) =~= Seq::<char>::empty());
            } else {
                assert(rest.take(76) =~= b@.subrange(i as int, end as int));
                assert(rest.skip(76) =~= b@.skip(end as int));
            }
            assert(out@ + chunk_lines(b@.skip(end as int), 76) =~= before + chunk_lines(rest, 76));
        }
        i = end;
    }
    assert(b@.skip(b.len() as int) =~= Seq::<char>::empty());
    assert(out@ + Seq::<char>::empty() =~= out@);
    out
}

/// INQUIRY byte 4, the additional length; 0 for a short INQUIRY.
pub open spec fn additional_length(inquiry: Seq<u8>) -> u8 {
    if inquiry.len() > 4 {
        inquiry[4]
    } else {
        0
    }
}

/// The GET_CONFIG 010C part of the raw identity block.
pub open spec fn gc_section(gc: Seq<u8>) -> Seq<char> {
    if gc.len() > 0 {
        "GET_CONFIG 010C ("@ + dec(gc.len()) + " bytes):\n  "@ + hex_dumped(gc) + "\n"@
    } else {
        "GET_CONFIG 010C: not available\n"@
    }
}

fn gc_part(gc: &[u8]) -> (r: Vec<char>)
    ensures
        r@ == gc_section(gc@),
{
    if gc.len() > 0 {
        let mut v = chars_of("GET_CONFIG 010C (");
        push_all(&mut v, &fmt_dec(gc.len() as u64));
        push_str(&mut v, " bytes):\n  ");
        push_str(&mut v, hex_dump(gc).as_str());
        push_str(&mut v, "\n");
        v
    } else {
        chars_of("GET_CONFIG 010C: not available\n")
    }
}

/// The body of the drive-profile issue: the identity block, the raw INQUIRY
/// and GET_CONFIG 010C bytes as hex, and the profile zip as base64.
pub open spec fn issue_body_text(
    id: DriveIdentity,
    serial: Seq<char>,
    platform: Seq<char>,
    profile_status: Seq<char>,
    features: nat,
    inquiry: Seq<u8>,
    gc_010c: Seq<u8>,
    zip: Seq<u8>,
) -> Seq<char> {
    "## Drive Profile\n\n"@ + "```\n"@ + "Manufacturer:    "@ + trim(id.vendor_id@) + "\n"@
        + "Product:         "@ + trim(id.product_id@) + "\n"@ + "Revision:        "@ + trim(
        id.product_revision@,
    ) + "\n"@ + "Serial:          "@ + serial + "\n"@ + "Firmware date:   "@ + formatted_date(
        id.firmware_date@,
    ) + "\n"@ + "Platform:        "@ + platform + "\n"@ + "Firmware:        "@
        + firmware_version_text(id) + "\n"@ + "Profile:         "@ + profile_status + "\n"@
        + "```\n\n"@ + "Features captured: "@ + dec(features) + "\n\n"@ + "### Raw identity\n\n"@
        + "```\n"@ + "INQUIRY[4] (additional length): 0x"@ + pad_left(
        hex(additional_length(inquiry) as nat, true),
        2,
        '0',
    ) + "\n"@ + "INQUIRY ("@ + dec(inquiry.len()) + " bytes):\n  "@ + hex_dumped(inquiry)
        + "\n"@ + gc_section(gc_010c) + "```\n\n"@
        + "<details><summary>Profile data (base64 zip)</summary>\n\n"@ + "```\n"@ + chunk_lines(
        b64_encoded(zip),
        76,
    ) + "```\n\n"@ + "</details>\n\n"@ + "---\n*Captured by `freemkv drive-info --share`*\n"@
}

pub fn issue_body(
    id: &DriveIdentity,
    serial: &str,
    platform: &str,
    profile_status: &str,
    features: usize,
    inquiry: &[u8],
    gc_010c: &[u8],
    zip: &[u8],
) -> (r: String)
    ensures
        r@ == issue_body_text(
            *id,
            serial@,
            platform@,
            profile_status@,
            features as nat,
            inquiry@,
            gc_010c@,
            zip@,
        ),
{
    let mut v = chars_of("## Drive Profile\n\n");
    push_str(&mut v, "```\n");
    push_str(&mut v, "Manufacturer:    ");
    push_str(&mut v, trim_str(id.vendor_id.as_str()).as_str());
    push_str(&mut v, "\n");
    push_str(&mut v, "Product:         ");
    push_str(&mut v, trim_str(id.product_id.as_str()).as_str());
    push_str(&mut v, "\n");
    push_str(&mut v, "Revision:        ");
    push_str(&mut v, trim_str(id.product_revision.as_str()).as_str());
    push_str(&mut v, "\n");
    push_str(&mut v, "Serial:          ");
    push_str(&mut v, serial);
    push_str(&mut v, "\n");
    push_str(&mut v, "Firmware date:   ");
    push_str(&mut v, format_date(id.firmware_date.as_str()).as_str());
    push_str(&mut v, "\n");
    push_str(&mut v, "Platform:        ");
    push_str(&mut v, platform);
    push_str(&mut v, "\n");
    push_str(&mut v, "Firmware:        ");
    push_str(&mut v, firmware_version(id).as_str());
    push_str(&mut v, "\n");
    push_str(&mut v, "Profile:         ");
    push_str(&mut v, profile_status);
    push_str(&mut v, "\n");
    push_str(&mut v, "```\n\n");
    push_str(&mut v, "Features captured: ");
    push_all(&mut v, &fmt_dec(features as u64));
    push_str(&mut v, "\n\n");
    push_str(&mut v, "### Raw identity\n\n");
    push_str(&mut v, "```\n");
    push_str(&mut v, "INQUIRY[4] (additional length): 0x");
    let b4: u8 = if inquiry.len() > 4 {
        inquiry[4]
    } else {
        0
    };
    push_all(&mut v, &padded_left(&fmt_hex(b4 as u64, true), 2, '0'));
    push_str(&mut v, "\n");
    push_str(&mut v, "INQUIRY (");
    push_all(&mut v, &fmt_dec(inquiry.len() as u64));
    push_str(&mut v, " bytes):\n  ");
    push_str(&mut v, hex_dump(inquiry).as_str());
    push_str(&mut v, "\n");
    push_all(&mut v, &gc_part(gc_010c));
    push_str(&mut v, "```\n\n");
    push_str(&mut v, "<details><summary>Profile data (base64 zip)</summary>\n\n");
    push_str(&mut v, "```\n");
    push_all(&mut v, &zip_lines(zip));
    push_str(&mut v, "```\n\n");
    push_str(&mut v, "</details>\n\n");
    push_str(&mut v, "---\n*Captured by `freemkv drive-info --share`*\n");
    string_of(&v)
}

/// The title of the drive-profile issue.
pub open spec fn issue_title_text(id: DriveIdentity) -> Seq<char> {
    "Drive profile: "@ + trim(id.vendor_id@) + " "@ + trim(id.product_id@)
}

pub fn issue_title(id: &DriveIdentity) -> (r: String)
    ensures
        r@ == issue_title_text(*id),
{
    let mut v = chars_of("Drive profile: ");
    push_str(&mut v, trim_str(id.vendor_id.as_str()).as_str());
    push_str(&mut v, " ");
    push_str(&mut v, trim_str(id.product_id.as_str()).as_str());
    string_of(&v)
}

} // verus!
