//! Rip planning: the rip flags, what a source/destination pair asks for,
//! the per-title job list, and the small decisions of the copy and mux loops.
use vstd::prelude::*;
use crate::cli::{is_dash, is_url_text};
use crate::disc_info::{purpose_key_spec, Purpose};
use crate::strings::{fill_args, get, message};
use crate::text::{
    dec, fmt_dec, join, join_chars, pad_left, padded_left, push_all, push_str, chars_of, has_prefix, parse_unsigned, parse_unsigned_str, str_contains, str_eq,
    str_starts_with, string_from, string_of, trim, trim_chars, views,
};

verus! {

/// Whether a token is a positional stream URL (`scheme://...`) rather than a
/// flag value. A value-flag (`-t`, `-k`) must not swallow one of these.
pub fn is_url_token(s: &str) -> (r: bool)
    ensures
        r == is_url_text(s@),
{
    str_contains(s, "://")
}

// ── Rip flags ──────────────────────────────────────────────────────────────

/// Flags parsed from the rip argument list.
#[derive(Debug)]
pub struct ParsedFlags {
    pub verbose: bool,
    pub quiet: bool,
    pub raw: bool,
    pub multipass: bool,
    pub keydb_path: Option<String>,
    /// The requested 1-based titles, ascending and without repeats.
    pub title_nums: Vec<usize>,
}

/// (verbose, quiet, raw, multipass, keydb path, titles in the order given).
pub type FlagState = (bool, bool, bool, bool, Option<Seq<char>>, Seq<usize>);

pub open spec fn needs_value_error(flag: Seq<char>, example: Seq<char>) -> Seq<char> {
    fill_args(message("error.flag_needs_value"@), seq![("flag"@, flag), ("example"@, example)])
}

pub open spec fn invalid_title_error(value: Seq<char>) -> Seq<char> {
    fill_args(message("error.invalid_title"@), seq![("value"@, value)])
}

pub open spec fn unknown_flag_error(flag: Seq<char>) -> Seq<char> {
    fill_args(message("error.unknown_flag"@), seq![("flag"@, flag)])
}

/// The flag scan from the state `st`: the first misuse ends it with its
/// message; a value-flag never takes a following URL token as its value
/// (except `--key-url`, whose value is itself a URL). The logging and
/// key-service flags (`--log-level`, `--log-file`, `--key-url`,
/// `--key-auth`) are passed over with their values.
pub open spec fn flags_from(a: Seq<Seq<char>>, st: FlagState) -> Result<FlagState, Seq<char>>
    decreases a.len(),
{
    if a.len() == 0 {
        Ok(st)
    } else {
        let x = a[0];
        if x == "-v"@ || x == "--verbose"@ {
            flags_from(a.skip(1), (true, st.1, st.2, st.3, st.4, st.5))
        } else if x == "-q"@ || x == "--quiet"@ {
            flags_from(a.skip(1), (st.0, true, st.2, st.3, st.4, st.5))
        } else if x == "--raw"@ {
            flags_from(a.skip(1), (st.0, st.1, true, st.3, st.4, st.5))
        } else if x == "--multipass"@ {
            flags_from(a.skip(1), (st.0, st.1, st.2, true, st.4, st.5))
        } else if x == "-t"@ || x == "--title"@ {
            if a.len() > 1 && !is_url_text(a[1]) {
                match parse_unsigned(a[1], usize::MAX as nat) {
                    Some(n) => if n >= 1 {
                        flags_from(a.skip(2), (st.0, st.1, st.2, st.3, st.4, st.5.push(n as usize)))
                    } else {
                        Err(invalid_title_error(a[1]))
                    },
                    None => Err(invalid_title_error(a[1])),
                }
            } else {
                Err(needs_value_error(x, "-t 1"@))
            }
        } else if x == "-k"@ || x == "--keydb"@ {
            if a.len() > 1 && !is_url_text(a[1]) {
                flags_from(a.skip(2), (st.0, st.1, st.2, st.3, Some(a[1]), st.5))
            } else {
                Err(needs_value_error(x, "-k keydb.cfg"@))
            }
        } else if x == "--log-level"@ || x == "--log-file"@ || x == "--key-auth"@ {
            if a.len() > 1 && !is_url_text(a[1]) {
                flags_from(a.skip(2), st)
            } else {
                flags_from(a.skip(1), st)
            }
        } else if x == "--key-url"@ {
            if a.len() > 1 {
                flags_from(a.skip(2), st)
            } else {
                flags_from(a.skip(1), st)
            }
        } else if is_dash(x) && x != "-"@ {
            Err(unknown_flag_error(x))
        } else {
            flags_from(a.skip(1), st)
        }
    }
}

pub open spec fn initial_flags() -> FlagState {
    (false, false, false, false, None, Seq::empty())
}

pub open spec fn strictly_ascending(s: Seq<usize>) -> bool {
    forall|i: int, j: int| 0 <= i < j < s.len() ==> s[i] < s[j]
}

/// `r` holds what the scan `st` collected, with the titles ascending and
/// each given title once.
pub open spec fn flags_match(r: ParsedFlags, st: FlagState) -> bool {
    &&& r.verbose == st.0
    &&& r.quiet == st.1
    &&& r.raw == st.2
    &&& r.multipass == st.3
    &&& (match r.keydb_path {
        Some(p) => st.4 == Some(p@),
        None => st.4 is None,
    })
    &&& strictly_ascending(r.title_nums@)
    &&& r.title_nums@.to_set() == st.5.to_set()
}

/// Add `n` to an ascending list without repeats.
fn insert_sorted(v: &mut Vec<usize>, n: usize)
    requires
        strictly_ascending(old(v)@),
    ensures
        strictly_ascending(final(v)@),
        final(v)@.to_set() == old(v)@.to_set().insert(n),
{
    let mut i: usize = 0;
    while i < v.len() && v[i] < n
        invariant
            i <= v.len(),
            forall|j: int| 0 <= j < i ==> v@[j] < n,
        decreases v.len() - i,
    {
        i = i + 1;
    }
    if i < v.len() && v[i] == n {
        assert(v@.to_set().insert(n) =~= v@.to_set()) by {
            assert(v@.to_set().contains(v@[i as int]));
        }
        return;
    }
    let ghost before = v@;
    v.insert(i, n);
    assert(v@ =~= before.take(i as int).push(n) + before.skip(i as int));
    assert forall|a: int, b: int| 0 <= a < b < v@.len() implies v@[a] < v@[b] by {
        if b < i as int {
        } else if b == i as int {
        } else if a < i as int {
            assert(v@[b] == before[b - 1]);
            assert(before[b - 1] >= n) by {
                if i < before.len() {
                    assert(before[i as int] > n);
                }
            }
        } else if a == i as int {
            assert(v@[b] == before[b - 1]);
            assert(before[i as int] > n);
        } else {
            assert(v@[a] == before[a - 1]);
            assert(v@[b] == before[b - 1]);
        }
    }
    assert(v@.to_set() =~= before.to_set().insert(n)) by {
        assert forall|x: usize| v@.to_set().contains(x) implies before.to_set().insert(n).contains(x)
            by {
            let k = choose|k: int| 0 <= k < v@.len() && v@[k] == x;
            if k < i as int {
                assert(before[k] == x);
            } else if k > i as int {
                assert(before[k - 1] == x);
            }
        }
        assert forall|x: usize| before.to_set().insert(n).contains(x) implies v@.to_set().contains(x)
            by {
            if x != n {
                let k = choose|k: int| 0 <= k < before.len() && before[k] == x;
                if k < i as int {
                    assert(v@[k] == x);
                } else {
                    assert(v@[k + 1] == x);
                }
            } else {
                assert(v@[i as int] == n);
            }
        }
    }
}

fn err_needs_value(flag: &str, example: &str) -> (r: String)
    ensures
        r@ == needs_value_error(flag@, example@),
{
    let args = vec![("flag", flag), ("example", example)];
    let r = crate::strings::fmt("error.flag_needs_value", args.as_slice());
    assert(crate::strings::arg_views(args@) =~= seq![("flag"@, flag@), ("example"@, example@)]);
    r
}

fn err_invalid_title(value: &str) -> (r: String)
    ensures
        r@ == invalid_title_error(value@),
{
    let args = vec![("value", value)];
    let r = crate::strings::fmt("error.invalid_title", args.as_slice());
    assert(crate::strings::arg_views(args@) =~= seq![("value"@, value@)]);
    r
}

fn err_unknown_flag(flag: &str) -> (r: String)
    ensures
        r@ == unknown_flag_error(flag@),
{
    let args = vec![("flag", flag)];
    let r = crate::strings::fmt("error.unknown_flag", args.as_slice());
    assert(crate::strings::arg_views(args@) =~= seq![("flag"@, flag@)]);
    r
}

/// Parse rip flags, returning a clear error string on any misuse:
/// - `-t`/`--title` with a missing, non-numeric, or `0` value (titles are
///   1-based; never silently fall through to "all titles").
/// - `-k`/`--keydb` with a missing value (never silently use the default).
/// - any other dash-prefixed token but `-` (a typo such as `--titel`).
///
/// A value-flag does not consume a following positional URL token
/// (`scheme://...`) as its value — that means the value is missing. Repeated
/// titles collapse to one, and the titles come out in ascending order.
pub fn parse_flags(args: &[String]) -> (r: Result<ParsedFlags, String>)
    ensures
        match flags_from(views(args@), initial_flags()) {
            Ok(st) => r matches Ok(f) && flags_match(f, st),
            Err(m) => r matches Err(e) && e@ == m,
        },
{
    let ghost all = views(args@);
    let mut verbose = false;
    let mut quiet = false;
    let mut raw = false;
    let mut multipass = false;
    let mut keydb_path: Option<String> = None;
    let mut titles: Vec<usize> = Vec::new();
    let ghost mut given: Seq<usize> = Seq::empty();
    let mut i: usize = 0;
    assert(all.skip(0) =~= all);
    while i < args.len()
        invariant
            i <= args.len(),
            all == views(args@),
            flags_from(all, initial_flags()) == flags_from(
                all.skip(i as int),
                (
                    verbose,
                    quiet,
                    raw,
                    multipass,
                    match keydb_path {
                        Some(p) => Some(p@),
                        None => None,
                    },
                    given,
                ),
            ),
            strictly_ascending(titles@),
            titles@.to_set() == given.to_set(),
        decreases args.len() - i,
    {
        let ghost rest = all.skip(i as int);
        let x = args[i].as_str();
        assert(rest[0] == x@);
        assert(rest.skip(1) =~= all.skip(i + 1));
        if str_eq(x, "-v") || str_eq(x, "--verbose") {
            verbose = true;
        } else if str_eq(x, "-q") || str_eq(x, "--quiet") {
            quiet = true;
        } else if str_eq(x, "--raw") {
            raw = true;
        } else if str_eq(x, "--multipass") {
            multipass = true;
        } else if str_eq(x, "-t") || str_eq(x, "--title") {
            if i + 1 < args.len() && !is_url_token(args[i + 1].as_str()) {
                let v = args[i + 1].as_str();
                assert(rest[1] == v@);
                assert(rest.skip(2) =~= all.skip(i + 2));
                match parse_unsigned_str(v, usize::MAX as u64) {
                    Some(n) => {
                        if n >= 1 {
                            insert_sorted(&mut titles, n as usize);
                            proof {
                                let old_given = given;
                                given = given.push(n as usize);
                                assert(given.drop_last() =~= old_given);
                                assert(given.to_set() =~= given.drop_last().to_set().insert(
                                    n as usize,
                                )) by {
                                    assert forall|y: usize| given.to_set().contains(y) implies given.drop_last().to_set().insert(n as usize).contains(y) by {
                                        let k = choose|k: int| 0 <= k < given.len() && given[k] == y;
                                        if k < given.len() - 1 {
                                            assert(given.drop_last()[k] == y);
                                        }
                                    }
                                    assert forall|y: usize| given.drop_last().to_set().insert(n as usize).contains(y) implies given.to_set().contains(y) by {
                                        if y != n as usize {
                                            let k = choose|k: int| 0 <= k < given.drop_last().len() && given.drop_last()[k] == y;
                                            assert(given[k] == y);
                                        } else {
                                            assert(given[given.len() - 1] == y);
                                        }
                                    }
                                }
                            }
                            i = i + 1;
                        } else {
                            return Err(err_invalid_title(v));
                        }
                    },
                    None => {
                        return Err(err_invalid_title(v));
                    },
                }
            } else {
                return Err(err_needs_value(x, "-t 1"));
            }
        } else if str_eq(x, "-k") || str_eq(x, "--keydb") {
            if i + 1 < args.len() && !is_url_token(args[i + 1].as_str()) {
                assert(rest[1] == args@[i + 1]@);
                assert(rest.skip(2) =~= all.skip(i + 2));
                keydb_path = Some(args[i + 1].clone());
                i = i + 1;
            } else {
                return Err(err_needs_value(x, "-k keydb.cfg"));
            }
        } else if str_eq(x, "--log-level") || str_eq(x, "--log-file") || str_eq(x, "--key-auth") {
            // Read by the logging set-up and the key service: skipped here with
            // their value, which is never a following stream URL.
            if i + 1 < args.len() && !is_url_token(args[i + 1].as_str()) {
                assert(rest[1] == args@[i + 1]@);
                assert(rest.skip(2) =~= all.skip(i + 2));
                i = i + 1;
            }
        } else if str_eq(x, "--key-url") {
            // The key-service URL is always this flag's value.
            if i + 1 < args.len() {
                assert(rest.skip(2) =~= all.skip(i + 2));
                i = i + 1;
            }
        } else if crate::cli::starts_with_dash(x) && !str_eq(x, "-") {
            return Err(err_unknown_flag(x));
        }
        i = i + 1;
    }
    assert(all.skip(args.len() as int) =~= Seq::<Seq<char>>::empty());
    Ok(ParsedFlags { verbose, quiet, raw, multipass, keydb_path, title_nums: titles })
}

// ── Error text ─────────────────────────────────────────────────────────────

/// The message shown for a library error rendered as `text`: the no-key
/// abort `E7022: <hash>` gets its dedicated message naming the disc hash;
/// everything else goes into the generic wrapper.
pub open spec fn error_text(text: Seq<char>) -> Seq<char> {
    if has_prefix(text, "E7022:"@) {
        fill_args(message("error.E7022"@), seq![("hash"@, trim(text.skip("E7022:"@.len() as int)))])
    } else {
        fill_args(message("error.generic"@), seq![("detail"@, text)])
    }
}

/// Format an error for display; `text` is the error's `Display` rendering.
pub fn fmt_err(text: &str) -> (r: String)
    ensures
        r@ == error_text(text@),
{
    if str_starts_with(text, "E7022:") {
        let cs = chars_of(text);
        let n = chars_of("E7022:").len();
        let mut rest: Vec<char> = Vec::new();
        let mut i = n;
        while i < cs.len()
            invariant
                n <= i <= cs.len(),
                rest@ == cs@.subrange(n as int, i as int),
            decreases cs.len() - i,
        {
            rest.push(cs[i]);
            i = i + 1;
            assert(rest@ =~= cs@.subrange(n as int, i as int));
        }
        assert(rest@ =~= text@.skip("E7022:"@.len() as int));
        let hash = string_of(&trim_chars(&rest));
        let args = vec![("hash", hash.as_str())];
        let r = crate::strings::fmt("error.E7022", args.as_slice());
        assert(crate::strings::arg_views(args@) =~= seq![("hash"@, hash@)]);
        r
    } else {
        let args = vec![("detail", text)];
        let r = crate::strings::fmt("error.generic", args.as_slice());
        assert(crate::strings::arg_views(args@) =~= seq![("detail"@, text@)]);
        r
    }
}

// ── What a source/destination pair asks for ────────────────────────────────

/// The kind of a parsed stream URL.
#[derive(Clone, Copy, Debug, PartialEq, Eq)]
pub enum UrlKind {
    Disc,
    Iso,
    Mkv,
    M2ts,
    Null,
    /// No `scheme://` prefix, or a scheme that names no stream.
    Unknown,
    /// Any other stream (network, stdio, ...).
    Other,
}

/// What a rip of a given source to a given destination does.
#[derive(Debug)]
pub enum RipPlan {
    /// Refused before any work, with the message to show.
    Reject(String),
    /// A raw sector copy of the disc to an ISO image (or to `null://`).
    DiscToIso,
    /// Title by title through the stream pipeline; `warn_multipass` asks for
    /// the notice that `--multipass` does not apply.
    Titles { is_disc: bool, warn_multipass: bool },
}

pub open spec fn rip_plan_spec(
    raw: bool,
    multipass: bool,
    source: UrlKind,
    dest: UrlKind,
    dest_text: Seq<char>,
    r: RipPlan,
) -> bool {
    if dest is Unknown {
        r matches RipPlan::Reject(m) && m@ == fill_args(
            message("error.dest_needs_scheme"@),
            seq![("dest"@, dest_text)],
        )
    } else if raw && (dest is Mkv || dest is M2ts) {
        r matches RipPlan::Reject(m) && m@ == message("error.raw_mux_invalid"@)
    } else if source is Disc && (dest is Iso || dest is Null) {
        r is DiscToIso
    } else {
        r matches RipPlan::Titles { is_disc, warn_multipass } && is_disc == (source is Disc)
            && warn_multipass == (source is Disc && multipass)
    }
}

/// Decide what a rip does: a schemeless destination and `--raw` into a
/// muxed container are refused up front; disc to ISO/null is a sector copy;
/// everything else goes title by title.
pub fn rip_plan(flags: &ParsedFlags, source: UrlKind, dest: UrlKind, dest_text: &str) -> (r:
    RipPlan)
    ensures
        rip_plan_spec(flags.raw, flags.multipass, source, dest, dest_text@, r),
{
    if let UrlKind::Unknown = dest {
        let args = vec![("dest", dest_text)];
        let m = crate::strings::fmt("error.dest_needs_scheme", args.as_slice());
        assert(crate::strings::arg_views(args@) =~= seq![("dest"@, dest_text@)]);
        return RipPlan::Reject(m);
    }
    let muxed = match dest {
        UrlKind::Mkv | UrlKind::M2ts => true,
        _ => false,
    };
    if flags.raw && muxed {
        return RipPlan::Reject(crate::strings::get("error.raw_mux_invalid"));
    }
    let is_disc = match source {
        UrlKind::Disc => true,
        _ => false,
    };
    let to_image = match dest {
        UrlKind::Iso | UrlKind::Null => true,
        _ => false,
    };
    if is_disc && to_image {
        return RipPlan::DiscToIso;
    }
    RipPlan::Titles { is_disc, warn_multipass: is_disc && flags.multipass }
}

// ── Jobs ───────────────────────────────────────────────────────────────────

/// The characters an output filename stem keeps.
pub open spec fn name_char(c: char) -> bool {
    crate::text::is_ascii_alnum(c) || c == ' ' || c == '-' || c == '_'
}

pub open spec fn keep_name_chars(s: Seq<char>) -> Seq<char>
    decreases s.len(),
{
    if s.len() == 0 {
        Seq::empty()
    } else {
        (if name_char(s[0]) {
            seq![s[0]]
        } else {
            Seq::empty()
        }) + keep_name_chars(s.skip(1))
    }
}

pub open spec fn spaces_to_underscores(s: Seq<char>) -> Seq<char> {
    s.map_values(|c: char| if c == ' ' {
        '_'
    } else {
        c
    })
}

pub open spec fn disc_word() -> Seq<char> {
    seq!['d', 'i', 's', 'c']
}

/// A filename stem from a disc or playlist name: only ASCII alphanumerics,
/// spaces, `-` and `_` are kept, the ends are trimmed, spaces become `_`, and
/// an empty result becomes `disc`.
pub open spec fn sanitized_name(s: Seq<char>) -> Seq<char> {
    let t = spaces_to_underscores(trim(keep_name_chars(s)));
    if t.len() == 0 {
        disc_word()
    } else {
        t
    }
}

proof fn lemma_keep_name_chars(s: Seq<char>)
    ensures
        forall|i: int| 0 <= i < keep_name_chars(s).len() ==> name_char(#[trigger] keep_name_chars(s)[i]),
    decreases s.len(),
{
    if s.len() > 0 {
        lemma_keep_name_chars(s.skip(1));
        let h: Seq<char> = if name_char(s[0]) {
            seq![s[0]]
        } else {
            Seq::empty()
        };
        let r = keep_name_chars(s.skip(1));
        assert forall|i: int| 0 <= i < keep_name_chars(s).len() implies name_char(
            #[trigger] keep_name_chars(s)[i],
        ) by {
            if i >= h.len() {
                assert(keep_name_chars(s)[i] == r[i - h.len()]);
            }
        }
    }
}

pub fn sanitize_name(name: &str) -> (r: String)
    ensures
        r@ == sanitized_name(name@),
        r@.len() > 0,
        forall|i: int| 0 <= i < r@.len() ==> name_char(#[trigger] r@[i]) && r@[i] != ' ',
{
    let cs = chars_of(name);
    let mut kept: Vec<char> = Vec::new();
    let mut i: usize = 0;
    assert(cs@.skip(0) =~= cs@);
    while i < cs.len()
        invariant
            i <= cs.len(),
            cs@ == name@,
            kept@ + keep_name_chars(cs@.skip(i as int)) == keep_name_chars(name@),
        decreases cs.len() - i,
    {
        let c = cs[i];
        let ghost before = kept@;
        assert(cs@.skip(i as int)[0] == c);
        assert(cs@.skip(i as int).skip(1) =~= cs@.skip(i + 1));
        if crate::text::is_alnum(c) || c == ' ' || c == '-' || c == '_' {
            kept.push(c);
        }
        assert(kept@ + keep_name_chars(cs@.skip(i + 1)) =~= before + keep_name_chars(
            cs@.skip(i as int),
        ));
        i = i + 1;
    }
    assert(cs@.skip(cs.len() as int) =~= Seq::<char>::empty());
    assert(kept@ + Seq::<char>::empty() =~= kept@);
    let t = trim_chars(&kept);
    let mut u: Vec<char> = Vec::new();
    let mut j: usize = 0;
    while j < t.len()
        invariant
            j <= t.len(),
            u@ == spaces_to_underscores(t@.take(j as int)),
        decreases t.len() - j,
    {
        u.push(if t[j] == ' ' {
            '_'
        } else {
            t[j]
        });
        j = j + 1;
        assert(u@ =~= spaces_to_underscores(t@.take(j as int)));
    }
    assert(t@.take(t.len() as int) =~= t@);
    proof {
        lemma_keep_name_chars(name@);
        crate::text::lemma_trim_is_infix(kept@);
        let k = choose|k: int, m: int| 0 <= k <= m <= kept@.len() && #[trigger] kept@.subrange(k, m) == trim(kept@);
    }
    if u.len() == 0 {
        let mut d: Vec<char> = Vec::new();
        d.push('d');
        d.push('i');
        d.push('s');
        d.push('c');
        assert(d@ =~= disc_word());
        string_of(&d)
    } else {
        string_of(&u)
    }
}

/// The filename for title `idx` (0-based) in a directory destination:
/// `<stem>_t<idx + 1>.<ext>`.
pub open spec fn job_file_name_spec(stem: Seq<char>, idx: nat, ext: Seq<char>) -> Seq<char> {
    stem + seq!['_', 't'] + crate::text::dec(idx + 1) + seq!['.'] + ext
}

pub fn job_file_name(stem: &str, idx: usize, ext: &str) -> (r: String)
    requires
        idx < u64::MAX,
    ensures
        r@ == job_file_name_spec(stem@, idx as nat, ext@),
{
    let mut v = chars_of(stem);
    v.push('_');
    v.push('t');
    let n = crate::text::fmt_dec(idx as u64 + 1);
    crate::text::push_all(&mut v, &n);
    v.push('.');
    crate::text::push_str(&mut v, ext);
    assert(v@ =~= job_file_name_spec(stem@, idx as nat, ext@));
    string_of(&v)
}

proof fn lemma_dec_shape(n: nat)
    ensures
        dec(n).len() >= 1,
        n >= 10 ==> dec(n).len() >= 2,
        forall|k: int| 0 <= k < dec(n).len() ==> crate::text::is_ascii_digit(#[trigger] dec(n)[k]),
    decreases n,
{
    if n >= 10 {
        lemma_dec_shape(n / 10);
        let d = dec(n / 10);
        assert(dec(n) == d.push(crate::text::digit_char(n % 10)));
        assert forall|k: int| 0 <= k < dec(n).len() implies crate::text::is_ascii_digit(
            #[trigger] dec(n)[k],
        ) by {
            if k < d.len() {
                assert(dec(n)[k] == d[k]);
            }
        }
    }
}

/// Decimal text names its number: different numbers have different digits.
proof fn lemma_dec_injective(a: nat, b: nat)
    requires
        dec(a) == dec(b),
    ensures
        a == b,
    decreases a,
{
    lemma_dec_shape(a);
    lemma_dec_shape(b);
    if a >= 10 && b >= 10 {
        assert(dec(a).drop_last() == dec(a / 10));
        assert(dec(b).drop_last() == dec(b / 10));
        lemma_dec_injective(a / 10, b / 10);
        assert(dec(a).last() == crate::text::digit_char(a % 10));
        assert(dec(b).last() == crate::text::digit_char(b % 10));
    } else if a < 10 && b < 10 {
        assert(dec(a)[0] == crate::text::digit_char(a));
        assert(dec(b)[0] == crate::text::digit_char(b));
    } else {
        assert(dec(a).len() != dec(b).len());
    }
}

/// Job files never collide: titles with different indices get different
/// file names in the same directory.
pub proof fn lemma_job_names_distinct(stem: Seq<char>, ext: Seq<char>, i: nat, j: nat)
    requires
        i != j,
    ensures
        job_file_name_spec(stem, i, ext) != job_file_name_spec(stem, j, ext),
{
    let p = stem + seq!['_', 't'];
    let a = dec(i + 1);
    let b = dec(j + 1);
    let x = job_file_name_spec(stem, i, ext);
    let y = job_file_name_spec(stem, j, ext);
    lemma_dec_shape(i + 1);
    lemma_dec_shape(j + 1);
    if x == y {
        assert(x == p + a + seq!['.'] + ext);
        assert(y == p + b + seq!['.'] + ext);
        // The first `.` after the prefix ends the digits.
        if a.len() < b.len() {
            assert(x[(p.len() + a.len()) as int] == '.');
            assert(y[(p.len() + a.len()) as int] == b[a.len() as int]);
        } else if b.len() < a.len() {
            assert(y[(p.len() + b.len()) as int] == '.');
            assert(x[(p.len() + b.len()) as int] == a[b.len() as int]);
        } else {
            assert forall|k: int| 0 <= k < a.len() implies a[k] == b[k] by {
                assert(x[p.len() as int + k] == a[k]);
                assert(y[p.len() as int + k] == b[k]);
            }
            assert(a =~= b);
            lemma_dec_injective(i + 1, j + 1);
        }
    }
}

/// Every title that the flag scan collects is at least 1.
pub proof fn lemma_parsed_titles_from_one(a: Seq<Seq<char>>, st: FlagState)
    requires
        forall|k: int| 0 <= k < st.5.len() ==> #[trigger] st.5[k] >= 1,
    ensures
        flags_from(a, st) matches Ok(r) ==> forall|k: int| 0 <= k < r.5.len() ==> #[trigger] r.5[k] >= 1,
    decreases a.len(),
{
    if a.len() > 0 {
        let x = a[0];
        if x == "-v"@ || x == "--verbose"@ {
            lemma_parsed_titles_from_one(a.skip(1), (true, st.1, st.2, st.3, st.4, st.5));
        } else if x == "-q"@ || x == "--quiet"@ {
            lemma_parsed_titles_from_one(a.skip(1), (st.0, true, st.2, st.3, st.4, st.5));
        } else if x == "--raw"@ {
            lemma_parsed_titles_from_one(a.skip(1), (st.0, st.1, true, st.3, st.4, st.5));
        } else if x == "--multipass"@ {
            lemma_parsed_titles_from_one(a.skip(1), (st.0, st.1, st.2, true, st.4, st.5));
        } else if x == "-t"@ || x == "--title"@ {
            if a.len() > 1 && !is_url_text(a[1]) {
                match parse_unsigned(a[1], usize::MAX as nat) {
                    Some(n) => if n >= 1 {
                        let t = st.5.push(n as usize);
                        assert forall|k: int| 0 <= k < t.len() implies #[trigger] t[k] >= 1 by {
                            if k < st.5.len() {
                                assert(t[k] == st.5[k]);
                            }
                        }
                        lemma_parsed_titles_from_one(a.skip(2), (st.0, st.1, st.2, st.3, st.4, t));
                    },
                    None => {},
                }
            }
        } else if x == "-k"@ || x == "--keydb"@ {
            if a.len() > 1 && !is_url_text(a[1]) {
                lemma_parsed_titles_from_one(a.skip(2), (st.0, st.1, st.2, st.3, Some(a[1]), st.5));
            }
        } else if x == "--log-level"@ || x == "--log-file"@ || x == "--key-auth"@ {
            if a.len() > 1 && !is_url_text(a[1]) {
                lemma_parsed_titles_from_one(a.skip(2), st);
            } else {
                lemma_parsed_titles_from_one(a.skip(1), st);
            }
        } else if x == "--key-url"@ {
            if a.len() > 1 {
                lemma_parsed_titles_from_one(a.skip(2), st);
            } else {
                lemma_parsed_titles_from_one(a.skip(1), st);
            }
        } else if is_dash(x) && x != "-"@ {
        } else {
            lemma_parsed_titles_from_one(a.skip(1), st);
        }
    }
}

/// The titles of a successful flag parse start at 1 (`-t 0` is refused).
pub proof fn lemma_title_nums_from_one(args: Seq<Seq<char>>, f: ParsedFlags)
    requires
        flags_from(args, initial_flags()) is Ok,
        flags_match(f, flags_from(args, initial_flags())->Ok_0),
    ensures
        forall|k: int| 0 <= k < f.title_nums@.len() ==> #[trigger] f.title_nums@[k] >= 1,
{
    let st = flags_from(args, initial_flags())->Ok_0;
    lemma_parsed_titles_from_one(args, initial_flags());
    assert forall|k: int| 0 <= k < f.title_nums@.len() implies #[trigger] f.title_nums@[k] >= 1 by {
        let x = f.title_nums@[k];
        assert(f.title_nums@.to_set().contains(x));
        assert(st.5.to_set().contains(x));
        let j = choose|j: int| 0 <= j < st.5.len() && st.5[j] == x;
        assert(st.5[j] >= 1);
    }
}

/// A rip never writes two titles to one file: for titles parsed from the
/// flags (ascending, each at least 1), the per-title files of a directory
/// destination are pairwise different.
pub proof fn lemma_title_files_distinct(nums: Seq<usize>, stem: Seq<char>, ext: Seq<char>)
    requires
        strictly_ascending(nums),
        forall|k: int| 0 <= k < nums.len() ==> #[trigger] nums[k] >= 1,
    ensures
        forall|i: int, j: int|
            0 <= i < j < nums.len() ==> job_file_name_spec(stem, index_of(nums[i]) as nat, ext)
                != job_file_name_spec(stem, index_of(nums[j]) as nat, ext),
{
    assert forall|i: int, j: int| 0 <= i < j < nums.len() implies job_file_name_spec(
        stem,
        index_of(nums[i]) as nat,
        ext,
    ) != job_file_name_spec(stem, index_of(nums[j]) as nat, ext) by {
        assert(nums[i] >= 1 && nums[j] >= 1);
        assert(index_of(nums[i]) != index_of(nums[j]));
        lemma_job_names_distinct(stem, ext, index_of(nums[i]) as nat, index_of(nums[j]) as nat);
    }
}

/// The per-title work of a rip.
#[derive(Debug)]
pub enum JobPlan {
    /// One job writing to the destination as given; the title index, if a
    /// title was chosen.
    Single(Option<usize>, String),
    /// One job per title index, each writing `job_file_name(stem, idx, ext)`
    /// inside the destination directory.
    PerTitle { indices: Vec<usize>, stem: String },
    /// Refused, with the message to show: several titles into one file.
    NeedsDir(String),
}

/// `n - 1`, saturating at zero.
pub open spec fn index_of(n: usize) -> usize {
    if n == 0 {
        0
    } else {
        (n - 1) as usize
    }
}

pub open spec fn plan_jobs_spec(
    titles: Option<Seq<Seq<char>>>,
    is_disc: bool,
    nums: Seq<usize>,
    is_dir_dest: bool,
    dest: Seq<char>,
    r: JobPlan,
) -> bool {
    if titles is Some && titles->0.len() > 0 {
        let t = titles->0;
        let indices: Seq<usize> = if nums.len() == 0 {
            Seq::new(t.len(), |i: int| i as usize)
        } else {
            nums.map_values(|n: usize| index_of(n))
        };
        if indices.len() == 1 && !is_dir_dest {
            r matches JobPlan::Single(Some(i), d) && i == indices[0] && d@ == dest
        } else {
            r matches JobPlan::PerTitle { indices: got, stem } && got@ == indices && stem@ == (
            if t[0].len() == 0 {
                disc_word()
            } else {
                sanitized_name(t[0])
            })
        }
    } else if is_disc && nums.len() > 1 {
        if !is_dir_dest {
            r matches JobPlan::NeedsDir(m) && m@ == fill_args(
                message("error.multi_title_needs_dir"@),
                seq![("dest"@, dest)],
            )
        } else {
            r matches JobPlan::PerTitle { indices: got, stem } && got@ == nums.map_values(
                |n: usize| index_of(n),
            ) && stem@ == disc_word()
        }
    } else {
        r matches JobPlan::Single(i, d) && d@ == dest && i == (if nums.len() == 0 {
            None
        } else {
            Some(index_of(nums[0]))
        })
    }
}

fn indices_of(nums: &[usize]) -> (r: Vec<usize>)
    ensures
        r@ == nums@.map_values(|n: usize| index_of(n)),
{
    let mut r: Vec<usize> = Vec::new();
    let mut i: usize = 0;
    while i < nums.len()
        invariant
            i <= nums.len(),
            r@ == nums@.take(i as int).map_values(|n: usize| index_of(n)),
        decreases nums.len() - i,
    {
        let n = nums[i];
        r.push(if n == 0 {
            0
        } else {
            n - 1
        });
        i = i + 1;
        assert(r@ =~= nums@.take(i as int).map_values(|n: usize| index_of(n)));
    }
    assert(nums@.take(nums.len() as int) =~= nums@);
    r
}

/// Build the job list.
///
/// - A scanned source with a title list: the requested titles (all when none
///   is given); one file when a single title goes to a file, else one file
///   per title in the destination directory, named after the first title's
///   playlist.
/// - A disc source (no title list up front) with several titles: one job per
///   title in a directory; refused when the destination is a single file.
/// - Otherwise a single pass, for the first requested title if any.
pub fn plan_jobs(
    titles: &Option<Vec<String>>,
    is_disc: bool,
    title_nums: &[usize],
    is_dir_dest: bool,
    dest: &str,
) -> (r: JobPlan)
    ensures
        plan_jobs_spec(
            match titles {
                Some(t) => Some(views(t@)),
                None => None,
            },
            is_disc,
            title_nums@,
            is_dir_dest,
            dest@,
            r,
        ),
        titles matches Some(t) && t.len() > 0 && title_nums.len() > 0 ==> ({
            &&& planned_titles(r).len() == title_nums.len()
            &&& forall|k: int|
                0 <= k < title_nums.len() ==> #[trigger] planned_titles(r)[k] as int == (if title_nums[k]
                    == 0 {
                    0
                } else {
                    title_nums[k] - 1
                })
        }),
{
    let r = match titles {
        Some(t) if t.len() > 0 => {
            let indices: Vec<usize> = if title_nums.len() == 0 {
                let mut v: Vec<usize> = Vec::new();
                let mut i: usize = 0;
                while i < t.len()
                    invariant
                        i <= t.len(),
                        v@ == Seq::new(i as nat, |k: int| k as usize),
                    decreases t.len() - i,
                {
                    v.push(i);
                    i = i + 1;
                    assert(v@ =~= Seq::new(i as nat, |k: int| k as usize));
                }
                v
            } else {
                indices_of(title_nums)
            };
            assert(views(t@).len() == t@.len());
            if indices.len() == 1 && !is_dir_dest {
                JobPlan::Single(Some(indices[0]), string_from(dest))
            } else {
                assert(views(t@)[0] == t@[0]@);
                let stem = if t[0].as_str().is_empty() {
                    let mut d: Vec<char> = Vec::new();
                    d.push('d');
                    d.push('i');
                    d.push('s');
                    d.push('c');
                    assert(d@ =~= disc_word());
                    string_of(&d)
                } else {
                    sanitize_name(t[0].as_str())
                };
                JobPlan::PerTitle { indices, stem }
            }
        },
        _ => {
            if is_disc && title_nums.len() > 1 {
                if !is_dir_dest {
                    let args = vec![("dest", dest)];
                    let m = crate::strings::fmt("error.multi_title_needs_dir", args.as_slice());
                    assert(crate::strings::arg_views(args@) =~= seq![("dest"@, dest@)]);
                    JobPlan::NeedsDir(m)
                } else {
                    let mut d: Vec<char> = Vec::new();
                    d.push('d');
                    d.push('i');
                    d.push('s');
                    d.push('c');
                    assert(d@ =~= disc_word());
                    JobPlan::PerTitle { indices: indices_of(title_nums), stem: string_of(&d) }
                }
            } else {
                let idx = if title_nums.len() == 0 {
                    None
                } else {
                    let n = title_nums[0];
                    Some(
                        if n == 0 {
                            0
                        } else {
                            n - 1
                        },
                    )
                };
                JobPlan::Single(idx, string_from(dest))
            }
        },
    };
    proof {
        if let Some(t) = titles {
            if t.len() > 0 {
                lemma_plan_rips_requested_titles(views(t@), is_disc, title_nums@, is_dir_dest, dest@, r);
            }
        }
    }
    r
}

/// The 0-based title indices a plan rips, in order: the chosen title of a
/// single job, or the list of a per-title plan; none for a refusal.
pub open spec fn planned_titles(r: JobPlan) -> Seq<usize> {
    match r {
        JobPlan::Single(Some(i), _) => seq![i],
        JobPlan::Single(None, _) => Seq::empty(),
        JobPlan::PerTitle { indices, .. } => indices@,
        JobPlan::NeedsDir(_) => Seq::empty(),
    }
}

/// For a scanned source with a non-empty title list, the plan rips exactly
/// the requested titles, in the order given: the 1-based numbers
/// `n1..nk` (k >= 1) become the 0-based indices `n1-1..nk-1` (a 0 stays 0),
/// and no other title is added. Every title, in order, is ripped only when
/// no title is requested. A single requested title into a destination that
/// is no directory is one job writing to the destination itself.
pub proof fn lemma_plan_rips_requested_titles(
    t: Seq<Seq<char>>,
    is_disc: bool,
    nums: Seq<usize>,
    is_dir_dest: bool,
    dest: Seq<char>,
    r: JobPlan,
)
    requires
        0 < t.len() <= usize::MAX,
        plan_jobs_spec(Some(t), is_disc, nums, is_dir_dest, dest, r),
    ensures
        nums.len() > 0 ==> planned_titles(r).len() == nums.len() && forall|k: int|
            0 <= k < nums.len() ==> #[trigger] planned_titles(r)[k] as int == if nums[k] == 0 {
                0
            } else {
                nums[k] - 1
            },
        nums.len() == 0 ==> planned_titles(r).len() == t.len() && forall|k: int|
            0 <= k < t.len() ==> #[trigger] planned_titles(r)[k] as int == k,
        nums.len() == 1 && !is_dir_dest ==> (r matches JobPlan::Single(Some(_), d) && d@ == dest),
{
    if nums.len() > 0 {
        assert forall|k: int| 0 <= k < nums.len() implies #[trigger] planned_titles(r)[k] as int
            == if nums[k] == 0 {
            0
        } else {
            nums[k] - 1
        } by {
            assert(nums.map_values(|n: usize| index_of(n))[k] == index_of(nums[k]));
        }
    } else {
        assert forall|k: int| 0 <= k < t.len() implies #[trigger] planned_titles(r)[k] as int
            == k by {
            assert(Seq::new(t.len(), |i: int| i as usize)[k] == k as usize);
        }
    }
}

// ── Loop decisions ─────────────────────────────────────────────────────────

/// Whether a 0-based title index is within a source's title count. An
/// explicit out-of-range title is a hard failure.
pub fn title_in_range(idx: usize, count: usize) -> (r: bool)
    ensures
        r == (idx < count),
{
    idx < count
}

/// The result of a rip after one more job: it stays a success only while
/// every job's title exists (an explicit out-of-range title is a hard
/// failure) and every job's pipeline succeeds.
pub fn job_step(ok: bool, in_range: bool, succeeded: bool) -> (r: bool)
    ensures
        r == (ok && in_range && succeeded),
{
    ok && in_range && succeeded
}

/// `key`'s message with the 1-based title number and the title count.
pub open spec fn title_count_text(key: Seq<char>, idx: nat, count: nat) -> Seq<char> {
    fill_args(message(key), seq![("num"@, dec(idx + 1)), ("count"@, dec(count))])
}

fn title_count_message(key: &str, idx: usize, count: usize) -> (r: String)
    requires
        idx < u64::MAX,
    ensures
        r@ == title_count_text(key@, idx as nat, count as nat),
{
    let num = string_of(&fmt_dec(idx as u64 + 1));
    let total = string_of(&fmt_dec(count as u64));
    let args = vec![("num", num.as_str()), ("count", total.as_str())];
    let r = crate::strings::fmt(key, args.as_slice());
    assert(crate::strings::arg_views(args@) =~= seq![
        ("num"@, dec(idx as nat + 1)),
        ("count"@, dec(count as nat)),
    ]);
    r
}

/// The warning for a requested title (0-based `idx`) that a scanned source
/// does not have.
pub fn title_range_warning(idx: usize, count: usize) -> (r: String)
    requires
        idx < u64::MAX,
    ensures
        r@ == title_count_text("rip.warning_title_range"@, idx as nat, count as nat),
{
    title_count_message("rip.warning_title_range", idx, count)
}

/// The error for a requested title (0-based `idx`) that the scanned disc
/// does not have.
pub fn title_out_of_range_error(idx: usize, count: usize) -> (r: String)
    requires
        idx < u64::MAX,
    ensures
        r@ == title_count_text("error.title_out_of_range"@, idx as nat, count as nat),
{
    title_count_message("error.title_out_of_range", idx, count)
}

/// The disc-copy progress callback: `true` to continue, `false` to halt the
/// moment an interrupt was seen.
pub fn copy_should_continue(interrupted: bool) -> (r: bool)
    ensures
        r == !interrupted,
{
    !interrupted
}

/// How a finished sector copy ends: a copy halted by an interrupt fails with
/// the interrupted notice (its mapfile is kept for a later resume); any
/// other copy succeeds, with the completion summary.
pub fn copy_outcome(halted: bool) -> (r: (bool, Option<&'static str>))
    ensures
        r.0 == !halted,
        halted ==> (r.1 matches Some(k) && k@ == "rip.interrupted"@),
        !halted ==> r.1 is None,
{
    if halted {
        (false, Some("rip.interrupted"))
    } else {
        (true, None)
    }
}

/// Whether a mux must bail instead of finalizing the output: an interrupt
/// seen mid-loop, or one that landed during the final read (the flag
/// re-read just before finishing).
pub fn mux_was_interrupted(loop_interrupted: bool, flag_now: bool) -> (r: bool)
    ensures
        r == (loop_interrupted || flag_now),
{
    loop_interrupted || flag_now
}

/// What an interrupted mux shows and returns: at `Normal` verbosity a blank
/// line and the incomplete-output notice; the error is the `rip.interrupted`
/// message.
pub fn interrupted_error(out: &crate::output::Output) -> (r: (Vec<String>, String))
    ensures
        out.spec_shows(crate::output::Level::Normal) ==> r.0@.len() == 2 && r.0@[0]@.len() == 0
            && r.0@[1]@ == message("error.interrupted_incomplete"@),
        !out.spec_shows(crate::output::Level::Normal) ==> r.0@.len() == 0,
        r.1@ == message("rip.interrupted"@),
{
    let mut lines: Vec<String> = Vec::new();
    if out.shows(crate::output::Level::Normal) {
        lines.push(String::new());
        lines.push(crate::strings::get("error.interrupted_incomplete"));
    }
    (lines, crate::strings::get("rip.interrupted"))
}


/// Progress lines are drawn at most every half second.
pub open spec fn progress_interval() -> nat {
    500_000_000
}

/// Time from `earlier` to `now` in nanoseconds, zero when `now` is earlier
/// (as `Instant::duration_since` saturates).
pub open spec fn elapsed_nanos(earlier: u64, now: u64) -> nat {
    if now >= earlier {
        (now - earlier) as nat
    } else {
        0
    }
}

/// Whether a mux loop draws its progress line after a frame: never when
/// quiet, else once half a second has passed since the last one. Times are
/// nanoseconds since the rip started.
pub fn progress_due(quiet: bool, last_update: u64, now: u64) -> (r: bool)
    ensures
        r == (!quiet && elapsed_nanos(last_update, now) >= progress_interval()),
{
    !quiet && now >= last_update && now - last_update >= 500_000_000
}

/// The state of the disc-copy progress reporter: when it last drew, and the
/// work done and time at the last speed sample (times in nanoseconds since
/// the copy started).
#[derive(Clone, Copy, Debug, PartialEq, Eq)]
pub struct CopyProgress {
    pub last_update: u64,
    pub last_work_done: Option<u64>,
    pub last_speed_time: u64,
}

/// What the instantaneous speed of a progress line is computed from.
#[derive(Clone, Copy, Debug, PartialEq, Eq)]
pub enum SpeedSample {
    /// The first line: no earlier sample, the speed shows as zero.
    First,
    /// `bytes` of work done over `nanos` since the previous line.
    Delta { bytes: u64, nanos: u64 },
}

/// One report of the copy: the next state, the line to draw (if one is
/// due), and whether the copy goes on.
#[derive(Clone, Copy, Debug, PartialEq, Eq)]
pub struct CopyStep {
    pub state: CopyProgress,
    pub draw: Option<SpeedSample>,
    pub keep_going: bool,
}

/// The reporter's initial state at the start of the copy.
pub fn copy_progress_start() -> (r: CopyProgress)
    ensures
        r == (CopyProgress { last_update: 0, last_work_done: None, last_speed_time: 0 }),
{
    CopyProgress { last_update: 0, last_work_done: None, last_speed_time: 0 }
}

pub open spec fn copy_step_spec(
    st: CopyProgress,
    now: u64,
    work_done: u64,
    quiet: bool,
    interrupted: bool,
) -> CopyStep {
    let due = !quiet && elapsed_nanos(st.last_update, now) >= progress_interval();
    CopyStep {
        state: if due {
            CopyProgress { last_update: now, last_work_done: Some(work_done), last_speed_time: now }
        } else {
            st
        },
        draw: if due {
            Some(
                match st.last_work_done {
                    Some(prev) => SpeedSample::Delta {
                        bytes: if work_done >= prev {
                            (work_done - prev) as u64
                        } else {
                            0
                        },
                        nanos: elapsed_nanos(st.last_speed_time, now) as u64,
                    },
                    None => SpeedSample::First,
                },
            )
        } else {
            None
        },
        keep_going: !interrupted,
    }
}

/// One progress report of the disc copy at time `now` with `work_done`
/// bytes of the pass done: draw a line every half second unless quiet
/// (sampling the speed since the previous line), and halt once interrupted.
pub fn copy_progress_step(
    st: &CopyProgress,
    now: u64,
    work_done: u64,
    quiet: bool,
    interrupted: bool,
) -> (r: CopyStep)
    ensures
        r == copy_step_spec(*st, now, work_done, quiet, interrupted),
{
    let keep_going = copy_should_continue(interrupted);
    if progress_due(quiet, st.last_update, now) {
        let draw = match st.last_work_done {
            Some(prev) => SpeedSample::Delta {
                bytes: work_done.saturating_sub(prev),
                nanos: now.saturating_sub(st.last_speed_time),
            },
            None => SpeedSample::First,
        };
        CopyStep {
            state: CopyProgress {
                last_update: now,
                last_work_done: Some(work_done),
                last_speed_time: now,
            },
            draw: Some(draw),
            keep_going,
        }
    } else {
        CopyStep { state: *st, draw: None, keep_going }
    }
}

// ── Clock text ─────────────────────────────────────────────────────────────

pub open spec fn two_digits(n: nat) -> Seq<char> {
    pad_left(dec(n), 2, '0')
}

/// `H:MM:SS`.
pub open spec fn hms(secs: nat) -> Seq<char> {
    dec(secs / 3600) + ":"@ + two_digits((secs % 3600) / 60) + ":"@ + two_digits(secs % 60)
}

/// `M:SS`, the minutes not wrapped at the hour.
pub open spec fn ms(secs: nat) -> Seq<char> {
    dec(secs / 60) + ":"@ + two_digits(secs % 60)
}

fn two_digit_text(n: u64) -> (r: Vec<char>)
    ensures
        r@ == two_digits(n as nat),
{
    padded_left(&fmt_dec(n), 2, '0')
}

/// Whole seconds as `H:MM:SS` (durations).
pub fn hms_text(secs: u64) -> (r: String)
    ensures
        r@ == hms(secs as nat),
{
    let mut v = fmt_dec(secs / 3600);
    push_str(&mut v, ":");
    push_all(&mut v, &two_digit_text((secs % 3600) / 60));
    push_str(&mut v, ":");
    push_all(&mut v, &two_digit_text(secs % 60));
    string_of(&v)
}

/// Whole seconds as `M:SS` (the remaining time of a mux).
pub fn ms_text(secs: u64) -> (r: String)
    ensures
        r@ == ms(secs as nat),
{
    let mut v = fmt_dec(secs / 60);
    push_str(&mut v, ":");
    push_all(&mut v, &two_digit_text(secs % 60));
    string_of(&v)
}

/// The remaining time of a disc copy: `H:MM:SS` from an hour on, else `M:SS`.
pub open spec fn eta(secs: nat) -> Seq<char> {
    if secs / 3600 > 0 {
        hms(secs)
    } else {
        ms(secs)
    }
}

pub fn eta_text(secs: u64) -> (r: String)
    ensures
        r@ == eta(secs as nat),
{
    if secs / 3600 > 0 {
        hms_text(secs)
    } else {
        ms_text(secs)
    }
}

// ── Stream labels ──────────────────────────────────────────────────────────

/// The catalog key of an audio purpose; `Normal` has none.
pub fn audio_purpose_key(p: Purpose) -> (r: Option<&'static str>)
    ensures
        r matches Some(k) ==> purpose_key_spec(p) == Some(k@),
        r is None ==> purpose_key_spec(p) is None,
{
    match p {
        Purpose::Commentary => Some("stream.purpose.commentary"),
        Purpose::Descriptive => Some("stream.purpose.descriptive"),
        Purpose::Score => Some("stream.purpose.score"),
        Purpose::Ime => Some("stream.purpose.ime"),
        Purpose::Normal => None,
    }
}

/// `" — "` and the tags joined by `", "`, or nothing without tags.
pub open spec fn dash_tags(tags: Seq<Seq<char>>) -> Seq<char> {
    if tags.len() == 0 {
        Seq::empty()
    } else {
        " — "@ + join(tags, ", "@)
    }
}

/// The tags of an audio stream in a stream summary: its purpose, the
/// secondary marker, and its label when it has one.
pub open spec fn audio_summary_tags(p: Purpose, secondary: bool, label: Seq<char>) -> Seq<
    Seq<char>,
> {
    (match purpose_key_spec(p) {
        Some(k) => seq![message(k)],
        None => Seq::empty(),
    }) + (if secondary {
        seq![message("stream.secondary"@)]
    } else {
        Seq::empty()
    }) + (if label.len() > 0 {
        seq![label]
    } else {
        Seq::empty()
    })
}

/// The label part of an audio line in a stream summary.
pub fn audio_summary_label(p: Purpose, secondary: bool, label: &str) -> (r: String)
    ensures
        r@ == dash_tags(audio_summary_tags(p, secondary, label@)),
{
    let mut tags: Vec<Vec<char>> = Vec::new();
    let ghost t0 = tags@.map_values(|x: Vec<char>| x@);
    if let Some(k) = audio_purpose_key(p) {
        tags.push(chars_of(get(k).as_str()));
    }
    let ghost t1 = tags@.map_values(|x: Vec<char>| x@);
    assert(t1 =~= (match purpose_key_spec(p) {
        Some(k) => seq![message(k)],
        None => Seq::<Seq<char>>::empty(),
    }));
    if secondary {
        tags.push(chars_of(get("stream.secondary").as_str()));
    }
    let ghost t2 = tags@.map_values(|x: Vec<char>| x@);
    assert(t2 =~= t1 + (if secondary {
        seq![message("stream.secondary"@)]
    } else {
        Seq::<Seq<char>>::empty()
    }));
    let lc = chars_of(label);
    if lc.len() > 0 {
        tags.push(lc);
    }
    assert(tags@.map_values(|x: Vec<char>| x@) =~= audio_summary_tags(p, secondary, label@));
    let mut v: Vec<char> = Vec::new();
    if tags.len() > 0 {
        v = chars_of(" — ");
        let j = join_chars(&tags, &chars_of(", "));
        push_all(&mut v, &j);
    }
    string_of(&v)
}

/// The label part of a video line in a stream summary.
pub open spec fn dash_label(label: Seq<char>) -> Seq<char> {
    if label.len() == 0 {
        Seq::empty()
    } else {
        " — "@ + label
    }
}

pub fn video_summary_label(label: &str) -> (r: String)
    ensures
        r@ == dash_label(label@),
{
    let lc = chars_of(label);
    if lc.len() == 0 {
        string_of(&lc)
    } else {
        let mut v = chars_of(" — ");
        push_all(&mut v, &lc);
        string_of(&v)
    }
}

} // verus!
