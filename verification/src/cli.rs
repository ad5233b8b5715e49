//! Top-level command-line handling: which tokens are stream URLs, the
//! `--language` and logging flags, and which command a argument list selects.
use vstd::prelude::*;
use crate::pipe::UrlKind;
use crate::strings::{arg_views, fill_args, fmt, get, message};
use crate::text::{
    push_str, chars_of, contains_sub, occurs_at, parse_unsigned, parse_unsigned_str, str_contains, str_eq,
    string_from, string_of, views,
};

verus! {

/// Whether `s` looks like a stream URL (`scheme://...`).
pub open spec fn is_url_text(s: Seq<char>) -> bool {
    contains_sub(s, "://"@)
}

/// Whether `s` is a dash-prefixed flag token.
pub open spec fn is_dash(s: Seq<char>) -> bool {
    s.len() > 0 && s[0] == '-'
}

/// True if `s` looks like a stream URL (`scheme://...`).
pub fn is_url(s: &str) -> (r: bool)
    ensures
        r == is_url_text(s@),
{
    str_contains(s, "://")
}

pub fn starts_with_dash(s: &str) -> (r: bool)
    ensures
        r == is_dash(s@),
{
    let cs = chars_of(s);
    cs.len() > 0 && cs[0] == '-'
}

// ── Positional URLs ────────────────────────────────────────────────────────

/// Flags that consume the next argument as a value.
pub open spec fn is_value_flag(a: Seq<char>) -> bool {
    ||| a == "-t"@
    ||| a == "--title"@
    ||| a == "-k"@
    ||| a == "--keydb"@
    ||| a == "--key-url"@
    ||| a == "--key-auth"@
    ||| a == "--log-file"@
    ||| a == "--log-level"@
}

fn value_flag(a: &str) -> (r: bool)
    ensures
        r == is_value_flag(a@),
{
    str_eq(a, "-t") || str_eq(a, "--title") || str_eq(a, "-k") || str_eq(a, "--keydb")
        || str_eq(a, "--key-url") || str_eq(a, "--key-auth") || str_eq(a, "--log-file")
        || str_eq(a, "--log-level")
}

/// The positional stream URLs of `args`, scanning left to right. `skip_next`
/// says the previous token was a value-flag; `key_url` that it was
/// `--key-url`, whose value is always consumed. The value of any other
/// value-flag is kept as positional when it is itself a URL.
pub open spec fn urls_from(args: Seq<Seq<char>>, skip_next: bool, key_url: bool) -> Seq<Seq<char>>
    decreases args.len(),
{
    if args.len() == 0 {
        Seq::empty()
    } else {
        let a = args[0];
        if skip_next {
            (if !key_url && is_url_text(a) {
                seq![a]
            } else {
                Seq::empty()
            }) + urls_from(args.skip(1), false, false)
        } else if is_dash(a) {
            if is_value_flag(a) {
                urls_from(args.skip(1), true, a == "--key-url"@)
            } else {
                urls_from(args.skip(1), false, false)
            }
        } else {
            seq![a] + urls_from(args.skip(1), false, false)
        }
    }
}

/// Split positional stream URLs out of an argument list, accounting for
/// value-taking flags (`-t`, `-k`, ...).
///
/// A value-flag normally consumes the following token as its value, but it
/// does not swallow a positional stream URL: `freemkv -k disc:// mkv://out.mkv`
/// keeps both URLs. `--key-url`'s value is an `http(s)://` URL and is always
/// consumed.
pub fn collect_urls(args: &[String]) -> (urls: Vec<String>)
    ensures
        views(urls@) == urls_from(views(args@), false, false),
{
    let ghost all = views(args@);
    let mut urls: Vec<String> = Vec::new();
    let mut skip_next = false;
    let mut key_url = false;
    let mut i: usize = 0;
    assert(all.skip(0) =~= all);
    while i < args.len()
        invariant
            i <= args.len(),
            all == views(args@),
            !skip_next ==> !key_url,
            views(urls@) + urls_from(all.skip(i as int), skip_next, key_url) == urls_from(
                all,
                false,
                false,
            ),
        decreases args.len() - i,
    {
        let arg = &args[i];
        let ghost before = views(urls@);
        let ghost sn = skip_next;
        let ghost ku = key_url;
        proof {
            assert(all.skip(i as int)[0] == arg@);
            assert(all.skip(i as int).skip(1) =~= all.skip(i + 1));
        }
        if skip_next {
            skip_next = false;
            let consume_key_url = key_url;
            key_url = false;
            if !consume_key_url && is_url(arg.as_str()) {
                urls.push(arg.clone());
                assert(views(urls@) =~= before.push(arg@));
            }
        } else if starts_with_dash(arg.as_str()) {
            if value_flag(arg.as_str()) {
                skip_next = true;
                key_url = str_eq(arg.as_str(), "--key-url");
            }
        } else {
            urls.push(arg.clone());
            assert(views(urls@) =~= before.push(arg@));
        }
        proof {
            assert(views(urls@) + urls_from(all.skip(i + 1), skip_next, key_url) =~= before
                + urls_from(all.skip(i as int), sn, ku));
        }
        i = i + 1;
    }
    assert(all.skip(args.len() as int) =~= Seq::<Seq<char>>::empty());
    assert(views(urls@) + Seq::<Seq<char>>::empty() =~= views(urls@));
    urls
}

/// A value-flag does not swallow a stream URL: every URL token that is no
/// flag itself and does not directly follow `--key-url` is among the
/// positional URLs (here from any scan state; the scan of `collect_urls`
/// starts with `skip_next` and `key_url` false).
pub proof fn lemma_urls_kept(args: Seq<Seq<char>>, skip_next: bool, key_url: bool, i: int)
    requires
        0 <= i < args.len(),
        is_url_text(args[i]),
        !is_dash(args[i]),
        i == 0 ==> !(skip_next && key_url),
        i > 0 ==> args[i - 1] != "--key-url"@,
    ensures
        urls_from(args, skip_next, key_url).contains(args[i]),
    decreases args.len(),
{
    let a = args[0];
    let rest = args.skip(1);
    if i == 0 {
        if skip_next {
            assert(urls_from(args, skip_next, key_url)[0] == a);
        } else {
            assert(urls_from(args, skip_next, key_url)[0] == a);
        }
    } else {
        let (sn, ku) = if skip_next {
            (false, false)
        } else if is_dash(a) {
            if is_value_flag(a) {
                (true, a == "--key-url"@)
            } else {
                (false, false)
            }
        } else {
            (false, false)
        };
        assert(rest[i - 1] == args[i]);
        if i - 1 > 0 {
            assert(rest[i - 2] == args[i - 1]);
        }
        lemma_urls_kept(rest, sn, ku, i - 1);
        let pre = urls_from(args, skip_next, key_url);
        let tail = urls_from(rest, sn, ku);
        let k = choose|k: int| 0 <= k < tail.len() && tail[k] == args[i];
        if skip_next {
            let head: Seq<Seq<char>> = if !key_url && is_url_text(a) {
                seq![a]
            } else {
                Seq::empty()
            };
            assert(pre == head + tail);
            assert(pre[head.len() + k] == args[i]);
        } else if is_dash(a) {
            assert(pre == tail);
        } else {
            assert(pre == seq![a] + tail);
            assert(pre[1 + k] == args[i]);
        }
    }
}

/// A token that is no URL, right after a flag whose value the rip flags
/// read (`-t`, `--title`, `-k`, `--keydb`), is that flag's value and never a
/// positional URL: the URLs of `[s, d, f, v]` are `[s, d]`.
pub proof fn lemma_flag_value_not_positional(s: Seq<char>, d: Seq<char>, f: Seq<char>, v: Seq<char>)
    requires
        !is_dash(s),
        !is_dash(d),
        !is_url_text(v),
        f == "-t"@ || f == "--title"@ || f == "-k"@ || f == "--keydb"@,
    ensures
        urls_from(seq![s, d, f, v], false, false) == seq![s, d],
{
    reveal_strlit("-t");
    reveal_strlit("--title");
    reveal_strlit("-k");
    reveal_strlit("--keydb");
    reveal_strlit("--key-url");
    assert(is_dash(f));
    assert(is_value_flag(f));
    assert(f != "--key-url"@);
    let args = seq![s, d, f, v];
    assert(args.skip(1) =~= seq![d, f, v]);
    assert(seq![d, f, v].skip(1) =~= seq![f, v]);
    assert(seq![f, v].skip(1) =~= seq![v]);
    assert(seq![v].skip(1) =~= Seq::<Seq<char>>::empty());
    assert(urls_from(Seq::<Seq<char>>::empty(), false, false) =~= Seq::<Seq<char>>::empty());
    assert(urls_from(seq![v], true, false) =~= Seq::<Seq<char>>::empty());
    assert(urls_from(seq![f, v], false, false) =~= Seq::<Seq<char>>::empty());
    assert(urls_from(seq![d, f, v], false, false) =~= seq![d]);
    assert(urls_from(args, false, false) =~= seq![s, d]);
}

/// Inclusive last LBA of a half-open `[start, start+count)` range, for
/// display. A zero count shows as `start`, and the result saturates at
/// `u32::MAX`.
pub fn inclusive_last_lba(start_lba: u32, count: u32) -> (r: u32)
    ensures
        r as int == if count == 0 {
            start_lba as int
        } else if start_lba + count - 1 > u32::MAX {
            u32::MAX as int
        } else {
            start_lba + count - 1
        },
{
    let c = if count > 0 {
        count - 1
    } else {
        0
    };
    if start_lba > u32::MAX - c {
        u32::MAX
    } else {
        start_lba + c
    }
}

// ── `--language` ───────────────────────────────────────────────────────────

/// The argument list with `--language`/`--lang` and their values taken out.
#[derive(Debug)]
pub struct LanguageArgs {
    /// The remaining arguments, in order.
    pub args: Vec<String>,
    /// The last language code given, if any.
    pub language: Option<String>,
    /// The language flags that lacked a value, in order.
    pub missing_value: Vec<String>,
}

pub open spec fn is_language_flag(a: Seq<char>) -> bool {
    a == "--language"@ || a == "--lang"@
}

/// (remaining arguments, last language given, flags that lacked a value).
/// A following URL or dash-prefixed token is not taken as the value.
pub open spec fn language_scan(args: Seq<Seq<char>>) -> (
    Seq<Seq<char>>,
    Option<Seq<char>>,
    Seq<Seq<char>>,
)
    decreases args.len(),
{
    if args.len() == 0 {
        (Seq::empty(), None, Seq::empty())
    } else if is_language_flag(args[0]) {
        if args.len() > 1 && !is_url_text(args[1]) && !is_dash(args[1]) {
            let r = language_scan(args.skip(2));
            (
                r.0,
                if r.1 is Some {
                    r.1
                } else {
                    Some(args[1])
                },
                r.2,
            )
        } else {
            let r = language_scan(args.skip(1));
            (r.0, r.1, seq![args[0]] + r.2)
        }
    } else {
        let r = language_scan(args.skip(1));
        (seq![args[0]] + r.0, r.1, r.2)
    }
}

/// Take `--language CODE` / `--lang CODE` out of `args`.
pub fn split_language(args: &[String]) -> (r: LanguageArgs)
    ensures
        views(r.args@) == language_scan(views(args@)).0,
        r.language matches Some(l) ==> language_scan(views(args@)).1 == Some(l@),
        r.language is None ==> language_scan(views(args@)).1 is None,
        views(r.missing_value@) == language_scan(views(args@)).2,
{
    let ghost all = views(args@);
    let ghost total = language_scan(all);
    let mut kept: Vec<String> = Vec::new();
    let mut language: Option<String> = None;
    let mut missing: Vec<String> = Vec::new();
    let mut i: usize = 0;
    assert(all.skip(0) =~= all);
    while i < args.len()
        invariant
            i <= args.len(),
            all == views(args@),
            total == language_scan(all),
            views(kept@) + language_scan(all.skip(i as int)).0 == total.0,
            views(missing@) + language_scan(all.skip(i as int)).2 == total.2,
            total.1 == (if language_scan(all.skip(i as int)).1 is Some {
                language_scan(all.skip(i as int)).1
            } else {
                match language {
                    Some(l) => Some(l@),
                    None => None,
                }
            }),
        decreases args.len() - i,
    {
        let ghost rest = all.skip(i as int);
        let ghost k0 = views(kept@);
        let ghost m0 = views(missing@);
        let a = &args[i];
        assert(rest[0] == a@);
        assert(rest.skip(1) =~= all.skip(i + 1));
        if str_eq(a.as_str(), "--language") || str_eq(a.as_str(), "--lang") {
            if i + 1 < args.len() && !is_url(args[i + 1].as_str()) && !starts_with_dash(
                args[i + 1].as_str(),
            ) {
                assert(rest[1] == args@[i + 1]@);
                assert(rest.skip(2) =~= all.skip(i + 2));
                language = Some(args[i + 1].clone());
                i = i + 2;
            } else {
                missing.push(a.clone());
                assert(views(missing@) =~= m0.push(a@));
                assert(views(missing@) + language_scan(all.skip(i + 1)).2 =~= m0 + language_scan(
                    rest,
                ).2);
                i = i + 1;
            }
        } else {
            kept.push(a.clone());
            assert(views(kept@) =~= k0.push(a@));
            assert(views(kept@) + language_scan(all.skip(i + 1)).0 =~= k0 + language_scan(
                rest,
            ).0);
            i = i + 1;
        }
    }
    assert(all.skip(args.len() as int) =~= Seq::<Seq<char>>::empty());
    assert(views(kept@) + Seq::<Seq<char>>::empty() =~= views(kept@));
    assert(views(missing@) + Seq::<Seq<char>>::empty() =~= views(missing@));
    LanguageArgs { args: kept, language, missing_value: missing }
}

// ── Diagnostic logging flags ───────────────────────────────────────────────

/// `n.clamp(1, 4)`.
pub open spec fn clamp_level(n: nat) -> nat {
    if n < 1 {
        1
    } else if n > 4 {
        4
    } else {
        n
    }
}

/// (last `--log-level` value that parsed as a `u8`, clamped to 1..=4; last
/// `--log-file` path). Each flag consumes the token after it, if any.
pub open spec fn log_scan(args: Seq<Seq<char>>) -> (Option<nat>, Option<Seq<char>>)
    decreases args.len(),
{
    if args.len() == 0 {
        (None, None)
    } else if args[0] == "--log-level"@ {
        if args.len() < 2 {
            (None, None)
        } else {
            let r = log_scan(args.skip(2));
            (
                if r.0 is Some {
                    r.0
                } else {
                    match parse_unsigned(args[1], 255) {
                        Some(n) => Some(clamp_level(n)),
                        None => None,
                    }
                },
                r.1,
            )
        }
    } else if args[0] == "--log-file"@ {
        if args.len() < 2 {
            (None, None)
        } else {
            let r = log_scan(args.skip(2));
            (r.0, if r.1 is Some {
                r.1
            } else {
                Some(args[1])
            })
        }
    } else {
        log_scan(args.skip(1))
    }
}

/// Where diagnostic logging goes, if anywhere.
#[derive(Debug, PartialEq, Eq)]
pub enum LogPlan {
    /// No diagnostic log was asked for: install nothing.
    Off,
    /// Write the diagnostic log to `path`, filtered by `directive` (`None`:
    /// take the filter from `RUST_LOG`).
    File { directive: Option<String>, path: String },
}

/// The tracing filter for a numeric level: `error` everywhere, and the level's
/// name for the `freemkv` and `libfreemkv` targets.
pub open spec fn level_directive(level: nat) -> Seq<char> {
    let name = if level == 1 {
        "warn"@
    } else if level == 2 {
        "info"@
    } else if level == 3 {
        "debug"@
    } else {
        "trace"@
    };
    "error,freemkv="@ + name + ",libfreemkv="@ + name
}

fn level_name(level: u8) -> (r: &'static str)
    ensures
        r@ == (if level == 1 {
            "warn"@
        } else if level == 2 {
            "info"@
        } else if level == 3 {
            "debug"@
        } else {
            "trace"@
        }),
{
    if level == 1 {
        "warn"
    } else if level == 2 {
        "info"
    } else if level == 3 {
        "debug"
    } else {
        "trace"
    }
}

/// The diagnostic-log plan for `args`: none unless `--log-level`,
/// `--log-file` or `RUST_LOG` asks for one; `RUST_LOG` then supplies the
/// filter, else the level (default 3, debug) does; the path defaults to
/// `log.txt`.
pub fn log_plan(args: &[String], rust_log_set: bool) -> (r: LogPlan)
    ensures
        ({
            let sc = log_scan(views(args@));
            match r {
                LogPlan::Off => sc.0 is None && sc.1 is None && !rust_log_set,
                LogPlan::File { directive, path } => {
                    &&& (sc.0 is Some || sc.1 is Some || rust_log_set)
                    &&& (match directive {
                        Some(d) => !rust_log_set && d@ == level_directive(
                            if sc.0 is Some {
                                sc.0->0
                            } else {
                                3
                            },
                        ),
                        None => rust_log_set,
                    })
                    &&& path@ == (if sc.1 is Some {
                        sc.1->0
                    } else {
                        "log.txt"@
                    })
                },
            }
        }),
{
    let ghost all = views(args@);
    let mut level: Option<u8> = None;
    let mut file: Option<String> = None;
    let mut i: usize = 0;
    assert(all.skip(0) =~= all);
    while i < args.len()
        invariant
            i <= args.len(),
            all == views(args@),
            log_scan(all).0 == (if log_scan(all.skip(i as int)).0 is Some {
                log_scan(all.skip(i as int)).0
            } else {
                match level {
                    Some(n) => Some(n as nat),
                    None => None,
                }
            }),
            log_scan(all).1 == (if log_scan(all.skip(i as int)).1 is Some {
                log_scan(all.skip(i as int)).1
            } else {
                match file {
                    Some(p) => Some(p@),
                    None => None,
                }
            }),
            level matches Some(n) ==> 1 <= n <= 4,
        decreases args.len() - i,
    {
        let ghost rest = all.skip(i as int);
        let a = &args[i];
        assert(rest[0] == a@);
        assert(rest.skip(1) =~= all.skip(i + 1));
        if str_eq(a.as_str(), "--log-level") {
            if i + 1 >= args.len() {
                assert(log_scan(rest) == (None::<nat>, None::<Seq<char>>));
                i = args.len();
                assert(all.skip(i as int) =~= Seq::<Seq<char>>::empty());
            } else {
                assert(rest[1] == args@[i + 1]@);
                assert(rest.skip(2) =~= all.skip(i + 2));
                match parse_unsigned_str(args[i + 1].as_str(), 255) {
                    Some(n) => {
                        let c: u8 = if n < 1 {
                            1
                        } else if n > 4 {
                            4
                        } else {
                            n as u8
                        };
                        level = Some(c);
                    },
                    None => {},
                }
                i = i + 2;
            }
        } else if str_eq(a.as_str(), "--log-file") {
            if i + 1 >= args.len() {
                assert(log_scan(rest) == (None::<nat>, None::<Seq<char>>));
                i = args.len();
                assert(all.skip(i as int) =~= Seq::<Seq<char>>::empty());
            } else {
                assert(rest[1] == args@[i + 1]@);
                assert(rest.skip(2) =~= all.skip(i + 2));
                file = Some(args[i + 1].clone());
                i = i + 2;
            }
        } else {
            i = i + 1;
        }
    }
    assert(all.skip(args.len() as int) =~= Seq::<Seq<char>>::empty());
    if level.is_none() && file.is_none() && !rust_log_set {
        return LogPlan::Off;
    }
    let directive = if rust_log_set {
        None
    } else {
        let l = match level {
            Some(n) => n,
            None => 3,
        };
        let name = level_name(l);
        let mut d = chars_of("error,freemkv=");
        crate::text::push_str(&mut d, name);
        crate::text::push_str(&mut d, ",libfreemkv=");
        crate::text::push_str(&mut d, name);
        Some(string_of(&d))
    };
    let path = match file {
        Some(p) => p,
        None => string_from("log.txt"),
    };
    LogPlan::File { directive, path }
}

// ── Command selection ──────────────────────────────────────────────────────

/// What an argument list (program name first) asks for.
#[derive(Debug)]
pub enum Route {
    /// No subcommand or URL: print usage and exit with status 2.
    Usage,
    /// `info <url> [flags]`, with the arguments after `info`.
    Info(Vec<String>),
    /// `verify [url]`, with the arguments after `verify`.
    Verify(Vec<String>),
    /// `update-keys [--url URL]`, with the arguments after `update-keys`.
    UpdateKeys(Vec<String>),
    /// `version` / `--version` / `-V`.
    Version,
    /// `help` / `--help` / `-h`.
    Help,
    /// `<source> <dest> [flags]`: the two URLs and every argument after the
    /// program name.
    Rip { source: String, dest: String, args: Vec<String> },
    /// A single URL: show its info. The URL comes first, then every other
    /// argument that is not that URL.
    InfoUrl(Vec<String>),
    /// No usable combination of URLs.
    BadUsage,
}

/// `args` without its elements equal to `x`.
pub open spec fn without(args: Seq<Seq<char>>, x: Seq<char>) -> Seq<Seq<char>>
    decreases args.len(),
{
    if args.len() == 0 {
        Seq::empty()
    } else {
        (if args[0] == x {
            Seq::empty()
        } else {
            seq![args[0]]
        }) + without(args.skip(1), x)
    }
}

pub open spec fn route_spec(args: Seq<Seq<char>>, r: Route) -> bool {
    if args.len() < 2 {
        r is Usage
    } else {
        let c = args[1];
        let rest = args.skip(2);
        if c == "info"@ {
            r matches Route::Info(a) && views(a@) == rest
        } else if c == "verify"@ {
            r matches Route::Verify(a) && views(a@) == rest
        } else if c == "update-keys"@ {
            r matches Route::UpdateKeys(a) && views(a@) == rest
        } else if c == "version"@ || c == "--version"@ || c == "-V"@ {
            r is Version
        } else if c == "help"@ || c == "--help"@ || c == "-h"@ {
            r is Help
        } else {
            let urls = urls_from(args.skip(1), false, false);
            if urls.len() == 2 {
                r matches Route::Rip { source, dest, args: a } && source@ == urls[0] && dest@
                    == urls[1] && views(a@) == args.skip(1)
            } else if urls.len() == 1 {
                r matches Route::InfoUrl(a) && views(a@) == seq![urls[0]] + without(
                    args.skip(1),
                    urls[0],
                )
            } else {
                r is BadUsage
            }
        }
    }
}

/// A word without a colon is no stream URL.
proof fn lemma_no_colon_no_url(w: Seq<char>)
    requires
        forall|j: int| 0 <= j < w.len() ==> w[j] != ':',
    ensures
        !is_url_text(w),
{
    reveal_strlit("://");
    if is_url_text(w) {
        let i = choose|i: int| occurs_at(w, "://"@, i);
        assert(w.subrange(i, i + 3)[0] == w[i]);
    }
}

/// A rip whose flags come after the two URLs: with a flag whose value the
/// rip flags read (`-t`, `--title`, `-k`, `--keydb`) and a value that is no
/// URL, `<program> <source> <dest> <flag> <value>` rips from `source` to
/// `dest`, with every argument after the program name.
pub proof fn lemma_route_rip_with_flag_value(
    prog: Seq<char>,
    s: Seq<char>,
    d: Seq<char>,
    f: Seq<char>,
    v: Seq<char>,
    r: Route,
)
    requires
        is_url_text(s),
        !is_dash(s),
        !is_dash(d),
        !is_url_text(v),
        f == "-t"@ || f == "--title"@ || f == "-k"@ || f == "--keydb"@,
        route_spec(seq![prog, s, d, f, v], r),
    ensures
        r matches Route::Rip { source, dest, args } && source@ == s && dest@ == d && views(args@)
            == seq![s, d, f, v],
{
    let args = seq![prog, s, d, f, v];
    assert(args.skip(1) =~= seq![s, d, f, v]);
    lemma_flag_value_not_positional(s, d, f, v);
    reveal_strlit("info");
    reveal_strlit("verify");
    reveal_strlit("update-keys");
    reveal_strlit("version");
    reveal_strlit("help");
    lemma_no_colon_no_url("info"@);
    lemma_no_colon_no_url("verify"@);
    lemma_no_colon_no_url("update-keys"@);
    lemma_no_colon_no_url("version"@);
    lemma_no_colon_no_url("help"@);
    reveal_strlit("--version");
    reveal_strlit("-V");
    reveal_strlit("--help");
    reveal_strlit("-h");
    assert(args[1] == s);
    assert(s != "--version"@ && s != "-V"@ && s != "--help"@ && s != "-h"@);
}

fn tail_from(args: &[String], from: usize) -> (r: Vec<String>)
    requires
        from <= args.len(),
    ensures
        views(r@) == views(args@).skip(from as int),
{
    let mut r: Vec<String> = Vec::new();
    let mut i = from;
    while i < args.len()
        invariant
            from <= i <= args.len(),
            views(r@) == views(args@).subrange(from as int, i as int),
        decreases args.len() - i,
    {
        let ghost before = views(r@);
        r.push(args[i].clone());
        assert(views(r@) =~= before.push(args@[i as int]@));
        i = i + 1;
        assert(views(r@) =~= views(args@).subrange(from as int, i as int));
    }
    assert(views(args@).subrange(from as int, args.len() as int) =~= views(args@).skip(
        from as int,
    ));
    r
}

/// Select the command for an argument list whose first element is the
/// program name.
pub fn route(args: &[String]) -> (r: Route)
    ensures
        route_spec(views(args@), r),
{
    let ghost all = views(args@);
    if args.len() < 2 {
        return Route::Usage;
    }
    let c = args[1].as_str();
    assert(all[1] == c@);
    if str_eq(c, "info") {
        Route::Info(tail_from(args, 2))
    } else if str_eq(c, "verify") {
        Route::Verify(tail_from(args, 2))
    } else if str_eq(c, "update-keys") {
        Route::UpdateKeys(tail_from(args, 2))
    } else if str_eq(c, "version") || str_eq(c, "--version") || str_eq(c, "-V") {
        Route::Version
    } else if str_eq(c, "help") || str_eq(c, "--help") || str_eq(c, "-h") {
        Route::Help
    } else {
        let rest = tail_from(args, 1);
        let urls = collect_urls(rest.as_slice());
        if urls.len() == 2 {
            let source = urls[0].clone();
            let dest = urls[1].clone();
            Route::Rip { source, dest, args: rest }
        } else if urls.len() == 1 {
            let url = urls[0].clone();
            let mut info_args: Vec<String> = Vec::new();
            info_args.push(url.clone());
            let mut i: usize = 0;
            let ghost vr = views(rest@);
            assert(vr.skip(0) =~= vr);
            while i < rest.len()
                invariant
                    i <= rest.len(),
                    vr == views(rest@),
                    views(info_args@) + without(vr.skip(i as int), url@) == seq![url@] + without(
                        vr,
                        url@,
                    ),
                decreases rest.len() - i,
            {
                let a = &rest[i];
                let ghost before = views(info_args@);
                proof {
                    assert(vr.skip(i as int)[0] == a@);
                    assert(vr.skip(i as int).skip(1) =~= vr.skip(i + 1));
                }
                if !str_eq(a.as_str(), url.as_str()) {
                    info_args.push(a.clone());
                    assert(views(info_args@) =~= before.push(a@));
                }
                assert(views(info_args@) + without(vr.skip(i + 1), url@) =~= before + without(
                    vr.skip(i as int),
                    url@,
                ));
                i = i + 1;
            }
            assert(vr.skip(rest.len() as int) =~= Seq::<Seq<char>>::empty());
            assert(views(info_args@) + Seq::<Seq<char>>::empty() =~= views(info_args@));
            Route::InfoUrl(info_args)
        } else {
            Route::BadUsage
        }
    }
}

// ── Subcommand arguments ───────────────────────────────────────────────────

/// Whether any argument equals `long` or `short`.
pub fn has_flag(args: &[String], long: &str, short: &str) -> (r: bool)
    ensures
        r == exists|i: int| 0 <= i < args@.len() && (args@[i]@ == long@ || args@[i]@ == short@),
{
    let mut i: usize = 0;
    while i < args.len()
        invariant
            i <= args.len(),
            forall|j: int| 0 <= j < i ==> !(args@[j]@ == long@ || args@[j]@ == short@),
        decreases args.len() - i,
    {
        if str_eq(args[i].as_str(), long) || str_eq(args[i].as_str(), short) {
            return true;
        }
        i = i + 1;
    }
    false
}

/// The last assignment that the `--url`/`-u` flags of `update-keys` make:
/// each takes the token after it, or no value when it is the last token.
/// `None` when no such flag occurs.
pub open spec fn url_assignment(args: Seq<Seq<char>>) -> Option<Option<Seq<char>>>
    decreases args.len(),
{
    if args.len() == 0 {
        None
    } else if args[0] == "--url"@ || args[0] == "-u"@ {
        if args.len() < 2 {
            Some(None)
        } else {
            let r = url_assignment(args.skip(2));
            if r is Some {
                r
            } else {
                Some(Some(args[1]))
            }
        }
    } else {
        url_assignment(args.skip(1))
    }
}

/// The key-database URL that `update-keys` is given, if any.
pub open spec fn update_keys_url(args: Seq<Seq<char>>) -> Option<Seq<char>> {
    match url_assignment(args) {
        Some(v) => v,
        None => None,
    }
}

pub fn parse_update_keys(args: &[String]) -> (r: Option<String>)
    ensures
        r matches Some(u) ==> update_keys_url(views(args@)) == Some(u@),
        r is None ==> update_keys_url(views(args@)) is None,
{
    let ghost all = views(args@);
    let mut url: Option<String> = None;
    let ghost mut assigned = false;
    let mut i: usize = 0;
    assert(all.skip(0) =~= all);
    while i < args.len()
        invariant
            i <= args.len(),
            all == views(args@),
            url_assignment(all) == (if url_assignment(all.skip(i as int)) is Some {
                url_assignment(all.skip(i as int))
            } else if assigned {
                Some(
                    match url {
                        Some(u) => Some(u@),
                        None => None,
                    },
                )
            } else {
                None
            }),
            !assigned ==> url is None,
        decreases args.len() - i,
    {
        let ghost rest = all.skip(i as int);
        let a = &args[i];
        assert(rest[0] == a@);
        assert(rest.skip(1) =~= all.skip(i + 1));
        if str_eq(a.as_str(), "--url") || str_eq(a.as_str(), "-u") {
            proof {
                assigned = true;
            }
            if i + 1 < args.len() {
                assert(rest[1] == args@[i + 1]@);
                assert(rest.skip(2) =~= all.skip(i + 2));
                url = Some(args[i + 1].clone());
                i = i + 2;
            } else {
                url = None;
                i = args.len();
                assert(all.skip(i as int) =~= Seq::<Seq<char>>::empty());
            }
        } else {
            i = i + 1;
        }
    }
    assert(all.skip(args.len() as int) =~= Seq::<Seq<char>>::empty());
    url
}


// ── `info <url>` ───────────────────────────────────────────────────────────

/// What `info <url> [flags]` does.
#[derive(Debug)]
pub enum InfoPlan {
    /// No URL: print the usage line and fail.
    Usage,
    /// A drive URL with `--share`/`-s`: the drive report, given these arguments.
    DriveReport(Vec<String>),
    /// A drive URL: the disc listing, given these arguments.
    DiscListing(Vec<String>),
    /// An ISO image: list its titles, every one of them when `full`.
    IsoListing { full: bool },
    /// An MKV or M2TS file: show its streams.
    FileInfo,
    /// Not a `scheme://` URL.
    InvalidUrl,
    /// A stream with no info to show.
    Unsupported,
}

/// Whether some argument equals `long` or `short`.
pub open spec fn any_flag(args: Seq<Seq<char>>, long: Seq<char>, short: Seq<char>) -> bool {
    exists|i: int| 0 <= i < args.len() && (args[i] == long || args[i] == short)
}

/// The arguments handed to a drive command: `-d <device>` when the URL names
/// a device, then the flags after the URL.
pub open spec fn drive_args(device: Option<Seq<char>>, rest: Seq<Seq<char>>) -> Seq<Seq<char>> {
    (match device {
        Some(d) => seq!["-d"@, d],
        None => Seq::empty(),
    }) + rest
}

pub open spec fn info_plan_spec(
    args: Seq<Seq<char>>,
    kind: UrlKind,
    device: Option<Seq<char>>,
    r: InfoPlan,
) -> bool {
    if args.len() == 0 {
        r is Usage
    } else {
        match kind {
            UrlKind::Disc => {
                let da = drive_args(device, args.skip(1));
                if any_flag(da, "--share"@, "-s"@) {
                    r matches InfoPlan::DriveReport(a) && views(a@) == da
                } else {
                    r matches InfoPlan::DiscListing(a) && views(a@) == da
                }
            },
            UrlKind::Iso => r matches InfoPlan::IsoListing { full } && full == any_flag(
                args.skip(1),
                "--full"@,
                "-f"@,
            ),
            UrlKind::Mkv | UrlKind::M2ts => r is FileInfo,
            UrlKind::Unknown => r is InvalidUrl,
            _ => r is Unsupported,
        }
    }
}

/// Decide what `info` does with its arguments (the URL first), given the
/// kind of the URL and the device a drive URL names.
pub fn info_plan(args: &[String], kind: UrlKind, device: &Option<String>) -> (r: InfoPlan)
    ensures
        info_plan_spec(
            views(args@),
            kind,
            match device {
                Some(d) => Some(d@),
                None => None,
            },
            r,
        ),
{
    if args.len() == 0 {
        return InfoPlan::Usage;
    }
    match kind {
        UrlKind::Disc => {
            let mut da: Vec<String> = Vec::new();
            if let Some(d) = device {
                da.push(string_from("-d"));
                da.push(d.clone());
            }
            let ghost head = views(da@);
            assert(head =~= (match device {
                Some(d) => seq!["-d"@, d@],
                None => Seq::<Seq<char>>::empty(),
            }));
            let rest = tail_from(args, 1);
            let mut i: usize = 0;
            while i < rest.len()
                invariant
                    i <= rest.len(),
                    views(da@) == head + views(rest@).take(i as int),
                decreases rest.len() - i,
            {
                let ghost before = views(da@);
                da.push(rest[i].clone());
                assert(views(da@) =~= before.push(rest@[i as int]@));
                assert(views(rest@).take(i + 1) =~= views(rest@).take(i as int).push(
                    rest@[i as int]@,
                ));
                i = i + 1;
                assert(views(da@) =~= head + views(rest@).take(i as int));
            }
            assert(views(rest@).take(rest.len() as int) =~= views(rest@));
            let share = has_flag(da.as_slice(), "--share", "-s");
            proof {
                let dv = views(da@);
                if share {
                    let i = choose|i: int|
                        0 <= i < da@.len() && (da@[i]@ == "--share"@ || da@[i]@ == "-s"@);
                    assert(dv[i] == da@[i]@);
                } else {
                    assert forall|i: int| 0 <= i < dv.len() implies !(dv[i] == "--share"@ || dv[i]
                        == "-s"@) by {
                        assert(dv[i] == da@[i]@);
                    }
                }
            }
            if share {
                InfoPlan::DriveReport(da)
            } else {
                InfoPlan::DiscListing(da)
            }
        },
        UrlKind::Iso => {
            let rest = tail_from(args, 1);
            let full = has_flag(rest.as_slice(), "--full", "-f");
            proof {
                let rv = views(rest@);
                if full {
                    let i = choose|i: int|
                        0 <= i < rest@.len() && (rest@[i]@ == "--full"@ || rest@[i]@ == "-f"@);
                    assert(rv[i] == rest@[i]@);
                } else {
                    assert forall|i: int| 0 <= i < rv.len() implies !(rv[i] == "--full"@ || rv[i]
                        == "-f"@) by {
                        assert(rv[i] == rest@[i]@);
                    }
                }
            }
            InfoPlan::IsoListing { full }
        },
        UrlKind::Mkv | UrlKind::M2ts => InfoPlan::FileInfo,
        UrlKind::Unknown => InfoPlan::InvalidUrl,
        _ => InfoPlan::Unsupported,
    }
}


// ── The fatal-error block ──────────────────────────────────────────────────

/// The two lines of the fatal-error block after its leading mark: the
/// operation (looked up by `op_key`) that failed with its cause, ending in a
/// full stop, and the hint on how to get a diagnostic log.
pub fn fatal_text(op_key: &str, cause: &str) -> (r: (String, String))
    ensures
        r.0@ == fill_args(
            message("error.fatal_header"@),
            seq![("op"@, message(op_key@)), ("cause"@, cause@)],
        ) + "."@,
        r.1@ == "  "@ + message("error.fatal_diagnostic_hint"@),
{
    let op = get(op_key);
    let args = vec![("op", op.as_str()), ("cause", cause)];
    let header = fmt("error.fatal_header", args.as_slice());
    assert(arg_views(args@) =~= seq![("op"@, message(op_key@)), ("cause"@, cause@)]);
    let mut h = chars_of(header.as_str());
    push_str(&mut h, ".");
    let mut hint = chars_of("  ");
    push_str(&mut hint, get("error.fatal_diagnostic_hint").as_str());
    (string_of(&h), string_of(&hint))
}

} // verus!
