//! The disc title list: one row per title (playlist, duration, size, clips)
//! and, unless basic, the title's video, audio and subtitle streams aligned
//! under localized labels.
use vstd::prelude::*;
use crate::lang::{lang_name, lang_name_spec, lower_of, str_to_lowercase, upper_of};
use crate::strings::{fill_args, message};
use crate::text::{
    chars_of, dec, parse_unsigned, parse_unsigned_str, str_eq, fill, fmt_dec, fmt_hex, has_prefix, hex, is_whitespace, is_ws, join, join_chars, pad_left,
    pad_right, padded_left, padded_right, push_all, push_str, sep_tail, spaces, string_of, views,
};

verus! {

// ── Stream model ───────────────────────────────────────────────────────────

/// A stream codec as the title list names it.
#[derive(Debug)]
pub enum Codec {
    Ac3,
    Ac3Plus,
    DvdSub,
    /// An unrecognized stream type byte.
    Unknown(u8),
    /// Any other codec, by its library name (e.g. `HEVC`, `TrueHD`).
    Named(String),
}

/// A video stream's dynamic range.
#[derive(Debug)]
pub enum Hdr {
    Sdr,
    /// Dolby Vision, with its display name.
    DolbyVision(String),
    /// Any other HDR format, with its display name.
    Other(String),
}

#[derive(Debug, Clone, Copy, PartialEq, Eq)]
pub enum Purpose {
    Normal,
    Commentary,
    Descriptive,
    Score,
    Ime,
}

#[derive(Debug, Clone, Copy, PartialEq, Eq)]
pub enum Qualifier {
    Unqualified,
    Forced,
    Sdh,
    DescriptiveService,
}

#[derive(Debug)]
pub struct VideoStream {
    pub pid: u16,
    pub codec: Codec,
    /// Display text of the resolution (e.g. `2160p`).
    pub resolution: String,
    /// Display text of the frame rate; `None` when unknown.
    pub frame_rate: Option<String>,
    pub hdr: Hdr,
    /// Whether the colour space is BT.2020.
    pub bt2020: bool,
    pub secondary: bool,
    pub label: String,
}

#[derive(Debug)]
pub struct AudioStream {
    pub pid: u16,
    pub codec: Codec,
    /// Display text of the channel layout (e.g. `5.1`).
    pub channels: String,
    /// ISO 639 language code.
    pub language: String,
    /// Display text of the sample rate.
    pub sample_rate: String,
    pub secondary: bool,
    pub purpose: Purpose,
    pub label: String,
}

#[derive(Debug)]
pub struct SubtitleStream {
    /// ISO 639 language code.
    pub language: String,
    pub forced: bool,
    pub qualifier: Qualifier,
}

#[derive(Debug)]
pub enum Stream {
    Video(VideoStream),
    Audio(AudioStream),
    Subtitle(SubtitleStream),
}

/// One title of a scanned disc.
#[derive(Debug)]
pub struct Title {
    pub playlist: String,
    /// The duration, truncated to whole seconds.
    pub duration_secs: u64,
    /// The size in decimal GB with one decimal place (e.g. `53.7`).
    pub size_gb: String,
    pub clip_count: usize,
    pub streams: Vec<Stream>,
}

/// The titles of a scanned disc.
#[derive(Debug)]
pub struct Disc {
    pub titles: Vec<Title>,
}

// ── Stream text ────────────────────────────────────────────────────────────

pub open spec fn codec_text(c: Codec) -> Seq<char> {
    match c {
        Codec::Ac3 => "DD"@,
        Codec::Ac3Plus => "DD+"@,
        Codec::DvdSub => "DVD Sub"@,
        Codec::Unknown(ct) => seq!['0', 'x'] + pad_left(hex(ct as nat, false), 2, '0'),
        Codec::Named(n) => n@,
    }
}

pub fn codec_name(c: &Codec) -> (r: String)
    ensures
        r@ == codec_text(*c),
{
    match c {
        Codec::Ac3 => crate::text::string_from("DD"),
        Codec::Ac3Plus => crate::text::string_from("DD+"),
        Codec::DvdSub => crate::text::string_from("DVD Sub"),
        Codec::Unknown(ct) => {
            let mut v: Vec<char> = Vec::new();
            v.push('0');
            v.push('x');
            let h = fmt_hex(*ct as u64, false);
            let p = padded_left(&h, 2, '0');
            push_all(&mut v, &p);
            assert(v@ =~= seq!['0', 'x'] + pad_left(hex(*ct as nat, false), 2, '0'));
            string_of(&v)
        },
        Codec::Named(n) => n.clone(),
    }
}

/// The catalog key of an audio purpose; `Normal` has none.
pub open spec fn purpose_key_spec(p: Purpose) -> Option<Seq<char>> {
    match p {
        Purpose::Commentary => Some("stream.purpose.commentary"@),
        Purpose::Descriptive => Some("stream.purpose.descriptive"@),
        Purpose::Score => Some("stream.purpose.score"@),
        Purpose::Ime => Some("stream.purpose.ime"@),
        Purpose::Normal => None,
    }
}

pub fn purpose_key(p: Purpose) -> (r: Option<&'static str>)
    ensures
        r matches Some(k) ==> purpose_key_spec(p) == Some(k@),
        r is None ==> purpose_key_spec(p) is None,
{
    match p {
        Purpose::Commentary => Some("stream.purpose.commentary"),
        Purpose::Descriptive => Some("stream.purpose.descriptive"),
        Purpose::Score => Some("stream.purpose.score"),
        Purpose::Ime => Some("stream.purpose.ime"),
        Purpose::Normal => None,
    }
}

/// The catalog key of a subtitle qualifier. `Forced` is shown through the
/// forced flag instead, so it has none.
pub open spec fn qualifier_key_spec(q: Qualifier) -> Option<Seq<char>> {
    match q {
        Qualifier::Sdh => Some("stream.qualifier.sdh"@),
        Qualifier::DescriptiveService => Some("stream.qualifier.descriptive_service"@),
        Qualifier::Unqualified | Qualifier::Forced => None,
    }
}

pub fn qualifier_key(q: Qualifier) -> (r: Option<&'static str>)
    ensures
        r matches Some(k) ==> qualifier_key_spec(q) == Some(k@),
        r is None ==> qualifier_key_spec(q) is None,
{
    match q {
        Qualifier::Sdh => Some("stream.qualifier.sdh"),
        Qualifier::DescriptiveService => Some("stream.qualifier.descriptive_service"),
        Qualifier::Unqualified | Qualifier::Forced => None,
    }
}

/// `[PID 0xNNNN]`, four upper-case hex digits.
pub open spec fn pid_text(pid: u16) -> Seq<char> {
    "[PID 0x"@ + pad_left(hex(pid as nat, true), 4, '0') + "]"@
}

fn pid_tag(pid: u16) -> (r: Vec<char>)
    ensures
        r@ == pid_text(pid),
{
    let mut v = chars_of("[PID 0x");
    let h = fmt_hex(pid as u64, true);
    let p = padded_left(&h, 4, '0');
    push_all(&mut v, &p);
    push_str(&mut v, "]");
    v
}

pub open spec fn opt_part(b: bool, p: Seq<char>) -> Seq<Seq<char>> {
    if b {
        seq![p]
    } else {
        Seq::empty()
    }
}

/// The words of a video stream's line, before joining with spaces.
pub open spec fn video_parts(v: VideoStream, verbose: bool) -> Seq<Seq<char>> {
    seq![codec_text(v.codec), v.resolution@] + rate_part(v) + hdr_part(v) + opt_part(
        v.bt2020,
        "BT.2020"@,
    ) + secondary_part(v) + opt_part(verbose, pid_text(v.pid))
}

pub open spec fn rate_part(v: VideoStream) -> Seq<Seq<char>> {
    match v.frame_rate {
        Some(f) => seq![f@ + "fps"@],
        None => Seq::empty(),
    }
}

pub open spec fn hdr_part(v: VideoStream) -> Seq<Seq<char>> {
    match v.hdr {
        Hdr::Sdr => Seq::empty(),
        Hdr::DolbyVision(n) => seq![n@],
        Hdr::Other(n) => seq![n@],
    }
}

/// A secondary Dolby Vision stream is the enhancement layer; another
/// secondary stream shows its label.
pub open spec fn secondary_part(v: VideoStream) -> Seq<Seq<char>> {
    if v.secondary && v.hdr is DolbyVision {
        seq![message("disc.dolby_vision_el"@)]
    } else if v.secondary && v.label@.len() > 0 {
        seq![v.label@]
    } else {
        Seq::empty()
    }
}

pub open spec fn video_text(v: VideoStream, verbose: bool) -> Seq<char> {
    join(video_parts(v, verbose), seq![' '])
}

fn push_part(parts: &mut Vec<Vec<char>>, p: Vec<char>)
    ensures
        final(parts)@.map_values(|x: Vec<char>| x@) == old(parts)@.map_values(|x: Vec<char>| x@).push(p@),
{
    parts.push(p);
    assert(parts@.map_values(|x: Vec<char>| x@) =~= old(parts)@.map_values(|x: Vec<char>| x@).push(p@));
}

fn space() -> (r: Vec<char>)
    ensures
        r@ == seq![' '],
{
    let mut v: Vec<char> = Vec::new();
    v.push(' ');
    assert(v@ =~= seq![' ']);
    v
}

pub fn format_video(v: &VideoStream, verbose: bool) -> (r: String)
    ensures
        r@ == video_text(*v, verbose),
{
    let mut parts: Vec<Vec<char>> = Vec::new();
    push_part(&mut parts, chars_of(codec_name(&v.codec).as_str()));
    push_part(&mut parts, chars_of(v.resolution.as_str()));
    let ghost p0 = parts@.map_values(|x: Vec<char>| x@);
    assert(p0 =~= seq![codec_text(v.codec), v.resolution@]);
    match &v.frame_rate {
        Some(f) => {
            let mut t = chars_of(f.as_str());
            push_str(&mut t, "fps");
            push_part(&mut parts, t);
        },
        None => {},
    }
    let ghost p1 = parts@.map_values(|x: Vec<char>| x@);
    match &v.hdr {
        Hdr::Sdr => {},
        Hdr::DolbyVision(n) => push_part(&mut parts, chars_of(n.as_str())),
        Hdr::Other(n) => push_part(&mut parts, chars_of(n.as_str())),
    }
    let ghost p2 = parts@.map_values(|x: Vec<char>| x@);
    if v.bt2020 {
        push_part(&mut parts, chars_of("BT.2020"));
    }
    let ghost p3 = parts@.map_values(|x: Vec<char>| x@);
    let is_dv = match &v.hdr {
        Hdr::DolbyVision(_) => true,
        _ => false,
    };
    if v.secondary && is_dv {
        push_part(&mut parts, chars_of(crate::strings::get("disc.dolby_vision_el").as_str()));
    } else if v.secondary && !v.label.as_str().is_empty() {
        push_part(&mut parts, chars_of(v.label.as_str()));
    }
    let ghost p4 = parts@.map_values(|x: Vec<char>| x@);
    if verbose {
        push_part(&mut parts, pid_tag(v.pid));
    }
    proof {
        let fr = rate_part(*v);
        assert(p1 =~= p0 + fr);
        let hd = hdr_part(*v);
        assert(p2 =~= p0 + fr + hd);
        assert(p3 =~= p0 + fr + hd + opt_part(v.bt2020, "BT.2020"@));
        let sec = secondary_part(*v);
        assert(p4 =~= p0 + fr + hd + opt_part(v.bt2020, "BT.2020"@) + sec);
        assert(parts@.map_values(|x: Vec<char>| x@) =~= video_parts(*v, verbose));
    }
    let r = join_chars(&parts, &space());
    string_of(&r)
}

/// `sep` before each element of `a + b` is that of `a`, then that of `b`.
proof fn lemma_sep_tail_append(a: Seq<Seq<char>>, b: Seq<Seq<char>>, sep: Seq<char>)
    ensures
        sep_tail(a + b, sep) == sep_tail(a, sep) + sep_tail(b, sep),
    decreases a.len(),
{
    if a.len() == 0 {
        assert(a + b =~= b);
        assert(sep_tail(a, sep) + sep_tail(b, sep) =~= sep_tail(b, sep));
    } else {
        assert((a + b)[0] == a[0]);
        assert((a + b).skip(1) =~= a.skip(1) + b);
        lemma_sep_tail_append(a.skip(1), b, sep);
        assert(sep_tail(a + b, sep) =~= sep_tail(a, sep) + sep_tail(b, sep));
    }
}

/// The first words of a video stream's line: the codec, the resolution and,
/// when known, the frame rate with `fps`, each after a single space.
pub open spec fn video_lead(v: VideoStream) -> Seq<char> {
    codec_text(v.codec) + seq![' '] + v.resolution@ + match v.frame_rate {
        Some(f) => seq![' '] + f@ + "fps"@,
        None => Seq::empty(),
    }
}

/// `t` starts with `lead`, a space and the word `w`, and `w` ends there: the
/// line ends or a space follows.
pub open spec fn word_after(t: Seq<char>, lead: Seq<char>, w: Seq<char>) -> bool {
    let p = lead + seq![' '] + w;
    &&& has_prefix(t, p)
    &&& (t.len() == p.len() || t[p.len() as int] == ' ')
}

/// The line of a stream that is not SDR names its HDR format: the word after
/// the codec, the resolution and the frame rate is the format's display
/// name, for Dolby Vision as for any other HDR format.
/// Joining `head + tail` is joining `head`, then a separator before each
/// element of `tail`.
proof fn lemma_join_split(head: Seq<Seq<char>>, tail: Seq<Seq<char>>, sep: Seq<char>)
    requires
        head.len() > 0,
    ensures
        join(head + tail, sep) == join(head, sep) + sep_tail(tail, sep),
{
    assert((head + tail)[0] == head[0]);
    assert((head + tail).skip(1) =~= head.skip(1) + tail);
    lemma_sep_tail_append(head.skip(1), tail, sep);
    assert(join(head + tail, sep) =~= join(head, sep) + sep_tail(tail, sep));
}

/// A separator before each element: the text starts with the separator
/// unless there is no element.
proof fn lemma_sep_tail_starts_with_sep(parts: Seq<Seq<char>>, sep: Seq<char>)
    requires
        parts.len() > 0,
        sep.len() > 0,
    ensures
        sep_tail(parts, sep).len() > 0,
        sep_tail(parts, sep)[0] == sep[0],
{
    assert(sep_tail(parts, sep) == sep + parts[0] + sep_tail(parts.skip(1), sep));
}

proof fn lemma_join_three(a: Seq<char>, b: Seq<char>, c: Seq<char>, sep: Seq<char>)
    ensures
        join(seq![a, b, c], sep) == a + sep + b + sep + c,
{
    let e = Seq::<Seq<char>>::empty();
    assert(seq![a, b, c].skip(1) =~= seq![b, c]);
    assert(seq![b, c].skip(1) =~= seq![c]);
    assert(seq![c].skip(1) =~= e);
    assert(sep_tail(e, sep) =~= Seq::<char>::empty());
    assert(sep_tail(seq![c], sep) =~= sep + c);
    assert(sep_tail(seq![b, c], sep) =~= sep + b + (sep + c));
}

proof fn lemma_join_four(a: Seq<char>, b: Seq<char>, c: Seq<char>, d: Seq<char>, sep: Seq<char>)
    ensures
        join(seq![a, b, c, d], sep) == a + sep + b + sep + c + sep + d,
{
    let e = Seq::<Seq<char>>::empty();
    assert(seq![a, b, c, d].skip(1) =~= seq![b, c, d]);
    assert(seq![b, c, d].skip(1) =~= seq![c, d]);
    assert(seq![c, d].skip(1) =~= seq![d]);
    assert(seq![d].skip(1) =~= e);
    assert(sep_tail(e, sep) =~= Seq::<char>::empty());
    assert(sep_tail(seq![d], sep) =~= sep + d);
    assert(sep_tail(seq![c, d], sep) =~= sep + c + (sep + d));
    assert(sep_tail(seq![b, c, d], sep) =~= sep + b + (sep + c + (sep + d)));
}

/// The words of a video line up to the HDR format, joined, are the lead, a
/// space and the format's name.
proof fn lemma_video_head(v: VideoStream, name: Seq<char>)
    requires
        hdr_part(v) == seq![name],
    ensures
        join(seq![codec_text(v.codec), v.resolution@] + rate_part(v) + hdr_part(v), seq![' '])
            == video_lead(v) + seq![' '] + name,
{
    let sp = seq![' '];
    let head = seq![codec_text(v.codec), v.resolution@] + rate_part(v) + hdr_part(v);
    match v.frame_rate {
        Some(f) => {
            let fr = f@ + "fps"@;
            assert(head =~= seq![codec_text(v.codec), v.resolution@, fr, name]);
            lemma_join_four(codec_text(v.codec), v.resolution@, fr, name, sp);
            assert(join(head, sp) =~= video_lead(v) + sp + name);
        },
        None => {
            assert(head =~= seq![codec_text(v.codec), v.resolution@, name]);
            lemma_join_three(codec_text(v.codec), v.resolution@, name, sp);
            assert(join(head, sp) =~= video_lead(v) + sp + name);
        },
    }
}

/// The line of a stream that is not SDR names its HDR format: the word after
/// the codec, the resolution and the frame rate is the format's display
/// name, for Dolby Vision as for any other HDR format.
pub proof fn lemma_video_text_names_hdr(v: VideoStream, verbose: bool)
    ensures
        v.hdr matches Hdr::Other(n) ==> word_after(video_text(v, verbose), video_lead(v), n@),
        v.hdr matches Hdr::DolbyVision(n) ==> word_after(video_text(v, verbose), video_lead(v), n@),
{
    let name: Seq<char> = match v.hdr {
        Hdr::Sdr => Seq::empty(),
        Hdr::DolbyVision(n) => n@,
        Hdr::Other(n) => n@,
    };
    if !(v.hdr is Sdr) {
        let sp = seq![' '];
        let head = seq![codec_text(v.codec), v.resolution@] + rate_part(v) + hdr_part(v);
        let tail = opt_part(v.bt2020, "BT.2020"@) + secondary_part(v) + opt_part(
            verbose,
            pid_text(v.pid),
        );
        assert(hdr_part(v) =~= seq![name]);
        assert(video_parts(v, verbose) =~= head + tail);
        lemma_join_split(head, tail, sp);
        lemma_video_head(v, name);
        let t = video_text(v, verbose);
        let p = video_lead(v) + sp + name;
        let rest = sep_tail(tail, sp);
        assert(t == p + rest);
        assert(t.take(p.len() as int) =~= p);
        if rest.len() > 0 {
            lemma_sep_tail_starts_with_sep(tail, sp);
            assert(t[p.len() as int] == rest[0]);
        } else {
            assert(t.len() == p.len());
        }
    }
}

/// `" (" + tags joined by ", " + ")"`, or nothing when there are no tags.
pub open spec fn tags_suffix(tags: Seq<Seq<char>>) -> Seq<char> {
    if tags.len() == 0 {
        Seq::empty()
    } else {
        " ("@ + join(tags, ", "@) + ")"@
    }
}

fn push_tags(s: &mut Vec<char>, tags: &Vec<Vec<char>>)
    ensures
        final(s)@ == old(s)@ + tags_suffix(tags@.map_values(|x: Vec<char>| x@)),
{
    if tags.len() > 0 {
        push_str(s, " (");
        let sep = chars_of(", ");
        let j = join_chars(tags, &sep);
        push_all(s, &j);
        push_str(s, ")");
    }
}

pub open spec fn purpose_part(p: Purpose) -> Seq<Seq<char>> {
    match purpose_key_spec(p) {
        Some(k) => seq![message(k)],
        None => Seq::empty(),
    }
}

pub open spec fn audio_tags(a: AudioStream) -> Seq<Seq<char>> {
    purpose_part(a.purpose) + opt_part(a.secondary, message("stream.secondary"@)) + opt_part(
        a.label@.len() > 0,
        a.label@,
    )
}

pub open spec fn audio_text(a: AudioStream, verbose: bool) -> Seq<char> {
    lang_name_spec(a.language@) + " "@ + codec_text(a.codec) + " "@ + a.channels@ + (if verbose {
        " "@ + a.sample_rate@ + " "@ + pid_text(a.pid)
    } else {
        Seq::empty()
    }) + tags_suffix(audio_tags(a))
}

pub fn format_audio(a: &AudioStream, verbose: bool) -> (r: String)
    ensures
        r@ == audio_text(*a, verbose),
{
    let mut s = chars_of(lang_name(a.language.as_str()).as_str());
    push_str(&mut s, " ");
    push_str(&mut s, codec_name(&a.codec).as_str());
    push_str(&mut s, " ");
    push_str(&mut s, a.channels.as_str());
    if verbose {
        push_str(&mut s, " ");
        push_str(&mut s, a.sample_rate.as_str());
        push_str(&mut s, " ");
        let p = pid_tag(a.pid);
        push_all(&mut s, &p);
    }
    let ghost head = s@;
    let mut tags: Vec<Vec<char>> = Vec::new();
    match purpose_key(a.purpose) {
        Some(k) => push_part(&mut tags, chars_of(crate::strings::get(k).as_str())),
        None => {},
    }
    let ghost t1 = tags@.map_values(|x: Vec<char>| x@);
    if a.secondary {
        push_part(&mut tags, chars_of(crate::strings::get("stream.secondary").as_str()));
    }
    let ghost t2 = tags@.map_values(|x: Vec<char>| x@);
    if !a.label.as_str().is_empty() {
        push_part(&mut tags, chars_of(a.label.as_str()));
    }
    proof {
        let pk = purpose_part(a.purpose);
        assert(t1 =~= pk);
        assert(t2 =~= pk + opt_part(a.secondary, message("stream.secondary"@)));
        assert(tags@.map_values(|x: Vec<char>| x@) =~= audio_tags(*a));
    }
    push_tags(&mut s, &tags);
    proof {
        if verbose {
            assert(head =~= lang_name_spec(a.language@) + " "@ + codec_text(a.codec) + " "@
                + a.channels@ + (" "@ + a.sample_rate@ + " "@ + pid_text(a.pid)));
        } else {
            assert(head =~= lang_name_spec(a.language@) + " "@ + codec_text(a.codec) + " "@
                + a.channels@ + Seq::<char>::empty());
        }
        assert(s@ =~= audio_text(*a, verbose));
    }
    string_of(&s)
}

pub open spec fn subtitle_tags(s: SubtitleStream) -> Seq<Seq<char>> {
    opt_part(s.forced, message("disc.forced"@)) + (match qualifier_key_spec(s.qualifier) {
        Some(k) => seq![message(k)],
        None => Seq::empty(),
    })
}

pub open spec fn subtitle_text(s: SubtitleStream) -> Seq<char> {
    lang_name_spec(s.language@) + tags_suffix(subtitle_tags(s))
}

pub fn format_subtitle(s: &SubtitleStream) -> (r: String)
    ensures
        r@ == subtitle_text(*s),
{
    let mut out = chars_of(lang_name(s.language.as_str()).as_str());
    let mut tags: Vec<Vec<char>> = Vec::new();
    if s.forced {
        push_part(&mut tags, chars_of(crate::strings::get("disc.forced").as_str()));
    }
    let ghost t1 = tags@.map_values(|x: Vec<char>| x@);
    match qualifier_key(s.qualifier) {
        Some(k) => push_part(&mut tags, chars_of(crate::strings::get(k).as_str())),
        None => {},
    }
    proof {
        assert(t1 =~= opt_part(s.forced, message("disc.forced"@)));
        assert(tags@.map_values(|x: Vec<char>| x@) =~= subtitle_tags(*s));
    }
    push_tags(&mut out, &tags);
    string_of(&out)
}

// ── Label alignment ────────────────────────────────────────────────────────

/// Column at which a stream's value text starts, given its label: the
/// 6-space lead, the label, the colon and a 2-space gap.
pub open spec fn label_indent_spec(label: Seq<char>) -> nat {
    6 + label.len() + 1 + 2
}

pub fn label_indent(label: &str) -> (r: usize)
    requires
        label@.len() + 9 <= usize::MAX,
    ensures
        r == label_indent_spec(label@),
{
    let n = chars_of(label).len();
    6 + n + 1 + 2
}

/// The 6-space lead, the label and a colon.
pub open spec fn label_head(label: Seq<char>) -> Seq<char> {
    "      "@ + label + ":"@
}

/// First-line prefix for a stream group: the head, padded with spaces so the
/// value text begins at `indent` (no padding when the head is wider).
pub open spec fn label_prefix_spec(label: Seq<char>, indent: nat) -> Seq<char> {
    pad_right(label_head(label), indent)
}

pub fn label_prefix(label: &str, indent: usize) -> (r: String)
    ensures
        r@ == label_prefix_spec(label@, indent as nat),
{
    let mut head = chars_of("      ");
    push_str(&mut head, label);
    push_str(&mut head, ":");
    let p = padded_right(&head, indent);
    string_of(&p)
}

/// Stream values line up: padded to an indent at least as wide as its own
/// label's, a group's first-line prefix is exactly `indent` characters long,
/// starts with the lead, the label and the colon, and ends in at least the
/// two-space gap.
pub proof fn lemma_label_alignment(label: Seq<char>, indent: nat)
    requires
        indent >= label_indent_spec(label),
    ensures
        label_prefix_spec(label, indent).len() == indent,
        label_prefix_spec(label, indent).take(label_head(label).len() as int) == label_head(label),
        forall|i: int|
            label_head(label).len() <= i < indent ==> #[trigger] label_prefix_spec(label, indent)[i]
                == ' ',
        indent - label_head(label).len() >= 2,
{
    let h = label_head(label);
    reveal_strlit("      ");
    reveal_strlit(":");
    assert(h.len() == 6 + label.len() + 1);
    assert(label_prefix_spec(label, indent) == h + fill((indent - h.len()) as nat, ' '));
    assert(label_prefix_spec(label, indent).take(h.len() as int) =~= h);
}

// ── Title list ─────────────────────────────────────────────────────────────

pub open spec fn video_texts(ss: Seq<Stream>, verbose: bool) -> Seq<Seq<char>>
    decreases ss.len(),
{
    if ss.len() == 0 {
        Seq::empty()
    } else {
        (match ss[0] {
            Stream::Video(v) => seq![video_text(v, verbose)],
            _ => Seq::empty(),
        }) + video_texts(ss.skip(1), verbose)
    }
}

pub open spec fn audio_texts(ss: Seq<Stream>, verbose: bool) -> Seq<Seq<char>>
    decreases ss.len(),
{
    if ss.len() == 0 {
        Seq::empty()
    } else {
        (match ss[0] {
            Stream::Audio(a) => seq![audio_text(a, verbose)],
            _ => Seq::empty(),
        }) + audio_texts(ss.skip(1), verbose)
    }
}

pub open spec fn subtitle_texts(ss: Seq<Stream>) -> Seq<Seq<char>>
    decreases ss.len(),
{
    if ss.len() == 0 {
        Seq::empty()
    } else {
        (match ss[0] {
            Stream::Subtitle(s) => seq![subtitle_text(s)],
            _ => Seq::empty(),
        }) + subtitle_texts(ss.skip(1))
    }
}

/// A stream group: a blank separator, then the first line after the label
/// prefix and the others indented to the same column. Nothing when empty.
pub open spec fn stream_section(label: Seq<char>, indent: nat, lines: Seq<Seq<char>>) -> Seq<
    Seq<char>,
> {
    if lines.len() == 0 {
        Seq::empty()
    } else {
        seq![Seq::<char>::empty()] + Seq::new(
            lines.len(),
            |i: int|
                if i == 0 {
                    label_prefix_spec(label, indent) + lines[0]
                } else {
                    fill(indent, ' ') + lines[i]
                },
        )
    }
}

/// The row of title number `num` (1-based):
/// `  {num:2}. {playlist:14}  {hours}h {mins:02}m  {size:>5} GB  {clips} {word}`.
pub open spec fn title_row(num: nat, t: Title) -> Seq<char> {
    let hours = t.duration_secs as nat / 3600;
    let mins = (t.duration_secs as nat % 3600) / 60;
    "  "@ + pad_left(dec(num), 2, ' ') + ". "@ + pad_right(t.playlist@, 14) + "  "@ + dec(hours)
        + "h "@ + pad_left(dec(mins), 2, '0') + "m  "@ + pad_left(t.size_gb@, 5, ' ')
        + " GB  "@ + dec(t.clip_count as nat) + " "@ + (if t.clip_count != 1 {
        message("disc.clips"@)
    } else {
        message("disc.clip"@)
    })
}

/// The lines of one title: its row and, unless basic, its stream groups and
/// a closing blank line.
pub open spec fn title_block(num: nat, t: Title, verbose: bool, basic: bool, indent: nat) -> Seq<
    Seq<char>,
> {
    seq![title_row(num, t)] + if basic {
        Seq::empty()
    } else {
        stream_section(message("disc.video"@), indent, video_texts(t.streams@, verbose))
            + stream_section(message("disc.audio"@), indent, audio_texts(t.streams@, verbose))
            + stream_section(message("disc.subtitle"@), indent, subtitle_texts(t.streams@))
            + seq![Seq::<char>::empty()]
    }
}

/// The blocks of `ts`, numbered from `first`.
pub open spec fn title_blocks(
    ts: Seq<Title>,
    first: nat,
    verbose: bool,
    basic: bool,
    indent: nat,
) -> Seq<Seq<char>>
    decreases ts.len(),
{
    if ts.len() == 0 {
        Seq::empty()
    } else {
        title_block(first, ts[0], verbose, basic, indent) + title_blocks(
            ts.skip(1),
            first + 1,
            verbose,
            basic,
            indent,
        )
    }
}

pub open spec fn max3(a: nat, b: nat, c: nat) -> nat {
    if a >= b && a >= c {
        a
    } else if b >= c {
        b
    } else {
        c
    }
}

/// The shared value column of the stream groups: the widest of the three
/// label indents (none needed in basic mode).
pub open spec fn stream_indent(basic: bool) -> nat {
    if basic {
        0
    } else {
        max3(
            label_indent_spec(message("disc.video"@)),
            label_indent_spec(message("disc.audio"@)),
            label_indent_spec(message("disc.subtitle"@)),
        )
    }
}

/// The full title list: a header, the first five titles (all when `full`),
/// and a "more titles" line when some were left out.
pub open spec fn title_list(ts: Seq<Title>, full: bool, verbose: bool, basic: bool) -> Seq<
    Seq<char>,
> {
    if ts.len() == 0 {
        seq![message("disc.no_titles"@)]
    } else {
        let max: nat = if full {
            ts.len()
        } else {
            5
        };
        let shown = if ts.len() > max {
            ts.take(max as int)
        } else {
            ts
        };
        seq![message("disc.titles"@), Seq::<char>::empty()] + title_blocks(
            shown,
            1,
            verbose,
            basic,
            stream_indent(basic),
        ) + if ts.len() > max {
            seq![
                fill_args(message("disc.more_titles"@), seq![("count"@, dec((ts.len() - max) as nat))]),
                Seq::<char>::empty(),
            ]
        } else {
            Seq::empty()
        }
    }
}

/// In basic mode each title is its row alone.
proof fn lemma_basic_blocks(ts: Seq<Title>, first: nat, verbose: bool, indent: nat)
    ensures
        title_blocks(ts, first, verbose, true, indent).len() == ts.len(),
        forall|k: int|
            0 <= k < ts.len() ==> #[trigger] title_blocks(ts, first, verbose, true, indent)[k]
                == title_row((first + k) as nat, ts[k]),
    decreases ts.len(),
{
    if ts.len() > 0 {
        lemma_basic_blocks(ts.skip(1), first + 1, verbose, indent);
        let b = title_blocks(ts, first, verbose, true, indent);
        let rest = title_blocks(ts.skip(1), first + 1, verbose, true, indent);
        assert(title_block(first, ts[0], verbose, true, indent) =~= seq![title_row(first, ts[0])]);
        assert(b == seq![title_row(first, ts[0])] + rest);
        assert forall|k: int| 0 <= k < ts.len() implies #[trigger] b[k] == title_row(
            (first + k) as nat,
            ts[k],
        ) by {
            if k > 0 {
                assert(b[k] == rest[k - 1]);
                assert(ts.skip(1)[k - 1] == ts[k]);
            }
        }
    }
}

/// The title rows of a list: after the header and a blank line come the
/// rows of the first five titles (of all titles when `full`), numbered from
/// 1; a "more titles" line and a blank line close the list exactly when
/// titles were left out.
#[verifier::spinoff_prover]
#[verifier::rlimit(40)]
pub proof fn lemma_title_rows(ts: Seq<Title>, full: bool, verbose: bool)
    requires
        ts.len() > 0,
    ensures
        ({
            let shown: nat = if full || ts.len() <= 5 {
                ts.len()
            } else {
                5
            };
            let l = title_list(ts, full, verbose, true);
            &&& l.len() == 2 + shown + if shown < ts.len() {
                2nat
            } else {
                0nat
            }
            &&& l[0] == message("disc.titles"@)
            &&& forall|k: int| 0 <= k < shown ==> #[trigger] l[2 + k] == title_row((k + 1) as nat, ts[k])
            &&& shown < ts.len() ==> l[2 + shown as int] == fill_args(
                message("disc.more_titles"@),
                seq![("count"@, dec((ts.len() - 5) as nat))],
            ) && l[3 + shown as int].len() == 0
        }),
{
    let max: nat = if full {
        ts.len()
    } else {
        5
    };
    let shown_ts = if ts.len() > max {
        ts.take(max as int)
    } else {
        ts
    };
    lemma_basic_blocks(shown_ts, 1, verbose, stream_indent(true));
    let l = title_list(ts, full, verbose, true);
    let blocks = title_blocks(shown_ts, 1, verbose, true, stream_indent(true));
    assert forall|k: int| 0 <= k < shown_ts.len() implies #[trigger] l[2 + k] == title_row(
        (k + 1) as nat,
        ts[k],
    ) by {
        assert(l[2 + k] == blocks[k]);
        assert(shown_ts[k] == ts[k]);
    }
    if ts.len() > max {
        assert(l[2 + max as int] == fill_args(
            message("disc.more_titles"@),
            seq![("count"@, dec((ts.len() - max) as nat))],
        ));
        assert(l[3 + max as int] == Seq::<char>::empty());
    }
}

/// The blocks of a list split at any title.
#[verifier::spinoff_prover]
#[verifier::rlimit(40)]
proof fn lemma_blocks_split(
    ts: Seq<Title>,
    first: nat,
    verbose: bool,
    basic: bool,
    indent: nat,
    k: int,
)
    requires
        0 <= k <= ts.len(),
    ensures
        title_blocks(ts, first, verbose, basic, indent) == title_blocks(
            ts.take(k),
            first,
            verbose,
            basic,
            indent,
        ) + title_blocks(ts.skip(k), first + k as nat, verbose, basic, indent),
    decreases k,
{
    if k == 0 {
        assert(ts.take(0) =~= Seq::<Title>::empty());
        assert(ts.skip(0) =~= ts);
    } else {
        lemma_blocks_split(ts.skip(1), first + 1, verbose, basic, indent, k - 1);
        let a = ts.take(k);
        assert(a.len() > 0 && a[0] == ts[0]);
        assert(a.skip(1) =~= ts.skip(1).take(k - 1));
        assert(ts.skip(1).skip(k - 1) =~= ts.skip(k));
        assert(title_blocks(ts, first, verbose, basic, indent) == title_block(
            first,
            ts[0],
            verbose,
            basic,
            indent,
        ) + title_blocks(ts.skip(1), first + 1, verbose, basic, indent));
        assert(title_blocks(a, first, verbose, basic, indent) == title_block(
            first,
            a[0],
            verbose,
            basic,
            indent,
        ) + title_blocks(a.skip(1), first + 1, verbose, basic, indent));
    }
}

/// The start of title `k`'s block among the blocks of `ts`.
pub open spec fn block_start(
    ts: Seq<Title>,
    first: nat,
    verbose: bool,
    basic: bool,
    indent: nat,
    k: int,
) -> int {
    title_blocks(ts.take(k), first, verbose, basic, indent).len() as int
}

/// The title list in any layout: after the header and a blank line, each
/// shown title (the first five, all of them when `full`) has a block that
/// opens with its row, numbered from 1, in order; the blocks are followed by
/// a "more titles" line and a blank line exactly when titles were left out,
/// and by nothing otherwise.
#[verifier::spinoff_prover]
#[verifier::rlimit(40)]
pub proof fn lemma_title_list_rows(ts: Seq<Title>, full: bool, verbose: bool, basic: bool)
    requires
        ts.len() > 0,
    ensures
        ({
            let shown: nat = if full || ts.len() <= 5 {
                ts.len()
            } else {
                5
            };
            let st = ts.take(shown as int);
            let ind = stream_indent(basic);
            let b = title_blocks(st, 1, verbose, basic, ind).len();
            let l = title_list(ts, full, verbose, basic);
            &&& l[0] == message("disc.titles"@)
            &&& l[1].len() == 0
            &&& l.len() == 2 + b + if shown < ts.len() {
                2nat
            } else {
                0nat
            }
            &&& forall|k: int|
                0 <= k < shown ==> #[trigger] l[2 + block_start(st, 1, verbose, basic, ind, k)]
                    == title_row((k + 1) as nat, ts[k])
            &&& forall|k: int|
                0 <= k < shown - 1 ==> #[trigger] block_start(st, 1, verbose, basic, ind, k) < block_start(
                    st,
                    1,
                    verbose,
                    basic,
                    ind,
                    k + 1,
                )
            &&& shown < ts.len() ==> l[2 + b as int] == fill_args(
                message("disc.more_titles"@),
                seq![("count"@, dec((ts.len() - 5) as nat))],
            ) && l[3 + b as int].len() == 0
        }),
{
    let shown: nat = if full || ts.len() <= 5 {
        ts.len()
    } else {
        5
    };
    let st = ts.take(shown as int);
    let ind = stream_indent(basic);
    let blocks = title_blocks(st, 1, verbose, basic, ind);
    let l = title_list(ts, full, verbose, basic);
    let max: nat = if full {
        ts.len()
    } else {
        5
    };
    let shown_ts = if ts.len() > max {
        ts.take(max as int)
    } else {
        ts
    };
    assert(shown_ts =~= st);
    let b = blocks.len();
    assert forall|k: int| 0 <= k < shown implies #[trigger] l[2 + block_start(
        st,
        1,
        verbose,
        basic,
        ind,
        k,
    )] == title_row((k + 1) as nat, ts[k]) by {
        lemma_blocks_split(st, 1, verbose, basic, ind, k);
        let rest = st.skip(k);
        assert(rest[0] == ts[k]);
        let p = block_start(st, 1, verbose, basic, ind, k);
        let tb = title_blocks(rest, (1 + k) as nat, verbose, basic, ind);
        assert(tb == title_block((1 + k) as nat, rest[0], verbose, basic, ind) + title_blocks(
            rest.skip(1),
            (1 + k + 1) as nat,
            verbose,
            basic,
            ind,
        ));
        assert(tb[0] == title_row((k + 1) as nat, ts[k]));
        assert(blocks[p] == tb[0]);
        assert(l[2 + p] == blocks[p]);
    }
    assert forall|k: int| 0 <= k < shown - 1 implies #[trigger] block_start(st, 1, verbose, basic, ind, k)
        < block_start(st, 1, verbose, basic, ind, k + 1) by {
        let a = st.take(k + 1);
        lemma_blocks_split(a, 1, verbose, basic, ind, k);
        assert(a.take(k) =~= st.take(k));
        assert(a.skip(k).len() == 1);
        let last = a.skip(k);
        assert(title_blocks(last, (1 + k) as nat, verbose, basic, ind).len() >= 1);
    }
    if ts.len() > max {
        assert(l[2 + b as int] == fill_args(
            message("disc.more_titles"@),
            seq![("count"@, dec((ts.len() - max) as nat))],
        ));
        assert(l[3 + b as int] == Seq::<char>::empty());
    }
}

fn title_row_exec(num: usize, t: &Title) -> (r: Vec<char>)
    ensures
        r@ == title_row(num as nat, *t),
{
    let hours = t.duration_secs / 3600;
    let mins = (t.duration_secs % 3600) / 60;
    let mut v = chars_of("  ");
    push_all(&mut v, &padded_left(&fmt_dec(num as u64), 2, ' '));
    push_str(&mut v, ". ");
    push_all(&mut v, &padded_right(&chars_of(t.playlist.as_str()), 14));
    push_str(&mut v, "  ");
    push_all(&mut v, &fmt_dec(hours));
    push_str(&mut v, "h ");
    push_all(&mut v, &padded_left(&fmt_dec(mins), 2, '0'));
    push_str(&mut v, "m  ");
    push_all(&mut v, &padded_left(&chars_of(t.size_gb.as_str()), 5, ' '));
    push_str(&mut v, " GB  ");
    push_all(&mut v, &fmt_dec(t.clip_count as u64));
    push_str(&mut v, " ");
    let word = if t.clip_count != 1 {
        crate::strings::get("disc.clips")
    } else {
        crate::strings::get("disc.clip")
    };
    push_str(&mut v, word.as_str());
    v
}

fn push_line(lines: &mut Vec<String>, l: Vec<char>)
    ensures
        views(final(lines)@) == views(old(lines)@).push(l@),
{
    lines.push(string_of(&l));
    assert(views(lines@) =~= views(old(lines)@).push(l@));
}

fn push_section(lines: &mut Vec<String>, label: &str, indent: usize, texts: &Vec<Vec<char>>)
    ensures
        views(final(lines)@) == views(old(lines)@) + stream_section(
            label@,
            indent as nat,
            texts@.map_values(|x: Vec<char>| x@),
        ),
{
    let ghost tv = texts@.map_values(|x: Vec<char>| x@);
    if texts.len() == 0 {
        assert(views(lines@) + stream_section(label@, indent as nat, tv) =~= views(lines@));
        return;
    }
    let ghost start = views(lines@);
    push_line(lines, Vec::new());
    let prefix = chars_of(label_prefix(label, indent).as_str());
    let pad = spaces(indent);
    let mut i: usize = 0;
    while i < texts.len()
        invariant
            i <= texts.len(),
            texts.len() > 0,
            tv == texts@.map_values(|x: Vec<char>| x@),
            prefix@ == label_prefix_spec(label@, indent as nat),
            pad@ == fill(indent as nat, ' '),
            views(lines@) == start + seq![Seq::<char>::empty()] + Seq::new(
                tv.len(),
                |k: int|
                    if k == 0 {
                        label_prefix_spec(label@, indent as nat) + tv[0]
                    } else {
                        fill(indent as nat, ' ') + tv[k]
                    },
            ).take(i as int),
        decreases texts.len() - i,
    {
        let mut l = if i == 0 {
            prefix.clone()
        } else {
            pad.clone()
        };
        push_all(&mut l, &texts[i]);
        let ghost before = views(lines@);
        push_line(lines, l);
        i = i + 1;
        proof {
            let full = Seq::new(
                tv.len(),
                |k: int|
                    if k == 0 {
                        label_prefix_spec(label@, indent as nat) + tv[0]
                    } else {
                        fill(indent as nat, ' ') + tv[k]
                    },
            );
            assert(full.take(i as int) =~= full.take(i - 1).push(full[i - 1]));
        }
    }
    proof {
        let full = Seq::new(
            tv.len(),
            |k: int|
                if k == 0 {
                    label_prefix_spec(label@, indent as nat) + tv[0]
                } else {
                    fill(indent as nat, ' ') + tv[k]
                },
        );
        assert(full.take(texts.len() as int) =~= full);
        assert(start + seq![Seq::<char>::empty()] + full =~= start + (seq![Seq::<char>::empty()]
            + full));
    }
}

fn stream_lines(ss: &Vec<Stream>, verbose: bool, kind: u8) -> (r: Vec<Vec<char>>)
    requires
        kind < 3,
    ensures
        r@.map_values(|x: Vec<char>| x@) == (if kind == 0 {
            video_texts(ss@, verbose)
        } else if kind == 1 {
            audio_texts(ss@, verbose)
        } else {
            subtitle_texts(ss@)
        }),
{
    let ghost goal = if kind == 0 {
        video_texts(ss@, verbose)
    } else if kind == 1 {
        audio_texts(ss@, verbose)
    } else {
        subtitle_texts(ss@)
    };
    let mut r: Vec<Vec<char>> = Vec::new();
    let mut i: usize = 0;
    assert(ss@.skip(0) =~= ss@);
    while i < ss.len()
        invariant
            i <= ss.len(),
            kind < 3,
            goal == (if kind == 0 {
                video_texts(ss@, verbose)
            } else if kind == 1 {
                audio_texts(ss@, verbose)
            } else {
                subtitle_texts(ss@)
            }),
            r@.map_values(|x: Vec<char>| x@) + (if kind == 0 {
                video_texts(ss@.skip(i as int), verbose)
            } else if kind == 1 {
                audio_texts(ss@.skip(i as int), verbose)
            } else {
                subtitle_texts(ss@.skip(i as int))
            }) == goal,
        decreases ss.len() - i,
    {
        let ghost before = r@.map_values(|x: Vec<char>| x@);
        let ghost rest = ss@.skip(i as int);
        assert(rest[0] == ss@[i as int]);
        assert(rest.skip(1) =~= ss@.skip(i + 1));
        match &ss[i] {
            Stream::Video(v) => {
                if kind == 0 {
                    push_part(&mut r, chars_of(format_video(v, verbose).as_str()));
                }
            },
            Stream::Audio(a) => {
                if kind == 1 {
                    push_part(&mut r, chars_of(format_audio(a, verbose).as_str()));
                }
            },
            Stream::Subtitle(s) => {
                if kind == 2 {
                    push_part(&mut r, chars_of(format_subtitle(s).as_str()));
                }
            },
        }
        proof {
            if kind == 0 {
                assert(r@.map_values(|x: Vec<char>| x@) + video_texts(ss@.skip(i + 1), verbose)
                    =~= before + video_texts(rest, verbose));
            } else if kind == 1 {
                assert(r@.map_values(|x: Vec<char>| x@) + audio_texts(ss@.skip(i + 1), verbose)
                    =~= before + audio_texts(rest, verbose));
            } else {
                assert(r@.map_values(|x: Vec<char>| x@) + subtitle_texts(ss@.skip(i + 1))
                    =~= before + subtitle_texts(rest));
            }
        }
        i = i + 1;
    }
    proof {
        assert(ss@.skip(ss.len() as int) =~= Seq::<Stream>::empty());
        assert(r@.map_values(|x: Vec<char>| x@) + Seq::<Seq<char>>::empty() =~= r@.map_values(
            |x: Vec<char>| x@,
        ));
    }
    r
}

fn title_block_exec(
    lines: &mut Vec<String>,
    num: usize,
    t: &Title,
    verbose: bool,
    basic: bool,
    indent: usize,
    labels: &(String, String, String),
)
    requires
        labels.0@ == message("disc.video"@),
        labels.1@ == message("disc.audio"@),
        labels.2@ == message("disc.subtitle"@),
    ensures
        views(final(lines)@) == views(old(lines)@) + title_block(
            num as nat,
            *t,
            verbose,
            basic,
            indent as nat,
        ),
{
    let ghost start = views(lines@);
    push_line(lines, title_row_exec(num, t));
    if basic {
        assert(start.push(title_row(num as nat, *t)) =~= start + title_block(
            num as nat,
            *t,
            verbose,
            basic,
            indent as nat,
        ));
        return;
    }
    let ghost s1 = views(lines@);
    let vt = stream_lines(&t.streams, verbose, 0);
    push_section(lines, labels.0.as_str(), indent, &vt);
    let ghost s2 = views(lines@);
    let at = stream_lines(&t.streams, verbose, 1);
    push_section(lines, labels.1.as_str(), indent, &at);
    let ghost s3 = views(lines@);
    let st = stream_lines(&t.streams, verbose, 2);
    push_section(lines, labels.2.as_str(), indent, &st);
    push_line(lines, Vec::new());
    proof {
        let a = stream_section(message("disc.video"@), indent as nat, video_texts(t.streams@, verbose));
        let b = stream_section(message("disc.audio"@), indent as nat, audio_texts(t.streams@, verbose));
        let c = stream_section(message("disc.subtitle"@), indent as nat, subtitle_texts(t.streams@));
        assert(views(lines@) =~= start.push(title_row(num as nat, *t)) + a + b + c + seq![
            Seq::<char>::empty(),
        ]);
        assert(views(lines@) =~= start + title_block(num as nat, *t, verbose, basic, indent as nat));
    }
}

/// Build the title-list output as lines (empty strings are blank
/// separators): the header, the first five titles (every title when
/// `full`), each with its streams unless `basic`, and a count of the titles
/// left out.
#[verifier::spinoff_prover]
#[verifier::rlimit(50)]
pub fn title_lines(disc: &Disc, full: bool, verbose: bool, basic: bool) -> (r: Vec<String>)
    requires
        disc.titles.len() < usize::MAX,
    ensures
        views(r@) == title_list(disc.titles@, full, verbose, basic),
{
    proof {
        crate::strings::lemma_stream_labels();
        reveal_strlit("Video");
        reveal_strlit("Audio");
        reveal_strlit("Subtitle");
    }
    let mut lines: Vec<String> = Vec::new();
    let ts = &disc.titles;
    if ts.len() == 0 {
        push_line(&mut lines, chars_of(crate::strings::get("disc.no_titles").as_str()));
        assert(views(lines@) =~= seq![message("disc.no_titles"@)]);
        return lines;
    }
    push_line(&mut lines, chars_of(crate::strings::get("disc.titles").as_str()));
    push_line(&mut lines, Vec::new());
    let max_titles: usize = if full {
        ts.len()
    } else {
        5
    };
    let labels = (
        crate::strings::get("disc.video"),
        crate::strings::get("disc.audio"),
        crate::strings::get("disc.subtitle"),
    );
    let indent: usize = if basic {
        0
    } else {
        let a = label_indent(labels.0.as_str());
        let b = label_indent(labels.1.as_str());
        let c = label_indent(labels.2.as_str());
        if a >= b && a >= c {
            a
        } else if b >= c {
            b
        } else {
            c
        }
    };
    assert(indent == stream_indent(basic));
    let shown: usize = if ts.len() > max_titles {
        max_titles
    } else {
        ts.len()
    };
    let ghost shown_seq = if ts@.len() > max_titles {
        ts@.take(max_titles as int)
    } else {
        ts@
    };
    assert(shown_seq =~= ts@.take(shown as int));
    let ghost head = views(lines@);
    let mut i: usize = 0;
    assert(shown_seq.skip(0) =~= shown_seq);
    while i < shown
        invariant
            i <= shown,
            shown <= ts.len(),
            ts.len() < usize::MAX,
            shown_seq == ts@.take(shown as int),
            labels.0@ == message("disc.video"@),
            labels.1@ == message("disc.audio"@),
            labels.2@ == message("disc.subtitle"@),
            views(lines@) + title_blocks(shown_seq.skip(i as int), (i + 1) as nat, verbose, basic, indent as nat)
                == head + title_blocks(shown_seq, 1, verbose, basic, indent as nat),
        decreases shown - i,
    {
        let ghost before = views(lines@);
        let ghost rest = shown_seq.skip(i as int);
        assert(rest[0] == ts@[i as int]);
        assert(rest.skip(1) =~= shown_seq.skip(i + 1));
        title_block_exec(&mut lines, i + 1, &ts[i], verbose, basic, indent, &labels);
        assert(views(lines@) + title_blocks(shown_seq.skip(i + 1), (i + 2) as nat, verbose, basic, indent as nat)
            =~= before + title_blocks(rest, (i + 1) as nat, verbose, basic, indent as nat));
        i = i + 1;
    }
    assert(shown_seq.skip(shown as int) =~= Seq::<Title>::empty());
    assert(views(lines@) + Seq::<Seq<char>>::empty() =~= views(lines@));
    let ghost body = views(lines@);
    if ts.len() > max_titles {
        let count = fmt_dec((ts.len() - max_titles) as u64);
        let cs = string_of(&count);
        let args = vec![("count", cs.as_str())];
        let more = crate::strings::fmt("disc.more_titles", args.as_slice());
        assert(crate::strings::arg_views(args@) =~= seq![("count"@, dec((ts@.len() - max_titles) as nat))]);
        push_line(&mut lines, chars_of(more.as_str()));
        push_line(&mut lines, Vec::new());
    }
    assert(views(lines@) =~= title_list(disc.titles@, full, verbose, basic));
    lines
}

// ── Volume id ──────────────────────────────────────────────────────────────

/// The words of `s` (maximal runs of non-whitespace), with `cur` the word
/// being read (`str::split_whitespace`).
pub open spec fn words_from(s: Seq<char>, cur: Seq<char>) -> Seq<Seq<char>>
    decreases s.len(),
{
    if s.len() == 0 {
        if cur.len() > 0 {
            seq![cur]
        } else {
            Seq::empty()
        }
    } else if is_ws(s[0]) {
        (if cur.len() > 0 {
            seq![cur]
        } else {
            Seq::empty()
        }) + words_from(s.skip(1), Seq::empty())
    } else {
        words_from(s.skip(1), cur.push(s[0]))
    }
}

pub open spec fn underscores_to_spaces(s: Seq<char>) -> Seq<char> {
    s.map_values(|c: char| if c == '_' {
        ' '
    } else {
        c
    })
}

/// A word with its first character upper-cased and the rest lower-cased.
pub open spec fn capitalized(w: Seq<char>) -> Seq<char> {
    if w.len() == 0 {
        Seq::empty()
    } else {
        upper_of(w[0]) + lower_of(w.skip(1))
    }
}

/// A disc volume id (`SAMPLE_FILM`) as a title (`Sample Film`): underscores
/// become spaces, and each whitespace-separated word is capitalized.
pub open spec fn volume_title(s: Seq<char>) -> Seq<char> {
    join(
        words_from(underscores_to_spaces(s), Seq::empty()).map_values(|w: Seq<char>| capitalized(w)),
        seq![' '],
    )
}

pub fn format_volume_id(vol_id: &str) -> (r: String)
    ensures
        r@ == volume_title(vol_id@),
{
    let cs = chars_of(vol_id);
    let mut sp: Vec<char> = Vec::new();
    let mut i: usize = 0;
    while i < cs.len()
        invariant
            i <= cs.len(),
            cs@ == vol_id@,
            sp@ == underscores_to_spaces(cs@.take(i as int)),
        decreases cs.len() - i,
    {
        sp.push(if cs[i] == '_' {
            ' '
        } else {
            cs[i]
        });
        i = i + 1;
        assert(sp@ =~= underscores_to_spaces(cs@.take(i as int)));
    }
    assert(cs@.take(cs.len() as int) =~= cs@);
    let ghost text = sp@;
    let ghost all = words_from(text, Seq::empty());
    let mut words: Vec<Vec<char>> = Vec::new();
    let mut cur: Vec<char> = Vec::new();
    let mut j: usize = 0;
    assert(text.skip(0) =~= text);
    while j < sp.len()
        invariant
            j <= sp.len(),
            text == sp@,
            all == words_from(text, Seq::empty()),
            words@.map_values(|x: Vec<char>| x@) + words_from(text.skip(j as int), cur@) == all,
        decreases sp.len() - j,
    {
        let ghost before = words@.map_values(|x: Vec<char>| x@);
        let ghost c0 = cur@;
        let c = sp[j];
        assert(text.skip(j as int)[0] == c);
        assert(text.skip(j as int).skip(1) =~= text.skip(j + 1));
        if is_whitespace(c) {
            if cur.len() > 0 {
                let w = cur;
                push_part(&mut words, w);
                cur = Vec::new();
            } else {
                cur = Vec::new();
            }
            assert(words@.map_values(|x: Vec<char>| x@) + words_from(text.skip(j + 1), cur@) =~= before
                + words_from(text.skip(j as int), c0));
        } else {
            cur.push(c);
        }
        j = j + 1;
    }
    assert(text.skip(sp.len() as int) =~= Seq::<char>::empty());
    if cur.len() > 0 {
        let w = cur;
        push_part(&mut words, w);
    } else {
        assert(words@.map_values(|x: Vec<char>| x@) + Seq::<Seq<char>>::empty() =~= words@.map_values(
            |x: Vec<char>| x@,
        ));
    }
    let ghost ws = words@.map_values(|x: Vec<char>| x@);
    let mut caps: Vec<Vec<char>> = Vec::new();
    let mut k: usize = 0;
    while k < words.len()
        invariant
            k <= words.len(),
            ws == words@.map_values(|x: Vec<char>| x@),
            caps@.map_values(|x: Vec<char>| x@) == ws.take(k as int).map_values(
                |w: Seq<char>| capitalized(w),
            ),
        decreases words.len() - k,
    {
        let w = &words[k];
        let mut c: Vec<char> = Vec::new();
        if w.len() > 0 {
            let up = crate::lang::char_to_uppercase(w[0]);
            push_str(&mut c, up.as_str());
            let mut rest: Vec<char> = Vec::new();
            let mut m: usize = 1;
            while m < w.len()
                invariant
                    1 <= m <= w.len(),
                    rest@ == w@.subrange(1, m as int),
                decreases w.len() - m,
            {
                rest.push(w[m]);
                m = m + 1;
                assert(rest@ =~= w@.subrange(1, m as int));
            }
            assert(rest@ =~= w@.skip(1));
            let low = str_to_lowercase(string_of(&rest).as_str());
            push_str(&mut c, low.as_str());
        }
        assert(c@ =~= capitalized(ws[k as int]));
        push_part(&mut caps, c);
        k = k + 1;
        assert(ws.take(k as int).map_values(|w: Seq<char>| capitalized(w)) =~= ws.take(
            (k - 1) as int,
        ).map_values(|w: Seq<char>| capitalized(w)).push(capitalized(ws[k - 1])));
    }
    assert(ws.take(words.len() as int) =~= ws);
    assert(ws == all);
    assert(text == underscores_to_spaces(vol_id@));
    assert(caps@.map_values(|x: Vec<char>| x@) =~= words_from(underscores_to_spaces(vol_id@), Seq::empty()).map_values(
        |w: Seq<char>| capitalized(w),
    ));
    let r = join_chars(&caps, &space());
    string_of(&r)
}

/// The disc line's name: the metadata title if the disc has one, else its
/// volume id as a title, else nothing.
pub fn disc_name(meta_title: &Option<String>, volume_id: &str) -> (r: Option<String>)
    ensures
        match meta_title {
            Some(t) => r matches Some(n) && n@ == t@,
            None => if volume_id@.len() > 0 {
                r matches Some(n) && n@ == volume_title(volume_id@)
            } else {
                r is None
            },
        },
{
    match meta_title {
        Some(t) => Some(t.clone()),
        None => if volume_id.is_empty() {
            None
        } else {
            Some(format_volume_id(volume_id))
        },
    }
}


// ── Arguments of the disc listing ──────────────────────────────────────────

/// Options of the disc listing (`info disc://`).
#[derive(Debug)]
pub struct DiscInfoOptions {
    pub device: Option<String>,
    pub quiet: bool,
    pub verbose: bool,
    pub full: bool,
    pub basic: bool,
}

/// What the disc-listing arguments ask for.
#[derive(Debug)]
pub enum DiscInfoArgs {
    /// List the disc with these options.
    List(DiscInfoOptions),
    /// `--help` / `-h`: print the usage text.
    Help,
    /// `--device` / `-d` was the last argument.
    MissingDevice,
    /// An argument that is no option of this command.
    UnknownOption(String),
}

/// The outcome of the argument scan, over plain values.
pub enum DiscInfoScan {
    List(Option<Seq<char>>, bool, bool, bool, bool),
    Help,
    MissingDevice,
    UnknownOption(Seq<char>),
}

/// The value that `--log-level` gives at `args[i]`: the number if it parses as
/// a `u8`, else 1.
pub open spec fn log_level_at(args: Seq<Seq<char>>, i: int) -> nat {
    if 0 <= i < args.len() {
        match parse_unsigned(args[i], 255) {
            Some(n) => n,
            None => 1,
        }
    } else {
        1
    }
}

/// The argument scan from position `i` with the options read so far. The
/// first `--help`, missing device or unknown option ends the scan.
/// `--log-level N` makes the listing verbose for `N >= 2`; `--log-file` skips
/// its path.
pub open spec fn disc_info_scan(
    args: Seq<Seq<char>>,
    i: int,
    device: Option<Seq<char>>,
    quiet: bool,
    verbose: bool,
    full: bool,
    basic: bool,
) -> DiscInfoScan
    decreases args.len() + 2 - i,
{
    if i < 0 || i >= args.len() {
        DiscInfoScan::List(device, quiet, verbose, full, basic)
    } else {
        let a = args[i];
        if a == "--device"@ || a == "-d"@ {
            if i + 1 < args.len() {
                disc_info_scan(args, i + 2, Some(args[i + 1]), quiet, verbose, full, basic)
            } else {
                DiscInfoScan::MissingDevice
            }
        } else if a == "--quiet"@ || a == "-q"@ {
            disc_info_scan(args, i + 1, device, true, verbose, full, basic)
        } else if a == "--log-level"@ {
            disc_info_scan(
                args,
                i + 2,
                device,
                quiet,
                verbose || log_level_at(args, i + 1) >= 2,
                full,
                basic,
            )
        } else if a == "--log-file"@ {
            disc_info_scan(args, i + 2, device, quiet, verbose, full, basic)
        } else if a == "--full"@ || a == "-f"@ {
            disc_info_scan(args, i + 1, device, quiet, verbose, true, basic)
        } else if a == "--basic"@ || a == "-b"@ {
            disc_info_scan(args, i + 1, device, quiet, verbose, full, true)
        } else if a == "--help"@ || a == "-h"@ {
            DiscInfoScan::Help
        } else {
            DiscInfoScan::UnknownOption(a)
        }
    }
}

pub open spec fn disc_info_args_view(r: DiscInfoArgs) -> DiscInfoScan {
    match r {
        DiscInfoArgs::List(o) => DiscInfoScan::List(
            match o.device {
                Some(d) => Some(d@),
                None => None,
            },
            o.quiet,
            o.verbose,
            o.full,
            o.basic,
        ),
        DiscInfoArgs::Help => DiscInfoScan::Help,
        DiscInfoArgs::MissingDevice => DiscInfoScan::MissingDevice,
        DiscInfoArgs::UnknownOption(a) => DiscInfoScan::UnknownOption(a@),
    }
}

/// Parse the arguments of the disc listing.
pub fn parse_disc_info_args(args: &[String]) -> (r: DiscInfoArgs)
    ensures
        disc_info_args_view(r) == disc_info_scan(views(args@), 0, None, false, false, false, false),
{
    let ghost all = views(args@);
    let ghost total = disc_info_scan(all, 0, None, false, false, false, false);
    let mut device: Option<String> = None;
    let mut quiet = false;
    let mut verbose = false;
    let mut full = false;
    let mut basic = false;
    let mut i: usize = 0;
    while i < args.len()
        invariant
            i <= args.len(),
            all == views(args@),
            total == disc_info_scan(all, 0, None, false, false, false, false),
            total == disc_info_scan(
                all,
                i as int,
                match device {
                    Some(d) => Some(d@),
                    None => None,
                },
                quiet,
                verbose,
                full,
                basic,
            ),
        decreases args.len() - i,
    {
        let a = args[i].as_str();
        assert(all[i as int] == a@);
        if str_eq(a, "--device") || str_eq(a, "-d") {
            if i + 1 < args.len() {
                assert(all[i + 1] == args@[i + 1]@);
                device = Some(args[i + 1].clone());
                i = i + 2;
            } else {
                return DiscInfoArgs::MissingDevice;
            }
        } else if str_eq(a, "--quiet") || str_eq(a, "-q") {
            quiet = true;
            i = i + 1;
        } else if str_eq(a, "--log-level") {
            let level: u64 = if i + 1 < args.len() {
                assert(all[i + 1] == args@[i + 1]@);
                match parse_unsigned_str(args[i + 1].as_str(), 255) {
                    Some(n) => n,
                    None => 1,
                }
            } else {
                1
            };
            assert(level == log_level_at(all, i + 1));
            if level >= 2 {
                verbose = true;
            }
            if i + 1 < args.len() {
                i = i + 2;
            } else {
                assert(disc_info_scan(all, i + 2, match device {
                    Some(d) => Some(d@),
                    None => None,
                }, quiet, verbose, full, basic) is List);
                i = args.len();
            }
        } else if str_eq(a, "--log-file") {
            if i + 1 < args.len() {
                i = i + 2;
            } else {
                assert(disc_info_scan(all, i + 2, match device {
                    Some(d) => Some(d@),
                    None => None,
                }, quiet, verbose, full, basic) is List);
                i = args.len();
            }
        } else if str_eq(a, "--full") || str_eq(a, "-f") {
            full = true;
            i = i + 1;
        } else if str_eq(a, "--basic") || str_eq(a, "-b") {
            basic = true;
            i = i + 1;
        } else if str_eq(a, "--help") || str_eq(a, "-h") {
            return DiscInfoArgs::Help;
        } else {
            return DiscInfoArgs::UnknownOption(args[i].clone());
        }
    }
    DiscInfoArgs::List(DiscInfoOptions { device, quiet, verbose, full, basic })
}


// ── Disc summary ───────────────────────────────────────────────────────────

/// The line that names the disc: `Disc: <name>`, when it has a name.
pub fn disc_title_line(meta_title: &Option<String>, volume_id: &str) -> (r: Option<String>)
    ensures
        match meta_title {
            Some(t) => r matches Some(l) && l@ == message("disc.disc"@) + ": "@ + t@,
            None => if volume_id@.len() > 0 {
                r matches Some(l) && l@ == message("disc.disc"@) + ": "@ + volume_title(volume_id@)
            } else {
                r is None
            },
        },
{
    match disc_name(meta_title, volume_id) {
        Some(n) => {
            let mut v = chars_of(crate::strings::get("disc.disc").as_str());
            push_str(&mut v, ": ");
            push_str(&mut v, n.as_str());
            Some(string_of(&v))
        },
        None => None,
    }
}

/// The physical format of a disc.
#[derive(Clone, Copy, Debug, PartialEq, Eq)]
pub enum DiscFormat {
    Uhd,
    BluRay,
    Dvd,
    /// An unclassified disc; it is reported as such, never as Blu-ray.
    Unknown,
}

pub open spec fn format_label_text(f: DiscFormat) -> Seq<char> {
    match f {
        DiscFormat::Uhd => "4K UHD"@,
        DiscFormat::BluRay => "Blu-ray"@,
        DiscFormat::Dvd => "DVD"@,
        DiscFormat::Unknown => message("disc.format_unknown"@),
    }
}

pub fn format_label(f: DiscFormat) -> (r: String)
    ensures
        r@ == format_label_text(f),
{
    match f {
        DiscFormat::Uhd => crate::text::string_from("4K UHD"),
        DiscFormat::BluRay => crate::text::string_from("Blu-ray"),
        DiscFormat::Dvd => crate::text::string_from("DVD"),
        DiscFormat::Unknown => crate::strings::get("disc.format_unknown"),
    }
}

/// The catalog key of the encryption line: CSS when the disc carries CSS
/// data, else AACS; none for a clear disc.
pub fn encryption_key(encrypted: bool, css: bool) -> (r: Option<&'static str>)
    ensures
        r matches Some(k) ==> encrypted && k@ == (if css {
            "disc.css_encrypted"@
        } else {
            "disc.aacs_encrypted"@
        }),
        r is None ==> !encrypted,
{
    if encrypted {
        if css {
            Some("disc.css_encrypted")
        } else {
            Some("disc.aacs_encrypted")
        }
    } else {
        None
    }
}

} // verus!
