//! Escaping of drive-identity strings for TOML basic (double-quoted) strings,
//! and the matching decoder.
use vstd::prelude::*;
use crate::text::{
    char_is_control, chars_of, fill, hex, hex_char, is_control, pad_left, push_all, string_of,
};

verus! {

/// Four upper-case hex digits of `n`, zero-padded (`{:04X}`).
pub open spec fn hex4(n: nat) -> Seq<char> {
    pad_left(hex(n, true), 4, '0')
}

/// The escape of one character inside a TOML basic string.
pub open spec fn escape_char(c: char) -> Seq<char> {
    if c == '\\' {
        seq!['\\', '\\']
    } else if c == '"' {
        seq!['\\', '"']
    } else if c == '\n' {
        seq!['\\', 'n']
    } else if c == '\r' {
        seq!['\\', 'r']
    } else if c == '\t' {
        seq!['\\', 't']
    } else if is_control(c) {
        seq!['\\', 'u'] + hex4((c as u32) as nat)
    } else {
        seq![c]
    }
}

/// `s` escaped character by character.
pub open spec fn escaped(s: Seq<char>) -> Seq<char>
    decreases s.len(),
{
    if s.len() == 0 {
        Seq::empty()
    } else {
        escape_char(s[0]) + escaped(s.skip(1))
    }
}

pub open spec fn is_hex_digit(c: char) -> bool {
    ('0' <= c && c <= '9') || ('a' <= c && c <= 'f') || ('A' <= c && c <= 'F')
}

pub open spec fn hex_val(c: char) -> nat {
    if '0' <= c && c <= '9' {
        (c as nat - 48) as nat
    } else if 'a' <= c && c <= 'f' {
        (c as nat - 87) as nat
    } else {
        (c as nat - 55) as nat
    }
}

pub open spec fn all_hex(s: Seq<char>) -> bool {
    forall|i: int| 0 <= i < s.len() ==> is_hex_digit(#[trigger] s[i])
}

/// The value of a string of hex digits, most significant first.
pub open spec fn hex_value(s: Seq<char>) -> nat
    decreases s.len(),
{
    if s.len() == 0 {
        0
    } else {
        hex_value(s.drop_last()) * 16 + hex_val(s.last())
    }
}

/// `u32::from_str_radix(s, 16)`: an optional `+`, then at least one hex digit,
/// with a value that fits in `u32`.
pub open spec fn parse_hex_u32(s: Seq<char>) -> Option<nat> {
    let digits = if s.len() > 0 && s[0] == '+' {
        s.skip(1)
    } else {
        s
    };
    if digits.len() == 0 || !all_hex(digits) || hex_value(digits) > u32::MAX {
        None
    } else {
        Some(hex_value(digits))
    }
}

/// Whether `n` is a Unicode scalar value (`char::from_u32` succeeds).
pub open spec fn is_scalar_value(n: nat) -> bool {
    n < 0xD800 || (0xE000 <= n && n <= 0x10FFFF)
}

pub open spec fn prepend(c: char, r: Option<Seq<char>>) -> Option<Seq<char>> {
    match r {
        Some(t) => Some(seq![c] + t),
        None => None,
    }
}

/// Decoding of a TOML basic-string body: `None` where the body holds a raw
/// quote or control character, a dangling or unknown escape, or a `\u`
/// escape whose (up to four) following characters are not a scalar value.
pub open spec fn unescaped(s: Seq<char>) -> Option<Seq<char>>
    decreases s.len(),
{
    if s.len() == 0 {
        Some(Seq::empty())
    } else if s[0] != '\\' {
        if s[0] == '"' || is_control(s[0]) {
            None
        } else {
            prepend(s[0], unescaped(s.skip(1)))
        }
    } else if s.len() < 2 {
        None
    } else if s[1] == '\\' {
        prepend('\\', unescaped(s.skip(2)))
    } else if s[1] == '"' {
        prepend('"', unescaped(s.skip(2)))
    } else if s[1] == 'n' {
        prepend('\n', unescaped(s.skip(2)))
    } else if s[1] == 'r' {
        prepend('\r', unescaped(s.skip(2)))
    } else if s[1] == 't' {
        prepend('\t', unescaped(s.skip(2)))
    } else if s[1] == 'u' {
        let h = s.skip(2).take(if s.len() - 2 < 4 { s.len() - 2 } else { 4 });
        match parse_hex_u32(h) {
            Some(cp) => if is_scalar_value(cp) {
                prepend((cp as u32) as char, unescaped(s.skip(2 + h.len() as int)))
            } else {
                None
            },
            None => None,
        }
    } else {
        None
    }
}

/// `char::from_u32`: the character with scalar value `n`, if there is one.
#[verifier::external_body]
fn char_from_u32(n: u32) -> (r: Option<char>)
    ensures
        r is Some <==> is_scalar_value(n as nat),
        r matches Some(c) ==> c as u32 == n,
{
    char::from_u32(n)
}

fn push_hex4(v: &mut Vec<char>, n: u32)
    requires
        n < 0x10000,
    ensures
        final(v)@ == old(v)@ + hex4(n as nat),
{
    let ghost h = hex(n as nat, true);
    proof {
        lemma_hex_len(n as nat);
    }
    let d = crate::text::fmt_hex(n as u64, true);
    let p = crate::text::padded_left(&d, 4, '0');
    push_all(v, &p);
}

/// Escape a string for embedding inside a TOML basic (double-quoted) string.
///
/// Backslash and quote are backslash-escaped; `\n`, `\r` and `\t` are emitted
/// by name; every other control character becomes a `\uXXXX` escape. Other
/// text passes through unchanged.
pub fn toml_escape(s: &str) -> (r: String)
    ensures
        r@ == escaped(s@),
        forall|i: int| 0 <= i < r@.len() ==> !is_control(#[trigger] r@[i]),
        unescaped(r@) == Some(s@),
        (forall|i: int| 0 <= i < s@.len() ==> plain_char(#[trigger] s@[i])) ==> r@ == s@,
        forall|i: int| 0 <= i < r@.len() && #[trigger] r@[i] == '"' ==> i > 0 && r@[i - 1] == '\\',
{
    proof {
        lemma_escaped_quotes(s@);
        if forall|i: int| 0 <= i < s@.len() ==> plain_char(#[trigger] s@[i]) {
            lemma_escape_plain(s@);
        }
    }
    let cs = chars_of(s);
    let mut out: Vec<char> = Vec::new();
    let mut i: usize = 0;
    assert(cs@.skip(0) =~= cs@);
    while i < cs.len()
        invariant
            i <= cs.len(),
            cs@ == s@,
            out@ + escaped(cs@.skip(i as int)) == escaped(s@),
        decreases cs.len() - i,
    {
        let c = cs[i];
        let ghost before = out@;
        proof {
            assert(cs@.skip(i as int)[0] == c);
            assert(cs@.skip(i as int).skip(1) =~= cs@.skip(i + 1));
        }
        if c == '\\' {
            out.push('\\');
            out.push('\\');
        } else if c == '"' {
            out.push('\\');
            out.push('"');
        } else if c == '\n' {
            out.push('\\');
            out.push('n');
        } else if c == '\r' {
            out.push('\\');
            out.push('r');
        } else if c == '\t' {
            out.push('\\');
            out.push('t');
        } else if char_is_control(c) {
            out.push('\\');
            out.push('u');
            push_hex4(&mut out, c as u32);
        } else {
            out.push(c);
        }
        assert(out@ =~= before + escape_char(c));
        assert(out@ + escaped(cs@.skip(i + 1)) =~= before + escaped(cs@.skip(i as int)));
        i = i + 1;
    }
    assert(cs@.skip(cs.len() as int) =~= Seq::<char>::empty());
    assert(out@ + Seq::<char>::empty() =~= out@);
    proof {
        lemma_escaped_no_control(s@);
        lemma_unescape_escaped(s@);
    }
    string_of(&out)
}

// ── Facts about the hex rendering used by `\u` escapes ──────────────────────

proof fn lemma_hex_len(n: nat)
    ensures
        n < 16 ==> hex(n, true).len() == 1,
        n < 256 ==> hex(n, true).len() <= 2,
        n < 4096 ==> hex(n, true).len() <= 3,
        n < 0x10000 ==> hex(n, true).len() <= 4,
        hex(n, true).len() >= 1,
    decreases n,
{
    if n >= 16 {
        lemma_hex_len(n / 16);
    }
}

proof fn lemma_hex_digits(n: nat)
    ensures
        all_hex(hex(n, true)),
        hex_value(hex(n, true)) == n,
    decreases n,
{
    if n < 16 {
        assert(hex_value(hex(n, true).drop_last()) == 0) by {
            assert(hex(n, true).drop_last() =~= Seq::<char>::empty());
        }
    } else {
        lemma_hex_digits(n / 16);
        let h = hex(n, true);
        assert(h.drop_last() =~= hex(n / 16, true));
        assert forall|i: int| 0 <= i < h.len() implies is_hex_digit(#[trigger] h[i]) by {
            if i < h.len() - 1 {
                assert(h[i] == hex(n / 16, true)[i]);
            }
        }
    }
}

proof fn lemma_hex_value_zeros(k: nat, t: Seq<char>)
    ensures
        hex_value(fill(k, '0') + t) == hex_value(t) + hex_value(fill(k, '0')) * pow16(t.len()),
        hex_value(fill(k, '0')) == 0,
        all_hex(fill(k, '0')),
    decreases t.len() + k,
{
    if t.len() > 0 {
        lemma_hex_value_zeros(k, t.drop_last());
        assert((fill(k, '0') + t).drop_last() =~= fill(k, '0') + t.drop_last());
        assert((fill(k, '0') + t).last() == t.last());
    } else {
        assert(fill(k, '0') + t =~= fill(k, '0'));
        if k > 0 {
            lemma_hex_value_zeros((k - 1) as nat, t);
            assert(fill(k, '0').drop_last() =~= fill((k - 1) as nat, '0'));
        } else {
            assert(fill(k, '0') =~= Seq::<char>::empty());
        }
    }
}

pub open spec fn pow16(n: nat) -> nat
    decreases n,
{
    if n == 0 {
        1
    } else {
        16 * pow16((n - 1) as nat)
    }
}

proof fn lemma_hex4(n: nat)
    requires
        n < 0x10000,
    ensures
        hex4(n).len() == 4,
        all_hex(hex4(n)),
        hex_value(hex4(n)) == n,
        hex4(n)[0] != '+',
{
    lemma_hex_len(n);
    lemma_hex_digits(n);
    let h = hex(n, true);
    if h.len() < 4 {
        lemma_hex_value_zeros((4 - h.len()) as nat, h);
        let z = fill((4 - h.len()) as nat, '0');
        assert forall|i: int| 0 <= i < hex4(n).len() implies is_hex_digit(#[trigger] hex4(n)[i]) by {
            if i < z.len() {
                assert(hex4(n)[i] == z[i]);
            } else {
                assert(hex4(n)[i] == h[i - z.len()]);
            }
        }
        assert(hex4(n)[0] == '0');
    } else {
        assert(is_hex_digit(h[0]));
    }
}

// ── Round trip ──────────────────────────────────────────────────────────────

proof fn lemma_escaped_no_control(s: Seq<char>)
    ensures
        forall|i: int| 0 <= i < escaped(s).len() ==> !is_control(#[trigger] escaped(s)[i]),
    decreases s.len(),
{
    if s.len() > 0 {
        lemma_escaped_no_control(s.skip(1));
        let e = escape_char(s[0]);
        let rest = escaped(s.skip(1));
        if is_control(s[0]) && s[0] != '\n' && s[0] != '\r' && s[0] != '\t' {
            lemma_hex4((s[0] as u32) as nat);
        }
        assert forall|i: int| 0 <= i < escaped(s).len() implies !is_control(
            #[trigger] escaped(s)[i],
        ) by {
            if i < e.len() {
                assert(escaped(s)[i] == e[i]);
                if is_control(s[0]) && s[0] != '\n' && s[0] != '\r' && s[0] != '\t' && i >= 2 {
                    assert(is_hex_digit(hex4((s[0] as u32) as nat)[i - 2]));
                }
            } else {
                assert(escaped(s)[i] == rest[i - e.len()]);
            }
        }
    }
}

proof fn lemma_unescape_char(c: char, rest: Seq<char>)
    ensures
        unescaped(escape_char(c) + rest) == prepend(c, unescaped(rest)),
{
    let s = escape_char(c) + rest;
    if c == '\\' || c == '"' || c == '\n' || c == '\r' || c == '\t' {
        assert(s.skip(2) =~= rest);
    } else if is_control(c) {
        let n = (c as u32) as nat;
        lemma_hex4(n);
        let h = s.skip(2).take(4);
        assert(h =~= hex4(n));
        assert(s.skip(6) =~= rest);
        assert(parse_hex_u32(h) == Some(n));
        assert(((n as u32) as char) == c);
    } else {
        assert(s.skip(1) =~= rest);
    }
}


/// In an escaped text a quote only ever follows a backslash: every `"`
/// belongs to a `\"` escape.
pub proof fn lemma_escaped_quotes(s: Seq<char>)
    ensures
        forall|i: int|
            0 <= i < escaped(s).len() && #[trigger] escaped(s)[i] == '"' ==> i > 0 && escaped(s)[i
                - 1] == '\\',
    decreases s.len(),
{
    if s.len() > 0 {
        let c = s[0];
        let h = escape_char(c);
        let rest = escaped(s.skip(1));
        lemma_escaped_quotes(s.skip(1));
        let e = escaped(s);
        assert(e == h + rest);
        if is_control(c) && !(c == '\n' || c == '\r' || c == '\t') {
            lemma_hex4((c as u32) as nat);
        }
        assert forall|i: int| 0 <= i < e.len() && #[trigger] e[i] == '"' implies i > 0 && e[i - 1]
            == '\\' by {
            if i < h.len() {
                if is_control(c) && !(c == '\n' || c == '\r' || c == '\t') && i >= 2 {
                    let x = hex4((c as u32) as nat);
                    assert(e[i] == x[i - 2]);
                    assert(is_hex_digit(x[i - 2]));
                }
            } else {
                assert(e[i] == rest[i - h.len()]);
                if i - h.len() == 0 {
                    assert(false);
                } else {
                    assert(e[i - 1] == rest[i - h.len() - 1]);
                }
            }
        }
    }
}

/// A character that a TOML basic string holds as it is.
pub open spec fn plain_char(c: char) -> bool {
    c != '"' && c != '\\' && !is_control(c)
}

/// Text with no quote, backslash or control character escapes to itself.
pub proof fn lemma_escape_plain(s: Seq<char>)
    requires
        forall|i: int| 0 <= i < s.len() ==> plain_char(#[trigger] s[i]),
    ensures
        escaped(s) == s,
    decreases s.len(),
{
    if s.len() > 0 {
        assert(plain_char(s[0]));
        assert forall|i: int| 0 <= i < s.skip(1).len() implies plain_char(#[trigger] s.skip(1)[i]) by {
            assert(s.skip(1)[i] == s[i + 1]);
        }
        lemma_escape_plain(s.skip(1));
        assert(s =~= seq![s[0]] + s.skip(1));
    }
}

/// Decoding the escape of any string gives the string back.
pub proof fn lemma_unescape_escaped(s: Seq<char>)
    ensures
        unescaped(escaped(s)) == Some(s),
    decreases s.len(),
{
    if s.len() == 0 {
    } else {
        lemma_unescape_escaped(s.skip(1));
        lemma_unescape_char(s[0], escaped(s.skip(1)));
        assert(seq![s[0]] + s.skip(1) =~= s);
    }
}

// ── Decoder ─────────────────────────────────────────────────────────────────

fn hex_digit_value(c: char) -> (r: Option<u32>)
    ensures
        r is Some <==> is_hex_digit(c),
        r matches Some(v) ==> v == hex_val(c) && v < 16,
{
    if '0' <= c && c <= '9' {
        Some(c as u32 - 48)
    } else if 'a' <= c && c <= 'f' {
        Some(c as u32 - 87)
    } else if 'A' <= c && c <= 'F' {
        Some(c as u32 - 55)
    } else {
        None
    }
}

proof fn lemma_hex_value_bound(s: Seq<char>)
    requires
        all_hex(s),
    ensures
        hex_value(s) < pow16(s.len()),
    decreases s.len(),
{
    if s.len() > 0 {
        assert(all_hex(s.drop_last())) by {
            assert forall|i: int| 0 <= i < s.drop_last().len() implies is_hex_digit(
                #[trigger] s.drop_last()[i],
            ) by {
                assert(s.drop_last()[i] == s[i]);
            }
        }
        lemma_hex_value_bound(s.drop_last());
        assert(is_hex_digit(s[s.len() - 1]));
    }
}

/// `u32::from_str_radix(h, 16)` for a string of at most four characters.
fn parse_hex_short(h: &Vec<char>) -> (r: Option<u32>)
    requires
        h.len() <= 4,
    ensures
        r matches Some(v) ==> parse_hex_u32(h@) == Some(v as nat),
        r is None ==> parse_hex_u32(h@) is None,
{
    let start: usize = if h.len() > 0 && h[0] == '+' {
        1
    } else {
        0
    };
    let ghost digits = h@.skip(start as int);
    assert(digits =~= (if h@.len() > 0 && h@[0] == '+' {
        h@.skip(1)
    } else {
        h@
    }));
    if h.len() - start == 0 {
        return None;
    }
    let mut v: u32 = 0;
    let mut i: usize = start;
    while i < h.len()
        invariant
            start <= i <= h.len(),
            h.len() <= 4,
            digits == h@.skip(start as int),
            digits == (if h@.len() > 0 && h@[0] == '+' {
                h@.skip(1)
            } else {
                h@
            }),
            all_hex(h@.subrange(start as int, i as int)),
            v == hex_value(h@.subrange(start as int, i as int)),
            v < pow16((i - start) as nat),
        decreases h.len() - i,
    {
        let ghost pre = h@.subrange(start as int, i as int);
        match hex_digit_value(h[i]) {
            Some(d) => {
                proof {
                    let next = h@.subrange(start as int, i + 1);
                    assert(next.drop_last() =~= pre);
                    assert(next.last() == h@[i as int]);
                    assert forall|j: int| 0 <= j < next.len() implies is_hex_digit(
                        #[trigger] next[j],
                    ) by {
                        if j < pre.len() {
                            assert(next[j] == pre[j]);
                        }
                    }
                    assert(pow16((i + 1 - start) as nat) == 16 * pow16((i - start) as nat));
                    reveal_with_fuel(pow16, 4);
                    assert(pow16(3) == 4096);
                    assert(i - start < 4);
                    assert(pow16((i - start) as nat) <= 4096) by {
                        lemma_pow16_mono((i - start) as nat, 3);
                    }
                }
                v = v * 16 + d;
                i = i + 1;
            },
            None => {
                proof {
                    assert(digits[i - start] == h@[i as int]);
                    assert(!is_hex_digit(digits[i - start]));
                    assert(!all_hex(digits));
                    let spec_digits = if h@.len() > 0 && h@[0] == '+' {
                        h@.skip(1)
                    } else {
                        h@
                    };
                    assert(spec_digits == digits);
                    assert(parse_hex_u32(h@) is None);
                }
                return None;
            },
        }
    }
    assert(h@.subrange(start as int, h.len() as int) =~= digits);
    Some(v)
}

proof fn lemma_pow16_mono(a: nat, b: nat)
    requires
        a <= b,
    ensures
        pow16(a) <= pow16(b),
    decreases b,
{
    if a < b {
        lemma_pow16_mono(a, (b - 1) as nat);
    }
}

/// Decode a TOML basic (double-quoted) string body — the inverse of
/// [`toml_escape`].
pub fn toml_basic_unescape(s: &str) -> (r: String)
    requires
        unescaped(s@) is Some,
    ensures
        unescaped(s@) == Some(r@),
{
    let cs = chars_of(s);
    let mut out: Vec<char> = Vec::new();
    let mut i: usize = 0;
    assert(cs@.skip(0) =~= cs@);
    while i < cs.len()
        invariant
            i <= cs.len(),
            cs@ == s@,
            unescaped(cs@.skip(i as int)) is Some,
            unescaped(s@) == Some(out@ + unescaped(cs@.skip(i as int))->0),
        decreases cs.len() - i,
    {
        let ghost rest = cs@.skip(i as int);
        let ghost before = out@;
        let c = cs[i];
        assert(rest[0] == c);
        if c != '\\' {
            assert(rest.skip(1) =~= cs@.skip(i + 1));
            out.push(c);
            i = i + 1;
            assert(out@ + unescaped(cs@.skip(i as int))->0 =~= before + unescaped(rest)->0);
        } else {
            let e = cs[i + 1];
            assert(rest[1] == e);
            assert(rest.skip(2) =~= cs@.skip(i + 2));
            if e == 'u' {
                let avail = cs.len() - (i + 2);
                let n: usize = if avail < 4 {
                    avail
                } else {
                    4
                };
                let mut h: Vec<char> = Vec::new();
                let mut j: usize = 0;
                while j < n
                    invariant
                        j <= n,
                        i + 2 + n <= cs.len(),
                        h@ == cs@.subrange(i + 2, i + 2 + j),
                    decreases n - j,
                {
                    h.push(cs[i + 2 + j]);
                    j = j + 1;
                    assert(h@ =~= cs@.subrange(i + 2, i + 2 + j));
                }
                assert(h@ =~= rest.skip(2).take(n as int));
                let cp = parse_hex_short(&h);
                let cp = match cp {
                    Some(v) => v,
                    None => {
                        return string_of(&out);
                    },
                };
                let ch = match char_from_u32(cp) {
                    Some(ch) => ch,
                    None => {
                        return string_of(&out);
                    },
                };
                assert(rest.skip(2 + n as int) =~= cs@.skip(i + 2 + n));
                proof {
                    let hh = rest.skip(2).take(n as int);
                    assert(hh == h@);
                    assert(parse_hex_u32(hh) == Some(cp as nat));
                    assert(((cp as nat) as u32) == cp);
                    vstd::utf8::char_u32_cast(ch, cp);
                    assert((cp as char) == ch);
                    assert(unescaped(rest) == prepend(ch, unescaped(rest.skip(2 + n as int))));
                    let tail = unescaped(rest.skip(2 + n as int))->0;
                    assert(unescaped(rest.skip(2 + n as int)) == Some(tail));
                }
                out.push(ch);
                i = i + 2 + n;
                assert(out@ + unescaped(cs@.skip(i as int))->0 =~= before + unescaped(rest)->0);
            } else {
                let d = if e == '\\' {
                    '\\'
                } else if e == '"' {
                    '"'
                } else if e == 'n' {
                    '\n'
                } else if e == 'r' {
                    '\r'
                } else {
                    '\t'
                };
                assert(unescaped(rest) == prepend(d, unescaped(rest.skip(2))));
                let ghost tail = unescaped(rest.skip(2))->0;
                assert(unescaped(rest.skip(2)) == Some(tail));
                assert(unescaped(rest)->0 == seq![d] + tail);
                out.push(d);
                i = i + 2;
                assert(out@ + unescaped(cs@.skip(i as int))->0 =~= before + unescaped(rest)->0);
            }
        }
    }
    assert(cs@.skip(cs.len() as int) =~= Seq::<char>::empty());
    assert(out@ + Seq::<char>::empty() =~= out@);
    string_of(&out)
}

} // verus!
