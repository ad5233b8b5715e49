//! Standard base64 (RFC 4648, with `=` padding) for the drive-profile archive
//! that is pasted into an issue body.
use vstd::prelude::*;
use crate::text::{chars_of, string_of};

verus! {

/// The character for a 6-bit value in the standard alphabet.
pub open spec fn b64_char(i: nat) -> char {
    if i < 26 {
        ((i + 65) as u8) as char
    } else if i < 52 {
        ((i + 71) as u8) as char
    } else if i < 62 {
        ((i - 4) as u8) as char
    } else if i == 62 {
        '+'
    } else {
        '/'
    }
}

/// The 6-bit value of an alphabet character; `None` for any other character.
pub open spec fn b64_index(c: char) -> Option<nat> {
    if 'A' <= c && c <= 'Z' {
        Some((c as u32 - 65) as nat)
    } else if 'a' <= c && c <= 'z' {
        Some((c as u32 - 71) as nat)
    } else if '0' <= c && c <= '9' {
        Some((c as u32 + 4) as nat)
    } else if c == '+' {
        Some(62)
    } else if c == '/' {
        Some(63)
    } else {
        None
    }
}

/// The 24-bit value of a group of one to three bytes, missing bytes as zero.
pub open spec fn triple(c: Seq<u8>) -> nat {
    (c[0] as nat) * 65536 + (if c.len() > 1 {
        c[1] as nat
    } else {
        0
    }) * 256 + (if c.len() > 2 {
        c[2] as nat
    } else {
        0
    })
}

/// The four output characters of one group of one to three bytes.
pub open spec fn b64_group(c: Seq<u8>) -> Seq<char> {
    let t = triple(c);
    seq![
        b64_char(t / 262144 % 64),
        b64_char(t / 4096 % 64),
        if c.len() > 1 {
            b64_char(t / 64 % 64)
        } else {
            '='
        },
        if c.len() > 2 {
            b64_char(t % 64)
        } else {
            '='
        },
    ]
}

/// Base64 encoding of `s`, three bytes at a time.
pub open spec fn b64_encoded(s: Seq<u8>) -> Seq<char>
    decreases s.len(),
{
    if s.len() == 0 {
        Seq::empty()
    } else if s.len() <= 3 {
        b64_group(s)
    } else {
        b64_group(s.take(3)) + b64_encoded(s.skip(3))
    }
}

pub open spec fn pow2(k: nat) -> nat
    decreases k,
{
    if k == 0 {
        1
    } else {
        2 * pow2((k - 1) as nat)
    }
}

/// Decoding with `bits` pending bits held in `buf`: alphabet characters add
/// six bits, each full byte is emitted, other characters are skipped, and the
/// first `=` ends the input.
pub open spec fn b64_decoded_from(s: Seq<char>, buf: nat, bits: nat) -> Seq<u8>
    decreases s.len(),
{
    if s.len() == 0 || s[0] == '=' {
        Seq::empty()
    } else {
        match b64_index(s[0]) {
            None => b64_decoded_from(s.skip(1), buf, bits),
            Some(v) => {
                let st = decode_step(buf, bits, v);
                st.0 + b64_decoded_from(s.skip(1), st.1, st.2)
            },
        }
    }
}

/// One six-bit value added to the buffer: the byte it completes, if any, and
/// the new buffer and pending-bit count.
pub open spec fn decode_step(buf: nat, bits: nat, v: nat) -> (Seq<u8>, nat, nat) {
    let b = buf * 64 + v;
    if bits + 6 >= 8 {
        let k = (bits - 2) as nat;
        (seq![byte(b / pow2(k))], b % pow2(k), k)
    } else {
        (Seq::empty(), b, bits + 6)
    }
}

/// The low eight bits of `n`.
pub open spec fn byte(n: nat) -> u8 {
    (n % 256) as u8
}

pub open spec fn b64_decoded(s: Seq<char>) -> Seq<u8> {
    b64_decoded_from(s, 0, 0)
}

proof fn lemma_index_of_char(i: nat)
    requires
        i < 64,
    ensures
        b64_index(b64_char(i)) == Some(i),
        b64_char(i) != '=',
{
}

proof fn lemma_pow2_values()
    ensures
        pow2(0) == 1,
        pow2(2) == 4,
        pow2(4) == 16,
{
    reveal_with_fuel(pow2, 5);
}

/// One decoding step on an alphabet character.
proof fn lemma_decode_step(q: Seq<char>, buf: nat, bits: nat, v: nat)
    requires
        q.len() > 0,
        v < 64,
        q[0] == b64_char(v),
    ensures
        b64_decoded_from(q, buf, bits) == decode_step(buf, bits, v).0 + b64_decoded_from(
            q.skip(1),
            decode_step(buf, bits, v).1,
            decode_step(buf, bits, v).2,
        ),
{
    lemma_index_of_char(v);
}

proof fn lemma_group_arith(b0: nat, b1: nat, b2: nat)
    requires
        b0 < 256,
        b1 < 256,
        b2 < 256,
    ensures
        (b0 * 65536 + b1 * 256 + b2) / 262144 % 64 == b0 / 4,
        (b0 * 65536 + b1 * 256 + b2) / 4096 % 64 == (b0 % 4) * 16 + b1 / 16,
        (b0 * 65536 + b1 * 256 + b2) / 64 % 64 == (b1 % 16) * 4 + b2 / 64,
        (b0 * 65536 + b1 * 256 + b2) % 64 == b2 % 64,
        ((b0 / 4) * 64 + (b0 % 4) * 16 + b1 / 16) / 16 == b0,
        ((b0 / 4) * 64 + (b0 % 4) * 16 + b1 / 16) % 16 == b1 / 16,
        ((b1 / 16) * 64 + (b1 % 16) * 4 + b2 / 64) / 4 == b1,
        ((b1 / 16) * 64 + (b1 % 16) * 4 + b2 / 64) % 4 == b2 / 64,
        (b2 / 64) * 64 + b2 % 64 == b2,
{
    assert((b0 * 65536 + b1 * 256 + b2) / 262144 % 64 == b0 / 4) by (nonlinear_arith)
        requires
            b0 < 256,
            b1 < 256,
            b2 < 256,
    ;
    assert((b0 * 65536 + b1 * 256 + b2) / 4096 % 64 == (b0 % 4) * 16 + b1 / 16) by (
    nonlinear_arith)
        requires
            b0 < 256,
            b1 < 256,
            b2 < 256,
    ;
    assert((b0 * 65536 + b1 * 256 + b2) / 64 % 64 == (b1 % 16) * 4 + b2 / 64) by (
    nonlinear_arith)
        requires
            b0 < 256,
            b1 < 256,
            b2 < 256,
    ;
    assert((b0 * 65536 + b1 * 256 + b2) % 64 == b2 % 64) by (nonlinear_arith)
        requires
            b0 < 256,
            b1 < 256,
            b2 < 256,
    ;
}

/// Decoding one full group, from an empty buffer, gives back its three bytes
/// and leaves the buffer empty again.
proof fn lemma_decode_full_group(c: Seq<u8>, rest: Seq<char>)
    requires
        c.len() == 3,
    ensures
        b64_decoded_from(b64_group(c) + rest, 0, 0) == c + b64_decoded_from(rest, 0, 0),
{
    let q = b64_group(c) + rest;
    let b0 = c[0] as nat;
    let b1 = c[1] as nat;
    let b2 = c[2] as nat;
    lemma_group_arith(b0, b1, b2);
    lemma_pow2_values();
    let v0 = b0 / 4;
    let v1 = (b0 % 4) * 16 + b1 / 16;
    let v2 = (b1 % 16) * 4 + b2 / 64;
    let v3 = b2 % 64;
    assert(triple(c) == b0 * 65536 + b1 * 256 + b2);
    assert(q.skip(1).skip(1) =~= q.skip(2));
    assert(q.skip(2).skip(1) =~= q.skip(3));
    assert(q.skip(3).skip(1) =~= q.skip(4));
    assert(q.skip(4) =~= rest);
    lemma_decode_step(q, 0, 0, v0);
    lemma_decode_step(q.skip(1), v0, 6, v1);
    lemma_decode_step(q.skip(2), b1 / 16, 4, v2);
    lemma_decode_step(q.skip(3), b2 / 64, 2, v3);
    assert(seq![b0 as u8] + (seq![b1 as u8] + (seq![b2 as u8] + b64_decoded_from(rest, 0, 0)))
        =~= c + b64_decoded_from(rest, 0, 0));
}

/// Decoding the final, padded group gives back its one or two bytes.
proof fn lemma_decode_last_group(c: Seq<u8>)
    requires
        1 <= c.len() <= 3,
    ensures
        b64_decoded_from(b64_group(c), 0, 0) == c,
{
    if c.len() == 3 {
        lemma_decode_full_group(c, Seq::empty());
        assert(b64_group(c) + Seq::<char>::empty() =~= b64_group(c));
        assert(c + Seq::<u8>::empty() =~= c);
    } else {
        let q = b64_group(c);
        let b0 = c[0] as nat;
        let b1: nat = if c.len() > 1 {
            c[1] as nat
        } else {
            0
        };
        lemma_group_arith(b0, b1, 0);
        lemma_pow2_values();
        assert(triple(c) == b0 * 65536 + b1 * 256);
        let v0 = b0 / 4;
        let v1 = (b0 % 4) * 16 + b1 / 16;
        let v2 = (b1 % 16) * 4;
        assert(q.skip(1).skip(1) =~= q.skip(2));
        assert(q.skip(2).skip(1) =~= q.skip(3));
        lemma_decode_step(q, 0, 0, v0);
        lemma_decode_step(q.skip(1), v0, 6, v1);
        if c.len() == 1 {
            assert(q.skip(2)[0] == '=');
            assert(seq![b0 as u8] + Seq::<u8>::empty() =~= c);
        } else {
            lemma_decode_step(q.skip(2), b1 / 16, 4, v2);
            assert(q.skip(3)[0] == '=');
            assert(seq![b0 as u8] + (seq![b1 as u8] + Seq::<u8>::empty()) =~= c);
        }
    }
}

/// Decoding the encoding of any byte string gives the byte string back.
pub proof fn lemma_base64_round_trip(s: Seq<u8>)
    ensures
        b64_decoded(b64_encoded(s)) == s,
    decreases s.len(),
{
    if s.len() == 0 {
    } else if s.len() <= 3 {
        lemma_decode_last_group(s);
    } else {
        lemma_base64_round_trip(s.skip(3));
        lemma_decode_full_group(s.take(3), b64_encoded(s.skip(3)));
        assert(s.take(3) + s.skip(3) =~= s);
    }
}

/// The number of `=` that pad the encoding of `n` bytes.
pub open spec fn b64_padding(n: nat) -> nat {
    if n % 3 == 0 {
        0
    } else {
        (3 - n % 3) as nat
    }
}

/// The shape of an encoding: four characters per started group of three
/// bytes, alphabet characters (never `=`) up to the padding, and the padding
/// `=` at the end only.
pub proof fn lemma_base64_shape(s: Seq<u8>)
    ensures
        b64_encoded(s).len() == 4 * ((s.len() + 2) / 3),
        forall|i: int|
            0 <= i < b64_encoded(s).len() - b64_padding(s.len()) ==> b64_index(
                #[trigger] b64_encoded(s)[i],
            ) is Some && b64_encoded(s)[i] != '=',
        forall|i: int|
            b64_encoded(s).len() - b64_padding(s.len()) <= i < b64_encoded(s).len() ==> #[trigger] b64_encoded(s)[i] == '=',
    decreases s.len(),
{
    let r = b64_encoded(s);
    if s.len() == 0 {
    } else {
        let c = if s.len() <= 3 {
            s
        } else {
            s.take(3)
        };
        let g = b64_group(c);
        let t = triple(c);
        lemma_index_of_char(t / 262144 % 64);
        lemma_index_of_char(t / 4096 % 64);
        lemma_index_of_char(t / 64 % 64);
        lemma_index_of_char(t % 64);
        if s.len() <= 3 {
            assert(r == g);
        } else {
            let rest = s.skip(3);
            lemma_base64_shape(rest);
            assert(r == g + b64_encoded(rest));
            assert(b64_padding(rest.len()) == b64_padding(s.len()));
            assert forall|i: int| 4 <= i < r.len() implies r[i] == b64_encoded(rest)[i - 4] by {}
        }
    }
}

/// The alphabet of RFC 4648, in the order of the 6-bit values.
pub open spec fn rfc4648_alphabet() -> Seq<char> {
    "ABCDEFGHIJKLMNOPQRSTUVWXYZabcdefghijklmnopqrstuvwxyz0123456789+/"@
}

/// The encoding uses the standard table of RFC 4648: the character for each
/// 6-bit value is the one at that position of the alphabet (so 62 is `+` and
/// 63 is `/`), and decoding reads each alphabet character back as its
/// position.
pub proof fn lemma_alphabet_is_rfc4648()
    ensures
        rfc4648_alphabet().len() == 64,
        forall|i: nat| i < 64 ==> #[trigger] b64_char(i) == rfc4648_alphabet()[i as int],
        forall|i: int| 0 <= i < 64 ==> b64_index(#[trigger] rfc4648_alphabet()[i]) == Some(i as nat),
{
    reveal_strlit("ABCDEFGHIJKLMNOPQRSTUVWXYZabcdefghijklmnopqrstuvwxyz0123456789+/");
    assert forall|i: nat| i < 64 implies #[trigger] b64_char(i) == rfc4648_alphabet()[i as int] by {
    }
    assert forall|i: int| 0 <= i < 64 implies b64_index(#[trigger] rfc4648_alphabet()[i]) == Some(i as nat) by {
        lemma_index_of_char(i as nat);
        assert(b64_char(i as nat) == rfc4648_alphabet()[i]);
    }
}

fn b64_char_exec(i: u32) -> (c: char)
    requires
        i < 64,
    ensures
        c == b64_char(i as nat),
{
    if i < 26 {
        ((i + 65) as u8) as char
    } else if i < 52 {
        ((i + 71) as u8) as char
    } else if i < 62 {
        ((i - 4) as u8) as char
    } else if i == 62 {
        '+'
    } else {
        '/'
    }
}

pub fn base64_encode(input: &[u8]) -> (r: String)
    ensures
        r@ == b64_encoded(input@),
        b64_decoded(r@) == input@,
        r@.len() == 4 * ((input@.len() + 2) / 3),
        forall|i: int|
            0 <= i < r@.len() - b64_padding(input@.len()) ==> b64_index(#[trigger] r@[i]) is Some
                && r@[i] != '=',
        forall|i: int| r@.len() - b64_padding(input@.len()) <= i < r@.len() ==> #[trigger] r@[i] == '=',
        vstd::utf8::is_ascii_chars(r@),
{
    proof {
        lemma_base64_round_trip(input@);
        lemma_base64_shape(input@);
        let e = b64_encoded(input@);
        let p = b64_padding(input@.len());
        assert forall|i: int| 0 <= i < e.len() implies '\0' <= #[trigger] e[i] <= '\u{7f}' by {
            if i < e.len() - p {
                assert(b64_index(e[i]) is Some);
            } else {
                assert(e[i] == '=');
            }
        }
    }
    let mut out: Vec<char> = Vec::new();
    let mut i: usize = 0;
    assert(input@.skip(0) =~= input@);
    while i < input.len()
        invariant
            i <= input.len(),
            out@ + b64_encoded(input@.skip(i as int)) == b64_encoded(input@),
        decreases input.len() - i,
    {
        let ghost rest = input@.skip(i as int);
        let n: usize = if input.len() - i < 3 {
            input.len() - i
        } else {
            3
        };
        let ghost c = rest.take(n as int);
        let b0 = input[i] as u32;
        let b1 = if n > 1 {
            input[i + 1] as u32
        } else {
            0
        };
        let b2 = if n > 2 {
            input[i + 2] as u32
        } else {
            0
        };
        let t = b0 * 65536 + b1 * 256 + b2;
        assert(t == triple(c));
        let ghost before = out@;
        out.push(b64_char_exec(t / 262144 % 64));
        out.push(b64_char_exec(t / 4096 % 64));
        if n > 1 {
            out.push(b64_char_exec(t / 64 % 64));
        } else {
            out.push('=');
        }
        if n > 2 {
            out.push(b64_char_exec(t % 64));
        } else {
            out.push('=');
        }
        assert(out@ =~= before + b64_group(c));
        proof {
            if rest.len() <= 3 {
                assert(c =~= rest);
                assert(input@.skip(i + n) =~= Seq::<u8>::empty());
            } else {
                assert(rest.skip(3) =~= input@.skip(i + 3));
            }
            assert(out@ + b64_encoded(input@.skip(i + n)) =~= before + b64_encoded(rest));
        }
        i = i + n;
    }
    assert(input@.skip(input.len() as int) =~= Seq::<u8>::empty());
    assert(out@ + Seq::<char>::empty() =~= out@);
    string_of(&out)
}

fn b64_index_exec(c: char) -> (r: Option<u32>)
    ensures
        r matches Some(v) ==> b64_index(c) == Some(v as nat) && v < 64,
        r is None ==> b64_index(c) is None,
{
    if 'A' <= c && c <= 'Z' {
        Some(c as u32 - 65)
    } else if 'a' <= c && c <= 'z' {
        Some(c as u32 - 71)
    } else if '0' <= c && c <= '9' {
        Some(c as u32 + 4)
    } else if c == '+' {
        Some(62)
    } else if c == '/' {
        Some(63)
    } else {
        None
    }
}

fn pow2_exec(k: u32) -> (r: u32)
    requires
        k < 8,
    ensures
        r == pow2(k as nat),
{
    reveal_with_fuel(pow2, 8);
    if k == 0 {
        1
    } else if k == 1 {
        2
    } else if k == 2 {
        4
    } else if k == 3 {
        8
    } else if k == 4 {
        16
    } else if k == 5 {
        32
    } else if k == 6 {
        64
    } else {
        128
    }
}

proof fn lemma_pow2_pos(k: nat)
    ensures
        pow2(k) > 0,
    decreases k,
{
    if k > 0 {
        lemma_pow2_pos((k - 1) as nat);
    }
}

proof fn lemma_pow2_small(k: nat)
    requires
        k < 8,
    ensures
        pow2(k) <= 128,
{
    reveal_with_fuel(pow2, 8);
}

proof fn lemma_pow2_shift(k: nat)
    ensures
        pow2(k + 2) == pow2(k) * 4,
        pow2(k + 6) == pow2(k) * 64,
{
    reveal_with_fuel(pow2, 7);
}

/// Decode standard base64: alphabet characters are consumed six bits at a
/// time, other characters are skipped, and the first `=` ends the input.
pub fn base64_decode(input: &str) -> (r: Vec<u8>)
    ensures
        r@ == b64_decoded(input@),
{
    let cs = chars_of(input);
    let mut out: Vec<u8> = Vec::new();
    let mut buf: u32 = 0;
    let mut bits: u32 = 0;
    let mut i: usize = 0;
    assert(cs@.skip(0) =~= cs@);
    while i < cs.len()
        invariant_except_break
            i <= cs.len(),
            cs@ == input@,
            bits < 8,
            buf < pow2(bits as nat),
            out@ + b64_decoded_from(cs@.skip(i as int), buf as nat, bits as nat) == b64_decoded(
                input@,
            ),
        ensures
            out@ == b64_decoded(input@),
        decreases cs.len() - i,
    {
        let ghost rest = cs@.skip(i as int);
        let c = cs[i];
        assert(rest[0] == c);
        assert(rest.skip(1) =~= cs@.skip(i + 1));
        if c == '=' {
            assert(out@ + Seq::<u8>::empty() =~= out@);
            break;
        }
        let ghost buf0 = buf as nat;
        let ghost bits0 = bits as nat;
        match b64_index_exec(c) {
            None => {
                assert(b64_decoded_from(rest, buf0, bits0) == b64_decoded_from(
                    rest.skip(1),
                    buf0,
                    bits0,
                ));
            },
            Some(v) => {
                proof {
                    lemma_pow2_shift(bits0);
                    lemma_pow2_small(bits0);
                }
                let b = buf * 64 + v;
                assert(b < pow2(bits0) * 64) by (nonlinear_arith)
                    requires
                        buf < pow2(bits0),
                        v < 64,
                        b == buf * 64 + v,
                ;
                if bits + 6 >= 8 {
                    let k = bits - 2;
                    let pw = pow2_exec(k);
                    proof {
                        lemma_pow2_shift(k as nat);
                        lemma_pow2_pos(k as nat);
                        assert(bits0 == k + 2);
                    }
                    assert(b / pw < 256) by (nonlinear_arith)
                        requires
                            b < pw * 256,
                            pw > 0,
                    ;
                    assert(b64_decoded_from(rest, buf0, bits0) == seq![byte((b / pw) as nat)]
                        + b64_decoded_from(rest.skip(1), (b % pw) as nat, k as nat));
                    let ghost before = out@;
                    out.push((b / pw) as u8);
                    buf = b % pw;
                    bits = k;
                    assert(out@ + b64_decoded_from(cs@.skip(i + 1), buf as nat, bits as nat)
                        =~= before + b64_decoded_from(rest, buf0, bits0));
                } else {
                    assert(b64_decoded_from(rest, buf0, bits0) == b64_decoded_from(
                        rest.skip(1),
                        b as nat,
                        bits0 + 6,
                    ));
                    buf = b;
                    bits = bits + 6;
                }
            },
        }
        i = i + 1;
    }
    out
}

} // verus!
