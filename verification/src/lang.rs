//! Language names (ISO 639) and Unicode case mapping, as the `isolang` crate
//! and the standard library provide them.
use vstd::prelude::*;
use crate::text::{ascii_lower, ascii_upper, is_ascii_lower};

verus! {

/// The English name of the ISO 639-3 language with code `code`.
pub uninterp spec fn iso639_3_name(code: Seq<char>) -> Option<Seq<char>>;

/// The English name of the ISO 639-1 language with code `code`.
pub uninterp spec fn iso639_1_name(code: Seq<char>) -> Option<Seq<char>>;

/// The characters of `char::to_uppercase(c)`.
pub uninterp spec fn upper_of(c: char) -> Seq<char>;

/// `str::to_lowercase(s)`.
pub uninterp spec fn lower_of(s: Seq<char>) -> Seq<char>;

/// `isolang::Language::from_639_3(code)`, taken to the language's English
/// name (`Language::to_name`). The contract names the result and states
/// nothing of the table itself.
#[verifier::external_body]
fn from_639_3_name(code: &str) -> (r: Option<String>)
    ensures
        r matches Some(n) ==> iso639_3_name(code@) == Some(n@),
        r is None ==> iso639_3_name(code@) is None,
{
    match isolang::Language::from_639_3(code) {
        Some(l) => Some(l.to_name().to_string()),
        None => None,
    }
}

/// `isolang::Language::from_639_1(code)`, taken to the language's English
/// name (`Language::to_name`). The contract names the result and states
/// nothing of the table itself.
#[verifier::external_body]
fn from_639_1_name(code: &str) -> (r: Option<String>)
    ensures
        r matches Some(n) ==> iso639_1_name(code@) == Some(n@),
        r is None ==> iso639_1_name(code@) is None,
{
    match isolang::Language::from_639_1(code) {
        Some(l) => Some(l.to_name().to_string()),
        None => None,
    }
}

/// `char::to_uppercase(c)`, collected. The contract names the result and
/// states the ASCII case: a lower-case ASCII letter maps to its upper-case
/// letter, any other ASCII character to itself.
#[verifier::external_body]
pub(crate) fn char_to_uppercase(c: char) -> (r: String)
    ensures
        r@ == upper_of(c),
        is_ascii_lower(c) ==> r@ == seq![ascii_upper(c)],
        (c as u32) < 128 && !is_ascii_lower(c) ==> r@ == seq![c],
{
    c.to_uppercase().to_string()
}

/// `str::to_lowercase(s)`. The contract names the result and states the
/// ASCII case: an ASCII string maps character by character to its ASCII
/// lower case.
#[verifier::external_body]
pub(crate) fn str_to_lowercase(s: &str) -> (r: String)
    ensures
        r@ == lower_of(s@),
        vstd::utf8::is_ascii_chars(s@) ==> r@ == s@.map_values(|c: char| ascii_lower(c)),
{
    s.to_lowercase()
}

/// The display name of a language code: `?` for an empty code, else the
/// ISO 639-3 name, else the ISO 639-1 name, else the code itself.
pub open spec fn lang_name_spec(code: Seq<char>) -> Seq<char> {
    if code.len() == 0 {
        seq!['?']
    } else {
        match iso639_3_name(code) {
            Some(n) => n,
            None => match iso639_1_name(code) {
                Some(n) => n,
                None => code,
            },
        }
    }
}

pub fn lang_name(code: &str) -> (r: String)
    ensures
        r@ == lang_name_spec(code@),
{
    if code.is_empty() {
        let mut v: Vec<char> = Vec::new();
        v.push('?');
        assert(v@ =~= seq!['?']);
        return crate::text::string_of(&v);
    }
    match from_639_3_name(code) {
        Some(n) => n,
        None => match from_639_1_name(code) {
            Some(n) => n,
            None => crate::text::string_from(code),
        },
    }
}

} // verus!
