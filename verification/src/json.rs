//! JSON text of string arrays, produced with `serde_json`.

use vstd::prelude::*;

verus! {

#[verifier::external_type_specification]
#[verifier::external_body]
pub struct ExJsonError(serde_json::Error);

/// The lowercase hexadecimal digit for `n` in `0..16`.
pub open spec fn hex_digit(n: int) -> char {
    if n < 10 {
        (48 + n) as char
    } else {
        (87 + n) as char
    }
}

/// How a JSON string literal writes the character `c`: quote, backslash and
/// the control characters below U+0020 are escaped, everything else stands
/// as it is.
pub open spec fn json_escape_char(c: char) -> Seq<char> {
    if c == '"' {
        seq!['\\', '"']
    } else if c == '\\' {
        seq!['\\', '\\']
    } else if c == '\n' {
        seq!['\\', 'n']
    } else if c == '\r' {
        seq!['\\', 'r']
    } else if c == '\t' {
        seq!['\\', 't']
    } else if c == '\u{8}' {
        seq!['\\', 'b']
    } else if c == '\u{c}' {
        seq!['\\', 'f']
    } else if (c as int) < 32 {
        seq!['\\', 'u', '0', '0', hex_digit((c as int) / 16), hex_digit((c as int) % 16)]
    } else {
        seq![c]
    }
}

/// The escaped characters of `s`.
pub open spec fn json_escape(s: Seq<char>) -> Seq<char>
    decreases s.len(),
{
    if s.len() == 0 {
        Seq::empty()
    } else {
        json_escape_char(s[0]) + json_escape(s.drop_first())
    }
}

/// The compact JSON literal of the string `s`.
pub open spec fn json_string(s: Seq<char>) -> Seq<char> {
    seq!['"'] + json_escape(s) + seq!['"']
}

/// The compact JSON text of the two-element array `[a, b]` of strings.
pub open spec fn json_string_pair(a: Seq<char>, b: Seq<char>) -> Seq<char> {
    seq!['['] + json_string(a) + seq![','] + json_string(b) + seq![']']
}

/// `w` is JSON whitespace: spaces, tabs, line feeds and carriage returns.
pub open spec fn json_ws(w: Seq<char>) -> bool {
    forall|i: int| 0 <= i < w.len() ==> w[i] == ' ' || w[i] == '\t' || w[i] == '\n' || w[i] == '\r'
}

/// `w` holds the six runs of whitespace that may stand around the tokens of
/// a two-item JSON array.
pub open spec fn json_layout(w: Seq<Seq<char>>) -> bool {
    w.len() == 6 && forall|i: int| 0 <= i < 6 ==> json_ws(#[trigger] w[i])
}

/// The JSON text of the array `[a, b]` of strings, with the whitespace `w`
/// before `[`, after `[`, before and after `,`, before `]` and after `]`.
pub open spec fn spaced_string_pair(a: Seq<char>, b: Seq<char>, w: Seq<Seq<char>>) -> Seq<char> {
    w[0] + seq!['['] + w[1] + json_string(a) + w[2] + seq![','] + w[3] + json_string(b) + w[4]
        + seq![']'] + w[5]
}

/// Serializes the array `[a, b]` with `serde_json::to_string`. The contract
/// claims that the call succeeds (its documentation names as the only
/// failures a `Serialize` impl that fails and a map with non-string keys;
/// strings and arrays of them serialize into a `Vec` without either) and
/// gives the compact text with serde_json's escaping.
#[verifier::external_body]
pub fn encode_string_pair(a: &str, b: &str) -> (r: Result<String, serde_json::Error>)
    ensures
        r is Ok,
        r matches Ok(t) ==> t@ == json_string_pair(a@, b@),
{
    serde_json::to_string(&[a, b])
}

} // verus!
