//! JSON string literals: the sentence scanner and the frontmatter reader accept them as quoted
//! text, and the formatter writes them where plain text would not read back.
use vstd::prelude::*;

verus! {

/// The string denoted by the JSON text `raw`, when `raw` is exactly one JSON string literal.
pub uninterp spec fn json_string_value(raw: Seq<char>) -> Option<Seq<char>>;

/// Reads `raw` as one JSON string with `serde_json::from_str::<String>`; `None` when serde_json
/// rejects it. What serde_json accepts and how it unescapes is not restated here.
#[verifier::external_body]
pub fn decode_json_string(raw: &str) -> (r: Option<String>)
    ensures
        match r {
            Some(v) => json_string_value(raw@) == Some(v@),
            None => json_string_value(raw@) is None,
        },
{
    serde_json::from_str::<String>(raw).ok()
}

/// The lower-case hexadecimal digit for `n` below 16.
pub open spec fn lower_hex(n: int) -> char {
    seq!['0', '1', '2', '3', '4', '5', '6', '7', '8', '9', 'a', 'b', 'c', 'd', 'e', 'f'][n]
}

/// How a JSON string literal writes the character `c`: the double quote and the backslash
/// after a backslash, the control characters that have a short escape by it, the other
/// control characters as `\u00` and two lower-case hexadecimal digits, and every other
/// character as it is.
pub open spec fn json_escape(c: char) -> Seq<char> {
    if c == '"' {
        seq!['\\', '"']
    } else if c == '\\' {
        seq!['\\', '\\']
    } else if c == '\u{8}' {
        seq!['\\', 'b']
    } else if c == '\t' {
        seq!['\\', 't']
    } else if c == '\n' {
        seq!['\\', 'n']
    } else if c == '\u{c}' {
        seq!['\\', 'f']
    } else if c == '\r' {
        seq!['\\', 'r']
    } else if (c as u32) < 0x20 {
        seq!['\\', 'u', '0', '0', lower_hex((c as u32) as int / 16), lower_hex((c as u32) as int % 16)]
    } else {
        seq![c]
    }
}

/// The characters of `s`, each written as a JSON string literal writes it.
pub open spec fn json_escaped(s: Seq<char>) -> Seq<char>
    decreases s.len(),
{
    if s.len() == 0 {
        Seq::empty()
    } else {
        json_escaped(s.drop_last()) + json_escape(s.last())
    }
}

/// The JSON string literal that denotes `s`.
pub open spec fn json_quoted(s: Seq<char>) -> Seq<char> {
    seq!['"'] + json_escaped(s) + seq!['"']
}

/// Writes `s` as one JSON string literal with `serde_json::to_string::<str>`, which does not
/// fail on a string: serde_json's compact formatter writes a double quote, each character of
/// `s` escaped by its table as [`json_escape`] states it, and a closing double quote; and
/// `serde_json::from_str::<String>` reads that text back as `s`.
#[verifier::external_body]
pub fn encode_json_string(s: &str) -> (r: String)
    ensures
        r@ == json_quoted(s@),
        json_string_value(r@) == Some(s@),
{
    match serde_json::to_string(s) {
        Ok(t) => t,
        Err(_) => String::new(),
    }
}

} // verus!
