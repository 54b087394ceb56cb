//! Text helpers: UTF-8 decoding of names received on the wire and the
//! file-name sanitiser.

use vstd::prelude::*;
use vstd::utf8::{decode_utf8, valid_utf8};

verus! {

#[verifier::external_type_specification]
#[verifier::external_body]
pub struct ExFromUtf8Error(std::string::FromUtf8Error);

/// Calls `String::from_utf8`. Trusted: std documents that it succeeds exactly
/// when the bytes are valid UTF-8 and that the string then holds those bytes,
/// whose characters are their UTF-8 decoding.
#[verifier::external_body]
pub(crate) fn string_from_utf8(bytes: Vec<u8>) -> (r: Result<String, std::string::FromUtf8Error>)
    ensures
        r is Ok <==> valid_utf8(bytes@),
        r matches Ok(s) ==> s@ == decode_utf8(bytes@),
{
    String::from_utf8(bytes)
}


/// Calls `String::push`: the character is appended.
#[verifier::external_body]
fn string_push(s: &mut String, c: char)
    ensures
        final(s)@ == old(s)@.push(c),
{
    s.push(c)
}

/// Characters that could lead a received name out of the download folder
/// or that Windows refuses in a file name.
pub open spec fn is_forbidden_name_char(c: char) -> bool {
    c == '/' || c == '\\' || c == ':' || c == '*' || c == '?' || c == '"' || c == '<' || c == '>'
        || c == '|'
}

/// A forbidden character becomes `_`; every other character is kept.
pub open spec fn sanitize_char(c: char) -> char {
    if is_forbidden_name_char(c) {
        '_'
    } else {
        c
    }
}

pub open spec fn spec_sanitize_file_name(name: Seq<char>) -> Seq<char> {
    name.map_values(|c: char| sanitize_char(c))
}

/// Replaces path separators and other characters that are not allowed in a
/// file name by `_`, so that a received name cannot write outside the
/// download folder.
pub fn sanitize_file_name(name: &str) -> (r: String)
    ensures
        r@ == spec_sanitize_file_name(name@),
        r@.len() == name@.len(),
        forall|i: int| 0 <= i < r@.len() ==> !is_forbidden_name_char(#[trigger] r@[i]),
        forall|i: int|
            0 <= i < name@.len() ==> #[trigger] r@[i] == if is_forbidden_name_char(name@[i]) {
                '_'
            } else {
                name@[i]
            },
{
    let mut out = String::new();
    for c in it: name.chars()
        invariant
            it.seq() == name@,
            out@ == name@.take(it.index() as int).map_values(|c: char| sanitize_char(c)),
    {
        let mapped = match c {
            '/' | '\\' | ':' | '*' | '?' | '"' | '<' | '>' | '|' => '_',
            other => other,
        };
        proof {
            assert(name@.take(it.index() + 1) =~= name@.take(it.index() as int).push(c));
        }
        string_push(&mut out, mapped);
    }
    assert(name@.take(name@.len() as int) =~= name@);
    out
}

/// Sanitising keeps the name's length and every character except `/ \ : * ? " < > |`,
/// each of which becomes `_`.
pub proof fn lemma_sanitize_keeps_allowed_characters(name: Seq<char>)
    ensures
        ({
            let r = spec_sanitize_file_name(name);
            &&& r.len() == name.len()
            &&& forall|i: int| 0 <= i < name.len() ==> {
                let c = #[trigger] name[i];
                if c == '/' || c == '\\' || c == ':' || c == '*' || c == '?' || c == '"' || c
                    == '<' || c == '>' || c == '|' {
                    r[i] == '_'
                } else {
                    r[i] == c
                }
            }
        }),
{
}

/// The lower-case hexadecimal or decimal digit of `d` (below 16).
pub open spec fn digit_char(d: nat) -> char {
    if d < 10 {
        (48 + d) as char
    } else {
        (87 + d) as char
    }
}

/// The last `width` hexadecimal digits of `v`, lower case, most significant
/// first: what `{:0width$x}` prints for a value below `16^width`.
pub open spec fn hex_digits(v: nat, width: nat) -> Seq<char>
    decreases width,
{
    if width == 0 {
        Seq::empty()
    } else {
        hex_digits(v / 16, (width - 1) as nat).push(digit_char(v % 16))
    }
}

/// The decimal digits of `n`, most significant first, without leading zeros.
pub open spec fn decimal_digits(n: nat) -> Seq<char>
    decreases n,
{
    if n < 10 {
        seq![digit_char(n)]
    } else {
        decimal_digits(n / 10).push(digit_char(n % 10))
    }
}

fn digit(d: u64) -> (c: char)
    requires
        d < 16,
    ensures
        c == digit_char(d as nat),
{
    if d < 10 {
        ((48 + d) as u8) as char
    } else {
        ((87 + d) as u8) as char
    }
}

/// Appends the last `width` hexadecimal digits of `v`.
pub fn push_hex(s: &mut String, v: u64, width: u32)
    ensures
        final(s)@ == old(s)@ + hex_digits(v as nat, width as nat),
    decreases width,
{
    if width > 0 {
        push_hex(s, v / 16, width - 1);
        string_push(s, digit(v % 16));
    } else {
        assert(old(s)@ + hex_digits(v as nat, 0) =~= old(s)@);
    }
}

/// Appends the decimal digits of `n`.
pub fn push_decimal(s: &mut String, n: u64)
    ensures
        final(s)@ == old(s)@ + decimal_digits(n as nat),
    decreases n,
{
    if n >= 10 {
        push_decimal(s, n / 10);
    }
    string_push(s, digit(n % 10));
    assert(s@ =~= old(s)@ + decimal_digits(n as nat));
}

} // verus!
