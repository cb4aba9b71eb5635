//! Building blocks for the texts that tokens and diagnostics carry.

use vstd::prelude::*;
use vstd::string::*;
use vstd::utf8::*;

verus! {

/// The text with which the standard library describes why `bytes` is not well-formed UTF-8.
pub uninterp spec fn utf8_error_text(bytes: Seq<u8>) -> Seq<char>;

/// The text that the standard `Debug` formatting gives for a string: quoted and escaped.
pub uninterp spec fn debug_text(text: Seq<char>) -> Seq<char>;

/// Each byte read as the character with the same code (U+0000 to U+00FF).
pub open spec fn latin1_text(bytes: Seq<u8>) -> Seq<char> {
    Seq::new(bytes.len(), |i: int| bytes[i] as char)
}

/// The character of a decimal digit.
pub open spec fn digit_char(d: nat) -> char
    recommends
        d < 10,
{
    ((48 + d) as u8) as char
}

/// A natural number written in base ten without leading zeros.
pub open spec fn decimal_text(n: nat) -> Seq<char>
    decreases n,
{
    if n < 10 {
        seq![digit_char(n)]
    } else {
        decimal_text(n / 10).push(digit_char(n % 10))
    }
}

/// `head`, then `body`, then a closing backquote: the shape of every diagnostic
/// that quotes the offending input.
pub open spec fn quoted(head: Seq<char>, body: Seq<char>) -> Seq<char> {
    head + body + seq!['`']
}

/// `String::push`: appends one character to the end of the string.
#[verifier::external_body]
pub(crate) fn push_char(s: &mut String, c: char)
    ensures
        final(s)@ == old(s)@.push(c),
{
    s.push(c);
}

/// `String::from_utf8`: succeeds exactly on well-formed UTF-8 and then holds the
/// decoded characters. Where it fails, the result is the text that `to_string`
/// gives for its error.
#[verifier::external_body]
pub(crate) fn string_from_utf8(bytes: Vec<u8>) -> (r: Result<String, String>)
    ensures
        r is Ok <==> valid_utf8(bytes@),
        r matches Ok(s) ==> s@ == decode_utf8(bytes@),
        r matches Err(m) ==> m@ == utf8_error_text(bytes@),
{
    match String::from_utf8(bytes) {
        Ok(s) => Ok(s),
        Err(e) => Err(e.to_string()),
    }
}

/// `char::from_u32`: the character with the given code, where the code is a
/// Unicode scalar value, and nothing where it is not.
#[verifier::external_body]
pub(crate) fn char_from_u32(code: u32) -> (r: Option<char>)
    ensures
        r is Some <==> is_scalar(code),
        r matches Some(c) ==> c as u32 == code,
{
    char::from_u32(code)
}

/// `char::encode_utf8`: the one to four bytes that encode the character in UTF-8.
#[verifier::external_body]
pub(crate) fn encode_char(c: char) -> (r: Vec<u8>)
    ensures
        r@ == encode_scalar(c as u32),
{
    let mut bytes = [0u8; 4];
    c.encode_utf8(&mut bytes).as_bytes().to_vec()
}

/// `format!("{:?}", ..)` on a string slice: its `Debug` rendering.
#[verifier::external_body]
pub(crate) fn debug_quote(text: &str) -> (r: String)
    ensures
        r@ == debug_text(text@),
{
    format!("{:?}", text)
}

/// Appends the decimal digits of `n` to `s`.
pub fn push_decimal(s: &mut String, n: u32)
    ensures
        final(s)@ == old(s)@ + decimal_text(n as nat),
    decreases n,
{
    if n >= 10 {
        push_decimal(s, n / 10);
    }
    let d: u8 = (n % 10) as u8;
    push_char(s, (48 + d) as char);
    proof {
        let n0 = n as nat;
        if n0 >= 10 {
            assert(s@ =~= old(s)@ + decimal_text(n0 / 10).push(digit_char(n0 % 10)));
        } else {
            assert(s@ =~= old(s)@ + seq![digit_char(n0)]);
        }
    }
}

/// The characters whose codes are the given bytes.
pub fn latin1_string(bytes: &Vec<u8>) -> (r: String)
    ensures
        r@ == latin1_text(bytes@),
{
    let mut r = String::new();
    let mut i: usize = 0;
    while i < bytes.len()
        invariant
            i <= bytes.len(),
            r@ == latin1_text(bytes@.take(i as int)),
        decreases bytes.len() - i,
    {
        push_char(&mut r, bytes[i] as char);
        proof {
            assert(bytes@.take(i + 1) =~= bytes@.take(i as int).push(bytes@[i as int]));
            assert(r@ =~= latin1_text(bytes@.take(i + 1)));
        }
        i = i + 1;
    }
    proof {
        assert(bytes@.take(i as int) =~= bytes@);
    }
    r
}

/// A diagnostic that quotes `body` after the fixed text `head`.
pub fn quote_message(head: &str, body: &str) -> (r: String)
    ensures
        r@ == quoted(head@, body@),
{
    let mut r = String::from_str(head);
    r.append(body);
    push_char(&mut r, '`');
    r
}

/// A diagnostic that quotes the single character `c` after the fixed text `head`.
pub fn quote_char_message(head: &str, c: char) -> (r: String)
    ensures
        r@ == quoted(head@, seq![c]),
{
    let mut r = String::from_str(head);
    push_char(&mut r, c);
    push_char(&mut r, '`');
    proof {
        assert(r@ =~= quoted(head@, seq![c]));
    }
    r
}

} // verus!
