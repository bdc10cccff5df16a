//! Exact JSON text of the wire protocol: string escaping as the canonical
//! serializer writes it, and helpers for building message texts character
//! by character.

use crate::text::{hex_digit_char, push_hex_char, str_to_chars};
use vstd::prelude::*;

verus! {

/// The rendering of one character inside a JSON string: the two-character
/// escapes for quote, backslash and the five named control characters, the
/// six-character `\u00..` escape for every other control character, and
/// the character itself for everything else.
pub open spec fn spec_escape_char(c: char) -> Seq<char> {
    if c == '"' {
        seq!['\\', '"']
    } else if c == '\\' {
        seq!['\\', '\\']
    } else if c == '\u{8}' {
        seq!['\\', 'b']
    } else if c == '\u{9}' {
        seq!['\\', 't']
    } else if c == '\u{A}' {
        seq!['\\', 'n']
    } else if c == '\u{C}' {
        seq!['\\', 'f']
    } else if c == '\u{D}' {
        seq!['\\', 'r']
    } else if (c as u32) < 32 {
        seq!['\\', 'u', '0', '0', hex_digit_char(((c as u32) / 16) as u8), hex_digit_char(
            ((c as u32) % 16) as u8,
        )]
    } else {
        seq![c]
    }
}

/// The rendering of a whole text inside a JSON string: each character
/// escaped, in order.
pub open spec fn spec_json_escape(s: Seq<char>) -> Seq<char>
    decreases s.len(),
{
    if s.len() == 0 {
        Seq::empty()
    } else {
        spec_json_escape(s.drop_last()) + spec_escape_char(s.last())
    }
}

/// Append the escaped rendering of one character.
pub fn push_escaped_char(out: &mut Vec<char>, c: char)
    ensures
        final(out)@ == old(out)@ + spec_escape_char(c),
{
    if c == '"' {
        out.push('\\');
        out.push('"');
    } else if c == '\\' {
        out.push('\\');
        out.push('\\');
    } else if c == '\u{8}' {
        out.push('\\');
        out.push('b');
    } else if c == '\u{9}' {
        out.push('\\');
        out.push('t');
    } else if c == '\u{A}' {
        out.push('\\');
        out.push('n');
    } else if c == '\u{C}' {
        out.push('\\');
        out.push('f');
    } else if c == '\u{D}' {
        out.push('\\');
        out.push('r');
    } else if (c as u32) < 32 {
        let cu = c as u32;
        out.push('\\');
        out.push('u');
        out.push('0');
        out.push('0');
        push_hex_char(out, (cu / 16) as u8);
        push_hex_char(out, (cu % 16) as u8);
    } else {
        out.push(c);
    }
    assert(out@ =~= old(out)@ + spec_escape_char(c));
}

/// Append the escaped rendering of a whole text.
pub fn push_escaped(out: &mut Vec<char>, s: &Vec<char>)
    ensures
        final(out)@ == old(out)@ + spec_json_escape(s@),
{
    let mut i: usize = 0;
    while i < s.len()
        invariant
            i <= s@.len(),
            out@ == old(out)@ + spec_json_escape(s@.take(i as int)),
        decreases s@.len() - i,
    {
        push_escaped_char(out, s[i]);
        proof {
            assert(s@.take(i + 1 as int).drop_last() =~= s@.take(i as int));
            assert(s@.take(i + 1 as int).last() == s@[i as int]);
        }
        i += 1;
    }
    proof {
        assert(s@.take(s@.len() as int) =~= s@);
    }
}

/// Append the characters of a literal piece of message text, unescaped.
pub fn push_literal(out: &mut Vec<char>, s: &str)
    ensures
        final(out)@ == old(out)@ + s@,
{
    let chars = str_to_chars(s);
    let mut i: usize = 0;
    while i < chars.len()
        invariant
            i <= chars@.len(),
            chars@ == s@,
            out@ == old(out)@ + chars@.take(i as int),
        decreases chars@.len() - i,
    {
        out.push(chars[i]);
        proof {
            assert(chars@.take(i + 1 as int) =~= chars@.take(i as int).push(chars@[i as int]));
            assert(old(out)@ + chars@.take(i + 1 as int) =~= (old(out)@ + chars@.take(
                i as int,
            )).push(chars@[i as int]));
        }
        i += 1;
    }
    proof {
        assert(chars@.take(chars@.len() as int) =~= chars@);
    }
}

/// The error body answered by every failing HTTP request:
/// `{"error":"..."}` with the message escaped.
pub open spec fn spec_error_body_json(message: Seq<char>) -> Seq<char> {
    "{\"error\":\""@ + spec_json_escape(message) + "\"}"@
}

/// Build the error body for a failing HTTP request.
pub fn error_body_json(message: &str) -> (r: Vec<char>)
    ensures
        r@ == spec_error_body_json(message@),
{
    let mut out: Vec<char> = Vec::new();
    push_literal(&mut out, "{\"error\":\"");
    let msg = str_to_chars(message);
    push_escaped(&mut out, &msg);
    push_literal(&mut out, "\"}");
    out
}

} // verus!
