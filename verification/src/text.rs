//! Character-level text utilities shared by the wire-format builders:
//! conversion between `String` and `Vec<char>`, decimal rendering of
//! unsigned integers, and hexadecimal rendering of bytes.

use vstd::prelude::*;
use vstd::string::StrSliceExecFns;

verus! {

/// The decimal digit character for a value below ten.
pub open spec fn dec_digit_char(d: u64) -> char {
    if d == 0 {
        '0'
    } else if d == 1 {
        '1'
    } else if d == 2 {
        '2'
    } else if d == 3 {
        '3'
    } else if d == 4 {
        '4'
    } else if d == 5 {
        '5'
    } else if d == 6 {
        '6'
    } else if d == 7 {
        '7'
    } else if d == 8 {
        '8'
    } else {
        '9'
    }
}

/// The decimal rendering of `n`, most significant digit first, with no
/// leading zero except for `n == 0` itself.
pub open spec fn spec_dec_u64(n: u64) -> Seq<char>
    decreases n,
{
    if n < 10 {
        seq![dec_digit_char(n)]
    } else {
        spec_dec_u64(n / 10).push(dec_digit_char(n % 10))
    }
}

/// Render an unsigned integer in decimal.
pub fn dec_u64_chars(n: u64) -> (r: Vec<char>)
    ensures
        r@ == spec_dec_u64(n),
{
    let mut out: Vec<char> = Vec::new();
    if n < 10 {
        out.push(dec_digit(n));
        assert(out@ =~= spec_dec_u64(n));
        return out;
    }
    let mut m: u64 = n;
    while m > 0
        invariant
            m > 0 ==> spec_dec_u64(n) =~= spec_dec_u64(m) + out@,
            m == 0 ==> spec_dec_u64(n) =~= out@,
        decreases m,
    {
        let d = m % 10;
        out.insert(0, dec_digit(d));
        let next = m / 10;
        proof {
            if next > 0 {
                assert(spec_dec_u64(m) =~= spec_dec_u64(m / 10) + seq![dec_digit_char(m % 10)]);
            } else {
                assert(m < 10);
                assert(m % 10 == m);
                assert(spec_dec_u64(m) =~= seq![dec_digit_char(m)]);
            }
        }
        m = next;
    }
    assert(out@ =~= spec_dec_u64(n));
    out
}

fn dec_digit(d: u64) -> (r: char)
    requires
        d < 10,
    ensures
        r == dec_digit_char(d),
{
    if d == 0 {
        '0'
    } else if d == 1 {
        '1'
    } else if d == 2 {
        '2'
    } else if d == 3 {
        '3'
    } else if d == 4 {
        '4'
    } else if d == 5 {
        '5'
    } else if d == 6 {
        '6'
    } else if d == 7 {
        '7'
    } else if d == 8 {
        '8'
    } else {
        '9'
    }
}

/// The lowercase hexadecimal digit character for a value below sixteen.
pub open spec fn hex_digit_char(d: u8) -> char {
    if d < 10 {
        dec_digit_char(d as u64)
    } else if d == 10 {
        'a'
    } else if d == 11 {
        'b'
    } else if d == 12 {
        'c'
    } else if d == 13 {
        'd'
    } else if d == 14 {
        'e'
    } else {
        'f'
    }
}

/// A lowercase hexadecimal digit character.
pub open spec fn is_hex_char(c: char) -> bool {
    exists|d: u8| d < 16 && c == hex_digit_char(d)
}

/// Two lowercase hexadecimal digits for one byte, high nibble first.
pub open spec fn spec_hex_byte(b: u8) -> Seq<char> {
    seq![hex_digit_char(b / 16), hex_digit_char(b % 16)]
}

/// The lowercase hexadecimal rendering of a byte string, two digits per
/// byte, in order.
pub open spec fn spec_hex(bs: Seq<u8>) -> Seq<char>
    decreases bs.len(),
{
    if bs.len() == 0 {
        Seq::empty()
    } else {
        spec_hex(bs.drop_last()) + spec_hex_byte(bs.last())
    }
}

fn hex_digit(d: u8) -> (r: char)
    requires
        d < 16,
    ensures
        r == hex_digit_char(d),
{
    if d < 10 {
        dec_digit(d as u64)
    } else if d == 10 {
        'a'
    } else if d == 11 {
        'b'
    } else if d == 12 {
        'c'
    } else if d == 13 {
        'd'
    } else if d == 14 {
        'e'
    } else {
        'f'
    }
}

/// Append one hexadecimal digit character.
pub fn push_hex_char(out: &mut Vec<char>, d: u8)
    requires
        d < 16,
    ensures
        final(out)@ == old(out)@.push(hex_digit_char(d)),
{
    out.push(hex_digit(d));
}

/// Append the two hexadecimal digits of one byte.
pub fn push_hex_byte(out: &mut Vec<char>, b: u8)
    ensures
        final(out)@ == old(out)@ + spec_hex_byte(b),
{
    out.push(hex_digit(b / 16));
    out.push(hex_digit(b % 16));
    assert(out@ =~= old(out)@ + spec_hex_byte(b));
}

/// A hexadecimal rendering holds nothing but hexadecimal digits.
pub proof fn lemma_hex_chars_are_hex(bs: Seq<u8>)
    ensures
        forall|i: int| 0 <= i < spec_hex(bs).len() ==> is_hex_char(#[trigger] spec_hex(bs)[i]),
    decreases bs.len(),
{
    if bs.len() > 0 {
        lemma_hex_chars_are_hex(bs.drop_last());
        let whole = spec_hex(bs);
        let head = spec_hex(bs.drop_last());
        let b = bs.last();
        assert forall|i: int| 0 <= i < whole.len() implies is_hex_char(#[trigger] whole[i]) by {
            if i < head.len() {
                assert(whole[i] == head[i]);
            } else if i == head.len() {
                let d = b / 16;
                assert(d < 16 && whole[i] == hex_digit_char(d));
            } else {
                let d = b % 16;
                assert(d < 16 && whole[i] == hex_digit_char(d));
            }
        }
    }
}

/// Render a byte string in lowercase hexadecimal.
pub fn hex_chars(bs: &[u8]) -> (r: Vec<char>)
    ensures
        r@ == spec_hex(bs@),
        r@.len() == 2 * bs@.len(),
{
    let mut out: Vec<char> = Vec::new();
    let mut i: usize = 0;
    while i < bs.len()
        invariant
            i <= bs@.len(),
            out@ == spec_hex(bs@.take(i as int)),
            out@.len() == 2 * i,
        decreases bs@.len() - i,
    {
        push_hex_byte(&mut out, bs[i]);
        proof {
            assert(bs@.take(i + 1 as int).drop_last() =~= bs@.take(i as int));
            assert(bs@.take(i + 1 as int).last() == bs@[i as int]);
            assert(spec_hex(bs@.take(i + 1 as int)) =~= spec_hex(bs@.take(i as int))
                + spec_hex_byte(bs@[i as int]));
        }
        i += 1;
    }
    proof {
        assert(bs@.take(bs@.len() as int) =~= bs@);
    }
    out
}

/// Append the decimal rendering of an unsigned integer.
pub fn push_dec_u64(out: &mut Vec<char>, n: u64)
    ensures
        final(out)@ == old(out)@ + spec_dec_u64(n),
{
    let ds = dec_u64_chars(n);
    let ghost base: Seq<char> = out@;
    let mut k: usize = 0;
    while k < ds.len()
        invariant
            k <= ds@.len(),
            ds@ == spec_dec_u64(n),
            out@ == base + ds@.take(k as int),
        decreases ds@.len() - k,
    {
        out.push(ds[k]);
        proof {
            assert(base + ds@.take(k + 1 as int) =~= (base + ds@.take(k as int)).push(
                ds@[k as int],
            ));
        }
        k += 1;
    }
    proof {
        assert(ds@.take(ds@.len() as int) =~= ds@);
    }
}

/// Collect the characters of a string slice into a vector, in order.
pub fn str_to_chars(s: &str) -> (r: Vec<char>)
    ensures
        r@ == s@,
{
    let n = s.unicode_len();
    let mut out: Vec<char> = Vec::new();
    let mut i: usize = 0;
    while i < n
        invariant
            i <= n,
            n == s@.len(),
            out@ == s@.take(i as int),
        decreases n - i,
    {
        out.push(s.get_char(i));
        proof {
            assert(s@.take(i + 1 as int) =~= s@.take(i as int).push(s@[i as int]));
        }
        i += 1;
    }
    proof {
        assert(s@.take(n as int) =~= s@);
    }
    out
}

/// Two string slices hold the same text.
pub fn str_eq(a: &str, b: &str) -> (r: bool)
    ensures
        r == (a@ == b@),
{
    let av = str_to_chars(a);
    let bv = str_to_chars(b);
    if av.len() != bv.len() {
        return false;
    }
    let mut i: usize = 0;
    while i < av.len()
        invariant
            i <= av@.len(),
            av@.len() == bv@.len(),
            av@ == a@ && bv@ == b@,
            forall|j: int| 0 <= j < i ==> av@[j] == bv@[j],
        decreases av@.len() - i,
    {
        if av[i] != bv[i] {
            return false;
        }
        i += 1;
    }
    assert(a@ =~= b@);
    true
}

/// Relies on `String: FromIterator<char>`: collecting characters yields the
/// string made of exactly those characters, in order.
#[verifier::external_body]
pub fn chars_to_string(v: &Vec<char>) -> (r: String)
    ensures
        r@ == v@,
{
    v.iter().collect()
}

} // verus!
