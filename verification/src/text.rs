//! Plain-text rendering helpers for diagnostics: decimal numbers and
//! ASCII tag characters.

use vstd::prelude::*;

verus! {

use vstd::string::StringExecFns;

/// The characters of a byte sequence, one character per byte.
pub open spec fn chars_of(s: Seq<u8>) -> Seq<char> {
    s.map(|_i: int, b: u8| b as char)
}

/// The character for one decimal digit.
pub open spec fn digit_char(d: int) -> char {
    ((48 + d) as u8) as char
}

/// The decimal rendering of `n`, most significant digit first.
pub open spec fn dec_chars(n: int) -> Seq<char>
    recommends
        n >= 0,
    decreases n,
{
    if n < 10 {
        seq![digit_char(n)]
    } else {
        dec_chars(n / 10) + seq![digit_char(n % 10)]
    }
}

/// Relies on `String::push`: appends exactly one character.
#[verifier::external_body]
fn push_char(s: &mut String, c: char)
    ensures
        final(s)@ == old(s)@ + seq![c],
{
    s.push(c);
}

/// Appends the decimal rendering of `n` to `s`.
pub fn push_dec_u32(s: &mut String, n: u32)
    ensures
        final(s)@ == old(s)@ + dec_chars(n as int),
    decreases n,
{
    if n >= 10 {
        push_dec_u32(s, n / 10);
    }
    let d: u8 = 48 + (n % 10) as u8;
    push_char(s, d as char);
    proof {
        assert(s@ =~= old(s)@ + dec_chars(n as int));
    }
}

/// Appends one character per byte of `data`, starting at index `from`.
pub fn push_chars_of(s: &mut String, data: &[u8], from: usize)
    requires
        from <= data@.len(),
    ensures
        final(s)@ == old(s)@ + chars_of(data@.skip(from as int)),
    decreases data@.len() - from,
{
    if from == data.len() {
        proof {
            assert(s@ =~= old(s)@ + chars_of(data@.skip(from as int)));
        }
        return ;
    }
    push_char(s, data[from] as char);
    push_chars_of(s, data, from + 1);
    proof {
        assert(s@ =~= old(s)@ + chars_of(data@.skip(from as int)));
    }
}

/// The rendering of a byte sequence as a bracket-free, comma-separated
/// decimal list.
pub open spec fn byte_list_chars(s: Seq<u8>) -> Seq<char>
    decreases s.len(),
{
    if s.len() == 0 {
        Seq::empty()
    } else if s.len() == 1 {
        dec_chars(s[0] as int)
    } else {
        dec_chars(s[0] as int) + ", "@ + byte_list_chars(s.skip(1))
    }
}

/// Appends the comma-separated decimal list of `data[from..]` to `s`.
pub fn push_byte_list(s: &mut String, data: &[u8], from: usize)
    requires
        from <= data@.len(),
    ensures
        final(s)@ == old(s)@ + byte_list_chars(data@.skip(from as int)),
    decreases data@.len() - from,
{
    if from == data.len() {
        proof {
            assert(s@ =~= old(s)@ + byte_list_chars(data@.skip(from as int)));
        }
        return ;
    }
    push_dec_u32(s, data[from] as u32);
    if from + 1 < data.len() {
        s.append(", ");
        push_byte_list(s, data, from + 1);
        proof {
            assert(data@.skip(from as int).skip(1) =~= data@.skip(from as int + 1));
            assert(s@ =~= old(s)@ + byte_list_chars(data@.skip(from as int)));
        }
    } else {
        proof {
            assert(data@.skip(from as int).len() == 1);
            assert(dec_chars(data@.skip(from as int)[0] as int) =~= dec_chars(data@[from as int] as int));
            assert(s@ =~= old(s)@ + byte_list_chars(data@.skip(from as int)));
        }
    }
}

} // verus!
