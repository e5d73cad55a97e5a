//! Failure kinds of the durability operations, and the helpers that
//! build their human-readable texts.

use vstd::prelude::*;
use vstd::string::StringExecFns;
use vstd::utf8::{
    encode_utf8, valid_utf8, is_ascii_chars, is_ascii_chars_encode_utf8, encode_utf8_valid_utf8,
    encode_utf8_decode_utf8,
};

verus! {

/// How a durability operation fails: an underlying I/O failure
/// (described by the shell that performed the read or write, or a
/// truncated file found while decoding), or a malformed file
/// (`DbError`), such as an unknown column type code.
#[derive(Debug)]
pub enum DurabilityError {
    IoError(String),
    DbError(String),
}

impl DurabilityError {
    /// A human-readable description of the failure.
    pub fn message(&self) -> (r: &String)
        ensures
            self matches DurabilityError::IoError(m) ==> r@ == m@,
            self matches DurabilityError::DbError(m) ==> r@ == m@,
    {
        match self {
            DurabilityError::IoError(m) => m,
            DurabilityError::DbError(m) => m,
        }
    }
}

/// Relies on `String::from_utf8`: decoding succeeds exactly on valid
/// UTF-8, and the returned string's UTF-8 bytes are exactly the input
/// bytes.
#[verifier::external_body]
pub(crate) fn string_from_utf8(v: Vec<u8>) -> (r: Option<String>)
    ensures
        r matches Some(s) ==> encode_utf8(s@) == v@,
        r is Some <==> valid_utf8(v@),
{
    String::from_utf8(v).ok()
}

/// The character for one decimal digit.
pub open spec fn spec_digit_char(d: int) -> char
    recommends
        0 <= d <= 9,
{
    if d == 0 {
        '0'
    } else if d == 1 {
        '1'
    } else if d == 2 {
        '2'
    } else if d == 3 {
        '3'
    } else if d == 4 {
        '4'
    } else if d == 5 {
        '5'
    } else if d == 6 {
        '6'
    } else if d == 7 {
        '7'
    } else if d == 8 {
        '8'
    } else {
        '9'
    }
}

/// The decimal digit characters of a non-negative number, most
/// significant first.
pub open spec fn spec_decimal_digits(v: int) -> Seq<char>
    recommends
        v >= 0,
    decreases v,
{
    if v < 10 {
        seq![spec_digit_char(v)]
    } else {
        spec_decimal_digits(v / 10) + seq![spec_digit_char(v % 10)]
    }
}

/// Decimal digit characters are ASCII and encode to their own code
/// points.
proof fn lemma_decimal_digits_ascii(v: int)
    requires
        v >= 0,
    ensures
        is_ascii_chars(spec_decimal_digits(v)),
        spec_decimal_digits(v).len() >= 1,
    decreases v,
{
    if v < 10 {
        assert(is_ascii_chars(spec_decimal_digits(v)));
    } else {
        lemma_decimal_digits_ascii(v / 10);
        let head = spec_decimal_digits(v / 10);
        let tail = seq![spec_digit_char(v % 10)];
        assert(is_ascii_chars(tail));
        assert forall|i: int| 0 <= i < (head + tail).len() implies '\0' <= #[trigger] (head
            + tail)[i] <= '\u{7f}' by {
            if i < head.len() {
                assert('\0' <= head[i] <= '\u{7f}');
            }
        }
    }
}

/// Appends the ASCII bytes of the decimal digits of `v`.
fn push_decimal_bytes(v: u64, out: &mut Vec<u8>)
    ensures
        final(out)@ == old(out)@ + spec_decimal_digits(v as int).map_values(|c: char| c as u8),
    decreases v,
{
    let ghost digits = spec_decimal_digits(v as int);
    if v < 10 {
        out.push((48 + v) as u8);
        proof {
            assert(spec_digit_char(v as int) as u8 == 48 + v);
            assert(final(out)@ =~= old(out)@ + digits.map_values(|c: char| c as u8));
        }
    } else {
        push_decimal_bytes(v / 10, out);
        out.push((48 + v % 10) as u8);
        proof {
            let head = spec_decimal_digits(v as int / 10).map_values(|c: char| c as u8);
            assert(spec_digit_char(v as int % 10) as u8 == 48 + v % 10);
            assert(digits.map_values(|c: char| c as u8) =~= head + seq![(48 + v % 10) as u8]);
            assert(final(out)@ =~= old(out)@ + digits.map_values(|c: char| c as u8));
        }
    }
}

/// The decimal text of a number, for failure messages.
pub fn decimal_string(v: u64) -> (s: String)
    ensures
        s@ == spec_decimal_digits(v as int),
{
    let mut bytes: Vec<u8> = Vec::new();
    push_decimal_bytes(v, &mut bytes);
    let ghost digits = spec_decimal_digits(v as int);
    proof {
        lemma_decimal_digits_ascii(v as int);
        is_ascii_chars_encode_utf8(digits);
        assert(bytes@ =~= encode_utf8(digits));
        encode_utf8_valid_utf8(digits);
    }
    match string_from_utf8(bytes) {
        Some(s) => {
            proof {
                encode_utf8_decode_utf8(s@);
                encode_utf8_decode_utf8(digits);
            }
            s
        },
        None => {
            proof {
                assert(false);
            }
            String::new()
        },
    }
}

} // verus!
