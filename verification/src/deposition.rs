use vstd::prelude::*;

use crate::bytes::{read_u64_le, u64_le};
use crate::composite::{
    composite_valid, decode_composite, decode_error, field_span, CompositeView,
};
use crate::error::CodecError;

verus! {

/// `c` is an ASCII hexadecimal digit, upper or lower case.
pub open spec fn is_hex_digit(c: char) -> bool {
    let v = c as int;
    ('0' as int <= v && v <= '9' as int) || ('a' as int <= v && v <= 'f' as int) || (
    'A' as int <= v && v <= 'F' as int)
}

/// The numeric value of a hexadecimal digit.
pub open spec fn hex_digit_val(c: char) -> int
    recommends
        is_hex_digit(c),
{
    let v = c as int;
    if '0' as int <= v && v <= '9' as int {
        v - '0' as int
    } else if 'a' as int <= v && v <= 'f' as int {
        v - 'a' as int + 10
    } else {
        v - 'A' as int + 10
    }
}

/// `s` is a well-formed hexadecimal string: an even number of hex digits.
pub open spec fn hex_valid(s: Seq<char>) -> bool {
    s.len() % 2 == 0 && forall|i: int| 0 <= i < s.len() ==> is_hex_digit(#[trigger] s[i])
}

/// The bytes a well-formed hexadecimal string denotes: one byte per digit
/// pair, high nibble first.
pub open spec fn hex_bytes(s: Seq<char>) -> Seq<u8>
    recommends
        hex_valid(s),
{
    Seq::new(
        (s.len() / 2) as nat,
        |i: int| (hex_digit_val(s[2 * i]) * 16 + hex_digit_val(s[2 * i + 1])) as u8,
    )
}

#[verifier::external_type_specification]
#[verifier::external_body]
pub struct ExFromHexError(hex::FromHexError);

/// Relies on `hex::decode`: it succeeds exactly on strings made of an even
/// number of ASCII hexadecimal digits (upper or lower case) and turns each
/// digit pair into one byte, high nibble first.
#[verifier::external_body]
fn decode_hex_str(s: &str) -> (r: Result<Vec<u8>, hex::FromHexError>)
    ensures
        r is Ok <==> hex_valid(s@),
        r is Ok ==> r->Ok_0@ == hex_bytes(s@),
{
    hex::decode(s)
}

/// Schema fact: the deposition lock arguments composite has three fields.
pub const DEPOSITION_FIELD_COUNT: usize = 3;

/// Schema fact: the cancellation timeout is the composite's third field.
pub const CANCEL_TIMEOUT_INDEX: usize = 2;

/// Schema fact: the cancellation timeout is a fixed-width 8-byte scalar.
pub const CANCEL_TIMEOUT_WIDTH: usize = 8;

/// A decoded deposition lock arguments value: a validated three-field
/// composite over a caller-held buffer.
#[derive(Debug)]
pub struct DepositionLockArgs {
    pub composite: CompositeView,
}

impl DepositionLockArgs {
    /// The value was decoded from buffer contents `buf`.
    pub open spec fn wf(self, buf: Seq<u8>) -> bool {
        &&& self.composite.wf(buf)
        &&& self.composite.spec_field_count() == DEPOSITION_FIELD_COUNT as int
    }

    /// The byte span that holds the cancellation timeout field.
    pub open spec fn spec_cancel_timeout_span(buf: Seq<u8>) -> Seq<u8> {
        field_span(buf, CANCEL_TIMEOUT_INDEX as int)
    }

    /// Validates `buffer` as a deposition lock arguments composite.
    pub fn from_slice(buffer: &Vec<u8>) -> (r: Result<DepositionLockArgs, CodecError>)
        ensures
            r is Ok <==> composite_valid(buffer@, DEPOSITION_FIELD_COUNT as int),
            r is Ok ==> r->Ok_0.wf(buffer@),
            r is Err ==> r->Err_0 == decode_error(buffer@, DEPOSITION_FIELD_COUNT as int),
    {
        match decode_composite(buffer, DEPOSITION_FIELD_COUNT) {
            Ok(c) => Ok(DepositionLockArgs { composite: c }),
            Err(e) => Err(e),
        }
    }

    /// The raw byte span of the cancellation timeout field; fails with
    /// `FieldWidthMismatch` unless that span is exactly 8 bytes wide.
    pub fn cancel_timeout_bytes(&self, buffer: &Vec<u8>) -> (r: Result<Vec<u8>, CodecError>)
        requires
            self.wf(buffer@),
        ensures
            r is Ok <==> Self::spec_cancel_timeout_span(buffer@).len()
                == CANCEL_TIMEOUT_WIDTH as int,
            r is Ok ==> r->Ok_0@ == Self::spec_cancel_timeout_span(buffer@),
            r is Err ==> r->Err_0 == CodecError::FieldWidthMismatch,
    {
        let v = self.composite.field(buffer, CANCEL_TIMEOUT_INDEX);
        if v.len() == CANCEL_TIMEOUT_WIDTH {
            Ok(v.bytes(buffer))
        } else {
            Err(CodecError::FieldWidthMismatch)
        }
    }

    /// The cancellation timeout decoded as a little-endian 64-bit scalar;
    /// fails with `FieldWidthMismatch` unless its span is 8 bytes wide.
    pub fn cancel_timeout(&self, buffer: &Vec<u8>) -> (r: Result<u64, CodecError>)
        requires
            self.wf(buffer@),
        ensures
            r is Ok <==> Self::spec_cancel_timeout_span(buffer@).len()
                == CANCEL_TIMEOUT_WIDTH as int,
            r is Ok ==> r->Ok_0 == u64_le(Self::spec_cancel_timeout_span(buffer@)),
            r is Err ==> r->Err_0 == CodecError::FieldWidthMismatch,
    {
        let v = self.composite.field(buffer, CANCEL_TIMEOUT_INDEX);
        if v.len() == CANCEL_TIMEOUT_WIDTH {
            match read_u64_le(buffer, v, 0) {
                Ok(x) => {
                    proof {
                        assert(v.sel(buffer@).subrange(0, 8) =~= v.sel(buffer@));
                    }
                    Ok(x)
                },
                Err(e) => Err(e),
            }
        } else {
            Err(CodecError::FieldWidthMismatch)
        }
    }
}

/// Outcome of parsing a hex string as deposition lock arguments, stated over
/// the character sequence alone: the input must be well-formed hex, the
/// bytes a valid three-field composite, and the timeout field 8 bytes wide;
/// the result is that field's raw byte span.
pub open spec fn spec_parse_deposition_lock_args(s: Seq<char>) -> Result<Seq<u8>, CodecError> {
    if !hex_valid(s) {
        Err(CodecError::InvalidInput)
    } else {
        let buf = hex_bytes(s);
        if !composite_valid(buf, DEPOSITION_FIELD_COUNT as int) {
            Err(decode_error(buf, DEPOSITION_FIELD_COUNT as int))
        } else if field_span(buf, CANCEL_TIMEOUT_INDEX as int).len() != CANCEL_TIMEOUT_WIDTH as int {
            Err(CodecError::FieldWidthMismatch)
        } else {
            Ok(field_span(buf, CANCEL_TIMEOUT_INDEX as int))
        }
    }
}

/// Decodes `hex_string`, validates the bytes as a deposition lock arguments
/// composite, and returns the cancellation timeout field's raw bytes.
pub fn parse_deposition_lock_args(hex_string: &str) -> (r: Result<Vec<u8>, CodecError>)
    ensures
        r is Ok <==> spec_parse_deposition_lock_args(hex_string@) is Ok,
        r is Ok ==> r->Ok_0@ == spec_parse_deposition_lock_args(hex_string@)->Ok_0,
        r is Err ==> r->Err_0 == spec_parse_deposition_lock_args(hex_string@)->Err_0,
{
    let bytes = match decode_hex_str(hex_string) {
        Ok(b) => b,
        Err(_) => {
            return Err(CodecError::InvalidInput);
        },
    };
    let args = match DepositionLockArgs::from_slice(&bytes) {
        Ok(a) => a,
        Err(e) => {
            return Err(e);
        },
    };
    args.cancel_timeout_bytes(&bytes)
}

} // verus!
