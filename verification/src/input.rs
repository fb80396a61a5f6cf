use vstd::prelude::*;

use std::io::Read;

use crate::text::{chars_of, decimal, push_str};

verus! {

/// The most bytes any JSON input may have.
pub const MAX_INPUT_BYTES: u64 = 67108864;

#[verifier::external_type_specification]
#[verifier::external_body]
pub struct ExIoError(std::io::Error);

/// `Read::read_to_string` on a byte-slice reader: the text when the bytes
/// are valid UTF-8, else an error (whose kind and message std chooses).
#[verifier::external_body]
fn read_text(bytes: &[u8]) -> (r: Result<String, std::io::Error>)
    ensures
        r is Ok <==> vstd::utf8::valid_utf8(bytes@),
        r matches Ok(s) ==> vstd::utf8::encode_utf8(s@) == bytes@,
{
    let mut text = String::new();
    let mut reader = bytes;
    reader.read_to_string(&mut text).map(|_| text)
}

/// `std::io::Error::new(ErrorKind::InvalidData, message)`. The error is
/// opaque here: nothing is stated of its kind or message.
#[verifier::external_body]
fn invalid_data(message: String) -> (e: std::io::Error) {
    std::io::Error::new(std::io::ErrorKind::InvalidData, message)
}

/// The message of an input over the limit.
pub open spec fn over_limit_message(limit: nat) -> Seq<char> {
    "input exceeds the "@ + decimal(limit) + "-byte limit"@
}

/// The message of an input over the limit.
pub fn over_limit_text(limit: u64) -> (s: String)
    ensures
        s@ == over_limit_message(limit as nat),
{
    let mut out = chars_of("input exceeds the ");
    crate::text::push_decimal(&mut out, limit);
    push_str(&mut out, "-byte limit");
    crate::text::string_from_chars(out.as_slice())
}

/// Reads text from the input as a reader limited to `limit + 1` bytes would:
/// an input that is not UTF-8 within that prefix fails, and one longer than
/// `limit` bytes fails with `InvalidData` ("input exceeds the N-byte limit"),
/// so nothing past the sentinel byte is ever looked at.
pub fn read_bounded(input: &[u8], limit: u64) -> (r: Result<String, std::io::Error>)
    requires
        limit < u64::MAX,
    ensures
        ({
            let seen = input@.take(if input@.len() <= limit { input@.len() as int } else { limit + 1 });
            &&& r is Ok <==> (vstd::utf8::valid_utf8(seen) && input@.len() <= limit)
            &&& r matches Ok(s) ==> vstd::utf8::encode_utf8(s@) == input@
        }),
{
    let n: usize = if (input.len() as u64) <= limit {
        input.len()
    } else {
        (limit + 1) as usize
    };
    let seen = vstd::slice::slice_subrange(input, 0, n);
    assert(seen@ =~= input@.take(n as int));
    match read_text(seen) {
        Err(e) => Err(e),
        Ok(text) => {
            if (input.len() as u64) > limit {
                Err(invalid_data(over_limit_text(limit)))
            } else {
                assert(input@.take(n as int) =~= input@);
                Ok(text)
            }
        },
    }
}

} // verus!
